use navetted::api::{
    attach_session, detach_session, dispatch, finish_kill, list_sessions, running_sessions,
    ApiFailure, Cleanup, ErrorCode, Plan, RequestCommand, Response, ResponseResult, RunAction,
    RunEvent, RunFlow, Undo,
};
use navetted::app_index::AppIndex;
use navetted::protocol::{App, Session, SessionStatus};
use navetted::registry::{Registry, RegistryError, RegistryFile};
use navetted::supervisor::SupervisorError;
use navetted::thumbnails::{Thumbnail, ThumbnailStore};

fn apps() -> AppIndex {
    AppIndex::from_apps(vec![App {
        id: "firefox".into(),
        name: "Firefox".into(),
        icon: None,
        categories: vec!["Network".into()],
        argv: vec!["firefox".into()],
        terminal: false,
    }])
}

fn session(name: &str, status: SessionStatus) -> Session {
    Session {
        name: name.into(),
        app_id: "firefox".into(),
        app_pid: 10,
        daemon_pid: 11,
        wayland_display: format!("navette-{name}"),
        socket_path: format!("/tmp/{name}.sock"),
        created_at_ms: 1,
        last_attached_at_ms: None,
        client_count: 0,
        status,
    }
}

fn saved(_: &RegistryFile) -> Result<(), String> {
    Ok(())
}

fn registry(names: &[(&str, SessionStatus)]) -> Registry {
    let mut registry = Registry::open("registry.json".into(), None).unwrap();
    for (name, status) in names {
        registry.insert(session(name, *status), saved).unwrap();
    }
    registry
}

fn failure(plan: Plan) -> ApiFailure {
    match plan {
        Plan::Answer(Err(failure)) => failure,
        _ => panic!("the request was taken"),
    }
}

#[test]
fn unknown_app_is_structured_not_found() {
    let command = RequestCommand::Run { app_id: "missing".into(), name: None };
    let failure = failure(dispatch(&apps(), command));
    assert_eq!(failure.code, ErrorCode::NotFound);
    assert_eq!(failure.message, "application not found: missing");
    let response = Response::new(7, Err(failure));
    assert_eq!(response.request_id, 7);
}

#[test]
fn applications_are_listed_at_once() {
    match dispatch(&apps(), RequestCommand::ListApps) {
        Plan::Answer(Ok(ResponseResult::Apps { apps })) => {
            assert_eq!(apps.len(), 1);
            assert_eq!(apps[0].id, "firefox");
            assert_eq!(apps[0].categories, ["Network"]);
        }
        _ => panic!("no list"),
    }
}

#[test]
fn names_are_checked_before_anything_is_done() {
    let run = |name: Option<&str>| RequestCommand::Run {
        app_id: "firefox".into(),
        name: name.map(|n| n.to_string()),
    };
    let refused = failure(dispatch(&apps(), run(Some("Not A Name"))));
    assert_eq!(refused.code, ErrorCode::InvalidName);
    assert_eq!(refused.message, "invalid session name");
    match dispatch(&apps(), run(None)) {
        Plan::Run { app, name } => {
            assert_eq!(app.id, "firefox");
            assert_eq!(name, "firefox");
        }
        _ => panic!("the application is not run"),
    }
    let refused = failure(dispatch(&apps(), RequestCommand::Kill { session: "../x".into() }));
    assert_eq!(refused.message, "invalid session name: ../x");
    let refused = failure(dispatch(&apps(), RequestCommand::Attach { session: "".into() }));
    assert_eq!(refused.code, ErrorCode::InvalidName);
    assert_eq!(
        dispatch(&apps(), RequestCommand::Detach { session: "../x".into() }),
        Plan::Detach { session: "../x".into() }
    );
    assert_eq!(dispatch(&apps(), RequestCommand::ListSessions), Plan::ListSessions);
    assert_eq!(
        dispatch(&apps(), RequestCommand::Kill { session: "work".into() }),
        Plan::Kill { session: "work".into() }
    );
}

#[test]
fn attaching_counts_and_tells_where_the_display_is() {
    let mut registry = registry(&[("work", SessionStatus::Running)]);
    match attach_session(&mut registry, "work", 200, saved).unwrap() {
        ResponseResult::Attach { attach } => {
            assert_eq!(attach.session, "work");
            assert_eq!(attach.socket_path, "/tmp/work.sock");
        }
        _ => panic!("not attached"),
    }
    assert_eq!(registry.get("work").unwrap().client_count, 1);
    assert_eq!(detach_session(&mut registry, "work", saved), Ok(ResponseResult::Ack));
    assert_eq!(registry.get("work").unwrap().client_count, 0);

    let missing = attach_session(&mut registry, "other", 200, saved).unwrap_err();
    assert_eq!(missing.code, ErrorCode::NotFound);
    assert_eq!(missing.message, "session not found: other");
    let unsaved = detach_session(&mut registry, "work", |_| Err("full".into())).unwrap_err();
    assert_eq!(unsaved.code, ErrorCode::Internal);
    assert_eq!(unsaved.message, "failed to persist registry registry.json: full");
}

#[test]
fn sessions_are_listed_and_the_running_ones_resumed() {
    let registry = registry(&[
        ("b", SessionStatus::Running),
        ("a", SessionStatus::Stopped),
        ("c", SessionStatus::Starting),
    ]);
    match list_sessions(&registry) {
        ResponseResult::Sessions { sessions } => {
            let names: Vec<&str> = sessions.iter().map(|s| s.name.as_str()).collect();
            assert_eq!(names, ["a", "b", "c"]);
        }
        _ => panic!("no list"),
    }
    let running: Vec<String> = running_sessions(&registry).into_iter().map(|s| s.name).collect();
    assert_eq!(running, ["b"]);
}

fn started() -> RunEvent {
    RunEvent::Started(Ok(session("work", SessionStatus::Running)))
}

#[test]
fn run_starts_a_reused_name_with_no_stale_thumbnail() {
    let mut thumbnails = ThumbnailStore::default();
    thumbnails.put("work", thumbnail(8), 1);
    let mut flow = RunFlow::new();
    match flow.advance(started()) {
        RunAction::ForgetThumbnail { session } => {
            assert_eq!(session, "work");
            thumbnails.remove(&session);
        }
        _ => panic!("the stale picture is still there"),
    }
    assert!(
        thumbnails.get("work").is_none(),
        "a stale entry under a reused name must be cleared before the new session serves"
    );
    assert!(matches!(
        flow.advance(RunEvent::Forgotten),
        RunAction::ActivateBlobs { session } if session == "work"
    ));
    assert!(matches!(
        flow.advance(RunEvent::BlobsActivated(Ok(()))),
        RunAction::ActivateFiles { session } if session == "work"
    ));
    assert!(matches!(
        flow.advance(RunEvent::FilesActivated(Ok(()))),
        RunAction::StartBridge { session } if session.name == "work"
    ));
    assert!(matches!(
        flow.advance(RunEvent::BridgeStarted(Ok(()))),
        RunAction::Done { session } if session.name == "work"
    ));
}

fn failed(action: RunAction) -> (Vec<Undo>, ApiFailure) {
    match action {
        RunAction::Failed { undo, failure } => (undo, failure),
        _ => panic!("the run went on"),
    }
}

#[test]
fn a_run_that_fails_is_undone() {
    let mut flow = RunFlow::new();
    let error = SupervisorError::Registry(RegistryError::AlreadyExists("work".into()));
    let (undo, failure) = failed(flow.advance(RunEvent::Started(Err(error))));
    assert!(undo.is_empty());
    assert_eq!(failure.code, ErrorCode::AlreadyExists);
    assert_eq!(failure.message, "session already exists: work");

    let mut flow = RunFlow::new();
    flow.advance(started());
    flow.advance(RunEvent::Forgotten);
    let (undo, failure) = failed(flow.advance(RunEvent::BlobsActivated(Err("x".into()))));
    assert_eq!(undo, [Undo::KillSession]);
    assert_eq!(failure.code, ErrorCode::Internal);
    assert_eq!(failure.message, "failed to initialize clipboard blob namespace: x");

    let mut flow = RunFlow::new();
    flow.advance(started());
    flow.advance(RunEvent::Forgotten);
    flow.advance(RunEvent::BlobsActivated(Ok(())));
    let (undo, failure) = failed(flow.advance(RunEvent::FilesActivated(Err("y".into()))));
    assert_eq!(undo, [Undo::DeactivateBlobs, Undo::KillSession]);
    assert_eq!(failure.message, "failed to initialize file drop namespace: y");

    let mut flow = RunFlow::new();
    flow.advance(started());
    flow.advance(RunEvent::Forgotten);
    flow.advance(RunEvent::BlobsActivated(Ok(())));
    flow.advance(RunEvent::FilesActivated(Ok(())));
    let (undo, failure) = failed(flow.advance(RunEvent::BridgeStarted(Err("z".into()))));
    assert_eq!(undo, [Undo::DeactivateFiles, Undo::DeactivateBlobs, Undo::KillSession]);
    assert_eq!(failure.message, "failed to start media bridge: z");
}

#[test]
fn failed_kill_keeps_the_running_blob_namespace_live() {
    let error = SupervisorError::Terminate { pid: 10, source: "injected".into() };
    let (cleanup, answer) = finish_kill(Err(error));
    assert!(cleanup.is_empty());
    let failure = answer.unwrap_err();
    assert_eq!(failure.code, ErrorCode::ProcessFailed);
    assert_eq!(failure.message, "failed to terminate PID 10: injected");
}

fn thumbnail(len: usize) -> Thumbnail {
    Thumbnail { jpeg: vec![0xab; len], width: 320, height: 180 }
}

#[test]
fn kill_drops_the_sessions_thumbnail_with_its_other_state() {
    let mut thumbnails = ThumbnailStore::default();
    thumbnails.put("work", thumbnail(8), 1);
    thumbnails.put("other", thumbnail(8), 1);
    let plan = dispatch(&apps(), RequestCommand::Kill { session: "work".into() });
    assert!(matches!(plan, Plan::Kill { session } if session == "work"));

    let (cleanup, answer) = finish_kill(Ok(session("work", SessionStatus::Running)));
    assert_eq!(
        cleanup,
        [
            Cleanup::DeactivateBlobs,
            Cleanup::DeactivateFiles,
            Cleanup::StopBridge,
            Cleanup::ForgetThumbnail
        ]
    );
    assert_eq!(answer, Ok(ResponseResult::Ack));
    for step in cleanup {
        if step == Cleanup::ForgetThumbnail {
            thumbnails.remove("work");
        }
    }
    assert!(thumbnails.get("work").is_none());
    assert!(thumbnails.get("other").is_some(), "only the killed session's thumbnail goes");
}

#[test]
fn failures_have_codes() {
    let supervisor = |error: SupervisorError| ApiFailure::from_supervisor(&error).code;
    assert_eq!(supervisor(SupervisorError::InvalidApp("x".into())), ErrorCode::Unavailable);
    assert_eq!(supervisor(SupervisorError::ReadinessTimeout), ErrorCode::ProcessFailed);
    assert_eq!(
        supervisor(SupervisorError::Spawn { program: "x".into(), source: "y".into() }),
        ErrorCode::ProcessFailed
    );
    assert_eq!(supervisor(SupervisorError::Clock), ErrorCode::Internal);
    assert_eq!(
        supervisor(SupervisorError::Registry(RegistryError::UnsupportedVersion(3))),
        ErrorCode::Internal
    );
    assert_eq!(
        ApiFailure::registry_lock(),
        ApiFailure {
            code: ErrorCode::Internal,
            message: "session registry lock is poisoned".into()
        }
    );
    assert_eq!(
        ApiFailure::from_registry(&RegistryError::NotFound("x".into())).code,
        ErrorCode::NotFound
    );
}

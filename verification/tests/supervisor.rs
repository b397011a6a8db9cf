use std::cell::RefCell;
use std::collections::BTreeSet;

use navetted::protocol::{App, Session, SessionStatus};
use navetted::registry::{Registry, RegistryError, RegistryFile};
use navetted::supervisor::{
    clock_ms, group_target, means_alive, means_ended, process_target, KillAction, KillEvent,
    ProcessRunner, ProcessSpec, SessionResources, SignalOutcome, StartAction, StartEvent,
    StopAction, StopEvent, Supervisor, SupervisorError,
};

struct FakeState {
    next_pid: u32,
    spawned: Vec<(String, Vec<String>, Vec<(String, String)>)>,
    alive: BTreeSet<u32>,
    terminated: Vec<(u32, bool)>,
    fail_program: Option<String>,
    deaf: bool,
    files: BTreeSet<String>,
}

struct FakeRunner {
    state: RefCell<FakeState>,
    create_sockets: bool,
}

impl FakeRunner {
    fn new() -> Self {
        FakeRunner {
            state: RefCell::new(FakeState {
                next_pid: 100,
                spawned: Vec::new(),
                alive: BTreeSet::new(),
                terminated: Vec::new(),
                fail_program: None,
                deaf: false,
                files: BTreeSet::new(),
            }),
            create_sockets: true,
        }
    }

    fn without_sockets() -> Self {
        FakeRunner { create_sockets: false, ..FakeRunner::new() }
    }
}

impl ProcessRunner for FakeRunner {
    fn spawn(&self, spec: ProcessSpec) -> Result<u32, String> {
        let mut state = self.state.borrow_mut();
        if state.fail_program.as_ref() == Some(&spec.program) {
            return Err("injected spawn failure".into());
        }
        let pid = state.next_pid;
        state.next_pid += 1;
        state.alive.insert(pid);
        if self.create_sockets && spec.program == "wprsd-test" {
            for arg in &spec.args {
                if let Some(display) = arg.strip_prefix("--wayland-display=") {
                    state.files.insert(format!("/runtime/{display}"));
                }
                if let Some(socket) = arg.strip_prefix("--socket=") {
                    state.files.insert(socket.to_string());
                }
            }
        }
        state.spawned.push((spec.program, spec.args, spec.env));
        Ok(pid)
    }

    fn is_alive(&self, pid: u32) -> bool {
        self.state.borrow().alive.contains(&pid)
    }

    fn terminate(&self, pid: u32, force: bool) -> Result<(), String> {
        let mut state = self.state.borrow_mut();
        state.terminated.push((pid, force));
        if force || !state.deaf {
            state.alive.remove(&pid);
        }
        Ok(())
    }
}

fn app() -> App {
    App {
        id: "firefox".into(),
        name: "Firefox".into(),
        icon: None,
        categories: Vec::new(),
        argv: vec!["firefox".into(), "--new-instance".into()],
        terminal: false,
    }
}

struct Harness {
    supervisor: Supervisor<FakeRunner>,
    registry: Registry,
    now_ms: u64,
    removed: Vec<String>,
}

fn saved(_: &RegistryFile) -> Result<(), String> {
    Ok(())
}

impl Harness {
    fn new(runner: FakeRunner) -> Self {
        Harness {
            supervisor: Supervisor::new(runner, "/runtime".into(), "wprsd-test".into())
                .with_timeouts(20, 20, 1),
            registry: Registry::open("registry.json".into(), None).unwrap(),
            now_ms: 0,
            removed: Vec::new(),
        }
    }

    fn state(&self) -> std::cell::Ref<'_, FakeState> {
        self.supervisor.runner().state.borrow()
    }

    fn start(&mut self, app: &App, name: Option<&str>) -> Result<(), SupervisorError> {
        let (mut start, mut action) = self.supervisor.start(app, name, &self.registry)?;
        loop {
            let event = match action {
                StartAction::CreateDirectory { path } => {
                    assert!(path.starts_with("/runtime/navette/"));
                    StartEvent::DirectoryCreated(Ok(()))
                }
                StartAction::SpawnDaemon(spec) => StartEvent::DaemonSpawned {
                    outcome: self.supervisor.spawn(spec),
                    now_ms: self.now_ms,
                },
                StartAction::Poll { socket_path, wayland_socket, daemon_pid } => {
                    self.poll(&socket_path, &wayland_socket, daemon_pid)
                }
                StartAction::PollLater { socket_path, wayland_socket, daemon_pid } => {
                    self.now_ms += self.supervisor.poll_interval_ms();
                    self.poll(&socket_path, &wayland_socket, daemon_pid)
                }
                StartAction::SpawnApp(spec) => StartEvent::AppSpawned {
                    outcome: self.supervisor.spawn(spec),
                    created_at_ms: clock_ms(Some(1234)),
                },
                StartAction::Register(session) => {
                    StartEvent::Registered(self.registry.insert(session, saved))
                }
                StartAction::Done => return Ok(()),
                StartAction::Failed { terminate, error } => {
                    for pid in terminate {
                        let _ = self.supervisor.runner().terminate(pid, true);
                    }
                    return Err(error);
                }
            };
            action = self.supervisor.advance(&mut start, event);
        }
    }

    fn poll(&self, socket_path: &str, wayland_socket: &str, daemon_pid: u32) -> StartEvent {
        let files = &self.state().files;
        StartEvent::Polled {
            sockets_exist: files.contains(socket_path) && files.contains(wayland_socket),
            daemon_alive: self.supervisor.runner().is_alive(daemon_pid),
            now_ms: self.now_ms,
        }
    }

    fn kill(&mut self, name: &str) -> Result<Session, SupervisorError> {
        let (mut kill, mut action) = self.supervisor.kill(name, &self.registry)?;
        loop {
            let event = match action {
                KillAction::Stop { pid, action } => KillEvent::Stop(match action {
                    StopAction::Look => self.look(pid),
                    StopAction::LookLater => {
                        self.now_ms += self.supervisor.poll_interval_ms();
                        self.look(pid)
                    }
                    StopAction::Terminate { force } => StopEvent::Terminated {
                        outcome: self.supervisor.runner().terminate(pid, force),
                        now_ms: self.now_ms,
                    },
                    StopAction::Stopped | StopAction::Failed(_) => unreachable!(),
                }),
                KillAction::Remove { name } => {
                    KillEvent::Removed(self.registry.remove(&name, saved))
                }
                KillAction::Done { session, directories, socket } => {
                    self.removed.extend(directories);
                    self.removed.push(socket);
                    let mut state = self.supervisor.runner().state.borrow_mut();
                    for path in &self.removed {
                        let inside = format!("{path}/");
                        state.files.retain(|file| file != path && !file.starts_with(&inside));
                    }
                    return Ok(session);
                }
                KillAction::Failed(error) => return Err(error),
            };
            action = self.supervisor.advance_kill(&mut kill, event);
        }
    }

    fn look(&self, pid: u32) -> StopEvent {
        StopEvent::Looked { alive: self.supervisor.runner().is_alive(pid), now_ms: self.now_ms }
    }
}

fn pair(name: &str, value: &str) -> (String, String) {
    (name.to_string(), value.to_string())
}

#[test]
fn starts_daemon_then_app_with_isolated_resources() {
    let mut harness = Harness::new(FakeRunner::new());

    harness.start(&app(), Some("work")).unwrap();
    let session = harness.registry.get("work").unwrap().clone();
    assert_eq!(session.daemon_pid, 100);
    assert_eq!(session.app_pid, 101);
    assert_eq!(session.wayland_display, "navette-work");
    assert!(session.socket_path.ends_with("navette/work/wprs.sock"));
    assert_eq!(session.created_at_ms, 1234);
    assert_eq!(session.status, SessionStatus::Running);

    let state = harness.state();
    assert_eq!(state.spawned[0].0, "wprsd-test");
    assert_eq!(
        state.spawned[0].1,
        ["--wayland-display=navette-work", "--socket=/runtime/navette/work/wprs.sock"]
    );
    assert_eq!(state.spawned[1].0, "firefox");
    assert_eq!(state.spawned[1].1, ["--new-instance"]);
    assert_eq!(
        state.spawned[1].2,
        [pair("WAYLAND_DISPLAY", "navette-work"), pair("XDG_RUNTIME_DIR", "/runtime")]
    );
}

#[test]
fn spawned_processes_receive_the_supervisor_runtime_dir() {
    let mut harness = Harness::new(FakeRunner::new());
    harness.start(&app(), Some("work")).unwrap();

    let state = harness.state();
    assert_eq!(state.spawned.len(), 2);
    for (program, _, env) in &state.spawned {
        assert!(
            env.contains(&pair("XDG_RUNTIME_DIR", "/runtime")),
            "{program} was spawned without the supervisor's runtime dir"
        );
    }
}

#[test]
fn rejects_duplicate_session_before_spawning() {
    let mut harness = Harness::new(FakeRunner::new());
    harness.start(&app(), Some("work")).unwrap();

    let error = harness.start(&app(), Some("work")).unwrap_err();
    assert!(matches!(error, SupervisorError::Registry(RegistryError::AlreadyExists(_))));
    assert_eq!(harness.state().spawned.len(), 2);
}

#[test]
fn rolls_back_daemon_when_app_spawn_fails() {
    let mut harness = Harness::new(FakeRunner::new());
    harness.supervisor.runner().state.borrow_mut().fail_program = Some("firefox".into());

    let error = harness.start(&app(), Some("work")).unwrap_err();
    assert_eq!(error.message(), "failed to spawn firefox: injected spawn failure");
    assert!(matches!(error, SupervisorError::Spawn { .. }));
    assert_eq!(harness.state().terminated, [(100, true)]);
    assert!(harness.registry.get("work").is_none());
}

#[test]
fn times_out_and_kills_unready_daemon() {
    let mut harness = Harness::new(FakeRunner::without_sockets());

    assert!(matches!(
        harness.start(&app(), Some("work")),
        Err(SupervisorError::ReadinessTimeout)
    ));
    assert_eq!(harness.state().terminated, [(100, true)]);
    assert_eq!(harness.now_ms, 20);
}

#[test]
fn kill_stops_both_processes_and_removes_session() {
    let mut harness = Harness::new(FakeRunner::new());
    harness.start(&app(), Some("work")).unwrap();
    let blob_dir = format!("{}/work/", harness.supervisor.blob_root());
    harness
        .supervisor
        .runner()
        .state
        .borrow_mut()
        .files
        .insert(format!("{blob_dir}stale-blob"));

    let removed = harness.kill("work").unwrap();
    assert_eq!(removed.name, "work");
    assert!(harness.registry.get("work").is_none());
    assert_eq!(
        harness.removed,
        ["/runtime/navette/work", "/runtime/navette-blobs/work", "/runtime/navette-work"]
    );
    assert!(
        !harness.state().files.iter().any(|file| file.starts_with(&blob_dir)),
        "killing a session must discard its blob namespace before the name can be reused"
    );
    harness.start(&app(), Some("work")).unwrap();
    assert!(
        !harness.state().files.iter().any(|file| file.starts_with(&blob_dir)),
        "recreating the same session name must not resurrect stale blob data"
    );
    assert_eq!(harness.state().terminated, [(101, false), (100, false)]);
}

#[test]
fn a_process_that_does_not_end_is_forced_to() {
    let mut harness = Harness::new(FakeRunner::new());
    harness.start(&app(), Some("work")).unwrap();
    harness.supervisor.runner().state.borrow_mut().deaf = true;

    harness.kill("work").unwrap();
    assert_eq!(
        harness.state().terminated,
        [(101, false), (101, true), (100, false), (100, true)]
    );
    assert_eq!(harness.now_ms, 40);
}

#[test]
fn a_failed_kill_keeps_the_record() {
    let mut harness = Harness::new(FakeRunner::new());
    harness.start(&app(), Some("work")).unwrap();

    let (mut kill, action) = harness.supervisor.kill("work", &harness.registry).unwrap();
    assert!(matches!(action, KillAction::Stop { pid: 101, action: StopAction::Look }));
    let action = harness
        .supervisor
        .advance_kill(&mut kill, KillEvent::Stop(StopEvent::Looked { alive: true, now_ms: 0 }));
    assert!(matches!(
        action,
        KillAction::Stop { pid: 101, action: StopAction::Terminate { force: false } }
    ));
    let action = harness.supervisor.advance_kill(
        &mut kill,
        KillEvent::Stop(StopEvent::Terminated { outcome: Err("denied".into()), now_ms: 0 }),
    );
    match action {
        KillAction::Failed(error) => {
            assert_eq!(error.message(), "failed to terminate PID 101: denied");
        }
        _ => panic!("the kill went on"),
    }
    assert!(harness.registry.get("work").is_some());
    let missing = harness.supervisor.kill("other", &harness.registry);
    assert!(matches!(
        missing,
        Err(SupervisorError::Registry(RegistryError::NotFound(name))) if name == "other"
    ));
}

#[test]
fn reconcile_uses_runner_liveness() {
    let mut harness = Harness::new(FakeRunner::new());
    harness
        .registry
        .insert(
            Session {
                name: "work".into(),
                app_id: "firefox".into(),
                app_pid: 100,
                daemon_pid: 101,
                wayland_display: "navette-work".into(),
                socket_path: "/run/work.sock".into(),
                created_at_ms: 0,
                last_attached_at_ms: None,
                client_count: 1,
                status: SessionStatus::Running,
            },
            saved,
        )
        .unwrap();

    let (changed, directories) = harness.supervisor.reconcile(&mut harness.registry, saved).unwrap();
    assert!(changed);
    assert_eq!(harness.registry.get("work").unwrap().status, SessionStatus::Stopped);
    assert_eq!(harness.registry.get("work").unwrap().client_count, 0);
    assert_eq!(
        directories,
        ["/runtime/navette-blobs/work"],
        "crash reconciliation must remove stale blob namespaces"
    );

    let (changed, directories) = harness.supervisor.reconcile(&mut harness.registry, saved).unwrap();
    assert!(!changed);
    assert!(directories.is_empty());
}

#[test]
fn an_application_without_a_command_is_refused() {
    let mut harness = Harness::new(FakeRunner::new());
    let mut empty = app();
    empty.argv.clear();
    let error = harness.start(&empty, None).unwrap_err();
    assert_eq!(error.message(), "application has no executable: firefox");
    assert!(matches!(
        harness.start(&app(), Some("Not A Name")),
        Err(SupervisorError::Registry(RegistryError::InvalidName(_)))
    ));
    harness.start(&app(), None).unwrap();
    assert!(harness.registry.get("firefox").is_some());
}

#[test]
fn a_failed_registration_ends_both_processes() {
    let harness = Harness::new(FakeRunner::new());
    let (mut start, _) = harness.supervisor.start(&app(), Some("work"), &harness.registry).unwrap();
    let supervisor = &harness.supervisor;
    supervisor.advance(&mut start, StartEvent::DirectoryCreated(Ok(())));
    supervisor.advance(&mut start, StartEvent::DaemonSpawned { outcome: Ok(7), now_ms: 0 });
    supervisor.advance(
        &mut start,
        StartEvent::Polled { sockets_exist: true, daemon_alive: true, now_ms: 0 },
    );
    supervisor.advance(&mut start, StartEvent::AppSpawned { outcome: Ok(8), created_at_ms: Some(1) });
    let error = RegistryError::Persist { path: "p".into(), source: "full".into() };
    match supervisor.advance(&mut start, StartEvent::Registered(Err(error))) {
        StartAction::Failed { terminate, error } => {
            assert_eq!(terminate, [8, 7]);
            assert_eq!(error.message(), "failed to persist registry p: full");
        }
        _ => panic!("the start went on"),
    }
}

#[test]
fn a_directory_that_cannot_be_created_ends_the_start() {
    let harness = Harness::new(FakeRunner::new());
    let (mut start, _) = harness.supervisor.start(&app(), Some("work"), &harness.registry).unwrap();
    let event = StartEvent::DirectoryCreated(Err("denied".into()));
    match harness.supervisor.advance(&mut start, event) {
        StartAction::Failed { terminate, error } => {
            assert!(terminate.is_empty());
            assert_eq!(
                error.message(),
                "failed to create runtime directory /runtime/navette/work: denied"
            );
        }
        _ => panic!("the start went on"),
    }
}

#[test]
fn resources_are_named_after_the_session() {
    let resources = SessionResources::new("/run/user/1000", "work");
    assert_eq!(resources.runtime_dir, "/run/user/1000/navette/work");
    assert_eq!(resources.wayland_display, "navette-work");
    assert_eq!(resources.wayland_socket, "/run/user/1000/navette-work");
    assert_eq!(resources.socket_path, "/run/user/1000/navette/work/wprs.sock");
}

#[test]
fn signals_reach_processes_and_groups() {
    assert_eq!(process_target(42), Some(42));
    assert_eq!(group_target(42), Some(-42));
    assert_eq!(process_target(u32::MAX), None);
    assert_eq!(group_target(0x8000_0000), None);
    assert!(means_alive(SignalOutcome::Delivered));
    assert!(means_alive(SignalOutcome::NotPermitted));
    assert!(!means_alive(SignalOutcome::NoSuchProcess));
    assert!(!means_alive(SignalOutcome::Failed(22)));
    assert!(means_ended(SignalOutcome::NoSuchProcess));
    assert!(!means_ended(SignalOutcome::NotPermitted));
    assert_eq!(clock_ms(None), None);
    assert_eq!(clock_ms(Some(u128::MAX)), None);
}

#[test]
fn the_remaining_failures_have_messages() {
    assert_eq!(
        SupervisorError::ReadinessTimeout.message(),
        "wprsd did not create session sockets before timeout"
    );
    assert_eq!(SupervisorError::Clock.message(), "system clock is before the Unix epoch");
    assert_eq!(SupervisorError::RegistryLock.message(), "session registry lock is poisoned");
}

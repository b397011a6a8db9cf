//! The control interface: what a request asks for, the steps that starting and
//! ending a session take, and what the client is told.

use vstd::prelude::*;

use crate::app_index::AppIndex;
use crate::protocol::{App, Session, SessionStatus};
use crate::registry::{
    default_session_name, validate_session_name, Registry, RegistryError, RegistryFile,
};
use crate::supervisor::SupervisorError;
use crate::text::join2;

verus! {

broadcast use vstd::string::group_string_axioms;

#[derive(Debug, PartialEq, Eq)]
pub enum RequestCommand {
    ListApps,
    ListSessions,
    Run { app_id: String, name: Option<String> },
    Kill { session: String },
    Attach { session: String },
    Detach { session: String },
}

#[derive(Debug, PartialEq, Eq)]
pub struct Request {
    pub request_id: u64,
    pub command: RequestCommand,
}

#[derive(Clone, Copy, Debug, PartialEq, Eq, Structural)]
pub enum ErrorCode {
    InvalidRequest,
    InvalidName,
    AlreadyExists,
    NotFound,
    Unavailable,
    ProcessFailed,
    Internal,
}

/// Where the display of a session can be reached.
#[derive(Debug, PartialEq, Eq)]
pub struct AttachInfo {
    pub session: String,
    pub socket_path: String,
}

#[derive(Debug, PartialEq, Eq)]
pub enum ResponseResult {
    Apps { apps: Vec<App> },
    Sessions { sessions: Vec<Session> },
    Session { session: Session },
    Attach { attach: AttachInfo },
    Ack,
}

/// A request that failed: the code and the message for the client.
#[derive(Debug, PartialEq, Eq)]
pub struct ApiFailure {
    pub code: ErrorCode,
    pub message: String,
}

#[derive(Debug, PartialEq, Eq)]
pub struct Response {
    pub request_id: u64,
    pub outcome: Result<ResponseResult, ApiFailure>,
}

/// `failure` has that code and message.
pub open spec fn failed_with(failure: ApiFailure, code: ErrorCode, message: Seq<char>) -> bool {
    failure.code == code && failure.message@ == message
}

/// The code that a failure of the registry has.
pub open spec fn registry_code(error: RegistryError) -> ErrorCode {
    match error {
        RegistryError::InvalidName(_) => ErrorCode::InvalidName,
        RegistryError::AlreadyExists(_) => ErrorCode::AlreadyExists,
        RegistryError::NotFound(_) => ErrorCode::NotFound,
        RegistryError::Read { .. } => ErrorCode::Internal,
        RegistryError::Decode { .. } => ErrorCode::Internal,
        RegistryError::UnsupportedVersion(_) => ErrorCode::Internal,
        RegistryError::Persist { .. } => ErrorCode::Internal,
    }
}

/// The code that a failure of the supervisor has.
pub open spec fn supervisor_code(error: SupervisorError) -> ErrorCode {
    match error {
        SupervisorError::Registry(error) => registry_code(error),
        SupervisorError::InvalidApp(_) => ErrorCode::Unavailable,
        SupervisorError::Spawn { .. } => ErrorCode::ProcessFailed,
        SupervisorError::ReadinessTimeout => ErrorCode::ProcessFailed,
        SupervisorError::Terminate { .. } => ErrorCode::ProcessFailed,
        SupervisorError::RuntimeDirectory { .. } => ErrorCode::Internal,
        SupervisorError::Clock => ErrorCode::Internal,
        SupervisorError::RegistryLock => ErrorCode::Internal,
    }
}

fn code_of_registry(error: &RegistryError) -> (r: ErrorCode)
    ensures
        r == registry_code(*error),
{
    match error {
        RegistryError::InvalidName(_) => ErrorCode::InvalidName,
        RegistryError::AlreadyExists(_) => ErrorCode::AlreadyExists,
        RegistryError::NotFound(_) => ErrorCode::NotFound,
        _ => ErrorCode::Internal,
    }
}

impl ApiFailure {
    /// Something that is not the client's fault.
    pub fn internal(message: String) -> (r: Self)
        ensures
            failed_with(r, ErrorCode::Internal, message@),
    {
        ApiFailure { code: ErrorCode::Internal, message }
    }

    pub fn from_registry(error: &RegistryError) -> (r: Self)
        ensures
            failed_with(r, registry_code(*error), error.message_text()),
    {
        ApiFailure { code: code_of_registry(error), message: error.message() }
    }

    pub fn from_supervisor(error: &SupervisorError) -> (r: Self)
        ensures
            failed_with(r, supervisor_code(*error), error.message_text()),
    {
        let code = match error {
            SupervisorError::Registry(error) => code_of_registry(error),
            SupervisorError::InvalidApp(_) => ErrorCode::Unavailable,
            SupervisorError::Spawn { .. } => ErrorCode::ProcessFailed,
            SupervisorError::ReadinessTimeout => ErrorCode::ProcessFailed,
            SupervisorError::Terminate { .. } => ErrorCode::ProcessFailed,
            _ => ErrorCode::Internal,
        };
        ApiFailure { code, message: error.message() }
    }

    /// The registry cannot be used any more.
    pub fn registry_lock() -> (r: Self)
        ensures
            failed_with(r, ErrorCode::Internal, "session registry lock is poisoned"@),
    {
        ApiFailure::internal("session registry lock is poisoned".to_owned())
    }
}

impl Response {
    /// The answer to a request.
    pub fn new(request_id: u64, outcome: Result<ResponseResult, ApiFailure>) -> (r: Self)
        ensures
            r == (Response { request_id, outcome }),
    {
        Response { request_id, outcome }
    }

    pub fn error(request_id: u64, code: ErrorCode, message: String) -> (r: Self)
        ensures
            r.request_id == request_id,
            r.outcome is Err,
            failed_with(r.outcome->Err_0, code, message@),
    {
        Response { request_id, outcome: Err(ApiFailure { code, message }) }
    }
}

/// What is to be done for a request.
#[derive(Debug, PartialEq, Eq)]
pub enum Plan {
    /// Nothing: this is the answer.
    Answer(Result<ResponseResult, ApiFailure>),
    ListSessions,
    /// Start the application under that name.
    Run { app: App, name: String },
    Kill { session: String },
    Attach { session: String },
    Detach { session: String },
}

/// The name that a session is started under.
pub open spec fn run_name(app: crate::protocol::Application, name: Option<String>) -> Seq<char> {
    match name {
        Some(name) => name@,
        None => crate::registry::default_name(app.id),
    }
}

/// What is to be done for a request to start an application.
pub open spec fn run_plan(
    apps: Map<Seq<char>, crate::protocol::Application>,
    app_id: Seq<char>,
    name: Option<String>,
    plan: Plan,
) -> bool {
    if !apps.dom().contains(app_id) {
        plan matches Plan::Answer(Err(failure)) && failed_with(
            failure,
            ErrorCode::NotFound,
            "application not found: "@ + app_id,
        )
    } else if !crate::registry::valid_name(run_name(apps[app_id], name)) {
        plan matches Plan::Answer(Err(failure)) && failed_with(
            failure,
            ErrorCode::InvalidName,
            "invalid session name"@,
        )
    } else {
        &&& plan matches Plan::Run { app, name: wanted }
        &&& app@ == apps[app_id]
        &&& wanted@ == run_name(apps[app_id], name)
    }
}

/// What is to be done for a request.
pub open spec fn plan_for(
    apps: Map<Seq<char>, crate::protocol::Application>,
    command: RequestCommand,
    plan: Plan,
) -> bool {
    match command {
        RequestCommand::ListApps => {
            &&& plan matches Plan::Answer(Ok(ResponseResult::Apps { apps: listed }))
            &&& crate::app_index::lists_apps(apps, listed@)
        },
        RequestCommand::ListSessions => plan == Plan::ListSessions,
        RequestCommand::Run { app_id, name } => run_plan(apps, app_id@, name, plan),
        RequestCommand::Kill { session } => if crate::registry::valid_name(session@) {
            plan == (Plan::Kill { session })
        } else {
            plan matches Plan::Answer(Err(failure)) && refused_name(failure, session@)
        },
        RequestCommand::Attach { session } => if crate::registry::valid_name(session@) {
            plan == (Plan::Attach { session })
        } else {
            plan matches Plan::Answer(Err(failure)) && refused_name(failure, session@)
        },
        RequestCommand::Detach { session } => plan == (Plan::Detach { session }),
    }
}

/// The failure for a name that is none.
pub open spec fn refused_name(failure: ApiFailure, session: Seq<char>) -> bool {
    failed_with(failure, ErrorCode::InvalidName, "invalid session name: "@ + session)
}

fn check_name(session: String) -> (r: Result<String, ApiFailure>)
    ensures
        match r {
            Ok(name) => crate::registry::valid_name(session@) && name == session,
            Err(failure) => !crate::registry::valid_name(session@) && refused_name(
                failure,
                session@,
            ),
        },
{
    match validate_session_name(session.as_str()) {
        Ok(_) => Ok(session),
        Err(error) => {
            Err(ApiFailure::from_registry(&error))
        },
    }
}

/// Says what is to be done for a request.
pub fn dispatch(apps: &AppIndex, command: RequestCommand) -> (r: Plan)
    requires
        apps.wf(),
    ensures
        plan_for(apps@.apps, command, r),
{
    match command {
        RequestCommand::ListApps => Plan::Answer(Ok(ResponseResult::Apps { apps: apps.list() })),
        RequestCommand::ListSessions => Plan::ListSessions,
        RequestCommand::Run { app_id, name } => {
            let app = match apps.get(app_id.as_str()) {
                Some(app) => app.clone(),
                None => {
                    return Plan::Answer(
                        Err(
                            ApiFailure {
                                code: ErrorCode::NotFound,
                                message: join2("application not found: ", app_id.as_str()),
                            },
                        ),
                    );
                },
            };
            let name = match name {
                Some(name) => name,
                None => default_session_name(app.id.as_str()),
            };
            match validate_session_name(name.as_str()) {
                Ok(_) => Plan::Run { app, name },
                Err(_) => Plan::Answer(
                    Err(
                        ApiFailure {
                            code: ErrorCode::InvalidName,
                            message: "invalid session name".to_owned(),
                        },
                    ),
                ),
            }
        },
        RequestCommand::Kill { session } => match check_name(session) {
            Ok(session) => Plan::Kill { session },
            Err(failure) => Plan::Answer(Err(failure)),
        },
        RequestCommand::Attach { session } => match check_name(session) {
            Ok(session) => Plan::Attach { session },
            Err(failure) => Plan::Answer(Err(failure)),
        },
        RequestCommand::Detach { session } => Plan::Detach { session },
    }
}

/// The sessions, in the order of their names.
pub fn list_sessions(registry: &Registry) -> (r: ResponseResult)
    requires
        registry.wf(),
    ensures
        r matches ResponseResult::Sessions { sessions } && crate::registry::lists(
            registry@,
            sessions@,
        ),
{
    ResponseResult::Sessions { sessions: registry.list() }
}

/// What a client that attaches is told, or why it cannot.
pub open spec fn attach_answer<S: FnOnce(&RegistryFile) -> Result<(), String>>(
    save: S,
    before: Map<Seq<char>, Session>,
    path: Seq<char>,
    session: Seq<char>,
    now_ms: u64,
    r: Result<ResponseResult, ApiFailure>,
    after: Map<Seq<char>, Session>,
) -> bool {
    let record = crate::registry::attached(before[session], now_ms);
    let next = before.insert(session, record);
    if !before.dom().contains(session) {
        &&& after == before
        &&& r is Err
        &&& failed_with(r->Err_0, ErrorCode::NotFound, "session not found: "@ + session)
    } else {
        match r {
            Ok(result) => {
                &&& after == next
                &&& crate::registry::saved(save, next, Ok(()))
                &&& result matches ResponseResult::Attach { attach }
                &&& attach.session@ == record.name@
                &&& attach.socket_path@ == record.socket_path@
            },
            Err(failure) => after == before && unsaved_failure(save, next, path, failure),
        }
    }
}

/// The failure for a registry that could not be written.
pub open spec fn unsaved_failure<S: FnOnce(&RegistryFile) -> Result<(), String>>(
    save: S,
    next: Map<Seq<char>, Session>,
    path: Seq<char>,
    failure: ApiFailure,
) -> bool {
    exists|source: String|
        {
            &&& #[trigger] crate::registry::saved(save, next, Err(source))
            &&& failed_with(
                failure,
                ErrorCode::Internal,
                "failed to persist registry "@ + path + ": "@ + source@,
            )
        }
}

/// Counts a client of a session and tells it where the display is.
pub fn attach_session<S: FnOnce(&RegistryFile) -> Result<(), String>>(
    registry: &mut Registry,
    session: &str,
    now_ms: u64,
    save: S,
) -> (r: Result<ResponseResult, ApiFailure>)
    requires
        old(registry).wf(),
        old(registry)@.dom().contains(session@) ==> crate::registry::can_save(
            save,
            old(registry)@.insert(
                session@,
                crate::registry::attached(old(registry)@[session@], now_ms),
            ),
        ),
    ensures
        final(registry).wf(),
        attach_answer(
            save,
            old(registry)@,
            old(registry).spec_path(),
            session@,
            now_ms,
            r,
            final(registry)@,
        ),
{
    match registry.mark_attached(session, now_ms, save) {
        Ok(record) => Ok(
            ResponseResult::Attach {
                attach: AttachInfo { session: record.name, socket_path: record.socket_path },
            },
        ),
        Err(error) => Err(ApiFailure::from_registry(&error)),
    }
}

/// What a client that detaches is told.
pub open spec fn detach_answer<S: FnOnce(&RegistryFile) -> Result<(), String>>(
    save: S,
    before: Map<Seq<char>, Session>,
    path: Seq<char>,
    session: Seq<char>,
    r: Result<ResponseResult, ApiFailure>,
    after: Map<Seq<char>, Session>,
) -> bool {
    let next = before.insert(session, crate::registry::detached(before[session]));
    if !before.dom().contains(session) {
        &&& after == before
        &&& r is Err
        &&& failed_with(r->Err_0, ErrorCode::NotFound, "session not found: "@ + session)
    } else {
        match r {
            Ok(result) => {
                &&& after == next
                &&& crate::registry::saved(save, next, Ok(()))
                &&& result == ResponseResult::Ack
            },
            Err(failure) => after == before && unsaved_failure(save, next, path, failure),
        }
    }
}

/// Takes a client of a session off the count.
pub fn detach_session<S: FnOnce(&RegistryFile) -> Result<(), String>>(
    registry: &mut Registry,
    session: &str,
    save: S,
) -> (r: Result<ResponseResult, ApiFailure>)
    requires
        old(registry).wf(),
        old(registry)@.dom().contains(session@) ==> crate::registry::can_save(
            save,
            old(registry)@.insert(session@, crate::registry::detached(old(registry)@[session@])),
        ),
    ensures
        final(registry).wf(),
        detach_answer(
            save,
            old(registry)@,
            old(registry).spec_path(),
            session@,
            r,
            final(registry)@,
        ),
{
    match registry.mark_detached(session, save) {
        Ok(_) => Ok(ResponseResult::Ack),
        Err(error) => Err(ApiFailure::from_registry(&error)),
    }
}

/// `running` are the sessions that are running, in the order of their names.
pub open spec fn lists_running(sessions: Map<Seq<char>, Session>, running: Seq<Session>) -> bool {
    exists|listed: Seq<Session>| #[trigger]
        crate::registry::lists(sessions, listed) && running == crate::lists::retained(
            listed,
            |session: Session| session.status == SessionStatus::Running,
        )
}

/// The sessions that were running when the daemon was last up: their bridges are
/// started again, and their namespaces taken over.
pub fn running_sessions(registry: &Registry) -> (r: Vec<Session>)
    requires
        registry.wf(),
    ensures
        lists_running(registry@, r@),
{
    let listed = registry.list();
    let ghost all = listed@;
    let ghost keep = |session: Session| session.status == SessionStatus::Running;
    let mut running: Vec<Session> = Vec::new();
    let mut i: usize = 0;
    assert(running@ =~= crate::lists::retained(all.take(0), keep));
    while i < listed.len()
        invariant
            i <= listed@.len(),
            all == listed@,
            keep == (|session: Session| session.status == SessionStatus::Running),
            running@ == crate::lists::retained(all.take(i as int), keep),
        decreases listed@.len() - i,
    {
        assert(all.take(i as int + 1).drop_last() =~= all.take(i as int));
        assert(all.take(i as int + 1).last() == all[i as int]);
        if listed[i].status == SessionStatus::Running {
            assert(keep(all[i as int]));
            running.push(listed[i].clone());
        } else {
            assert(!keep(all[i as int]));
        }
        i += 1;
    }
    assert(all.take(all.len() as int) =~= all);
    running
}

/// How far the running of an application has come.
#[derive(Clone, Copy, Debug, PartialEq, Eq, Structural)]
pub enum RunPhase {
    /// The processes are being started.
    Starting,
    /// The picture of an earlier session of that name is being forgotten.
    Forgetting,
    ActivatingBlobs,
    ActivatingFiles,
    StartingBridge,
    Over,
}

/// How a step went.
#[derive(Debug)]
pub enum RunEvent {
    Started(Result<Session, SupervisorError>),
    Forgotten,
    BlobsActivated(Result<(), String>),
    FilesActivated(Result<(), String>),
    BridgeStarted(Result<(), String>),
}

/// What is undone of a session that could not be run to the end.
#[derive(Clone, Copy, Debug, PartialEq, Eq, Structural)]
pub enum Undo {
    DeactivateFiles,
    DeactivateBlobs,
    KillSession,
}

/// What is to be done next.
#[derive(Debug)]
pub enum RunAction {
    ForgetThumbnail { session: String },
    ActivateBlobs { session: String },
    ActivateFiles { session: String },
    StartBridge { session: Session },
    Done { session: Session },
    /// Undo this, in this order, and report the failure.
    Failed { undo: Vec<Undo>, failure: ApiFailure },
}

/// An application that is being run.
#[derive(Debug)]
pub struct RunFlow {
    /// The session, once there is one.
    session: Option<Session>,
    phase: RunPhase,
}

impl RunFlow {
    pub closed spec fn spec_session(&self) -> Option<Session> {
        self.session
    }

    pub closed spec fn spec_phase(&self) -> RunPhase {
        self.phase
    }

    /// There is a session once the processes run.
    pub open spec fn wf(&self) -> bool {
        self.spec_phase() != RunPhase::Starting && self.spec_phase() != RunPhase::Over
            ==> self.spec_session() is Some
    }
}

pub open spec fn run_expected(phase: RunPhase, event: RunEvent) -> bool {
    match phase {
        RunPhase::Starting => event is Started,
        RunPhase::Forgetting => event is Forgotten,
        RunPhase::ActivatingBlobs => event is BlobsActivated,
        RunPhase::ActivatingFiles => event is FilesActivated,
        RunPhase::StartingBridge => event is BridgeStarted,
        RunPhase::Over => false,
    }
}

/// What has been set up before a phase, in the order in which it is undone.
pub open spec fn set_up(phase: RunPhase) -> Seq<Undo> {
    match phase {
        RunPhase::Starting => Seq::empty(),
        RunPhase::Forgetting => seq![Undo::KillSession],
        RunPhase::ActivatingBlobs => seq![Undo::KillSession],
        RunPhase::ActivatingFiles => seq![Undo::DeactivateBlobs, Undo::KillSession],
        RunPhase::StartingBridge => seq![
            Undo::DeactivateFiles,
            Undo::DeactivateBlobs,
            Undo::KillSession,
        ],
        RunPhase::Over => Seq::empty(),
    }
}

/// The run fails with that message, and what was set up is undone.
pub open spec fn run_fails(
    phase: RunPhase,
    action: RunAction,
    code: ErrorCode,
    message: Seq<char>,
) -> bool {
    &&& action matches RunAction::Failed { undo, failure }
    &&& undo@ == set_up(phase)
    &&& failed_with(failure, code, message)
}

/// The step that follows an event.
pub open spec fn run_step(
    session: Option<Session>,
    phase: RunPhase,
    event: RunEvent,
    action: RunAction,
    session_after: Option<Session>,
    after: RunPhase,
) -> bool {
    match (phase, event) {
        (RunPhase::Starting, RunEvent::Started(outcome)) => match outcome {
            Ok(started) => {
                &&& after == RunPhase::Forgetting
                &&& session_after == Some(started)
                &&& action matches RunAction::ForgetThumbnail { session: name } && name@
                    == started.name@
            },
            Err(error) => {
                &&& after == RunPhase::Over
                &&& session_after == session
                &&& run_fails(phase, action, supervisor_code(error), error.message_text())
            },
        },
        (RunPhase::Forgetting, RunEvent::Forgotten) => {
            &&& after == RunPhase::ActivatingBlobs
            &&& session_after == session
            &&& action matches RunAction::ActivateBlobs { session: name } && name@
                == session->0.name@
        },
        (RunPhase::ActivatingBlobs, RunEvent::BlobsActivated(outcome)) => {
            &&& session_after == session
            &&& match outcome {
                Ok(_) => {
                    &&& after == RunPhase::ActivatingFiles
                    &&& action matches RunAction::ActivateFiles { session: name } && name@
                        == session->0.name@
                },
                Err(reason) => after == RunPhase::Over && run_fails(
                    phase,
                    action,
                    ErrorCode::Internal,
                    "failed to initialize clipboard blob namespace: "@ + reason@,
                ),
            }
        },
        (RunPhase::ActivatingFiles, RunEvent::FilesActivated(outcome)) => {
            &&& session_after == session
            &&& match outcome {
                Ok(_) => {
                    &&& after == RunPhase::StartingBridge
                    &&& action matches RunAction::StartBridge { session: started } && started
                        == session->0
                },
                Err(reason) => after == RunPhase::Over && run_fails(
                    phase,
                    action,
                    ErrorCode::Internal,
                    "failed to initialize file drop namespace: "@ + reason@,
                ),
            }
        },
        (RunPhase::StartingBridge, RunEvent::BridgeStarted(outcome)) => {
            &&& after == RunPhase::Over
            &&& session_after == session
            &&& match outcome {
                Ok(_) => action matches RunAction::Done { session: started } && started
                    == session->0,
                Err(reason) => run_fails(
                    phase,
                    action,
                    ErrorCode::Internal,
                    "failed to start media bridge: "@ + reason@,
                ),
            }
        },
        _ => false,
    }
}

fn run_failure(undo: Vec<Undo>, what: &str, reason: &str) -> (r: RunAction)
    ensures
        r matches RunAction::Failed { undo: listed, failure } && listed == undo && failed_with(
            failure,
            ErrorCode::Internal,
            what@ + reason@,
        ),
{
    RunAction::Failed { undo, failure: ApiFailure::internal(join2(what, reason)) }
}

impl RunFlow {
    /// A run that begins with the start of its processes.
    pub fn new() -> (r: Self)
        ensures
            r.wf(),
            r.spec_phase() == RunPhase::Starting,
            r.spec_session() is None,
    {
        RunFlow { session: None, phase: RunPhase::Starting }
    }

    /// Takes how a step went and names the next one.
    pub fn advance(&mut self, event: RunEvent) -> (r: RunAction)
        requires
            old(self).wf(),
            run_expected(old(self).spec_phase(), event),
        ensures
            final(self).wf(),
            run_step(
                old(self).spec_session(),
                old(self).spec_phase(),
                event,
                r,
                final(self).spec_session(),
                final(self).spec_phase(),
            ),
    {
        match event {
            RunEvent::Started(outcome) => match outcome {
                Ok(session) => {
                    let name = session.name.clone();
                    self.session = Some(session);
                    self.phase = RunPhase::Forgetting;
                    RunAction::ForgetThumbnail { session: name }
                },
                Err(error) => {
                    self.phase = RunPhase::Over;
                    RunAction::Failed {
                        undo: Vec::new(),
                        failure: ApiFailure::from_supervisor(&error),
                    }
                },
            },
            RunEvent::Forgotten => {
                self.phase = RunPhase::ActivatingBlobs;
                RunAction::ActivateBlobs { session: self.name() }
            },
            RunEvent::BlobsActivated(outcome) => match outcome {
                Ok(_) => {
                    self.phase = RunPhase::ActivatingFiles;
                    RunAction::ActivateFiles { session: self.name() }
                },
                Err(reason) => {
                    self.phase = RunPhase::Over;
                    let undo = vec![Undo::KillSession];
                    assert(undo@ =~= set_up(RunPhase::ActivatingBlobs));
                    run_failure(
                        undo,
                        "failed to initialize clipboard blob namespace: ",
                        reason.as_str(),
                    )
                },
            },
            RunEvent::FilesActivated(outcome) => match outcome {
                Ok(_) => {
                    self.phase = RunPhase::StartingBridge;
                    RunAction::StartBridge { session: self.session_copy() }
                },
                Err(reason) => {
                    self.phase = RunPhase::Over;
                    let undo = vec![Undo::DeactivateBlobs, Undo::KillSession];
                    assert(undo@ =~= set_up(RunPhase::ActivatingFiles));
                    run_failure(
                        undo,
                        "failed to initialize file drop namespace: ",
                        reason.as_str(),
                    )
                },
            },
            RunEvent::BridgeStarted(outcome) => match outcome {
                Ok(_) => {
                    self.phase = RunPhase::Over;
                    RunAction::Done { session: self.session_copy() }
                },
                Err(reason) => {
                    self.phase = RunPhase::Over;
                    let undo = vec![
                        Undo::DeactivateFiles,
                        Undo::DeactivateBlobs,
                        Undo::KillSession,
                    ];
                    assert(undo@ =~= set_up(RunPhase::StartingBridge));
                    run_failure(undo, "failed to start media bridge: ", reason.as_str())
                },
            },
        }
    }

    fn session_copy(&self) -> (r: Session)
        requires
            self.spec_session() is Some,
        ensures
            r == self.spec_session()->0,
    {
        match &self.session {
            Some(session) => session.clone(),
            None => vstd::pervasive::unreached(),
        }
    }

    fn name(&self) -> (r: String)
        requires
            self.spec_session() is Some,
        ensures
            r@ == self.spec_session()->0.name@,
    {
        self.session_copy().name
    }
}

/// What is cleaned up after a session.
#[derive(Clone, Copy, Debug, PartialEq, Eq, Structural)]
pub enum Cleanup {
    DeactivateBlobs,
    DeactivateFiles,
    StopBridge,
    ForgetThumbnail,
}

/// What is cleaned up after a session was killed, in this order: the bridge may
/// still put a picture into the store until it has stopped.
pub open spec fn cleanup_after(killed: Result<Session, SupervisorError>) -> Seq<Cleanup> {
    match killed {
        Ok(_) => seq![
            Cleanup::DeactivateBlobs,
            Cleanup::DeactivateFiles,
            Cleanup::StopBridge,
            Cleanup::ForgetThumbnail,
        ],
        Err(_) => Seq::empty(),
    }
}

/// Takes how the killing of a session went and says what is to be cleaned up and
/// what the client is told. A session that could not be killed stays usable:
/// nothing of it is touched.
pub fn finish_kill(killed: Result<Session, SupervisorError>) -> (r: (
    Vec<Cleanup>,
    Result<ResponseResult, ApiFailure>,
))
    ensures
        r.0@ == cleanup_after(killed),
        match killed {
            Ok(_) => r.1 == Ok::<ResponseResult, ApiFailure>(ResponseResult::Ack),
            Err(error) => r.1 is Err && failed_with(
                r.1->Err_0,
                supervisor_code(error),
                error.message_text(),
            ),
        },
{
    match killed {
        Ok(_) => {
            let cleanup = vec![
                Cleanup::DeactivateBlobs,
                Cleanup::DeactivateFiles,
                Cleanup::StopBridge,
                Cleanup::ForgetThumbnail,
            ];
            assert(cleanup@ =~= seq![
                Cleanup::DeactivateBlobs,
                Cleanup::DeactivateFiles,
                Cleanup::StopBridge,
                Cleanup::ForgetThumbnail,
            ]);
            (cleanup, Ok(ResponseResult::Ack))
        },
        Err(error) => {
            let cleanup: Vec<Cleanup> = Vec::new();
            (cleanup, Err(ApiFailure::from_supervisor(&error)))
        },
    }
}

/// A run that is refused because of its name, or for any other reason before
/// there is a session, touches nothing that an earlier session of that name has.
pub proof fn law_refused_run_touches_nothing(
    session: Option<Session>,
    error: SupervisorError,
    action: RunAction,
    session_after: Option<Session>,
    after: RunPhase,
)
    requires
        run_step(
            session,
            RunPhase::Starting,
            RunEvent::Started(Err(error)),
            action,
            session_after,
            after,
        ),
    ensures
        action is Failed,
        action->undo@.len() == 0,
        after == RunPhase::Over,
{
}

/// Whatever step fails, everything that was set up before it is undone, the
/// processes last.
pub proof fn law_failed_run_is_undone(
    session: Option<Session>,
    phase: RunPhase,
    event: RunEvent,
    action: RunAction,
    session_after: Option<Session>,
    after: RunPhase,
)
    requires
        run_step(session, phase, event, action, session_after, after),
        action is Failed,
    ensures
        after == RunPhase::Over,
        action->undo@ == set_up(phase),
        phase != RunPhase::Starting ==> action->undo@.last() == Undo::KillSession,
{
}

/// The picture of a session is forgotten before the bridge of its successor
/// starts, and after the bridge of the session itself has stopped.
pub proof fn law_pictures_do_not_outlive_their_session(
    session: Option<Session>,
    phase: RunPhase,
    event: RunEvent,
    action: RunAction,
    session_after: Option<Session>,
    after: RunPhase,
    killed: Result<Session, SupervisorError>,
)
    requires
        run_step(session, phase, event, action, session_after, after),
        killed is Ok,
    ensures
        action is StartBridge ==> phase == RunPhase::ActivatingFiles,
        after == RunPhase::ActivatingFiles ==> phase == RunPhase::ActivatingBlobs,
        after == RunPhase::ActivatingBlobs ==> phase == RunPhase::Forgetting
            && event is Forgotten,
        cleanup_after(killed)[2] == Cleanup::StopBridge,
        cleanup_after(killed)[3] == Cleanup::ForgetThumbnail,
{
}

/// A session that could not be killed stays as it is: nothing is cleaned up.
pub proof fn law_failed_kill_touches_nothing(killed: Result<Session, SupervisorError>)
    ensures
        (cleanup_after(killed).len() == 0) == killed is Err,
{
}


/// A request is planned as it was asked: the application is the one with the id that
/// was named, under the name that was given or else one made from that id, and what
/// is killed, attached to or detached from is the session that was named. Each kind
/// of request leads to a plan of its own kind.
pub proof fn law_request_is_planned_as_asked(
    apps: Map<Seq<char>, crate::protocol::Application>,
    command: RequestCommand,
    plan: Plan,
)
    requires
        plan_for(apps, command, plan),
    ensures
        plan is Run ==> {
            &&& command is Run
            &&& apps.dom().contains(command->app_id@)
            &&& plan->app@ == apps[command->app_id@]
            &&& command->name is Some ==> plan->name@ == command->name->0@
            &&& command->name is None ==> plan->name@ == crate::registry::default_name(
                apps[command->app_id@].id,
            )
            &&& crate::registry::valid_name(plan->name@)
        },
        plan is Kill ==> command is Kill && plan->Kill_session@ == command->Kill_session@
            && crate::registry::valid_name(plan->Kill_session@),
        plan is Attach ==> command is Attach && plan->Attach_session@ == command->Attach_session@
            && crate::registry::valid_name(plan->Attach_session@),
        command is Detach ==> plan is Detach && plan->Detach_session@ == command->Detach_session@,
        plan is Detach ==> command is Detach,
        command is ListSessions <==> plan is ListSessions,
        command is ListApps ==> plan is Answer && plan->Answer_0 is Ok,
        command is Run && apps.dom().contains(command->app_id@) && command->name is Some
            && crate::registry::valid_name(command->name->0@) ==> plan is Run,
        command is Kill && crate::registry::valid_name(command->Kill_session@) ==> plan is Kill,
        command is Attach && crate::registry::valid_name(command->Attach_session@)
            ==> plan is Attach,
        command is Run && !apps.dom().contains(command->app_id@) ==> plan is Answer
            && plan->Answer_0 is Err && plan->Answer_0->Err_0.code == ErrorCode::NotFound,
        command is Run && apps.dom().contains(command->app_id@) && plan is Answer
            ==> plan->Answer_0 is Err && plan->Answer_0->Err_0.code == ErrorCode::InvalidName,
        (command is Kill || command is Attach) && plan is Answer ==> plan->Answer_0 is Err
            && plan->Answer_0->Err_0.code == ErrorCode::InvalidName,
{
}

/// A client that attaches is told the name of its session and where its display is.
/// The session has one client more; a client that detaches is acknowledged and is one
/// less. Nothing changes for other sessions, nor where the registry cannot be saved.
pub proof fn law_client_is_told_where_its_display_is<
    S: FnOnce(&RegistryFile) -> Result<(), String>,
>(
    save: S,
    before: Map<Seq<char>, Session>,
    path: Seq<char>,
    session: Seq<char>,
    now_ms: u64,
    r: Result<ResponseResult, ApiFailure>,
    after: Map<Seq<char>, Session>,
    other: Seq<char>,
)
    ensures
        attach_answer(save, before, path, session, now_ms, r, after) && r is Ok ==> {
            &&& before.dom().contains(session)
            &&& r->Ok_0 is Attach
            &&& r->Ok_0->attach.session@ == before[session].name@
            &&& r->Ok_0->attach.socket_path@ == before[session].socket_path@
            &&& after.dom().contains(session)
            &&& before[session].client_count < u32::MAX ==> after[session].client_count
                == before[session].client_count + 1
        },
        detach_answer(save, before, path, session, r, after) && r is Ok ==> {
            &&& before.dom().contains(session)
            &&& r->Ok_0 is Ack
            &&& after.dom().contains(session)
            &&& before[session].client_count > 0 ==> after[session].client_count
                == before[session].client_count - 1
        },
        attach_answer(save, before, path, session, now_ms, r, after) || detach_answer(
            save,
            before,
            path,
            session,
            r,
            after,
        ) ==> {
            &&& r is Err ==> after == before
            &&& !before.dom().contains(session) ==> r is Err && r->Err_0.code == ErrorCode::NotFound
            &&& before.dom().contains(session) && r is Err ==> r->Err_0.code == ErrorCode::Internal
            &&& other != session ==> after.dom().contains(other) == before.dom().contains(other)
            &&& other != session && before.dom().contains(other) ==> after[other] == before[other]
        },
{
}

/// The sessions that are running are all of those that run and none that does not.
pub proof fn law_running_sessions_are_those_that_run(
    sessions: Map<Seq<char>, Session>,
    running: Seq<Session>,
    name: Seq<char>,
    i: int,
)
    requires
        lists_running(sessions, running),
    ensures
        0 <= i < running.len() ==> running[i].status == SessionStatus::Running
            && sessions.dom().contains(running[i].name@) && sessions[running[i].name@]
            == running[i],
        sessions.dom().contains(name) && sessions[name].status == SessionStatus::Running
            ==> running.contains(sessions[name]),
{
    let keep = |session: Session| session.status == SessionStatus::Running;
    let listed = choose|listed: Seq<Session>| #[trigger]
        crate::registry::lists(sessions, listed) && running == crate::lists::retained(listed, keep);
    let places = crate::lists::lemma_retained(listed, keep);
    if 0 <= i < running.len() {
        assert(keep(running[i]));
        assert(running[i] == listed[places[i]]);
    }
    if sessions.dom().contains(name) && sessions[name].status == SessionStatus::Running {
        let k = choose|k: int| 0 <= k < listed.len() && (#[trigger] listed[k]).name@ == name;
        assert(keep(listed[k]));
    }
}

/// A run that meets no failure goes through its steps in order, all of them for the
/// session that was started: its earlier picture is forgotten, its blobs and its
/// files get a namespace, its bridge starts, and it is handed out.
pub proof fn law_run_goes_through_its_steps(
    started: Session,
    actions: Seq<RunAction>,
    sessions: Seq<Option<Session>>,
    phases: Seq<RunPhase>,
)
    requires
        actions.len() == 5,
        sessions.len() == 6,
        phases.len() == 6,
        phases[0] == RunPhase::Starting,
        run_step(
            sessions[0],
            phases[0],
            RunEvent::Started(Ok(started)),
            actions[0],
            sessions[1],
            phases[1],
        ),
        run_step(
            sessions[1],
            phases[1],
            RunEvent::Forgotten,
            actions[1],
            sessions[2],
            phases[2],
        ),
        run_step(
            sessions[2],
            phases[2],
            RunEvent::BlobsActivated(Ok(())),
            actions[2],
            sessions[3],
            phases[3],
        ),
        run_step(
            sessions[3],
            phases[3],
            RunEvent::FilesActivated(Ok(())),
            actions[3],
            sessions[4],
            phases[4],
        ),
        run_step(
            sessions[4],
            phases[4],
            RunEvent::BridgeStarted(Ok(())),
            actions[4],
            sessions[5],
            phases[5],
        ),
    ensures
        actions[0] is ForgetThumbnail && actions[0]->ForgetThumbnail_session@ == started.name@,
        actions[1] is ActivateBlobs && actions[1]->ActivateBlobs_session@ == started.name@,
        actions[2] is ActivateFiles && actions[2]->ActivateFiles_session@ == started.name@,
        actions[3] is StartBridge && actions[3]->StartBridge_session == started,
        actions[4] is Done && actions[4]->Done_session == started,
        phases[5] == RunPhase::Over,
{
}

/// A step that fails undoes the steps that succeeded before it, the last of them
/// first, and no other.
pub proof fn law_failed_step_undoes_the_earlier_ones(
    session: Option<Session>,
    phase: RunPhase,
    event: RunEvent,
    action: RunAction,
    session_after: Option<Session>,
    after: RunPhase,
    reason: String,
)
    requires
        run_step(session, phase, event, action, session_after, after),
    ensures
        event == RunEvent::BlobsActivated(Err(reason)) ==> action is Failed && action->undo@
            == seq![Undo::KillSession],
        event == RunEvent::FilesActivated(Err(reason)) ==> action is Failed && action->undo@
            == seq![Undo::DeactivateBlobs, Undo::KillSession],
        event == RunEvent::BridgeStarted(Err(reason)) ==> action is Failed && action->undo@
            == seq![Undo::DeactivateFiles, Undo::DeactivateBlobs, Undo::KillSession],
        action is Failed ==> {
            ||| event is Started && event->Started_0 is Err
            ||| event is BlobsActivated && event->BlobsActivated_0 is Err
            ||| event is FilesActivated && event->FilesActivated_0 is Err
            ||| event is BridgeStarted && event->BridgeStarted_0 is Err
        },
        action is Failed && !(event is Started) ==> action->failure.code == ErrorCode::Internal,
{
}

/// After a session was killed everything that it had is cleaned up: its blobs, its
/// files, its bridge and its picture, each once.
pub proof fn law_nothing_of_a_killed_session_is_left(killed: Result<Session, SupervisorError>)
    requires
        killed is Ok,
    ensures
        cleanup_after(killed).len() == 4,
        cleanup_after(killed).contains(Cleanup::DeactivateBlobs),
        cleanup_after(killed).contains(Cleanup::DeactivateFiles),
        cleanup_after(killed).contains(Cleanup::StopBridge),
        cleanup_after(killed).contains(Cleanup::ForgetThumbnail),
{
    let list = cleanup_after(killed);
    assert(list[0] == Cleanup::DeactivateBlobs);
    assert(list[1] == Cleanup::DeactivateFiles);
    assert(list[2] == Cleanup::StopBridge);
    assert(list[3] == Cleanup::ForgetThumbnail);
}

/// A failure that the client can do something about has a code of its own; any other
/// is a failure of a process or of the daemon.
pub proof fn law_failures_are_told_apart(error: RegistryError, failure: SupervisorError)
    ensures
        registry_code(error) == ErrorCode::InvalidName <==> error is InvalidName,
        registry_code(error) == ErrorCode::AlreadyExists <==> error is AlreadyExists,
        registry_code(error) == ErrorCode::NotFound <==> error is NotFound,
        registry_code(error) == ErrorCode::Internal <==> !(error is InvalidName)
            && !(error is AlreadyExists) && !(error is NotFound),
        failure is Registry ==> supervisor_code(failure) == registry_code(failure->Registry_0),
        supervisor_code(failure) == ErrorCode::Unavailable <==> failure is InvalidApp,
        supervisor_code(failure) == ErrorCode::ProcessFailed <==> failure is Spawn
            || failure is ReadinessTimeout || failure is Terminate,
        failure is RuntimeDirectory || failure is Clock || failure is RegistryLock
            ==> supervisor_code(failure) == ErrorCode::Internal,
{
}

} // verus!

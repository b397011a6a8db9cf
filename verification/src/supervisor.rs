//! Starting and stopping sessions. A session is two processes, the display daemon
//! and the application; what has to happen with them, and in which order, is
//! decided here step by step, and somebody else carries each step out and reports
//! how it went.

use vstd::prelude::*;

use crate::paths::join_path;
use crate::protocol::{App, Session, SessionStatus};
use crate::registry::{default_session_name, validate_session_name, Registry, RegistryError, RegistryFile};
use crate::text::{clone_texts, join2, join3, join4, push_decimal};

verus! {

broadcast use vstd::string::group_string_axioms;

/// A process to be started; the environment is in the order of its names.
#[derive(Debug, PartialEq, Eq)]
pub struct ProcessSpec {
    pub program: String,
    pub args: Vec<String>,
    pub env: Vec<(String, String)>,
}

/// What processes are started and stopped with.
pub trait ProcessRunner {
    /// Starts a process and gives its id.
    fn spawn(&self, spec: ProcessSpec) -> Result<u32, String>;

    fn is_alive(&self, pid: u32) -> bool;

    /// Ends a process and its children, by force or not.
    fn terminate(&self, pid: u32, force: bool) -> Result<(), String>;
}

#[derive(Debug)]
pub enum SupervisorError {
    Registry(RegistryError),
    InvalidApp(String),
    RuntimeDirectory { path: String, source: String },
    Spawn { program: String, source: String },
    ReadinessTimeout,
    Terminate { pid: u32, source: String },
    Clock,
    RegistryLock,
}

impl SupervisorError {
    /// The message that goes with the error.
    pub open spec fn message_text(&self) -> Seq<char> {
        match self {
            SupervisorError::Registry(error) => error.message_text(),
            SupervisorError::InvalidApp(id) => "application has no executable: "@ + id@,
            SupervisorError::RuntimeDirectory { path, source } =>
                "failed to create runtime directory "@ + path@ + ": "@ + source@,
            SupervisorError::Spawn { program, source } => "failed to spawn "@ + program@ + ": "@
                + source@,
            SupervisorError::ReadinessTimeout =>
                "wprsd did not create session sockets before timeout"@,
            SupervisorError::Terminate { pid, source } => "failed to terminate PID "@
                + crate::text::decimal(*pid as nat) + ": "@ + source@,
            SupervisorError::Clock => "system clock is before the Unix epoch"@,
            SupervisorError::RegistryLock => "session registry lock is poisoned"@,
        }
    }

    pub fn message(&self) -> (r: String)
        ensures
            r@ == self.message_text(),
    {
        match self {
            SupervisorError::Registry(error) => error.message(),
            SupervisorError::InvalidApp(id) => join2("application has no executable: ", id.as_str()),
            SupervisorError::RuntimeDirectory { path, source } => join4(
                "failed to create runtime directory ",
                path.as_str(),
                ": ",
                source.as_str(),
            ),
            SupervisorError::Spawn { program, source } => join4(
                "failed to spawn ",
                program.as_str(),
                ": ",
                source.as_str(),
            ),
            SupervisorError::ReadinessTimeout => "wprsd did not create session sockets before timeout".to_owned(),
            SupervisorError::Terminate { pid, source } => {
                let mut text = "failed to terminate PID ".to_owned();
                push_decimal(&mut text, *pid as u64);
                join3(text.as_str(), ": ", source.as_str())
            },
            SupervisorError::Clock => "system clock is before the Unix epoch".to_owned(),
            SupervisorError::RegistryLock => "session registry lock is poisoned".to_owned(),
        }
    }
}

/// The id by which a single process is reached.
pub open spec fn target_of(pid: u32) -> Option<i32> {
    if pid <= i32::MAX {
        Some(pid as i32)
    } else {
        None
    }
}

/// The id by which the group of a process is reached.
pub open spec fn group_of(pid: u32) -> Option<i32> {
    if pid <= i32::MAX {
        Some((-(pid as int)) as i32)
    } else {
        None
    }
}

/// The id by which a single process is reached.
pub fn process_target(pid: u32) -> (r: Option<i32>)
    ensures
        r == target_of(pid),
{
    if pid <= 0x7fff_ffff {
        Some(pid as i32)
    } else {
        None
    }
}

/// The id by which the group of a process is reached.
pub fn group_target(pid: u32) -> (r: Option<i32>)
    ensures
        r == group_of(pid),
{
    if pid <= 0x7fff_ffff {
        Some(-(pid as i32))
    } else {
        None
    }
}

/// How sending a signal went.
#[derive(Clone, Copy, Debug, PartialEq, Eq, Structural)]
pub enum SignalOutcome {
    Delivered,
    NotPermitted,
    NoSuchProcess,
    Failed(i32),
}

/// The process that the signal was for is alive.
pub open spec fn shows_life(outcome: SignalOutcome) -> bool {
    outcome == SignalOutcome::Delivered || outcome == SignalOutcome::NotPermitted
}

/// The process that the signal was for is ended, or was.
pub open spec fn shows_end(outcome: SignalOutcome) -> bool {
    outcome == SignalOutcome::Delivered || outcome == SignalOutcome::NoSuchProcess
}

/// A process is alive if a signal reaches it, or would if that were permitted.
pub fn means_alive(outcome: SignalOutcome) -> (r: bool)
    ensures
        r == shows_life(outcome),
{
    match outcome {
        SignalOutcome::Delivered | SignalOutcome::NotPermitted => true,
        SignalOutcome::NoSuchProcess | SignalOutcome::Failed(_) => false,
    }
}

/// A process is ended if the signal was delivered, or if it is gone already.
pub fn means_ended(outcome: SignalOutcome) -> (r: bool)
    ensures
        r == shows_end(outcome),
{
    match outcome {
        SignalOutcome::Delivered | SignalOutcome::NoSuchProcess => true,
        SignalOutcome::NotPermitted | SignalOutcome::Failed(_) => false,
    }
}

/// The time of day as a session keeps it.
pub open spec fn time_of_day(since_epoch: Option<u128>) -> Option<u64> {
    match since_epoch {
        Some(ms) if ms <= u64::MAX => Some(ms as u64),
        _ => None,
    }
}

/// Milliseconds since the Unix epoch as a session keeps them; nothing where the
/// clock is before the epoch or the number does not fit.
pub fn clock_ms(since_epoch: Option<u128>) -> (r: Option<u64>)
    ensures
        r == time_of_day(since_epoch),
{
    match since_epoch {
        Some(ms) => if ms <= u64::MAX as u128 {
            Some(ms as u64)
        } else {
            None
        },
        None => None,
    }
}

/// Where the parts of a session are.
#[derive(Debug)]
pub struct SessionResources {
    pub runtime_dir: String,
    pub wayland_display: String,
    pub wayland_socket: String,
    pub socket_path: String,
}

/// The same, over mathematical values.
#[verifier::ext_equal]
pub struct Resources {
    pub runtime_dir: Seq<char>,
    pub wayland_display: Seq<char>,
    pub wayland_socket: Seq<char>,
    pub socket_path: Seq<char>,
}

impl View for SessionResources {
    type V = Resources;

    open spec fn view(&self) -> Resources {
        Resources {
            runtime_dir: self.runtime_dir@,
            wayland_display: self.wayland_display@,
            wayland_socket: self.wayland_socket@,
            socket_path: self.socket_path@,
        }
    }
}

/// The resources of a session: a directory and a display of its own.
pub open spec fn resources_of(xdg_runtime_dir: Seq<char>, name: Seq<char>) -> Resources {
    let runtime_dir = crate::paths::joined(
        crate::paths::joined(xdg_runtime_dir, "navette"@),
        name,
    );
    let display = "navette-"@ + name;
    Resources {
        runtime_dir,
        wayland_display: display,
        wayland_socket: crate::paths::joined(xdg_runtime_dir, display),
        socket_path: crate::paths::joined(runtime_dir, "wprs.sock"@),
    }
}

impl SessionResources {
    pub fn new(xdg_runtime_dir: &str, name: &str) -> (r: Self)
        ensures
            r@ == resources_of(xdg_runtime_dir@, name@),
    {
        let root = join_path(xdg_runtime_dir, "navette");
        let runtime_dir = join_path(root.as_str(), name);
        let wayland_display = join2("navette-", name);
        let wayland_socket = join_path(xdg_runtime_dir, wayland_display.as_str());
        let socket_path = join_path(runtime_dir.as_str(), "wprs.sock");
        SessionResources { runtime_dir, wayland_display, wayland_socket, socket_path }
    }
}

/// A process to be started, over mathematical values.
#[verifier::ext_equal]
pub struct Launch {
    pub program: Seq<char>,
    pub args: Seq<Seq<char>>,
    pub env: Seq<(Seq<char>, Seq<char>)>,
}

impl View for ProcessSpec {
    type V = Launch;

    open spec fn view(&self) -> Launch {
        Launch {
            program: self.program@,
            args: crate::text::texts(self.args@),
            env: Seq::new(self.env@.len(), |i: int| (self.env@[i].0@, self.env@[i].1@)),
        }
    }
}

/// The display daemon of a session.
pub open spec fn daemon_launch(wprsd: Seq<char>, xdg_runtime_dir: Seq<char>, name: Seq<char>) -> Launch {
    let resources = resources_of(xdg_runtime_dir, name);
    Launch {
        program: wprsd,
        args: seq![
            "--wayland-display="@ + resources.wayland_display,
            "--socket="@ + resources.socket_path,
        ],
        env: seq![("XDG_RUNTIME_DIR"@, xdg_runtime_dir)],
    }
}

/// The application of a session: it finds the daemon's display in the directory
/// that the daemon was told, whatever this process inherited.
pub open spec fn app_launch(argv: Seq<Seq<char>>, xdg_runtime_dir: Seq<char>, name: Seq<char>) -> Launch {
    Launch {
        program: argv[0],
        args: argv.skip(1),
        env: seq![
            ("WAYLAND_DISPLAY"@, resources_of(xdg_runtime_dir, name).wayland_display),
            ("XDG_RUNTIME_DIR"@, xdg_runtime_dir),
        ],
    }
}

/// How far the start of a session has come.
#[derive(Clone, Copy, Debug, PartialEq, Eq, Structural)]
pub enum StartPhase {
    /// Its directory is being created.
    Preparing,
    /// The daemon is being started.
    StartingDaemon,
    /// The daemon was started and has until then to create its sockets.
    AwaitingReady { daemon_pid: u32, deadline_ms: u64 },
    /// The application is being started.
    StartingApp { daemon_pid: u32 },
    /// Both run, and the session is being recorded.
    Registering { daemon_pid: u32, app_pid: u32 },
    Over,
}

/// How a step went.
#[derive(Debug)]
pub enum StartEvent {
    DirectoryCreated(Result<(), String>),
    /// With the time since the start of the clock that deadlines go by.
    DaemonSpawned { outcome: Result<u32, SupervisorError>, now_ms: u64 },
    Polled { sockets_exist: bool, daemon_alive: bool, now_ms: u64 },
    /// With the time of day, where the clock has one.
    AppSpawned { outcome: Result<u32, SupervisorError>, created_at_ms: Option<u64> },
    Registered(Result<(), RegistryError>),
}

/// What is to be done next.
#[derive(Debug)]
pub enum StartAction {
    CreateDirectory { path: String },
    SpawnDaemon(ProcessSpec),
    /// See whether both sockets exist and the daemon is alive.
    Poll { socket_path: String, wayland_socket: String, daemon_pid: u32 },
    /// The same, after a pause.
    PollLater { socket_path: String, wayland_socket: String, daemon_pid: u32 },
    SpawnApp(ProcessSpec),
    Register(Session),
    /// The session runs.
    Done,
    /// It does not: these processes are to be ended by force, in this order.
    Failed { terminate: Vec<u32>, error: SupervisorError },
}

/// A session that is being started.
#[derive(Debug)]
pub struct SessionStart {
    name: String,
    app_id: String,
    argv: Vec<String>,
    phase: StartPhase,
}

/// Its state.
#[verifier::ext_equal]
pub struct Starting {
    pub name: Seq<char>,
    pub app_id: Seq<char>,
    pub argv: Seq<Seq<char>>,
    pub phase: StartPhase,
}

impl View for SessionStart {
    type V = Starting;

    closed spec fn view(&self) -> Starting {
        Starting {
            name: self.name@,
            app_id: self.app_id@,
            argv: crate::text::texts(self.argv@),
            phase: self.phase,
        }
    }
}

/// The event is one that the phase waits for.
pub open spec fn expected(phase: StartPhase, event: StartEvent) -> bool {
    match phase {
        StartPhase::Preparing => event is DirectoryCreated,
        StartPhase::StartingDaemon => event is DaemonSpawned,
        StartPhase::AwaitingReady { .. } => event is Polled,
        StartPhase::StartingApp { .. } => event is AppSpawned,
        StartPhase::Registering { .. } => event is Registered,
        StartPhase::Over => false,
    }
}

/// The processes that were started, the latest first.
pub open spec fn running(phase: StartPhase) -> Seq<u32> {
    match phase {
        StartPhase::AwaitingReady { daemon_pid, deadline_ms: _ } => seq![daemon_pid],
        StartPhase::StartingApp { daemon_pid } => seq![daemon_pid],
        StartPhase::Registering { daemon_pid, app_pid } => seq![app_pid, daemon_pid],
        _ => Seq::empty(),
    }
}

/// The settings of a supervisor.
#[verifier::ext_equal]
pub struct Settings {
    pub xdg_runtime_dir: Seq<char>,
    pub wprsd_program: Seq<char>,
    pub readiness_timeout_ms: u64,
    pub shutdown_timeout_ms: u64,
    pub poll_interval_ms: u64,
}

/// The session as it is recorded once both processes run.
pub open spec fn is_record(
    session: Session,
    settings: Settings,
    start: Starting,
    daemon_pid: u32,
    app_pid: u32,
    created_at_ms: u64,
) -> bool {
    let resources = resources_of(settings.xdg_runtime_dir, start.name);
    &&& session.name@ == start.name
    &&& session.app_id@ == start.app_id
    &&& session.app_pid == app_pid
    &&& session.daemon_pid == daemon_pid
    &&& session.wayland_display@ == resources.wayland_display
    &&& session.socket_path@ == resources.socket_path
    &&& session.created_at_ms == created_at_ms
    &&& session.last_attached_at_ms is None
    &&& session.client_count == 0
    &&& session.status == SessionStatus::Running
}

/// `action` gives up, ends these processes and reports `error`.
pub open spec fn gives_up(action: StartAction, terminate: Seq<u32>) -> bool {
    action matches StartAction::Failed { terminate: pids, error: _ } && pids@ == terminate
}

pub open spec fn later(now_ms: u64, timeout_ms: u64) -> u64 {
    if now_ms + timeout_ms <= u64::MAX {
        (now_ms + timeout_ms) as u64
    } else {
        u64::MAX
    }
}

/// The step that follows an event.
pub open spec fn start_step(
    settings: Settings,
    start: Starting,
    event: StartEvent,
    action: StartAction,
    after: Starting,
) -> bool {
    let over = Starting { phase: StartPhase::Over, ..start };
    let resources = resources_of(settings.xdg_runtime_dir, start.name);
    match (start.phase, event) {
        (StartPhase::Preparing, StartEvent::DirectoryCreated(outcome)) => match outcome {
            Ok(_) => {
                &&& action matches StartAction::SpawnDaemon(spec) && spec@ == daemon_launch(
                    settings.wprsd_program,
                    settings.xdg_runtime_dir,
                    start.name,
                )
                &&& after == (Starting { phase: StartPhase::StartingDaemon, ..start })
            },
            Err(reason) => {
                &&& gives_up(action, Seq::empty())
                &&& action->error matches SupervisorError::RuntimeDirectory { path, source }
                    && path@ == resources.runtime_dir && source == reason
                &&& after == over
            },
        },
        (StartPhase::StartingDaemon, StartEvent::DaemonSpawned { outcome, now_ms }) => match outcome {
            Ok(pid) => {
                &&& action matches StartAction::Poll { socket_path, wayland_socket, daemon_pid }
                    && socket_path@ == resources.socket_path && wayland_socket@
                    == resources.wayland_socket && daemon_pid == pid
                &&& after == (Starting {
                    phase: StartPhase::AwaitingReady {
                        daemon_pid: pid,
                        deadline_ms: later(now_ms, settings.readiness_timeout_ms),
                    },
                    ..start
                })
            },
            Err(error) => gives_up(action, Seq::empty()) && action->error == error && after == over,
        },
        (
            StartPhase::AwaitingReady { daemon_pid, deadline_ms },
            StartEvent::Polled { sockets_exist, daemon_alive, now_ms },
        ) => if sockets_exist {
            &&& action matches StartAction::SpawnApp(spec) && spec@ == app_launch(
                start.argv,
                settings.xdg_runtime_dir,
                start.name,
            )
            &&& after == (Starting { phase: StartPhase::StartingApp { daemon_pid }, ..start })
        } else if !daemon_alive || now_ms >= deadline_ms {
            &&& gives_up(action, seq![daemon_pid])
            &&& action->error is ReadinessTimeout
            &&& after == over
        } else {
            &&& action matches StartAction::PollLater { socket_path, wayland_socket, daemon_pid: pid }
                && socket_path@ == resources.socket_path && wayland_socket@
                == resources.wayland_socket && pid == daemon_pid
            &&& after == start
        },
        (
            StartPhase::StartingApp { daemon_pid },
            StartEvent::AppSpawned { outcome, created_at_ms },
        ) => match outcome {
            Err(error) => gives_up(action, seq![daemon_pid]) && action->error == error && after == over,
            Ok(app_pid) => match created_at_ms {
                Some(created_at_ms) => {
                    &&& action matches StartAction::Register(session) && is_record(
                        session,
                        settings,
                        start,
                        daemon_pid,
                        app_pid,
                        created_at_ms,
                    )
                    &&& after == (Starting {
                        phase: StartPhase::Registering { daemon_pid, app_pid },
                        ..start
                    })
                },
                // Without a time of day the session cannot be recorded; what
                // runs is left running.
                None => {
                    &&& gives_up(action, Seq::empty())
                    &&& action->error is Clock
                    &&& after == over
                },
            },
        },
        (
            StartPhase::Registering { daemon_pid, app_pid },
            StartEvent::Registered(outcome),
        ) => match outcome {
            Ok(_) => action is Done && after == over,
            Err(reason) => {
                &&& gives_up(action, seq![app_pid, daemon_pid])
                &&& action->error matches SupervisorError::Registry(error) && error == reason
                &&& after == over
            },
        },
        _ => false,
    }
}

/// Starts and stops the sessions of one runtime directory.
pub struct Supervisor<R> {
    runner: R,
    xdg_runtime_dir: String,
    wprsd_program: String,
    readiness_timeout_ms: u64,
    shutdown_timeout_ms: u64,
    poll_interval_ms: u64,
}

impl<R> View for Supervisor<R> {
    type V = Settings;

    closed spec fn view(&self) -> Settings {
        Settings {
            xdg_runtime_dir: self.xdg_runtime_dir@,
            wprsd_program: self.wprsd_program@,
            readiness_timeout_ms: self.readiness_timeout_ms,
            shutdown_timeout_ms: self.shutdown_timeout_ms,
            poll_interval_ms: self.poll_interval_ms,
        }
    }
}

/// Why a session is not even tried, in the order of the checks.
pub open spec fn refusal(
    app: App,
    name: Seq<char>,
    registry: Map<Seq<char>, Session>,
    error: SupervisorError,
) -> bool {
    if !crate::registry::valid_name(name) {
        error matches SupervisorError::Registry(RegistryError::InvalidName(n)) && n@ == name
    } else if app.argv@.len() == 0 {
        error matches SupervisorError::InvalidApp(id) && id@ == app.id@
    } else {
        &&& registry.dom().contains(name)
        &&& error matches SupervisorError::Registry(RegistryError::AlreadyExists(n)) && n@ == name
    }
}

/// The name of a session: the one asked for, or one derived from the application.
pub open spec fn session_name(app: App, name: Option<&str>) -> Seq<char> {
    match name {
        Some(name) => name@,
        None => crate::registry::default_name(app.id@),
    }
}

/// The request to start an application under the name `wanted` ends with `r`.
pub open spec fn start_asked(
    settings: Settings,
    app: App,
    wanted: Seq<char>,
    registry: Map<Seq<char>, Session>,
    r: Result<(SessionStart, StartAction), SupervisorError>,
) -> bool {
    match r {
        Ok((start, action)) => {
            &&& crate::registry::valid_name(wanted)
            &&& app.argv@.len() > 0
            &&& !registry.dom().contains(wanted)
            &&& start@ == (Starting {
                name: wanted,
                app_id: app.id@,
                argv: crate::text::texts(app.argv@),
                phase: StartPhase::Preparing,
            })
            &&& action matches StartAction::CreateDirectory { path } && path@
                == resources_of(settings.xdg_runtime_dir, wanted).runtime_dir
        },
        Err(error) => refusal(app, wanted, registry, error),
    }
}

impl<R: ProcessRunner> Supervisor<R> {
    pub closed spec fn spec_runner(&self) -> R {
        self.runner
    }

    pub fn new(runner: R, xdg_runtime_dir: String, wprsd_program: String) -> (r: Self)
        ensures
            r.spec_runner() == runner,
            r@ == (Settings {
                xdg_runtime_dir: xdg_runtime_dir@,
                wprsd_program: wprsd_program@,
                readiness_timeout_ms: 5_000,
                shutdown_timeout_ms: 2_000,
                poll_interval_ms: 25,
            }),
    {
        Supervisor {
            runner,
            xdg_runtime_dir,
            wprsd_program,
            readiness_timeout_ms: 5_000,
            shutdown_timeout_ms: 2_000,
            poll_interval_ms: 25,
        }
    }

    pub fn with_timeouts(
        self,
        readiness_timeout_ms: u64,
        shutdown_timeout_ms: u64,
        poll_interval_ms: u64,
    ) -> (r: Self)
        ensures
            r.spec_runner() == self.spec_runner(),
            r@ == (Settings {
                readiness_timeout_ms,
                shutdown_timeout_ms,
                poll_interval_ms,
                ..self@
            }),
    {
        Supervisor {
            runner: self.runner,
            xdg_runtime_dir: self.xdg_runtime_dir,
            wprsd_program: self.wprsd_program,
            readiness_timeout_ms,
            shutdown_timeout_ms,
            poll_interval_ms,
        }
    }

    pub fn runner(&self) -> (r: &R)
        ensures
            *r == self.spec_runner(),
    {
        &self.runner
    }

    /// How long to pause before looking again.
    pub fn poll_interval_ms(&self) -> (r: u64)
        ensures
            r == self@.poll_interval_ms,
    {
        self.poll_interval_ms
    }

    /// Where the clipboard images of the sessions are kept while they live.
    pub fn blob_root(&self) -> (r: String)
        ensures
            r@ == crate::paths::joined(self@.xdg_runtime_dir, "navette-blobs"@),
    {
        join_path(self.xdg_runtime_dir.as_str(), "navette-blobs")
    }

    /// Starts a process with the runner.
    pub fn spawn(&self, spec: ProcessSpec) -> (r: Result<u32, SupervisorError>)
        ensures
            match r {
                Ok(pid) => call_ensures(R::spawn, (&self.spec_runner(), spec), Ok(pid)),
                Err(SupervisorError::Spawn { program, source }) => program@ == spec.program@
                    && call_ensures(R::spawn, (&self.spec_runner(), spec), Err(source)),
                Err(_) => false,
            },
    {
        let program = spec.program.clone();
        match self.runner.spawn(spec) {
            Ok(pid) => Ok(pid),
            Err(source) => Err(SupervisorError::Spawn { program, source }),
        }
    }

    /// Begins to start an application: checks the request and names the first
    /// step.
    pub fn start(&self, app: &App, name: Option<&str>, registry: &Registry) -> (r: Result<
        (SessionStart, StartAction),
        SupervisorError,
    >)
        requires
            registry.wf(),
        ensures
            start_asked(self@, *app, session_name(*app, name), registry@, r),
    {
        let name = match name {
            Some(name) => name.to_owned(),
            None => default_session_name(app.id.as_str()),
        };
        match validate_session_name(name.as_str()) {
            Err(error) => {
                return Err(SupervisorError::Registry(error));
            },
            Ok(()) => {},
        }
        if app.argv.len() == 0 {
            return Err(SupervisorError::InvalidApp(app.id.clone()));
        }
        if registry.get(name.as_str()).is_some() {
            return Err(SupervisorError::Registry(RegistryError::AlreadyExists(name)));
        }
        let path = SessionResources::new(self.xdg_runtime_dir.as_str(), name.as_str()).runtime_dir;
        let argv = clone_texts(&app.argv);
        let start = SessionStart { name, app_id: app.id.clone(), argv, phase: StartPhase::Preparing };
        Ok((start, StartAction::CreateDirectory { path }))
    }

    /// Takes how a step went and names the next one.
    pub fn advance(&self, start: &mut SessionStart, event: StartEvent) -> (r: StartAction)
        requires
            expected(old(start)@.phase, event),
            old(start)@.argv.len() > 0,
        ensures
            start_step(self@, old(start)@, event, r, final(start)@),
            r is Failed ==> r->terminate@ == running(old(start)@.phase) || (event matches
                StartEvent::AppSpawned { outcome: Ok(_), created_at_ms: None }),
            final(start)@.argv.len() > 0,
    {
        let resources = SessionResources::new(self.xdg_runtime_dir.as_str(), start.name.as_str());
        match event {
            StartEvent::DirectoryCreated(outcome) => match outcome {
                Ok(_) => {
                    start.phase = StartPhase::StartingDaemon;
                    StartAction::SpawnDaemon(self.daemon_spec(&resources))
                },
                Err(source) => {
                    start.phase = StartPhase::Over;
                    StartAction::Failed {
                        terminate: Vec::new(),
                        error: SupervisorError::RuntimeDirectory {
                            path: resources.runtime_dir,
                            source,
                        },
                    }
                },
            },
            StartEvent::DaemonSpawned { outcome, now_ms } => match outcome {
                Ok(daemon_pid) => {
                    start.phase = StartPhase::AwaitingReady {
                        daemon_pid,
                        deadline_ms: now_ms.saturating_add(self.readiness_timeout_ms),
                    };
                    StartAction::Poll {
                        socket_path: resources.socket_path,
                        wayland_socket: resources.wayland_socket,
                        daemon_pid,
                    }
                },
                Err(error) => {
                    start.phase = StartPhase::Over;
                    StartAction::Failed { terminate: Vec::new(), error }
                },
            },
            StartEvent::Polled { sockets_exist, daemon_alive, now_ms } => {
                let (daemon_pid, deadline_ms) = match start.phase {
                    StartPhase::AwaitingReady { daemon_pid, deadline_ms } => (
                        daemon_pid,
                        deadline_ms,
                    ),
                    _ => (0, 0),
                };
                if sockets_exist {
                    start.phase = StartPhase::StartingApp { daemon_pid };
                    StartAction::SpawnApp(self.app_spec(&start.argv, &resources))
                } else if !daemon_alive || now_ms >= deadline_ms {
                    start.phase = StartPhase::Over;
                    let mut terminate: Vec<u32> = Vec::new();
                    terminate.push(daemon_pid);
                    assert(terminate@ =~= seq![daemon_pid]);
                    StartAction::Failed { terminate, error: SupervisorError::ReadinessTimeout }
                } else {
                    StartAction::PollLater {
                        socket_path: resources.socket_path,
                        wayland_socket: resources.wayland_socket,
                        daemon_pid,
                    }
                }
            },
            StartEvent::AppSpawned { outcome, created_at_ms } => {
                let daemon_pid: u32 = match start.phase {
                    StartPhase::StartingApp { daemon_pid } => daemon_pid,
                    _ => 0,
                };
                match outcome {
                    Err(error) => {
                        start.phase = StartPhase::Over;
                        let mut terminate: Vec<u32> = Vec::new();
                        terminate.push(daemon_pid);
                        assert(terminate@ =~= seq![daemon_pid]);
                        StartAction::Failed { terminate, error }
                    },
                    Ok(app_pid) => match created_at_ms {
                        None => {
                            start.phase = StartPhase::Over;
                            StartAction::Failed {
                                terminate: Vec::new(),
                                error: SupervisorError::Clock,
                            }
                        },
                        Some(created_at_ms) => {
                            start.phase = StartPhase::Registering { daemon_pid, app_pid };
                            StartAction::Register(
                                Session {
                                    name: start.name.clone(),
                                    app_id: start.app_id.clone(),
                                    app_pid,
                                    daemon_pid,
                                    wayland_display: resources.wayland_display,
                                    socket_path: resources.socket_path,
                                    created_at_ms,
                                    last_attached_at_ms: None,
                                    client_count: 0,
                                    status: SessionStatus::Running,
                                },
                            )
                        },
                    },
                }
            },
            StartEvent::Registered(outcome) => {
                let (daemon_pid, app_pid) = match start.phase {
                    StartPhase::Registering { daemon_pid, app_pid } => (daemon_pid, app_pid),
                    _ => (0, 0),
                };
                start.phase = StartPhase::Over;
                match outcome {
                    Ok(_) => StartAction::Done,
                    Err(error) => {
                        let mut terminate: Vec<u32> = Vec::new();
                        terminate.push(app_pid);
                        terminate.push(daemon_pid);
                        assert(terminate@ =~= seq![app_pid, daemon_pid]);
                        StartAction::Failed { terminate, error: SupervisorError::Registry(error) }
                    },
                }
            },
        }
    }

    fn daemon_spec(&self, resources: &SessionResources) -> (r: ProcessSpec)
        ensures
            forall|name: Seq<char>|
                resources@ == #[trigger] resources_of(self@.xdg_runtime_dir, name) ==> r@
                    == daemon_launch(self@.wprsd_program, self@.xdg_runtime_dir, name),
    {
        let mut args: Vec<String> = Vec::new();
        args.push(join2("--wayland-display=", resources.wayland_display.as_str()));
        args.push(join2("--socket=", resources.socket_path.as_str()));
        let mut env: Vec<(String, String)> = Vec::new();
        env.push(("XDG_RUNTIME_DIR".to_owned(), self.xdg_runtime_dir.clone()));
        let spec = ProcessSpec { program: self.wprsd_program.clone(), args, env };
        assert(spec@.args =~= seq![
            "--wayland-display="@ + resources@.wayland_display,
            "--socket="@ + resources@.socket_path,
        ]);
        assert(spec@.env =~= seq![("XDG_RUNTIME_DIR"@, self@.xdg_runtime_dir)]);
        spec
    }

    fn app_spec(&self, argv: &Vec<String>, resources: &SessionResources) -> (r: ProcessSpec)
        requires
            argv@.len() > 0,
        ensures
            forall|name: Seq<char>|
                resources@ == #[trigger] resources_of(self@.xdg_runtime_dir, name) ==> r@
                    == app_launch(crate::text::texts(argv@), self@.xdg_runtime_dir, name),
    {
        let mut args: Vec<String> = Vec::new();
        let mut i: usize = 1;
        while i < argv.len()
            invariant
                1 <= i <= argv@.len(),
                args@.len() == i - 1,
                forall|j: int| 0 <= j < i - 1 ==> (#[trigger] args@[j])@ == argv@[j + 1]@,
            decreases argv@.len() - i,
        {
            args.push(argv[i].clone());
            i += 1;
        }
        let mut env: Vec<(String, String)> = Vec::new();
        env.push(("WAYLAND_DISPLAY".to_owned(), resources.wayland_display.clone()));
        env.push(("XDG_RUNTIME_DIR".to_owned(), self.xdg_runtime_dir.clone()));
        let spec = ProcessSpec { program: argv[0].clone(), args, env };
        assert(spec@.args =~= crate::text::texts(argv@).skip(1));
        assert(spec@.env =~= seq![
            ("WAYLAND_DISPLAY"@, resources@.wayland_display),
            ("XDG_RUNTIME_DIR"@, self@.xdg_runtime_dir),
        ]);
        spec
    }
}

/// How far the stopping of a process has come.
#[derive(Clone, Copy, Debug, PartialEq, Eq, Structural)]
pub enum StopPhase {
    /// Is it alive at all?
    Looking,
    /// It is being asked to end.
    Asking,
    /// It has until then.
    Waiting { deadline_ms: u64 },
    /// Has it ended?
    LookingAgain,
    /// It is being forced to end.
    Forcing,
    Over,
}

/// How a step of stopping went.
#[derive(Debug)]
pub enum StopEvent {
    Looked { alive: bool, now_ms: u64 },
    Terminated { outcome: Result<(), String>, now_ms: u64 },
}

/// What is to be done next with the process.
#[derive(Debug)]
pub enum StopAction {
    Look,
    /// The same, after a pause.
    LookLater,
    Terminate { force: bool },
    Stopped,
    Failed(SupervisorError),
}

pub open spec fn stop_expected(phase: StopPhase, event: StopEvent) -> bool {
    match phase {
        StopPhase::Looking => event is Looked,
        StopPhase::Waiting { .. } => event is Looked,
        StopPhase::LookingAgain => event is Looked,
        StopPhase::Asking => event is Terminated,
        StopPhase::Forcing => event is Terminated,
        StopPhase::Over => false,
    }
}

/// A signal could not be sent.
pub open spec fn stop_failed(action: StopAction, pid: u32, reason: String) -> bool {
    action matches StopAction::Failed(SupervisorError::Terminate { pid: p, source }) && p == pid
        && source == reason
}

/// The step that follows an event: a process is asked to end, has a while to do
/// so, and is forced otherwise.
pub open spec fn stop_step(
    timeout_ms: u64,
    pid: u32,
    phase: StopPhase,
    event: StopEvent,
    action: StopAction,
    after: StopPhase,
) -> bool {
    match (phase, event) {
        (StopPhase::Looking, StopEvent::Looked { alive, now_ms: _ }) => if alive {
            action == (StopAction::Terminate { force: false }) && after == StopPhase::Asking
        } else {
            action is Stopped && after == StopPhase::Over
        },
        (StopPhase::Asking, StopEvent::Terminated { outcome, now_ms }) => match outcome {
            Ok(_) => action is Look && after == (StopPhase::Waiting {
                deadline_ms: later(now_ms, timeout_ms),
            }),
            Err(reason) => stop_failed(action, pid, reason) && after == StopPhase::Over,
        },
        (StopPhase::Waiting { deadline_ms }, StopEvent::Looked { alive, now_ms }) => if alive
            && now_ms < deadline_ms {
            action is LookLater && after == phase
        } else {
            action is Look && after == StopPhase::LookingAgain
        },
        (StopPhase::LookingAgain, StopEvent::Looked { alive, now_ms: _ }) => if alive {
            action == (StopAction::Terminate { force: true }) && after == StopPhase::Forcing
        } else {
            action is Stopped && after == StopPhase::Over
        },
        (StopPhase::Forcing, StopEvent::Terminated { outcome, now_ms: _ }) => match outcome {
            Ok(_) => action is Stopped && after == StopPhase::Over,
            Err(reason) => stop_failed(action, pid, reason) && after == StopPhase::Over,
        },
        _ => false,
    }
}

/// How far the killing of a session has come: the application goes first, then
/// the daemon, then the record.
#[derive(Clone, Copy, Debug, PartialEq, Eq, Structural)]
pub enum KillStage {
    App(StopPhase),
    Daemon(StopPhase),
    Removing,
    Over,
}

#[derive(Debug)]
pub enum KillEvent {
    Stop(StopEvent),
    /// The record was removed from the registry, or not.
    Removed(Result<Session, RegistryError>),
}

#[derive(Debug)]
pub enum KillAction {
    /// Do this with the process.
    Stop { pid: u32, action: StopAction },
    /// Remove the record of the session.
    Remove { name: String },
    /// The session is gone; these may be left of it and are to be removed.
    Done { session: Session, directories: Vec<String>, socket: String },
    Failed(SupervisorError),
}

/// A session that is being killed.
#[derive(Debug)]
pub struct SessionKill {
    session: Session,
    stage: KillStage,
}

impl SessionKill {
    pub closed spec fn spec_session(&self) -> Session {
        self.session
    }

    pub closed spec fn spec_stage(&self) -> KillStage {
        self.stage
    }
}

pub open spec fn kill_expected(stage: KillStage, event: KillEvent) -> bool {
    match stage {
        KillStage::App(phase) => event matches KillEvent::Stop(event) && stop_expected(phase, event),
        KillStage::Daemon(phase) => event matches KillEvent::Stop(event) && stop_expected(
            phase,
            event,
        ),
        KillStage::Removing => event is Removed,
        KillStage::Over => false,
    }
}

/// The next step with a process, and the stage that follows.
pub open spec fn stop_passed_on(
    settings: Settings,
    pid: u32,
    phase: StopPhase,
    event: StopEvent,
    action: KillAction,
    stays: bool,
    after: StopPhase,
) -> bool {
    exists|inner: StopAction|
        {
            &&& #[trigger] stop_step(
                settings.shutdown_timeout_ms,
                pid,
                phase,
                event,
                inner,
                after,
            )
            &&& match inner {
                StopAction::Stopped => !stays,
                StopAction::Failed(error) => !stays && action == KillAction::Failed(error),
                _ => stays && action == (KillAction::Stop { pid, action: inner }),
            }
        }
}

/// The process is stopped, and nothing more is to be done with it.
pub open spec fn is_stopped(
    settings: Settings,
    pid: u32,
    phase: StopPhase,
    event: StopEvent,
) -> bool {
    exists|inner: StopAction|
        inner is Stopped && #[trigger] stop_step(
            settings.shutdown_timeout_ms,
            pid,
            phase,
            event,
            inner,
            StopPhase::Over,
        )
}

/// What may be left of a killed session.
pub open spec fn leftovers(
    settings: Settings,
    session: Session,
    directories: Seq<Seq<char>>,
    socket: Seq<char>,
) -> bool {
    &&& directories == seq![
        resources_of(settings.xdg_runtime_dir, session.name@).runtime_dir,
        crate::paths::joined(
            crate::paths::joined(settings.xdg_runtime_dir, "navette-blobs"@),
            session.name@,
        ),
    ]
    &&& socket == crate::paths::joined(settings.xdg_runtime_dir, session.wayland_display@)
}

/// The step that follows an event. The record of a session is removed only once
/// both its processes are stopped.
pub open spec fn kill_step(
    settings: Settings,
    session: Session,
    stage: KillStage,
    event: KillEvent,
    action: KillAction,
    after: KillStage,
) -> bool {
    match (stage, event) {
        (KillStage::App(phase), KillEvent::Stop(event)) => match after {
            KillStage::App(next) => stop_passed_on(
                settings,
                session.app_pid,
                phase,
                event,
                action,
                true,
                next,
            ),
            KillStage::Daemon(next) => {
                &&& next == StopPhase::Looking
                &&& is_stopped(settings, session.app_pid, phase, event)
                &&& action == (KillAction::Stop { pid: session.daemon_pid, action: StopAction::Look })
            },
            KillStage::Over => action is Failed && stop_passed_on(
                settings,
                session.app_pid,
                phase,
                event,
                action,
                false,
                StopPhase::Over,
            ),
            KillStage::Removing => false,
        },
        (KillStage::Daemon(phase), KillEvent::Stop(event)) => match after {
            KillStage::Daemon(next) => stop_passed_on(
                settings,
                session.daemon_pid,
                phase,
                event,
                action,
                true,
                next,
            ),
            KillStage::Removing => {
                &&& is_stopped(settings, session.daemon_pid, phase, event)
                &&& action matches KillAction::Remove { name } && name@ == session.name@
            },
            KillStage::Over => action is Failed && stop_passed_on(
                settings,
                session.daemon_pid,
                phase,
                event,
                action,
                false,
                StopPhase::Over,
            ),
            KillStage::App(_) => false,
        },
        (KillStage::Removing, KillEvent::Removed(outcome)) => {
            &&& after == KillStage::Over
            &&& match outcome {
                Ok(removed) => {
                    &&& action matches KillAction::Done { session: gone, directories, socket }
                    &&& gone == removed
                    &&& leftovers(settings, session, crate::text::texts(directories@), socket@)
                },
                Err(reason) => action matches KillAction::Failed(SupervisorError::Registry(error))
                    && error == reason,
            }
        },
        _ => false,
    }
}

/// Takes how a step of stopping went and names the next one.
fn advance_stop(timeout_ms: u64, pid: u32, phase: StopPhase, event: StopEvent) -> (r: (
    StopAction,
    StopPhase,
))
    requires
        stop_expected(phase, event),
    ensures
        stop_step(timeout_ms, pid, phase, event, r.0, r.1),
        r.0 is Stopped || r.0 is Failed ==> r.1 == StopPhase::Over,
{
    match event {
        StopEvent::Looked { alive, now_ms } => match phase {
            StopPhase::Looking => if alive {
                (StopAction::Terminate { force: false }, StopPhase::Asking)
            } else {
                (StopAction::Stopped, StopPhase::Over)
            },
            StopPhase::Waiting { deadline_ms } => if alive && now_ms < deadline_ms {
                (StopAction::LookLater, phase)
            } else {
                (StopAction::Look, StopPhase::LookingAgain)
            },
            _ => if alive {
                (StopAction::Terminate { force: true }, StopPhase::Forcing)
            } else {
                (StopAction::Stopped, StopPhase::Over)
            },
        },
        StopEvent::Terminated { outcome, now_ms } => match outcome {
            Err(source) => (
                StopAction::Failed(SupervisorError::Terminate { pid, source }),
                StopPhase::Over,
            ),
            Ok(_) => match phase {
                StopPhase::Asking => (
                    StopAction::Look,
                    StopPhase::Waiting { deadline_ms: now_ms.saturating_add(timeout_ms) },
                ),
                _ => (StopAction::Stopped, StopPhase::Over),
            },
        },
    }
}

impl<R: ProcessRunner> Supervisor<R> {
    /// Begins to kill a session: looks it up and names the first step.
    pub fn kill(&self, name: &str, registry: &Registry) -> (r: Result<
        (SessionKill, KillAction),
        SupervisorError,
    >)
        requires
            registry.wf(),
        ensures
            kill_begun(registry@, name@, r),
    {
        match registry.get(name) {
            None => Err(SupervisorError::Registry(RegistryError::NotFound(name.to_owned()))),
            Some(session) => {
                proof {
                    registry.lemma_wf();
                }
                let session = session.clone();
                let action = KillAction::Stop { pid: session.app_pid, action: StopAction::Look };
                Ok((SessionKill { session, stage: KillStage::App(StopPhase::Looking) }, action))
            },
        }
    }

    /// Takes how a step went and names the next one.
    pub fn advance_kill(&self, kill: &mut SessionKill, event: KillEvent) -> (r: KillAction)
        requires
            kill_expected(old(kill).spec_stage(), event),
        ensures
            final(kill).spec_session() == old(kill).spec_session(),
            kill_step(
                self@,
                old(kill).spec_session(),
                old(kill).spec_stage(),
                event,
                r,
                final(kill).spec_stage(),
            ),
    {
        match event {
            KillEvent::Stop(event) => {
                let ghost given = event;
                let (first, pid, phase) = match kill.stage {
                    KillStage::App(phase) => (true, kill.session.app_pid, phase),
                    KillStage::Daemon(phase) => (false, kill.session.daemon_pid, phase),
                    _ => (false, 0u32, StopPhase::Over),
                };
                let (action, next) = advance_stop(self.shutdown_timeout_ms, pid, phase, event);
                assert(stop_step(self@.shutdown_timeout_ms, pid, phase, given, action, next));
                match action {
                    StopAction::Stopped => {
                        assert(is_stopped(self@, pid, phase, given));
                        if first {
                            kill.stage = KillStage::Daemon(StopPhase::Looking);
                            KillAction::Stop { pid: kill.session.daemon_pid, action: StopAction::Look }
                        } else {
                            kill.stage = KillStage::Removing;
                            KillAction::Remove { name: kill.session.name.clone() }
                        }
                    },
                    StopAction::Failed(error) => {
                        kill.stage = KillStage::Over;
                        let r = KillAction::Failed(error);
                        assert(stop_passed_on(self@, pid, phase, given, r, false, StopPhase::Over));
                        r
                    },
                    other => {
                        kill.stage = if first {
                            KillStage::App(next)
                        } else {
                            KillStage::Daemon(next)
                        };
                        let r = KillAction::Stop { pid, action: other };
                        assert(stop_passed_on(self@, pid, phase, given, r, true, next));
                        r
                    },
                }
            },
            KillEvent::Removed(outcome) => {
                kill.stage = KillStage::Over;
                match outcome {
                    Err(error) => KillAction::Failed(SupervisorError::Registry(error)),
                    Ok(session) => {
                        let name = kill.session.name.as_str();
                        let runtime = SessionResources::new(
                            self.xdg_runtime_dir.as_str(),
                            name,
                        ).runtime_dir;
                        let blobs = join_path(self.blob_root().as_str(), name);
                        let socket = join_path(
                            self.xdg_runtime_dir.as_str(),
                            kill.session.wayland_display.as_str(),
                        );
                        let mut directories: Vec<String> = Vec::new();
                        directories.push(runtime);
                        directories.push(blobs);
                        assert(crate::text::texts(directories@) =~= seq![
                            resources_of(
                                self@.xdg_runtime_dir,
                                kill.session.name@,
                            ).runtime_dir,
                            crate::paths::joined(
                                crate::paths::joined(self@.xdg_runtime_dir, "navette-blobs"@),
                                kill.session.name@,
                            ),
                        ]);
                        KillAction::Done { session, directories, socket }
                    },
                }
            },
        }
    }
}

/// What reconciling one session may leave, given what the runner answers.
pub open spec fn settled<R: ProcessRunner>(runner: R, before: Session, after: Session) -> bool {
    if crate::registry::is_live(before) {
        ||| {
            &&& after == crate::registry::stopped(before)
            &&& call_ensures(R::is_alive, (&runner, before.app_pid), false) || call_ensures(
                R::is_alive,
                (&runner, before.daemon_pid),
                false,
            )
        }
        ||| {
            &&& after == before
            &&& call_ensures(R::is_alive, (&runner, before.app_pid), true)
            &&& call_ensures(R::is_alive, (&runner, before.daemon_pid), true)
        }
    } else {
        after == before
    }
}

/// Every session of `before` is settled in `after`, and no other is there.
pub open spec fn all_settled<R: ProcessRunner>(
    runner: R,
    before: Map<Seq<char>, Session>,
    after: Map<Seq<char>, Session>,
) -> bool {
    &&& after.dom() == before.dom()
    &&& forall|k: Seq<char>| #[trigger]
        before.dom().contains(k) ==> settled(runner, before[k], after[k])
}

/// The directories of those listed sessions that ran and are stopped now.
pub open spec fn swept(
    root: Seq<char>,
    listed: Seq<Session>,
    now: Map<Seq<char>, Session>,
) -> Seq<Seq<char>>
    decreases listed.len(),
{
    if listed.len() == 0 {
        Seq::empty()
    } else {
        let rest = swept(root, listed.drop_last(), now);
        let last = listed.last();
        if last.status == SessionStatus::Running && now.dom().contains(last.name@)
            && now[last.name@].status == SessionStatus::Stopped {
            rest.push(crate::paths::joined(root, last.name@))
        } else {
            rest
        }
    }
}

/// The directories to remove after reconciling `before` into `after`.
pub open spec fn is_swept(
    root: Seq<char>,
    before: Map<Seq<char>, Session>,
    after: Map<Seq<char>, Session>,
    directories: Seq<Seq<char>>,
) -> bool {
    exists|listed: Seq<Session>| #[trigger]
        crate::registry::lists(before, listed) && directories == swept(root, listed, after)
}

/// A reconciled registry that could not be written.
pub open spec fn unsaved<
    R: ProcessRunner,
    S: FnOnce(&RegistryFile) -> Result<(), String>,
>(runner: R, save: S, before: Map<Seq<char>, Session>, source: String) -> bool {
    exists|next: Map<Seq<char>, Session>|
        {
            &&& #[trigger] all_settled(runner, before, next)
            &&& next != before
            &&& crate::registry::saved(save, next, Err(source))
        }
}

impl<R: ProcessRunner> Supervisor<R> {
    /// Marks the sessions whose processes are gone as stopped. Says whether
    /// anything changed, and which directories are to be removed now.
    pub fn reconcile<S: FnOnce(&RegistryFile) -> Result<(), String>>(
        &self,
        registry: &mut Registry,
        save: S,
    ) -> (r: Result<(bool, Vec<String>), SupervisorError>)
        requires
            old(registry).wf(),
            forall|next: Map<Seq<char>, Session>| #[trigger]
                all_settled(self.spec_runner(), old(registry)@, next) && next != old(registry)@
                    ==> crate::registry::can_save(save, next),
        ensures
            final(registry).wf(),
            final(registry).spec_path() == old(registry).spec_path(),
            match r {
                Ok((changed, directories)) => {
                    &&& all_settled(self.spec_runner(), old(registry)@, final(registry)@)
                    &&& changed == (final(registry)@ != old(registry)@)
                    &&& changed ==> crate::registry::saved(save, final(registry)@, Ok(()))
                    &&& is_swept(
                        crate::paths::joined(self@.xdg_runtime_dir, "navette-blobs"@),
                        old(registry)@,
                        final(registry)@,
                        crate::text::texts(directories@),
                    )
                },
                Err(SupervisorError::Registry(RegistryError::Persist { path, source })) => {
                    &&& final(registry)@ == old(registry)@
                    &&& path@ == old(registry).spec_path()
                    &&& unsaved(self.spec_runner(), save, old(registry)@, source)
                },
                Err(_) => false,
            },
    {
        let ghost before = registry@;
        let listed = registry.list();
        let runner = &self.runner;
        let is_alive = |pid: u32| -> (alive: bool)
            ensures
                call_ensures(R::is_alive, (runner, pid), alive),
            { runner.is_alive(pid) };
        proof {
            assert forall|next: Map<Seq<char>, Session>| #[trigger]
                crate::registry::all_reconciled(is_alive, before, next) implies all_settled(
                self.spec_runner(),
                before,
                next,
            ) by {}
        }
        let changed = match registry.reconcile(is_alive, save) {
            Ok(changed) => changed,
            Err(error) => {
                proof {
                    if error is Persist {
                        let source = error->Persist_source;
                        let next = choose|next: Map<Seq<char>, Session>|
                            {
                                &&& #[trigger] crate::registry::all_reconciled(is_alive, before, next)
                                &&& next != before
                                &&& crate::registry::saved(save, next, Err(source))
                            };
                        assert(all_settled(self.spec_runner(), before, next));
                    }
                }
                return Err(SupervisorError::Registry(error));
            },
        };
        assert(all_settled(self.spec_runner(), before, registry@));
        let root = self.blob_root();
        let mut directories: Vec<String> = Vec::new();
        let mut i: usize = 0;
        while i < listed.len()
            invariant
                i <= listed@.len(),
                registry.wf(),
                crate::text::texts(directories@) == swept(
                    root@,
                    listed@.subrange(0, i as int),
                    registry@,
                ),
            decreases listed@.len() - i,
        {
            let session = &listed[i];
            assert(listed@.subrange(0, i + 1).drop_last() =~= listed@.subrange(0, i as int));
            if session.status == SessionStatus::Running {
                if let Some(now) = registry.get(session.name.as_str()) {
                    if now.status == SessionStatus::Stopped {
                        let ghost held = directories@;
                        let directory = join_path(root.as_str(), session.name.as_str());
                        directories.push(directory);
                        assert(crate::text::texts(directories@) =~= crate::text::texts(held).push(
                            directory@,
                        ));
                    }
                }
            }
            i = i + 1;
        }
        assert(listed@.subrange(0, i as int) =~= listed@);
        Ok((changed, directories))
    }
}

/// A start that fails leaves nothing running that it started, except where the
/// time of day could not be read.
pub proof fn law_failed_start_ends_what_it_started(
    settings: Settings,
    start: Starting,
    event: StartEvent,
    action: StartAction,
    after: Starting,
)
    requires
        start_step(settings, start, event, action, after),
        action is Failed,
        !(event matches StartEvent::AppSpawned { outcome: Ok(_), created_at_ms: None }),
    ensures
        action->terminate@ == running(start.phase),
        after.phase == StartPhase::Over,
{
}

/// A process counts as stopped only once it was seen to be gone or was ended by
/// force, and force is used only on one that outlived its time.
pub proof fn law_force_is_the_last_resort(
    timeout_ms: u64,
    pid: u32,
    phase: StopPhase,
    event: StopEvent,
    action: StopAction,
    after: StopPhase,
)
    requires
        stop_step(timeout_ms, pid, phase, event, action, after),
    ensures
        action is Stopped ==> {
            ||| event is Looked && !event->alive
            ||| phase == StopPhase::Forcing && event is Terminated && event->outcome is Ok
        },
        action == (StopAction::Terminate { force: true }) ==> {
            &&& phase == StopPhase::LookingAgain
            &&& event is Looked && event->alive
        },
        after == StopPhase::LookingAgain ==> {
            &&& phase is Waiting
            &&& event is Looked
            &&& !event->alive || event->Looked_now_ms >= phase->deadline_ms
        },
{
}

/// The stages, events and actions of a killing, in order.
pub open spec fn kill_run(
    settings: Settings,
    session: Session,
    stages: Seq<KillStage>,
    events: Seq<KillEvent>,
    actions: Seq<KillAction>,
) -> bool {
    &&& stages.len() == events.len() + 1
    &&& actions.len() == events.len()
    &&& stages[0] == KillStage::App(StopPhase::Looking)
    &&& forall|i: int|
        0 <= i < events.len() ==> #[trigger] kill_step(
            settings,
            session,
            stages[i],
            events[i],
            actions[i],
            stages[i + 1],
        )
}

/// The `i`-th event of a killing found the application stopped.
pub open spec fn app_stopped_at(
    settings: Settings,
    session: Session,
    stages: Seq<KillStage>,
    events: Seq<KillEvent>,
    i: int,
) -> bool {
    stages[i] matches KillStage::App(phase) && events[i] matches KillEvent::Stop(event)
        && is_stopped(settings, session.app_pid, phase, event)
}

proof fn lemma_daemon_comes_second(
    settings: Settings,
    session: Session,
    stages: Seq<KillStage>,
    events: Seq<KillEvent>,
    actions: Seq<KillAction>,
    i: int,
)
    requires
        kill_run(settings, session, stages, events, actions),
        0 <= i <= events.len(),
        stages[i] is Daemon || stages[i] is Removing,
    ensures
        exists|j: int| 0 <= j < i && #[trigger] app_stopped_at(settings, session, stages, events, j),
    decreases i,
{
    assert(i > 0);
    assert(kill_step(
        settings,
        session,
        stages[i - 1],
        events[i - 1],
        actions[i - 1],
        stages[i - 1 + 1],
    ));
    if stages[i - 1] is App {
        assert(app_stopped_at(settings, session, stages, events, i - 1));
    } else {
        lemma_daemon_comes_second(settings, session, stages, events, actions, i - 1);
        let j = choose|j: int|
            0 <= j < i - 1 && #[trigger] app_stopped_at(settings, session, stages, events, j);
        assert(app_stopped_at(settings, session, stages, events, j));
    }
}

/// The record of a session is given up only after its application and then its
/// daemon were found stopped; a killing that fails removes nothing.
pub proof fn law_record_outlives_the_processes(
    settings: Settings,
    session: Session,
    stages: Seq<KillStage>,
    events: Seq<KillEvent>,
    actions: Seq<KillAction>,
    i: int,
)
    requires
        kill_run(settings, session, stages, events, actions),
        0 <= i < actions.len(),
        actions[i] is Remove,
    ensures
        stages[i] matches KillStage::Daemon(phase) && events[i] matches KillEvent::Stop(event)
            && is_stopped(settings, session.daemon_pid, phase, event),
        exists|j: int| 0 <= j < i && #[trigger] app_stopped_at(settings, session, stages, events, j),
{
    assert(kill_step(settings, session, stages[i], events[i], actions[i], stages[i + 1]));
    lemma_daemon_comes_second(settings, session, stages, events, actions, i);
}

/// The daemon, the application and the supervisor agree on the display: both
/// processes are told the supervisor's directory, the daemon creates the display
/// that the application is told, and its socket is the one that is waited for.
pub proof fn law_everyone_finds_the_same_display(
    wprsd: Seq<char>,
    argv: Seq<Seq<char>>,
    xdg_runtime_dir: Seq<char>,
    name: Seq<char>,
)
    requires
        argv.len() > 0,
    ensures
        ({
            let daemon = daemon_launch(wprsd, xdg_runtime_dir, name);
            let app = app_launch(argv, xdg_runtime_dir, name);
            let display = resources_of(xdg_runtime_dir, name).wayland_display;
            &&& daemon.env.contains(("XDG_RUNTIME_DIR"@, xdg_runtime_dir))
            &&& app.env.contains(("XDG_RUNTIME_DIR"@, xdg_runtime_dir))
            &&& app.env.contains(("WAYLAND_DISPLAY"@, display))
            &&& daemon.args.contains("--wayland-display="@ + display)
            &&& resources_of(xdg_runtime_dir, name).wayland_socket == crate::paths::joined(
                xdg_runtime_dir,
                display,
            )
        }),
{
    let daemon = daemon_launch(wprsd, xdg_runtime_dir, name);
    let app = app_launch(argv, xdg_runtime_dir, name);
    assert(daemon.env[0] == ("XDG_RUNTIME_DIR"@, xdg_runtime_dir));
    assert(app.env[1] == ("XDG_RUNTIME_DIR"@, xdg_runtime_dir));
    assert(app.env[0] == (
        "WAYLAND_DISPLAY"@,
        resources_of(xdg_runtime_dir, name).wayland_display,
    ));
    assert(daemon.args[0] == "--wayland-display="@ + resources_of(
        xdg_runtime_dir,
        name,
    ).wayland_display);
}

/// The application is started with its own command line: the program and then the
/// arguments, one by one.
pub proof fn law_application_gets_its_command_line(
    settings: Settings,
    start: Starting,
    event: StartEvent,
    spec: ProcessSpec,
    after: Starting,
)
    requires
        start_step(settings, start, event, StartAction::SpawnApp(spec), after),
        start.argv.len() > 0,
    ensures
        spec.args@.len() + 1 == start.argv.len(),
        spec.program@ == start.argv[0],
        forall|i: int| 0 <= i < spec.args@.len() ==> (#[trigger] spec.args@[i])@ == start.argv[i + 1],
{
    assert(spec@ == app_launch(start.argv, settings.xdg_runtime_dir, start.name));
    assert(spec@.args == start.argv.skip(1));
    assert(spec@.args.len() == spec.args@.len());
    assert forall|i: int| 0 <= i < spec.args@.len() implies (#[trigger] spec.args@[i])@
        == start.argv[i + 1] by {
        assert(spec@.args[i] == spec.args@[i]@);
    }
}

/// The states, events and actions of a start, in order.
pub open spec fn start_run(
    settings: Settings,
    starts: Seq<Starting>,
    events: Seq<StartEvent>,
    actions: Seq<StartAction>,
) -> bool {
    &&& starts.len() == events.len() + 1
    &&& actions.len() == events.len()
    &&& starts[0].phase == StartPhase::Preparing
    &&& forall|i: int|
        0 <= i < events.len() ==> #[trigger] start_step(
            settings,
            starts[i],
            events[i],
            actions[i],
            starts[i + 1],
        )
}

/// Event number `i` reported this process as the daemon's.
pub open spec fn daemon_reported(events: Seq<StartEvent>, i: int, pid: u32) -> bool {
    0 <= i < events.len() && events[i] is DaemonSpawned && events[i]->DaemonSpawned_outcome == Ok::<
        u32,
        SupervisorError,
    >(pid)
}

/// Event number `i` reported this process as the application's.
pub open spec fn app_reported(events: Seq<StartEvent>, i: int, pid: u32) -> bool {
    0 <= i < events.len() && events[i] is AppSpawned && events[i]->AppSpawned_outcome == Ok::<
        u32,
        SupervisorError,
    >(pid)
}

/// What the phase of a start remembers is what was reported, and what was asked for
/// stays.
proof fn lemma_start_remembers(
    settings: Settings,
    starts: Seq<Starting>,
    events: Seq<StartEvent>,
    actions: Seq<StartAction>,
    i: int,
)
    requires
        start_run(settings, starts, events, actions),
        0 <= i <= events.len(),
    ensures
        starts[i].name == starts[0].name,
        starts[i].app_id == starts[0].app_id,
        starts[i].argv == starts[0].argv,
        starts[i].phase matches StartPhase::AwaitingReady { daemon_pid, deadline_ms: _ }
            ==> exists|j: int| j < i && #[trigger] daemon_reported(events, j, daemon_pid),
        starts[i].phase matches StartPhase::StartingApp { daemon_pid } ==> exists|j: int|
            j < i && #[trigger] daemon_reported(events, j, daemon_pid),
        starts[i].phase matches StartPhase::Registering { daemon_pid, app_pid } ==> (exists|j: int|
            j < i && #[trigger] daemon_reported(events, j, daemon_pid)) && (exists|j: int|
            j < i && #[trigger] app_reported(events, j, app_pid)),
        starts[i].phase == StartPhase::Preparing ==> i == 0,
        starts[i].phase == StartPhase::StartingDaemon ==> i == 1,
        starts[i].phase is AwaitingReady || starts[i].phase is StartingApp
            || starts[i].phase is Registering ==> actions[0] is SpawnDaemon,
    decreases i,
{
    if i > 0 {
        lemma_start_remembers(settings, starts, events, actions, i - 1);
        assert(start_step(
            settings,
            starts[i - 1],
            events[i - 1],
            actions[i - 1],
            starts[i - 1 + 1],
        ));
        assert(start_step(settings, starts[0], events[0], actions[0], starts[0int + 1]));
        let was = starts[i - 1].phase;
        let is = starts[i].phase;
        assert(is is StartingApp ==> was is AwaitingReady && is->StartingApp_daemon_pid
            == was->AwaitingReady_daemon_pid);
        assert(is is Registering ==> was is StartingApp && is->Registering_daemon_pid
            == was->StartingApp_daemon_pid);
        if was == StartPhase::StartingDaemon && is is AwaitingReady {
            assert(daemon_reported(events, i - 1, is->AwaitingReady_daemon_pid));
        }
        if was is AwaitingReady && (is is AwaitingReady || is is StartingApp) {
            let pid = was->AwaitingReady_daemon_pid;
            let j = choose|j: int| j < i - 1 && #[trigger] daemon_reported(events, j, pid);
            assert(daemon_reported(events, j, pid));
        }
        if was is StartingApp && is is Registering {
            let pid = was->StartingApp_daemon_pid;
            let j = choose|j: int| j < i - 1 && #[trigger] daemon_reported(events, j, pid);
            assert(daemon_reported(events, j, pid));
            assert(app_reported(events, i - 1, is->Registering_app_pid));
        }
    }
}

/// The record of a session names what was really started: the processes that were
/// reported, the display and the socket that the daemon was told, the application that
/// was asked for, and the time at which it was there. It is new: it runs, and nobody has
/// attached yet.
pub proof fn law_start_records_what_it_started(
    settings: Settings,
    starts: Seq<Starting>,
    events: Seq<StartEvent>,
    actions: Seq<StartAction>,
    i: int,
    session: Session,
)
    requires
        start_run(settings, starts, events, actions),
        0 <= i < events.len(),
        actions[i] == StartAction::Register(session),
    ensures
        app_reported(events, i, session.app_pid),
        exists|j: int| j < i && #[trigger] daemon_reported(events, j, session.daemon_pid),
        events[i]->created_at_ms == Some(session.created_at_ms),
        session.name@ == starts[0].name,
        session.app_id@ == starts[0].app_id,
        session.status == SessionStatus::Running,
        session.client_count == 0,
        session.last_attached_at_ms is None,
        actions[0] matches StartAction::SpawnDaemon(spec) && spec.program@ == settings.wprsd_program
            && spec.args@.len() == 2 && spec.args@[0]@ == "--wayland-display="@
            + session.wayland_display@ && spec.args@[1]@ == "--socket="@ + session.socket_path@,
{
    lemma_start_remembers(settings, starts, events, actions, i);
    assert(start_step(settings, starts[i], events[i], actions[i], starts[i + 1]));
    assert(start_step(settings, starts[0], events[0], actions[0], starts[0int + 1]));
    let spec = actions[0]->SpawnDaemon_0;
    assert(spec@.args.len() == spec.args@.len());
    assert(spec@.args[0] == spec.args@[0]@);
    assert(spec@.args[1] == spec.args@[1]@);
}

/// The application is started only once both sockets were seen, and finds the display
/// that the daemon was told in the directory that the daemon was told, under the names
/// by which Wayland clients look for them.
pub proof fn law_application_starts_on_the_daemons_display(
    settings: Settings,
    starts: Seq<Starting>,
    events: Seq<StartEvent>,
    actions: Seq<StartAction>,
    i: int,
    app: ProcessSpec,
    daemon: ProcessSpec,
)
    requires
        start_run(settings, starts, events, actions),
        0 <= i < events.len(),
        actions[i] == StartAction::SpawnApp(app),
        actions[0] == StartAction::SpawnDaemon(daemon),
    ensures
        events[i] is Polled && events[i]->sockets_exist,
        daemon.env@.len() == 1 && daemon.env@[0].0@ == "XDG_RUNTIME_DIR"@ && daemon.env@[0].1@
            == settings.xdg_runtime_dir,
        app.env@.len() == 2,
        app.env@[0].0@ == "WAYLAND_DISPLAY"@,
        "--wayland-display="@ + app.env@[0].1@ == daemon.args@[0]@,
        app.env@[1].0@ == "XDG_RUNTIME_DIR"@ && app.env@[1].1@ == daemon.env@[0].1@,
        app.env@[0].1@ == "navette-"@ + starts[0].name,
{
    lemma_start_remembers(settings, starts, events, actions, i);
    assert(start_step(settings, starts[i], events[i], actions[i], starts[i + 1]));
    assert(start_step(settings, starts[0], events[0], actions[0], starts[0int + 1]));
    assert(daemon@.args.len() == daemon.args@.len());
    assert(daemon@.args[0] == daemon.args@[0]@);
    assert(daemon@.env.len() == daemon.env@.len());
    assert(app@.env.len() == app.env@.len());
    assert(daemon@.env[0] == (daemon.env@[0].0@, daemon.env@[0].1@));
    assert(app@.env[0] == (app.env@[0].0@, app.env@[0].1@));
    assert(app@.env[1] == (app.env@[1].0@, app.env@[1].1@));
}

/// A daemon has its time: it is looked for again as long as it lives and its time is not
/// over, and given up exactly when it died or its time is over without its sockets. The
/// sockets that are waited for are the one that it was told and that of its display.
pub proof fn law_daemon_has_its_time(
    settings: Settings,
    starting: Starting,
    pid: u32,
    spawned_ms: u64,
    poll: StartAction,
    waiting: Starting,
    sockets_exist: bool,
    daemon_alive: bool,
    now_ms: u64,
    action: StartAction,
    after: Starting,
)
    requires
        spawned_ms + settings.readiness_timeout_ms <= u64::MAX,
        starting.phase == StartPhase::StartingDaemon,
        start_step(
            settings,
            starting,
            StartEvent::DaemonSpawned { outcome: Ok(pid), now_ms: spawned_ms },
            poll,
            waiting,
        ),
        start_step(
            settings,
            waiting,
            StartEvent::Polled { sockets_exist, daemon_alive, now_ms },
            action,
            after,
        ),
    ensures
        poll is Poll && poll->Poll_daemon_pid == pid,
        action is SpawnApp <==> sockets_exist,
        action is PollLater <==> !sockets_exist && daemon_alive && now_ms < spawned_ms
            + settings.readiness_timeout_ms,
        action is Failed <==> !sockets_exist && (!daemon_alive || now_ms >= spawned_ms
            + settings.readiness_timeout_ms),
        action is Failed ==> action->error is ReadinessTimeout && action->terminate@ == seq![pid],
        action is PollLater ==> after == waiting && action->PollLater_daemon_pid == pid
            && action->PollLater_socket_path@ == poll->Poll_socket_path@
            && action->PollLater_wayland_socket@ == poll->Poll_wayland_socket@,
{
}

/// An event before number `i` reported this process.
pub open spec fn was_reported(events: Seq<StartEvent>, i: int, pid: u32) -> bool {
    ||| exists|j: int| j < i && #[trigger] daemon_reported(events, j, pid)
    ||| exists|j: int| j < i && #[trigger] app_reported(events, j, pid)
}

/// A start that fails ends the processes that were reported, the application before the
/// daemon, and no others. (Where only the time of day was missing, none is ended.)
pub proof fn law_failed_start_ends_the_reported_processes(
    settings: Settings,
    starts: Seq<Starting>,
    events: Seq<StartEvent>,
    actions: Seq<StartAction>,
    i: int,
)
    requires
        start_run(settings, starts, events, actions),
        0 <= i < events.len(),
        actions[i] is Failed,
        !(events[i] matches StartEvent::AppSpawned { outcome: Ok(_), created_at_ms: None }),
    ensures
        forall|k: int|
            0 <= k < actions[i]->terminate@.len() ==> was_reported(
                events,
                i,
                #[trigger] actions[i]->terminate@[k],
            ),
        events[i] is Polled || (events[i] is AppSpawned) ==> actions[i]->terminate@.len() == 1,
        events[i] is Registered ==> actions[i]->terminate@.len() == 2 && exists|j: int|
            j < i && #[trigger] app_reported(events, j, actions[i]->terminate@[0]),
        events[i] is DirectoryCreated || events[i] is DaemonSpawned
            ==> actions[i]->terminate@.len() == 0,
        events[i] matches StartEvent::Registered(Err(error)) ==> actions[i]->error
            == SupervisorError::Registry(error),
{
    lemma_start_remembers(settings, starts, events, actions, i);
    assert(start_step(settings, starts[i], events[i], actions[i], starts[i + 1]));
    let terminate = actions[i]->terminate@;
    assert forall|k: int| 0 <= k < terminate.len() implies was_reported(
        events,
        i,
        #[trigger] terminate[k],
    ) by {
        if events[i] is Registered && k == 0 {
            let j = choose|j: int| j < i && #[trigger] app_reported(events, j, terminate[0]);
            assert(app_reported(events, j, terminate[0]));
        } else {
            let j = choose|j: int| j < i && #[trigger] daemon_reported(events, j, terminate[k]);
            assert(daemon_reported(events, j, terminate[k]));
        }
    }
}

/// A session gets a directory and a display of its own: two sessions with different
/// names share neither, nor the socket.
pub proof fn law_sessions_share_nothing(xdg_runtime_dir: Seq<char>, a: Seq<char>, b: Seq<char>)
    requires
        crate::registry::valid_name(a),
        crate::registry::valid_name(b),
        a != b,
        xdg_runtime_dir.len() > 0,
        xdg_runtime_dir.last() != '/',
    ensures
        ({
            let x = resources_of(xdg_runtime_dir, a);
            let y = resources_of(xdg_runtime_dir, b);
            &&& x.runtime_dir != y.runtime_dir
            &&& x.wayland_display != y.wayland_display
            &&& x.wayland_socket != y.wayland_socket
            &&& x.socket_path != y.socket_path
            &&& x.runtime_dir == xdg_runtime_dir + "/navette/"@ + a
            &&& x.wayland_display == "navette-"@ + a
            &&& x.wayland_socket == xdg_runtime_dir + "/"@ + x.wayland_display
            &&& x.socket_path == x.runtime_dir + "/wprs.sock"@
        }),
{
    lemma_resources(xdg_runtime_dir, a);
    lemma_resources(xdg_runtime_dir, b);
    let root = xdg_runtime_dir + "/navette/"@;
    reveal_strlit("/wprs.sock");
    reveal_strlit("navette-");
    reveal_strlit("/");
    lemma_same_start(root, a, b);
    lemma_same_start("navette-"@, a, b);
    lemma_same_start(xdg_runtime_dir + "/"@, "navette-"@ + a, "navette-"@ + b);
    let end = "/wprs.sock"@;
    if (root + a) + end == (root + b) + end {
        assert(((root + a) + end).len() == ((root + b) + end).len());
        assert(((root + a) + end).take((root + a).len() as int) =~= root + a);
        assert(((root + b) + end).take((root + b).len() as int) =~= root + b);
    }
}

proof fn lemma_same_start(start: Seq<char>, a: Seq<char>, b: Seq<char>)
    requires
        a != b,
    ensures
        start + a != start + b,
{
    if start + a == start + b {
        assert((start + a).skip(start.len() as int) =~= a);
        assert((start + b).skip(start.len() as int) =~= b);
    }
}

proof fn lemma_resources(xdg_runtime_dir: Seq<char>, name: Seq<char>)
    requires
        crate::registry::valid_name(name),
        xdg_runtime_dir.len() > 0,
        xdg_runtime_dir.last() != '/',
    ensures
        ({
            let x = resources_of(xdg_runtime_dir, name);
            &&& x.runtime_dir == xdg_runtime_dir + "/navette/"@ + name
            &&& x.wayland_display == "navette-"@ + name
            &&& x.wayland_socket == xdg_runtime_dir + "/"@ + x.wayland_display
            &&& x.socket_path == x.runtime_dir + "/wprs.sock"@
        }),
{
    reveal_strlit("/");
    reveal_strlit("navette");
    reveal_strlit("navette-");
    reveal_strlit("/navette/");
    reveal_strlit("wprs.sock");
    reveal_strlit("/wprs.sock");
    let base = xdg_runtime_dir + "/"@ + "navette"@;
    assert(base.last() == 'e');
    assert(crate::registry::is_name_start(name[0]));
    let dir = base + "/"@ + name;
    assert(dir =~= xdg_runtime_dir + "/navette/"@ + name);
    assert(dir.last() == name.last());
    assert(crate::registry::is_name_char(name[name.len() - 1]));
    assert(dir + "/"@ + "wprs.sock"@ =~= dir + "/wprs.sock"@);
    assert(("navette-"@ + name)[0] == 'n');
}

/// A killing clears away what the start of the session made: its directory and the
/// socket of its display, as the start named them, and the session's images.
pub proof fn law_kill_removes_what_start_made(
    settings: Settings,
    session: Session,
    outcome: Session,
    directories: Vec<String>,
    socket: String,
    action: KillAction,
    after: KillStage,
)
    requires
        action == (KillAction::Done { session: outcome, directories, socket }),
        kill_step(
            settings,
            session,
            KillStage::Removing,
            KillEvent::Removed(Ok(outcome)),
            action,
            after,
        ),
        crate::registry::valid_name(session.name@),
        session.wayland_display@ == "navette-"@ + session.name@,
        settings.xdg_runtime_dir.len() > 0,
        settings.xdg_runtime_dir.last() != '/',
    ensures
        directories@.len() == 2,
        directories@[0]@ == settings.xdg_runtime_dir + "/navette/"@ + session.name@,
        directories@[1]@ == settings.xdg_runtime_dir + "/navette-blobs/"@ + session.name@,
        socket@ == settings.xdg_runtime_dir + "/navette-"@ + session.name@,
        socket@ == resources_of(settings.xdg_runtime_dir, session.name@).wayland_socket,
{
    let name = session.name@;
    lemma_resources(settings.xdg_runtime_dir, name);
    assert(crate::text::texts(directories@).len() == directories@.len());
    assert(crate::text::texts(directories@)[0] == directories@[0]@);
    assert(crate::text::texts(directories@)[1] == directories@[1]@);
    reveal_strlit("/");
    reveal_strlit("navette-");
    reveal_strlit("/navette-");
    reveal_strlit("navette-blobs");
    reveal_strlit("/navette-blobs/");
    let base = settings.xdg_runtime_dir + "/"@ + "navette-blobs"@;
    assert(base.last() == 's');
    assert(crate::registry::is_name_start(name[0]));
    assert(base + "/"@ + name =~= settings.xdg_runtime_dir + "/navette-blobs/"@ + name);
    assert(("navette-"@ + name)[0] == 'n');
    assert(settings.xdg_runtime_dir + "/"@ + ("navette-"@ + name) =~= settings.xdg_runtime_dir
        + "/navette-"@ + name);
}

/// Killing goes by the processes of the session's record: whatever is done to a process
/// is done to the application first, and to the daemon only after a step that found the
/// application gone or ended it by force; the record goes after the daemon in the same
/// way. A signal that cannot be sent ends the killing.
pub proof fn law_kill_ends_the_application_first(
    settings: Settings,
    session: Session,
    stages: Seq<KillStage>,
    events: Seq<KillEvent>,
    actions: Seq<KillAction>,
    i: int,
)
    requires
        kill_run(settings, session, stages, events, actions),
        0 <= i < actions.len(),
    ensures
        stages[i] is App && actions[i] is Stop && stages[i + 1] is App ==> actions[i]->pid
            == session.app_pid,
        stages[i] is App && actions[i] is Stop && stages[i + 1] is Daemon ==> actions[i]->pid
            == session.daemon_pid && is_gone_after(stages[i]->App_0, events[i]),
        stages[i] is Daemon && actions[i] is Stop ==> actions[i]->pid == session.daemon_pid,
        actions[i] is Remove ==> stages[i] is Daemon && is_gone_after(
            stages[i]->Daemon_0,
            events[i],
        ) && actions[i]->Remove_name@ == session.name@,
        stages[i + 1] is App ==> stages[i] is App,
        stages[i + 1] is Daemon ==> stages[i] is App || stages[i] is Daemon,
        (events[i] matches KillEvent::Stop(StopEvent::Terminated { outcome: Err(reason), now_ms: _ })
            ==> actions[i] is Failed && stages[i + 1] is Over),
{
    assert(kill_step(settings, session, stages[i], events[i], actions[i], stages[i + 1]));
}

/// The event showed the process gone, or reported that it was ended by force.
pub open spec fn is_gone_after(phase: StopPhase, event: KillEvent) -> bool {
    event matches KillEvent::Stop(event) && match event {
        StopEvent::Looked { alive, now_ms: _ } => !alive,
        StopEvent::Terminated { outcome, now_ms: _ } => phase == StopPhase::Forcing && outcome is Ok,
    }
}

/// A process has its time to end: from the moment it was asked it is only looked at until
/// it is gone or its time is over; one that is still there then is forced.
pub proof fn law_process_has_its_time_to_end(
    timeout_ms: u64,
    pid: u32,
    asked_ms: u64,
    first: StopAction,
    waiting: StopPhase,
    alive: bool,
    now_ms: u64,
    action: StopAction,
    after: StopPhase,
    still_alive: bool,
    later_ms: u64,
    last: StopAction,
    end: StopPhase,
)
    requires
        asked_ms + timeout_ms <= u64::MAX,
        stop_step(
            timeout_ms,
            pid,
            StopPhase::Asking,
            StopEvent::Terminated { outcome: Ok(()), now_ms: asked_ms },
            first,
            waiting,
        ),
        stop_step(timeout_ms, pid, waiting, StopEvent::Looked { alive, now_ms }, action, after),
    ensures
        first is Look,
        action is LookLater <==> alive && now_ms < asked_ms + timeout_ms,
        action is LookLater ==> after == waiting,
        action is Look <==> !alive || now_ms >= asked_ms + timeout_ms,
        action is Look && stop_step(
            timeout_ms,
            pid,
            after,
            StopEvent::Looked { alive: still_alive, now_ms: later_ms },
            last,
            end,
        ) ==> (last is Stopped <==> !still_alive) && (last == (StopAction::Terminate {
            force: true,
        }) <==> still_alive),
{
}

/// A living process is asked to end before anything else, and one that is gone is left
/// alone.
pub proof fn law_process_is_asked_first(
    timeout_ms: u64,
    pid: u32,
    alive: bool,
    now_ms: u64,
    action: StopAction,
    after: StopPhase,
)
    requires
        stop_step(
            timeout_ms,
            pid,
            StopPhase::Looking,
            StopEvent::Looked { alive, now_ms },
            action,
            after,
        ),
    ensures
        action == (StopAction::Terminate { force: false }) <==> alive,
        action is Stopped <==> !alive,
{
}

/// The same as for a registry on its own: reconciling goes by what the runner finds of
/// the two processes of each session.
pub proof fn law_runner_decides_which_sessions_stop<R: ProcessRunner>(
    runner: R,
    before: Map<Seq<char>, Session>,
    after: Map<Seq<char>, Session>,
    name: Seq<char>,
)
    requires
        all_settled(runner, before, after),
        before.dom().contains(name),
    ensures
        after.dom().contains(name),
        ({
            let was = before[name];
            let is = after[name];
            let ran = was.status == SessionStatus::Starting || was.status == SessionStatus::Running;
            &&& ran && !call_ensures(R::is_alive, (&runner, was.app_pid), true) ==> is.status
                == SessionStatus::Stopped
            &&& ran && !call_ensures(R::is_alive, (&runner, was.daemon_pid), true) ==> is.status
                == SessionStatus::Stopped
            &&& ran && !call_ensures(R::is_alive, (&runner, was.app_pid), false) && !call_ensures(
                R::is_alive,
                (&runner, was.daemon_pid),
                false,
            ) ==> is == was
            &&& !ran ==> is == was
            &&& is != was ==> is.status == SessionStatus::Stopped && is.client_count == 0
        }),
{
}

/// The images of a session are swept exactly when it was running and is stopped now, and
/// nothing else is.
pub proof fn law_sweeping_follows_the_stopped_sessions(
    root: Seq<char>,
    before: Map<Seq<char>, Session>,
    after: Map<Seq<char>, Session>,
    directories: Seq<Seq<char>>,
    name: Seq<char>,
)
    requires
        is_swept(root, before, after, directories),
        before.dom().contains(name),
        forall|k: Seq<char>| #[trigger]
            before.dom().contains(k) ==> before[k].name@ == k && crate::registry::valid_name(k),
        root.len() > 0,
        root.last() != '/',
    ensures
        directories.contains(root + "/"@ + name) <==> before[name].status
            == SessionStatus::Running && after.dom().contains(name) && after[name].status
            == SessionStatus::Stopped,
        forall|d: Seq<char>| #[trigger]
            directories.contains(d) ==> exists|k: Seq<char>| #[trigger]
                before.dom().contains(k) && d == root + "/"@ + k,
{
    let listed = choose|listed: Seq<Session>| #[trigger]
        crate::registry::lists(before, listed) && directories == swept(root, listed, after);
    assert forall|i: int| 0 <= i < listed.len() implies before.dom().contains(
        (#[trigger] listed[i]).name@,
    ) && crate::registry::valid_name(listed[i].name@) by {}
    lemma_swept(root, listed, after);
    let i = choose|i: int| 0 <= i < listed.len() && (#[trigger] listed[i]).name@ == name;
    assert(listed[i] == before[name]);
    if directories.contains(root + "/"@ + name) {
        let j = choose|j: int|
            0 <= j < listed.len() && sweeps(#[trigger] listed[j], after) && root + "/"@ + name
                == root + "/"@ + listed[j].name@;
        if listed[j].name@ != name {
            lemma_same_start(root + "/"@, listed[j].name@, name);
        }
        assert(listed[j] == before[name]);
    }
    assert forall|d: Seq<char>| #[trigger] directories.contains(d) implies exists|k: Seq<char>|
        #[trigger] before.dom().contains(k) && d == root + "/"@ + k by {
        let j = choose|j: int|
            0 <= j < listed.len() && sweeps(#[trigger] listed[j], after) && d == root + "/"@
                + listed[j].name@;
        assert(before.dom().contains(listed[j].name@));
    }
}

spec fn sweeps(session: Session, now: Map<Seq<char>, Session>) -> bool {
    session.status == SessionStatus::Running && now.dom().contains(session.name@)
        && now[session.name@].status == SessionStatus::Stopped
}

proof fn lemma_swept(root: Seq<char>, listed: Seq<Session>, now: Map<Seq<char>, Session>)
    requires
        forall|i: int|
            0 <= i < listed.len() ==> crate::registry::valid_name((#[trigger] listed[i]).name@),
        root.len() > 0,
        root.last() != '/',
    ensures
        forall|d: Seq<char>| #[trigger]
            swept(root, listed, now).contains(d) ==> exists|j: int|
                0 <= j < listed.len() && sweeps(#[trigger] listed[j], now) && d == root + "/"@
                    + listed[j].name@,
        forall|j: int|
            0 <= j < listed.len() && sweeps(#[trigger] listed[j], now) ==> swept(
                root,
                listed,
                now,
            ).contains(root + "/"@ + listed[j].name@),
    decreases listed.len(),
{
    if listed.len() > 0 {
        let front = listed.drop_last();
        let last = listed.last();
        let rest = swept(root, front, now);
        let all = swept(root, listed, now);
        assert forall|i: int| 0 <= i < front.len() implies crate::registry::valid_name(
            (#[trigger] front[i]).name@,
        ) by {
            assert(front[i] == listed[i]);
        }
        lemma_swept(root, front, now);
        assert(last == listed[listed.len() - 1]);
        assert(crate::registry::is_name_start(last.name@[0]));
        assert(crate::paths::joined(root, last.name@) == root + "/"@ + last.name@);
        assert forall|d: Seq<char>| #[trigger] all.contains(d) implies exists|j: int|
            0 <= j < listed.len() && sweeps(#[trigger] listed[j], now) && d == root + "/"@
                + listed[j].name@ by {
            let m = all.index_of(d);
            if m < rest.len() {
                assert(rest[m] == d);
                assert(rest.contains(d));
                let j = choose|j: int|
                    0 <= j < front.len() && sweeps(#[trigger] front[j], now) && d == root + "/"@
                        + front[j].name@;
                assert(sweeps(listed[j], now));
            } else {
                assert(sweeps(listed[listed.len() - 1], now));
            }
        }
        assert forall|j: int| 0 <= j < listed.len() && sweeps(
            #[trigger] listed[j],
            now,
        ) implies all.contains(root + "/"@ + listed[j].name@) by {
            let d = root + "/"@ + listed[j].name@;
            if j < front.len() {
                assert(sweeps(front[j], now));
                assert(rest.contains(d));
                let m = rest.index_of(d);
                assert(all[m] == d);
            } else {
                assert(all[all.len() - 1] == d);
            }
        }
    }
}


/// A start that was accepted is for the application that was asked for, with its id and
/// its whole command line, under the name that was asked for or else one made from the
/// id. It begins with the directory of that name. It is refused exactly where the name
/// is none, nothing is to be run, or the name is taken, and the refusal names what it is
/// about.
pub proof fn law_start_is_for_what_was_asked(
    settings: Settings,
    app: App,
    name: Option<&str>,
    registry: Map<Seq<char>, Session>,
    r: Result<(SessionStart, StartAction), SupervisorError>,
    i: int,
)
    requires
        start_asked(settings, app, session_name(app, name), registry, r),
    ensures
        r is Ok ==> {
            let start = (r->Ok_0).0@;
            &&& name is Some ==> start.name == name->0@
            &&& name is None ==> start.name == crate::registry::default_name(app.id@)
            &&& start.app_id == app.id@
            &&& start.argv.len() == app.argv@.len()
            &&& 0 <= i < app.argv@.len() ==> start.argv[i] == app.argv@[i]@
            &&& start.phase == StartPhase::Preparing
            &&& (r->Ok_0).1 is CreateDirectory
            &&& (r->Ok_0).1->path@ == crate::paths::joined(
                crate::paths::joined(settings.xdg_runtime_dir, "navette"@),
                start.name,
            )
        },
        r is Ok <==> crate::registry::valid_name(session_name(app, name)) && app.argv@.len() > 0
            && !registry.dom().contains(session_name(app, name)),
        r is Err && r->Err_0 is InvalidApp ==> app.argv@.len() == 0,
        r matches Err(SupervisorError::InvalidApp(id)) ==> id@ == app.id@,
        r is Err && r->Err_0 is Registry && r->Err_0->Registry_0 is AlreadyExists
            ==> registry.dom().contains(session_name(app, name)),
        r matches Err(SupervisorError::Registry(RegistryError::AlreadyExists(n))) ==> n@
            == session_name(app, name),
        r is Err && r->Err_0 is Registry && r->Err_0->Registry_0 is InvalidName
            ==> !crate::registry::valid_name(session_name(app, name)),
        r matches Err(SupervisorError::Registry(RegistryError::InvalidName(n))) ==> n@
            == session_name(app, name),
{
}

/// The daemon is the configured program. It is told the display of its session and the
/// socket in the directory of its session, and nothing else.
pub proof fn law_daemon_is_told_its_display_and_socket(
    settings: Settings,
    start: Starting,
    event: StartEvent,
    spec: ProcessSpec,
    after: Starting,
)
    requires
        start_step(settings, start, event, StartAction::SpawnDaemon(spec), after),
        settings.xdg_runtime_dir.len() > 0,
        settings.xdg_runtime_dir.last() != '/',
        crate::registry::valid_name(start.name),
    ensures
        spec.program@ == settings.wprsd_program,
        spec.args@.len() == 2,
        spec.args@[0]@ == "--wayland-display=navette-"@ + start.name,
        spec.args@[1]@ == "--socket="@ + settings.xdg_runtime_dir + "/navette/"@ + start.name
            + "/wprs.sock"@,
{
    assert(spec@.args.len() == spec.args@.len());
    assert(spec@.args[0] == spec.args@[0]@);
    assert(spec@.args[1] == spec.args@[1]@);
    reveal_strlit("--wayland-display=navette-");
    reveal_strlit("--wayland-display=");
    reveal_strlit("navette-");
    assert("--wayland-display="@ + ("navette-"@ + start.name) =~= "--wayland-display=navette-"@
        + start.name);
    reveal_strlit("navette");
    reveal_strlit("wprs.sock");
    reveal_strlit("/navette/");
    reveal_strlit("/wprs.sock");
    let dir = settings.xdg_runtime_dir;
    let above = crate::paths::joined(dir, "navette"@);
    crate::paths::law_joined_path_lies_below_its_base(dir, "navette"@);
    assert(crate::registry::is_name_start(start.name[0]));
    assert(above.last() == 'e');
    crate::paths::law_joined_path_lies_below_its_base(above, start.name);
    let own = crate::paths::joined(above, start.name);
    assert(crate::registry::is_name_char(start.name[start.name.len() - 1]));
    assert(own.last() == start.name.last());
    crate::paths::law_joined_path_lies_below_its_base(own, "wprs.sock"@);
    assert(spec.args@[1]@ =~= "--socket="@ + dir + "/navette/"@ + start.name + "/wprs.sock"@);
}

/// A message names what it is about before it gives the reason.
pub proof fn law_supervisor_messages_name_their_subject(
    error: RegistryError,
    id: String,
    path: String,
    program: String,
    pid: u32,
    source: String,
)
    ensures
        SupervisorError::Registry(error).message_text() == error.message_text(),
        SupervisorError::InvalidApp(id).message_text() == "application has no executable: "@ + id@,
        (SupervisorError::RuntimeDirectory { path, source }).message_text()
            == "failed to create runtime directory "@ + path@ + ": "@ + source@,
        (SupervisorError::Spawn { program, source }).message_text() == "failed to spawn "@ + program@
            + ": "@ + source@,
        (SupervisorError::Terminate { pid, source }).message_text() == "failed to terminate PID "@
            + crate::text::decimal(pid as nat) + ": "@ + source@,
{
}


/// A process is reached by its own number, and its group by the same number with the
/// sign turned. A number that no process can have reaches nothing.
pub proof fn law_signals_reach_the_process_or_its_group(pid: u32)
    ensures
        target_of(pid) is Some <==> pid < 0x8000_0000,
        group_of(pid) is Some <==> pid < 0x8000_0000,
        target_of(pid) is Some ==> target_of(pid)->0 == pid && target_of(pid)->0 + group_of(pid)->0
            == 0,
{
}

/// A signal that was delivered shows that its process was alive and ends it. One that is
/// not permitted shows only that there is a process, and one that found none only that it
/// is ended; any other failure shows neither.
pub proof fn law_outcome_of_a_signal_tells_life_from_end(outcome: SignalOutcome)
    ensures
        outcome is Delivered ==> shows_life(outcome) && shows_end(outcome),
        outcome is NotPermitted ==> shows_life(outcome) && !shows_end(outcome),
        outcome is NoSuchProcess ==> !shows_life(outcome) && shows_end(outcome),
        outcome is Failed ==> !shows_life(outcome) && !shows_end(outcome),
{
}

/// The time of day is kept as it is, as long as it fits.
pub proof fn law_time_of_day_is_kept_as_it_is(ms: u128)
    ensures
        ms <= u64::MAX ==> time_of_day(Some(ms)) is Some && time_of_day(Some(ms))->0 == ms,
        ms > u64::MAX ==> time_of_day(Some(ms)) is None,
        time_of_day(None) is None,
{
}


/// Asking for the end of a session gives `r`.
pub open spec fn kill_begun(
    sessions: Map<Seq<char>, Session>,
    name: Seq<char>,
    r: Result<(SessionKill, KillAction), SupervisorError>,
) -> bool {
    match r {
        Ok((kill, action)) => {
            &&& sessions.dom().contains(name)
            &&& kill.spec_session() == sessions[name]
            &&& kill.spec_session().name@ == name
            &&& kill.spec_stage() == KillStage::App(StopPhase::Looking)
            &&& action == (KillAction::Stop {
                pid: sessions[name].app_pid,
                action: StopAction::Look,
            })
        },
        Err(error) => {
            &&& !sessions.dom().contains(name)
            &&& error matches SupervisorError::Registry(RegistryError::NotFound(n)) && n@ == name
        },
    }
}

/// A session can be ended wherever the registry knows it. What is ended is the session
/// that was named, its application comes first, and it is looked at before it is sent a
/// signal.
pub proof fn law_named_session_is_ended(
    sessions: Map<Seq<char>, Session>,
    name: Seq<char>,
    r: Result<(SessionKill, KillAction), SupervisorError>,
)
    requires
        kill_begun(sessions, name, r),
    ensures
        r is Ok <==> sessions.dom().contains(name),
        r is Ok ==> {
            let kill = (r->Ok_0).0;
            let action = (r->Ok_0).1;
            &&& kill.spec_session().name@ == name
            &&& kill.spec_session().app_pid == sessions[name].app_pid
            &&& kill.spec_session().daemon_pid == sessions[name].daemon_pid
            &&& action is Stop
            &&& action->pid == kill.spec_session().app_pid
            &&& action->Stop_action is Look
        },
{
}

} // verus!

//! Starting a sandbox, step by step: each step names what to ask of the
//! container host, and the answer decides the step that follows.

use vstd::prelude::*;
use crate::sandbox::host::{
    logs_text, logs_text_of, standalone_request_of, standalone_result, standalone_result_of,
    ContainerSpec, ContainerSpecView, ContainerState, ContainerStateView, ExecOutcome,
    ExecRequest, ExecRequestView, Frame,
};
use crate::sandbox::session::{error_of_read, read_failure, ShellOutcome, SESSION_OVERALL_TIMEOUT};
use crate::sandbox::shell::{conf_cmd, conf_cmd_of, init_cmd, standalone_cmd};
use crate::sandbox::types::{Error, ErrorView};

verus! {

/// How often a container that does not run yet is inspected again.
pub const MAX_INSPECT_ATTEMPTS: u64 = 6;

/// The pause between two inspections, in nanoseconds.
pub const INSPECT_PAUSE: u64 = 500_000_000;

/// How long the read that follows the configuration of the shell waits for
/// the next chunk, in nanoseconds.
pub const CONFIGURE_IDLE_TIMEOUT: u64 = 100_000_000;

/// What the caller asks of the container host for a start in progress.
#[derive(Debug)]
pub enum StartAction {
    /// Ask whether the image is there.
    InspectImage(String),
    /// Pull the image and wait for the pull to end.
    PullImage(String),
    /// Create the container.
    CreateContainer(ContainerSpec),
    /// Start the container with this id.
    StartContainer(String),
    /// Ask for the state of the container with this id.
    InspectContainer(String),
    /// Wait this many nanoseconds.
    Sleep(u64),
    /// Fetch all logs of the container with this id.
    FetchLogs(String),
    /// Run the setup commands as a one-shot process.
    RunSetup(ExecRequest),
    /// Start the interactive shell and attach to it.
    AttachShell(ExecRequest),
    /// Write `input` to the shell, flush, and read until the first prompt.
    Configure { input: String, overall_timeout: u64, idle_timeout: u64, short_circuit_after: usize },
}

/// A `StartAction` with its texts as sequences of characters.
pub enum StartActionView {
    InspectImage(Seq<char>),
    PullImage(Seq<char>),
    CreateContainer(ContainerSpecView),
    StartContainer(Seq<char>),
    InspectContainer(Seq<char>),
    Sleep(u64),
    FetchLogs(Seq<char>),
    RunSetup(ExecRequestView),
    AttachShell(ExecRequestView),
    Configure {
        input: Seq<char>,
        overall_timeout: u64,
        idle_timeout: u64,
        short_circuit_after: usize,
    },
}

impl View for StartAction {
    type V = StartActionView;

    open spec fn view(&self) -> StartActionView {
        match *self {
            StartAction::InspectImage(image) => StartActionView::InspectImage(image@),
            StartAction::PullImage(image) => StartActionView::PullImage(image@),
            StartAction::CreateContainer(spec) => StartActionView::CreateContainer(spec@),
            StartAction::StartContainer(container) => StartActionView::StartContainer(container@),
            StartAction::InspectContainer(container) => StartActionView::InspectContainer(
                container@,
            ),
            StartAction::Sleep(nanos) => StartActionView::Sleep(nanos),
            StartAction::FetchLogs(container) => StartActionView::FetchLogs(container@),
            StartAction::RunSetup(request) => StartActionView::RunSetup(request@),
            StartAction::AttachShell(request) => StartActionView::AttachShell(request@),
            StartAction::Configure { input, overall_timeout, idle_timeout, short_circuit_after } => {
                StartActionView::Configure {
                    input: input@,
                    overall_timeout,
                    idle_timeout,
                    short_circuit_after,
                }
            },
        }
    }
}

/// What the container host answered.
#[derive(Debug)]
pub enum StartEvent {
    /// The image is there.
    ImagePresent,
    /// The image is not there.
    ImageMissing,
    /// The pull ended well.
    Pulled,
    /// The pull failed.
    PullFailed(String),
    /// The container was created; holds its id.
    ContainerCreated(String),
    /// The container could not be created.
    CreateFailed(String),
    /// The container was started.
    ContainerStarted,
    /// The container could not be started.
    StartFailed(String),
    /// The state of the container.
    Inspected(ContainerState),
    /// The container could not be inspected.
    InspectFailed(String),
    /// The wait is over.
    Woke,
    /// The logs of the container.
    Logs(Vec<Frame>),
    /// The logs could not be read.
    LogsFailed(String),
    /// What came of the setup commands.
    SetupDone(ExecOutcome),
    /// The shell runs and its streams are attached.
    ShellAttached,
    /// The shell was started detached.
    ShellNotAttached,
    /// The shell could not be created or started.
    AttachFailed(String),
    /// What came of configuring the shell.
    Configured(ShellOutcome),
}

/// Where a start stands: what was last asked of the container host.
pub enum Phase {
    ProbeImage,
    PullImage,
    Create,
    Launch,
    Inspect,
    Pause,
    /// Holds the state in which the container was last seen.
    Logs(ContainerState),
    Setup,
    Attach,
    Configure,
}

/// A `Phase` with its texts as sequences of characters.
pub enum PhaseView {
    ProbeImage,
    PullImage,
    Create,
    Launch,
    Inspect,
    Pause,
    Logs(ContainerStateView),
    Setup,
    Attach,
    Configure,
}

impl View for Phase {
    type V = PhaseView;

    open spec fn view(&self) -> PhaseView {
        match *self {
            Phase::ProbeImage => PhaseView::ProbeImage,
            Phase::PullImage => PhaseView::PullImage,
            Phase::Create => PhaseView::Create,
            Phase::Launch => PhaseView::Launch,
            Phase::Inspect => PhaseView::Inspect,
            Phase::Pause => PhaseView::Pause,
            Phase::Logs(state) => PhaseView::Logs(state@),
            Phase::Setup => PhaseView::Setup,
            Phase::Attach => PhaseView::Attach,
            Phase::Configure => PhaseView::Configure,
        }
    }
}

/// A start in progress. It holds the permit from before the container is
/// created until the start has ended, one way or the other.
pub struct Startup<P> {
    pub(crate) permit: P,
    pub(crate) id: String,
    pub(crate) image: String,
    pub(crate) setup_commands: String,
    pub(crate) phase: Phase,
    pub(crate) container: Option<String>,
    pub(crate) attempts: u64,
    pub(crate) setup_exit_code: Option<i64>,
}

/// What a start in progress holds, but for its permit.
pub struct StartupView {
    /// The id of the sandbox.
    pub id: Seq<char>,
    pub image: Seq<char>,
    pub setup_commands: Seq<char>,
    pub phase: PhaseView,
    /// The id of the container, once it was created.
    pub container: Option<Seq<char>>,
    /// How often the container was found not to run yet.
    pub attempts: u64,
    /// The exit code of the setup commands, once they ran.
    pub setup_exit_code: Option<i64>,
}

/// The view of an optional text.
pub open spec fn text_view(text: Option<String>) -> Option<Seq<char>> {
    match text {
        Some(t) => Some(t@),
        None => None,
    }
}

impl<P> View for Startup<P> {
    type V = StartupView;

    open(crate) spec fn view(&self) -> StartupView {
        StartupView {
            id: self.id@,
            image: self.image@,
            setup_commands: self.setup_commands@,
            phase: self.phase@,
            container: text_view(self.container),
            attempts: self.attempts,
            setup_exit_code: self.setup_exit_code,
        }
    }
}

/// A start that went through: the container runs, the setup commands ended
/// with 0, and the shell is attached and configured.
pub struct Launch<P> {
    pub(crate) permit: P,
    pub(crate) container: String,
    pub(crate) setup_exit_code: Option<i64>,
}

/// What a `Launch` holds, but for its permit.
pub struct LaunchView {
    pub container: Seq<char>,
    pub setup_exit_code: Option<i64>,
}

impl<P> View for Launch<P> {
    type V = LaunchView;

    open(crate) spec fn view(&self) -> LaunchView {
        LaunchView { container: self.container@, setup_exit_code: self.setup_exit_code }
    }
}

/// A start that failed. It still holds the permit, so that the permit
/// outlives the attempt to remove the container.
pub struct Failure<P> {
    pub(crate) permit: P,
    pub(crate) error: Error,
    pub(crate) container: Option<String>,
    pub(crate) setup_exit_code: Option<i64>,
}

/// What a `Failure` holds, but for its permit.
pub struct FailureView {
    pub error: ErrorView,
    /// The id of the container to remove, where one was created.
    pub container: Option<Seq<char>>,
    pub setup_exit_code: Option<i64>,
}

impl<P> View for Failure<P> {
    type V = FailureView;

    open(crate) spec fn view(&self) -> FailureView {
        FailureView {
            error: self.error@,
            container: text_view(self.container),
            setup_exit_code: self.setup_exit_code,
        }
    }
}

/// What follows an answer of the container host.
pub enum StartStep<P> {
    /// The start goes on.
    Next(Startup<P>),
    /// The start went through.
    Ready(Launch<P>),
    /// The start failed.
    Failed(Failure<P>),
}

/// A `StartStep` without the permit.
pub enum StartStepView {
    Next(StartupView),
    Ready(LaunchView),
    Failed(FailureView),
}

impl<P> View for StartStep<P> {
    type V = StartStepView;

    open spec fn view(&self) -> StartStepView {
        match *self {
            StartStep::Next(startup) => StartStepView::Next(startup@),
            StartStep::Ready(launch) => StartStepView::Ready(launch@),
            StartStep::Failed(failure) => StartStepView::Failed(failure@),
        }
    }
}

/// The error of a container that could not be created or started, with no
/// exit code and no logs.
pub open spec fn start_failed(message: Seq<char>) -> ErrorView {
    ErrorView::StartContainerFailed { message, exit_code: None, logs: Seq::empty() }
}

/// The error of a container that did not reach the running state.
pub open spec fn exited_immediately(state: ContainerStateView, logs: Seq<char>) -> ErrorView {
    ErrorView::StartContainerFailed {
        message: "Container exited immediately. Status: "@ + state.status + ", Error: "@
            + state.error,
        exit_code: state.exit_code,
        logs,
    }
}

/// The interactive shell of a session: with a terminal, and with all three
/// streams attached.
pub open spec fn shell_request_of(container: Seq<char>) -> ExecRequestView {
    ExecRequestView {
        container,
        cmd: seq!["/bin/bash"@, "-i"@],
        attach_stdin: true,
        attach_stdout: true,
        attach_stderr: true,
        tty: true,
    }
}

/// The container of a sandbox: it sleeps for ever, with a terminal and with
/// its standard input kept open, so that processes can be run in it.
pub open spec fn container_spec_of(image: Seq<char>) -> ContainerSpecView {
    ContainerSpecView {
        image,
        cmd: seq!["sleep"@, "infinity"@],
        tty: true,
        open_stdin: true,
        attach_stdin: true,
        attach_stdout: true,
        attach_stderr: true,
    }
}

impl StartupView {
    /// A start has a container from the moment the container was created,
    /// and none before.
    pub open spec fn wf(self) -> bool {
        (self.phase is ProbeImage || self.phase is PullImage || self.phase is Create)
            <==> self.container is None
    }

    /// The start in another phase.
    pub open spec fn at(self, phase: PhaseView) -> StartupView {
        StartupView { phase, ..self }
    }

    /// The start as failed with `error`.
    pub open spec fn failed(self, error: ErrorView) -> StartStepView {
        StartStepView::Failed(
            FailureView {
                error,
                container: self.container,
                setup_exit_code: self.setup_exit_code,
            },
        )
    }

    /// What follows once the container runs: the setup commands where there
    /// are any, the shell where there are none.
    pub open spec fn once_running(self) -> StartupView {
        if self.setup_commands.len() > 0 {
            self.at(PhaseView::Setup)
        } else {
            self.at(PhaseView::Attach)
        }
    }

    /// What is asked of the container host in this phase.
    pub open spec fn action(self) -> StartActionView
        recommends
            self.wf(),
    {
        match self.phase {
            PhaseView::ProbeImage => StartActionView::InspectImage(self.image),
            PhaseView::PullImage => StartActionView::PullImage(self.image),
            PhaseView::Create => StartActionView::CreateContainer(container_spec_of(self.image)),
            PhaseView::Launch => StartActionView::StartContainer(self.container->0),
            PhaseView::Inspect => StartActionView::InspectContainer(self.container->0),
            PhaseView::Pause => StartActionView::Sleep(INSPECT_PAUSE),
            PhaseView::Logs(_) => StartActionView::FetchLogs(self.container->0),
            PhaseView::Setup => StartActionView::RunSetup(
                standalone_request_of(self.container->0, self.setup_commands),
            ),
            PhaseView::Attach => StartActionView::AttachShell(shell_request_of(self.container->0)),
            PhaseView::Configure => StartActionView::Configure {
                input: conf_cmd_of(self.id),
                overall_timeout: SESSION_OVERALL_TIMEOUT,
                idle_timeout: CONFIGURE_IDLE_TIMEOUT,
                short_circuit_after: 1,
            },
        }
    }

    /// What follows the answer `event` of the container host.
    ///
    /// The image is pulled where it is missing. The container is created and
    /// started, then inspected until it runs: after each inspection that finds
    /// it not running the start pauses and inspects again, and the inspection
    /// after `MAX_INSPECT_ATTEMPTS` pauses is the last, after which the logs
    /// are fetched and the start fails with them. Once the container runs the
    /// setup commands run, if there are any, and must end with 0. Then the
    /// shell is attached and configured. An answer that does not fit the phase
    /// changes nothing.
    pub open spec fn after(self, event: StartEvent) -> StartStepView {
        match (self.phase, event) {
            (PhaseView::ProbeImage, StartEvent::ImagePresent) => StartStepView::Next(
                self.at(PhaseView::Create),
            ),
            (PhaseView::ProbeImage, StartEvent::ImageMissing) => StartStepView::Next(
                self.at(PhaseView::PullImage),
            ),
            (PhaseView::PullImage, StartEvent::Pulled) => StartStepView::Next(
                self.at(PhaseView::Create),
            ),
            (PhaseView::PullImage, StartEvent::PullFailed(message)) => self.failed(
                ErrorView::PullImageFailed(message@),
            ),
            (PhaseView::Create, StartEvent::ContainerCreated(container)) => StartStepView::Next(
                StartupView { container: Some(container@), phase: PhaseView::Launch, ..self },
            ),
            (PhaseView::Create, StartEvent::CreateFailed(message)) => self.failed(
                start_failed(message@),
            ),
            (PhaseView::Launch, StartEvent::ContainerStarted) => StartStepView::Next(
                self.at(PhaseView::Inspect),
            ),
            (PhaseView::Launch, StartEvent::StartFailed(message)) => self.failed(
                start_failed(message@),
            ),
            (PhaseView::Inspect, StartEvent::Inspected(state)) => if state.running {
                StartStepView::Next(self.once_running())
            } else if self.attempts >= MAX_INSPECT_ATTEMPTS {
                StartStepView::Next(self.at(PhaseView::Logs(state@)))
            } else {
                StartStepView::Next(
                    StartupView {
                        attempts: (self.attempts + 1) as u64,
                        phase: PhaseView::Pause,
                        ..self
                    },
                )
            },
            (PhaseView::Inspect, StartEvent::InspectFailed(message)) => self.failed(
                start_failed("Failed to inspect container: "@ + message@),
            ),
            (PhaseView::Pause, StartEvent::Woke) => StartStepView::Next(self.at(PhaseView::Inspect)),
            (PhaseView::Logs(state), StartEvent::Logs(frames)) => self.failed(
                exited_immediately(state, logs_text_of(frames@)),
            ),
            (PhaseView::Logs(_), StartEvent::LogsFailed(message)) => self.failed(
                ErrorView::ContainerReadFailed(message@),
            ),
            (PhaseView::Setup, StartEvent::SetupDone(outcome)) => match standalone_result_of(
                outcome,
            ) {
                Err(error) => self.failed(error),
                Ok(done) => {
                    let ran = StartupView { setup_exit_code: Some(done.exit_code), ..self };
                    if done.exit_code != 0 {
                        ran.failed(ErrorView::SetupCommandsFailed(done.output))
                    } else {
                        StartStepView::Next(ran.at(PhaseView::Attach))
                    }
                },
            },
            (PhaseView::Attach, StartEvent::ShellAttached) => StartStepView::Next(
                self.at(PhaseView::Configure),
            ),
            (PhaseView::Attach, StartEvent::ShellNotAttached) => self.failed(
                start_failed("Failed to start exec, didn't attach."@),
            ),
            (PhaseView::Attach, StartEvent::AttachFailed(message)) => self.failed(
                ErrorView::PullImageFailed(message@),
            ),
            (PhaseView::Configure, StartEvent::Configured(ShellOutcome::WriteFailed(message))) => {
                self.failed(ErrorView::ContainerWriteFailed(message@))
            },
            (PhaseView::Configure, StartEvent::Configured(ShellOutcome::Read(Err(error)))) => {
                self.failed(read_failure(error))
            },
            (PhaseView::Configure, StartEvent::Configured(ShellOutcome::Read(Ok(_)))) => {
                StartStepView::Ready(
                    LaunchView {
                        container: self.container->0,
                        setup_exit_code: self.setup_exit_code,
                    },
                )
            },
            _ => StartStepView::Next(self),
        }
    }
}

impl<P> Launch<P> {
    /// The permit that the start holds.
    pub open(crate) spec fn permit(&self) -> P {
        self.permit
    }
}

impl<P> Failure<P> {
    /// The permit that the start holds.
    pub open(crate) spec fn permit(&self) -> P {
        self.permit
    }

    /// The id of the container that the failed start left behind, which the
    /// caller tries to remove.
    pub fn container(&self) -> (container: Option<&String>)
        ensures
            self@.container == match container {
                Some(id) => Some(id@),
                None => None,
            },
    {
        self.container.as_ref()
    }

    /// Why the start failed.
    pub fn error(&self) -> (error: &Error)
        ensures
            error@ == self@.error,
    {
        &self.error
    }

    /// Why the start failed; the permit of the start is released.
    pub fn error_owned(self) -> (error: Error)
        ensures
            error@ == self@.error,
    {
        self.error
    }
}

impl<P> Startup<P> {
    #[verifier::type_invariant]
    pub(crate) open(crate) spec fn inv(&self) -> bool {
        self@.wf()
    }

    /// The permit that the start holds.
    pub open(crate) spec fn permit(&self) -> P {
        self.permit
    }

    /// The start of the sandbox `id`, before anything was asked of the
    /// container host.
    pub(crate) fn begin(permit: P, id: String, image: String, setup_commands: String) -> (startup:
        Self)
        ensures
            startup.permit() == permit,
            startup@ == (StartupView {
                id: id@,
                image: image@,
                setup_commands: setup_commands@,
                phase: PhaseView::ProbeImage,
                container: None,
                attempts: 0,
                setup_exit_code: None,
            }),
    {
        Startup {
            permit,
            id,
            image,
            setup_commands,
            phase: Phase::ProbeImage,
            container: None,
            attempts: 0,
            setup_exit_code: None,
        }
    }

    /// The id of the container, empty before one was created.
    fn container_id(&self) -> (container: String)
        ensures
            container@ == match self@.container {
                Some(id) => id,
                None => Seq::empty(),
            },
    {
        match &self.container {
            Some(container) => container.clone(),
            None => String::new(),
        }
    }

    /// What to ask of the container host now.
    pub fn action(&self) -> (action: StartAction)
        ensures
            action@ == self@.action(),
    {
        proof {
            use_type_invariant(self);
        }
        match &self.phase {
            Phase::ProbeImage => StartAction::InspectImage(self.image.clone()),
            Phase::PullImage => StartAction::PullImage(self.image.clone()),
            Phase::Create => {
                let mut cmd: Vec<String> = Vec::new();
                cmd.push("sleep".to_string());
                cmd.push("infinity".to_string());
                assert(cmd.deep_view() == seq!["sleep"@, "infinity"@]);
                StartAction::CreateContainer(
                    ContainerSpec {
                        image: self.image.clone(),
                        cmd,
                        tty: true,
                        open_stdin: true,
                        attach_stdin: true,
                        attach_stdout: true,
                        attach_stderr: true,
                    },
                )
            },
            Phase::Launch => StartAction::StartContainer(self.container_id()),
            Phase::Inspect => StartAction::InspectContainer(self.container_id()),
            Phase::Pause => StartAction::Sleep(INSPECT_PAUSE),
            Phase::Logs(_) => StartAction::FetchLogs(self.container_id()),
            Phase::Setup => {
                let cmd = standalone_cmd(self.setup_commands.as_str());
                assert(cmd.deep_view() == seq!["/bin/bash"@, "-c"@, self.setup_commands@]);
                StartAction::RunSetup(
                    ExecRequest {
                        container: self.container_id(),
                        cmd,
                        attach_stdin: false,
                        attach_stdout: true,
                        attach_stderr: true,
                        tty: false,
                    },
                )
            },
            Phase::Attach => {
                let cmd = init_cmd();
                assert(cmd.deep_view() == seq!["/bin/bash"@, "-i"@]);
                StartAction::AttachShell(
                    ExecRequest {
                        container: self.container_id(),
                        cmd,
                        attach_stdin: true,
                        attach_stdout: true,
                        attach_stderr: true,
                        tty: true,
                    },
                )
            },
            Phase::Configure => StartAction::Configure {
                input: conf_cmd(self.id.as_str()),
                overall_timeout: SESSION_OVERALL_TIMEOUT,
                idle_timeout: CONFIGURE_IDLE_TIMEOUT,
                short_circuit_after: 1,
            },
        }
    }

    /// The start in the phase `phase`.
    fn at(self, phase: Phase) -> (moved: Self)
        requires
            (StartupView { phase: phase@, ..self@ }).wf(),
        ensures
            moved.permit() == self.permit(),
            moved@ == (StartupView { phase: phase@, ..self@ }),
    {
        Startup {
            permit: self.permit,
            id: self.id,
            image: self.image,
            setup_commands: self.setup_commands,
            phase,
            container: self.container,
            attempts: self.attempts,
            setup_exit_code: self.setup_exit_code,
        }
    }

    /// The start as failed with `error`.
    fn fail(self, error: Error) -> (step: StartStep<P>)
        ensures
            step@ == self@.failed(error@),
            step matches StartStep::Failed(failure) && failure.permit() == self.permit(),
    {
        StartStep::Failed(
            Failure {
                permit: self.permit,
                error,
                container: self.container,
                setup_exit_code: self.setup_exit_code,
            },
        )
    }

    /// Takes in the answer of the container host and says what follows.
    /// The permit goes along, whatever follows.
    pub fn on_event(self, event: StartEvent) -> (step: StartStep<P>)
        ensures
            step@ == self@.after(event),
            match step {
                StartStep::Next(startup) => startup.permit() == self.permit(),
                StartStep::Ready(launch) => launch.permit() == self.permit(),
                StartStep::Failed(failure) => failure.permit() == self.permit(),
            },
    {
        proof {
            use_type_invariant(&self);
        }
        match event {
            StartEvent::ImagePresent => match &self.phase {
                Phase::ProbeImage => StartStep::Next(self.at(Phase::Create)),
                _ => StartStep::Next(self),
            },
            StartEvent::ImageMissing => match &self.phase {
                Phase::ProbeImage => StartStep::Next(self.at(Phase::PullImage)),
                _ => StartStep::Next(self),
            },
            StartEvent::Pulled => match &self.phase {
                Phase::PullImage => StartStep::Next(self.at(Phase::Create)),
                _ => StartStep::Next(self),
            },
            StartEvent::PullFailed(message) => match &self.phase {
                Phase::PullImage => self.fail(Error::PullImageFailed(message)),
                _ => StartStep::Next(self),
            },
            StartEvent::ContainerCreated(container) => match &self.phase {
                Phase::Create => StartStep::Next(
                    Startup {
                        permit: self.permit,
                        id: self.id,
                        image: self.image,
                        setup_commands: self.setup_commands,
                        phase: Phase::Launch,
                        container: Some(container),
                        attempts: self.attempts,
                        setup_exit_code: self.setup_exit_code,
                    },
                ),
                _ => StartStep::Next(self),
            },
            StartEvent::CreateFailed(message) => match &self.phase {
                Phase::Create => self.fail(start_failure(message)),
                _ => StartStep::Next(self),
            },
            StartEvent::ContainerStarted => match &self.phase {
                Phase::Launch => StartStep::Next(self.at(Phase::Inspect)),
                _ => StartStep::Next(self),
            },
            StartEvent::StartFailed(message) => match &self.phase {
                Phase::Launch => self.fail(start_failure(message)),
                _ => StartStep::Next(self),
            },
            StartEvent::Inspected(state) => match &self.phase {
                Phase::Inspect => {
                    if state.running {
                        if !self.setup_commands.as_str().is_empty() {
                            StartStep::Next(self.at(Phase::Setup))
                        } else {
                            StartStep::Next(self.at(Phase::Attach))
                        }
                    } else if self.attempts >= MAX_INSPECT_ATTEMPTS {
                        StartStep::Next(self.at(Phase::Logs(state)))
                    } else {
                        StartStep::Next(
                            Startup {
                                permit: self.permit,
                                id: self.id,
                                image: self.image,
                                setup_commands: self.setup_commands,
                                phase: Phase::Pause,
                                container: self.container,
                                attempts: self.attempts + 1,
                                setup_exit_code: self.setup_exit_code,
                            },
                        )
                    }
                },
                _ => StartStep::Next(self),
            },
            StartEvent::InspectFailed(message) => match &self.phase {
                Phase::Inspect => self.fail(
                    start_failure(
                        "Failed to inspect container: ".to_string().concat(message.as_str()),
                    ),
                ),
                _ => StartStep::Next(self),
            },
            StartEvent::Woke => match &self.phase {
                Phase::Pause => StartStep::Next(self.at(Phase::Inspect)),
                _ => StartStep::Next(self),
            },
            StartEvent::Logs(frames) => match &self.phase {
                Phase::Logs(state) => {
                    let message = "Container exited immediately. Status: ".to_string().concat(
                        state.status.as_str(),
                    ).concat(", Error: ").concat(state.error.as_str());
                    let error = Error::StartContainerFailed {
                        message,
                        exit_code: state.exit_code,
                        logs: logs_text(&frames),
                    };
                    self.fail(error)
                },
                _ => StartStep::Next(self),
            },
            StartEvent::LogsFailed(message) => match &self.phase {
                Phase::Logs(_) => self.fail(Error::ContainerReadFailed(message)),
                _ => StartStep::Next(self),
            },
            StartEvent::SetupDone(outcome) => match &self.phase {
                Phase::Setup => match standalone_result(outcome) {
                    Err(error) => self.fail(error),
                    Ok(done) => {
                        let ran = Startup {
                            permit: self.permit,
                            id: self.id,
                            image: self.image,
                            setup_commands: self.setup_commands,
                            phase: self.phase,
                            container: self.container,
                            attempts: self.attempts,
                            setup_exit_code: Some(done.exit_code),
                        };
                        if done.exit_code != 0 {
                            ran.fail(Error::SetupCommandsFailed(done.output))
                        } else {
                            StartStep::Next(ran.at(Phase::Attach))
                        }
                    },
                },
                _ => StartStep::Next(self),
            },
            StartEvent::ShellAttached => match &self.phase {
                Phase::Attach => StartStep::Next(self.at(Phase::Configure)),
                _ => StartStep::Next(self),
            },
            StartEvent::ShellNotAttached => match &self.phase {
                Phase::Attach => self.fail(
                    start_failure("Failed to start exec, didn't attach.".to_string()),
                ),
                _ => StartStep::Next(self),
            },
            StartEvent::AttachFailed(message) => match &self.phase {
                Phase::Attach => self.fail(Error::PullImageFailed(message)),
                _ => StartStep::Next(self),
            },
            StartEvent::Configured(outcome) => match &self.phase {
                Phase::Configure => match outcome {
                    ShellOutcome::WriteFailed(message) => self.fail(
                        Error::ContainerWriteFailed(message),
                    ),
                    ShellOutcome::Read(Err(error)) => self.fail(error_of_read(error)),
                    ShellOutcome::Read(Ok(_)) => match self.container {
                        Some(container) => StartStep::Ready(
                            Launch {
                                permit: self.permit,
                                container,
                                setup_exit_code: self.setup_exit_code,
                            },
                        ),
                        None => StartStep::Next(self),
                    },
                },
                _ => StartStep::Next(self),
            },
        }
    }
}

/// The error of a container that could not be created or started.
fn start_failure(message: String) -> (error: Error)
    ensures
        error@ == start_failed(message@),
{
    Error::StartContainerFailed { message, exit_code: None, logs: String::new() }
}

/// A start does not inspect its container for ever: the number of
/// inspections that found the container not running never grows beyond
/// `MAX_INSPECT_ATTEMPTS`, and once it is there, the next such inspection
/// leads to the logs and not to another pause. A start that has a container
/// keeps it, and a start that fails names the container it leaves behind.
pub proof fn lemma_start_is_bounded(start: StartupView, event: StartEvent)
    requires
        start.wf(),
        start.attempts <= MAX_INSPECT_ATTEMPTS,
    ensures
        match start.after(event) {
            StartStepView::Next(next) => {
                &&& next.wf()
                &&& start.attempts <= next.attempts <= MAX_INSPECT_ATTEMPTS
                &&& next.phase is Pause && !(start.phase is Pause) ==> next.attempts
                    == start.attempts + 1
                &&& start.container is Some ==> next.container == start.container
            },
            StartStepView::Ready(launch) => start.container == Some(launch.container),
            StartStepView::Failed(failure) => failure.container == start.container,
        },
{
}

} // verus!

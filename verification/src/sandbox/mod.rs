//! A sandbox: one container, one interactive shell, one trajectory.
//!
//! The sandbox decides; it does not talk to the container host. Each
//! operation hands its caller what to ask of the host and takes what the host
//! answered, so that every rule of the lifecycle is in this module and none is
//! in the code that performs the input and output.

pub mod host;
pub mod io;
pub mod protocol;
pub mod session;
pub mod shell;
pub mod startup;
pub mod types;

use vstd::prelude::*;
use crate::sandbox::host::{
    result_view, standalone_request_of, standalone_result, standalone_result_of, ExecOutcome,
    ExecRequest,
};
use crate::sandbox::io::{strip_session_output, stripped_for, ReadError};
use crate::sandbox::session::{
    count_newlines, error_of_read, escalate, newlines, next_attempt, read_failure, Attempt,
    Exchange, ExchangeView, SessionStep, ShellOutcome,
};
use crate::sandbox::shell::{ps1_marker, ps1_marker_of, standalone_cmd};
use crate::sandbox::startup::{Failure, Launch, PhaseView, Startup, StartupView};
use crate::sandbox::types::{
    CommandExecution, CommandExecutionView, CommandResult, CommandResultView, Error, ErrorView,
    Status, StatusView,
};

verus! {

/// The error of an operation on a sandbox.
pub type SandboxError = Error;

/// The status of a sandbox.
pub type SandboxStatus = Status;

/// A shell sandbox. `P` is the permit that admits its container; `S` is the
/// pair of streams of its attached shell. The sandbox holds both while its
/// container runs and looks into neither.
pub struct Sandbox<P, S> {
    id: String,
    image: String,
    setup_commands: String,
    start_time: Option<u64>,
    status: Status,
    permit: Option<P>,
    streams: Option<S>,
    trajectory: Vec<CommandExecution>,
    last_standalone_exit_code: Option<i64>,
}

/// What a sandbox holds, but for its permit and its streams.
pub struct SandboxView {
    /// The unique id of the sandbox.
    pub id: Seq<char>,
    /// The image of its container.
    pub image: Seq<char>,
    /// The setup commands as one shell command, empty where there are none.
    pub setup_commands: Seq<char>,
    /// When its shell was configured, in nanoseconds of a monotonic clock.
    pub start_time: Option<u64>,
    pub status: StatusView,
    /// The commands of its session, oldest first.
    pub trajectory: Seq<CommandExecutionView>,
    /// The exit code of the last one-shot command.
    pub last_standalone_exit_code: Option<i64>,
}

/// The views of the entries of a trajectory.
pub open spec fn entries(trajectory: Seq<CommandExecution>) -> Seq<CommandExecutionView> {
    Seq::new(trajectory.len(), |i: int| trajectory[i]@)
}

/// One entry of a trajectory as a person reads it: the command behind `$ `,
/// then its output on a line of its own where it has any, or a note where no
/// result was recorded.
pub open spec fn formatted_entry(entry: CommandExecutionView) -> Seq<char> {
    "$ "@ + entry.command + "\n"@ + match entry.result {
        Some(result) => if result.output.len() == 0 {
            Seq::empty()
        } else {
            result.output + "\n"@
        },
        None => "Status: Command started but no result recorded\n"@,
    }
}

/// A trajectory as a person reads it, entry by entry.
pub open spec fn formatted(trajectory: Seq<CommandExecutionView>) -> Seq<char>
    decreases trajectory.len(),
{
    if trajectory.len() == 0 {
        Seq::empty()
    } else {
        formatted(trajectory.drop_last()) + formatted_entry(trajectory.last())
    }
}

/// A trajectory only grows: `later` holds every entry of `earlier` at its
/// place, with its command and its time, and with its result where it had one.
pub open spec fn grown_from(
    later: Seq<CommandExecutionView>,
    earlier: Seq<CommandExecutionView>,
) -> bool {
    &&& earlier.len() <= later.len()
    &&& forall|i: int|
        0 <= i < earlier.len() ==> {
            &&& (#[trigger] later[i]).command == earlier[i].command
            &&& later[i].timestamp == earlier[i].timestamp
            &&& (earlier[i].result is Some ==> later[i].result == earlier[i].result)
        }
}

/// Whether the entry at `index` waits for its result.
pub open spec fn awaits_result(trajectory: Seq<CommandExecutionView>, index: int) -> bool {
    0 <= index < trajectory.len() && trajectory[index].result is None
}

/// The trajectory after the entry at `index` got its result; the trajectory
/// as it was where that entry does not wait for one.
pub open spec fn with_result(
    trajectory: Seq<CommandExecutionView>,
    index: int,
    result: CommandResultView,
) -> Seq<CommandExecutionView> {
    if awaits_result(trajectory, index) {
        trajectory.update(
            index,
            CommandExecutionView { result: Some(result), ..trajectory[index] },
        )
    } else {
        trajectory
    }
}

/// What a session command produced, read out of the text that the shell of
/// the sandbox `unique` sent.
pub open spec fn session_result_of(text: Seq<char>, unique: Seq<char>) -> CommandResultView {
    let (output, code, exited) = stripped_for(text, unique);
    CommandResultView { output, exit_code: code as i64, exited }
}

/// The status after a session command: the session has exited where the
/// command ended a started session, and nothing changed otherwise.
pub open spec fn status_after(status: StatusView, exited: bool) -> StatusView {
    match status {
        StatusView::Started(container) => if exited {
            StatusView::Exited(container)
        } else {
            status
        },
        _ => status,
    }
}

/// The exit code of the last one-shot command after a start whose setup
/// commands ended with `setup`, if they ran.
pub open spec fn last_code_after(before: Option<i64>, setup: Option<i64>) -> Option<i64> {
    match setup {
        Some(code) => Some(code),
        None => before,
    }
}

impl SandboxView {
    /// The sandbox once stopped.
    pub open spec fn stopped(self) -> SandboxView {
        SandboxView { status: StatusView::Stopped, ..self }
    }

    /// The sandbox once started at the time `now`.
    pub open spec fn started(self, container: Seq<char>, setup: Option<i64>, now: u64) -> SandboxView {
        SandboxView {
            status: StatusView::Started(container),
            start_time: Some(now),
            last_standalone_exit_code: last_code_after(self.last_standalone_exit_code, setup),
            ..self
        }
    }

    /// The sandbox after a start that failed.
    pub open spec fn start_aborted(self, left_behind: bool, setup: Option<i64>, removed: bool) -> SandboxView {
        SandboxView {
            status: if removed && left_behind {
                StatusView::Stopped
            } else {
                StatusView::Created
            },
            last_standalone_exit_code: last_code_after(self.last_standalone_exit_code, setup),
            ..self
        }
    }

    /// The sandbox after it took in the command `cmd` at the time `now`.
    pub open spec fn with_command(self, cmd: Seq<char>, now: u64) -> SandboxView {
        SandboxView {
            trajectory: self.trajectory.push(
                CommandExecutionView { command: cmd, timestamp: now, result: None },
            ),
            ..self
        }
    }

    /// The sandbox after the command at `index` of its session produced
    /// `result`.
    pub open spec fn with_session_result(self, index: int, result: CommandResultView) -> SandboxView {
        SandboxView {
            status: status_after(self.status, result.exited),
            trajectory: with_result(self.trajectory, index, result),
            ..self
        }
    }

    /// The sandbox after a one-shot command ended with `code`.
    pub open spec fn with_standalone_code(self, code: i64) -> SandboxView {
        SandboxView { last_standalone_exit_code: Some(code), ..self }
    }
}

/// Calls `uuid::Uuid::new_v4` and prints the id in its hyphenated form, which
/// is 36 characters long. The id is random: nothing else is claimed of it.
#[verifier::external_body]
pub(crate) fn fresh_id() -> (id: String)
    ensures
        id@.len() == 36,
{
    uuid::Uuid::new_v4().to_string()
}

impl<P, S> View for Sandbox<P, S> {
    type V = SandboxView;

    closed spec fn view(&self) -> SandboxView {
        SandboxView {
            id: self.id@,
            image: self.image@,
            setup_commands: self.setup_commands@,
            start_time: self.start_time,
            status: self.status@,
            trajectory: entries(self.trajectory@),
            last_standalone_exit_code: self.last_standalone_exit_code,
        }
    }
}

impl<P, S> Sandbox<P, S> {
    /// The permit that the sandbox holds.
    pub closed spec fn permit(&self) -> Option<P> {
        self.permit
    }

    /// The streams that the sandbox holds.
    pub closed spec fn streams(&self) -> Option<S> {
        self.streams
    }

    /// How many permits the sandbox holds.
    pub open spec fn permits_held(&self) -> nat {
        if self.permit() is Some {
            1
        } else {
            0
        }
    }

    /// What holds of a sandbox at all times: it holds a permit, its streams
    /// and a start time while its container runs, and none of them before it
    /// was started; after it was stopped it holds neither permit nor streams.
    pub open spec fn wf(&self) -> bool {
        &&& self.permit() is Some <==> self@.status.is_running()
        &&& self.streams() is Some <==> self@.status.is_running()
        &&& self@.status.is_running() ==> self@.start_time is Some
        &&& self@.status is Created ==> self@.start_time is None
    }

    /// A sandbox that was just made, with the id given.
    pub fn with_id(id: String, image: String, setup_commands: String) -> (sandbox: Self)
        ensures
            sandbox.wf(),
            sandbox@ == (SandboxView {
                id: id@,
                image: image@,
                setup_commands: setup_commands@,
                start_time: None,
                status: StatusView::Created,
                trajectory: Seq::empty(),
                last_standalone_exit_code: None,
            }),
    {
        let sandbox = Sandbox {
            id,
            image,
            setup_commands,
            start_time: None,
            status: Status::Created,
            permit: None,
            streams: None,
            trajectory: Vec::new(),
            last_standalone_exit_code: None,
        };
        assert(sandbox@.trajectory == Seq::<CommandExecutionView>::empty());
        sandbox
    }

    /// A sandbox that was just made, with a fresh random id.
    pub fn new(image: String, setup_commands: String) -> (sandbox: Self)
        ensures
            sandbox.wf(),
            sandbox@.id.len() == 36,
            sandbox@ == (SandboxView {
                id: sandbox@.id,
                image: image@,
                setup_commands: setup_commands@,
                start_time: None,
                status: StatusView::Created,
                trajectory: Seq::empty(),
                last_standalone_exit_code: None,
            }),
    {
        Self::with_id(fresh_id(), image, setup_commands)
    }

    /// The unique id of the sandbox.
    pub fn id(&self) -> (id: &String)
        ensures
            id@ == self@.id,
    {
        &self.id
    }

    /// The image of the container.
    pub fn image(&self) -> (image: &String)
        ensures
            image@ == self@.image,
    {
        &self.image
    }

    /// The setup commands as one shell command.
    pub fn setup_commands(&self) -> (setup: &String)
        ensures
            setup@ == self@.setup_commands,
    {
        &self.setup_commands
    }

    /// When the shell of the sandbox was configured.
    pub fn start_time(&self) -> (time: Option<u64>)
        ensures
            time == self@.start_time,
    {
        self.start_time
    }

    /// Where the sandbox stands in its life.
    pub fn get_status(&self) -> (status: &Status)
        ensures
            status@ == self@.status,
    {
        &self.status
    }

    /// The commands of the session, oldest first.
    pub fn get_trajectory(&self) -> (trajectory: &Vec<CommandExecution>)
        ensures
            entries(trajectory@) == self@.trajectory,
    {
        &self.trajectory
    }

    /// How many commands the session has taken in.
    pub fn command_count(&self) -> (count: usize)
        ensures
            count == self@.trajectory.len(),
    {
        self.trajectory.len()
    }

    /// The exit code of the last one-shot command.
    pub fn get_last_standalone_exit_code(&self) -> (code: Option<i64>)
        ensures
            code == self@.last_standalone_exit_code,
    {
        self.last_standalone_exit_code
    }

    /// The streams of the attached shell, while the container runs.
    pub fn shell_streams(&self) -> (streams: Option<&S>)
        ensures
            streams is Some <==> self.streams() is Some,
            streams matches Some(held) ==> self.streams() == Some(*held),
    {
        self.streams.as_ref()
    }

    /// The marker that opens the prompts of this sandbox: it holds the id of
    /// the sandbox, which the guest cannot guess.
    pub fn get_marker(&self) -> (marker: String)
        ensures
            marker@ == ps1_marker_of(self@.id),
    {
        ps1_marker(self.id.as_str())
    }

    /// The trajectory as a person reads it.
    pub fn format_trajectory(&self) -> (text: String)
        ensures
            text@ == formatted(self@.trajectory),
    {
        let mut text = String::new();
        let mut i: usize = 0;
        let ghost all = entries(self.trajectory@);
        assert(all.take(0) == Seq::<CommandExecutionView>::empty());
        while i < self.trajectory.len()
            invariant
                i <= self.trajectory.len(),
                all == entries(self.trajectory@),
                text@ == formatted(all.take(i as int)),
            decreases self.trajectory.len() - i,
        {
            let entry = &self.trajectory[i];
            let ghost before = text@;
            text.append("$ ");
            text.append(entry.command.as_str());
            text.append("\n");
            match &entry.result {
                Some(result) => {
                    if !result.output.as_str().is_empty() {
                        text.append(result.output.as_str());
                        text.append("\n");
                    } else {
                        assert(text@ + Seq::<char>::empty() == text@);
                    }
                },
                None => {
                    text.append("Status: Command started but no result recorded\n");
                },
            }
            proof {
                assert(all.take(i + 1).drop_last() == all.take(i as int));
                assert(all.take(i + 1).last() == entry@);
                assert(text@ == before + formatted_entry(entry@));
            }
            i += 1;
        }
        assert(all.take(all.len() as int) == all);
        text
    }
}

impl<P, S> Sandbox<P, S> {
    /// Stops the sandbox: the permit is released and the streams are dropped.
    /// Returns the id of the container, which the caller then removes by
    /// force; whether that removal succeeds changes nothing here.
    ///
    /// A sandbox that was never started, or was stopped before, is left as it
    /// is and `NotStarted` is returned.
    pub fn stop(&mut self) -> (result: Result<String, Error>)
        ensures
            old(self).wf() ==> final(self).wf(),
            match old(self)@.status.container() {
                Some(container) => {
                    &&& result matches Ok(removed)
                    &&& removed@ == container
                    &&& final(self)@ == old(self)@.stopped()
                    &&& final(self).permits_held() == 0
                },
                None => {
                    &&& result matches Err(error)
                    &&& error@ == ErrorView::NotStarted
                    &&& *final(self) == *old(self)
                },
            },
    {
        let container = match &self.status {
            Status::Started(container) => container.clone(),
            Status::Exited(container) => container.clone(),
            _ => {
                return Err(Error::NotStarted);
            },
        };
        self.permit = None;
        self.status = Status::Stopped;
        self.streams = None;
        Ok(container)
    }

    /// The one-shot process that runs `cmd` in the container of the sandbox,
    /// apart from its session. `NotStarted` where no container runs.
    pub fn standalone_request(&self, cmd: &str) -> (result: Result<ExecRequest, Error>)
        ensures
            match self@.status.container() {
                Some(container) => result matches Ok(request) && request@ == standalone_request_of(
                    container,
                    cmd@,
                ),
                None => result matches Err(error) && error@ == ErrorView::NotStarted,
            },
    {
        let container = match &self.status {
            Status::Started(container) => container.clone(),
            Status::Exited(container) => container.clone(),
            _ => {
                return Err(Error::NotStarted);
            },
        };
        let cmd = standalone_cmd(cmd);
        assert(cmd.deep_view() == seq!["/bin/bash"@, "-c"@, cmd@[2]@]);
        Ok(
            ExecRequest {
                container,
                cmd,
                attach_stdin: false,
                attach_stdout: true,
                attach_stderr: true,
                tty: false,
            },
        )
    }

    /// Takes in what the container host made of a one-shot command, and
    /// returns what the command produced. Where the command ran to its end its
    /// exit code is kept as the last one; nothing else of the sandbox changes:
    /// the session, its trajectory and the status stay as they are.
    /// `NotStarted` where no container runs.
    pub fn exec_standalone_cmd(&mut self, outcome: ExecOutcome) -> (result: Result<
        CommandResult,
        Error,
    >)
        ensures
            old(self).wf() ==> final(self).wf(),
            final(self).permit() == old(self).permit(),
            final(self).streams() == old(self).streams(),
            old(self)@.status.is_running() ==> {
                &&& result_view(result) == standalone_result_of(outcome)
                &&& final(self)@ == match result {
                    Ok(done) => old(self)@.with_standalone_code(done.exit_code),
                    Err(_) => old(self)@,
                }
            },
            !old(self)@.status.is_running() ==> {
                &&& result matches Err(error)
                &&& error@ == ErrorView::NotStarted
                &&& *final(self) == *old(self)
            },
    {
        match &self.status {
            Status::Started(_) | Status::Exited(_) => {},
            _ => {
                return Err(Error::NotStarted);
            },
        }
        let result = standalone_result(outcome);
        match &result {
            Ok(done) => {
                self.last_standalone_exit_code = Some(done.exit_code);
            },
            Err(_) => {},
        }
        result
    }
}

impl<P, S> Sandbox<P, S> {
    /// Takes in a command for the session. The command is put at the end of
    /// the trajectory, with the time `now` and no result yet, and the exchange
    /// that is returned says what to write to the shell: the command and a
    /// newline; the read that follows may end once as many prompts came as the
    /// command holds newlines.
    ///
    /// `AlreadyExited` where the session has ended, `NotStarted` where the
    /// sandbox is not started; the sandbox is then left as it is.
    pub fn begin_session_cmd(&mut self, cmd: String, now: u64) -> (result: Result<Exchange, Error>)
        ensures
            old(self).wf() ==> final(self).wf(),
            final(self).permit() == old(self).permit(),
            final(self).streams() == old(self).streams(),
            match old(self)@.status {
                StatusView::Started(_) => {
                    &&& result matches Ok(exchange)
                    &&& exchange@ == (ExchangeView {
                        index: old(self)@.trajectory.len() as usize,
                        attempt: Attempt::Command,
                        input: cmd@ + "\n"@,
                        short_circuit_after: newlines(cmd@) as usize,
                    })
                    &&& final(self)@ == old(self)@.with_command(cmd@, now)
                },
                StatusView::Exited(_) => {
                    &&& result matches Err(error)
                    &&& error@ == ErrorView::AlreadyExited
                    &&& *final(self) == *old(self)
                },
                _ => {
                    &&& result matches Err(error)
                    &&& error@ == ErrorView::NotStarted
                    &&& *final(self) == *old(self)
                },
            },
    {
        match &self.status {
            Status::Started(_) => {},
            Status::Exited(_) => {
                return Err(Error::AlreadyExited);
            },
            _ => {
                return Err(Error::NotStarted);
            },
        }
        let index = self.trajectory.len();
        let short_circuit_after = count_newlines(cmd.as_str());
        let input = cmd.clone().concat("\n");
        let ghost before = entries(self.trajectory@);
        self.trajectory.push(CommandExecution { command: cmd, timestamp: now, result: None });
        assert(entries(self.trajectory@) == before.push(
            CommandExecutionView { command: cmd@, timestamp: now, result: None },
        ));
        Ok(Exchange { index, attempt: Attempt::Command, input, short_circuit_after })
    }

    /// Takes in what an exchange with the shell came to, and says what
    /// follows.
    ///
    /// Where text was read, the result of the command is read out of it with
    /// the markers of this sandbox and put into the entry of the command, if
    /// that entry still waits for one; where the exit marker was seen, a
    /// started sandbox becomes one whose session has exited. Where the read
    /// timed out, the next exchange nudges the shell, first with a newline,
    /// then with the end-of-input byte; after that the command has failed
    /// with `TimeoutWaitingForMarker`. A failed write and a closed stream fail
    /// the command at once. A failed command leaves the sandbox as it is.
    pub fn exec_session_cmd(&mut self, exchange: Exchange, outcome: ShellOutcome) -> (step:
        SessionStep)
        ensures
            old(self).wf() ==> final(self).wf(),
            final(self).permit() == old(self).permit(),
            final(self).streams() == old(self).streams(),
            grown_from(final(self)@.trajectory, old(self)@.trajectory),
            match outcome {
                ShellOutcome::WriteFailed(message) => {
                    &&& step matches SessionStep::Finished(Err(error))
                    &&& error@ == ErrorView::ContainerWriteFailed(message@)
                    &&& *final(self) == *old(self)
                },
                ShellOutcome::Read(Err(ReadError::StreamClosed)) => {
                    &&& step matches SessionStep::Finished(Err(error))
                    &&& error@ == read_failure(ReadError::StreamClosed)
                    &&& *final(self) == *old(self)
                },
                ShellOutcome::Read(Err(ReadError::OverallTimeout)) => {
                    &&& *final(self) == *old(self)
                    &&& match next_attempt(exchange.attempt) {
                        Some((attempt, input)) => {
                            &&& step matches SessionStep::Retry(next)
                            &&& next@ == (ExchangeView {
                                index: exchange.index,
                                attempt,
                                input,
                                short_circuit_after: 1,
                            })
                        },
                        None => {
                            &&& step matches SessionStep::Finished(Err(error))
                            &&& error@ == read_failure(ReadError::OverallTimeout)
                        },
                    }
                },
                ShellOutcome::Read(Ok(text)) => {
                    let result = session_result_of(text@, old(self)@.id);
                    &&& step matches SessionStep::Finished(Ok(done))
                    &&& done@ == result
                    &&& final(self)@ == old(self)@.with_session_result(
                        exchange.index as int,
                        result,
                    )
                },
            },
    {
        let text = match outcome {
            ShellOutcome::WriteFailed(message) => {
                return SessionStep::Finished(Err(Error::ContainerWriteFailed(message)));
            },
            ShellOutcome::Read(Err(ReadError::StreamClosed)) => {
                return SessionStep::Finished(Err(error_of_read(ReadError::StreamClosed)));
            },
            ShellOutcome::Read(Err(ReadError::OverallTimeout)) => {
                return match escalate(&exchange) {
                    Some(next) => SessionStep::Retry(next),
                    None => SessionStep::Finished(Err(error_of_read(ReadError::OverallTimeout))),
                };
            },
            ShellOutcome::Read(Ok(text)) => text,
        };
        let (output, exit_code, exited) = strip_session_output(text.as_str(), self.id.as_str());
        let result = CommandResult { output, exit_code, exited };
        if exited {
            let container = match &self.status {
                Status::Started(container) => Some(container.clone()),
                _ => None,
            };
            match container {
                Some(container) => {
                    self.status = Status::Exited(container);
                },
                None => {},
            }
        }
        let index = exchange.index;
        let ghost before = entries(self.trajectory@);
        if index < self.trajectory.len() && self.trajectory[index].result.is_none() {
            let entry = CommandExecution {
                command: self.trajectory[index].command.clone(),
                timestamp: self.trajectory[index].timestamp,
                result: Some(result.clone()),
            };
            self.trajectory.set(index, entry);
            assert(entries(self.trajectory@) == before.update(
                index as int,
                CommandExecutionView { result: Some(result@), ..before[index as int] },
            ));
        }
        SessionStep::Finished(Ok(result))
    }
}

impl<P, S> Sandbox<P, S> {
    /// Begins the start of the sandbox with the permit that admits its
    /// container. The start that is returned says, step by step, what to ask
    /// of the container host. The sandbox itself changes only when the start
    /// has ended. `AlreadyStarted` where the sandbox is not new; the permit is
    /// then released.
    pub fn begin_start(&self, permit: P) -> (result: Result<Startup<P>, Error>)
        ensures
            match self@.status {
                StatusView::Created => {
                    &&& result matches Ok(startup)
                    &&& startup.permit() == permit
                    &&& startup@ == (StartupView {
                        id: self@.id,
                        image: self@.image,
                        setup_commands: self@.setup_commands,
                        phase: PhaseView::ProbeImage,
                        container: None,
                        attempts: 0,
                        setup_exit_code: None,
                    })
                },
                _ => result matches Err(error) && error@ == ErrorView::AlreadyStarted,
            },
    {
        match &self.status {
            Status::Created => Ok(
                Startup::begin(
                    permit,
                    self.id.clone(),
                    self.image.clone(),
                    self.setup_commands.clone(),
                ),
            ),
            _ => Err(Error::AlreadyStarted),
        }
    }

    /// Ends a start that went through: the sandbox is started at the time
    /// `now`, with the container of the start, and keeps the permit of the
    /// start and the streams of the shell. `AlreadyStarted` where the sandbox
    /// is not new; it is then left as it is, and permit and streams are
    /// dropped.
    pub fn start(&mut self, launch: Launch<P>, streams: S, now: u64) -> (result: Result<(), Error>)
        ensures
            old(self).wf() ==> final(self).wf(),
            match old(self)@.status {
                StatusView::Created => {
                    &&& result is Ok
                    &&& final(self)@ == old(self)@.started(
                        launch@.container,
                        launch@.setup_exit_code,
                        now,
                    )
                    &&& final(self).permit() == Some(launch.permit())
                    &&& final(self).streams() == Some(streams)
                },
                _ => {
                    &&& result matches Err(error)
                    &&& error@ == ErrorView::AlreadyStarted
                    &&& *final(self) == *old(self)
                },
            },
    {
        match &self.status {
            Status::Created => {},
            _ => {
                return Err(Error::AlreadyStarted);
            },
        }
        match launch.setup_exit_code {
            Some(code) => {
                self.last_standalone_exit_code = Some(code);
            },
            None => {},
        }
        self.status = Status::Started(launch.container);
        self.streams = Some(streams);
        self.start_time = Some(now);
        self.permit = Some(launch.permit);
        Ok(())
    }

    /// Ends a start that failed, after the caller tried to remove the
    /// container that the start left behind, and returns why the start failed.
    /// The permit of the start is released. A new sandbox whose container was
    /// created and then removed is stopped for good; where no container was
    /// created, or the one created could not be removed, the sandbox stays
    /// new.
    pub fn abort_start(&mut self, failure: Failure<P>, removed: bool) -> (error: Error)
        ensures
            old(self).wf() ==> final(self).wf(),
            error@ == failure@.error,
            final(self).permit() == old(self).permit(),
            final(self).streams() == old(self).streams(),
            match old(self)@.status {
                StatusView::Created => final(self)@ == old(self)@.start_aborted(
                    failure@.container is Some,
                    failure@.setup_exit_code,
                    removed,
                ),
                _ => *final(self) == *old(self),
            },
    {
        match &self.status {
            Status::Created => {
                match failure.setup_exit_code {
                    Some(code) => {
                        self.last_standalone_exit_code = Some(code);
                    },
                    None => {},
                }
                if removed && failure.container.is_some() {
                    self.status = Status::Stopped;
                }
            },
            _ => {},
        }
        failure.error
    }
}

/// Of every sandbox, whatever was done with it: it holds one permit while
/// its container runs, which is while it is started or its session has
/// exited, and none otherwise.
pub proof fn lemma_one_permit_while_running<P, S>(sandbox: Sandbox<P, S>)
    requires
        sandbox.wf(),
    ensures
        sandbox.permits_held() == if sandbox@.status is Started || sandbox@.status is Exited {
            1nat
        } else {
            0nat
        },
{
}

/// The trajectory of a sandbox only grows, and an entry that has its result
/// keeps it: taking in a command puts one entry at the end, and the result of
/// a command goes into an entry that had none.
pub proof fn lemma_trajectory_grows(
    sandbox: SandboxView,
    cmd: Seq<char>,
    now: u64,
    index: int,
    result: CommandResultView,
)
    ensures
        grown_from(sandbox.with_command(cmd, now).trajectory, sandbox.trajectory),
        sandbox.with_command(cmd, now).trajectory.len() == sandbox.trajectory.len() + 1,
        grown_from(sandbox.with_session_result(index, result).trajectory, sandbox.trajectory),
        sandbox.with_session_result(index, result).trajectory.len() == sandbox.trajectory.len(),
        grown_from(sandbox.stopped().trajectory, sandbox.trajectory),
        grown_from(sandbox.with_standalone_code(result.exit_code).trajectory, sandbox.trajectory),
{
}

} // verus!

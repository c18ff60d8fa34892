//! The values that a sandbox holds and hands out: its status, its errors,
//! and the record of the commands it ran.

use vstd::prelude::*;
use crate::text::{decimal, decimal_string};

verus! {

/// What went wrong in an operation on a sandbox.
#[derive(Debug)]
pub enum Error {
    /// The sandbox has no running container.
    NotStarted,
    /// The sandbox was started before.
    AlreadyStarted,
    /// The shell session of the sandbox has ended.
    AlreadyExited,
    /// The setup commands ended with a code other than 0; holds their output.
    SetupCommandsFailed(String),
    /// The image could not be pulled; holds what the container host said.
    PullImageFailed(String),
    /// The container could not be stopped.
    StopContainerFailed(String),
    /// The container could not be created or did not reach the running state.
    StartContainerFailed { message: String, exit_code: Option<i64>, logs: String },
    /// Writing to the shell failed.
    ContainerWriteFailed(String),
    /// Reading from the container failed.
    ContainerReadFailed(String),
    /// A command could not be run; holds its output and exit code.
    ExecFailed(String, i64),
    /// A one-shot command could not be set up.
    CreateExecFailed(String),
    /// No prompt came before the time was up.
    TimeoutWaitingForMarker(String),
}

/// An `Error` with its texts as sequences of characters.
pub enum ErrorView {
    NotStarted,
    AlreadyStarted,
    AlreadyExited,
    SetupCommandsFailed(Seq<char>),
    PullImageFailed(Seq<char>),
    StopContainerFailed(Seq<char>),
    StartContainerFailed { message: Seq<char>, exit_code: Option<i64>, logs: Seq<char> },
    ContainerWriteFailed(Seq<char>),
    ContainerReadFailed(Seq<char>),
    ExecFailed(Seq<char>, i64),
    CreateExecFailed(Seq<char>),
    TimeoutWaitingForMarker(Seq<char>),
}

impl View for Error {
    type V = ErrorView;

    open spec fn view(&self) -> ErrorView {
        match *self {
            Error::NotStarted => ErrorView::NotStarted,
            Error::AlreadyStarted => ErrorView::AlreadyStarted,
            Error::AlreadyExited => ErrorView::AlreadyExited,
            Error::SetupCommandsFailed(output) => ErrorView::SetupCommandsFailed(output@),
            Error::PullImageFailed(source) => ErrorView::PullImageFailed(source@),
            Error::StopContainerFailed(message) => ErrorView::StopContainerFailed(message@),
            Error::StartContainerFailed { message, exit_code, logs } => {
                ErrorView::StartContainerFailed { message: message@, exit_code, logs: logs@ }
            },
            Error::ContainerWriteFailed(message) => ErrorView::ContainerWriteFailed(message@),
            Error::ContainerReadFailed(message) => ErrorView::ContainerReadFailed(message@),
            Error::ExecFailed(output, code) => ErrorView::ExecFailed(output@, code),
            Error::CreateExecFailed(message) => ErrorView::CreateExecFailed(message@),
            Error::TimeoutWaitingForMarker(message) => ErrorView::TimeoutWaitingForMarker(
                message@,
            ),
        }
    }
}

/// The status code of a bad request.
pub const BAD_REQUEST: u16 = 400;

/// The status code of a missing sandbox.
pub const NOT_FOUND: u16 = 404;

/// The status code of a failure on the side of the server.
pub const INTERNAL_SERVER_ERROR: u16 = 500;

/// The status code of a timeout behind the server.
pub const GATEWAY_TIMEOUT: u16 = 504;

/// An optional exit code as `{:?}` prints it.
pub open spec fn optional_code_text(code: Option<i64>) -> Seq<char> {
    match code {
        Some(c) => "Some("@ + decimal(c as int) + ")"@,
        None => "None"@,
    }
}

impl ErrorView {
    /// The sentence that tells a person what went wrong.
    pub open spec fn message(self) -> Seq<char> {
        match self {
            ErrorView::NotStarted => "Sandbox not started"@,
            ErrorView::AlreadyStarted => "Sandbox already started"@,
            ErrorView::AlreadyExited => "Sandbox session already exited"@,
            ErrorView::SetupCommandsFailed(output) => "Setup commands failed: "@ + output,
            ErrorView::PullImageFailed(_) => "Failed to pull image"@,
            ErrorView::StopContainerFailed(message) => "Failed to stop container: "@ + message,
            ErrorView::StartContainerFailed { message, exit_code, logs } => {
                "Failed to start container: "@ + message + ". Exit code: "@ + optional_code_text(
                    exit_code,
                ) + ", Logs: "@ + logs
            },
            ErrorView::ContainerWriteFailed(_) => "Container write failed"@,
            ErrorView::ContainerReadFailed(message) => "Container read failed: "@ + message,
            ErrorView::ExecFailed(output, code) => {
                "Exec failed: "@ + output + " (exit code: "@ + decimal(code as int) + ")"@
            },
            ErrorView::CreateExecFailed(message) => "Failed to create exec: "@ + message,
            ErrorView::TimeoutWaitingForMarker(message) => "Timeout waiting for marker: "@
                + message,
        }
    }

    /// The status code that a request answers with when it fails so: 504
    /// where a prompt did not come in time, 500 where the container host or
    /// the stream failed, 400 where the request did not fit the sandbox.
    pub open spec fn status_code(self) -> u16 {
        match self {
            ErrorView::NotStarted => BAD_REQUEST,
            ErrorView::AlreadyStarted => BAD_REQUEST,
            ErrorView::AlreadyExited => BAD_REQUEST,
            ErrorView::SetupCommandsFailed(_) => BAD_REQUEST,
            ErrorView::PullImageFailed(_) => BAD_REQUEST,
            ErrorView::StopContainerFailed(_) => BAD_REQUEST,
            ErrorView::StartContainerFailed { .. } => INTERNAL_SERVER_ERROR,
            ErrorView::ContainerWriteFailed(_) => INTERNAL_SERVER_ERROR,
            ErrorView::ContainerReadFailed(_) => INTERNAL_SERVER_ERROR,
            ErrorView::ExecFailed(_, _) => INTERNAL_SERVER_ERROR,
            ErrorView::CreateExecFailed(_) => INTERNAL_SERVER_ERROR,
            ErrorView::TimeoutWaitingForMarker(_) => GATEWAY_TIMEOUT,
        }
    }
}

impl Error {
    /// The sentence that tells a person what went wrong.
    pub fn message(&self) -> (text: String)
        ensures
            text@ == self@.message(),
    {
        match self {
            Error::NotStarted => "Sandbox not started".to_string(),
            Error::AlreadyStarted => "Sandbox already started".to_string(),
            Error::AlreadyExited => "Sandbox session already exited".to_string(),
            Error::SetupCommandsFailed(output) => "Setup commands failed: ".to_string().concat(
                output.as_str(),
            ),
            Error::PullImageFailed(_) => "Failed to pull image".to_string(),
            Error::StopContainerFailed(message) => "Failed to stop container: ".to_string().concat(
                message.as_str(),
            ),
            Error::StartContainerFailed { message, exit_code, logs } => {
                let code: String = match exit_code {
                    Some(c) => "Some(".to_string().concat(decimal_string(*c).as_str()).concat(
                        ")",
                    ),
                    None => "None".to_string(),
                };
                "Failed to start container: ".to_string().concat(message.as_str()).concat(
                    ". Exit code: ",
                ).concat(code.as_str()).concat(", Logs: ").concat(logs.as_str())
            },
            Error::ContainerWriteFailed(_) => "Container write failed".to_string(),
            Error::ContainerReadFailed(message) => "Container read failed: ".to_string().concat(
                message.as_str(),
            ),
            Error::ExecFailed(output, code) => "Exec failed: ".to_string().concat(
                output.as_str(),
            ).concat(" (exit code: ").concat(decimal_string(*code).as_str()).concat(")"),
            Error::CreateExecFailed(message) => "Failed to create exec: ".to_string().concat(
                message.as_str(),
            ),
            Error::TimeoutWaitingForMarker(message) => "Timeout waiting for marker: ".to_string()
                .concat(message.as_str()),
        }
    }

    /// The status code that a request answers with when it fails so.
    pub fn to_status_code(&self) -> (code: u16)
        ensures
            code == self@.status_code(),
    {
        match self {
            Error::NotStarted => BAD_REQUEST,
            Error::AlreadyStarted => BAD_REQUEST,
            Error::AlreadyExited => BAD_REQUEST,
            Error::SetupCommandsFailed(_) => BAD_REQUEST,
            Error::PullImageFailed(_) => BAD_REQUEST,
            Error::StopContainerFailed(_) => BAD_REQUEST,
            Error::StartContainerFailed { .. } => INTERNAL_SERVER_ERROR,
            Error::ContainerWriteFailed(_) => INTERNAL_SERVER_ERROR,
            Error::ContainerReadFailed(_) => INTERNAL_SERVER_ERROR,
            Error::ExecFailed(_, _) => INTERNAL_SERVER_ERROR,
            Error::CreateExecFailed(_) => INTERNAL_SERVER_ERROR,
            Error::TimeoutWaitingForMarker(_) => GATEWAY_TIMEOUT,
        }
    }
}

/// Where a sandbox stands in its life.
#[derive(Debug)]
pub enum Status {
    /// Made, with no container yet.
    Created,
    /// Running, with the shell of its session attached; holds the container id.
    Started(String),
    /// The shell session has ended and the container still runs; holds the
    /// container id.
    Exited(String),
    /// Stopped for good.
    Stopped,
}

/// A `Status` with the container id as a sequence of characters.
pub enum StatusView {
    Created,
    Started(Seq<char>),
    Exited(Seq<char>),
    Stopped,
}

impl View for Status {
    type V = StatusView;

    open spec fn view(&self) -> StatusView {
        match *self {
            Status::Created => StatusView::Created,
            Status::Started(container) => StatusView::Started(container@),
            Status::Exited(container) => StatusView::Exited(container@),
            Status::Stopped => StatusView::Stopped,
        }
    }
}

impl StatusView {
    /// The word by which listings name the status.
    pub open spec fn label(self) -> Seq<char> {
        match self {
            StatusView::Created => "created"@,
            StatusView::Started(_) => "started"@,
            StatusView::Exited(_) => "exited"@,
            StatusView::Stopped => "stopped"@,
        }
    }

    /// Whether a container runs for the sandbox.
    pub open spec fn is_running(self) -> bool {
        self is Started || self is Exited
    }

    /// The id of the container that runs for the sandbox.
    pub open spec fn container(self) -> Option<Seq<char>> {
        match self {
            StatusView::Started(container) => Some(container),
            StatusView::Exited(container) => Some(container),
            _ => None,
        }
    }
}

impl Status {
    /// The word by which listings name the status.
    pub fn label(&self) -> (word: String)
        ensures
            word@ == self@.label(),
    {
        match self {
            Status::Created => "created".to_string(),
            Status::Started(_) => "started".to_string(),
            Status::Exited(_) => "exited".to_string(),
            Status::Stopped => "stopped".to_string(),
        }
    }
}

impl Clone for Status {
    fn clone(&self) -> (copy: Self)
        ensures
            copy == *self,
    {
        match self {
            Status::Created => Status::Created,
            Status::Started(container) => Status::Started(container.clone()),
            Status::Exited(container) => Status::Exited(container.clone()),
            Status::Stopped => Status::Stopped,
        }
    }
}

/// What a command produced.
#[derive(Debug)]
pub struct CommandResult {
    /// What the command wrote, standard output and standard error together.
    pub output: String,
    /// The exit code of the command, -1 where none could be read.
    pub exit_code: i64,
    /// Whether the command ended the shell session.
    pub exited: bool,
}

/// A `CommandResult` with its output as a sequence of characters.
pub struct CommandResultView {
    pub output: Seq<char>,
    pub exit_code: i64,
    pub exited: bool,
}

impl View for CommandResult {
    type V = CommandResultView;

    open spec fn view(&self) -> CommandResultView {
        CommandResultView { output: self.output@, exit_code: self.exit_code, exited: self.exited }
    }
}

impl Clone for CommandResult {
    fn clone(&self) -> (copy: Self)
        ensures
            copy == *self,
    {
        CommandResult {
            output: self.output.clone(),
            exit_code: self.exit_code,
            exited: self.exited,
        }
    }
}

/// One command of a session: what was asked, when, and what came of it.
#[derive(Debug)]
pub struct CommandExecution {
    /// The command as the caller gave it.
    pub command: String,
    /// When the command was submitted, in nanoseconds of a monotonic clock.
    pub timestamp: u64,
    /// What the command produced, once it is known.
    pub result: Option<CommandResult>,
}

/// A `CommandExecution` with its texts as sequences of characters.
pub struct CommandExecutionView {
    pub command: Seq<char>,
    pub timestamp: u64,
    pub result: Option<CommandResultView>,
}

impl View for CommandExecution {
    type V = CommandExecutionView;

    open spec fn view(&self) -> CommandExecutionView {
        CommandExecutionView {
            command: self.command@,
            timestamp: self.timestamp,
            result: match self.result {
                Some(result) => Some(result@),
                None => None,
            },
        }
    }
}

impl Clone for CommandExecution {
    fn clone(&self) -> (copy: Self)
        ensures
            copy == *self,
    {
        CommandExecution {
            command: self.command.clone(),
            timestamp: self.timestamp,
            result: match &self.result {
                Some(result) => Some(result.clone()),
                None => None,
            },
        }
    }
}

} // verus!

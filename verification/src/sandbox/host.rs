//! What the sandbox asks of the container host, and what the host answers,
//! as plain values.

use vstd::prelude::*;
use crate::sandbox::io::{decode_lossy, utf8_lossy};
use crate::sandbox::types::{CommandResult, CommandResultView, Error, ErrorView};

verus! {

/// The stream of a container that a frame of output came from.
#[derive(Debug, Clone, Copy, PartialEq, Eq, Structural)]
pub enum StreamKind {
    StdIn,
    StdOut,
    StdErr,
    Console,
}

/// A piece of output of a container.
#[derive(Debug)]
pub struct Frame {
    pub stream: StreamKind,
    pub message: Vec<u8>,
}

/// The bytes that the frames wrote to standard output and standard error,
/// in the order in which they came.
pub open spec fn combined(frames: Seq<Frame>) -> Seq<u8>
    decreases frames.len(),
{
    if frames.len() == 0 {
        Seq::empty()
    } else {
        let last = frames.last();
        if last.stream == StreamKind::StdOut || last.stream == StreamKind::StdErr {
            combined(frames.drop_last()) + last.message@
        } else {
            combined(frames.drop_last())
        }
    }
}

/// The bytes that the frames wrote to standard output and standard error,
/// in the order in which they came.
pub fn combine(frames: &Vec<Frame>) -> (out: Vec<u8>)
    ensures
        out@ == combined(frames@),
{
    let mut out: Vec<u8> = Vec::new();
    let mut i: usize = 0;
    while i < frames.len()
        invariant
            i <= frames.len(),
            out@ == combined(frames@.take(i as int)),
        decreases frames.len() - i,
    {
        assert(frames@.take(i + 1).drop_last() == frames@.take(i as int));
        let frame = &frames[i];
        match frame.stream {
            StreamKind::StdOut | StreamKind::StdErr => {
                let mut k: usize = 0;
                let ghost before = out@;
                while k < frame.message.len()
                    invariant
                        k <= frame.message.len(),
                        out@ == before + frame.message@.take(k as int),
                    decreases frame.message.len() - k,
                {
                    out.push(frame.message[k]);
                    assert(frame.message@.take(k + 1) == frame.message@.take(k as int).push(
                        frame.message@[k as int],
                    ));
                    k += 1;
                }
                assert(frame.message@.take(frame.message.len() as int) == frame.message@);
            },
            _ => {},
        }
        i += 1;
    }
    assert(frames@.take(frames.len() as int) == frames@);
    out
}

/// A process to run inside a running container.
#[derive(Debug)]
pub struct ExecRequest {
    /// The id of the container.
    pub container: String,
    /// The argument vector of the process.
    pub cmd: Vec<String>,
    pub attach_stdin: bool,
    pub attach_stdout: bool,
    pub attach_stderr: bool,
    pub tty: bool,
}

/// An `ExecRequest` with its texts as sequences of characters.
pub struct ExecRequestView {
    pub container: Seq<char>,
    pub cmd: Seq<Seq<char>>,
    pub attach_stdin: bool,
    pub attach_stdout: bool,
    pub attach_stderr: bool,
    pub tty: bool,
}

impl View for ExecRequest {
    type V = ExecRequestView;

    open spec fn view(&self) -> ExecRequestView {
        ExecRequestView {
            container: self.container@,
            cmd: self.cmd.deep_view(),
            attach_stdin: self.attach_stdin,
            attach_stdout: self.attach_stdout,
            attach_stderr: self.attach_stderr,
            tty: self.tty,
        }
    }
}

/// The one-shot process that runs `cmd` in the container: a shell of its
/// own, with standard output and standard error attached and no terminal.
pub open spec fn standalone_request_of(container: Seq<char>, cmd: Seq<char>) -> ExecRequestView {
    ExecRequestView {
        container,
        cmd: seq!["/bin/bash"@, "-c"@, cmd],
        attach_stdin: false,
        attach_stdout: true,
        attach_stderr: true,
        tty: false,
    }
}

/// What the container host made of a one-shot process.
#[derive(Debug)]
pub enum ExecOutcome {
    /// The process could not be created.
    CreateFailed(String),
    /// The process could not be started.
    StartFailed(String),
    /// Its output could not be read to the end.
    ReadFailed(String),
    /// It could not be inspected after it ended.
    InspectFailed(String),
    /// It ran to its end.
    Finished { frames: Vec<Frame>, exit_code: i64 },
}

/// What a one-shot command produced, or why it produced nothing.
pub open spec fn standalone_result_of(outcome: ExecOutcome) -> Result<CommandResultView, ErrorView> {
    match outcome {
        ExecOutcome::CreateFailed(message) => Err(ErrorView::CreateExecFailed(message@)),
        ExecOutcome::StartFailed(message) => Err(ErrorView::CreateExecFailed(message@)),
        ExecOutcome::ReadFailed(message) => Err(ErrorView::ContainerReadFailed(message@)),
        ExecOutcome::InspectFailed(message) => Err(ErrorView::ContainerReadFailed(message@)),
        ExecOutcome::Finished { frames, exit_code } => Ok(
            CommandResultView {
                output: utf8_lossy(combined(frames@)),
                exit_code,
                exited: false,
            },
        ),
    }
}

/// The view of a result, whichever way it went.
pub open spec fn result_view(result: Result<CommandResult, Error>) -> Result<
    CommandResultView,
    ErrorView,
> {
    match result {
        Ok(done) => Ok(done@),
        Err(error) => Err(error@),
    }
}

/// What a one-shot command produced: its standard output and standard error
/// in one text, and its exit code. A one-shot command never ends the session.
pub fn standalone_result(outcome: ExecOutcome) -> (result: Result<CommandResult, Error>)
    ensures
        result_view(result) == standalone_result_of(outcome),
{
    match outcome {
        ExecOutcome::CreateFailed(message) => Err(Error::CreateExecFailed(message)),
        ExecOutcome::StartFailed(message) => Err(Error::CreateExecFailed(message)),
        ExecOutcome::ReadFailed(message) => Err(Error::ContainerReadFailed(message)),
        ExecOutcome::InspectFailed(message) => Err(Error::ContainerReadFailed(message)),
        ExecOutcome::Finished { frames, exit_code } => {
            let output = decode_lossy(&combine(&frames));
            Ok(CommandResult { output, exit_code, exited: false })
        },
    }
}

/// The container that a sandbox asks for.
#[derive(Debug)]
pub struct ContainerSpec {
    pub image: String,
    /// The argument vector of the process of the container.
    pub cmd: Vec<String>,
    pub tty: bool,
    pub open_stdin: bool,
    pub attach_stdin: bool,
    pub attach_stdout: bool,
    pub attach_stderr: bool,
}

/// A `ContainerSpec` with its texts as sequences of characters.
pub struct ContainerSpecView {
    pub image: Seq<char>,
    pub cmd: Seq<Seq<char>>,
    pub tty: bool,
    pub open_stdin: bool,
    pub attach_stdin: bool,
    pub attach_stdout: bool,
    pub attach_stderr: bool,
}

impl View for ContainerSpec {
    type V = ContainerSpecView;

    open spec fn view(&self) -> ContainerSpecView {
        ContainerSpecView {
            image: self.image@,
            cmd: self.cmd.deep_view(),
            tty: self.tty,
            open_stdin: self.open_stdin,
            attach_stdin: self.attach_stdin,
            attach_stdout: self.attach_stdout,
            attach_stderr: self.attach_stderr,
        }
    }
}

/// The state in which the container host found a container.
#[derive(Debug)]
pub struct ContainerState {
    /// Whether the container runs.
    pub running: bool,
    /// The exit code of the container, where it has one.
    pub exit_code: Option<i64>,
    /// What the host says went wrong, empty where it says nothing.
    pub error: String,
    /// The name of the state, empty where the host gives none.
    pub status: String,
}

/// A `ContainerState` with its texts as sequences of characters.
pub struct ContainerStateView {
    pub running: bool,
    pub exit_code: Option<i64>,
    pub error: Seq<char>,
    pub status: Seq<char>,
}

impl View for ContainerState {
    type V = ContainerStateView;

    open spec fn view(&self) -> ContainerStateView {
        ContainerStateView {
            running: self.running,
            exit_code: self.exit_code,
            error: self.error@,
            status: self.status@,
        }
    }
}

/// The logs as one text: what each frame wrote to standard output or
/// standard error, read frame by frame.
pub open spec fn logs_text_of(frames: Seq<Frame>) -> Seq<char>
    decreases frames.len(),
{
    if frames.len() == 0 {
        Seq::empty()
    } else {
        let last = frames.last();
        if last.stream == StreamKind::StdOut || last.stream == StreamKind::StdErr {
            logs_text_of(frames.drop_last()) + utf8_lossy(last.message@)
        } else {
            logs_text_of(frames.drop_last())
        }
    }
}

/// The logs as one text.
pub fn logs_text(frames: &Vec<Frame>) -> (text: String)
    ensures
        text@ == logs_text_of(frames@),
{
    let mut text = String::new();
    let mut i: usize = 0;
    assert(frames@.take(0) == Seq::<Frame>::empty());
    while i < frames.len()
        invariant
            i <= frames.len(),
            text@ == logs_text_of(frames@.take(i as int)),
        decreases frames.len() - i,
    {
        assert(frames@.take(i + 1).drop_last() == frames@.take(i as int));
        let frame = &frames[i];
        match frame.stream {
            StreamKind::StdOut | StreamKind::StdErr => {
                text.append(decode_lossy(&frame.message).as_str());
            },
            _ => {},
        }
        i += 1;
    }
    assert(frames@.take(frames.len() as int) == frames@);
    text
}

} // verus!

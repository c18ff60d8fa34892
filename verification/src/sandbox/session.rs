//! One command of a session: what is written to the shell, what is read
//! back, and what is tried when no prompt comes.

use vstd::prelude::*;
use crate::sandbox::io::ReadError;
use crate::sandbox::types::{CommandResult, Error, ErrorView};
use crate::text::chars_of;

verus! {

/// The time that one read of a session may take, in nanoseconds.
pub const SESSION_OVERALL_TIMEOUT: u64 = 2_000_000_000;

/// How long one read of a session waits for the next chunk, in nanoseconds.
pub const SESSION_IDLE_TIMEOUT: u64 = 200_000_000;

/// What was last written to the shell for a command.
#[derive(Debug, Clone, Copy, PartialEq, Eq, Structural)]
pub enum Attempt {
    /// The command itself.
    Command,
    /// A bare newline, which closes some open constructs.
    Newline,
    /// The end-of-input byte, which nudges the line editor and cannot end a
    /// shell that ignores it.
    EndOfInput,
}

/// A command of a session on its way: what to write to the shell now, and
/// after how many prompts the read that follows may end at once.
#[derive(Debug)]
pub struct Exchange {
    /// The place of the command in the trajectory.
    pub index: usize,
    pub attempt: Attempt,
    /// What to write to the shell, and to flush.
    pub input: String,
    /// The number of prompts at which the read ends without waiting for the
    /// stream to go idle.
    pub short_circuit_after: usize,
}

/// An `Exchange` with its input as a sequence of characters.
pub struct ExchangeView {
    pub index: usize,
    pub attempt: Attempt,
    pub input: Seq<char>,
    pub short_circuit_after: usize,
}

impl View for Exchange {
    type V = ExchangeView;

    open spec fn view(&self) -> ExchangeView {
        ExchangeView {
            index: self.index,
            attempt: self.attempt,
            input: self.input@,
            short_circuit_after: self.short_circuit_after,
        }
    }
}

/// What writing to the shell and reading from it came to.
#[derive(Debug)]
pub enum ShellOutcome {
    /// The input could not be written or flushed.
    WriteFailed(String),
    /// The input was written; holds what the read returned.
    Read(Result<String, ReadError>),
}

/// What follows an exchange with the shell.
#[derive(Debug)]
pub enum SessionStep {
    /// No prompt came: write the input of this exchange and read again.
    Retry(Exchange),
    /// The command is over.
    Finished(Result<CommandResult, Error>),
}

/// How many newlines `s` holds.
pub open spec fn newlines(s: Seq<char>) -> nat
    decreases s.len(),
{
    if s.len() == 0 {
        0
    } else {
        newlines(s.drop_last()) + if s.last() == '\n' {
            1nat
        } else {
            0nat
        }
    }
}

/// How many newlines `s` holds: a command of several lines makes the shell
/// print as many prompts before its last line runs.
pub fn count_newlines(s: &str) -> (n: usize)
    ensures
        n == newlines(s@),
{
    let chars = chars_of(s);
    let mut n: usize = 0;
    let mut i: usize = 0;
    assert(chars@.take(0) == Seq::<char>::empty());
    while i < chars.len()
        invariant
            i <= chars.len(),
            n <= i,
            n == newlines(chars@.take(i as int)),
        decreases chars.len() - i,
    {
        assert(chars@.take(i + 1).drop_last() == chars@.take(i as int));
        if chars[i] == '\n' {
            n += 1;
        }
        i += 1;
    }
    assert(chars@.take(chars.len() as int) == chars@);
    n
}

/// What is said where no prompt came in time.
pub open spec fn timeout_message() -> Seq<char> {
    "Marker not seen before timeout (possible incomplete input)"@
}

/// The error that a failed read of the shell becomes.
pub open spec fn read_failure(error: ReadError) -> ErrorView {
    match error {
        ReadError::OverallTimeout => ErrorView::TimeoutWaitingForMarker(timeout_message()),
        ReadError::StreamClosed => ErrorView::ContainerReadFailed(error.message_of()),
    }
}

/// The error that a failed read of the shell becomes: a timeout waiting for
/// the marker, or a failed read where the stream closed.
pub fn error_of_read(error: ReadError) -> (mapped: Error)
    ensures
        mapped@ == read_failure(error),
{
    match error {
        ReadError::OverallTimeout => Error::TimeoutWaitingForMarker(
            "Marker not seen before timeout (possible incomplete input)".to_string(),
        ),
        ReadError::StreamClosed => Error::ContainerReadFailed(error.message()),
    }
}

/// What is tried after `attempt` brought no prompt: first a newline, then
/// the end-of-input byte, then nothing more.
pub open spec fn next_attempt(attempt: Attempt) -> Option<(Attempt, Seq<char>)> {
    match attempt {
        Attempt::Command => Some((Attempt::Newline, "\n"@)),
        Attempt::Newline => Some((Attempt::EndOfInput, "\x04"@)),
        Attempt::EndOfInput => None,
    }
}

/// The exchange that follows one that timed out, where there is one: the
/// same command, the next nudge, and a read that ends at the first prompt.
pub fn escalate(exchange: &Exchange) -> (next: Option<Exchange>)
    ensures
        match next_attempt(exchange.attempt) {
            Some((attempt, input)) => next matches Some(e) && e@ == (ExchangeView {
                index: exchange.index,
                attempt,
                input,
                short_circuit_after: 1,
            }),
            None => next is None,
        },
{
    match exchange.attempt {
        Attempt::Command => Some(
            Exchange {
                index: exchange.index,
                attempt: Attempt::Newline,
                input: "\n".to_string(),
                short_circuit_after: 1,
            },
        ),
        Attempt::Newline => Some(
            Exchange {
                index: exchange.index,
                attempt: Attempt::EndOfInput,
                input: "\x04".to_string(),
                short_circuit_after: 1,
            },
        ),
        Attempt::EndOfInput => None,
    }
}

} // verus!

//! Shell configuration strings and the prompt markers.

use vstd::prelude::*;

verus! {

/// The unique part of the markers where no sandbox id is at hand.
pub const UNIQUE_MARKER: &'static str = "TR0N-F1GHTS-4-TH3-U23R2";

/// The marker that opens the primary prompt: `#PS1-<unique>#:`.
pub open spec fn ps1_marker_of(unique: Seq<char>) -> Seq<char> {
    "#PS1-"@ + unique + "#:"@
}

/// The marker that is the continuation prompt: `#PS2-<unique>#:`.
pub open spec fn ps2_marker_of(unique: Seq<char>) -> Seq<char> {
    "#PS2-"@ + unique + "#:"@
}

/// The marker that the overridden `exit` prints: `#EXIT-<unique>#:`.
pub open spec fn exit_marker_of(unique: Seq<char>) -> Seq<char> {
    "#EXIT-"@ + unique + "#:"@
}

/// The line that configures a freshly attached shell.
pub open spec fn conf_cmd_of(unique: Seq<char>) -> Seq<char> {
    "stty -echo; "@ + "bind 'set enable-bracketed-paste off'; "@ + "PS1='"@ + ps1_marker_of(unique)
        + "$?:'; "@ + "PS2='"@ + ps2_marker_of(unique) + "'; "@ + "readonly PS1; readonly PS2; "@
        + "exit() { echo '"@ + exit_marker_of(unique) + "'; return 0; }; export -f exit; "@
        + "set -o pipefail; "@ + "set -o ignoreeof; "@ + "\n"@
}

/// The marker that opens the primary prompt of the sandbox `unique`.
pub fn ps1_marker(unique: &str) -> (marker: String)
    ensures
        marker@ == ps1_marker_of(unique@),
{
    "#PS1-".to_string().concat(unique).concat("#:")
}

/// The continuation prompt of the sandbox `unique`.
pub fn ps2_marker(unique: &str) -> (marker: String)
    ensures
        marker@ == ps2_marker_of(unique@),
{
    "#PS2-".to_string().concat(unique).concat("#:")
}

/// The marker that `exit` prints in the sandbox `unique`.
pub fn exit_marker(unique: &str) -> (marker: String)
    ensures
        marker@ == exit_marker_of(unique@),
{
    "#EXIT-".to_string().concat(unique).concat("#:")
}

/// The line sent once to a freshly attached shell. It silences the echo of
/// the input, switches bracketed paste off, makes the primary prompt the
/// marker followed by the last exit code and a colon, makes the continuation
/// prompt its marker, freezes both prompts, replaces `exit` by a function that
/// prints the exit marker and returns 0, and sets `pipefail` and `ignoreeof`.
pub fn conf_cmd(unique: &str) -> (line: String)
    ensures
        line@ == conf_cmd_of(unique@),
{
    let ps1 = ps1_marker(unique);
    let ps2 = ps2_marker(unique);
    let exit = exit_marker(unique);
    let mut line = "stty -echo; ".to_string();
    line.append("bind 'set enable-bracketed-paste off'; ");
    line.append("PS1='");
    line.append(ps1.as_str());
    line.append("$?:'; ");
    line.append("PS2='");
    line.append(ps2.as_str());
    line.append("'; ");
    line.append("readonly PS1; readonly PS2; ");
    line.append("exit() { echo '");
    line.append(exit.as_str());
    line.append("'; return 0; }; export -f exit; ");
    line.append("set -o pipefail; ");
    line.append("set -o ignoreeof; ");
    line.append("\n");
    line
}

/// The argument vector that runs `cmd` in a shell of its own.
pub fn standalone_cmd(cmd: &str) -> (argv: Vec<String>)
    ensures
        argv@.len() == 3,
        argv@[0]@ == "/bin/bash"@,
        argv@[1]@ == "-c"@,
        argv@[2]@ == cmd@,
{
    let mut argv: Vec<String> = Vec::new();
    argv.push("/bin/bash".to_string());
    argv.push("-c".to_string());
    argv.push(cmd.to_string());
    argv
}

/// The argument vector that starts the interactive shell of a session.
pub fn init_cmd() -> (argv: Vec<String>)
    ensures
        argv@.len() == 2,
        argv@[0]@ == "/bin/bash"@,
        argv@[1]@ == "-i"@,
{
    let mut argv: Vec<String> = Vec::new();
    argv.push("/bin/bash".to_string());
    argv.push("-i".to_string());
    argv
}

} // verus!

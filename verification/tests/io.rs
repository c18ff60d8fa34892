use sos::sandbox::io::{
    clean_terminal_output, count_prompts, fold_carriage_returns, last_prompt, parse_exit_code,
    prompt_at, strip_markers_and_extract_exit_code, strip_session_output, without_prompts,
    NO_EXIT_CODE,
};
use sos::sandbox::shell::{exit_marker, ps1_marker, ps2_marker, UNIQUE_MARKER};

fn v(s: &str) -> Vec<char> {
    s.chars().collect()
}

fn ps1() -> String {
    ps1_marker(UNIQUE_MARKER)
}

fn prompt(code: &str) -> String {
    format!("{}{}:", ps1(), code)
}

#[test]
fn markers_hold_the_unique_part() {
    assert_eq!(ps1_marker(UNIQUE_MARKER), "#PS1-TR0N-F1GHTS-4-TH3-U23R2#:");
    assert_eq!(ps2_marker(UNIQUE_MARKER), "#PS2-TR0N-F1GHTS-4-TH3-U23R2#:");
    assert_eq!(exit_marker(UNIQUE_MARKER), "#EXIT-TR0N-F1GHTS-4-TH3-U23R2#:");
    assert_eq!(ps1_marker("42"), "#PS1-42#:");
}

#[test]
fn prompt_at_wants_marker_digits_and_colon() {
    let m = v("#M#:");
    assert_eq!(prompt_at(&v("#M#:0:"), &m, 0), Some(6));
    assert_eq!(prompt_at(&v("#M#:127:rest"), &m, 0), Some(8));
    assert_eq!(prompt_at(&v("xx#M#:1:"), &m, 2), Some(8));
    assert_eq!(prompt_at(&v("xx#M#:1:"), &m, 0), None);
    // No digit, no colon, text that ends in the digits.
    assert_eq!(prompt_at(&v("#M#::"), &m, 0), None);
    assert_eq!(prompt_at(&v("#M#:12"), &m, 0), None);
    assert_eq!(prompt_at(&v("#M#:12x"), &m, 0), None);
    assert_eq!(prompt_at(&v("#M#:-1:"), &m, 0), None);
    // Only the ten ASCII digits count.
    assert_eq!(prompt_at(&v("#M#:\u{0663}:"), &m, 0), None);
    assert_eq!(prompt_at(&v("#M#:1:"), &m, 100), None);
}

#[test]
fn prompts_are_counted_without_overlap() {
    let m = v("#M#:");
    assert_eq!(count_prompts(&v(""), &m), 0);
    assert_eq!(count_prompts(&v("abc"), &m), 0);
    assert_eq!(count_prompts(&v("#M#:0:"), &m), 1);
    assert_eq!(count_prompts(&v("a#M#:0:b#M#:1:c#M#:2:"), &m), 3);
    assert_eq!(count_prompts(&v("#M#:0:#M#:1:"), &m), 2);
    assert_eq!(count_prompts(&v("#M#:#M#:1:"), &m), 1);
    assert_eq!(count_prompts(&v("#M#:1"), &m), 0);
}

#[test]
fn last_prompt_is_the_last_one() {
    let m = v("#M#:");
    assert_eq!(last_prompt(&v("no prompt"), &m), None);
    assert_eq!(last_prompt(&v("a#M#:0:b#M#:17:c"), &m), Some((8, 15)));
    assert_eq!(last_prompt(&v("#M#:3:"), &m), Some((0, 6)));
}

#[test]
fn without_prompts_removes_each_prompt() {
    let m = v("#M#:");
    assert_eq!(without_prompts(&v("a#M#:0:b#M#:17:c"), &m), v("abc"));
    assert_eq!(without_prompts(&v("a#M#:b"), &m), v("a#M#:b"));
    assert_eq!(without_prompts(&v(""), &m), v(""));
}

#[test]
fn parse_exit_code_reads_digits() {
    assert_eq!(parse_exit_code(&v("x0y"), 1, 2), 0);
    assert_eq!(parse_exit_code(&v("127"), 0, 3), 127);
    assert_eq!(parse_exit_code(&v("007"), 0, 3), 7);
    assert_eq!(parse_exit_code(&v("9223372036854775807"), 0, 19), i64::MAX);
    assert_eq!(parse_exit_code(&v("9223372036854775808"), 0, 19), NO_EXIT_CODE);
    assert_eq!(parse_exit_code(&v("99999999999999999999999"), 0, 23), NO_EXIT_CODE);
    // Nothing, or anything but digits, is no exit code.
    assert_eq!(parse_exit_code(&v("12"), 1, 1), NO_EXIT_CODE);
    assert_eq!(parse_exit_code(&v("1x2"), 0, 3), NO_EXIT_CODE);
    assert_eq!(parse_exit_code(&v("-1"), 0, 2), NO_EXIT_CODE);
    assert_eq!(parse_exit_code(&v("+1"), 0, 2), NO_EXIT_CODE);
}

#[test]
fn output_before_the_prompt_is_the_result() {
    let raw = format!(
        "Hello, World!\nbash: cd: not-exists: No such file or directory\n{}",
        prompt("1")
    );
    assert_eq!(
        strip_markers_and_extract_exit_code(&raw),
        (
            "Hello, World!\nbash: cd: not-exists: No such file or directory".to_string(),
            1,
            false
        )
    );
}

#[test]
fn a_lone_prompt_is_an_empty_result() {
    // What the shell answers to a line that holds only a comment.
    assert_eq!(
        strip_markers_and_extract_exit_code(&prompt("0")),
        (String::new(), 0, false)
    );
}

#[test]
fn the_last_prompt_gives_the_exit_code() {
    let raw = format!("First line\n{}Second line\n{}Third line\n{}", prompt("0"), prompt("2"), prompt("3"));
    assert_eq!(
        strip_markers_and_extract_exit_code(&raw),
        ("First line\nSecond line\nThird line".to_string(), 3, false)
    );
}

#[test]
fn text_without_a_prompt_has_no_exit_code() {
    assert_eq!(
        strip_markers_and_extract_exit_code("just text  \n"),
        ("just text".to_string(), -1, false)
    );
    assert_eq!(strip_markers_and_extract_exit_code(""), (String::new(), -1, false));
}

#[test]
fn digits_beyond_i64_give_no_exit_code() {
    let raw = format!("out\n{}", prompt("99999999999999999999"));
    assert_eq!(strip_markers_and_extract_exit_code(&raw), ("out".to_string(), -1, false));
}

#[test]
fn continuation_prompts_are_removed() {
    let ps2 = ps2_marker(UNIQUE_MARKER);
    let raw = format!("{}{}Number: 1\nNumber: 2\nNumber: 3\n{}", ps2, ps2, prompt("0"));
    assert_eq!(
        strip_markers_and_extract_exit_code(&raw),
        ("Number: 1\nNumber: 2\nNumber: 3".to_string(), 0, false)
    );
}

#[test]
fn a_bare_marker_is_removed_too() {
    let raw = format!("a{}b\n{}", ps1(), prompt("0"));
    assert_eq!(strip_markers_and_extract_exit_code(&raw), ("ab".to_string(), 0, false));
}

#[test]
fn the_exit_marker_cuts_the_output_and_keeps_the_last_prompt() {
    let exit = exit_marker(UNIQUE_MARKER);
    let raw = format!("hi\n{}\nbye\n{}", exit, prompt("0"));
    assert_eq!(strip_markers_and_extract_exit_code(&raw), ("hi".to_string(), 0, true));
    // The code is that of the last prompt of the whole text.
    let raw = format!("{}hi\n{}\nbye\n{}", prompt("5"), exit, prompt("7"));
    assert_eq!(strip_markers_and_extract_exit_code(&raw), ("hi".to_string(), 7, true));
    // No prompt at all: the text is cut and no code is known.
    let raw = format!("hi\n{}\nbye", exit);
    assert_eq!(strip_markers_and_extract_exit_code(&raw), ("hi".to_string(), -1, true));
}

#[test]
fn each_sandbox_has_markers_of_its_own() {
    let raw = "out\n#PS1-abc#:4:";
    assert_eq!(strip_session_output(raw, "abc"), ("out".to_string(), 4, false));
    // The prompt of another sandbox is plain text.
    assert_eq!(
        strip_session_output(raw, "abd"),
        ("out\n#PS1-abc#:4:".to_string(), -1, false)
    );
    let raw = "a#PS2-abc#:b#EXIT-abc#:c#PS1-abc#:9:";
    assert_eq!(strip_session_output(raw, "abc"), ("ab".to_string(), 9, true));
}

#[test]
fn carriage_returns_fold_each_line() {
    assert_eq!(fold_carriage_returns("abc\rdef"), "def\n");
    assert_eq!(fold_carriage_returns("10%\r50%\r100%\nnext"), "100%\nnext\n");
    assert_eq!(fold_carriage_returns("plain\nlines\n"), "plain\nlines\n");
    // A carriage return before the line feed is part of the line ending.
    assert_eq!(fold_carriage_returns("one\r\ntwo\r\n"), "one\ntwo\n");
    assert_eq!(fold_carriage_returns("x\ry\r\nz"), "y\nz\n");
    // A bare carriage return at the end of the text leaves nothing of the line.
    assert_eq!(fold_carriage_returns("abc\r"), "\n");
    assert_eq!(fold_carriage_returns(""), "");
    assert_eq!(fold_carriage_returns("\n"), "\n");
    assert_eq!(fold_carriage_returns("\r\n"), "\n");
}

#[test]
fn carriage_returns_fold_as_in_std() {
    // The same lines and the same last segments as `lines` and `rsplit` give.
    for text in ["a\rb\nc\r\nd\r", "\r\r\n\n\r", "x", "x\n\ny", "ab\rc\r\n\rd\n"] {
        let mut expected = String::new();
        for line in text.lines() {
            expected.push_str(line.rsplit('\r').next().unwrap());
            expected.push('\n');
        }
        assert_eq!(fold_carriage_returns(text), expected, "{:?}", text);
    }
}

#[test]
fn clean_terminal_output_strips_escapes_and_trims() {
    assert_eq!(clean_terminal_output("\u{1b}[32mfoo\u{1b}[m bar"), "foo bar");
    assert_eq!(clean_terminal_output("line one\nline two\n\n  "), "line one\nline two");
    assert_eq!(clean_terminal_output(""), "");
    assert_eq!(clean_terminal_output("\u{1b}[1mbold\u{1b}[0m\n"), "bold");
}

#[test]
fn the_escape_stripper_keeps_printed_characters_and_line_feeds_only() {
    // Carriage returns and tabs are control characters to it: they are gone
    // before the lines are folded, so that nothing is left to fold.
    assert_eq!(clean_terminal_output("abc\rdef"), "abcdef");
    assert_eq!(clean_terminal_output("a\tb\r\nc"), "ab\nc");
}

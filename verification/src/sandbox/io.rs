//! Terminal output: prompts, markers and exit codes.
//!
//! The shell prints its primary prompt as the PS1 marker, the exit code of
//! the command before it in decimal digits, and a colon. Everything the
//! session learns of a command it reads out of the text between such prompts.

use vstd::prelude::*;
use crate::text::{
    chars_of, digits_value, find, find_in, is_digit, matches_at, occurs_at, prefix, remove_all,
    string_of, trim_end, trimmed_len, without,
};
use crate::sandbox::shell::{
    exit_marker, exit_marker_of, ps1_marker, ps1_marker_of, ps2_marker, ps2_marker_of,
    UNIQUE_MARKER,
};

verus! {

/// The exit code reported where the text holds no prompt, or one whose digits
/// do not fit.
pub const NO_EXIT_CODE: i64 = -1;

/// The index behind the run of digits that starts at `i`.
pub open spec fn digits_end(s: Seq<char>, i: int) -> int
    decreases s.len() - i,
{
    if 0 <= i < s.len() && is_digit(s[i]) {
        digits_end(s, i + 1)
    } else {
        i
    }
}

/// The index behind the prompt that starts at `i`, where one starts there:
/// the marker, at least one digit, a colon.
pub open spec fn prompt_end(s: Seq<char>, marker: Seq<char>, i: int) -> Option<int> {
    let d = i + marker.len();
    let e = digits_end(s, d);
    if occurs_at(s, marker, i) && d < e && e < s.len() && s[e] == ':' {
        Some(e + 1)
    } else {
        None
    }
}

/// The prompts that a scan from index `i` meets, left to right, each as the
/// index where it starts and the index behind it. The scan resumes behind a
/// prompt it found, so no two of them overlap.
pub open spec fn prompts_from(s: Seq<char>, marker: Seq<char>, i: int) -> Seq<(int, int)>
    decreases s.len() - i,
{
    if i < 0 || i >= s.len() {
        Seq::empty()
    } else {
        match prompt_end(s, marker, i) {
            Some(e) => seq![(i, e)] + prompts_from(s, marker, e),
            None => prompts_from(s, marker, i + 1),
        }
    }
}

/// The prompts in `s`.
pub open spec fn prompts(s: Seq<char>, marker: Seq<char>) -> Seq<(int, int)> {
    prompts_from(s, marker, 0)
}

/// `s` without the prompts that a scan from index `i` meets.
pub open spec fn remove_prompts_from(s: Seq<char>, marker: Seq<char>, i: int) -> Seq<char>
    decreases s.len() - i,
{
    if i < 0 || i >= s.len() {
        Seq::empty()
    } else {
        match prompt_end(s, marker, i) {
            Some(e) => remove_prompts_from(s, marker, e),
            None => seq![s[i]] + remove_prompts_from(s, marker, i + 1),
        }
    }
}

/// `s` without its prompts.
pub open spec fn remove_prompts(s: Seq<char>, marker: Seq<char>) -> Seq<char> {
    remove_prompts_from(s, marker, 0)
}

/// Whether `d` is made of digits only.
pub open spec fn all_digits(d: Seq<char>) -> bool {
    forall|k: int| 0 <= k < d.len() ==> is_digit(#[trigger] d[k])
}

/// The exit code that a text reports: the value of its digits, or
/// `NO_EXIT_CODE` where it is empty, holds anything but digits, or has a
/// value beyond `i64`.
pub open spec fn code_of_digits(d: Seq<char>) -> int {
    if d.len() > 0 && all_digits(d) && digits_value(d) <= i64::MAX {
        digits_value(d) as int
    } else {
        NO_EXIT_CODE as int
    }
}

/// The exit code that the last prompt in `s` reports, `NO_EXIT_CODE` where
/// `s` holds no prompt.
pub open spec fn last_exit_code(s: Seq<char>, marker: Seq<char>) -> int {
    let found = prompts(s, marker);
    if found.len() == 0 {
        NO_EXIT_CODE as int
    } else {
        code_of_digits(s.subrange(found.last().0 + marker.len(), found.last().1 - 1))
    }
}

/// The text of the last prompt in `s`, empty where `s` holds none.
pub open spec fn last_prompt_text(s: Seq<char>, marker: Seq<char>) -> Seq<char> {
    let found = prompts(s, marker);
    if found.len() == 0 {
        Seq::empty()
    } else {
        s.subrange(found.last().0, found.last().1)
    }
}

/// What is left of the text where the exit marker stands in it: the text
/// before the first exit marker, then the last prompt of the whole text, so
/// that the exit code of the prompt survives the cut.
pub open spec fn cut_at_exit(s: Seq<char>, ps1: Seq<char>, exit: Seq<char>) -> Seq<char> {
    match find(s, exit) {
        Some(at) => s.subrange(0, at) + last_prompt_text(s, ps1),
        None => s,
    }
}

/// What a session command produced, read out of the text that the shell sent
/// until its next prompt: the output, the exit code, and whether the command
/// ended the session.
///
/// The continuation prompts are removed. Where the exit marker stands in the
/// text, the text is cut there and the last prompt is put behind the cut.
/// The exit code is that of the last prompt. Then the prompts are removed,
/// then what is left of bare PS1 markers, then the white space at the end.
pub open spec fn stripped(s: Seq<char>, ps1: Seq<char>, ps2: Seq<char>, exit: Seq<char>) -> (
    Seq<char>,
    int,
    bool,
) {
    let shown = remove_all(s, ps2);
    let kept = cut_at_exit(shown, ps1, exit);
    (
        trim_end(remove_all(remove_prompts(kept, ps1), ps1)),
        last_exit_code(kept, ps1),
        find(shown, exit).is_some(),
    )
}

/// `stripped` with the three markers of the sandbox `unique`.
pub open spec fn stripped_for(s: Seq<char>, unique: Seq<char>) -> (Seq<char>, int, bool) {
    stripped(s, ps1_marker_of(unique), ps2_marker_of(unique), exit_marker_of(unique))
}

/// Between the index where a run of digits starts and the index behind it
/// stand digits only.
pub(crate) proof fn lemma_digits_end(s: Seq<char>, i: int)
    requires
        0 <= i <= s.len(),
    ensures
        i <= digits_end(s, i) <= s.len(),
        forall|k: int| i <= k < digits_end(s, i) ==> is_digit(#[trigger] s[k]),
    decreases s.len() - i,
{
    if i < s.len() && is_digit(s[i]) {
        lemma_digits_end(s, i + 1);
    }
}

/// What stands in a prompt between the marker and the colon is one digit or
/// more and nothing else, so that the prompt reports the value of its digits
/// as the exit code, and `NO_EXIT_CODE` only where that value is beyond
/// `i64`.
pub proof fn lemma_prompt_code(s: Seq<char>, marker: Seq<char>, i: int)
    requires
        prompt_end(s, marker, i) is Some,
    ensures
        ({
            let digits = s.subrange(i + marker.len(), prompt_end(s, marker, i)->0 - 1);
            &&& digits.len() > 0
            &&& all_digits(digits)
            &&& code_of_digits(digits) == if digits_value(digits) <= i64::MAX {
                digits_value(digits) as int
            } else {
                NO_EXIT_CODE as int
            }
        }),
{
    lemma_digits_end(s, i + marker.len());
}

/// The index behind the run of digits that starts at `i`.
fn scan_digits(s: &Vec<char>, i: usize) -> (e: usize)
    requires
        i <= s.len(),
    ensures
        e == digits_end(s@, i as int),
        i <= e <= s.len(),
{
    let mut e: usize = i;
    while e < s.len() && '0' <= s[e] && s[e] <= '9'
        invariant
            i <= e <= s.len(),
            digits_end(s@, i as int) == digits_end(s@, e as int),
        decreases s.len() - e,
    {
        e += 1;
    }
    e
}

/// The index behind the prompt that starts at `i`, where one starts there.
pub fn prompt_at(s: &Vec<char>, marker: &Vec<char>, i: usize) -> (end: Option<usize>)
    ensures
        match end {
            Some(e) => prompt_end(s@, marker@, i as int) == Some(e as int),
            None => prompt_end(s@, marker@, i as int).is_none(),
        },
{
    if !matches_at(s, marker, i) {
        return None;
    }
    let n: usize = s.len();
    assert(i + marker@.len() <= n);
    let d: usize = i + marker.len();
    let e: usize = scan_digits(s, d);
    if d < e && e < s.len() && s[e] == ':' {
        Some(e + 1)
    } else {
        None
    }
}

/// How many prompts `s` holds.
pub fn count_prompts(s: &Vec<char>, marker: &Vec<char>) -> (n: usize)
    ensures
        n == prompts(s@, marker@).len(),
{
    let mut n: usize = 0;
    let mut i: usize = 0;
    let ghost mut seen: Seq<(int, int)> = Seq::empty();
    while i < s.len()
        invariant
            i <= s.len(),
            n <= i,
            n == seen.len(),
            seen + prompts_from(s@, marker@, i as int) == prompts(s@, marker@),
        decreases s.len() - i,
    {
        match prompt_at(s, marker, i) {
            Some(e) => {
                proof {
                    assert((seen.push((i as int, e as int))) + prompts_from(s@, marker@, e as int)
                        == seen + (seq![(i as int, e as int)] + prompts_from(
                        s@,
                        marker@,
                        e as int,
                    )));
                    seen = seen.push((i as int, e as int));
                }
                n += 1;
                i = e;
            },
            None => {
                i += 1;
            },
        }
    }
    assert(seen + Seq::<(int, int)>::empty() == seen);
    n
}

/// The last prompt in `s`: the index where it starts and the index behind it.
pub fn last_prompt(s: &Vec<char>, marker: &Vec<char>) -> (last: Option<(usize, usize)>)
    ensures
        match last {
            Some((a, b)) => prompts(s@, marker@).len() > 0 && prompts(s@, marker@).last() == (
                a as int,
                b as int,
            ) && prompt_end(s@, marker@, a as int) == Some(b as int),
            None => prompts(s@, marker@).len() == 0,
        },
{
    let mut last: Option<(usize, usize)> = None;
    let mut i: usize = 0;
    let ghost mut seen: Seq<(int, int)> = Seq::empty();
    while i < s.len()
        invariant
            i <= s.len(),
            seen + prompts_from(s@, marker@, i as int) == prompts(s@, marker@),
            match last {
                Some((a, b)) => seen.len() > 0 && seen.last() == (a as int, b as int)
                    && prompt_end(s@, marker@, a as int) == Some(b as int),
                None => seen.len() == 0,
            },
        decreases s.len() - i,
    {
        match prompt_at(s, marker, i) {
            Some(e) => {
                proof {
                    assert((seen.push((i as int, e as int))) + prompts_from(s@, marker@, e as int)
                        == seen + (seq![(i as int, e as int)] + prompts_from(
                        s@,
                        marker@,
                        e as int,
                    )));
                    seen = seen.push((i as int, e as int));
                }
                last = Some((i, e));
                i = e;
            },
            None => {
                i += 1;
            },
        }
    }
    assert(seen + Seq::<(int, int)>::empty() == seen);
    last
}

/// `s` without its prompts.
pub fn without_prompts(s: &Vec<char>, marker: &Vec<char>) -> (out: Vec<char>)
    ensures
        out@ == remove_prompts(s@, marker@),
{
    let mut out: Vec<char> = Vec::new();
    let mut i: usize = 0;
    while i < s.len()
        invariant
            i <= s.len(),
            out@ + remove_prompts_from(s@, marker@, i as int) == remove_prompts(s@, marker@),
        decreases s.len() - i,
    {
        match prompt_at(s, marker, i) {
            Some(e) => {
                i = e;
            },
            None => {
                let ghost before = out@;
                out.push(s[i]);
                assert(out@ + remove_prompts_from(s@, marker@, i + 1) == before + (seq![
                    s@[i as int],
                ] + remove_prompts_from(s@, marker@, i + 1)));
                i += 1;
            },
        }
    }
    assert(out@ + Seq::<char>::empty() == out@);
    out
}

/// The exit code that the text `s[from..to]` reports.
pub fn parse_exit_code(s: &Vec<char>, from: usize, to: usize) -> (code: i64)
    requires
        from <= to <= s.len(),
    ensures
        code == code_of_digits(s@.subrange(from as int, to as int)),
{
    if from == to {
        return NO_EXIT_CODE;
    }
    let mut value: i64 = 0;
    let mut k: usize = from;
    let ghost digits = s@.subrange(from as int, to as int);
    while k < to
        invariant
            from <= k <= to <= s.len(),
            digits == s@.subrange(from as int, to as int),
            all_digits(digits.take(k - from)),
            0 <= value,
            value == digits_value(digits.take(k - from)),
        decreases to - k,
    {
        if !('0' <= s[k] && s[k] <= '9') {
            assert(digits[k - from] == s@[k as int]);
            return NO_EXIT_CODE;
        }
        let digit: i64 = (s[k] as u32 - '0' as u32) as i64;
        proof {
            assert(digits.take(k - from + 1).drop_last() == digits.take(k - from));
            assert(digits.take(k - from + 1).last() == s@[k as int]);
            lemma_digits_value_grows(digits, k - from + 1);
        }
        if value > (i64::MAX - digit) / 10 {
            return NO_EXIT_CODE;
        }
        value = value * 10 + digit;
        k += 1;
    }
    assert(digits.take(to - from) == digits);
    value
}

/// A longer run of digits writes a number that is no smaller.
proof fn lemma_digits_value_grows(d: Seq<char>, n: int)
    requires
        0 <= n <= d.len(),
    ensures
        digits_value(d.take(n)) <= digits_value(d),
    decreases d.len() - n,
{
    if n < d.len() {
        assert(d.take(n + 1).drop_last() == d.take(n));
        lemma_digits_value_grows(d, n + 1);
    } else {
        assert(d.take(n) == d);
    }
}

/// The characters `s[from..to]`, put behind `out`.
fn push_range(out: &mut Vec<char>, s: &Vec<char>, from: usize, to: usize)
    requires
        from <= to <= s.len(),
    ensures
        final(out)@ == old(out)@ + s@.subrange(from as int, to as int),
{
    let mut k: usize = from;
    assert(s@.subrange(from as int, from as int) == Seq::<char>::empty());
    assert(out@ + Seq::<char>::empty() == out@);
    while k < to
        invariant
            from <= k <= to <= s.len(),
            out@ == old(out)@ + s@.subrange(from as int, k as int),
        decreases to - k,
    {
        let ghost before = out@;
        out.push(s[k]);
        assert(s@.subrange(from as int, k + 1) == s@.subrange(from as int, k as int).push(
            s@[k as int],
        ));
        assert(out@ == old(out)@ + s@.subrange(from as int, k + 1));
        k += 1;
    }
}

/// What a session command produced, read out of `output` with the markers
/// given: the output, the exit code, and whether the exit marker was seen.
pub fn strip_markers(
    output: &Vec<char>,
    ps1: &Vec<char>,
    ps2: &Vec<char>,
    exit: &Vec<char>,
) -> (result: (Vec<char>, i64, bool))
    ensures
        (result.0@, result.1 as int, result.2) == stripped(output@, ps1@, ps2@, exit@),
{
    let shown = without(output, ps2);
    let cut = find_in(&shown, exit, 0);
    let mut kept: Vec<char>;
    let exited: bool;
    match cut {
        Some(at) => {
            kept = prefix(&shown, at);
            assert(shown@.take(at as int) == shown@.subrange(0, at as int));
            match last_prompt(&shown, ps1) {
                Some((a, b)) => {
                    push_range(&mut kept, &shown, a, b);
                },
                None => {
                    assert(kept@ + Seq::<char>::empty() == kept@);
                },
            }
            exited = true;
        },
        None => {
            kept = shown;
            exited = false;
        },
    }
    let code: i64 = match last_prompt(&kept, ps1) {
        Some((a, b)) => {
            parse_exit_code(&kept, a + ps1.len(), b - 1)
        },
        None => NO_EXIT_CODE,
    };
    let bare = without(&without_prompts(&kept, ps1), ps1);
    let n = trimmed_len(&bare);
    (prefix(&bare, n), code, exited)
}

/// What a session command of the sandbox `unique` produced, read out of the
/// text that its shell sent until the next prompt.
pub fn strip_session_output(output: &str, unique: &str) -> (result: (String, i64, bool))
    ensures
        (result.0@, result.1 as int, result.2) == stripped_for(output@, unique@),
{
    let ps1 = chars_of(ps1_marker(unique).as_str());
    let ps2 = chars_of(ps2_marker(unique).as_str());
    let exit = chars_of(exit_marker(unique).as_str());
    let (text, code, exited) = strip_markers(&chars_of(output), &ps1, &ps2, &exit);
    (string_of(&text), code, exited)
}

/// `strip_session_output` with the markers made of `UNIQUE_MARKER`.
pub fn strip_markers_and_extract_exit_code(output: &str) -> (result: (String, i64, bool))
    ensures
        (result.0@, result.1 as int, result.2) == stripped_for(output@, UNIQUE_MARKER@),
{
    strip_session_output(output, UNIQUE_MARKER)
}

/// What `strip_ansi_escapes::strip_str` leaves of a text.
pub uninterp spec fn ansi_stripped(text: Seq<char>) -> Seq<char>;

/// What `String::from_utf8_lossy` reads out of bytes.
pub uninterp spec fn utf8_lossy(bytes: Seq<u8>) -> Seq<char>;

/// Calls `strip_ansi_escapes::strip_str`, which feeds the text to a terminal
/// parser and keeps what the parser prints and the line feeds. Nothing is
/// claimed of the result but that it depends on the text alone.
#[verifier::external_body]
pub(crate) fn strip_ansi(text: &str) -> (plain: String)
    ensures
        plain@ == ansi_stripped(text@),
{
    strip_ansi_escapes::strip_str(text)
}

/// Calls `String::from_utf8_lossy`, which reads the bytes as UTF-8 and puts
/// U+FFFD where they are not. Nothing is claimed of the result but that it
/// depends on the bytes alone.
#[verifier::external_body]
pub(crate) fn decode_lossy(bytes: &Vec<u8>) -> (text: String)
    ensures
        text@ == utf8_lossy(bytes@),
{
    String::from_utf8_lossy(bytes).into_owned()
}

/// The index of the line feed that ends the line in which `i` stands, or the
/// length of `s` where no line feed follows.
pub open spec fn line_end(s: Seq<char>, i: int) -> int
    decreases s.len() - i,
{
    if 0 <= i < s.len() && s[i] != '\n' {
        line_end(s, i + 1)
    } else {
        i
    }
}

/// What stands in a line behind its last carriage return; the whole line
/// where it holds none.
pub open spec fn after_last_cr(line: Seq<char>) -> Seq<char>
    decreases line.len(),
{
    if line.len() == 0 {
        line
    } else if line.last() == '\r' {
        Seq::empty()
    } else {
        after_last_cr(line.drop_last()).push(line.last())
    }
}

/// The index behind the content of the line `s[i..e]` that the line feed at
/// `e` ends: a carriage return just before the line feed belongs to the line
/// ending, not to the line.
pub open spec fn content_end(s: Seq<char>, i: int, e: int) -> int {
    if i < e < s.len() && s[e - 1] == '\r' {
        e - 1
    } else {
        e
    }
}

/// The lines of `s` from index `i` on, each cut down to what stands behind
/// its last carriage return and ended by a line feed.
pub open spec fn folded_from(s: Seq<char>, i: int) -> Seq<char>
    decreases s.len() + 1 - i,
    via folded_from_decreases
{
    if i < 0 || i >= s.len() {
        Seq::empty()
    } else {
        let e = line_end(s, i);
        after_last_cr(s.subrange(i, content_end(s, i, e))) + seq!['\n'] + folded_from(s, e + 1)
    }
}

#[via_fn]
proof fn folded_from_decreases(s: Seq<char>, i: int) {
    if 0 <= i < s.len() {
        lemma_line_end(s, i);
    }
}

/// The lines of `s`, each cut down to what stands behind its last carriage
/// return and ended by a line feed. A line ends at a line feed, or at a
/// carriage return and a line feed; the last line may end with the text.
pub open spec fn folded(s: Seq<char>) -> Seq<char> {
    folded_from(s, 0)
}

/// What a terminal shows of a text: no escape sequences, each line cut down
/// to what the last carriage return left of it, no white space at the end.
pub open spec fn cleaned(s: Seq<char>) -> Seq<char> {
    trim_end(folded(ansi_stripped(s)))
}

/// A line ends at or behind any index in it, and no line feed stands before
/// its end.
proof fn lemma_line_end(s: Seq<char>, i: int)
    requires
        0 <= i <= s.len(),
    ensures
        i <= line_end(s, i) <= s.len(),
        forall|k: int| i <= k < line_end(s, i) ==> #[trigger] s[k] != '\n',
        line_end(s, i) < s.len() ==> s[line_end(s, i)] == '\n',
    decreases s.len() - i,
{
    if i < s.len() && s[i] != '\n' {
        lemma_line_end(s, i + 1);
    }
}

/// Where no carriage return stands at or behind index `j` of a line, and one
/// stands just before `j` or `j` is the start, what is behind the last
/// carriage return is the line from `j` on.
proof fn lemma_after_last_cr(line: Seq<char>, j: int)
    requires
        0 <= j <= line.len(),
        forall|k: int| j <= k < line.len() ==> #[trigger] line[k] != '\r',
        j == 0 || line[j - 1] == '\r',
    ensures
        after_last_cr(line) == line.subrange(j, line.len() as int),
    decreases line.len(),
{
    if line.len() == j {
    } else {
        let shorter = line.drop_last();
        lemma_after_last_cr(shorter, j);
        assert(shorter.subrange(j, shorter.len() as int).push(line.last()) == line.subrange(
            j,
            line.len() as int,
        ));
    }
}

/// No carriage return is left behind the last carriage return.
proof fn lemma_after_last_cr_has_none(line: Seq<char>)
    ensures
        forall|k: int| 0 <= k < after_last_cr(line).len() ==> #[trigger] after_last_cr(line)[k]
            != '\r',
    decreases line.len(),
{
    if line.len() > 0 && line.last() != '\r' {
        lemma_after_last_cr_has_none(line.drop_last());
        let shorter = after_last_cr(line.drop_last());
        assert forall|k: int| 0 <= k < after_last_cr(line).len() implies #[trigger] after_last_cr(
            line,
        )[k] != '\r' by {
            if k < shorter.len() {
                assert(after_last_cr(line)[k] == shorter[k]);
            }
        }
    }
}

/// Folding leaves no carriage return: what a carriage return had overwritten
/// on the terminal is gone, and so is the carriage return.
pub proof fn lemma_folded_has_no_cr(s: Seq<char>, i: int)
    requires
        0 <= i,
    ensures
        forall|k: int| 0 <= k < folded_from(s, i).len() ==> #[trigger] folded_from(s, i)[k] != '\r',
    decreases s.len() + 1 - i,
{
    if i < s.len() {
        let e = line_end(s, i);
        lemma_line_end(s, i);
        let head = after_last_cr(s.subrange(i, content_end(s, i, e)));
        lemma_after_last_cr_has_none(s.subrange(i, content_end(s, i, e)));
        lemma_folded_has_no_cr(s, e + 1);
        let rest = folded_from(s, e + 1);
        let all = folded_from(s, i);
        assert(all == head + seq!['\n'] + rest);
        assert forall|k: int| 0 <= k < all.len() implies #[trigger] all[k] != '\r' by {
            if k < head.len() {
                assert(all[k] == head[k]);
            } else if k == head.len() {
                assert(all[k] == '\n');
            } else {
                assert(all[k] == rest[k - head.len() - 1]);
            }
        }
    }
}

/// The lines of `s`, each cut down to what stands behind its last carriage
/// return and ended by a line feed.
pub fn fold_lines(s: &Vec<char>) -> (out: Vec<char>)
    ensures
        out@ == folded(s@),
{
    let mut out: Vec<char> = Vec::new();
    let mut i: usize = 0;
    while i < s.len()
        invariant
            i <= s.len(),
            out@ + folded_from(s@, i as int) == folded(s@),
        decreases s.len() - i,
    {
        let mut e: usize = i;
        while e < s.len() && s[e] != '\n'
            invariant
                i <= e <= s.len(),
                line_end(s@, i as int) == line_end(s@, e as int),
            decreases s.len() - e,
        {
            e += 1;
        }
        let stop: usize = if i < e && e < s.len() && s[e - 1] == '\r' {
            e - 1
        } else {
            e
        };
        let mut j: usize = stop;
        while j > i && s[j - 1] != '\r'
            invariant
                i <= j <= stop <= s.len(),
                forall|k: int| j <= k < stop ==> #[trigger] s@[k] != '\r',
            decreases j,
        {
            j -= 1;
        }
        let ghost before = out@;
        proof {
            let line = s@.subrange(i as int, stop as int);
            assert forall|k: int| j - i <= k < line.len() implies #[trigger] line[k] != '\r' by {
                assert(line[k] == s@[i + k]);
            }
            lemma_after_last_cr(line, j - i);
            assert(line.subrange(j - i, line.len() as int) == s@.subrange(j as int, stop as int));
        }
        push_range(&mut out, s, j, stop);
        out.push('\n');
        proof {
            let rest = folded_from(s@, e + 1);
            let kept = s@.subrange(j as int, stop as int);
            assert(out@ + rest == before + (kept + seq!['\n'] + rest));
        }
        if e == s.len() {
            i = e;
        } else {
            i = e + 1;
        }
    }
    assert(out@ + Seq::<char>::empty() == out@);
    out
}

/// The lines of `text` after the carriage returns in them took effect: each
/// line is what stands behind its last carriage return, and each ends with a
/// line feed.
pub fn fold_carriage_returns(text: &str) -> (out: String)
    ensures
        out@ == folded(text@),
        forall|k: int| 0 <= k < out@.len() ==> #[trigger] out@[k] != '\r',
{
    proof {
        lemma_folded_has_no_cr(text@, 0);
    }
    string_of(&fold_lines(&chars_of(text)))
}

/// What a terminal shows of `output`: the escape sequences are stripped, the
/// carriage returns take effect line by line, and the white space at the end
/// is dropped.
pub fn clean_terminal_output(output: &str) -> (out: String)
    ensures
        out@ == cleaned(output@),
{
    let plain = strip_ansi(output);
    let lines = fold_lines(&chars_of(plain.as_str()));
    let n = trimmed_len(&lines);
    string_of(&prefix(&lines, n))
}

/// Why reading from the shell gave up.
#[derive(Debug, Clone, Copy, PartialEq, Eq, Structural)]
pub enum ReadError {
    /// The time for the whole read was up.
    OverallTimeout,
    /// The stream ended.
    StreamClosed,
}

impl ReadError {
    /// The sentence that tells a person what went wrong.
    pub open spec fn message_of(self) -> Seq<char> {
        match self {
            ReadError::OverallTimeout => "Overall timeout reached while waiting for output"@,
            ReadError::StreamClosed => "Stream closed unexpectedly"@,
        }
    }

    /// The sentence that tells a person what went wrong.
    pub fn message(&self) -> (text: String)
        ensures
            text@ == self.message_of(),
    {
        match self {
            ReadError::OverallTimeout => "Overall timeout reached while waiting for output"
                .to_string(),
            ReadError::StreamClosed => "Stream closed unexpectedly".to_string(),
        }
    }
}

/// How long a read pauses after an idle wait that showed no prompt yet, in
/// nanoseconds.
pub const POLL_PAUSE: u64 = 10_000_000;

/// What the stream of the shell brought to a reader.
#[derive(Debug)]
pub enum StreamEvent {
    /// The read begins; nothing was waited for yet.
    Started,
    /// A chunk of bytes arrived.
    Chunk(Vec<u8>),
    /// The stream ended.
    Closed,
    /// Nothing arrived within the idle timeout.
    Idle,
    /// The pause after an idle wait is over.
    Resumed,
}

/// What a reader does next.
#[derive(Debug)]
pub enum ReadStep {
    /// Wait for the next chunk, no longer than the idle timeout.
    Wait,
    /// Pause for `POLL_PAUSE`, then report `StreamEvent::Resumed`.
    Pause,
    /// The read is over; holds the text read.
    Done(String),
    /// The read gave up.
    Failed(ReadError),
}

/// A `ReadStep` with its text as a sequence of characters.
pub enum ReadStepView {
    Wait,
    Pause,
    Done(Seq<char>),
    Failed(ReadError),
}

impl View for ReadStep {
    type V = ReadStepView;

    open spec fn view(&self) -> ReadStepView {
        match *self {
            ReadStep::Wait => ReadStepView::Wait,
            ReadStep::Pause => ReadStepView::Pause,
            ReadStep::Done(text) => ReadStepView::Done(text@),
            ReadStep::Failed(error) => ReadStepView::Failed(error),
        }
    }
}

/// A read from the shell in progress: the text so far and how many prompts
/// were counted in it.
pub struct StreamReader {
    text: Vec<char>,
    seen: usize,
    marker: Vec<char>,
    short_circuit_after: usize,
    overall_timeout: u64,
}

/// What a `StreamReader` holds.
pub struct StreamReaderView {
    /// The text read so far, escape sequences stripped chunk by chunk.
    pub text: Seq<char>,
    /// The largest number of prompts counted in the text so far.
    pub seen: nat,
    /// The PS1 marker that opens a prompt.
    pub marker: Seq<char>,
    /// The number of prompts at which the read ends at once.
    pub short_circuit_after: nat,
    /// The time that the whole read may take, in nanoseconds.
    pub overall_timeout: u64,
}

impl View for StreamReader {
    type V = StreamReaderView;

    closed spec fn view(&self) -> StreamReaderView {
        StreamReaderView {
            text: self.text@,
            seen: self.seen as nat,
            marker: self.marker@,
            short_circuit_after: self.short_circuit_after as nat,
            overall_timeout: self.overall_timeout,
        }
    }
}

/// What a chunk of bytes adds to the text: the bytes read as UTF-8, lossily,
/// and stripped of escape sequences.
pub open spec fn chunk_text(bytes: Seq<u8>) -> Seq<char> {
    ansi_stripped(utf8_lossy(bytes))
}

impl StreamReaderView {
    /// What the reader does before it waits again: it gives up where the time
    /// for the whole read is up.
    pub open spec fn wait_or_give_up(self, elapsed: u64) -> ReadStepView {
        if elapsed > self.overall_timeout {
            ReadStepView::Failed(ReadError::OverallTimeout)
        } else {
            ReadStepView::Wait
        }
    }

    /// The reader after an event, and what it does next.
    ///
    /// A chunk is added to the text. Where it raises the number of prompts in
    /// the text to `short_circuit_after` or beyond, the read is over at once,
    /// whatever the clock says. An idle wait ends the read where the text
    /// holds a prompt, and leads to a pause where it holds none. A closed
    /// stream fails the read.
    pub open spec fn after(self, event: StreamEvent, elapsed: u64) -> (StreamReaderView, ReadStepView) {
        match event {
            StreamEvent::Started => (self, self.wait_or_give_up(elapsed)),
            StreamEvent::Resumed => (self, self.wait_or_give_up(elapsed)),
            StreamEvent::Closed => (self, ReadStepView::Failed(ReadError::StreamClosed)),
            StreamEvent::Idle => if prompts(self.text, self.marker).len() > 0 {
                (self, ReadStepView::Done(self.text))
            } else {
                (self, ReadStepView::Pause)
            },
            StreamEvent::Chunk(bytes) => {
                let text = self.text + chunk_text(bytes@);
                let count = prompts(text, self.marker).len();
                if count > self.seen {
                    let grown = StreamReaderView { text, seen: count, ..self };
                    if count >= self.short_circuit_after {
                        (grown, ReadStepView::Done(text))
                    } else {
                        (grown, self.wait_or_give_up(elapsed))
                    }
                } else {
                    (StreamReaderView { text, ..self }, self.wait_or_give_up(elapsed))
                }
            },
        }
    }
}

impl StreamReader {
    /// A reader that has read nothing, for the shell of the sandbox `unique`.
    pub fn new(unique: &str, overall_timeout: u64, short_circuit_after: usize) -> (reader: Self)
        ensures
            reader@ == (StreamReaderView {
                text: Seq::empty(),
                seen: 0,
                marker: ps1_marker_of(unique@),
                short_circuit_after: short_circuit_after as nat,
                overall_timeout,
            }),
    {
        StreamReader {
            text: Vec::new(),
            seen: 0,
            marker: chars_of(ps1_marker(unique).as_str()),
            short_circuit_after,
            overall_timeout,
        }
    }

    /// The text read so far.
    pub fn text(&self) -> (text: String)
        ensures
            text@ == self@.text,
    {
        string_of(&self.text)
    }

    /// Takes in what the stream brought `elapsed` nanoseconds after the read
    /// began, and says what to do next.
    pub fn step(&mut self, event: &StreamEvent, elapsed: u64) -> (next: ReadStep)
        ensures
            (final(self)@, next@) == old(self)@.after(*event, elapsed),
    {
        match event {
            StreamEvent::Started => self.wait_or_give_up(elapsed),
            StreamEvent::Resumed => self.wait_or_give_up(elapsed),
            StreamEvent::Closed => ReadStep::Failed(ReadError::StreamClosed),
            StreamEvent::Idle => {
                if count_prompts(&self.text, &self.marker) > 0 {
                    ReadStep::Done(string_of(&self.text))
                } else {
                    ReadStep::Pause
                }
            },
            StreamEvent::Chunk(bytes) => {
                let plain = strip_ansi(decode_lossy(bytes).as_str());
                let added = chars_of(plain.as_str());
                let n: usize = added.len();
                push_range(&mut self.text, &added, 0, n);
                assert(added@.subrange(0, n as int) == added@);
                let count = count_prompts(&self.text, &self.marker);
                if count > self.seen {
                    self.seen = count;
                    if count >= self.short_circuit_after {
                        return ReadStep::Done(string_of(&self.text));
                    }
                }
                self.wait_or_give_up(elapsed)
            },
        }
    }

    /// Gives up where the time for the whole read is up, and waits on where
    /// it is not.
    fn wait_or_give_up(&self, elapsed: u64) -> (next: ReadStep)
        ensures
            next@ == self@.wait_or_give_up(elapsed),
    {
        if elapsed > self.overall_timeout {
            ReadStep::Failed(ReadError::OverallTimeout)
        } else {
            ReadStep::Wait
        }
    }
}

/// What a read makes of a recorded stream: the events are taken in one by
/// one until the read is over or gives up; a record that ends before that is
/// a stream that closed.
pub open spec fn read_outcome(reader: StreamReaderView, events: Seq<(StreamEvent, u64)>) -> Result<
    Seq<char>,
    ReadError,
>
    decreases events.len(),
{
    if events.len() == 0 {
        Err(ReadError::StreamClosed)
    } else {
        let (next, step) = reader.after(events[0].0, events[0].1);
        match step {
            ReadStepView::Done(text) => Ok(text),
            ReadStepView::Failed(error) => Err(error),
            _ => read_outcome(next, events.drop_first()),
        }
    }
}

/// Reads a recorded stream of the shell of the sandbox `unique`: each event
/// with the nanoseconds that had passed since the read began. Returns the
/// text read once `short_circuit_after` prompts were counted in it, or once
/// the stream went idle with a prompt in the text.
pub fn read_stream_until_idle(
    events: &Vec<(StreamEvent, u64)>,
    unique: &str,
    overall_timeout: u64,
    short_circuit_after: usize,
) -> (result: Result<String, ReadError>)
    ensures
        match result {
            Ok(text) => Ok::<Seq<char>, ReadError>(text@),
            Err(error) => Err(error),
        } == read_outcome(
            StreamReaderView {
                text: Seq::empty(),
                seen: 0,
                marker: ps1_marker_of(unique@),
                short_circuit_after: short_circuit_after as nat,
                overall_timeout,
            },
            events@,
        ),
{
    let mut reader = StreamReader::new(unique, overall_timeout, short_circuit_after);
    let ghost begun = reader@;
    let mut i: usize = 0;
    assert(events@.skip(0) == events@);
    while i < events.len()
        invariant
            i <= events.len(),
            begun == (StreamReaderView {
                text: Seq::empty(),
                seen: 0,
                marker: ps1_marker_of(unique@),
                short_circuit_after: short_circuit_after as nat,
                overall_timeout,
            }),
            read_outcome(reader@, events@.skip(i as int)) == read_outcome(begun, events@),
        decreases events.len() - i,
    {
        assert(events@.skip(i as int).drop_first() == events@.skip(i + 1));
        assert(events@.skip(i as int)[0] == events@[i as int]);
        match reader.step(&events[i].0, events[i].1) {
            ReadStep::Done(text) => {
                return Ok(text);
            },
            ReadStep::Failed(error) => {
                return Err(error);
            },
            _ => {},
        }
        i += 1;
    }
    Err(ReadError::StreamClosed)
}

/// A chunk that raises the number of prompts in the text to the limit ends
/// the read at once with the text as it then stands, however late it is: a
/// command of several lines is not waited out.
pub proof fn lemma_short_circuit(reader: StreamReaderView, bytes: Vec<u8>, elapsed: u64)
    requires
        prompts(reader.text + chunk_text(bytes@), reader.marker).len() > reader.seen,
        prompts(reader.text + chunk_text(bytes@), reader.marker).len()
            >= reader.short_circuit_after,
    ensures
        reader.after(StreamEvent::Chunk(bytes), elapsed).1 == ReadStepView::Done(
            reader.text + chunk_text(bytes@),
        ),
{
}

/// An idle stream ends the read if and only if the text holds a prompt.
pub proof fn lemma_idle_ends_with_prompt(reader: StreamReaderView, elapsed: u64)
    ensures
        reader.after(StreamEvent::Idle, elapsed).1 is Done <==> prompts(
            reader.text,
            reader.marker,
        ).len() > 0,
        reader.after(StreamEvent::Idle, elapsed).0 == reader,
{
}

/// A read that is over returns the text as it stands, and that text holds a
/// prompt: the caller never gets text in which no exit code can be found.
pub proof fn lemma_done_holds_prompt(reader: StreamReaderView, event: StreamEvent, elapsed: u64)
    ensures
        reader.after(event, elapsed).1 matches ReadStepView::Done(text) ==> {
            &&& text == reader.after(event, elapsed).0.text
            &&& prompts(text, reader.marker).len() > 0
        },
        reader.after(event, elapsed).0.marker == reader.marker,
        reader.after(event, elapsed).0.short_circuit_after == reader.short_circuit_after,
        reader.after(event, elapsed).0.overall_timeout == reader.overall_timeout,
{
}

/// What a read returns of a recorded stream holds a prompt.
pub proof fn lemma_read_holds_prompt(reader: StreamReaderView, events: Seq<(StreamEvent, u64)>)
    ensures
        read_outcome(reader, events) matches Ok(text) ==> prompts(text, reader.marker).len() > 0,
    decreases events.len(),
{
    if events.len() > 0 {
        lemma_done_holds_prompt(reader, events[0].0, events[0].1);
        lemma_read_holds_prompt(reader.after(events[0].0, events[0].1).0, events.drop_first());
    }
}

} // verus!

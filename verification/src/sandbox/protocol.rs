//! What the prompt protocol delivers: where the shell answers a command with
//! its output and then its prompt, the result that is read out of the text is
//! that output and the exit code that the prompt shows.

use vstd::prelude::*;
use crate::sandbox::io::{
    all_digits, code_of_digits, cut_at_exit, digits_end, last_exit_code, lemma_digits_end,
    prompt_end, prompts, prompts_from, remove_prompts, remove_prompts_from, stripped_for,
};
use crate::sandbox::shell::{exit_marker_of, ps1_marker_of, ps2_marker_of};
use crate::text::{
    find, is_digit, lemma_find_from, occurs_at, remove_all, remove_all_from, trim_end,
};

verus! {

/// What the shell sends for a command that wrote `output` and ended with the
/// code that `digits` write: the output, then the prompt of the sandbox.
pub open spec fn answer(output: Seq<char>, unique: Seq<char>, digits: Seq<char>) -> Seq<char> {
    output + ps1_marker_of(unique) + digits + seq![':']
}

/// What the shell sends for a command of several lines: the answer to each
/// line, one behind the other.
pub open spec fn answers(lines: Seq<(Seq<char>, Seq<char>)>, unique: Seq<char>) -> Seq<char>
    decreases lines.len(),
{
    if lines.len() == 0 {
        Seq::empty()
    } else {
        answer(lines[0].0, unique, lines[0].1) + answers(lines.drop_first(), unique)
    }
}

/// What the shell sends for a command that wrote `output` and then ended
/// the session: the output, the exit marker, whatever else the command line
/// still wrote, and the prompt.
pub open spec fn last_answer(
    output: Seq<char>,
    unique: Seq<char>,
    rest: Seq<char>,
    digits: Seq<char>,
) -> Seq<char> {
    output + exit_marker_of(unique) + rest + ps1_marker_of(unique) + digits + seq![':']
}

/// The outputs of the lines of a command, one behind the other.
pub open spec fn outputs(lines: Seq<(Seq<char>, Seq<char>)>) -> Seq<char>
    decreases lines.len(),
{
    if lines.len() == 0 {
        Seq::empty()
    } else {
        lines[0].0 + outputs(lines.drop_first())
    }
}

/// No marker of the sandbox starts in `s` at an index from `from` up to
/// `to`.
pub open spec fn free_of_markers(s: Seq<char>, unique: Seq<char>, from: int, to: int) -> bool {
    forall|k: int|
        from <= k < to ==> {
            &&& !occurs_at(s, ps1_marker_of(unique), k)
            &&& !occurs_at(s, ps2_marker_of(unique), k)
            &&& !occurs_at(s, exit_marker_of(unique), k)
        }
}

/// Each line has an output that holds no `#` and a prompt with one digit or
/// more.
pub open spec fn plain_lines(lines: Seq<(Seq<char>, Seq<char>)>) -> bool {
    forall|j: int|
        0 <= j < lines.len() ==> {
            &&& (#[trigger] lines[j]).1.len() > 0
            &&& all_digits(lines[j].1)
            &&& forall|k: int| 0 <= k < lines[j].0.len() ==> lines[j].0[k] != '#'
        }
}

/// From index `i` on, `s` is what the shell sends for a command of several
/// lines: for each line its output and then a prompt, with no marker
/// starting inside an output. Each line is given as its output and the digits
/// of the prompt behind it.
pub open spec fn answered(
    s: Seq<char>,
    unique: Seq<char>,
    lines: Seq<(Seq<char>, Seq<char>)>,
    i: int,
) -> bool
    decreases lines.len(),
{
    if lines.len() == 0 {
        i == s.len()
    } else {
        let output = lines[0].0;
        let digits = lines[0].1;
        let b = i + output.len();
        let e = b + ps1_marker_of(unique).len() + digits.len() + 1;
        &&& 0 <= i
        &&& e <= s.len()
        &&& s.subrange(i, e) == answer(output, unique, digits)
        &&& digits.len() > 0
        &&& all_digits(digits)
        &&& free_of_markers(s, unique, i, b)
        &&& answered(s, unique, lines.drop_first(), e)
    }
}

/// From index `b` on, `s` is the prompt with the digits `digits`.
pub open spec fn ends_with_prompt(s: Seq<char>, unique: Seq<char>, digits: Seq<char>, b: int) -> bool {
    &&& 0 <= b
    &&& digits.len() > 0
    &&& all_digits(digits)
    &&& s.len() == b + ps1_marker_of(unique).len() + digits.len() + 1
    &&& s.subrange(b, s.len() as int) == ps1_marker_of(unique) + digits + seq![':']
}

/// The shape of the three markers: their lengths, where they differ, and
/// that each ends with `#:`.
proof fn lemma_markers(unique: Seq<char>)
    ensures
        ({
            let ps1 = ps1_marker_of(unique);
            let ps2 = ps2_marker_of(unique);
            let exit = exit_marker_of(unique);
            &&& ps1.len() == unique.len() + 7
            &&& ps2.len() == unique.len() + 7
            &&& exit.len() == unique.len() + 8
            &&& ps1[0] == '#'
            &&& ps2[0] == '#'
            &&& exit[0] == '#'
            &&& ps1[1] == 'P'
            &&& ps1[2] == 'S'
            &&& ps2[1] == 'P'
            &&& exit[1] == 'E'
            &&& ps1[3] == '1'
            &&& ps2[3] == '2'
            &&& ps1[4] == '-'
            &&& forall|t: int| 0 <= t < unique.len() ==> ps1[5 + t] == unique[t]
            &&& ps1[ps1.len() - 2] == '#'
            &&& ps1[ps1.len() - 1] == ':'
            &&& ps2[ps2.len() - 2] == '#'
            &&& ps2[ps2.len() - 1] == ':'
            &&& exit[exit.len() - 2] == '#'
            &&& exit[exit.len() - 1] == ':'
        }),
{
    reveal_strlit("#PS1-");
    reveal_strlit("#PS2-");
    reveal_strlit("#EXIT-");
    reveal_strlit("#:");
}

/// Where `pat` stands nowhere in `s` from index `i` on, removing it from
/// there on removes nothing.
proof fn lemma_nothing_to_remove(s: Seq<char>, pat: Seq<char>, i: int)
    requires
        0 <= i <= s.len(),
        forall|k: int| i <= k ==> !occurs_at(s, pat, k),
    ensures
        remove_all_from(s, pat, i) == s.subrange(i, s.len() as int),
    decreases s.len() - i,
{
    if i < s.len() {
        lemma_nothing_to_remove(s, pat, i + 1);
        assert(seq![s[i]] + s.subrange(i + 1, s.len() as int) == s.subrange(i, s.len() as int));
    } else {
        assert(s.subrange(i, s.len() as int) == Seq::<char>::empty());
    }
}

/// Where no prompt starts in `s` from index `i` up to index `b`, a scan from
/// `i` finds the prompts that a scan from `b` finds, and leaves the text
/// between the two untouched.
proof fn lemma_no_prompt_before(s: Seq<char>, marker: Seq<char>, i: int, b: int)
    requires
        0 <= i <= b <= s.len(),
        forall|k: int| i <= k < b ==> prompt_end(s, marker, k) is None,
    ensures
        prompts_from(s, marker, i) == prompts_from(s, marker, b),
        remove_prompts_from(s, marker, i) == s.subrange(i, b) + remove_prompts_from(s, marker, b),
    decreases b - i,
{
    if i < b {
        lemma_no_prompt_before(s, marker, i + 1, b);
        assert(seq![s[i]] + (s.subrange(i + 1, b) + remove_prompts_from(s, marker, b))
            == s.subrange(i, b) + remove_prompts_from(s, marker, b));
    } else {
        assert(s.subrange(i, b) + remove_prompts_from(s, marker, b) == remove_prompts_from(
            s,
            marker,
            b,
        ));
    }
}

/// A run of digits that a character other than a digit follows ends there.
proof fn lemma_digits_run(s: Seq<char>, i: int, e: int)
    requires
        0 <= i <= e < s.len(),
        forall|k: int| i <= k < e ==> is_digit(#[trigger] s[k]),
        !is_digit(s[e]),
    ensures
        digits_end(s, i) == e,
    decreases e - i,
{
    if i < e {
        lemma_digits_run(s, i + 1, e);
    }
}

/// In the answer to a command, where no marker starts inside the output: no
/// continuation prompt and no exit marker stands anywhere, the one prompt
/// reports the exit code, and what is left without it is the output.
#[verifier::rlimit(50)]
proof fn lemma_answer(output: Seq<char>, unique: Seq<char>, digits: Seq<char>)
    requires
        digits.len() > 0,
        all_digits(digits),
        free_of_markers(answer(output, unique, digits), unique, 0, output.len() as int),
    ensures
        ({
            let s = answer(output, unique, digits);
            let ps1 = ps1_marker_of(unique);
            &&& remove_all(s, ps2_marker_of(unique)) == s
            &&& find(s, exit_marker_of(unique)) is None
            &&& last_exit_code(s, ps1) == code_of_digits(digits)
            &&& remove_all(remove_prompts(s, ps1), ps1) == output
        }),
{
    let ps1 = ps1_marker_of(unique);
    let ps2 = ps2_marker_of(unique);
    let exit = exit_marker_of(unique);
    let s = answer(output, unique, digits);
    let b = output.len() as int;
    let l = ps1.len() as int;
    let d = digits.len() as int;
    lemma_markers(unique);
    assert(s.len() == b + l + d + 1);
    // What stands where in the answer.
    assert forall|k: int| 0 <= k < b implies s[k] == output[k] by {}
    assert forall|k: int| b <= k < b + l implies s[k] == ps1[k - b] by {}
    assert forall|k: int| b + l <= k < b + l + d implies s[k] == digits[k - b - l] && is_digit(
        s[k],
    ) by {}
    assert(s[b + l + d] == ':');
    assert(s.subrange(b, b + l) == ps1);
    assert(s.subrange(b + l, b + l + d) == digits);
    assert(s.subrange(0, b) == output);
    // Behind the marker of the prompt stands no `#`.
    assert forall|k: int| b + l - 1 <= k < s.len() implies s[k] != '#' by {
        if k == b + l - 1 {
            assert(s[k] == ps1[l - 1]);
        } else if k < b + l + d {
            assert(is_digit(s[k]));
        }
    }
    // No continuation prompt and no exit marker stands anywhere.
    assert forall|k: int| 0 <= k implies !occurs_at(s, ps2, k) by {
        if occurs_at(s, ps2, k) {
            if k == b {
                assert(s.subrange(k, k + ps2.len())[3] == ps2[3]);
                assert(s[b + 3] == ps1[3]);
            } else if k > b {
                assert(s.subrange(k, k + ps2.len())[ps2.len() - 2] == ps2[ps2.len() - 2]);
                assert(s[k + ps2.len() - 2] == '#');
            }
        }
    }
    assert forall|k: int| 0 <= k implies !occurs_at(s, exit, k) by {
        if occurs_at(s, exit, k) {
            if k >= b {
                assert(s.subrange(k, k + exit.len())[exit.len() - 2] == exit[exit.len() - 2]);
                assert(s[k + exit.len() - 2] == '#');
            }
        }
    }
    lemma_nothing_to_remove(s, ps2, 0);
    assert(s.subrange(0, s.len() as int) == s);
    assert(remove_all(s, ps2) == s);
    lemma_find_from(s, exit, 0);
    assert(find(s, exit) is None);
    // The one prompt is the one at the end.
    assert forall|k: int| 0 <= k < b implies prompt_end(s, ps1, k) is None by {}
    lemma_no_prompt_before(s, ps1, 0, b);
    lemma_digits_run(s, b + l, b + l + d);
    assert(prompt_end(s, ps1, b) == Some(s.len() as int));
    assert(prompts_from(s, ps1, s.len() as int) == Seq::<(int, int)>::empty());
    assert(prompts_from(s, ps1, b) == seq![(b, s.len() as int)] + Seq::<(int, int)>::empty());
    assert(prompts(s, ps1) == seq![(b, s.len() as int)]);
    assert(s.subrange(b + l, s.len() - 1) == digits);
    assert(last_exit_code(s, ps1) == code_of_digits(digits));
    // Without it the output is left, and the output holds no marker.
    assert(remove_prompts_from(s, ps1, s.len() as int) == Seq::<char>::empty());
    assert(remove_prompts_from(s, ps1, b) == Seq::<char>::empty());
    assert(output + Seq::<char>::empty() == output);
    assert(remove_prompts(s, ps1) == output);
    assert forall|k: int| 0 <= k implies !occurs_at(output, ps1, k) by {
        if occurs_at(output, ps1, k) {
            assert(output.subrange(k, k + l) == s.subrange(k, k + l));
            assert(occurs_at(s, ps1, k));
        }
    }
    lemma_nothing_to_remove(output, ps1, 0);
    assert(output.subrange(0, output.len() as int) == output);
    assert(remove_all(output, ps1) == output);
}

/// In what the shell sends for a command of several lines, a scan finds the
/// prompts of the lines and nothing else, the last of them with the digits of
/// the last line, and what is left without them are the outputs.
#[verifier::rlimit(50)]
proof fn lemma_scan_answers(
    s: Seq<char>,
    unique: Seq<char>,
    lines: Seq<(Seq<char>, Seq<char>)>,
    i: int,
)
    requires
        answered(s, unique, lines, i),
    ensures
        prompts_from(s, ps1_marker_of(unique), i).len() == lines.len(),
        remove_prompts_from(s, ps1_marker_of(unique), i) == outputs(lines),
        lines.len() > 0 ==> ({
            let found = prompts_from(s, ps1_marker_of(unique), i);
            s.subrange(found.last().0 + ps1_marker_of(unique).len(), found.last().1 - 1)
                == lines.last().1
        }),
    decreases lines.len(),
{
    let ps1 = ps1_marker_of(unique);
    if lines.len() > 0 {
        let output = lines[0].0;
        let digits = lines[0].1;
        let l = ps1.len() as int;
        let d = digits.len() as int;
        let b = i + output.len();
        let e = b + l + d + 1;
        let rest = lines.drop_first();
        lemma_markers(unique);
        let part = s.subrange(i, e);
        assert(part == answer(output, unique, digits));
        assert forall|k: int| b <= k < b + l implies s[k] == ps1[k - b] by {
            assert(s[k] == part[k - i]);
        }
        assert forall|k: int| b + l <= k < b + l + d implies is_digit(#[trigger] s[k]) by {
            assert(s[k] == part[k - i]);
            assert(part[k - i] == digits[k - b - l]);
        }
        assert(s[b + l + d] == ':') by {
            assert(s[b + l + d] == part[b + l + d - i]);
        }
        assert(s.subrange(b, b + l) == ps1);
        assert(s.subrange(i, b) == output) by {
            assert forall|k: int| 0 <= k < output.len() implies s.subrange(i, b)[k] == output[k] by {
                assert(s[i + k] == part[k]);
            }
        }
        assert(s.subrange(b + l, e - 1) == digits) by {
            assert forall|k: int| 0 <= k < d implies s.subrange(b + l, e - 1)[k] == digits[k] by {
                assert(s[b + l + k] == part[b + l + k - i]);
            }
        }
        assert forall|k: int| i <= k < b implies prompt_end(s, ps1, k) is None by {}
        lemma_no_prompt_before(s, ps1, i, b);
        lemma_digits_run(s, b + l, b + l + d);
        assert(prompt_end(s, ps1, b) == Some(e));
        lemma_scan_answers(s, unique, rest, e);
        let later = prompts_from(s, ps1, e);
        assert(prompts_from(s, ps1, b) == seq![(b, e)] + later);
        assert(remove_prompts_from(s, ps1, b) == remove_prompts_from(s, ps1, e));
        if rest.len() > 0 {
            assert((seq![(b, e)] + later).last() == later.last());
            assert(lines.last() == rest.last());
        } else {
            assert(later.len() == 0);
            assert((seq![(b, e)] + later).last() == (b, e));
        }
    } else {
        assert(outputs(lines) == Seq::<char>::empty());
    }
}

/// In what the shell sends for a command of several lines, where the id of
/// the sandbox holds no `#`, neither a continuation prompt nor an exit
/// marker stands anywhere.
#[verifier::rlimit(50)]
proof fn lemma_answers_hold_no_other_marker(
    s: Seq<char>,
    unique: Seq<char>,
    lines: Seq<(Seq<char>, Seq<char>)>,
    i: int,
)
    requires
        answered(s, unique, lines, i),
        forall|t: int| 0 <= t < unique.len() ==> unique[t] != '#',
    ensures
        forall|k: int|
            i <= k ==> !occurs_at(s, ps2_marker_of(unique), k) && !occurs_at(
                s,
                exit_marker_of(unique),
                k,
            ),
    decreases lines.len(),
{
    let ps1 = ps1_marker_of(unique);
    let ps2 = ps2_marker_of(unique);
    let exit = exit_marker_of(unique);
    lemma_markers(unique);
    if lines.len() > 0 {
        let output = lines[0].0;
        let digits = lines[0].1;
        let l = ps1.len() as int;
        let d = digits.len() as int;
        let b = i + output.len();
        let e = b + l + d + 1;
        lemma_answers_hold_no_other_marker(s, unique, lines.drop_first(), e);
        let part = s.subrange(i, e);
        assert(part == answer(output, unique, digits));
        // In a prompt `#` stands at the start and before the colon of the
        // marker, and nowhere else.
        assert forall|k: int| b <= k < e && s[k] == '#' implies k == b || k == b + l - 2 by {
            assert(s[k] == part[k - i]);
            if k < b + l {
                assert(part[k - i] == ps1[k - b]);
                if 5 <= k - b < l - 2 {
                    assert(ps1[5 + (k - b - 5)] == unique[k - b - 5]);
                }
            } else if k < b + l + d {
                assert(part[k - i] == digits[k - b - l]);
                assert(is_digit(digits[k - b - l]));
            }
        }
        assert(s[b + 1] == 'P' && s[b + 3] == '1' && s[b + l - 1] == ':') by {
            assert(s[b + 1] == part[b + 1 - i]);
            assert(s[b + 3] == part[b + 3 - i]);
            assert(s[b + l - 1] == part[b + l - 1 - i]);
            assert(part[b + 1 - i] == ps1[1]);
            assert(part[b + 3 - i] == ps1[3]);
            assert(part[b + l - 1 - i] == ps1[l - 1]);
        }
        assert forall|k: int| i <= k implies !occurs_at(s, ps2, k) && !occurs_at(s, exit, k) by {
            if b <= k < e {
                if occurs_at(s, ps2, k) {
                    assert(s.subrange(k, k + ps2.len())[0] == ps2[0]);
                    assert(s.subrange(k, k + ps2.len())[1] == ps2[1]);
                    assert(s.subrange(k, k + ps2.len())[3] == ps2[3]);
                }
                if occurs_at(s, exit, k) {
                    assert(s.subrange(k, k + exit.len())[0] == exit[0]);
                    assert(s.subrange(k, k + exit.len())[1] == exit[1]);
                }
            }
        }
    } else {
        assert forall|k: int| i <= k implies !occurs_at(s, ps2, k) && !occurs_at(s, exit, k) by {}
    }
}

/// Where no prompt that starts before index `b` ends behind it, and the
/// prompt that starts at `b` ends with the text, that prompt is the last one
/// a scan finds.
proof fn lemma_scan_reaches(s: Seq<char>, marker: Seq<char>, i: int, b: int)
    requires
        0 <= i <= b < s.len(),
        prompt_end(s, marker, b) == Some(s.len() as int),
        forall|a: int|
            0 <= a < b && (#[trigger] prompt_end(s, marker, a)) is Some ==> prompt_end(
                s,
                marker,
                a,
            )->0 <= b,
    ensures
        prompts_from(s, marker, i).len() > 0,
        prompts_from(s, marker, i).last() == (b, s.len() as int),
    decreases b - i,
{
    if i == b {
        assert(prompts_from(s, marker, s.len() as int) == Seq::<(int, int)>::empty());
        assert(prompts_from(s, marker, b) == seq![(b, s.len() as int)] + Seq::<(int, int)>::empty());
    } else {
        match prompt_end(s, marker, i) {
            Some(e) => {
                lemma_scan_reaches(s, marker, e, b);
                let later = prompts_from(s, marker, e);
                assert((seq![(i, e)] + later).last() == later.last());
            },
            None => {
                lemma_scan_reaches(s, marker, i + 1, b);
            },
        }
    }
}

/// What stands where in a text that ends with a prompt: the marker, then
/// digits, then a colon.
proof fn lemma_prompt_chars(s: Seq<char>, unique: Seq<char>, digits: Seq<char>, b: int)
    requires
        ends_with_prompt(s, unique, digits, b),
    ensures
        forall|k: int|
            b <= k < b + ps1_marker_of(unique).len() ==> #[trigger] s[k] == ps1_marker_of(
                unique,
            )[k - b],
        forall|k: int|
            b + ps1_marker_of(unique).len() <= k < s.len() - 1 ==> is_digit(#[trigger] s[k]),
        s[s.len() - 1] == ':',
{
    let ps1 = ps1_marker_of(unique);
    let l = ps1.len() as int;
    let tail = s.subrange(b, s.len() as int);
    assert forall|k: int| b <= k < b + l implies #[trigger] s[k] == ps1[k - b] by {
        assert(s[k] == tail[k - b]);
    }
    assert forall|k: int| b + l <= k < s.len() - 1 implies is_digit(#[trigger] s[k]) by {
        assert(s[k] == tail[k - b]);
        assert(tail[k - b] == digits[k - b - l]);
    }
    assert(s[s.len() - 1] == tail[tail.len() - 1]);
}

/// In a text that ends with a prompt, that prompt is found where it starts.
proof fn lemma_prompt_at_end(s: Seq<char>, unique: Seq<char>, digits: Seq<char>, b: int)
    requires
        ends_with_prompt(s, unique, digits, b),
    ensures
        prompt_end(s, ps1_marker_of(unique), b) == Some(s.len() as int),
{
    let ps1 = ps1_marker_of(unique);
    let l = ps1.len() as int;
    lemma_prompt_chars(s, unique, digits, b);
    assert(s.subrange(b, b + l) == ps1);
    lemma_digits_run(s, b + l, s.len() - 1);
}

/// In a text that ends with a prompt, where the id of the sandbox holds no
/// `#`, the prompt holds `#` at its start and before the colon of its
/// marker, and nowhere else.
proof fn lemma_prompt_hashes(s: Seq<char>, unique: Seq<char>, digits: Seq<char>, b: int)
    requires
        ends_with_prompt(s, unique, digits, b),
        forall|t: int| 0 <= t < unique.len() ==> unique[t] != '#',
    ensures
        s[b] == '#',
        s[b + 1] == 'P',
        forall|k: int|
            b <= k < s.len() && #[trigger] s[k] == '#' ==> k == b || k == b + ps1_marker_of(
                unique,
            ).len() - 2,
{
    let ps1 = ps1_marker_of(unique);
    let l = ps1.len() as int;
    lemma_markers(unique);
    lemma_prompt_chars(s, unique, digits, b);
    assert forall|k: int| b <= k < s.len() && #[trigger] s[k] == '#' implies k == b || k == b + l
        - 2 by {
        if k < b + l {
            assert(s[k] == ps1[k - b]);
            if 5 <= k - b < l - 2 {
                assert(ps1[5 + (k - b - 5)] == unique[k - b - 5]);
            }
        } else if k < s.len() - 1 {
            assert(is_digit(s[k]));
        }
    }
    assert(s[b] == ps1[0]);
    assert(s[b + 1] == ps1[1]);
}

/// In a text that ends with a prompt, where the id of the sandbox holds no
/// `#`, no prompt that starts before the last one ends behind its start.
#[verifier::rlimit(50)]
proof fn lemma_no_prompt_runs_over(s: Seq<char>, unique: Seq<char>, digits: Seq<char>, b: int)
    requires
        ends_with_prompt(s, unique, digits, b),
        forall|t: int| 0 <= t < unique.len() ==> unique[t] != '#',
    ensures
        forall|a: int|
            0 <= a < b && (#[trigger] prompt_end(s, ps1_marker_of(unique), a)) is Some
                ==> prompt_end(s, ps1_marker_of(unique), a)->0 <= b,
{
    let ps1 = ps1_marker_of(unique);
    let l = ps1.len() as int;
    lemma_markers(unique);
    lemma_prompt_hashes(s, unique, digits, b);
    assert forall|a: int| 0 <= a < b && (#[trigger] prompt_end(s, ps1, a)) is Some implies prompt_end(
        s,
        ps1,
        a,
    )->0 <= b by {
        let e = prompt_end(s, ps1, a)->0;
        if e > b {
            lemma_digits_end(s, a + l);
            let hash = a + l - 2;
            assert(s.subrange(a, a + l)[l - 2] == ps1[l - 2]);
            assert(s.subrange(a, a + l)[l - 1] == ps1[l - 1]);
            assert(s[hash] == '#' && s[hash + 1] == ':');
            if hash >= b {
                assert(hash == b || hash == b + l - 2);
            } else if hash + 1 == b {
            } else {
                // The digits of the prompt would run over the start of the
                // last prompt, where `#` stands.
                assert(a + l <= b <= e - 2);
                assert(is_digit(s[b]));
            }
        }
    }
}

/// The exit marker stands in `s` right behind `output`, with which `s`
/// begins, and nowhere before.
proof fn lemma_exit_found(s: Seq<char>, output: Seq<char>, unique: Seq<char>)
    requires
        output.len() <= s.len(),
        s.subrange(0, output.len() as int) == output,
        occurs_at(s, exit_marker_of(unique), output.len() as int),
        forall|k: int| 0 <= k < output.len() ==> output[k] != '#',
    ensures
        find(s, exit_marker_of(unique)) == Some(output.len() as int),
{
    let exit = exit_marker_of(unique);
    let at = output.len() as int;
    lemma_markers(unique);
    lemma_find_from(s, exit, 0);
    assert forall|k: int| 0 <= k < at implies !occurs_at(s, exit, k) by {
        if occurs_at(s, exit, k) {
            assert(s.subrange(k, k + exit.len())[0] == exit[0]);
            assert(s.subrange(0, at)[k] == output[k]);
        }
    }
}

/// In a text that ends with a prompt, where the id of the sandbox holds no
/// `#`, the last prompt that a scan finds is the one at the end.
proof fn lemma_last_prompt(s: Seq<char>, unique: Seq<char>, digits: Seq<char>, b: int)
    requires
        ends_with_prompt(s, unique, digits, b),
        forall|t: int| 0 <= t < unique.len() ==> unique[t] != '#',
    ensures
        prompts(s, ps1_marker_of(unique)).len() > 0,
        prompts(s, ps1_marker_of(unique)).last() == (b, s.len() as int),
{
    lemma_prompt_at_end(s, unique, digits, b);
    lemma_no_prompt_runs_over(s, unique, digits, b);
    lemma_scan_reaches(s, ps1_marker_of(unique), 0, b);
}

/// The outputs of plain lines hold no `#`.
proof fn lemma_outputs_hold_no_hash(lines: Seq<(Seq<char>, Seq<char>)>)
    requires
        plain_lines(lines),
    ensures
        forall|k: int| 0 <= k < outputs(lines).len() ==> outputs(lines)[k] != '#',
    decreases lines.len(),
{
    if lines.len() > 0 {
        let rest = lines.drop_first();
        assert forall|j: int| 0 <= j < rest.len() implies {
            &&& (#[trigger] rest[j]).1.len() > 0
            &&& all_digits(rest[j].1)
            &&& forall|k: int| 0 <= k < rest[j].0.len() ==> rest[j].0[k] != '#'
        } by {
            assert(rest[j] == lines[j + 1]);
        }
        lemma_outputs_hold_no_hash(rest);
        let first = lines[0].0;
        assert forall|k: int| 0 <= k < outputs(lines).len() implies outputs(lines)[k] != '#' by {
            if k < first.len() {
                assert(outputs(lines)[k] == first[k]);
            } else {
                assert(outputs(lines)[k] == outputs(rest)[k - first.len()]);
            }
        }
    }
}

/// Behind any text, the answers to plain lines are what the shell sends for
/// a command of several lines.
proof fn lemma_answers_are_answered(
    before: Seq<char>,
    lines: Seq<(Seq<char>, Seq<char>)>,
    unique: Seq<char>,
)
    requires
        plain_lines(lines),
    ensures
        answered(before + answers(lines, unique), unique, lines, before.len() as int),
    decreases lines.len(),
{
    let s = before + answers(lines, unique);
    let i = before.len() as int;
    if lines.len() > 0 {
        let output = lines[0].0;
        let digits = lines[0].1;
        let rest = lines.drop_first();
        let first = answer(output, unique, digits);
        let b = i + output.len();
        let e = i + first.len();
        lemma_markers(unique);
        assert forall|j: int| 0 <= j < rest.len() implies {
            &&& (#[trigger] rest[j]).1.len() > 0
            &&& all_digits(rest[j].1)
            &&& forall|k: int| 0 <= k < rest[j].0.len() ==> rest[j].0[k] != '#'
        } by {
            assert(rest[j] == lines[j + 1]);
        }
        lemma_answers_are_answered(before + first, rest, unique);
        assert(s == (before + first) + answers(rest, unique));
        assert(s.subrange(i, e) == first);
        assert forall|k: int| i <= k < b implies {
            &&& !occurs_at(s, ps1_marker_of(unique), k)
            &&& !occurs_at(s, ps2_marker_of(unique), k)
            &&& !occurs_at(s, exit_marker_of(unique), k)
        } by {
            assert(s[k] == s.subrange(i, e)[k - i]);
            assert(first[k - i] == output[k - i]);
            if occurs_at(s, ps1_marker_of(unique), k) {
                assert(s.subrange(k, k + ps1_marker_of(unique).len())[0] == ps1_marker_of(
                    unique,
                )[0]);
            }
            if occurs_at(s, ps2_marker_of(unique), k) {
                assert(s.subrange(k, k + ps2_marker_of(unique).len())[0] == ps2_marker_of(
                    unique,
                )[0]);
            }
            if occurs_at(s, exit_marker_of(unique), k) {
                assert(s.subrange(k, k + exit_marker_of(unique).len())[0] == exit_marker_of(
                    unique,
                )[0]);
            }
        }
    } else {
        assert(s == before);
    }
}

/// Where the shell answers a command with its output and its prompt, and no
/// marker starts inside the output, the result read out of the answer is the
/// output without the white space at its end, the exit code that the digits
/// of the prompt report, and a session that goes on.
pub proof fn lemma_answer_is_read_back(output: Seq<char>, unique: Seq<char>, digits: Seq<char>)
    requires
        digits.len() > 0,
        all_digits(digits),
        free_of_markers(answer(output, unique, digits), unique, 0, output.len() as int),
    ensures
        stripped_for(answer(output, unique, digits), unique) == (
            trim_end(output),
            code_of_digits(digits),
            false,
        ),
{
    lemma_answer(output, unique, digits);
}

/// A prompt alone, which is what the shell sends for a line that holds only
/// a comment, is read as no output and the exit code of the prompt.
pub proof fn lemma_prompt_alone_is_no_output(unique: Seq<char>, digits: Seq<char>)
    requires
        digits.len() > 0,
        all_digits(digits),
    ensures
        stripped_for(answer(Seq::empty(), unique, digits), unique) == (
            Seq::<char>::empty(),
            code_of_digits(digits),
            false,
        ),
{
    lemma_answer_is_read_back(Seq::empty(), unique, digits);
}

/// An output that holds no `#` holds no marker.
pub proof fn lemma_no_hash_no_marker(output: Seq<char>, unique: Seq<char>, digits: Seq<char>)
    requires
        forall|k: int| 0 <= k < output.len() ==> output[k] != '#',
    ensures
        free_of_markers(answer(output, unique, digits), unique, 0, output.len() as int),
{
    let s = answer(output, unique, digits);
    lemma_markers(unique);
    assert forall|k: int| 0 <= k < output.len() implies {
        &&& !occurs_at(s, ps1_marker_of(unique), k)
        &&& !occurs_at(s, ps2_marker_of(unique), k)
        &&& !occurs_at(s, exit_marker_of(unique), k)
    } by {
        assert(s[k] == output[k]);
        if occurs_at(s, ps1_marker_of(unique), k) {
            assert(s.subrange(k, k + ps1_marker_of(unique).len())[0] == ps1_marker_of(unique)[0]);
        }
        if occurs_at(s, ps2_marker_of(unique), k) {
            assert(s.subrange(k, k + ps2_marker_of(unique).len())[0] == ps2_marker_of(unique)[0]);
        }
        if occurs_at(s, exit_marker_of(unique), k) {
            assert(s.subrange(k, k + exit_marker_of(unique).len())[0] == exit_marker_of(
                unique,
            )[0]);
        }
    }
}

/// Where the shell answers each line of a command with its output and its
/// prompt, the result read out of the whole is the outputs without the white
/// space at their end, the exit code that the digits of the last prompt
/// report, and a session that goes on; provided that no marker starts inside
/// an output, that the outputs put together hold no PS1 marker, and that the
/// id of the sandbox holds no `#`.
#[verifier::rlimit(50)]
pub proof fn lemma_answers_are_read_back(
    s: Seq<char>,
    unique: Seq<char>,
    lines: Seq<(Seq<char>, Seq<char>)>,
)
    requires
        lines.len() > 0,
        answered(s, unique, lines, 0),
        forall|k: int| 0 <= k ==> !occurs_at(outputs(lines), ps1_marker_of(unique), k),
        forall|t: int| 0 <= t < unique.len() ==> unique[t] != '#',
    ensures
        stripped_for(s, unique) == (
            trim_end(outputs(lines)),
            code_of_digits(lines.last().1),
            false,
        ),
{
    let ps1 = ps1_marker_of(unique);
    let ps2 = ps2_marker_of(unique);
    let exit = exit_marker_of(unique);
    lemma_answers_hold_no_other_marker(s, unique, lines, 0);
    lemma_nothing_to_remove(s, ps2, 0);
    assert(s.subrange(0, s.len() as int) == s);
    assert(remove_all(s, ps2) == s);
    lemma_find_from(s, exit, 0);
    assert(find(s, exit) is None);
    assert(cut_at_exit(s, ps1, exit) == s);
    lemma_scan_answers(s, unique, lines, 0);
    assert(last_exit_code(s, ps1) == code_of_digits(lines.last().1));
    assert(remove_prompts(s, ps1) == outputs(lines));
    lemma_nothing_to_remove(outputs(lines), ps1, 0);
    assert(outputs(lines).subrange(0, outputs(lines).len() as int) == outputs(lines));
    assert(remove_all(outputs(lines), ps1) == outputs(lines));
}

/// Where the shell answers each line of a command with its output and its
/// prompt, and neither an output nor the id of the sandbox holds `#`, the
/// result read out of the whole is the outputs without the white space at
/// their end, the exit code that the digits of the last prompt report, and a
/// session that goes on.
pub proof fn lemma_lines_are_read_back(lines: Seq<(Seq<char>, Seq<char>)>, unique: Seq<char>)
    requires
        lines.len() > 0,
        plain_lines(lines),
        forall|t: int| 0 <= t < unique.len() ==> unique[t] != '#',
    ensures
        stripped_for(answers(lines, unique), unique) == (
            trim_end(outputs(lines)),
            code_of_digits(lines.last().1),
            false,
        ),
{
    let s = answers(lines, unique);
    lemma_answers_are_answered(Seq::empty(), lines, unique);
    assert(Seq::<char>::empty() + s == s);
    lemma_outputs_hold_no_hash(lines);
    lemma_markers(unique);
    assert forall|k: int| 0 <= k implies !occurs_at(outputs(lines), ps1_marker_of(unique), k) by {
        if occurs_at(outputs(lines), ps1_marker_of(unique), k) {
            assert(outputs(lines).subrange(k, k + ps1_marker_of(unique).len())[0]
                == ps1_marker_of(unique)[0]);
        }
    }
    lemma_answers_are_read_back(s, unique, lines);
}

/// Where a command ends the session, the result read out of what the shell
/// sent is the output before the exit marker without the white space at its
/// end, the exit code that the digits of the last prompt report, and a
/// session that has exited, whatever stands between the exit marker and that
/// prompt; provided that neither the output nor the id of the sandbox holds
/// `#`, and that no continuation prompt stands in the text.
#[verifier::rlimit(50)]
pub proof fn lemma_exit_is_read_back(
    output: Seq<char>,
    unique: Seq<char>,
    rest: Seq<char>,
    digits: Seq<char>,
)
    requires
        digits.len() > 0,
        all_digits(digits),
        forall|k: int| 0 <= k < output.len() ==> output[k] != '#',
        forall|t: int| 0 <= t < unique.len() ==> unique[t] != '#',
        forall|k: int|
            0 <= k ==> !occurs_at(
                last_answer(output, unique, rest, digits),
                ps2_marker_of(unique),
                k,
            ),
    ensures
        stripped_for(last_answer(output, unique, rest, digits), unique) == (
            trim_end(output),
            code_of_digits(digits),
            true,
        ),
{
    let ps1 = ps1_marker_of(unique);
    let exit = exit_marker_of(unique);
    let s = last_answer(output, unique, rest, digits);
    let at = output.len() as int;
    let b = at + exit.len() + rest.len();
    let prompt = ps1 + digits + seq![':'];
    assert(s == (output + exit + rest) + prompt);
    assert(s.subrange(b, s.len() as int) == prompt);
    assert(s.subrange(0, at) == output);
    assert(s.subrange(at, at + exit.len()) == exit);
    lemma_nothing_to_remove(s, ps2_marker_of(unique), 0);
    assert(s.subrange(0, s.len() as int) == s);
    lemma_exit_found(s, output, unique);
    lemma_last_prompt(s, unique, digits, b);
    assert(output + prompt == answer(output, unique, digits));
    assert(cut_at_exit(s, ps1, exit) == answer(output, unique, digits));
    lemma_no_hash_no_marker(output, unique, digits);
    lemma_answer(output, unique, digits);
}

} // verus!

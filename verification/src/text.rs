//! Text as sequences of characters: searching, cutting and trimming.
//!
//! The functions here work on `Vec<char>`, whose view is the same `Seq<char>`
//! that a `&str` or a `String` has, so that a contract over a string and the
//! code that computes it speak of the same value.

use vstd::prelude::*;

verus! {

/// `String::push` of the standard library: the string afterwards is the
/// string before with `c` at its end.
pub assume_specification[ String::push ](s: &mut String, c: char)
    ensures
        final(s)@ == old(s)@.push(c),
;

/// The characters of `s`, in order.
pub fn chars_of(s: &str) -> (v: Vec<char>)
    ensures
        v@ == s@,
{
    let mut v: Vec<char> = Vec::new();
    for c in it: s.chars()
        invariant
            v@ == it.seq().take(it.index()),
            it.seq() == s@,
    {
        v.push(c);
    }
    v
}

/// The string that holds the characters of `v`, in order.
pub fn string_of(v: &Vec<char>) -> (s: String)
    ensures
        s@ == v@,
{
    let mut s = String::new();
    let mut i: usize = 0;
    while i < v.len()
        invariant
            i <= v.len(),
            s@ == v@.take(i as int),
        decreases v.len() - i,
    {
        s.push(v[i]);
        i += 1;
    }
    s
}

/// `pat` stands in `s` at index `i`.
pub open spec fn occurs_at(s: Seq<char>, pat: Seq<char>, i: int) -> bool {
    &&& 0 <= i
    &&& i + pat.len() <= s.len()
    &&& s.subrange(i, i + pat.len()) == pat
}

/// The first index at or after `i` where `pat` stands in `s`.
pub open spec fn find_from(s: Seq<char>, pat: Seq<char>, i: int) -> Option<int>
    decreases s.len() - i,
{
    if i < 0 || i + pat.len() > s.len() {
        None
    } else if occurs_at(s, pat, i) {
        Some(i)
    } else if i >= s.len() {
        None
    } else {
        find_from(s, pat, i + 1)
    }
}

/// The first index where `pat` stands in `s`.
pub open spec fn find(s: Seq<char>, pat: Seq<char>) -> Option<int> {
    find_from(s, pat, 0)
}

/// `s` without the occurrences of `pat` that a scan from index `i` meets,
/// left to right, each scan resuming behind the occurrence it removed.
/// An empty `pat` removes nothing.
pub open spec fn remove_all_from(s: Seq<char>, pat: Seq<char>, i: int) -> Seq<char>
    decreases s.len() - i,
{
    if i < 0 || i >= s.len() {
        Seq::empty()
    } else if pat.len() > 0 && occurs_at(s, pat, i) {
        remove_all_from(s, pat, i + pat.len())
    } else {
        seq![s[i]] + remove_all_from(s, pat, i + 1)
    }
}

/// `s` without the non-overlapping occurrences of `pat`, taken left to right.
pub open spec fn remove_all(s: Seq<char>, pat: Seq<char>) -> Seq<char> {
    remove_all_from(s, pat, 0)
}

/// White space as Unicode defines it (the property `White_Space`).
pub open spec fn is_whitespace(c: char) -> bool {
    let u = c as u32;
    ||| 0x09 <= u <= 0x0D
    ||| u == 0x20
    ||| u == 0x85
    ||| u == 0xA0
    ||| u == 0x1680
    ||| 0x2000 <= u <= 0x200A
    ||| u == 0x2028
    ||| u == 0x2029
    ||| u == 0x202F
    ||| u == 0x205F
    ||| u == 0x3000
}

/// `s` without the white space at its end.
pub open spec fn trim_end(s: Seq<char>) -> Seq<char>
    decreases s.len(),
{
    if s.len() > 0 && is_whitespace(s.last()) {
        trim_end(s.drop_last())
    } else {
        s
    }
}

/// One of the ten ASCII digits.
pub open spec fn is_digit(c: char) -> bool {
    '0' <= c <= '9'
}

/// The number that a run of ASCII digits writes in base ten.
pub open spec fn digits_value(d: Seq<char>) -> nat
    decreases d.len(),
{
    if d.len() == 0 {
        0
    } else {
        digits_value(d.drop_last()) * 10 + ((d.last() as u32 - '0' as u32) as nat)
    }
}

/// Whether `pat` stands in `s` at index `i`.
pub fn matches_at(s: &Vec<char>, pat: &Vec<char>, i: usize) -> (found: bool)
    ensures
        found == occurs_at(s@, pat@, i as int),
{
    if pat.len() > s.len() || i > s.len() - pat.len() {
        return false;
    }
    let mut k: usize = 0;
    while k < pat.len()
        invariant
            k <= pat.len(),
            i + pat.len() <= s.len(),
            s@.subrange(i as int, i + k) == pat@.take(k as int),
        decreases pat.len() - k,
    {
        if s[i + k] != pat[k] {
            assert(s@.subrange(i as int, i + pat.len())[k as int] != pat@[k as int]);
            return false;
        }
        assert(s@.subrange(i as int, i + k + 1) == s@.subrange(i as int, i + k).push(
            s@[i + k],
        ));
        assert(pat@.take(k + 1) == pat@.take(k as int).push(pat@[k as int]));
        k += 1;
    }
    assert(pat@.take(pat.len() as int) == pat@);
    true
}

/// Nothing before the first occurrence is an occurrence, and where there is
/// no first occurrence there is none at all.
pub(crate) proof fn lemma_find_from(s: Seq<char>, pat: Seq<char>, i: int)
    requires
        0 <= i,
    ensures
        match find_from(s, pat, i) {
            Some(at) => i <= at && occurs_at(s, pat, at) && forall|j: int|
                i <= j < at ==> !occurs_at(s, pat, j),
            None => forall|j: int| i <= j ==> !occurs_at(s, pat, j),
        },
    decreases s.len() - i,
{
    if i + pat.len() > s.len() {
    } else if occurs_at(s, pat, i) {
    } else if i >= s.len() {
        assert(s.subrange(i, i + pat.len()) == pat);
    } else {
        lemma_find_from(s, pat, i + 1);
    }
}

/// The first index at or after `from` where `pat` stands in `s`.
pub fn find_in(s: &Vec<char>, pat: &Vec<char>, from: usize) -> (at: Option<usize>)
    ensures
        match at {
            Some(i) => {
                &&& find_from(s@, pat@, from as int) == Some(i as int)
                &&& from <= i
                &&& occurs_at(s@, pat@, i as int)
                &&& forall|j: int| from <= j < i ==> !occurs_at(s@, pat@, j)
            },
            None => {
                &&& find_from(s@, pat@, from as int).is_none()
                &&& forall|j: int| from <= j ==> !occurs_at(s@, pat@, j)
            },
        },
{
    proof {
        lemma_find_from(s@, pat@, from as int);
    }
    if pat.len() > s.len() {
        return None;
    }
    let last: usize = s.len() - pat.len();
    if from > last {
        return None;
    }
    let mut i: usize = from;
    loop
        invariant
            from <= i <= last,
            last == s.len() - pat.len(),
            find_from(s@, pat@, from as int) == find_from(s@, pat@, i as int),
        decreases last - i,
    {
        if matches_at(s, pat, i) {
            proof {
                lemma_find_from(s@, pat@, from as int);
            }
            return Some(i);
        }
        if i == last {
            assert(find_from(s@, pat@, i + 1).is_none());
            proof {
                lemma_find_from(s@, pat@, from as int);
            }
            return None;
        }
        i += 1;
    }
}

/// `s` without the non-overlapping occurrences of `pat`, taken left to right.
pub fn without(s: &Vec<char>, pat: &Vec<char>) -> (out: Vec<char>)
    ensures
        out@ == remove_all(s@, pat@),
{
    let mut out: Vec<char> = Vec::new();
    let mut i: usize = 0;
    while i < s.len()
        invariant
            i <= s.len(),
            out@ + remove_all_from(s@, pat@, i as int) == remove_all(s@, pat@),
        decreases s.len() - i,
    {
        if pat.len() > 0 && matches_at(s, pat, i) {
            i += pat.len();
        } else {
            let ghost before = out@;
            out.push(s[i]);
            assert(out@ + remove_all_from(s@, pat@, i + 1) == before + (seq![s@[i as int]]
                + remove_all_from(s@, pat@, i + 1)));
            i += 1;
        }
    }
    assert(out@ + Seq::<char>::empty() == out@);
    out
}

/// Whether `c` is white space.
pub fn char_is_whitespace(c: char) -> (ws: bool)
    ensures
        ws == is_whitespace(c),
{
    let u: u32 = c as u32;
    (0x09 <= u && u <= 0x0D) || u == 0x20 || u == 0x85 || u == 0xA0 || u == 0x1680 || (0x2000 <= u
        && u <= 0x200A) || u == 0x2028 || u == 0x2029 || u == 0x202F || u == 0x205F || u == 0x3000
}

/// The length of `s` without the white space at its end.
pub fn trimmed_len(s: &Vec<char>) -> (n: usize)
    ensures
        n <= s.len(),
        s@.take(n as int) == trim_end(s@),
{
    let mut n: usize = s.len();
    assert(s@.take(n as int) == s@);
    while n > 0 && char_is_whitespace(s[n - 1])
        invariant
            n <= s.len(),
            trim_end(s@.take(n as int)) == trim_end(s@),
        decreases n,
    {
        assert(s@.take(n as int).drop_last() == s@.take(n - 1));
        n -= 1;
    }
    n
}

/// The first `n` characters of `s`; all of `s` where it holds fewer.
pub fn prefix(s: &Vec<char>, n: usize) -> (out: Vec<char>)
    ensures
        out@ == s@.take(if n <= s@.len() {
            n as int
        } else {
            s@.len() as int
        }),
{
    let end: usize = if n <= s.len() {
        n
    } else {
        s.len()
    };
    let mut out: Vec<char> = Vec::new();
    let mut i: usize = 0;
    while i < end
        invariant
            i <= end <= s.len(),
            out@ == s@.take(i as int),
        decreases end - i,
    {
        out.push(s[i]);
        assert(s@.take(i + 1) == s@.take(i as int).push(s@[i as int]));
        i += 1;
    }
    out
}

/// The character that writes the digit `d`.
pub open spec fn digit_char(d: nat) -> char {
    ((d + 0x30) as u8) as char
}

/// A natural number in base ten, without leading zeros.
pub open spec fn nat_decimal(n: nat) -> Seq<char>
    decreases n,
{
    if n < 10 {
        seq![digit_char(n)]
    } else {
        nat_decimal(n / 10).push(digit_char(n % 10))
    }
}

/// An integer in base ten, with a minus sign before a negative one.
pub open spec fn decimal(n: int) -> Seq<char> {
    if n < 0 {
        seq!['-'] + nat_decimal((-n) as nat)
    } else {
        nat_decimal(n as nat)
    }
}

/// `n` in base ten.
pub fn decimal_string(n: i64) -> (s: String)
    ensures
        s@ == decimal(n as int),
{
    let mut magnitude: u64 = if n < 0 {
        ((-(n + 1)) as u64) + 1
    } else {
        n as u64
    };
    let ghost whole = magnitude as nat;
    let mut low: Vec<char> = Vec::new();
    let ghost mut tail: Seq<char> = Seq::empty();
    assert(nat_decimal(whole) + tail == nat_decimal(whole));
    while magnitude >= 10
        invariant
            nat_decimal(whole) == nat_decimal(magnitude as nat) + tail,
            tail.len() == low@.len(),
            forall|k: int| 0 <= k < tail.len() ==> #[trigger] tail[k] == low@[low@.len() - 1 - k],
        decreases magnitude,
    {
        let digit: u8 = (magnitude % 10) as u8;
        low.push((0x30u8 + digit) as char);
        proof {
            let d = digit_char((magnitude % 10) as nat);
            let shorter = nat_decimal((magnitude / 10) as nat);
            assert(shorter.push(d) + tail == shorter + (seq![d] + tail));
            let longer = seq![d] + tail;
            assert forall|k: int| 0 <= k < longer.len() implies #[trigger] longer[k] == low@[low@.len()
                - 1 - k] by {
                if k > 0 {
                    assert(longer[k] == tail[k - 1]);
                }
            }
            tail = longer;
        }
        magnitude = magnitude / 10;
    }
    let mut s = String::new();
    if n < 0 {
        s.push('-');
    }
    s.push((0x30u8 + (magnitude as u8)) as char);
    let ghost head = s@;
    assert(head + tail == decimal(n as int));
    let mut left: usize = low.len();
    assert(tail.take(0) == Seq::<char>::empty());
    assert(head + Seq::<char>::empty() == head);
    while left > 0
        invariant
            left <= low@.len(),
            tail.len() == low@.len(),
            forall|k: int| 0 <= k < tail.len() ==> #[trigger] tail[k] == low@[low@.len() - 1 - k],
            s@ == head + tail.take(low@.len() - left),
        decreases left,
    {
        left -= 1;
        s.push(low[left]);
        assert(tail[low@.len() - left - 1] == low@[left as int]);
        assert(tail.take(low@.len() - left) == tail.take(low@.len() - left - 1).push(
            low@[left as int],
        ));
        assert(s@ == head + tail.take(low@.len() - left));
    }
    assert(tail.take(tail.len() as int) == tail);
    s
}

} // verus!

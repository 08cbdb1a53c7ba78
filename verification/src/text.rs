//! Character-level helpers shared by the parsers: whitespace, decimal
//! numbers and splitting a text into fields.
//!
//! Every parser of this crate works on the characters of its input, so the
//! contracts here are stated over `Seq<char>`.

use vstd::prelude::*;

verus! {

/// White space as the parsers understand it: blank, tab, line feed, vertical
/// tab, form feed and carriage return.
pub open spec fn is_space(c: char) -> bool {
    c == ' ' || c == '\t' || c == '\n' || c == '\x0b' || c == '\x0c' || c == '\r'
}

/// An ASCII decimal digit.
pub open spec fn is_digit(c: char) -> bool {
    '0' <= c && c <= '9'
}

/// The value of a decimal digit.
pub open spec fn digit_value(c: char) -> nat
    recommends
        is_digit(c),
{
    (c as nat - '0' as nat) as nat
}

/// Every character of `s` is a decimal digit.
pub open spec fn all_digits(s: Seq<char>) -> bool {
    forall|i: int| 0 <= i < s.len() ==> is_digit(#[trigger] s[i])
}

/// The number that a run of decimal digits denotes, most significant digit
/// first. The empty run denotes 0.
pub open spec fn decimal(s: Seq<char>) -> nat
    decreases s.len(),
{
    if s.len() == 0 {
        0
    } else {
        decimal(s.drop_last()) * 10 + digit_value(s.last())
    }
}

/// What `s` denotes as a number no greater than `max`: `s` must be a
/// non-empty run of decimal digits, with no sign and no separator, and its
/// value must not exceed `max`. Leading zeros are accepted.
pub open spec fn number(s: Seq<char>, max: nat) -> Option<nat> {
    if s.len() > 0 && all_digits(s) && decimal(s) <= max {
        Some(decimal(s))
    } else {
        None
    }
}

/// The fields of `s` between occurrences of `sep`. There is always at least
/// one field, `n` separators give `n + 1` fields, and a field may be empty.
pub open spec fn split(s: Seq<char>, sep: char) -> Seq<Seq<char>>
    decreases s.len(),
{
    if s.len() == 0 {
        seq![Seq::<char>::empty()]
    } else if s.last() == sep {
        split(s.drop_last(), sep).push(Seq::<char>::empty())
    } else {
        let before = split(s.drop_last(), sep);
        before.drop_last().push(before.last().push(s.last()))
    }
}

/// `s` without the white space at its end.
pub open spec fn trimmed_end(s: Seq<char>) -> Seq<char>
    decreases s.len(),
{
    if s.len() > 0 && is_space(s.last()) {
        trimmed_end(s.drop_last())
    } else {
        s
    }
}

/// `s` without the white space at its start.
pub open spec fn trimmed_start(s: Seq<char>) -> Seq<char>
    decreases s.len(),
{
    if s.len() > 0 && is_space(s.first()) {
        trimmed_start(s.drop_first())
    } else {
        s
    }
}

/// The views of a list of texts.
pub open spec fn views(parts: Seq<Vec<char>>) -> Seq<Seq<char>> {
    Seq::new(parts.len(), |i: int| parts[i]@)
}

/// A prefix of a run of digits denotes no more than the whole run.
pub proof fn lemma_decimal_prefix(s: Seq<char>, n: int)
    requires
        0 <= n <= s.len(),
    ensures
        decimal(s.take(n)) <= decimal(s),
    decreases s.len(),
{
    if n == s.len() {
        assert(s.take(n) == s);
    } else {
        lemma_decimal_prefix(s.drop_last(), n);
        assert(s.drop_last().take(n) == s.take(n));
    }
}

/// A text without the separator is its own single field.
pub proof fn lemma_split_single(s: Seq<char>, sep: char)
    requires
        !s.contains(sep),
    ensures
        split(s, sep) == seq![s],
    decreases s.len(),
{
    if s.len() > 0 {
        let front = s.drop_last();
        assert(s[s.len() - 1] == s.last());
        assert forall|i: int| 0 <= i < front.len() implies front[i] != sep by {
            assert(front[i] == s[i]);
        }
        lemma_split_single(front, sep);
        assert(seq![front].drop_last().push(front.push(s.last())) == seq![front.push(s.last())]);
        assert(front.push(s.last()) == s);
    } else {
        assert(s == Seq::<char>::empty());
    }
}

/// Appending a separator and a text without one appends that text as one
/// more field.
pub proof fn lemma_split_append(a: Seq<char>, sep: char, b: Seq<char>)
    requires
        !b.contains(sep),
    ensures
        split(a + seq![sep] + b, sep) == split(a, sep).push(b),
    decreases b.len(),
{
    let whole = a + seq![sep] + b;
    if b.len() == 0 {
        assert(whole.drop_last() == a);
        assert(whole.last() == sep);
        assert(b == Seq::<char>::empty());
    } else {
        let front = b.drop_last();
        assert(b[b.len() - 1] == b.last());
        assert forall|i: int| 0 <= i < front.len() implies front[i] != sep by {
            assert(front[i] == b[i]);
        }
        lemma_split_append(a, sep, front);
        assert(whole.drop_last() == a + seq![sep] + front);
        assert(whole.last() == b.last());
        let before = split(a, sep).push(front);
        assert(before.drop_last() == split(a, sep));
        assert(front.push(b.last()) == b);
    }
}

/// The characters of `text`, in order.
pub fn chars_of(text: &str) -> (out: Vec<char>)
    ensures
        out@ == text@,
{
    let mut out: Vec<char> = Vec::new();
    for c in it: text.chars()
        invariant
            it.seq() == text@,
            out@ == it.seq().take(it.index() as int),
    {
        out.push(c);
    }
    out
}

/// Tells whether `c` is white space.
pub fn is_space_char(c: char) -> (b: bool)
    ensures
        b == is_space(c),
{
    c == ' ' || c == '\t' || c == '\n' || c == '\x0b' || c == '\x0c' || c == '\r'
}

/// Tells whether `c` is a decimal digit.
pub fn is_digit_char(c: char) -> (b: bool)
    ensures
        b == is_digit(c),
{
    '0' <= c && c <= '9'
}

/// Tells whether two texts hold the same characters.
pub fn same_text(a: &Vec<char>, b: &Vec<char>) -> (same: bool)
    ensures
        same == (a@ == b@),
{
    if a.len() != b.len() {
        return false;
    }
    let mut i: usize = 0;
    while i < a.len()
        invariant
            a.len() == b.len(),
            i <= a.len(),
            a@.take(i as int) == b@.take(i as int),
        decreases a.len() - i,
    {
        if a[i] != b[i] {
            return false;
        }
        assert(a@.take(i + 1) == a@.take(i as int).push(a@[i as int]));
        assert(b@.take(i + 1) == b@.take(i as int).push(b@[i as int]));
        i += 1;
    }
    assert(a@.take(i as int) == a@);
    assert(b@.take(i as int) == b@);
    true
}

/// Tells whether `s` is the literal `word`.
pub fn is_word(s: &Vec<char>, word: &str) -> (same: bool)
    ensures
        same == (s@ == word@),
{
    let w = chars_of(word);
    same_text(s, &w)
}

/// Tells whether `s` begins with the literal `word`.
pub fn starts_with_word(s: &Vec<char>, word: &str) -> (b: bool)
    ensures
        b == word@.is_prefix_of(s@),
{
    let w = chars_of(word);
    if w.len() > s.len() {
        return false;
    }
    let mut i: usize = 0;
    while i < w.len()
        invariant
            w.len() <= s.len(),
            i <= w.len(),
            w@ == word@,
            w@.take(i as int) == s@.take(i as int),
        decreases w.len() - i,
    {
        if s[i] != w[i] {
            assert(s@.subrange(0, w@.len() as int)[i as int] != w@[i as int]);
            return false;
        }
        assert(w@.take(i + 1) == w@.take(i as int).push(w@[i as int]));
        assert(s@.take(i + 1) == s@.take(i as int).push(s@[i as int]));
        i += 1;
    }
    assert(w@.take(i as int) == w@);
    assert(s@.take(i as int) == s@.subrange(0, w@.len() as int));
    true
}

/// Reads `s` as a decimal number no greater than `max`.
pub fn parse_number(s: &Vec<char>, max: u64) -> (out: Option<u64>)
    ensures
        out.is_some() == number(s@, max as nat).is_some(),
        out.is_some() ==> out.unwrap() as nat == number(s@, max as nat).unwrap(),
{
    if s.len() == 0 {
        return None;
    }
    let mut acc: u64 = 0;
    let mut i: usize = 0;
    while i < s.len()
        invariant
            i <= s.len(),
            all_digits(s@.take(i as int)),
            acc as nat == decimal(s@.take(i as int)),
            acc <= max,
        decreases s.len() - i,
    {
        let c = s[i];
        proof {
            assert(s@.take(i + 1).drop_last() == s@.take(i as int));
            assert(s@.take(i + 1).last() == c);
            lemma_decimal_prefix(s@, i + 1);
        }
        if !is_digit_char(c) {
            assert(!is_digit(s@[i as int]));
            return None;
        }
        let d: u64 = (c as u64) - ('0' as u64);
        assert(d as nat == digit_value(c));
        if acc > max / 10 {
            return None;
        }
        if d > max - acc * 10 {
            return None;
        }
        acc = acc * 10 + d;
        assert forall|k: int| 0 <= k < s@.take(i + 1).len() implies is_digit(
            #[trigger] s@.take(i + 1)[k],
        ) by {
            if k < i {
                assert(s@.take(i + 1)[k] == s@.take(i as int)[k]);
            }
        }
        i += 1;
    }
    assert(s@.take(i as int) == s@);
    Some(acc)
}

/// Splits `s` into its fields between occurrences of `sep`.
pub fn split_text(s: &Vec<char>, sep: char) -> (parts: Vec<Vec<char>>)
    ensures
        views(parts@) == split(s@, sep),
        parts@.len() >= 1,
{
    let mut parts: Vec<Vec<char>> = Vec::new();
    let mut current: Vec<char> = Vec::new();
    let mut i: usize = 0;
    proof {
        assert(s@.take(0) == Seq::<char>::empty());
        assert(views(parts@).push(current@) == seq![Seq::<char>::empty()]);
    }
    while i < s.len()
        invariant
            i <= s.len(),
            views(parts@).push(current@) == split(s@.take(i as int), sep),
        decreases s.len() - i,
    {
        let c = s[i];
        let ghost before = split(s@.take(i as int), sep);
        let ghost old_parts = views(parts@);
        let ghost old_current = current@;
        proof {
            assert(s@.take(i + 1).drop_last() == s@.take(i as int));
            assert(s@.take(i + 1).last() == c);
            assert(before.drop_last() == old_parts);
            assert(before.last() == old_current);
        }
        if c == sep {
            parts.push(current);
            current = Vec::new();
            assert(views(parts@) == before);
        } else {
            current.push(c);
            assert(views(parts@) == old_parts);
        }
        i += 1;
    }
    assert(s@.take(i as int) == s@);
    let ghost done = views(parts@);
    parts.push(current);
    assert(views(parts@) == done.push(current@));
    parts
}

/// Removes the white space at the end of `s`.
pub fn trim_end(s: Vec<char>) -> (out: Vec<char>)
    ensures
        out@ == trimmed_end(s@),
{
    let mut out = s;
    while out.len() > 0 && is_space_char(out[out.len() - 1])
        invariant
            trimmed_end(out@) == trimmed_end(s@),
        decreases out.len(),
    {
        out.pop();
    }
    out
}

/// Copies `s` without the white space at its start.
pub fn trim_start(s: &Vec<char>) -> (out: Vec<char>)
    ensures
        out@ == trimmed_start(s@),
{
    let mut i: usize = 0;
    assert(s@.subrange(0, s@.len() as int) == s@);
    while i < s.len() && is_space_char(s[i])
        invariant
            i <= s.len(),
            trimmed_start(s@.subrange(i as int, s@.len() as int)) == trimmed_start(s@),
        decreases s.len() - i,
    {
        assert(s@.subrange(i as int, s@.len() as int).drop_first() == s@.subrange(
            i + 1,
            s@.len() as int,
        ));
        i += 1;
    }
    let mut out: Vec<char> = Vec::new();
    let ghost start = i;
    while i < s.len()
        invariant
            start <= i <= s.len(),
            out@ == s@.subrange(start as int, i as int),
        decreases s.len() - i,
    {
        out.push(s[i]);
        assert(s@.subrange(start as int, i + 1) == s@.subrange(start as int, i as int).push(
            s@[i as int],
        ));
        i += 1;
    }
    out
}

/// Appends the characters of `text` to `out`.
pub fn push_text(out: &mut Vec<char>, text: &str)
    ensures
        final(out)@ == old(out)@ + text@,
{
    let mut chars = chars_of(text);
    out.append(&mut chars);
}

} // verus!

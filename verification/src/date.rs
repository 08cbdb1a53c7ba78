//! Calendar dates of nightly builds.
//!
//! A date is a plain (year, month, day) triple. It is held to fixed upper
//! limits only, never to a real calendar: the thirty-first of February is a
//! date here.

use crate::text::{
    all_digits, chars_of, decimal, digit_value, is_digit, lemma_split_append, lemma_split_single,
    number, parse_number, split, split_text, views,
};
use vstd::prelude::*;

verus! {

/// The date that a nightly toolchain was built on.
#[derive(Copy, Clone, Debug, PartialEq, Eq, PartialOrd, Ord, Hash, Structural)]
pub struct Date {
    pub year: u16,
    pub month: u8,
    pub day: u8,
}

/// `String::push` appends one character at the end of the string and leaves
/// the rest of it as it was.
pub assume_specification[ String::push ](s: &mut String, ch: char)
    ensures
        final(s)@ == old(s)@.push(ch),
;

/// The character that stands for a value below ten, and `9` for any other.
pub open spec fn digit_char(d: nat) -> char {
    if d == 0 {
        '0'
    } else if d == 1 {
        '1'
    } else if d == 2 {
        '2'
    } else if d == 3 {
        '3'
    } else if d == 4 {
        '4'
    } else if d == 5 {
        '5'
    } else if d == 6 {
        '6'
    } else if d == 7 {
        '7'
    } else if d == 8 {
        '8'
    } else {
        '9'
    }
}

/// The decimal digits of `n`, most significant first, without leading zeros.
pub open spec fn digits(n: nat) -> Seq<char>
    decreases n,
{
    if n < 10 {
        seq![digit_char(n)]
    } else {
        digits(n / 10).push(digit_char(n % 10))
    }
}

/// The decimal digits of `n`, with zeros in front to a length of at least
/// `width`.
pub open spec fn padded(n: nat, width: nat) -> Seq<char> {
    let d = digits(n);
    if d.len() >= width {
        d
    } else {
        Seq::new((width - d.len()) as nat, |i: int| '0') + d
    }
}

/// The three numbers of a date, if they are within the limits of one.
pub open spec fn date_from(year: nat, month: nat, day: nat) -> Option<Date> {
    if year < 3000 && month <= 12 && day <= 31 {
        Some(Date { year: year as u16, month: month as u8, day: day as u8 })
    } else {
        None
    }
}

/// The date that the literal `s` denotes: three decimal numbers with a `-`
/// between them, for year, month and day, each within its limit.
pub open spec fn date_of(s: Seq<char>) -> Option<Date> {
    let parts = split(s, '-');
    if parts.len() == 3 && number(parts[0], 2999) is Some && number(parts[1], 12) is Some
        && number(parts[2], 31) is Some {
        date_from(
            number(parts[0], 2999)->0,
            number(parts[1], 12)->0,
            number(parts[2], 31)->0,
        )
    } else {
        None
    }
}

impl Date {
    /// The limits that every date of this crate keeps.
    pub open spec fn valid(self) -> bool {
        self.year < 3000 && self.month <= 12 && self.day <= 31
    }

    /// `self` comes before `other`: by year, then by month, then by day.
    pub open spec fn earlier(self, other: Date) -> bool {
        self.year < other.year || (self.year == other.year && (self.month < other.month || (
        self.month == other.month && self.day < other.day)))
    }

    /// The literal form of the date: year, month and day in four, two and two
    /// digits, with a `-` between them.
    pub open spec fn text(self) -> Seq<char> {
        padded(self.year as nat, 4) + seq!['-'] + padded(self.month as nat, 2) + seq!['-'] + padded(
            self.day as nat,
            2,
        )
    }

    /// Tells whether the date is within the limits.
    pub fn is_valid(&self) -> (b: bool)
        ensures
            b == self.valid(),
    {
        self.year < 3000 && self.month <= 12 && self.day <= 31
    }

    /// Tells whether this date comes before `other`.
    pub fn is_earlier(&self, other: &Date) -> (b: bool)
        ensures
            b == self.earlier(*other),
    {
        self.year < other.year || (self.year == other.year && (self.month < other.month || (
        self.month == other.month && self.day < other.day)))
    }

    /// Makes a date of three numbers, unless one of them is beyond its limit.
    pub fn from_numbers(year: u64, month: u64, day: u64) -> (out: Option<Date>)
        ensures
            out == date_from(year as nat, month as nat, day as nat),
    {
        if year < 3000 && month <= 12 && day <= 31 {
            Some(Date { year: year as u16, month: month as u8, day: day as u8 })
        } else {
            None
        }
    }

    /// Reads a date from the characters of its literal form.
    pub fn from_chars(s: &Vec<char>) -> (out: Option<Date>)
        ensures
            out == date_of(s@),
            out is Some ==> out->0.valid(),
    {
        let parts = split_text(s, '-');
        if parts.len() != 3 {
            return None;
        }
        assert(views(parts@)[0] == parts@[0]@);
        assert(views(parts@)[1] == parts@[1]@);
        assert(views(parts@)[2] == parts@[2]@);
        let year = match parse_number(&parts[0], 2999) {
            Some(n) => n,
            None => {
                return None;
            },
        };
        let month = match parse_number(&parts[1], 12) {
            Some(n) => n,
            None => {
                return None;
            },
        };
        let day = match parse_number(&parts[2], 31) {
            Some(n) => n,
            None => {
                return None;
            },
        };
        Date::from_numbers(year, month, day)
    }

    /// Reads a date from its literal form, such as `2019-04-27`.
    pub fn parse(text: &str) -> (out: Option<Date>)
        ensures
            out == date_of(text@),
            out is Some ==> out->0.valid(),
    {
        let chars = chars_of(text);
        Date::from_chars(&chars)
    }

    /// The characters of the literal form.
    pub fn to_chars(&self) -> (out: Vec<char>)
        ensures
            out@ == self.text(),
    {
        let mut out = padded_digits(self.year as u64, 4);
        out.push('-');
        let mut month = padded_digits(self.month as u64, 2);
        out.append(&mut month);
        out.push('-');
        let mut day = padded_digits(self.day as u64, 2);
        out.append(&mut day);
        out
    }

    /// The literal form of the date, such as `2019-04-27`.
    pub fn to_string(&self) -> (out: String)
        ensures
            out@ == self.text(),
    {
        string_of(&self.to_chars())
    }
}

/// The string that holds the characters of `chars`.
pub fn string_of(chars: &Vec<char>) -> (out: String)
    ensures
        out@ == chars@,
{
    let mut out = String::new();
    let mut i: usize = 0;
    while i < chars.len()
        invariant
            i <= chars.len(),
            out@ == chars@.take(i as int),
        decreases chars.len() - i,
    {
        out.push(chars[i]);
        assert(chars@.take(i + 1) == chars@.take(i as int).push(chars@[i as int]));
        i += 1;
    }
    assert(chars@.take(i as int) == chars@);
    out
}

/// The character for a value below ten, and `9` for any other.
pub fn digit_of(d: u64) -> (c: char)
    ensures
        c == digit_char(d as nat),
{
    if d == 0 {
        '0'
    } else if d == 1 {
        '1'
    } else if d == 2 {
        '2'
    } else if d == 3 {
        '3'
    } else if d == 4 {
        '4'
    } else if d == 5 {
        '5'
    } else if d == 6 {
        '6'
    } else if d == 7 {
        '7'
    } else if d == 8 {
        '8'
    } else {
        '9'
    }
}

/// The decimal digits of `n`, without leading zeros.
pub fn digits_of(n: u64) -> (out: Vec<char>)
    ensures
        out@ == digits(n as nat),
    decreases n,
{
    if n < 10 {
        let mut out: Vec<char> = Vec::new();
        out.push(digit_of(n));
        assert(out@ == seq![digit_char(n as nat)]);
        out
    } else {
        let mut out = digits_of(n / 10);
        out.push(digit_of(n % 10));
        out
    }
}

/// The decimal digits of `n`, with zeros in front to at least `width`.
pub fn padded_digits(n: u64, width: usize) -> (out: Vec<char>)
    ensures
        out@ == padded(n as nat, width as nat),
{
    let mut d = digits_of(n);
    if d.len() >= width {
        return d;
    }
    let zeros: usize = width - d.len();
    let mut out: Vec<char> = Vec::new();
    let mut i: usize = 0;
    while i < zeros
        invariant
            i <= zeros,
            out@ == Seq::new(i as nat, |k: int| '0'),
        decreases zeros - i,
    {
        out.push('0');
        assert(out@ == Seq::new((i + 1) as nat, |k: int| '0'));
        i += 1;
    }
    out.append(&mut d);
    out
}

/// The digits of a number are decimal digits, and they denote the number.
pub proof fn lemma_digits(n: nat)
    ensures
        digits(n).len() >= 1,
        all_digits(digits(n)),
        decimal(digits(n)) == n,
    decreases n,
{
    if n < 10 {
        let d = digits(n);
        assert(d.drop_last() == Seq::<char>::empty());
        assert(decimal(d.drop_last()) == 0);
        assert(d.last() == digit_char(n));
        assert(digit_value(digit_char(n)) == n);
    } else {
        lemma_digits(n / 10);
        let d = digits(n);
        let front = digits(n / 10);
        assert(d.drop_last() == front);
        assert(d.last() == digit_char(n % 10));
        assert(digit_value(digit_char(n % 10)) == n % 10);
        assert forall|i: int| 0 <= i < d.len() implies is_digit(#[trigger] d[i]) by {
            if i < front.len() {
                assert(d[i] == front[i]);
            }
        }
    }
}

/// Zeros in front of a run of digits do not change what it denotes.
pub proof fn lemma_decimal_leading_zeros(k: nat, d: Seq<char>)
    ensures
        decimal(Seq::new(k, |i: int| '0') + d) == decimal(d),
    decreases d.len(), k,
{
    let zeros = Seq::new(k, |i: int| '0');
    if d.len() == 0 {
        assert(zeros + d == zeros);
        if k > 0 {
            let fewer = Seq::new((k - 1) as nat, |i: int| '0');
            assert(zeros.drop_last() == fewer);
            assert(fewer + d == fewer);
            lemma_decimal_leading_zeros((k - 1) as nat, d);
            assert(digit_value(zeros.last()) == 0);
        }
    } else {
        lemma_decimal_leading_zeros(k, d.drop_last());
        assert((zeros + d).drop_last() == zeros + d.drop_last());
        assert((zeros + d).last() == d.last());
    }
}

/// The padded digits of a number are decimal digits, and they denote the
/// number.
pub proof fn lemma_padded(n: nat, width: nat)
    ensures
        padded(n, width).len() >= 1,
        all_digits(padded(n, width)),
        !padded(n, width).contains('-'),
        decimal(padded(n, width)) == n,
{
    lemma_digits(n);
    let d = digits(n);
    let p = padded(n, width);
    if d.len() < width {
        let k = (width - d.len()) as nat;
        lemma_decimal_leading_zeros(k, d);
        assert forall|i: int| 0 <= i < p.len() implies is_digit(#[trigger] p[i]) by {
            if i >= k {
                assert(p[i] == d[i - k]);
            }
        }
    }
    assert forall|i: int| 0 <= i < p.len() implies p[i] != '-' by {
        assert(is_digit(p[i]));
    }
}

/// Writing a date within the limits in its literal form and reading that
/// form again gives the same date.
pub proof fn lemma_date_round_trip(d: Date)
    requires
        d.valid(),
    ensures
        date_of(d.text()) == Some(d),
{
    let y = padded(d.year as nat, 4);
    let m = padded(d.month as nat, 2);
    let a = padded(d.day as nat, 2);
    lemma_padded(d.year as nat, 4);
    lemma_padded(d.month as nat, 2);
    lemma_padded(d.day as nat, 2);
    lemma_split_single(y, '-');
    lemma_split_append(y, '-', m);
    lemma_split_append(y + seq!['-'] + m, '-', a);
    assert(split(d.text(), '-') == seq![y, m, a]);
}

} // verus!

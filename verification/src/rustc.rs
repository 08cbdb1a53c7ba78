//! Reading the version that a toolchain reports about itself.
//!
//! The text is what `rustc --version` prints: possibly some lines of
//! warnings, then a line such as
//! `rustc 1.36.0-nightly (938d4ffe1 2019-04-27)`.

use crate::date::{date_of, string_of, Date};
use crate::release::Release;
use crate::text::{
    chars_of, is_word, number, parse_number, split, split_text, starts_with_word, trim_end,
    trim_start, trimmed_end, trimmed_start, views,
};
use crate::version::{Channel, Version};
use vstd::prelude::*;

verus! {

/// Why the toolchain's version could not be had.
#[derive(Debug, PartialEq, Eq)]
pub enum Error {
    /// The toolchain could not be run; holds the reason.
    Exec(String),
    /// What the toolchain printed is not text; holds the reason.
    Utf8(String),
    /// What the toolchain printed is not a version; holds what it printed.
    Parse(String),
}

/// The line of `s` that counts: the last one that is not blank, without the
/// white space around it.
pub open spec fn significant_line(s: Seq<char>) -> Seq<char> {
    trimmed_start(split(trimmed_end(s), '\n').last())
}

/// The release number that the token `1.MINOR` or `1.MINOR.PATCH` denotes.
/// The major version must be 1, a missing patch is 0, and fields after the
/// patch are not looked at.
pub open spec fn release_of(token: Seq<char>) -> Option<Release> {
    let fields = split(token, '.');
    if fields.len() < 2 || fields[0] != seq!['1'] {
        None
    } else if number(fields[1], 0xffff) is None {
        None
    } else if fields.len() == 2 {
        Some(Release { minor: number(fields[1], 0xffff)->0 as u16, patch: 0 })
    } else if number(fields[2], 0xffff) is None {
        None
    } else {
        Some(
            Release {
                minor: number(fields[1], 0xffff)->0 as u16,
                patch: number(fields[2], 0xffff)->0 as u16,
            },
        )
    }
}

/// The channel of a nightly toolchain, from the words that follow its
/// version: none for a dev build, or a commit hash that opens a parenthesis
/// and a date that closes it.
pub open spec fn nightly_channel(tail: Seq<Seq<char>>) -> Option<Channel> {
    if tail.len() == 0 {
        Some(Channel::Dev)
    } else if tail.len() < 2 || tail[0].len() == 0 || tail[0].first() != '(' || tail[1].len() == 0
        || tail[1].last() != ')' {
        None
    } else {
        match date_of(tail[1].drop_last()) {
            Some(date) => Some(Channel::Nightly(date)),
            None => None,
        }
    }
}

/// The channel that the fields of a version token and the words after the
/// token denote. `fields` are the parts of the token between `-`: the
/// release number first, then the channel's name if there is one.
pub open spec fn channel_of(fields: Seq<Seq<char>>, tail: Seq<Seq<char>>) -> Option<Channel> {
    if fields.len() < 2 {
        Some(Channel::Stable)
    } else if fields[1] == "dev"@ {
        Some(Channel::Dev)
    } else if "beta"@.is_prefix_of(fields[1]) {
        Some(Channel::Beta)
    } else if fields[1] == "nightly"@ {
        nightly_channel(tail)
    } else {
        None
    }
}

/// The version that the text `s` reports.
///
/// The words of the line that counts are separated by single blanks. The
/// first word is `rustc` and the second the version token; what follows
/// matters for a nightly only.
pub open spec fn version_of(s: Seq<char>) -> Option<Version> {
    let words = split(significant_line(s), ' ');
    if words.len() < 2 || words[0] != "rustc"@ {
        None
    } else {
        let fields = split(words[1], '-');
        match (release_of(fields[0]), channel_of(fields, words.skip(2))) {
            (Some(release), Some(channel)) => Some(Version { release, channel }),
            _ => None,
        }
    }
}

/// Reads a release number from the token `1.MINOR` or `1.MINOR.PATCH`.
pub fn parse_release(token: &Vec<char>) -> (out: Option<Release>)
    ensures
        out == release_of(token@),
{
    let fields = split_text(token, '.');
    if fields.len() < 2 {
        return None;
    }
    assert(views(fields@)[0] == fields@[0]@);
    assert(views(fields@)[1] == fields@[1]@);
    proof {
        reveal_strlit("1");
        assert("1"@ =~= seq!['1']);
    }
    if !is_word(&fields[0], "1") {
        return None;
    }
    let minor = match parse_number(&fields[1], 0xffff) {
        Some(n) => n,
        None => {
            return None;
        },
    };
    if fields.len() == 2 {
        return Some(Release { minor: minor as u16, patch: 0 });
    }
    assert(views(fields@)[2] == fields@[2]@);
    let patch = match parse_number(&fields[2], 0xffff) {
        Some(n) => n,
        None => {
            return None;
        },
    };
    Some(Release { minor: minor as u16, patch: patch as u16 })
}

/// Reads the channel of a nightly toolchain from `words`, the words of the
/// line, of which the first two are the marker and the version token.
fn parse_nightly_channel(words: &Vec<Vec<char>>) -> (out: Option<Channel>)
    requires
        words@.len() >= 2,
    ensures
        out == nightly_channel(views(words@).skip(2)),
        out is Some && out->0 is Nightly ==> out->0->Nightly_0.valid(),
{
    let ghost tail = views(words@).skip(2);
    if words.len() == 2 {
        return Some(Channel::Dev);
    }
    assert(tail[0] == words@[2]@);
    if words.len() < 4 {
        return None;
    }
    assert(tail[1] == words@[3]@);
    let hash = &words[2];
    let date = &words[3];
    if hash.len() == 0 || hash[0] != '(' {
        return None;
    }
    if date.len() == 0 || date[date.len() - 1] != ')' {
        return None;
    }
    let mut literal: Vec<char> = Vec::new();
    let mut i: usize = 0;
    while i < date.len() - 1
        invariant
            i <= date.len() - 1,
            literal@ == date@.take(i as int),
        decreases date.len() - i,
    {
        literal.push(date[i]);
        assert(date@.take(i + 1) == date@.take(i as int).push(date@[i as int]));
        i += 1;
    }
    assert(literal@ == date@.drop_last());
    match Date::from_chars(&literal) {
        Some(date) => Some(Channel::Nightly(date)),
        None => None,
    }
}

/// Reads the version that the characters `chars` report.
pub fn parse_chars(chars: Vec<char>) -> (out: Option<Version>)
    ensures
        out == version_of(chars@),
{
    let trimmed = trim_end(chars);
    let lines = split_text(&trimmed, '\n');
    assert(views(lines@).last() == lines@[lines@.len() - 1]@);
    let line = trim_start(&lines[lines.len() - 1]);
    let words = split_text(&line, ' ');
    if words.len() < 2 {
        return None;
    }
    assert(views(words@)[0] == words@[0]@);
    assert(views(words@)[1] == words@[1]@);
    if !is_word(&words[0], "rustc") {
        return None;
    }
    let fields = split_text(&words[1], '-');
    assert(views(fields@)[0] == fields@[0]@);
    let release = match parse_release(&fields[0]) {
        Some(release) => release,
        None => {
            return None;
        },
    };
    let channel = if fields.len() < 2 {
        Some(Channel::Stable)
    } else {
        assert(views(fields@)[1] == fields@[1]@);
        if is_word(&fields[1], "dev") {
            Some(Channel::Dev)
        } else if starts_with_word(&fields[1], "beta") {
            Some(Channel::Beta)
        } else if is_word(&fields[1], "nightly") {
            parse_nightly_channel(&words)
        } else {
            None
        }
    };
    match channel {
        Some(channel) => Some(Version { release, channel }),
        None => None,
    }
}

/// Reads the version that a toolchain reports about itself.
///
/// Never fails but by returning an error: a text that is not a version's
/// comes back in [`Error::Parse`].
pub fn parse(text: &str) -> (out: Result<Version, Error>)
    ensures
        match version_of(text@) {
            Some(version) => out == Ok::<Version, Error>(version),
            None => out is Err && out->Err_0 is Parse && out->Err_0->Parse_0@ == text@,
        },
{
    let chars = chars_of(text);
    let copy = string_of(&chars);
    match parse_chars(chars) {
        Some(version) => Ok(version),
        None => Err(Error::Parse(copy)),
    }
}

} // verus!

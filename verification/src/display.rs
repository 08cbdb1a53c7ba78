//! How bounds, selectors and errors are written for people to read.

use crate::bound::Bound;
use crate::constfn::Misplaced;
use crate::date::{digits, digits_of, string_of, Date};
use crate::expand::{Fault, MacroError};
use crate::expr::{EvalError, Expr, Failure, Selector};
use crate::grammar::{Expected, SyntaxError};
use crate::release::ReleaseSelector;
use crate::rustc::Error;
use crate::text::{chars_of, push_text};
use vstd::prelude::*;

verus! {

/// What `{:?}` writes for a text: the text between double quotes, with the
/// characters that cannot stand there as they are written as escapes.
pub uninterp spec fn quoted(text: Seq<char>) -> Seq<char>;

/// The text `text` as `{:?}` writes it, by `format!` and the `Debug` of
/// `str`: the same text gives the same result.
#[verifier::external_body]
fn debug_form(text: &str) -> (out: String)
    ensures
        out@ == quoted(text@),
{
    format!("{:?}", text)
}

impl ReleaseSelector {
    /// The release number as a selector names it: `1.MINOR`, and `.PATCH`
    /// where it names a patch.
    pub open spec fn text(self) -> Seq<char> {
        match self.patch {
            Some(patch) => "1."@ + digits(self.minor as nat) + "."@ + digits(patch as nat),
            None => "1."@ + digits(self.minor as nat),
        }
    }

    /// The characters of the release number.
    pub fn to_chars(&self) -> (out: Vec<char>)
        ensures
            out@ == self.text(),
    {
        let mut out: Vec<char> = Vec::new();
        push_text(&mut out, "1.");
        let mut minor = digits_of(self.minor as u64);
        out.append(&mut minor);
        match self.patch {
            Some(patch) => {
                push_text(&mut out, ".");
                let mut patch = digits_of(patch as u64);
                out.append(&mut patch);
            },
            None => {},
        }
        assert(Seq::<char>::empty() + "1."@ == "1."@);
        out
    }

    /// The release number as a selector names it, such as `1.31`.
    pub fn to_string(&self) -> (out: String)
        ensures
            out@ == self.text(),
    {
        string_of(&self.to_chars())
    }
}

impl Bound {
    /// The bound as a selector names it: a date or a release number.
    pub open spec fn text(self) -> Seq<char> {
        match self {
            Bound::Nightly(date) => date.text(),
            Bound::Stable(release) => release.text(),
        }
    }

    /// The characters of the bound.
    pub fn to_chars(&self) -> (out: Vec<char>)
        ensures
            out@ == self.text(),
    {
        match self {
            Bound::Nightly(date) => date.to_chars(),
            Bound::Stable(release) => release.to_chars(),
        }
    }

    /// The bound as a selector names it, such as `2019-04-27` or `1.31`.
    pub fn to_string(&self) -> (out: String)
        ensures
            out@ == self.text(),
    {
        string_of(&self.to_chars())
    }
}

impl Selector {
    /// The selector as it is written, in the shortest form but for one blank
    /// after each comma.
    pub open spec fn text(self) -> Seq<char>
        decreases self, 0nat,
    {
        match self {
            Selector::Stable => "stable"@,
            Selector::Beta => "beta"@,
            Selector::Nightly => "nightly"@,
            Selector::NightlyDate(date) => "nightly("@ + date.text() + ")"@,
            Selector::Since(bound) => "since("@ + bound.text() + ")"@,
            Selector::Before(bound) => "before("@ + bound.text() + ")"@,
            Selector::ReleaseIs(release) => "stable("@ + release.text() + ")"@,
            Selector::Not(inner) => "not("@ + inner.text() + ")"@,
            Selector::Any(list) => "any("@ + Selector::texts(list, list.len()) + ")"@,
            Selector::All(list) => "all("@ + Selector::texts(list, list.len()) + ")"@,
            Selector::MinVer(bound) => "minver("@ + bound.text() + ")"@,
        }
    }

    /// The first `count` selectors of `list` as they are written, with a
    /// comma and a blank between them.
    pub open spec fn texts(list: Seq<Selector>, count: nat) -> Seq<char>
        decreases list, count,
    {
        if count == 0 || count > list.len() {
            Seq::empty()
        } else if count == 1 {
            list[0].text()
        } else {
            Selector::texts(list, (count - 1) as nat) + ", "@ + list[count - 1].text()
        }
    }
}

impl Expr {
    /// Appends to `out` the selector as it is written.
    pub fn write(&self, out: &mut Vec<char>)
        ensures
            final(out)@ == old(out)@ + self@.text(),
        decreases self, 0nat,
    {
        match self {
            Expr::Stable => push_text(out, "stable"),
            Expr::Beta => push_text(out, "beta"),
            Expr::Nightly => push_text(out, "nightly"),
            Expr::NightlyDate(date) => {
                push_text(out, "nightly(");
                let mut inner = date.to_chars();
                out.append(&mut inner);
                push_text(out, ")");
                assert(out@ == old(out)@ + ("nightly("@ + date.text() + ")"@));
            },
            Expr::Since(bound) => {
                push_text(out, "since(");
                let mut inner = bound.to_chars();
                out.append(&mut inner);
                push_text(out, ")");
                assert(out@ == old(out)@ + ("since("@ + bound.text() + ")"@));
            },
            Expr::Before(bound) => {
                push_text(out, "before(");
                let mut inner = bound.to_chars();
                out.append(&mut inner);
                push_text(out, ")");
                assert(out@ == old(out)@ + ("before("@ + bound.text() + ")"@));
            },
            Expr::ReleaseIs(release) => {
                push_text(out, "stable(");
                let mut inner = release.to_chars();
                out.append(&mut inner);
                push_text(out, ")");
                assert(out@ == old(out)@ + ("stable("@ + release.text() + ")"@));
            },
            Expr::MinVer(bound) => {
                push_text(out, "minver(");
                let mut inner = bound.to_chars();
                out.append(&mut inner);
                push_text(out, ")");
                assert(out@ == old(out)@ + ("minver("@ + bound.text() + ")"@));
            },
            Expr::Not(inner) => {
                push_text(out, "not(");
                inner.write(out);
                push_text(out, ")");
                assert(out@ == old(out)@ + ("not("@ + inner@.text() + ")"@));
            },
            Expr::Any(list) => {
                push_text(out, "any(");
                Expr::write_each(list, out);
                push_text(out, ")");
                assert(out@ == old(out)@ + ("any("@ + Selector::texts(
                    Expr::models(list@),
                    list@.len(),
                ) + ")"@));
            },
            Expr::All(list) => {
                push_text(out, "all(");
                Expr::write_each(list, out);
                push_text(out, ")");
                assert(out@ == old(out)@ + ("all("@ + Selector::texts(
                    Expr::models(list@),
                    list@.len(),
                ) + ")"@));
            },
        }
    }

    /// Appends to `out` the selectors of `list` as they are written, with a
    /// comma and a blank between them.
    fn write_each(list: &Vec<Expr>, out: &mut Vec<char>)
        ensures
            final(out)@ == old(out)@ + Selector::texts(Expr::models(list@), list@.len()),
        decreases list@, list@.len(),
    {
        let ghost models = Expr::models(list@);
        let mut i: usize = 0;
        assert(out@ + Seq::<char>::empty() == out@);
        while i < list.len()
            invariant
                i <= list.len(),
                models == Expr::models(list@),
                out@ == old(out)@ + Selector::texts(models, i as nat),
            decreases list.len() - i,
        {
            let ghost before = Selector::texts(models, i as nat);
            assert(models[i as int] == list@[i as int]@);
            if i > 0 {
                push_text(out, ", ");
            }
            list[i].write(out);
            proof {
                if i > 0 {
                    assert(old(out)@ + before + ", "@ + list@[i as int]@.text() == old(out)@ + (
                    before + ", "@ + list@[i as int]@.text()));
                } else {
                    assert(before == Seq::<char>::empty());
                    assert(old(out)@ + before == old(out)@);
                }
            }
            i += 1;
        }
    }

    /// The characters of the selector as it is written.
    pub fn to_chars(&self) -> (out: Vec<char>)
        ensures
            out@ == self@.text(),
    {
        let mut out: Vec<char> = Vec::new();
        self.write(&mut out);
        assert(Seq::<char>::empty() + self@.text() == self@.text());
        out
    }

    /// The selector as it is written, such as `all(since(1.31), not(beta))`.
    pub fn to_string(&self) -> (out: String)
        ensures
            out@ == self@.text(),
    {
        string_of(&self.to_chars())
    }
}

impl Expected {
    /// What the grammar wanted, in words. `example` is the date that stands
    /// as the example of one.
    pub open spec fn text(self, example: Date) -> Seq<char> {
        match self {
            Expected::Selector =>
                "expected one of: stable, beta, nightly, since, before, not, any, all, minver"@,
            Expected::Date => "expected nightly date, like "@ + example.text(),
            Expected::Release => "expected rustc release number, like 1.31"@,
            Expected::Open => "expected `(`"@,
            Expected::Close => "expected `)`"@,
            Expected::Comma => "expected `,`"@,
            Expected::End => "unexpected token"@,
            Expected::Attribute => "expected one or more attrs"@,
        }
    }
}

impl SyntaxError {
    /// The characters of what the error says.
    pub fn to_chars(&self, example: Date) -> (out: Vec<char>)
        ensures
            out@ == self.expected.text(example),
    {
        match self.expected {
            Expected::Selector => chars_of(
                "expected one of: stable, beta, nightly, since, before, not, any, all, minver",
            ),
            Expected::Date => {
                let mut out = chars_of("expected nightly date, like ");
                let mut date = example.to_chars();
                out.append(&mut date);
                out
            },
            Expected::Release => chars_of("expected rustc release number, like 1.31"),
            Expected::Open => chars_of("expected `(`"),
            Expected::Close => chars_of("expected `)`"),
            Expected::Comma => chars_of("expected `,`"),
            Expected::End => chars_of("unexpected token"),
            Expected::Attribute => chars_of("expected one or more attrs"),
        }
    }

    /// What the error says. Where a date was expected it gives `example` as
    /// the example of one: the caller passes today's date.
    pub fn message(&self, example: Date) -> (out: String)
        ensures
            out@ == self.expected.text(example),
    {
        string_of(&self.to_chars(example))
    }
}

impl Failure {
    /// What the failure says: both bounds of a repeated assertion, or the
    /// selector and the minimum version that makes it pointless.
    pub open spec fn text(self) -> Seq<char> {
        match self {
            Failure::Duplicate { asserted, requested } => "minimum version "@ + requested.text()
                + " asserted after minimum version "@ + asserted.text(),
            Failure::Contradiction { asserted, selector } => "selector "@ + selector.text()
                + " decides nothing under minimum version "@ + asserted.text(),
        }
    }
}

impl EvalError {
    /// The characters of what the error says.
    pub fn to_chars(&self) -> (out: Vec<char>)
        ensures
            out@ == self@.text(),
    {
        match self {
            EvalError::Duplicate { asserted, requested } => {
                let mut out = chars_of("minimum version ");
                let mut second = requested.to_chars();
                out.append(&mut second);
                push_text(&mut out, " asserted after minimum version ");
                let mut first = asserted.to_chars();
                out.append(&mut first);
                out
            },
            EvalError::Contradiction { asserted, selector } => {
                let mut out = chars_of("selector ");
                selector.write(&mut out);
                push_text(&mut out, " decides nothing under minimum version ");
                let mut first = asserted.to_chars();
                out.append(&mut first);
                out
            },
        }
    }

    /// What the error says.
    pub fn message(&self) -> (out: String)
        ensures
            out@ == self@.text(),
    {
        string_of(&self.to_chars())
    }
}

impl Misplaced {
    /// What the error says.
    pub fn message(&self) -> (out: String)
        ensures
            out@ == "only allowed on a fn item"@,
    {
        string_of(&chars_of("only allowed on a fn item"))
    }
}

impl Fault {
    /// What the failure of a macro says.
    pub open spec fn text(self, example: Date) -> Seq<char> {
        match self {
            Fault::Syntax(error) => error.expected.text(example),
            Fault::Eval(failure) => failure.text(),
            Fault::Misplaced => "only allowed on a fn item"@,
        }
    }
}

impl MacroError {
    /// What the error says, with `example` as the example of a date.
    pub fn message(&self, example: Date) -> (out: String)
        ensures
            out@ == self@.text(example),
    {
        match self {
            MacroError::Syntax(error) => error.message(example),
            MacroError::Eval(error) => error.message(),
            MacroError::Misplaced => Misplaced.message(),
        }
    }
}

impl Error {
    /// What the error says.
    pub open spec fn text(self) -> Seq<char> {
        match self {
            Error::Exec(reason) => "failed to run `rustc --version`: "@ + reason@,
            Error::Utf8(reason) => "failed to parse output of `rustc --version`: "@ + reason@,
            Error::Parse(text) => "unexpected output from `rustc --version`, please file an issue: "@
                + quoted(text@),
        }
    }

    /// What the error says.
    pub fn message(&self) -> (out: String)
        ensures
            out@ == self.text(),
    {
        let mut out: Vec<char> = Vec::new();
        match self {
            Error::Exec(reason) => {
                push_text(&mut out, "failed to run `rustc --version`: ");
                push_text(&mut out, reason.as_str());
            },
            Error::Utf8(reason) => {
                push_text(&mut out, "failed to parse output of `rustc --version`: ");
                push_text(&mut out, reason.as_str());
            },
            Error::Parse(text) => {
                push_text(
                    &mut out,
                    "unexpected output from `rustc --version`, please file an issue: ",
                );
                let shown = debug_form(text.as_str());
                push_text(&mut out, shown.as_str());
            },
        }
        assert(out@ == self.text());
        string_of(&out)
    }
}

} // verus!

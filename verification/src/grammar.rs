//! The grammar of the selector language, over the tokens of the lexer.
//!
//! ```text
//! selector := stable | stable ( release ,? )
//!           | beta
//!           | nightly | nightly ( date ,? )
//!           | since ( bound ,? ) | before ( bound ,? ) | minver ( bound ,? )
//!           | not ( selector ,? )
//!           | any ( list ) | all ( list )
//! list     := empty | selector | selector , list
//! bound    := date | release
//! date     := number - number - number
//! release  := 1 . number | 1 . number . number
//! ```
//!
//! The first token decides which rule applies, and a bound is a date where
//! its second token is a `-`. Nothing is tried twice.

use crate::bound::Bound;
use crate::date::{date_from, Date};
use crate::expr::{Expr, Selector};
use crate::lexer::{lex, tokenize, Keyword, Token};
use crate::release::ReleaseSelector;
use vstd::prelude::*;

verus! {

/// What the grammar wanted where it gave up.
#[derive(Copy, Clone, Debug, PartialEq, Eq, Hash, Structural)]
pub enum Expected {
    /// One of the keywords that begin a selector.
    Selector,
    /// A nightly date, year, month and day within their limits.
    Date,
    /// A release number, `1.MINOR` or `1.MINOR.PATCH`.
    Release,
    /// An opening parenthesis.
    Open,
    /// A closing parenthesis.
    Close,
    /// A comma between the selectors of a list.
    Comma,
    /// The end of the selector.
    End,
    /// What to add to the code: one or more attributes, or `const`.
    Attribute,
}

/// A selector that is not one of the language: what was expected, and the
/// index of the token at which it was. An index equal to the number of
/// tokens stands for the end of the input.
#[derive(Copy, Clone, Debug, PartialEq, Eq, Hash, Structural)]
pub struct SyntaxError {
    pub expected: Expected,
    pub at: usize,
}

/// The error of wanting `expected` at token `at`.
pub open spec fn wanted(expected: Expected, at: int) -> SyntaxError {
    SyntaxError { expected, at: at as usize }
}

/// The token at index `i`, if there is one.
pub open spec fn token_at(tokens: Seq<Token>, i: int) -> Option<Token> {
    if 0 <= i < tokens.len() {
        Some(tokens[i])
    } else {
        None
    }
}

/// The value of the number at index `i`, if a number is there.
pub open spec fn number_at(tokens: Seq<Token>, i: int) -> Option<u64> {
    match token_at(tokens, i) {
        Some(Token::Number { value, .. }) => Some(value),
        _ => None,
    }
}

/// The date that the five tokens from index `i` denote.
pub open spec fn date_at(tokens: Seq<Token>, i: int) -> Option<Date> {
    if number_at(tokens, i) is Some && token_at(tokens, i + 1) == Some(Token::Dash) && number_at(
        tokens,
        i + 2,
    ) is Some && token_at(tokens, i + 3) == Some(Token::Dash) && number_at(tokens, i + 4) is Some {
        date_from(
            number_at(tokens, i)->0 as nat,
            number_at(tokens, i + 2)->0 as nat,
            number_at(tokens, i + 4)->0 as nat,
        )
    } else {
        None
    }
}

/// The release number that the tokens from index `i` denote, and the index
/// after it. The major version is the single digit 1. A `.` after the minor
/// version must be followed by the patch.
pub open spec fn release_at(tokens: Seq<Token>, i: int) -> Option<(ReleaseSelector, int)> {
    if token_at(tokens, i) == Some(Token::Number { value: 1, width: 1 }) && token_at(tokens, i + 1)
        == Some(Token::Dot) && number_at(tokens, i + 2) is Some && number_at(tokens, i + 2)->0
        <= 0xffff {
        let minor = number_at(tokens, i + 2)->0 as u16;
        if token_at(tokens, i + 3) == Some(Token::Dot) {
            if number_at(tokens, i + 4) is Some && number_at(tokens, i + 4)->0 <= 0xffff {
                Some(
                    (
                        ReleaseSelector {
                            minor,
                            patch: Some(number_at(tokens, i + 4)->0 as u16),
                        },
                        i + 5,
                    ),
                )
            } else {
                None
            }
        } else {
            Some((ReleaseSelector { minor, patch: None }, i + 3))
        }
    } else {
        None
    }
}

/// The bound that the tokens from index `i` denote, and the index after it:
/// a date where the second token is a `-`, else a release number.
pub open spec fn bound_at(tokens: Seq<Token>, i: int) -> Result<(Bound, int), SyntaxError> {
    if token_at(tokens, i + 1) == Some(Token::Dash) {
        match date_at(tokens, i) {
            Some(date) => Ok((Bound::Nightly(date), i + 5)),
            None => Err(wanted(Expected::Date, i)),
        }
    } else {
        match release_at(tokens, i) {
            Some((release, next)) => Ok((Bound::Stable(release), next)),
            None => Err(wanted(Expected::Release, i)),
        }
    }
}

/// The index after the closing parenthesis that ends an argument at index
/// `i`, with or without a comma before it.
pub open spec fn close_at(tokens: Seq<Token>, i: int) -> Result<int, SyntaxError> {
    let i = if token_at(tokens, i) == Some(Token::Comma) {
        i + 1
    } else {
        i
    };
    if token_at(tokens, i) == Some(Token::Close) {
        Ok(i + 1)
    } else {
        Err(wanted(Expected::Close, i))
    }
}

/// The bound in parentheses from index `i`, and the index after the
/// closing parenthesis.
pub open spec fn argument_at(tokens: Seq<Token>, i: int) -> Result<(Bound, int), SyntaxError> {
    if token_at(tokens, i) != Some(Token::Open) {
        Err(wanted(Expected::Open, i))
    } else {
        match bound_at(tokens, i + 1) {
            Err(error) => Err(error),
            Ok((bound, next)) => match close_at(tokens, next) {
                Err(error) => Err(error),
                Ok(end) => Ok((bound, end)),
            },
        }
    }
}

/// The selector that begins at index `i`, and the index after it.
pub open spec fn selector_at(tokens: Seq<Token>, i: int) -> Result<(Selector, int), SyntaxError>
    decreases tokens.len() - i, 0nat,
{
    match token_at(tokens, i) {
        Some(Token::Word(Keyword::Stable)) => {
            if token_at(tokens, i + 1) != Some(Token::Open) {
                Ok((Selector::Stable, i + 1))
            } else {
                match release_at(tokens, i + 2) {
                    None => Err(wanted(Expected::Release, i + 2)),
                    Some((release, next)) => match close_at(tokens, next) {
                        Err(error) => Err(error),
                        Ok(end) => Ok((Selector::ReleaseIs(release), end)),
                    },
                }
            }
        },
        Some(Token::Word(Keyword::Beta)) => Ok((Selector::Beta, i + 1)),
        Some(Token::Word(Keyword::Nightly)) => {
            if token_at(tokens, i + 1) != Some(Token::Open) {
                Ok((Selector::Nightly, i + 1))
            } else {
                match date_at(tokens, i + 2) {
                    None => Err(wanted(Expected::Date, i + 2)),
                    Some(date) => match close_at(tokens, i + 7) {
                        Err(error) => Err(error),
                        Ok(end) => Ok((Selector::NightlyDate(date), end)),
                    },
                }
            }
        },
        Some(Token::Word(Keyword::Since)) => match argument_at(tokens, i + 1) {
            Err(error) => Err(error),
            Ok((bound, end)) => Ok((Selector::Since(bound), end)),
        },
        Some(Token::Word(Keyword::Before)) => match argument_at(tokens, i + 1) {
            Err(error) => Err(error),
            Ok((bound, end)) => Ok((Selector::Before(bound), end)),
        },
        Some(Token::Word(Keyword::MinVer)) => match argument_at(tokens, i + 1) {
            Err(error) => Err(error),
            Ok((bound, end)) => Ok((Selector::MinVer(bound), end)),
        },
        Some(Token::Word(Keyword::Not)) => {
            if token_at(tokens, i + 1) != Some(Token::Open) {
                Err(wanted(Expected::Open, i + 1))
            } else {
                match selector_at(tokens, i + 2) {
                    Err(error) => Err(error),
                    Ok((inner, next)) => match close_at(tokens, next) {
                        Err(error) => Err(error),
                        Ok(end) => Ok((Selector::Not(Box::new(inner)), end)),
                    },
                }
            }
        },
        Some(Token::Word(Keyword::Any)) => {
            if token_at(tokens, i + 1) != Some(Token::Open) {
                Err(wanted(Expected::Open, i + 1))
            } else {
                match list_at(tokens, i + 2, Seq::empty()) {
                    Err(error) => Err(error),
                    Ok((list, end)) => Ok((Selector::Any(list), end)),
                }
            }
        },
        Some(Token::Word(Keyword::All)) => {
            if token_at(tokens, i + 1) != Some(Token::Open) {
                Err(wanted(Expected::Open, i + 1))
            } else {
                match list_at(tokens, i + 2, Seq::empty()) {
                    Err(error) => Err(error),
                    Ok((list, end)) => Ok((Selector::All(list), end)),
                }
            }
        },
        _ => Err(wanted(Expected::Selector, i)),
    }
}

/// The selectors `found` so far, followed by those of the list that goes on
/// at index `i`, up to its closing parenthesis, and the index after that.
/// The selectors are separated by commas, and a comma may follow the last.
pub open spec fn list_at(tokens: Seq<Token>, i: int, found: Seq<Selector>) -> Result<
    (Seq<Selector>, int),
    SyntaxError,
>
    decreases tokens.len() - i, 1nat,
{
    if token_at(tokens, i) == Some(Token::Close) {
        Ok((found, i + 1))
    } else {
        match selector_at(tokens, i) {
            Err(error) => Err(error),
            Ok((selector, next)) => {
                if token_at(tokens, next) == Some(Token::Close) {
                    Ok((found.push(selector), next + 1))
                } else if token_at(tokens, next) is None {
                    Err(wanted(Expected::Close, next))
                } else if token_at(tokens, next) != Some(Token::Comma) || next <= i {
                    // Only the first reason ever holds: a selector takes at least
                    // one token, so `next` is after `i`.
                    Err(wanted(Expected::Comma, next))
                } else {
                    list_at(tokens, next + 1, found.push(selector))
                }
            },
        }
    }
}

/// The selector that the tokens spell, all of them.
pub open spec fn selector_of(tokens: Seq<Token>) -> Result<Selector, SyntaxError> {
    match selector_at(tokens, 0) {
        Err(error) => Err(error),
        Ok((selector, end)) => {
            if end == tokens.len() {
                Ok(selector)
            } else {
                Err(wanted(Expected::End, end))
            }
        },
    }
}

/// The selector that a text spells.
pub open spec fn selector_in(text: Seq<char>) -> Result<Selector, SyntaxError> {
    selector_of(lex(text))
}

/// A selector takes at least one token and ends within the tokens, and so
/// does a list.
pub proof fn lemma_selector_advances(tokens: Seq<Token>, i: int, found: Seq<Selector>)
    requires
        0 <= i,
    ensures
        match selector_at(tokens, i) {
            Ok((_, next)) => i < next <= tokens.len(),
            Err(_) => true,
        },
        match list_at(tokens, i, found) {
            Ok((_, next)) => i < next <= tokens.len(),
            Err(_) => true,
        },
    decreases tokens.len() - i,
{
    if i < tokens.len() {
        match tokens[i] {
            Token::Word(Keyword::Not) => {
                if token_at(tokens, i + 1) == Some(Token::Open) {
                    lemma_selector_advances(tokens, i + 2, found);
                }
            },
            Token::Word(Keyword::Any) | Token::Word(Keyword::All) => {
                if token_at(tokens, i + 1) == Some(Token::Open) {
                    lemma_selector_advances(tokens, i + 2, Seq::empty());
                }
            },
            _ => {},
        }
        match selector_at(tokens, i) {
            Ok((selector, next)) => {
                if token_at(tokens, next) == Some(Token::Comma) {
                    lemma_selector_advances(tokens, next + 1, found.push(selector));
                }
            },
            Err(_) => {},
        }
    }
}

/// The token `ahead` places after index `i`, if there is one.
fn peek(tokens: &Vec<Token>, i: usize, ahead: usize) -> (out: Option<Token>)
    requires
        i <= tokens.len(),
    ensures
        out == token_at(tokens@, i + ahead),
{
    if ahead < tokens.len() - i {
        Some(tokens[i + ahead])
    } else {
        None
    }
}

/// The value of the number `ahead` places after index `i`.
fn peek_number(tokens: &Vec<Token>, i: usize, ahead: usize) -> (out: Option<u64>)
    requires
        i <= tokens.len(),
    ensures
        out == number_at(tokens@, i + ahead),
{
    match peek(tokens, i, ahead) {
        Some(Token::Number { value, .. }) => Some(value),
        _ => None,
    }
}

/// Tells whether the token `ahead` places after index `i` is `want`.
fn found(tokens: &Vec<Token>, i: usize, ahead: usize, want: Token) -> (b: bool)
    requires
        i <= tokens.len(),
    ensures
        b == (token_at(tokens@, i + ahead) == Some(want)),
        b ==> i + ahead < tokens.len(),
{
    match peek(tokens, i, ahead) {
        Some(token) => token == want,
        None => false,
    }
}

/// Reads a date at index `i`.
fn parse_date(tokens: &Vec<Token>, i: usize) -> (out: Option<Date>)
    requires
        i <= tokens.len(),
    ensures
        out == date_at(tokens@, i as int),
        out is Some ==> i + 5 <= tokens.len() && out->0.valid(),
{
    let year = match peek_number(tokens, i, 0) {
        Some(n) => n,
        None => {
            return None;
        },
    };
    if !found(tokens, i, 1, Token::Dash) {
        return None;
    }
    let month = match peek_number(tokens, i, 2) {
        Some(n) => n,
        None => {
            return None;
        },
    };
    if !found(tokens, i, 3, Token::Dash) {
        return None;
    }
    let day = match peek_number(tokens, i, 4) {
        Some(n) => n,
        None => {
            return None;
        },
    };
    Date::from_numbers(year, month, day)
}

/// Reads a release number at index `i`.
fn parse_release(tokens: &Vec<Token>, i: usize) -> (out: Option<(ReleaseSelector, usize)>)
    requires
        i <= tokens.len(),
    ensures
        match release_at(tokens@, i as int) {
            Some((release, next)) => out == Some((release, next as usize)),
            None => out is None,
        },
        match out {
            Some((_, next)) => i < next <= tokens.len(),
            None => true,
        },
{
    if !found(tokens, i, 0, Token::Number { value: 1, width: 1 }) {
        return None;
    }
    if !found(tokens, i, 1, Token::Dot) {
        return None;
    }
    let minor = match peek_number(tokens, i, 2) {
        Some(n) => n,
        None => {
            return None;
        },
    };
    if minor > 0xffff {
        return None;
    }
    if found(tokens, i, 3, Token::Dot) {
        let patch = match peek_number(tokens, i, 4) {
            Some(n) => n,
            None => {
                return None;
            },
        };
        if patch > 0xffff {
            return None;
        }
        Some((ReleaseSelector { minor: minor as u16, patch: Some(patch as u16) }, i + 5))
    } else {
        Some((ReleaseSelector { minor: minor as u16, patch: None }, i + 3))
    }
}

/// Reads a bound at index `i`.
fn parse_bound(tokens: &Vec<Token>, i: usize) -> (out: Result<(Bound, usize), SyntaxError>)
    requires
        i <= tokens.len(),
    ensures
        match bound_at(tokens@, i as int) {
            Ok((bound, next)) => out == Ok::<(Bound, usize), SyntaxError>((bound, next as usize)),
            Err(error) => out == Err::<(Bound, usize), SyntaxError>(error),
        },
        match out {
            Ok((_, next)) => i < next <= tokens.len(),
            Err(_) => true,
        },
{
    if found(tokens, i, 1, Token::Dash) {
        match parse_date(tokens, i) {
            Some(date) => Ok((Bound::Nightly(date), i + 5)),
            None => Err(SyntaxError { expected: Expected::Date, at: i }),
        }
    } else {
        match parse_release(tokens, i) {
            Some((release, next)) => Ok((Bound::Stable(release), next)),
            None => Err(SyntaxError { expected: Expected::Release, at: i }),
        }
    }
}

/// Reads the end of an argument at index `i`.
fn parse_close(tokens: &Vec<Token>, i: usize) -> (out: Result<usize, SyntaxError>)
    requires
        i <= tokens.len(),
    ensures
        match close_at(tokens@, i as int) {
            Ok(end) => out == Ok::<usize, SyntaxError>(end as usize),
            Err(error) => out == Err::<usize, SyntaxError>(error),
        },
        out is Ok ==> i < out->Ok_0 <= tokens.len(),
{
    let at = if found(tokens, i, 0, Token::Comma) {
        i + 1
    } else {
        i
    };
    if found(tokens, at, 0, Token::Close) {
        Ok(at + 1)
    } else {
        Err(SyntaxError { expected: Expected::Close, at })
    }
}

/// Reads a bound in parentheses at index `i`.
fn parse_argument(tokens: &Vec<Token>, i: usize) -> (out: Result<(Bound, usize), SyntaxError>)
    requires
        i <= tokens.len(),
    ensures
        match argument_at(tokens@, i as int) {
            Ok((bound, end)) => out == Ok::<(Bound, usize), SyntaxError>((bound, end as usize)),
            Err(error) => out == Err::<(Bound, usize), SyntaxError>(error),
        },
        match out {
            Ok((_, next)) => i < next <= tokens.len(),
            Err(_) => true,
        },
{
    if !found(tokens, i, 0, Token::Open) {
        return Err(SyntaxError { expected: Expected::Open, at: i });
    }
    let (bound, next) = match parse_bound(tokens, i + 1) {
        Ok(read) => read,
        Err(error) => {
            return Err(error);
        },
    };
    match parse_close(tokens, next) {
        Ok(end) => Ok((bound, end)),
        Err(error) => Err(error),
    }
}

/// What reading a selector has to yield, given what the grammar says.
pub open spec fn reads(
    out: Result<(Expr, usize), SyntaxError>,
    says: Result<(Selector, int), SyntaxError>,
) -> bool {
    match says {
        Ok((selector, end)) => match out {
            Ok((expr, next)) => expr@ == selector && next == end,
            Err(_) => false,
        },
        Err(error) => out == Err::<(Expr, usize), SyntaxError>(error),
    }
}

/// Reads the selector that begins at index `i`.
fn parse_selector(tokens: &Vec<Token>, i: usize) -> (out: Result<(Expr, usize), SyntaxError>)
    requires
        i <= tokens.len(),
    ensures
        reads(out, selector_at(tokens@, i as int)),
        match out {
            Ok((_, next)) => i < next <= tokens.len(),
            Err(_) => true,
        },
    decreases tokens.len() - i, 0nat,
{
    let word = match peek(tokens, i, 0) {
        Some(Token::Word(word)) => word,
        _ => {
            return Err(SyntaxError { expected: Expected::Selector, at: i });
        },
    };
    match word {
        Keyword::Stable => {
            if !found(tokens, i, 1, Token::Open) {
                return Ok((Expr::Stable, i + 1));
            }
            let (release, next) = match parse_release(tokens, i + 2) {
                Some(read) => read,
                None => {
                    return Err(SyntaxError { expected: Expected::Release, at: i + 2 });
                },
            };
            match parse_close(tokens, next) {
                Ok(end) => Ok((Expr::ReleaseIs(release), end)),
                Err(error) => Err(error),
            }
        },
        Keyword::Beta => Ok((Expr::Beta, i + 1)),
        Keyword::Nightly => {
            if !found(tokens, i, 1, Token::Open) {
                return Ok((Expr::Nightly, i + 1));
            }
            let date = match parse_date(tokens, i + 2) {
                Some(date) => date,
                None => {
                    return Err(SyntaxError { expected: Expected::Date, at: i + 2 });
                },
            };
            match parse_close(tokens, i + 7) {
                Ok(end) => Ok((Expr::NightlyDate(date), end)),
                Err(error) => Err(error),
            }
        },
        Keyword::Since => match parse_argument(tokens, i + 1) {
            Ok((bound, end)) => Ok((Expr::Since(bound), end)),
            Err(error) => Err(error),
        },
        Keyword::Before => match parse_argument(tokens, i + 1) {
            Ok((bound, end)) => Ok((Expr::Before(bound), end)),
            Err(error) => Err(error),
        },
        Keyword::MinVer => match parse_argument(tokens, i + 1) {
            Ok((bound, end)) => Ok((Expr::MinVer(bound), end)),
            Err(error) => Err(error),
        },
        Keyword::Not => {
            if !found(tokens, i, 1, Token::Open) {
                return Err(SyntaxError { expected: Expected::Open, at: i + 1 });
            }
            let (inner, next) = match parse_selector(tokens, i + 2) {
                Ok(read) => read,
                Err(error) => {
                    return Err(error);
                },
            };
            match parse_close(tokens, next) {
                Ok(end) => Ok((Expr::Not(Box::new(inner)), end)),
                Err(error) => Err(error),
            }
        },
        Keyword::Any => {
            if !found(tokens, i, 1, Token::Open) {
                return Err(SyntaxError { expected: Expected::Open, at: i + 1 });
            }
            match parse_list(tokens, i + 2) {
                Ok((list, end)) => Ok((Expr::Any(list), end)),
                Err(error) => Err(error),
            }
        },
        Keyword::All => {
            if !found(tokens, i, 1, Token::Open) {
                return Err(SyntaxError { expected: Expected::Open, at: i + 1 });
            }
            match parse_list(tokens, i + 2) {
                Ok((list, end)) => Ok((Expr::All(list), end)),
                Err(error) => Err(error),
            }
        },
    }
}

/// Reads the list of selectors that begins at index `i`, up to its closing
/// parenthesis.
fn parse_list(tokens: &Vec<Token>, i: usize) -> (out: Result<(Vec<Expr>, usize), SyntaxError>)
    requires
        i <= tokens.len(),
    ensures
        match list_at(tokens@, i as int, Seq::empty()) {
            Ok((list, end)) => match out {
                Ok((exprs, next)) => Expr::models(exprs@) == list && next == end,
                Err(_) => false,
            },
            Err(error) => out == Err::<(Vec<Expr>, usize), SyntaxError>(error),
        },
        match out {
            Ok((_, next)) => i < next <= tokens.len(),
            Err(_) => true,
        },
    decreases tokens.len() - i, 1nat,
{
    let mut list: Vec<Expr> = Vec::new();
    let mut at: usize = i;
    assert(Expr::models(list@) == Seq::<Selector>::empty());
    loop
        invariant
            i <= at <= tokens.len(),
            list_at(tokens@, i as int, Seq::empty()) == list_at(
                tokens@,
                at as int,
                Expr::models(list@),
            ),
        decreases tokens.len() - at,
    {
        if found(tokens, at, 0, Token::Close) {
            return Ok((list, at + 1));
        }
        let (selector, next) = match parse_selector(tokens, at) {
            Ok(read) => read,
            Err(error) => {
                return Err(error);
            },
        };
        let ghost before = Expr::models(list@);
        list.push(selector);
        assert(Expr::models(list@) == before.push(selector@));
        match peek(tokens, next, 0) {
            Some(Token::Close) => {
                return Ok((list, next + 1));
            },
            Some(Token::Comma) => {
                at = next + 1;
            },
            Some(_) => {
                return Err(SyntaxError { expected: Expected::Comma, at: next });
            },
            None => {
                return Err(SyntaxError { expected: Expected::Close, at: next });
            },
        }
    }
}

impl Expr {
    /// Reads a selector from its tokens. All of them must belong to it.
    pub fn from_tokens(tokens: &Vec<Token>) -> (out: Result<Expr, SyntaxError>)
        ensures
            match selector_of(tokens@) {
                Ok(selector) => out is Ok && out->Ok_0@ == selector,
                Err(error) => out == Err::<Expr, SyntaxError>(error),
            },
    {
        match parse_selector(tokens, 0) {
            Ok((selector, end)) => {
                if end == tokens.len() {
                    Ok(selector)
                } else {
                    Err(SyntaxError { expected: Expected::End, at: end })
                }
            },
            Err(error) => Err(error),
        }
    }

    /// Reads a selector from its text, such as `all(since(1.31), not(beta))`.
    pub fn parse(text: &str) -> (out: Result<Expr, SyntaxError>)
        ensures
            match selector_in(text@) {
                Ok(selector) => out is Ok && out->Ok_0@ == selector,
                Err(error) => out == Err::<Expr, SyntaxError>(error),
            },
    {
        let tokens = tokenize(text);
        Expr::from_tokens(&tokens)
    }
}

} // verus!

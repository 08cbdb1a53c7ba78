use rustversion::bound::Bound;
use rustversion::date::Date;
use rustversion::expr::{Checker, EvalError, Expr};
use rustversion::grammar::{Expected, SyntaxError};
use rustversion::lexer::{tokenize, Keyword, Token};
use rustversion::release::{Release, ReleaseSelector};
use rustversion::version::{Channel, Version};

fn date(year: u16, month: u8, day: u8) -> Date {
    Date { year, month, day }
}

fn release(minor: u16) -> Bound {
    Bound::Stable(ReleaseSelector { minor, patch: None })
}

fn version(minor: u16, patch: u16, channel: Channel) -> Version {
    Version {
        release: Release { minor, patch },
        channel,
    }
}

fn eval(text: &str, rustc: Version) -> Result<bool, EvalError> {
    let expr = Expr::parse(text).unwrap();
    expr.eval(rustc, &mut Checker::new())
}

#[test]
fn tokens_of_a_selector() {
    assert_eq!(
        tokenize("all(since(1.31), before ( 2019-01-07 ))"),
        vec![
            Token::Word(Keyword::All),
            Token::Open,
            Token::Word(Keyword::Since),
            Token::Open,
            Token::Number { value: 1, width: 1 },
            Token::Dot,
            Token::Number { value: 31, width: 2 },
            Token::Close,
            Token::Comma,
            Token::Word(Keyword::Before),
            Token::Open,
            Token::Number { value: 2019, width: 4 },
            Token::Dash,
            Token::Number { value: 1, width: 2 },
            Token::Dash,
            Token::Number { value: 7, width: 2 },
            Token::Close,
            Token::Close,
        ]
    );
}

#[test]
fn tokens_that_are_none() {
    assert_eq!(
        tokenize("stables x1 + 99999999999999999999 minver"),
        vec![
            Token::Unknown,
            Token::Unknown,
            Token::Unknown,
            Token::Unknown,
            Token::Word(Keyword::MinVer),
        ]
    );
    assert_eq!(tokenize(" \t\n"), vec![]);
    assert_eq!(
        tokenize("18446744073709551615"),
        vec![Token::Number {
            value: u64::MAX,
            width: 20
        }]
    );
    assert_eq!(tokenize("18446744073709551616"), vec![Token::Unknown]);
}

#[test]
fn parses_every_kind_of_selector() {
    assert_eq!(Expr::parse("stable"), Ok(Expr::Stable));
    assert_eq!(Expr::parse("beta"), Ok(Expr::Beta));
    assert_eq!(Expr::parse("nightly"), Ok(Expr::Nightly));
    assert_eq!(
        Expr::parse("nightly(2019-01-01)"),
        Ok(Expr::NightlyDate(date(2019, 1, 1)))
    );
    assert_eq!(
        Expr::parse("stable(1.34)"),
        Ok(Expr::ReleaseIs(ReleaseSelector {
            minor: 34,
            patch: None
        }))
    );
    assert_eq!(
        Expr::parse("stable(1.34.2,)"),
        Ok(Expr::ReleaseIs(ReleaseSelector {
            minor: 34,
            patch: Some(2)
        }))
    );
    assert_eq!(Expr::parse("since(1.31)"), Ok(Expr::Since(release(31))));
    assert_eq!(
        Expr::parse("since(2019-01-01)"),
        Ok(Expr::Since(Bound::Nightly(date(2019, 1, 1))))
    );
    assert_eq!(Expr::parse("before(1.34)"), Ok(Expr::Before(release(34))));
    assert_eq!(Expr::parse("minver(1.40)"), Ok(Expr::MinVer(release(40))));
    assert_eq!(
        Expr::parse("not(nightly)"),
        Ok(Expr::Not(Box::new(Expr::Nightly)))
    );
    assert_eq!(
        Expr::parse("any(stable, beta)"),
        Ok(Expr::Any(vec![Expr::Stable, Expr::Beta]))
    );
    assert_eq!(
        Expr::parse("all(since(1.31), before(1.34),)"),
        Ok(Expr::All(vec![
            Expr::Since(release(31)),
            Expr::Before(release(34))
        ]))
    );
    assert_eq!(Expr::parse("any()"), Ok(Expr::Any(vec![])));
    assert_eq!(Expr::parse("all()"), Ok(Expr::All(vec![])));
    assert_eq!(
        Expr::parse("not(any(all(), not(beta)))"),
        Ok(Expr::Not(Box::new(Expr::Any(vec![
            Expr::All(vec![]),
            Expr::Not(Box::new(Expr::Beta))
        ]))))
    );
}

fn error(expected: Expected, at: usize) -> Result<Expr, SyntaxError> {
    Err(SyntaxError { expected, at })
}

#[test]
fn rejects_what_is_no_selector() {
    assert_eq!(Expr::parse(""), error(Expected::Selector, 0));
    assert_eq!(Expr::parse("stabel"), error(Expected::Selector, 0));
    assert_eq!(Expr::parse("since_date(2019-01-01)"), error(Expected::Selector, 0));
    assert_eq!(Expr::parse("1.31"), error(Expected::Selector, 0));
    assert_eq!(Expr::parse("since"), error(Expected::Open, 1));
    assert_eq!(Expr::parse("not nightly"), error(Expected::Open, 1));
    assert_eq!(Expr::parse("any"), error(Expected::Open, 1));
    assert_eq!(Expr::parse("since(2.31)"), error(Expected::Release, 2));
    assert_eq!(Expr::parse("since(01.31)"), error(Expected::Release, 2));
    assert_eq!(Expr::parse("since(1.31.)"), error(Expected::Release, 2));
    assert_eq!(Expr::parse("since(1.65536)"), error(Expected::Release, 2));
    assert_eq!(Expr::parse("stable(2019-01-01)"), error(Expected::Release, 2));
    assert_eq!(Expr::parse("since(3000-01-01)"), error(Expected::Date, 2));
    assert_eq!(Expr::parse("since(2019-13-01)"), error(Expected::Date, 2));
    assert_eq!(Expr::parse("since(2019-12-32)"), error(Expected::Date, 2));
    assert_eq!(Expr::parse("since(2019-x-01)"), error(Expected::Date, 2));
    assert_eq!(Expr::parse("nightly(1.31)"), error(Expected::Date, 2));
    assert_eq!(Expr::parse("since(1.31"), error(Expected::Close, 5));
    assert_eq!(Expr::parse("since(1.31 beta)"), error(Expected::Close, 5));
    assert_eq!(Expr::parse("any(stable beta)"), error(Expected::Comma, 3));
    assert_eq!(Expr::parse("any(stable,"), error(Expected::Selector, 4));
    assert_eq!(Expr::parse("any(stable"), error(Expected::Close, 3));
    assert_eq!(Expr::parse("any(,)"), error(Expected::Selector, 2));
    assert_eq!(Expr::parse("stable beta"), error(Expected::End, 1));
    assert_eq!(Expr::parse("beta(1.31)"), error(Expected::End, 1));
}

#[test]
fn accepts_the_largest_numbers() {
    assert_eq!(
        Expr::parse("since(1.65535.65535)"),
        Ok(Expr::Since(Bound::Stable(ReleaseSelector {
            minor: 65535,
            patch: Some(65535)
        })))
    );
    assert_eq!(
        Expr::parse("nightly(2999-12-31)"),
        Ok(Expr::NightlyDate(date(2999, 12, 31)))
    );
    assert_eq!(
        Expr::parse("nightly(0-0-0)"),
        Ok(Expr::NightlyDate(date(0, 0, 0)))
    );
}

#[test]
fn channels() {
    let nightly = Channel::Nightly(date(2019, 4, 27));
    assert_eq!(eval("stable", version(35, 0, Channel::Stable)), Ok(true));
    assert_eq!(eval("stable", version(35, 0, Channel::Beta)), Ok(false));
    assert_eq!(eval("beta", version(35, 0, Channel::Beta)), Ok(true));
    assert_eq!(eval("beta", version(35, 0, nightly)), Ok(false));
    assert_eq!(eval("nightly", version(35, 0, nightly)), Ok(true));
    assert_eq!(eval("nightly", version(35, 0, Channel::Dev)), Ok(true));
    assert_eq!(eval("nightly", version(35, 0, Channel::Stable)), Ok(false));
    assert_eq!(eval("nightly(2019-04-27)", version(35, 0, nightly)), Ok(true));
    assert_eq!(eval("nightly(2019-04-28)", version(35, 0, nightly)), Ok(false));
    assert_eq!(
        eval("nightly(2019-04-27)", version(35, 0, Channel::Dev)),
        Ok(false)
    );
}

#[test]
fn since_a_release_goes_by_the_release_number() {
    let nightly = Channel::Nightly(date(2019, 4, 27));
    assert_eq!(eval("since(1.31)", version(33, 0, Channel::Beta)), Ok(true));
    for channel in [Channel::Stable, Channel::Beta, nightly, Channel::Dev] {
        assert_eq!(eval("since(1.33)", version(33, 0, channel)), Ok(true));
        assert_eq!(eval("since(1.33.0)", version(33, 0, channel)), Ok(true));
        assert_eq!(eval("since(1.33.1)", version(33, 0, channel)), Ok(false));
        assert_eq!(eval("before(1.33.1)", version(33, 0, channel)), Ok(true));
        assert_eq!(eval("before(1.33)", version(33, 7, channel)), Ok(false));
        assert_eq!(
            eval("stable(1.33)", version(33, 0, channel)),
            Ok(channel == Channel::Stable)
        );
    }
    assert_eq!(eval("stable(1.33)", version(33, 9, Channel::Stable)), Ok(true));
    assert_eq!(eval("stable(1.33.1)", version(33, 9, Channel::Stable)), Ok(false));
    assert_eq!(eval("stable(1.33.9)", version(33, 9, Channel::Stable)), Ok(true));
    assert_eq!(eval("stable(1.34)", version(33, 9, Channel::Stable)), Ok(false));
}

#[test]
fn since_a_date_goes_by_the_channel() {
    let on = |year, month, day| version(36, 0, Channel::Nightly(date(year, month, day)));
    assert_eq!(eval("before(2019-01-01)", version(36, 0, Channel::Stable)), Ok(true));
    assert_eq!(eval("before(2019-01-01)", version(36, 0, Channel::Beta)), Ok(true));
    assert_eq!(eval("since(2019-01-01)", version(36, 0, Channel::Stable)), Ok(false));
    assert_eq!(eval("since(2019-01-01)", version(36, 0, Channel::Dev)), Ok(true));
    assert_eq!(eval("before(2999-12-31)", version(36, 0, Channel::Dev)), Ok(false));
    assert_eq!(eval("since(2019-01-01)", on(2019, 1, 1)), Ok(true));
    assert_eq!(eval("since(2019-01-01)", on(2018, 12, 31)), Ok(false));
    assert_eq!(eval("since(2019-01-01)", on(2019, 1, 2)), Ok(true));
    assert_eq!(eval("before(2019-01-01)", on(2018, 12, 31)), Ok(true));
    assert_eq!(eval("before(2019-02-01)", on(2019, 1, 31)), Ok(true));
    assert_eq!(eval("before(2019-01-01)", on(2019, 1, 1)), Ok(false));
}

#[test]
fn combinations() {
    let text = "all(since(1.31), before(1.34))";
    assert_eq!(eval(text, version(33, 0, Channel::Stable)), Ok(true));
    assert_eq!(eval(text, version(34, 0, Channel::Stable)), Ok(false));
    assert_eq!(eval(text, version(30, 9, Channel::Stable)), Ok(false));
    assert_eq!(eval("all()", version(30, 0, Channel::Stable)), Ok(true));
    assert_eq!(eval("any()", version(30, 0, Channel::Stable)), Ok(false));
    assert_eq!(eval("any(stable, beta)", version(30, 0, Channel::Beta)), Ok(true));
    assert_eq!(eval("any(stable, beta)", version(30, 0, Channel::Dev)), Ok(false));
    assert_eq!(eval("not(nightly)", version(30, 0, Channel::Dev)), Ok(false));
    assert_eq!(eval("not(nightly)", version(30, 0, Channel::Beta)), Ok(true));
    assert_eq!(eval("not(not(beta))", version(30, 0, Channel::Beta)), Ok(true));
}

#[test]
fn a_second_minimum_version_is_refused() {
    let rustc = version(45, 0, Channel::Stable);
    let mut checker = Checker::new();
    assert_eq!(checker.minimum(), None);
    let first = Expr::parse("minver(1.40)").unwrap();
    let second = Expr::parse("minver(1.41)").unwrap();
    assert_eq!(first.eval(rustc, &mut checker), Ok(true));
    assert_eq!(checker.minimum(), Some(release(40)));
    assert_eq!(
        second.eval(rustc, &mut checker),
        Err(EvalError::Duplicate {
            asserted: release(40),
            requested: release(41)
        })
    );
    assert_eq!(checker.minimum(), Some(release(40)));
    assert_eq!(
        first.eval(rustc, &mut checker),
        Err(EvalError::Duplicate {
            asserted: release(40),
            requested: release(40)
        })
    );
}

fn under(minimum: &str, text: &str, rustc: Version) -> Result<bool, EvalError> {
    let mut checker = Checker::new();
    let assertion = Expr::parse(minimum).unwrap();
    assert_eq!(assertion.eval(rustc, &mut checker), Ok(true));
    Expr::parse(text).unwrap().eval(rustc, &mut checker)
}

fn contradiction(asserted: Bound, selector: Expr) -> Result<bool, EvalError> {
    Err(EvalError::Contradiction { asserted, selector })
}

#[test]
fn stable_contradicts_a_nightly_minimum() {
    let floor = Bound::Nightly(date(2020, 1, 1));
    let rustc = version(42, 0, Channel::Nightly(date(2020, 2, 2)));
    assert_eq!(
        under("minver(2020-01-01)", "stable", rustc),
        contradiction(floor, Expr::Stable)
    );
    assert_eq!(
        under("minver(2020-01-01)", "beta", rustc),
        contradiction(floor, Expr::Beta)
    );
    assert_eq!(
        under("minver(2020-01-01)", "stable(1.50)", rustc),
        contradiction(
            floor,
            Expr::ReleaseIs(ReleaseSelector {
                minor: 50,
                patch: None
            })
        )
    );
    assert_eq!(under("minver(2020-01-01)", "nightly", rustc), Ok(true));
    assert_eq!(under("minver(1.40)", "stable", rustc), Ok(false));
    assert_eq!(under("minver(1.40)", "beta", rustc), Ok(false));
}

#[test]
fn selectors_below_the_minimum_are_contradictions() {
    let rustc = version(42, 0, Channel::Nightly(date(2020, 2, 2)));
    let floor = Bound::Nightly(date(2020, 1, 1));
    assert_eq!(
        under("minver(2020-01-01)", "nightly(2019-12-31)", rustc),
        contradiction(floor, Expr::NightlyDate(date(2019, 12, 31)))
    );
    assert_eq!(under("minver(2020-01-01)", "nightly(2020-01-01)", rustc), Ok(false));
    assert_eq!(under("minver(2020-01-01)", "nightly(2020-02-02)", rustc), Ok(true));
    assert_eq!(under("minver(1.40)", "nightly(2019-12-31)", rustc), Ok(false));
    assert_eq!(
        under("minver(2020-01-01)", "since(2019-12-31)", rustc),
        contradiction(floor, Expr::Since(Bound::Nightly(date(2019, 12, 31))))
    );
    assert_eq!(
        under("minver(2020-01-01)", "before(1.99)", rustc),
        contradiction(floor, Expr::Before(release(99)))
    );
    assert_eq!(under("minver(2020-01-01)", "since(2020-01-01)", rustc), Ok(true));
    assert_eq!(
        under("minver(1.40)", "since(1.39)", rustc),
        contradiction(release(40), Expr::Since(release(39)))
    );
    assert_eq!(
        under("minver(1.40.1)", "before(1.40)", rustc),
        contradiction(
            Bound::Stable(ReleaseSelector {
                minor: 40,
                patch: Some(1)
            }),
            Expr::Before(release(40))
        )
    );
    assert_eq!(under("minver(1.40)", "since(1.40.0)", rustc), Ok(true));
    assert_eq!(under("minver(1.40)", "before(2020-01-01)", rustc), Ok(false));
    assert_eq!(
        under("minver(1.40)", "stable(1.39)", rustc),
        contradiction(
            release(40),
            Expr::ReleaseIs(ReleaseSelector {
                minor: 39,
                patch: None
            })
        )
    );
    assert_eq!(under("minver(1.40)", "stable(1.40)", rustc), Ok(false));
}

#[test]
fn nothing_is_skipped_in_a_list() {
    let rustc = version(42, 0, Channel::Stable);
    let mut checker = Checker::new();
    let expr = Expr::parse("any(stable, minver(1.40))").unwrap();
    assert_eq!(expr.eval(rustc, &mut checker), Ok(true));
    assert_eq!(checker.minimum(), Some(release(40)));

    let mut checker = Checker::new();
    let expr = Expr::parse("all(beta, minver(1.40), since(1.39), stable)").unwrap();
    assert_eq!(
        expr.eval(rustc, &mut checker),
        contradiction(release(40), Expr::Since(release(39)))
    );
    assert_eq!(checker.minimum(), Some(release(40)));

    let mut checker = Checker::new();
    let expr = Expr::parse("not(minver(2020-01-01))").unwrap();
    assert_eq!(expr.eval(rustc, &mut checker), Ok(false));
    assert_eq!(checker.minimum(), Some(Bound::Nightly(date(2020, 1, 1))));
}

use rustversion::date::Date;
use rustversion::release::Release;
use rustversion::rustc::{parse, Error};
use rustversion::version::Channel::{Beta, Dev, Nightly, Stable};
use rustversion::version::Version;

fn version(minor: u16, patch: u16, channel: rustversion::version::Channel) -> Version {
    Version {
        release: Release { minor, patch },
        channel,
    }
}

#[test]
fn rustc_test_parse() {
    let cases = vec![
        (
            "rustc 1.0.0 (a59de37e9 2015-05-13) (built 2015-05-14)",
            version(0, 0, Stable),
        ),
        ("rustc 1.18.0", version(18, 0, Stable)),
        ("rustc 1.24.1 (d3ae9a9e0 2018-02-27)", version(24, 1, Stable)),
        (
            "rustc 1.35.0-beta.3 (c13114dc8 2019-04-27)",
            version(35, 0, Beta),
        ),
        (
            "rustc 1.36.0-nightly (938d4ffe1 2019-04-27)",
            version(
                36,
                0,
                Nightly(Date {
                    year: 2019,
                    month: 4,
                    day: 27,
                }),
            ),
        ),
        ("rustc 1.36.0-dev", version(36, 0, Dev)),
        ("rustc 1.36.0-nightly", version(36, 0, Dev)),
        (
            "warning: invalid logging spec 'warning', ignoring it
             rustc 1.30.0-nightly (3bc2ca7e4 2018-09-20)",
            version(
                30,
                0,
                Nightly(Date {
                    year: 2018,
                    month: 9,
                    day: 20,
                }),
            ),
        ),
    ];

    for (string, expected) in cases {
        assert_eq!(parse(string).unwrap(), expected);
    }
}

#[test]
fn test_parse() {
    let cases = vec![
        (
            "rustc 1.0.0 (a59de37e9 2015-05-13) (built 2015-05-14)",
            version(0, 0, Stable),
        ),
        ("rustc 1.18.0", version(18, 0, Stable)),
        ("rustc 1.24.1 (d3ae9a9e0 2018-02-27)", version(24, 1, Stable)),
        (
            "rustc 1.35.0-beta.3 (c13114dc8 2019-04-27)",
            version(35, 0, Beta),
        ),
        (
            "rustc 1.36.0-nightly (938d4ffe1 2019-04-27)",
            version(
                36,
                0,
                Nightly(Date {
                    year: 2019,
                    month: 4,
                    day: 27,
                }),
            ),
        ),
        ("rustc 1.36.0-dev", version(36, 0, Dev)),
        ("rustc 1.36.0-nightly", version(36, 0, Dev)),
        (
            "warning: invalid logging spec 'warning', ignoring it
             rustc 1.30.0-nightly (3bc2ca7e4 2018-09-20)",
            version(
                30,
                0,
                Nightly(Date {
                    year: 2018,
                    month: 9,
                    day: 20,
                }),
            ),
        ),
    ];

    for (string, expected) in cases {
        assert_eq!(parse(string).unwrap(), expected);
    }
}

#[test]
fn parse_keeps_the_text_of_what_it_rejects() {
    assert_eq!(
        parse("cargo 1.40.0"),
        Err(Error::Parse(String::from("cargo 1.40.0")))
    );
}

#[test]
fn parse_reads_the_last_line_only() {
    let text = "rustc 1.40.0 (73528e339 2019-12-16)\nhost: x86_64-unknown-linux-gnu";
    assert_eq!(parse(text), Err(Error::Parse(String::from(text))));
    assert_eq!(
        parse("host: x86_64-unknown-linux-gnu\nrustc 1.40.0 (73528e339 2019-12-16)\n\n  \n"),
        Ok(version(40, 0, Stable))
    );
}

fn rejected(text: &str) {
    assert_eq!(parse(text), Err(Error::Parse(String::from(text))));
}

#[test]
fn parse_answers_every_text() {
    for text in [
        "",
        " ",
        "\n",
        "\n\n\t \r\n",
        "rustc",
        "rustc ",
        "rustc  1.40.0",
        "rustc\t1.40.0",
        "rustc 1",
        "rustc 1.",
        "rustc 1.x",
        "rustc 1.40.x",
        "rustc 1.-4",
        "rustc 1.+4",
        "rustc 1.65536.0",
        "rustc 1.0.65536",
        "rustc 1.99999999999999999999999999999.0",
        "rustc 2.0.0",
        "rustc 01.40.0",
        "rustc .1.40.0",
        "Rustc 1.40.0",
        "rustc1.40.0",
        "rustc 1.40.0-",
        "rustc 1.40.0-stable",
        "rustc 1.40.0-nightlyx",
        "rustc 1.40.0-Nightly",
        "rustc 1.40.0-nightly (",
        "rustc 1.40.0-nightly (c13114dc8",
        "rustc 1.40.0-nightly c13114dc8 2019-04-27)",
        "rustc 1.40.0-nightly (c13114dc8 2019-04-27",
        "rustc 1.40.0-nightly (c13114dc8 2019-04-27) ",
        "rustc 1.40.0-nightly (c13114dc8  2019-04-27)",
        "rustc 1.40.0-nightly (c13114dc8 2019-04-27)x",
        "rustc 1.40.0-nightly (c13114dc8 2019-04-27-1)",
        "rustc 1.40.0-nightly (c13114dc8 2019-04)",
        "rustc 1.40.0-nightly (c13114dc8 2019-13-01)",
        "rustc 1.40.0-nightly (c13114dc8 2019-12-32)",
        "rustc 1.40.0-nightly (c13114dc8 3000-01-01)",
        "rustc 1.40.0-nightly (c13114dc8 )",
        "rustc 1.40.0-nightly ( )",
        "\u{feff}rustc 1.40.0",
        "rustc 1.40.0\u{a0}",
        "r\u{fc}stc 1.40.0 \u{1f980}",
        "rustc 1.40.0\nwarning: done",
    ] {
        match parse(text) {
            Ok(version) => assert!(
                text == "rustc 1.40.0-nightly (c13114dc8 2019-04-27) ",
                "{:?} gave {:?}",
                text,
                version
            ),
            Err(error) => assert_eq!(error, Error::Parse(String::from(text))),
        }
    }
}

#[test]
fn a_missing_patch_is_zero() {
    assert_eq!(parse("rustc 1.18"), Ok(version(18, 0, Stable)));
    assert_eq!(parse("rustc 1.18-beta"), Ok(version(18, 0, Beta)));
    assert_eq!(parse("rustc 1.65535.65535"), Ok(version(65535, 65535, Stable)));
    assert_eq!(parse("rustc 1.018.007"), Ok(version(18, 7, Stable)));
}

#[test]
fn what_follows_the_patch_is_not_looked_at() {
    assert_eq!(parse("rustc 1.18.2.9"), Ok(version(18, 2, Stable)));
    assert_eq!(parse("rustc 1.18.2.x"), Ok(version(18, 2, Stable)));
    assert_eq!(parse("rustc 1.18.2-beta-x"), Ok(version(18, 2, Beta)));
    assert_eq!(parse("rustc 1.18.2-dev extra words"), Ok(version(18, 2, Dev)));
    assert_eq!(parse("rustc 1.18.2 (anything"), Ok(version(18, 2, Stable)));
}

#[test]
fn the_major_version_is_one() {
    rejected("rustc 2.18.0");
    rejected("rustc 0.18.0");
    rejected("rustc 11.18.0");
    rejected("rustc 18");
}

#[test]
fn the_channel_is_one_of_four() {
    assert_eq!(parse("rustc 1.35.0-beta"), Ok(version(35, 0, Beta)));
    assert_eq!(parse("rustc 1.35.0-beta.3"), Ok(version(35, 0, Beta)));
    assert_eq!(parse("rustc 1.35.0-betamax"), Ok(version(35, 0, Beta)));
    assert_eq!(parse("rustc 1.35.0-dev"), Ok(version(35, 0, Dev)));
    rejected("rustc 1.35.0-dev.1");
    rejected("rustc 1.35.0-alpha");
    rejected("rustc 1.35.0-bet");
    rejected("rustc 1.35.0-nightly.1");
}

#[test]
fn a_nightly_has_a_date_or_is_a_dev_build() {
    let nightly = |year, month, day| Nightly(Date { year, month, day });
    assert_eq!(parse("rustc 1.36.0-nightly"), Ok(version(36, 0, Dev)));
    assert_eq!(parse("  rustc 1.36.0-nightly \n"), Ok(version(36, 0, Dev)));
    assert_eq!(
        parse("rustc 1.36.0-nightly (938d4ffe1 2019-04-27)"),
        Ok(version(36, 0, nightly(2019, 4, 27)))
    );
    assert_eq!(
        parse("rustc 1.36.0-nightly (938d4ffe1 2019-04-27) (built 2019-04-28) more"),
        Ok(version(36, 0, nightly(2019, 4, 27)))
    );
    assert_eq!(
        parse("rustc 1.36.0-nightly ( 2999-12-31)"),
        Ok(version(36, 0, nightly(2999, 12, 31)))
    );
    assert_eq!(
        parse("rustc 1.36.0-nightly (938d4ffe1 0-0-0)"),
        Ok(version(36, 0, nightly(0, 0, 0)))
    );
    rejected("rustc 1.36.0-nightly (938d4ffe1");
    rejected("rustc 1.36.0-nightly 938d4ffe1 2019-04-27)");
    rejected("rustc 1.36.0-nightly (938d4ffe1 2019-04-27");
    rejected("rustc 1.36.0-nightly (938d4ffe1 2019-04-27))");
    rejected("rustc 1.36.0-nightly (938d4ffe1 2019-04-31x)");
}

use rustversion::bound::{Bound, Order};
use rustversion::date::Date;
use rustversion::release::{Release, ReleaseSelector};
use rustversion::version::{Channel, Version};

fn date(year: u16, month: u8, day: u8) -> Date {
    Date { year, month, day }
}

#[test]
fn a_date_is_written_in_ten_characters() {
    assert_eq!(date(2019, 4, 27).to_string(), "2019-04-27");
    assert_eq!(date(0, 0, 0).to_string(), "0000-00-00");
    assert_eq!(date(2999, 12, 31).to_string(), "2999-12-31");
    assert_eq!(date(33, 1, 9).to_string(), "0033-01-09");
}

#[test]
fn a_date_beyond_the_limits_is_written_in_full() {
    assert_eq!(date(65535, 255, 100).to_string(), "65535-255-100");
}

#[test]
fn a_date_is_read_from_its_literal_form() {
    assert_eq!(Date::parse("2019-04-27"), Some(date(2019, 4, 27)));
    assert_eq!(Date::parse("2019-4-27"), Some(date(2019, 4, 27)));
    assert_eq!(Date::parse("0002019-004-0027"), Some(date(2019, 4, 27)));
    assert_eq!(Date::parse("2999-12-31"), Some(date(2999, 12, 31)));
    assert_eq!(Date::parse("3000-01-01"), None);
    assert_eq!(Date::parse("2019-13-01"), None);
    assert_eq!(Date::parse("2019-12-32"), None);
    assert_eq!(Date::parse("2019-12"), None);
    assert_eq!(Date::parse("2019-12-01-01"), None);
    assert_eq!(Date::parse("2019--01"), None);
    assert_eq!(Date::parse("2019-12-0x1"), None);
    assert_eq!(Date::parse("+2019-12-01"), None);
    assert_eq!(Date::parse(" 2019-12-01"), None);
    assert_eq!(Date::parse(""), None);
    assert_eq!(Date::parse("99999999999999999999999-01-01"), None);
}

#[test]
fn writing_then_reading_a_date_gives_it_back() {
    for year in [0u16, 1, 9, 10, 99, 100, 999, 1000, 1999, 2020, 2999] {
        for month in 0u8..=12 {
            for day in 0u8..=31 {
                let d = date(year, month, day);
                assert!(d.is_valid());
                assert_eq!(Date::parse(&d.to_string()), Some(d));
            }
        }
    }
}

#[test]
fn dates_are_ordered_by_year_month_day() {
    assert!(date(2019, 12, 31).is_earlier(&date(2020, 1, 1)));
    assert!(date(2020, 1, 31).is_earlier(&date(2020, 2, 1)));
    assert!(date(2020, 2, 1).is_earlier(&date(2020, 2, 2)));
    assert!(!date(2020, 2, 2).is_earlier(&date(2020, 2, 2)));
    assert!(!date(2020, 2, 2).is_earlier(&date(2019, 12, 31)));
    assert!(date(2019, 12, 31) < date(2020, 1, 1));
    assert!(!date(3000, 0, 0).is_valid());
    assert!(!date(2000, 13, 0).is_valid());
    assert!(!date(2000, 0, 32).is_valid());
}

fn stable(minor: u16, patch: Option<u16>) -> Bound {
    Bound::Stable(ReleaseSelector { minor, patch })
}

#[test]
fn bounds_are_totally_ordered() {
    let bounds = [
        stable(0, None),
        stable(31, None),
        stable(31, Some(0)),
        stable(31, Some(1)),
        stable(32, None),
        stable(65535, Some(65535)),
        Bound::Nightly(date(0, 0, 0)),
        Bound::Nightly(date(2019, 1, 1)),
        Bound::Nightly(date(2019, 1, 2)),
        Bound::Nightly(date(2999, 12, 31)),
    ];
    for a in bounds {
        for b in bounds {
            let order = a.compare(&b);
            let back = b.compare(&a);
            match order {
                Order::Less => assert_eq!(back, Order::Greater),
                Order::Equal => assert_eq!(back, Order::Equal),
                Order::Greater => assert_eq!(back, Order::Less),
            }
            assert_eq!(a.is_below(&b), order == Order::Less);
        }
    }
    assert_eq!(stable(31, None).compare(&stable(31, Some(0))), Order::Equal);
    assert_eq!(stable(31, None).compare(&stable(31, Some(1))), Order::Less);
    assert_eq!(stable(32, None).compare(&stable(31, Some(1))), Order::Greater);
    assert_eq!(
        stable(65535, Some(65535)).compare(&Bound::Nightly(date(0, 0, 0))),
        Order::Less
    );
    assert_eq!(
        Bound::Nightly(date(2019, 1, 1)).compare(&Bound::Nightly(date(2019, 1, 2))),
        Order::Less
    );
}

#[test]
fn a_version_against_a_bound() {
    let v = |minor, patch, channel| Version {
        release: Release { minor, patch },
        channel,
    };
    let nightly = Channel::Nightly(date(2019, 4, 27));
    assert_eq!(v(33, 0, Channel::Beta).compare(&stable(31, None)), Order::Greater);
    assert_eq!(v(31, 0, nightly).compare(&stable(31, None)), Order::Equal);
    assert_eq!(v(31, 0, Channel::Dev).compare(&stable(31, Some(1))), Order::Less);
    let bound = Bound::Nightly(date(2019, 4, 27));
    assert_eq!(v(99, 0, Channel::Stable).compare(&bound), Order::Less);
    assert_eq!(v(99, 0, Channel::Beta).compare(&bound), Order::Less);
    assert_eq!(v(0, 0, Channel::Dev).compare(&bound), Order::Greater);
    assert_eq!(v(0, 0, nightly).compare(&bound), Order::Equal);
    assert!(v(0, 0, nightly).is_at(&bound));
    assert!(!v(0, 0, Channel::Dev).is_at(&bound));
    assert!(v(31, 4, Channel::Beta).is_at(&stable(31, None)));
    assert!(v(31, 4, Channel::Beta).is_at(&stable(31, Some(4))));
    assert!(!v(31, 4, Channel::Beta).is_at(&stable(31, Some(0))));
    assert!(v(36, 0, Channel::Stable).is_before(&bound));
    assert!(!v(36, 0, Channel::Dev).is_before(&bound));
}

//! The typed command-line values and their decisions.

use invoice_generator::cli::{
    choose_property, DocIdentifier, PropertyKind, TimeRange,
};
use invoice_generator::date::{Date, Month};
use invoice_generator::model::LoggedTime;

#[test]
fn time_range_extends_forward_from_anchor() {
    // 9+1.5 means 09:00 to 10:30.
    let r = TimeRange::try_from_match(9, 0, false, 15).unwrap();
    assert_eq!(r, TimeRange { start: 540, end: 630 });
}

#[test]
fn time_range_extends_backward_from_anchor() {
    // 17:30-0.5 means 17:00 to 17:30.
    let r = TimeRange::try_from_match(17, 30, true, 5).unwrap();
    assert_eq!(r, TimeRange { start: 1020, end: 1050 });
}

#[test]
fn time_range_wraps_around_midnight() {
    // 0:30-1.0 reaches back across midnight to 23:30.
    let r = TimeRange::try_from_match(0, 30, true, 10).unwrap();
    assert_eq!(r, TimeRange { start: 1410, end: 30 });
}

#[test]
fn time_range_rejects_an_invalid_anchor() {
    assert_eq!(
        TimeRange::try_from_match(24, 0, false, 10),
        Err("Invalid time provided".to_owned())
    );
    assert_eq!(
        TimeRange::try_from_match(9, 60, false, 10),
        Err("Invalid time provided".to_owned())
    );
}

#[test]
fn property_precedence_is_fixed() {
    // Earlier interpretations win over later ones.
    assert_eq!(
        choose_property(true, true, true, true, true),
        Some(PropertyKind::Activity)
    );
    assert_eq!(
        choose_property(false, true, true, true, true),
        Some(PropertyKind::Ticket)
    );
    assert_eq!(
        choose_property(false, false, true, true, true),
        Some(PropertyKind::Date)
    );
    assert_eq!(
        choose_property(false, false, false, true, true),
        Some(PropertyKind::Time)
    );
    assert_eq!(
        choose_property(false, false, false, false, true),
        Some(PropertyKind::Desc)
    );
}

#[test]
fn single_word_descriptions_are_rejected() {
    assert_eq!(choose_property(false, false, false, false, false), None);
}

#[test]
fn logged_time_places_the_range_on_the_date() {
    let date = Date { year: 2024, month: 3, day: 14 };
    let range = TimeRange { start: 540, end: 630 };
    let log = LoggedTime::new(date, range, "pairing".to_owned(), 7);
    assert_eq!(log.time_start.date, date);
    assert_eq!(log.time_start.hour, 9);
    assert_eq!(log.time_start.minute, 0);
    assert_eq!(log.time_end.hour, 10);
    assert_eq!(log.time_end.minute, 30);
    assert_eq!(log.time_desc, "pairing");
    assert_eq!(log.act_num, 7);
}

#[test]
fn current_month_and_date_are_calendar_values() {
    let m = Month::current();
    assert!((1..=12).contains(&m.month));
    let d = Date::now();
    assert!((1..=12).contains(&d.month));
    assert!((1..=31).contains(&d.day));

    let def = DocIdentifier::default();
    match def {
        DocIdentifier::Month(dm) => assert!((1..=12).contains(&dm.month)),
        DocIdentifier::Num(_) => panic!("the default identifier is the current month"),
    }
}

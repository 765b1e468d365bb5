use std::cmp::Ordering::{Equal, Greater, Less};
use yanos::order::compare_dates;
use yanos::order::Date;
use yanos::{compare_header_date, compare_option, PostHeader};

fn dated(date: Option<&str>) -> PostHeader {
    PostHeader { title: None, date: date.map(|d| d.to_string()), category: None }
}

#[test]
fn compare_option_examples() {
    let some_high = Some(100);
    let some_low = Some(1);
    assert_eq!(Greater, compare_option(&some_high, &None, |a, b| a.cmp(b)));
    assert_eq!(Greater, compare_option(&some_high, &some_low, |a, b| a.cmp(b)));
    assert_eq!(Equal, compare_option(&some_high, &Some(100), |a, b| a.cmp(b)));
    assert_eq!(Greater, compare_option(&some_low, &None, |a, b| a.cmp(b)));
    assert_eq!(Less, compare_option(&None, &some_low, |a, b| a.cmp(b)));
    assert_eq!(Equal, compare_option::<i32, _>(&None, &None, |a, b| a.cmp(b)));
}

#[test]
fn compare_option_swapped_is_reversed() {
    let values = [None, Some(1), Some(2)];
    for a in &values {
        for b in &values {
            let ab = compare_option(a, b, |x, y| x.cmp(y));
            let ba = compare_option(b, a, |x, y| x.cmp(y));
            assert_eq!(ab, ba.reverse());
        }
    }
}

#[test]
fn compare_header_date_examples() {
    let a = dated(Some("1900-01-01"));
    let b = dated(Some("2022-01-01"));
    let c = dated(Some("3333-01-01"));
    let e = dated(None);
    assert_eq!(compare_header_date(&a, &b).unwrap(), Less);
    assert_eq!(compare_header_date(&a, &c).unwrap(), Less);
    assert_eq!(compare_header_date(&a, &e).unwrap(), Greater);
    assert_eq!(compare_header_date(&e, &a).unwrap(), Less);
    assert_eq!(compare_header_date(&b, &a).unwrap(), Greater);
    assert_eq!(compare_header_date(&b, &c).unwrap(), Less);
    assert_eq!(compare_header_date(&e, &e).unwrap(), Equal);
    assert_eq!(compare_header_date(&a, &a).unwrap(), Equal);
}

#[test]
fn compare_header_date_by_month_and_day() {
    let a = dated(Some("2022-02-01"));
    let b = dated(Some("2022-01-31"));
    let c = dated(Some("2022-02-02"));
    assert_eq!(compare_header_date(&a, &b).unwrap(), Greater);
    assert_eq!(compare_header_date(&a, &c).unwrap(), Less);
}

#[test]
fn compare_header_date_rejects_unreadable_date() {
    let good = dated(Some("2022-01-01"));
    let bad = dated(Some("yesterday"));
    let err = compare_header_date(&good, &bad).unwrap_err();
    assert_eq!(err.text, "yesterday");
    let err = compare_header_date(&bad, &good).unwrap_err();
    assert_eq!(err.text, "yesterday");
    // a date is read only where both headers carry one
    assert_eq!(compare_header_date(&bad, &dated(None)).unwrap(), Greater);
}

#[test]
fn compare_dates_is_chronological() {
    let d = |year, month, day| Date { year, month, day };
    assert_eq!(compare_dates(&d(2020, 5, 1), &d(2021, 1, 1)), Less);
    assert_eq!(compare_dates(&d(2021, 5, 1), &d(2021, 4, 30)), Greater);
    assert_eq!(compare_dates(&d(2021, 5, 1), &d(2021, 5, 1)), Equal);
}

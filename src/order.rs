//! Total orders over optional values and over post dates.

use core::cmp::Ordering;
use crate::header::PostHeader;
use chrono::Datelike;
use vstd::prelude::*;

verus! {

/// The ordering with its sides swapped.
pub open spec fn reversed(o: Ordering) -> Ordering {
    match o {
        Ordering::Less => Ordering::Greater,
        Ordering::Equal => Ordering::Equal,
        Ordering::Greater => Ordering::Less,
    }
}

/// What `compare_option(a, b, f)` may return: an absent value comes before a
/// present one, two absent values are equal, and two present values are
/// ordered by `f`.
pub open spec fn compare_option_post<T, F: Fn(&T, &T) -> Ordering>(
    a: Option<T>,
    b: Option<T>,
    f: F,
    r: Ordering,
) -> bool {
    match (a, b) {
        (None, None) => r == Ordering::Equal,
        (None, Some(_)) => r == Ordering::Less,
        (Some(_), None) => r == Ordering::Greater,
        (Some(x), Some(y)) => f.ensures((&x, &y), r),
    }
}

/// Compares two optional values: `None == None`, `None < Some`, and two
/// present values by `some_comp`.
pub fn compare_option<T, F>(a: &Option<T>, b: &Option<T>, some_comp: F) -> (r: Ordering) where
    F: Fn(&T, &T) -> Ordering,
    requires
        (a is Some && b is Some) ==> some_comp.requires((&a->Some_0, &b->Some_0)),
    ensures
        compare_option_post(*a, *b, some_comp, r),
{
    match (a, b) {
        (None, None) => Ordering::Equal,
        (None, Some(_)) => Ordering::Less,
        (Some(_), None) => Ordering::Greater,
        (Some(x), Some(y)) => some_comp(x, y),
    }
}

/// `compare_option` is antisymmetric whenever the comparator of present
/// values is: swapping the operands reverses the result. Two absent values
/// always compare equal.
pub proof fn lemma_compare_option_antisymmetric<T, F: Fn(&T, &T) -> Ordering>(
    a: Option<T>,
    b: Option<T>,
    f: F,
    r_ab: Ordering,
    r_ba: Ordering,
)
    requires
        forall|x: T, y: T, o1: Ordering, o2: Ordering|
            f.ensures((&x, &y), o1) && f.ensures((&y, &x), o2) ==> o1 == reversed(o2),
        compare_option_post(a, b, f, r_ab),
        compare_option_post(b, a, f, r_ba),
    ensures
        r_ab == reversed(r_ba),
        forall|r: Ordering| compare_option_post(None::<T>, None::<T>, f, r) ==> r == Ordering::Equal,
{
    match (a, b) {
        (Some(x), Some(y)) => {
            assert(f.ensures((&x, &y), r_ab));
            assert(f.ensures((&y, &x), r_ba));
        },
        _ => {},
    }
}

} // verus!

verus! {

/// The format in which post dates are written: `YYYY-MM-DD`.
pub const DATE_FORMAT: &'static str = "%Y-%m-%d";

/// What chrono makes of `text` read as a date in `format`: year, month and
/// day, or nothing where the text is no such date.
pub uninterp spec fn parsed_date(text: Seq<char>, format: Seq<char>) -> Option<(int, int, int)>;

/// A calendar date.
#[derive(Debug, Clone, Copy, PartialEq, Eq)]
pub struct Date {
    pub year: i32,
    pub month: u32,
    pub day: u32,
}

impl Date {
    pub open spec fn ymd(self) -> (int, int, int) {
        (self.year as int, self.month as int, self.day as int)
    }
}

/// Chronological order of two dates given as year, month and day.
pub open spec fn ymd_order(a: (int, int, int), b: (int, int, int)) -> Ordering {
    if a.0 < b.0 {
        Ordering::Less
    } else if a.0 > b.0 {
        Ordering::Greater
    } else if a.1 < b.1 {
        Ordering::Less
    } else if a.1 > b.1 {
        Ordering::Greater
    } else if a.2 < b.2 {
        Ordering::Less
    } else if a.2 > b.2 {
        Ordering::Greater
    } else {
        Ordering::Equal
    }
}

/// Relies on chrono's `NaiveDate::parse_from_str`: the parsed date depends on
/// the text and the format alone, and is handed on as its year, month and day.
#[verifier::external_body]
pub(crate) fn parse_date(text: &str, format: &str) -> (r: Option<Date>)
    ensures
        r matches Some(d) ==> parsed_date(text@, format@) == Some(d.ymd()),
        r is None ==> parsed_date(text@, format@) is None,
{
    match chrono::NaiveDate::parse_from_str(text, format) {
        Ok(d) => Some(Date { year: d.year(), month: d.month(), day: d.day() }),
        Err(_) => None,
    }
}

/// Compares two dates chronologically.
pub fn compare_dates(a: &Date, b: &Date) -> (r: Ordering)
    ensures
        r == ymd_order(a.ymd(), b.ymd()),
{
    if a.year < b.year {
        Ordering::Less
    } else if a.year > b.year {
        Ordering::Greater
    } else if a.month < b.month {
        Ordering::Less
    } else if a.month > b.month {
        Ordering::Greater
    } else if a.day < b.day {
        Ordering::Less
    } else if a.day > b.day {
        Ordering::Greater
    } else {
        Ordering::Equal
    }
}

/// A date that could not be read while ordering posts.
#[derive(Debug, Clone)]
pub struct DateError {
    /// the text that is no date in `DATE_FORMAT`
    pub text: String,
}

/// The date of a header read in `DATE_FORMAT`.
pub open spec fn header_date(text: String) -> Option<(int, int, int)> {
    parsed_date(text@, DATE_FORMAT@)
}

/// The order of two headers by date, or `None` where both carry a date and
/// one of them cannot be read.
pub open spec fn header_date_order(a: PostHeader, b: PostHeader) -> Option<Ordering> {
    match (a.date, b.date) {
        (None, None) => Some(Ordering::Equal),
        (None, Some(_)) => Some(Ordering::Less),
        (Some(_), None) => Some(Ordering::Greater),
        (Some(x), Some(y)) => match (header_date(x), header_date(y)) {
            (Some(dx), Some(dy)) => Some(ymd_order(dx, dy)),
            _ => None,
        },
    }
}

/// Orders two headers by their dates, earlier first; a header without a date
/// comes before any header with one. Where both carry a date, a date that
/// cannot be read is an error, which names it.
pub fn compare_header_date(a: &PostHeader, b: &PostHeader) -> (r: Result<Ordering, DateError>)
    ensures
        r is Ok <==> header_date_order(*a, *b) is Some,
        r matches Ok(o) ==> header_date_order(*a, *b) == Some(o),
        r matches Err(e) ==> {
            &&& a.date is Some && b.date is Some
            &&& if header_date(a.date->Some_0) is None {
                e.text@ == a.date->Some_0@
            } else {
                header_date(b.date->Some_0) is None && e.text@ == b.date->Some_0@
            }
        },
        a.date is None && b.date is None ==> r == Ok::<Ordering, DateError>(Ordering::Equal),
        a.date is None && b.date is Some ==> r == Ok::<Ordering, DateError>(Ordering::Less),
        a.date is Some && b.date is None ==> r == Ok::<Ordering, DateError>(Ordering::Greater),
        a.date is Some && b.date is Some && header_date(a.date->Some_0) is Some && header_date(
            b.date->Some_0,
        ) is Some ==> r == Ok::<Ordering, DateError>(
            ymd_order(header_date(a.date->Some_0)->Some_0, header_date(b.date->Some_0)->Some_0),
        ),
{
    if let (Some(x), Some(y)) = (&a.date, &b.date) {
        if parse_date(x.as_str(), DATE_FORMAT).is_none() {
            return Err(DateError { text: x.clone() });
        }
        if parse_date(y.as_str(), DATE_FORMAT).is_none() {
            return Err(DateError { text: y.clone() });
        }
    }
    let by_date = |x: &String, y: &String| -> (o: Ordering)
        requires
            header_date(*x) is Some,
            header_date(*y) is Some,
        ensures
            o == ymd_order(header_date(*x)->Some_0, header_date(*y)->Some_0),
        {
            match (parse_date(x.as_str(), DATE_FORMAT), parse_date(y.as_str(), DATE_FORMAT)) {
                (Some(dx), Some(dy)) => compare_dates(&dx, &dy),
                _ => Ordering::Equal,
            }
        };
    Ok(compare_option(&a.date, &b.date, by_date))
}

} // verus!

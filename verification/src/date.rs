//! Calendar dates, as the page headers write them.
use vstd::prelude::*;

verus! {

/// A calendar date: year, month (1 to 12) and day of the month (1 to 31).
#[derive(Clone, Copy, Debug, PartialEq, Eq, Structural)]
pub struct Date {
    pub year: i32,
    pub month: u32,
    pub day: u32,
}

/// `a` is the same day as `b`, or an earlier one.
pub open spec fn date_le(a: Date, b: Date) -> bool {
    ||| a.year < b.year
    ||| a.year == b.year && a.month < b.month
    ||| a.year == b.year && a.month == b.month && a.day <= b.day
}

/// Whether `a` is the same day as `b` or an earlier one.
pub fn is_on_or_before(a: &Date, b: &Date) -> (r: bool)
    ensures
        r == date_le(*a, *b),
{
    if a.year != b.year {
        a.year < b.year
    } else if a.month != b.month {
        a.month < b.month
    } else {
        a.day <= b.day
    }
}

/// The date that chrono reads from `text` with the format `%Y-%m-%d`, if it
/// reads one.
pub uninterp spec fn parsed_iso_date(text: Seq<char>) -> Option<Date>;

/// Reads a date written as `%Y-%m-%d`, with
/// `chrono::NaiveDate::parse_from_str`. Claimed: the result is the same for
/// the same text, and is named `parsed_iso_date`; chrono's reading of the
/// format (padding, signs, ranges) is not restated here.
#[verifier::external_body]
pub(crate) fn parse_iso_date(text: &str) -> (r: Option<Date>)
    ensures
        r == parsed_iso_date(text@),
{
    match chrono::NaiveDate::parse_from_str(text, "%Y-%m-%d") {
        Ok(d) => Some(
            Date {
                year: chrono::Datelike::year(&d),
                month: chrono::Datelike::month(&d),
                day: chrono::Datelike::day(&d),
            },
        ),
        Err(_) => None,
    }
}

} // verus!

verus! {

/// The order of dates is a total order: every date is on or before itself;
/// two dates each on or before the other are the same date; it is
/// transitive; and of any two dates, one is on or before the other.
pub proof fn law_date_order_is_total(a: Date, b: Date, c: Date)
    ensures
        date_le(a, a),
        date_le(a, b) && date_le(b, a) ==> a == b,
        date_le(a, b) && date_le(b, c) ==> date_le(a, c),
        date_le(a, b) || date_le(b, a),
{
}

/// Dates are ordered by year first; within a year by month; within a month
/// by day.
pub proof fn law_date_order_by_year_month_day(a: Date, b: Date)
    ensures
        a.year != b.year ==> (date_le(a, b) <==> a.year < b.year),
        a.year == b.year && a.month != b.month ==> (date_le(a, b) <==> a.month < b.month),
        a.year == b.year && a.month == b.month ==> (date_le(a, b) <==> a.day <= b.day),
{
}

} // verus!

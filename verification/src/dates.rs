//! Article dates. The manifest stores a date as text in a fixed
//! year-day-month format; chrono parses it and renders the human-readable
//! form. Both results are functions of the raw text alone, so they are
//! named here and every contract downstream speaks of those names.

use vstd::prelude::*;

use chrono::Datelike;

verus! {

/// A date that parsed, carried alongside its raw text so that nothing has
/// to parse it twice: the calendar fields for ordering and the rendered
/// human-readable form for the response.
pub struct ParsedDate {
    pub year: i32,
    pub month: u32,
    pub day: u32,
    pub rendered: Vec<u8>,
}

/// The calendar value that the date text denotes, as (year, month, day),
/// or nothing when the text does not parse in the year-day-month format.
pub uninterp spec fn date_value_of(s: Seq<u8>) -> Option<(int, int, int)>;

/// The human-readable rendering of the date text, meaningful on exactly
/// the texts whose `date_value_of` is some value.
pub uninterp spec fn date_render_of(s: Seq<u8>) -> Seq<u8>;

/// Relies on `chrono::NaiveDate::parse_from_str` with the format
/// `"%Y-%d-%m"` (year, then day of month, then month) and on
/// `NaiveDate::format` with `"%b %d, %Y"`, whose `%b` is always the
/// three-letter English month abbreviation: both results depend on the
/// date text alone. Text that is not UTF-8 parses as nothing. The field
/// ranges follow chrono's `Datelike::month` (1 to 12) and `Datelike::day`
/// (1 to 31).
#[verifier::external_body]
pub fn parse_date(raw: &[u8]) -> (r: Option<ParsedDate>)
    ensures
        r matches Some(p) ==> {
            &&& date_value_of(raw@) == Some((p.year as int, p.month as int, p.day as int))
            &&& p.rendered@ == date_render_of(raw@)
            &&& 1 <= p.month <= 12
            &&& 1 <= p.day <= 31
        },
        r is None <==> date_value_of(raw@) is None,
{
    let s = core::str::from_utf8(raw).ok()?;
    let d = chrono::NaiveDate::parse_from_str(s, "%Y-%d-%m").ok()?;
    Some(ParsedDate {
        year: d.year(),
        month: d.month(),
        day: d.day(),
        rendered: d.format("%b %d, %Y").to_string().into_bytes(),
    })
}

/// Strictly-before on calendar triples, ordered by year, then month, then
/// day.
pub open spec fn ymd_lt(a: (int, int, int), b: (int, int, int)) -> bool {
    ||| a.0 < b.0
    ||| (a.0 == b.0 && a.1 < b.1)
    ||| (a.0 == b.0 && a.1 == b.1 && a.2 < b.2)
}

} // verus!

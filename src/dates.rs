//! Reading and writing dates in a caller's format.
use vstd::prelude::*;
use chrono::{Datelike, NaiveDate};
use std::fmt::Write;
use crate::nodo::Date;

verus! {

/// The date that a text gives in a date format, if it is one.
pub uninterp spec fn parsed_date(text: Seq<char>, format: Seq<char>) -> Option<Date>;

/// The text of a date in a date format, if the date exists and the format is valid.
pub uninterp spec fn formatted_date(date: Date, format: Seq<char>) -> Option<Seq<char>>;

/// Relies on chrono's NaiveDate::parse_from_str: the date that `text` gives in
/// `format`, or none; the result depends on the two texts alone.
#[verifier::external_body]
pub(crate) fn parse_date(text: &str, format: &str) -> (r: Option<Date>)
    ensures
        r == parsed_date(text@, format@),
{
    NaiveDate::parse_from_str(text, format).ok().map(
        |d| Date { year: d.year(), month: d.month(), day: d.day() },
    )
}

/// Relies on chrono's NaiveDate::from_ymd_opt and NaiveDate::format: the text
/// of the date in `format`, or none where the date does not exist or the format
/// is invalid; the result depends on the date and the format alone.
#[verifier::external_body]
pub(crate) fn format_date(date: Date, format: &str) -> (r: Option<String>)
    ensures
        match r {
            Some(s) => formatted_date(date, format@) == Some(s@),
            None => formatted_date(date, format@) is None,
        },
{
    let d = NaiveDate::from_ymd_opt(date.year, date.month, date.day)?;
    let mut s = String::new();
    match write!(s, "{}", d.format(format)) {
        Ok(()) => Some(s),
        Err(_) => None,
    }
}

} // verus!

//! Dates read in one format and shown in another.
use std::fmt::Write;

use vstd::prelude::*;

verus! {

/// What chrono makes of `stamp` read with `parse_fmt` and shown with
/// `show_fmt`: the text of `NaiveDateTime::parse_from_str(stamp, parse_fmt)`
/// formatted with `format(show_fmt)`, or nothing when the stamp does not parse
/// or the show format cannot be written.
pub uninterp spec fn reformatted_date(stamp: Seq<char>, parse_fmt: Seq<char>, show_fmt: Seq<char>) -> Option<Seq<char>>;

/// Parses `stamp` with chrono's `NaiveDateTime::parse_from_str` in the format
/// `parse_fmt` and, when that succeeds, writes the value with chrono's
/// `format(show_fmt)`; a formatting error gives `None`. The contract claims only
/// that the outcome is `reformatted_date` of the three arguments: chrono's
/// calendar and format rules are not restated here.
#[verifier::external_body]
pub(crate) fn reformat_date(stamp: &str, parse_fmt: &str, show_fmt: &str) -> (r: Option<String>)
    ensures
        match r {
            Some(d) => reformatted_date(stamp@, parse_fmt@, show_fmt@) == Some(d@),
            None => reformatted_date(stamp@, parse_fmt@, show_fmt@) is None,
        },
{
    let date = match chrono::NaiveDateTime::parse_from_str(stamp, parse_fmt) {
        Ok(d) => d,
        Err(_) => return None,
    };
    let mut shown = String::new();
    match write!(shown, "{}", date.format(show_fmt)) {
        Ok(()) => Some(shown),
        Err(_) => None,
    }
}

} // verus!

//! Rendering of capture timestamps for the periodic report header.
use vstd::prelude::*;

use chrono::DateTime;

use crate::detect::decimal;

verus! {

/// The text that `chrono` renders for the UTC instant `micros`
/// microseconds after the Unix epoch with the strftime `pattern`, or `None`
/// when the instant lies outside `chrono`'s calendar range.
pub uninterp spec fn utc_rendering(micros: i64, pattern: Seq<char>) -> Option<Seq<char>>;

/// The pattern of the report header: date, time to the microsecond, zone.
pub open spec fn report_pattern() -> Seq<char> {
    "%Y-%m-%d %H:%M:%S%.6f UTC"@
}

/// `v` in decimal, with a leading minus sign when negative.
pub open spec fn signed_decimal(v: i64) -> Seq<char> {
    if v < 0 {
        seq!['-'] + decimal((-v) as nat)
    } else {
        decimal(v as nat)
    }
}

/// Renders `micros` with `chrono`'s `DateTime::from_timestamp_micros`, then
/// `format(pattern)` and `to_string`.
/// Claimed: the result is `chrono`'s rendering of that instant, a function
/// of the two arguments alone (UTC, no locale), and `None` exactly when
/// `from_timestamp_micros` finds the instant out of range. `to_string`
/// panics on a pattern that `chrono` cannot render, so only the report
/// pattern, which it renders, is admitted.
#[verifier::external_body]
fn render_utc(micros: i64, pattern: &str) -> (r: Option<String>)
    requires
        pattern@ == report_pattern(),
    ensures
        r matches Some(s) ==> utc_rendering(micros, pattern@) == Some(s@),
        r is None ==> utc_rendering(micros, pattern@) is None,
{
    match DateTime::from_timestamp_micros(micros) {
        Some(dt) => Some(dt.format(pattern).to_string()),
        None => None,
    }
}

/// Writes `v` with `format!`.
/// Claimed: `i64` is written in decimal, with a minus sign when negative and
/// no padding or grouping.
#[verifier::external_body]
fn decimal_text(v: i64) -> (s: String)
    ensures
        s@ == signed_decimal(v),
{
    format!("{v}")
}

/// The header label of a report at `micros`: the rendering `rendered` of
/// that instant when there is one, else the raw microsecond count.
pub fn label_or_micros(rendered: Option<String>, micros: i64) -> (s: String)
    ensures
        s@ == match rendered {
            Some(t) => t@,
            None => signed_decimal(micros),
        },
{
    match rendered {
        Some(t) => t,
        None => decimal_text(micros),
    }
}

/// The header label of a report at `micros`: the UTC date and time to the
/// microsecond, or the raw microsecond count when the instant is outside
/// the calendar range.
pub fn timestamp_label(micros: i64) -> (s: String)
    ensures
        s@ == match utc_rendering(micros, report_pattern()) {
            Some(t) => t,
            None => signed_decimal(micros),
        },
{
    let rendered = render_utc(micros, "%Y-%m-%d %H:%M:%S%.6f UTC");
    label_or_micros(rendered, micros)
}

} // verus!

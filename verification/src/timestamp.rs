//! Absolute timestamps: parsing the normalized period start and stepping it
//! forward by a whole number of duration spans. Both operations are carried
//! out by the `jiff` crate; the results are functions of the arguments alone.

use vstd::prelude::*;

use crate::duration::DurationSpan;

verus! {

/// Whether `s` denotes an absolute timestamp with an explicit UTC marker or
/// fixed offset, in the form the normalized period start takes.
pub uninterp spec fn spec_timestamp_parses(s: Seq<char>) -> bool;

/// Relies on jiff::Timestamp's `FromStr`: whether a string parses is a
/// function of its characters alone.
#[verifier::external_body]
pub(crate) fn timestamp_parses(s: &str) -> (r: bool)
    ensures
        r == spec_timestamp_parses(s@),
{
    s.parse::<jiff::Timestamp>().is_ok()
}

/// The rendering of the instant `steps` duration spans after the instant
/// that `start` denotes, the span being given by its minute, day, month and
/// year components; or nothing, where `start` does not denote an instant or
/// the result cannot be represented.
pub uninterp spec fn spec_shifted(
    start: Seq<char>,
    minutes: int,
    days: int,
    months: int,
    years: int,
    steps: int,
) -> Option<Seq<char>>;

/// Relies on jiff: Timestamp's `FromStr`, `Span`'s fallible component
/// setters and `checked_mul`, calendar-aware `Zoned::checked_add` on the
/// UTC wall clock, and `Timestamp`'s rendering. All are functions of the
/// arguments alone; every failure returns `None` and nothing panics.
#[verifier::external_body]
pub(crate) fn shift_timestamp(start: &str, span: &DurationSpan, steps: i64) -> (r: Option<
    String,
>)
    ensures
        r is Some <==> spec_shifted(
            start@,
            span.minutes as int,
            span.days as int,
            span.months as int,
            span.years as int,
            steps as int,
        ) is Some,
        r matches Some(t) ==> spec_shifted(
            start@,
            span.minutes as int,
            span.days as int,
            span.months as int,
            span.years as int,
            steps as int,
        ) == Some(t@),
{
    let ts: jiff::Timestamp = start.parse().ok()?;
    let sp = jiff::Span::new().try_minutes(i64::from(span.minutes)).ok()?;
    let sp = sp.try_days(i64::from(span.days)).ok()?;
    let sp = sp.try_months(i64::from(span.months)).ok()?;
    let sp = sp.try_years(i64::from(span.years)).ok()?;
    let sp = sp.checked_mul(steps).ok()?;
    let shifted = ts.to_zoned(jiff::tz::TimeZone::UTC).checked_add(sp).ok()?;
    Some(shifted.timestamp().to_string())
}

} // verus!

//! The fixed resolution vocabulary: duration codes and the calendar-aware
//! spans they denote.

use vstd::prelude::*;

use crate::text::str_eq;

verus! {

/// A calendar-aware duration: a fixed number of minutes together with
/// calendar days, months and years. The calendar components are not
/// reducible to seconds, since month and year lengths vary.
#[derive(Debug, Clone, Copy, PartialEq, Eq, Structural)]
pub struct DurationSpan {
    pub minutes: u32,
    pub days: u32,
    pub months: u32,
    pub years: u32,
}

/// The fixed table from resolution code to duration span.
/// Codes outside this vocabulary have no span.
pub open spec fn spec_resolution_span(code: Seq<char>) -> Option<DurationSpan> {
    if code == "PT1M"@ {
        Some(DurationSpan { minutes: 1, days: 0, months: 0, years: 0 })
    } else if code == "PT15M"@ {
        Some(DurationSpan { minutes: 15, days: 0, months: 0, years: 0 })
    } else if code == "PT30M"@ {
        Some(DurationSpan { minutes: 30, days: 0, months: 0, years: 0 })
    } else if code == "PT60M"@ {
        Some(DurationSpan { minutes: 60, days: 0, months: 0, years: 0 })
    } else if code == "P1D"@ {
        Some(DurationSpan { minutes: 0, days: 1, months: 0, years: 0 })
    } else if code == "P7D"@ {
        Some(DurationSpan { minutes: 0, days: 7, months: 0, years: 0 })
    } else if code == "P1M"@ {
        Some(DurationSpan { minutes: 0, days: 0, months: 1, years: 0 })
    } else if code == "P1Y"@ {
        Some(DurationSpan { minutes: 0, days: 0, months: 0, years: 1 })
    } else {
        None
    }
}

/// Looks a resolution code up in the fixed table.
pub fn resolution_to_timedelta(code: &str) -> (r: Option<DurationSpan>)
    ensures
        r == spec_resolution_span(code@),
{
    if str_eq(code, "PT1M") {
        Some(DurationSpan { minutes: 1, days: 0, months: 0, years: 0 })
    } else if str_eq(code, "PT15M") {
        Some(DurationSpan { minutes: 15, days: 0, months: 0, years: 0 })
    } else if str_eq(code, "PT30M") {
        Some(DurationSpan { minutes: 30, days: 0, months: 0, years: 0 })
    } else if str_eq(code, "PT60M") {
        Some(DurationSpan { minutes: 60, days: 0, months: 0, years: 0 })
    } else if str_eq(code, "P1D") {
        Some(DurationSpan { minutes: 0, days: 1, months: 0, years: 0 })
    } else if str_eq(code, "P7D") {
        Some(DurationSpan { minutes: 0, days: 7, months: 0, years: 0 })
    } else if str_eq(code, "P1M") {
        Some(DurationSpan { minutes: 0, days: 0, months: 1, years: 0 })
    } else if str_eq(code, "P1Y") {
        Some(DurationSpan { minutes: 0, days: 0, months: 0, years: 1 })
    } else {
        None
    }
}

} // verus!

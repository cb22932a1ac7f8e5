//! The streaming extractor: a single forward pass over XML parse events that
//! interprets period and point elements and aggregates the output columns.

use vstd::prelude::*;

use crate::ExtractError;
use crate::duration::{resolution_to_timedelta, spec_resolution_span};
use crate::events::{Event, RawEvent, events_view, tokenize, xml_events};
use crate::rows::{Data, DataModel, Rows, RowsModel, rows_push};
use crate::text::{
    is_decimal, normalize_start, parse_i64, spec_is_decimal, spec_normalize_start, spec_parse_i64,
    str_eq,
};
use crate::timestamp::{shift_timestamp, spec_shifted, spec_timestamp_parses, timestamp_parses};

verus! {

/// The column key under which a resolution's timestamps accumulate.
pub open spec fn ts_key(res: Seq<char>) -> Seq<char> {
    res + "_timestamp"@
}

/// The column key under which a resolution's values accumulate.
pub open spec fn val_key(res: Seq<char>) -> Seq<char> {
    res + "_value"@
}

/// The interpretation state between two parse events: the name of the most
/// recently opened element, the fields of the period and of the point in
/// progress, and the columns accumulated so far.
#[verifier::ext_equal]
pub struct StateModel {
    pub current_element: Option<Seq<char>>,
    pub period_start: Option<Seq<char>>,
    pub period_resolution: Option<Seq<char>>,
    pub point_position: Option<int>,
    pub point_value: Option<Seq<char>>,
    pub rows: RowsModel,
}

/// The state before any event: nothing observed, no columns.
pub open spec fn init_state() -> StateModel {
    StateModel {
        current_element: None,
        period_start: None,
        period_resolution: None,
        point_position: None,
        point_value: None,
        rows: Seq::empty(),
    }
}

/// Closing a complete point: normalize the period start, check it denotes
/// an instant, resolve the resolution code, compute the point's timestamp
/// and append the timestamp and the value to their columns.
pub open spec fn spec_finalize_rows(
    rows: RowsModel,
    start: Seq<char>,
    res: Seq<char>,
    pos: int,
    val: Seq<char>,
) -> Result<RowsModel, ExtractError> {
    let norm = spec_normalize_start(start);
    if !spec_timestamp_parses(norm) {
        Err(ExtractError::InvalidTimestamp)
    } else {
        match spec_resolution_span(res) {
            None => Err(ExtractError::UnknownResolution),
            Some(span) => {
                if pos - 1 < i64::MIN as int {
                    Err(ExtractError::InvalidTimestamp)
                } else {
                    match spec_shifted(
                        norm,
                        span.minutes as int,
                        span.days as int,
                        span.months as int,
                        span.years as int,
                        pos - 1,
                    ) {
                        None => Err(ExtractError::InvalidTimestamp),
                        Some(ts) => Ok(
                            rows_push(
                                rows_push(rows, ts_key(res), DataModel::Timestamp(ts)),
                                val_key(res),
                                DataModel::Value(val),
                            ),
                        ),
                    }
                }
            },
        }
    }
}

/// One transition of the extractor on one parse event.
pub open spec fn spec_step(
    s: StateModel,
    ev: Event,
    value_tag: Seq<char>,
    period_tag: Seq<char>,
) -> Result<StateModel, ExtractError> {
    match ev {
        Event::Open(name) => {
            let s1 = StateModel { current_element: Some(name), ..s };
            Ok(
                if name == period_tag {
                    StateModel { period_start: None, period_resolution: None, ..s1 }
                } else if name == "Point"@ {
                    StateModel { point_position: None, point_value: None, ..s1 }
                } else {
                    s1
                },
            )
        },
        Event::Text(t) => match s.current_element {
            Some(el) => {
                if el == "start"@ {
                    Ok(StateModel { period_start: Some(t), ..s })
                } else if el == "resolution"@ {
                    Ok(StateModel { period_resolution: Some(t), ..s })
                } else if el == "position"@ {
                    match spec_parse_i64(t) {
                        None => Err(ExtractError::InvalidPosition),
                        Some(v) => Ok(StateModel { point_position: Some(v), ..s }),
                    }
                } else if el == value_tag {
                    if spec_is_decimal(t) {
                        Ok(StateModel { point_value: Some(t), ..s })
                    } else {
                        Err(ExtractError::InvalidValue)
                    }
                } else {
                    Ok(s)
                }
            },
            None => Ok(s),
        },
        Event::Close(name) => {
            if name == "Point"@ {
                match (s.period_start, s.period_resolution, s.point_position, s.point_value) {
                    (Some(start), Some(res), Some(pos), Some(val)) => match spec_finalize_rows(
                        s.rows,
                        start,
                        res,
                        pos,
                        val,
                    ) {
                        Err(e) => Err(e),
                        Ok(rows2) => Ok(StateModel { rows: rows2, ..s }),
                    },
                    _ => Ok(s),
                }
            } else {
                Ok(s)
            }
        },
        Event::Malformed => Err(ExtractError::XmlSyntax),
    }
}

/// The state a sequence of parse events leads to from `s`, or the first
/// error raised along the way.
pub open spec fn spec_run_from(
    s: StateModel,
    events: Seq<Event>,
    value_tag: Seq<char>,
    period_tag: Seq<char>,
) -> Result<StateModel, ExtractError>
    decreases events.len(),
{
    if events.len() == 0 {
        Ok(s)
    } else {
        match spec_run_from(s, events.drop_last(), value_tag, period_tag) {
            Err(e) => Err(e),
            Ok(s2) => spec_step(s2, events.last(), value_tag, period_tag),
        }
    }
}

/// The state after a sequence of parse events, or the first error raised.
pub open spec fn spec_run_state(
    events: Seq<Event>,
    value_tag: Seq<char>,
    period_tag: Seq<char>,
) -> Result<StateModel, ExtractError> {
    spec_run_from(init_state(), events, value_tag, period_tag)
}

/// The whole extraction over a sequence of parse events: the accumulated
/// columns, or the first error in document order.
pub open spec fn spec_extract(
    events: Seq<Event>,
    value_tag: Seq<char>,
    period_tag: Seq<char>,
) -> Result<RowsModel, ExtractError> {
    match spec_run_state(events, value_tag, period_tag) {
        Ok(s) => Ok(s.rows),
        Err(e) => Err(e),
    }
}

/// The model of an extraction result.
pub open spec fn result_view(r: Result<Rows, ExtractError>) -> Result<RowsModel, ExtractError> {
    match r {
        Ok(rows) => Ok(rows@),
        Err(e) => Err(e),
    }
}

/// Once a prefix of the events has raised an error, the whole run raises
/// that error: extraction aborts with no partial output.
pub proof fn lemma_run_error_persists(
    events: Seq<Event>,
    value_tag: Seq<char>,
    period_tag: Seq<char>,
    i: int,
)
    requires
        0 <= i <= events.len(),
        spec_run_state(events.take(i), value_tag, period_tag) is Err,
    ensures
        spec_run_state(events, value_tag, period_tag) == spec_run_state(
            events.take(i),
            value_tag,
            period_tag,
        ),
    decreases events.len() - i,
{
    if i < events.len() {
        assert(events.take(i + 1).drop_last() =~= events.take(i));
        assert(spec_run_state(events.take(i + 1), value_tag, period_tag) == spec_run_state(
            events.take(i),
            value_tag,
            period_tag,
        ));
        lemma_run_error_persists(events, value_tag, period_tag, i + 1);
    } else {
        assert(events.take(i) =~= events);
    }
}

/// The model of the extractor's in-progress locals.
pub open spec fn state_of(
    ce: Option<String>,
    ps: Option<String>,
    pr: Option<String>,
    pp: Option<i64>,
    pv: Option<String>,
    rows: RowsModel,
) -> StateModel {
    StateModel {
        current_element: opt_str_view(ce),
        period_start: opt_str_view(ps),
        period_resolution: opt_str_view(pr),
        point_position: opt_i64_view(pp),
        point_value: opt_str_view(pv),
        rows,
    }
}

pub open spec fn opt_str_view(o: Option<String>) -> Option<Seq<char>> {
    match o {
        Some(s) => Some(s@),
        None => None,
    }
}

pub open spec fn opt_i64_view(o: Option<i64>) -> Option<int> {
    match o {
        Some(v) => Some(v as int),
        None => None,
    }
}

/// Closes a complete point: computes its timestamp and appends the
/// timestamp and the value to their columns, or raises the first error.
fn finalize_point(rows: &mut Rows, start: &String, res: &String, pos: i64, val: &String) -> (r:
    Result<(), ExtractError>)
    ensures
        match spec_finalize_rows(old(rows)@, start@, res@, pos as int, val@) {
            Ok(rows2) => r is Ok && final(rows)@ == rows2,
            Err(e) => r == Err::<(), ExtractError>(e) && final(rows)@ == old(rows)@,
        },
{
    let norm = normalize_start(start.as_str());
    if !timestamp_parses(norm.as_str()) {
        return Err(ExtractError::InvalidTimestamp);
    }
    let span = match resolution_to_timedelta(res.as_str()) {
        Some(span) => span,
        None => {
            return Err(ExtractError::UnknownResolution);
        },
    };
    if pos == i64::MIN {
        return Err(ExtractError::InvalidTimestamp);
    }
    let steps = pos - 1;
    let ts = match shift_timestamp(norm.as_str(), &span, steps) {
        Some(ts) => ts,
        None => {
            return Err(ExtractError::InvalidTimestamp);
        },
    };
    let tkey = res.clone().concat("_timestamp");
    let vkey = res.clone().concat("_value");
    rows.push(tkey, Data::Timestamp(ts));
    rows.push(vkey, Data::Value(val.clone()));
    Ok(())
}

/// Runs the extractor over a sequence of parse events.
pub fn extract_from_events(events: &Vec<RawEvent>, value_tag: &str, period_tag: &str) -> (r:
    Result<Rows, ExtractError>)
    ensures
        result_view(r) == spec_extract(events_view(events@), value_tag@, period_tag@),
{
    let ghost evs = events_view(events@);
    let mut current_element: Option<String> = None;
    let mut period_start: Option<String> = None;
    let mut period_resolution: Option<String> = None;
    let mut point_position: Option<i64> = None;
    let mut point_value: Option<String> = None;
    let mut rows = Rows::new();
    proof {
        assert(evs.take(0) =~= Seq::<Event>::empty());
        assert(state_of(
            current_element,
            period_start,
            period_resolution,
            point_position,
            point_value,
            rows@,
        ) =~= init_state());
    }
    let n = events.len();
    let mut idx: usize = 0;
    while idx < n
        invariant
            n == events@.len(),
            idx <= n,
            evs == events_view(events@),
            spec_run_state(evs.take(idx as int), value_tag@, period_tag@) == Ok::<
                StateModel,
                ExtractError,
            >(
                state_of(
                    current_element,
                    period_start,
                    period_resolution,
                    point_position,
                    point_value,
                    rows@,
                ),
            ),
        decreases n - idx,
    {
        let ghost pre = state_of(
            current_element,
            period_start,
            period_resolution,
            point_position,
            point_value,
            rows@,
        );
        proof {
            assert(evs.take(idx + 1).drop_last() =~= evs.take(idx as int));
            assert(evs.take(idx + 1).last() == evs[idx as int]);
            assert(evs[idx as int] == events@[idx as int]@);
        }
        let ev = &events[idx];
        match ev {
            RawEvent::Malformed => {
                proof {
                    assert(spec_run_state(evs.take(idx + 1), value_tag@, period_tag@) == Err::<
                        StateModel,
                        ExtractError,
                    >(ExtractError::XmlSyntax));
                    lemma_run_error_persists(evs, value_tag@, period_tag@, idx + 1);
                }
                return Err(ExtractError::XmlSyntax);
            },
            RawEvent::Open(name) => {
                if str_eq(name.as_str(), period_tag) {
                    period_start = None;
                    period_resolution = None;
                } else if str_eq(name.as_str(), "Point") {
                    point_position = None;
                    point_value = None;
                }
                current_element = Some(name.clone());
                proof {
                    assert(state_of(
                        current_element,
                        period_start,
                        period_resolution,
                        point_position,
                        point_value,
                        rows@,
                    ) =~= spec_step(pre, evs[idx as int], value_tag@, period_tag@)->Ok_0);
                }
            },
            RawEvent::Text(t) => {
                match &current_element {
                    Some(el) => {
                        if str_eq(el.as_str(), "start") {
                            period_start = Some(t.clone());
                        } else if str_eq(el.as_str(), "resolution") {
                            period_resolution = Some(t.clone());
                        } else if str_eq(el.as_str(), "position") {
                            match parse_i64(t.as_str()) {
                                Some(v) => {
                                    point_position = Some(v);
                                },
                                None => {
                                    proof {
                                        lemma_run_error_persists(
                                            evs,
                                            value_tag@,
                                            period_tag@,
                                            idx + 1,
                                        );
                                    }
                                    return Err(ExtractError::InvalidPosition);
                                },
                            }
                        } else if str_eq(el.as_str(), value_tag) {
                            if is_decimal(t.as_str()) {
                                point_value = Some(t.clone());
                            } else {
                                proof {
                                    lemma_run_error_persists(evs, value_tag@, period_tag@, idx + 1);
                                }
                                return Err(ExtractError::InvalidValue);
                            }
                        }
                    },
                    None => {},
                }
                proof {
                    assert(state_of(
                        current_element,
                        period_start,
                        period_resolution,
                        point_position,
                        point_value,
                        rows@,
                    ) =~= spec_step(pre, evs[idx as int], value_tag@, period_tag@)->Ok_0);
                }
            },
            RawEvent::Close(name) => {
                if str_eq(name.as_str(), "Point") {
                    match (&period_start, &period_resolution, &point_position, &point_value) {
                        (Some(start_s), Some(res_s), Some(pos_ref), Some(val_s)) => {
                            let pos: i64 = *pos_ref;
                            match finalize_point(&mut rows, start_s, res_s, pos, val_s) {
                                Ok(()) => {},
                                Err(e) => {
                                    proof {
                                        lemma_run_error_persists(
                                            evs,
                                            value_tag@,
                                            period_tag@,
                                            idx + 1,
                                        );
                                    }
                                    return Err(e);
                                },
                            }
                        },
                        _ => {},
                    }
                }
                proof {
                    assert(state_of(
                        current_element,
                        period_start,
                        period_resolution,
                        point_position,
                        point_value,
                        rows@,
                    ) =~= spec_step(pre, evs[idx as int], value_tag@, period_tag@)->Ok_0);
                }
            },
        }
        idx += 1;
    }
    proof {
        assert(evs.take(idx as int) =~= evs);
    }
    Ok(rows)
}

/// Extracts every complete point of the document into columns keyed by
/// resolution code: for each resolution encountered, the points' absolute
/// timestamps under `"{resolution}_timestamp"` and their decimal values
/// under `"{resolution}_value"`, both in document order of the points'
/// closing tags. The first malformed position, value or period start, the
/// first resolution code outside the fixed table, and any XML
/// well-formedness failure abort the extraction with the matching error.
pub fn parse_timeseries_generic(xml_text: &str, label: &str, period_name: &str) -> (r: Result<
    Rows,
    ExtractError,
>)
    ensures
        result_view(r) == spec_extract(xml_events(xml_text@), label@, period_name@),
{
    let events = tokenize(xml_text);
    extract_from_events(&events, label, period_name)
}

} // verus!

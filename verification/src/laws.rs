//! Properties of the extractor that hold of every input, each stated and
//! proved over the specification-level model.

use vstd::prelude::*;

use crate::ExtractError;
use crate::duration::spec_resolution_span;
use crate::events::{Event, xml_events};
use crate::extract::{
    StateModel, lemma_run_error_persists, spec_extract, spec_run_from, spec_run_state, spec_step,
    ts_key, val_key,
};
use crate::rows::{
    RowsModel, lemma_rows_push_get_other, lemma_rows_push_get_same, rows_get,
};
use crate::text::spec_normalize_start;
use crate::timestamp::spec_timestamp_parses;

verus! {

/// Extraction is a pure function of the document text and of the two tag
/// parameters: running it twice on the same input yields identical output.
pub proof fn lemma_extract_deterministic(
    r1: Result<RowsModel, ExtractError>,
    r2: Result<RowsModel, ExtractError>,
    text: Seq<char>,
    value_tag: Seq<char>,
    period_tag: Seq<char>,
)
    requires
        r1 == spec_extract(xml_events(text), value_tag, period_tag),
        r2 == spec_extract(xml_events(text), value_tag, period_tag),
    ensures
        r1 == r2,
{
}

/// For every resolution, the timestamp column and the value column are
/// either both absent or both present with equal length.
pub open spec fn rows_balanced(rows: RowsModel) -> bool {
    forall|res: Seq<char>|
        match (#[trigger] rows_get(rows, ts_key(res)), rows_get(rows, val_key(res))) {
            (Some(a), Some(b)) => a.len() == b.len(),
            (None, None) => true,
            _ => false,
        }
}

/// Appending a common suffix keeps distinct strings distinct.
proof fn lemma_suffix_cancel(a: Seq<char>, b: Seq<char>, s: Seq<char>)
    requires
        a + s == b + s,
    ensures
        a == b,
{
    assert((a + s).len() == a.len() + s.len());
    assert((b + s).len() == b.len() + s.len());
    assert(a.len() == b.len());
    assert forall|i: int| 0 <= i < a.len() implies a[i] == b[i] by {
        assert((a + s)[i] == a[i]);
        assert((b + s)[i] == b[i]);
    }
    assert(a =~= b);
}

/// No timestamp column key is ever a value column key.
proof fn lemma_keys_distinct(a: Seq<char>, b: Seq<char>)
    ensures
        ts_key(a) != val_key(b),
{
    reveal_strlit("_timestamp");
    reveal_strlit("_value");
    assert(("_timestamp"@).len() == 10);
    assert(("_value"@).len() == 6);
    if ts_key(a) == val_key(b) {
        assert(ts_key(a).last() == 'p');
        assert(val_key(b).last() == 'e');
    }
}

/// One transition keeps the columns balanced.
proof fn lemma_step_balanced(s: StateModel, ev: Event, value_tag: Seq<char>, period_tag: Seq<char>)
    requires
        rows_balanced(s.rows),
        spec_step(s, ev, value_tag, period_tag) is Ok,
    ensures
        rows_balanced(spec_step(s, ev, value_tag, period_tag)->Ok_0.rows),
{
    let rows2 = spec_step(s, ev, value_tag, period_tag)->Ok_0.rows;
    if rows2 != s.rows {
        let res0 = s.period_resolution->0;
        let span = spec_resolution_span(res0)->0;
        let norm = spec_normalize_start(s.period_start->0);
        let ts = crate::timestamp::spec_shifted(
            norm,
            span.minutes as int,
            span.days as int,
            span.months as int,
            span.years as int,
            s.point_position->0 - 1,
        )->0;
        let d_ts = crate::rows::DataModel::Timestamp(ts);
        let d_val = crate::rows::DataModel::Value(s.point_value->0);
        let rows1 = crate::rows::rows_push(s.rows, ts_key(res0), d_ts);
        assert(rows2 == crate::rows::rows_push(rows1, val_key(res0), d_val));
        assert forall|res: Seq<char>|
            match (#[trigger] rows_get(rows2, ts_key(res)), rows_get(rows2, val_key(res))) {
                (Some(a), Some(b)) => a.len() == b.len(),
                (None, None) => true,
                _ => false,
            } by {
            lemma_keys_distinct(res, res0);
            lemma_rows_push_get_other(rows1, val_key(res0), d_val, ts_key(res));
            if res == res0 {
                lemma_rows_push_get_same(s.rows, ts_key(res0), d_ts);
                lemma_rows_push_get_same(rows1, val_key(res0), d_val);
                lemma_keys_distinct(res0, res0);
                lemma_rows_push_get_other(s.rows, ts_key(res0), d_ts, val_key(res0));
            } else {
                if ts_key(res) == ts_key(res0) {
                    lemma_suffix_cancel(res, res0, "_timestamp"@);
                }
                lemma_rows_push_get_other(s.rows, ts_key(res0), d_ts, ts_key(res));
                if val_key(res) == val_key(res0) {
                    lemma_suffix_cancel(res, res0, "_value"@);
                }
                lemma_keys_distinct(res0, res);
                lemma_rows_push_get_other(s.rows, ts_key(res0), d_ts, val_key(res));
                lemma_rows_push_get_other(rows1, val_key(res0), d_val, val_key(res));
            }
        }
    }
}

/// After any run that has not raised an error, and so also at every moment
/// during a run, the columns are balanced: for every resolution present,
/// the timestamp and value columns have equal length.
pub proof fn lemma_run_balanced(events: Seq<Event>, value_tag: Seq<char>, period_tag: Seq<char>)
    ensures
        spec_run_state(events, value_tag, period_tag) matches Ok(s) ==> rows_balanced(s.rows),
    decreases events.len(),
{
    if events.len() == 0 {
    } else {
        lemma_run_balanced(events.drop_last(), value_tag, period_tag);
        let prefix = spec_run_state(events.drop_last(), value_tag, period_tag);
        if prefix is Ok && spec_run_state(events, value_tag, period_tag) is Ok {
            lemma_step_balanced(prefix->Ok_0, events.last(), value_tag, period_tag);
        }
    }
}

/// Every extraction that returns output returns balanced columns.
pub proof fn lemma_extract_balanced(events: Seq<Event>, value_tag: Seq<char>, period_tag: Seq<char>)
    ensures
        spec_extract(events, value_tag, period_tag) matches Ok(rows) ==> rows_balanced(rows),
{
    lemma_run_balanced(events, value_tag, period_tag);
}

/// A point that closes while any of the period start, the resolution, the
/// position or the value is missing is dropped: the state is unchanged and
/// no error is raised.
pub proof fn lemma_incomplete_point_dropped(
    s: StateModel,
    name: Seq<char>,
    value_tag: Seq<char>,
    period_tag: Seq<char>,
)
    requires
        s.period_start is None || s.period_resolution is None || s.point_position is None
            || s.point_value is None,
    ensures
        spec_step(s, Event::Close(name), value_tag, period_tag) == Ok::<
            StateModel,
            ExtractError,
        >(s),
{
}

/// A position whose text is not a signed integer aborts the run with
/// `InvalidPosition`.
pub proof fn lemma_bad_position_aborts(
    s: StateModel,
    t: Seq<char>,
    value_tag: Seq<char>,
    period_tag: Seq<char>,
)
    requires
        s.current_element == Some("position"@),
        crate::text::spec_parse_i64(t) is None,
    ensures
        spec_step(s, Event::Text(t), value_tag, period_tag) == Err::<
            StateModel,
            ExtractError,
        >(ExtractError::InvalidPosition),
{
    reveal_strlit("position");
    reveal_strlit("start");
    reveal_strlit("resolution");
    assert(("position"@).len() == 8);
    assert(("start"@).len() == 5);
    assert(("resolution"@).len() == 10);
}

/// A complete point whose resolution code lies outside the fixed table
/// raises `UnknownResolution`; with `lemma_run_error_persists` the whole
/// run then aborts with it and returns no partial output.
pub proof fn lemma_unknown_resolution_aborts(
    s: StateModel,
    value_tag: Seq<char>,
    period_tag: Seq<char>,
)
    requires
        s.period_start is Some,
        s.period_resolution is Some,
        s.point_position is Some,
        s.point_value is Some,
        spec_timestamp_parses(spec_normalize_start(s.period_start->0)),
        spec_resolution_span(s.period_resolution->0) is None,
    ensures
        spec_step(s, Event::Close("Point"@), value_tag, period_tag) == Err::<
            StateModel,
            ExtractError,
        >(ExtractError::UnknownResolution),
{
}

/// Runs compose: the run over concatenated event sequences is the run of
/// the second from wherever the first led, with the first's error kept.
pub proof fn lemma_run_append(
    s: StateModel,
    a: Seq<Event>,
    b: Seq<Event>,
    value_tag: Seq<char>,
    period_tag: Seq<char>,
)
    ensures
        spec_run_from(s, a + b, value_tag, period_tag) == (match spec_run_from(
            s,
            a,
            value_tag,
            period_tag,
        ) {
            Err(e) => Err(e),
            Ok(m) => spec_run_from(m, b, value_tag, period_tag),
        }),
    decreases b.len(),
{
    if b.len() == 0 {
        assert(a + b =~= a);
    } else {
        assert((a + b).drop_last() =~= a + b.drop_last());
        assert((a + b).last() == b.last());
        lemma_run_append(s, a, b.drop_last(), value_tag, period_tag);
    }
}

/// A point block that carries a value but no position contributes nothing:
/// its five events leave the columns and the period fields as they were,
/// clear the position, and raise no error, from any state. Later points
/// are unaffected, since opening a point clears both point fields.
pub proof fn lemma_positionless_point_block_dropped(
    s: StateModel,
    val: Seq<char>,
    value_tag: Seq<char>,
    period_tag: Seq<char>,
)
    requires
        period_tag != "Point"@,
        value_tag != "Point"@,
        value_tag != period_tag,
        value_tag != "start"@,
        value_tag != "resolution"@,
        value_tag != "position"@,
        crate::text::spec_is_decimal(val),
    ensures
        ({
            let block = seq![
                Event::Open("Point"@),
                Event::Open(value_tag),
                Event::Text(val),
                Event::Close(value_tag),
                Event::Close("Point"@),
            ];
            spec_run_from(s, block, value_tag, period_tag) == Ok::<StateModel, ExtractError>(
                StateModel {
                    current_element: Some(value_tag),
                    point_position: None,
                    point_value: Some(val),
                    ..s
                },
            )
        }),
{
    let e0 = Event::Open("Point"@);
    let e1 = Event::Open(value_tag);
    let e2 = Event::Text(val);
    let e3 = Event::Close(value_tag);
    let e4 = Event::Close("Point"@);
    let b1 = seq![e0];
    let b2 = seq![e0, e1];
    let b3 = seq![e0, e1, e2];
    let b4 = seq![e0, e1, e2, e3];
    let block = seq![e0, e1, e2, e3, e4];
    assert(b1.drop_last() =~= Seq::<Event>::empty());
    assert(b2.drop_last() =~= b1);
    assert(b3.drop_last() =~= b2);
    assert(b4.drop_last() =~= b3);
    assert(block.drop_last() =~= b4);
    let s0 = StateModel {
        current_element: Some("Point"@),
        point_position: None,
        point_value: None,
        ..s
    };
    assert(spec_run_from(s, b1.drop_last(), value_tag, period_tag) == Ok::<
        StateModel,
        ExtractError,
    >(s));
    assert(spec_run_from(s, b1, value_tag, period_tag) == Ok::<StateModel, ExtractError>(s0));
    let s1 = StateModel { current_element: Some(value_tag), ..s0 };
    assert(spec_run_from(s, b2, value_tag, period_tag) == Ok::<StateModel, ExtractError>(s1));
    let s2 = StateModel { point_value: Some(val), ..s1 };
    assert(spec_run_from(s, b3, value_tag, period_tag) == Ok::<StateModel, ExtractError>(s2));
    assert(spec_run_from(s, b4, value_tag, period_tag) == Ok::<StateModel, ExtractError>(s2));
    assert(spec_run_from(s, block, value_tag, period_tag) == Ok::<StateModel, ExtractError>(s2));
}

/// A run that reaches a complete point whose resolution code lies outside
/// the fixed table aborts the whole extraction with `UnknownResolution`
/// when that point closes: no partial output is returned. The period start
/// must normalize to a parseable timestamp; a start that does not raises
/// `InvalidTimestamp` first.
pub proof fn lemma_unknown_resolution_aborts_run(
    events: Seq<Event>,
    i: int,
    value_tag: Seq<char>,
    period_tag: Seq<char>,
)
    requires
        0 <= i < events.len(),
        events[i] == Event::Close("Point"@),
        spec_run_state(events.take(i), value_tag, period_tag) is Ok,
        ({
            let s = spec_run_state(events.take(i), value_tag, period_tag)->Ok_0;
            &&& s.period_start is Some
            &&& s.period_resolution is Some
            &&& s.point_position is Some
            &&& s.point_value is Some
            &&& spec_timestamp_parses(spec_normalize_start(s.period_start->0))
            &&& spec_resolution_span(s.period_resolution->0) is None
        }),
    ensures
        spec_extract(events, value_tag, period_tag) == Err::<RowsModel, ExtractError>(
            ExtractError::UnknownResolution,
        ),
{
    let s = spec_run_state(events.take(i), value_tag, period_tag)->Ok_0;
    lemma_unknown_resolution_aborts(s, value_tag, period_tag);
    assert(events.take(i + 1).drop_last() =~= events.take(i));
    assert(events.take(i + 1).last() == events[i]);
    assert(spec_run_state(events.take(i + 1), value_tag, period_tag) == Err::<
        StateModel,
        ExtractError,
    >(ExtractError::UnknownResolution));
    lemma_run_error_persists(events, value_tag, period_tag, i + 1);
}

/// A transition changes no column but the two keyed by the in-progress
/// period's own resolution: a point never lands under another block's
/// keys.
pub proof fn lemma_step_touches_own_keys(
    s: StateModel,
    ev: Event,
    value_tag: Seq<char>,
    period_tag: Seq<char>,
    key: Seq<char>,
)
    requires
        spec_step(s, ev, value_tag, period_tag) is Ok,
    ensures
        rows_get(spec_step(s, ev, value_tag, period_tag)->Ok_0.rows, key) != rows_get(s.rows, key)
            ==> s.period_resolution is Some && (key == ts_key(s.period_resolution->0) || key
            == val_key(s.period_resolution->0)),
{
    let rows2 = spec_step(s, ev, value_tag, period_tag)->Ok_0.rows;
    if rows2 != s.rows {
        let res0 = s.period_resolution->0;
        let span = spec_resolution_span(res0)->0;
        let norm = spec_normalize_start(s.period_start->0);
        let ts = crate::timestamp::spec_shifted(
            norm,
            span.minutes as int,
            span.days as int,
            span.months as int,
            span.years as int,
            s.point_position->0 - 1,
        )->0;
        let d_ts = crate::rows::DataModel::Timestamp(ts);
        let d_val = crate::rows::DataModel::Value(s.point_value->0);
        let rows1 = crate::rows::rows_push(s.rows, ts_key(res0), d_ts);
        assert(rows2 == crate::rows::rows_push(rows1, val_key(res0), d_val));
        if key != ts_key(res0) && key != val_key(res0) {
            lemma_rows_push_get_other(s.rows, ts_key(res0), d_ts, key);
            lemma_rows_push_get_other(rows1, val_key(res0), d_val, key);
        }
    }
}

/// Whether a prefix of length `i` of the run carried `res` as the
/// in-progress period's resolution.
pub open spec fn carried_resolution(
    events: Seq<Event>,
    value_tag: Seq<char>,
    period_tag: Seq<char>,
    res: Seq<char>,
    i: int,
) -> bool {
    &&& 0 <= i < events.len()
    &&& spec_run_state(events.take(i), value_tag, period_tag) matches Ok(m)
    &&& spec_run_state(events.take(i), value_tag, period_tag)->Ok_0.period_resolution == Some(res)
}

/// Provenance of the columns: a resolution's columns exist in a run's
/// output only if, at some moment of the run, that resolution was the one
/// of the period in progress. Points from a block of one resolution never
/// appear under the keys of another.
pub proof fn lemma_columns_have_provenance(
    events: Seq<Event>,
    value_tag: Seq<char>,
    period_tag: Seq<char>,
    res: Seq<char>,
)
    ensures
        ({
            &&& spec_run_state(events, value_tag, period_tag) matches Ok(s)
            &&& {
                ||| rows_get(spec_run_state(events, value_tag, period_tag)->Ok_0.rows, ts_key(res))
                    is Some
                ||| rows_get(spec_run_state(events, value_tag, period_tag)->Ok_0.rows, val_key(res))
                    is Some
            }
        }) ==> exists|i: int| #[trigger] carried_resolution(events, value_tag, period_tag, res, i),
    decreases events.len(),
{
    let run = spec_run_state(events, value_tag, period_tag);
    if events.len() == 0 {
        assert(events.take(0) =~= events);
    } else if run is Ok {
        let pre = events.drop_last();
        lemma_columns_have_provenance(pre, value_tag, period_tag, res);
        let m = spec_run_state(pre, value_tag, period_tag)->Ok_0;
        let s = run->Ok_0;
        if rows_get(s.rows, ts_key(res)) is Some || rows_get(s.rows, val_key(res)) is Some {
            if rows_get(m.rows, ts_key(res)) is Some || rows_get(m.rows, val_key(res)) is Some {
                let j = choose|j: int|
                    #[trigger] carried_resolution(pre, value_tag, period_tag, res, j);
                assert(pre.take(j) =~= events.take(j));
                assert(carried_resolution(events, value_tag, period_tag, res, j));
            } else {
                lemma_step_touches_own_keys(m, events.last(), value_tag, period_tag, ts_key(res));
                lemma_step_touches_own_keys(m, events.last(), value_tag, period_tag, val_key(res));
                let r0 = m.period_resolution->0;
                lemma_keys_distinct(res, r0);
                lemma_keys_distinct(r0, res);
                if ts_key(res) == ts_key(r0) {
                    lemma_suffix_cancel(res, r0, "_timestamp"@);
                }
                if val_key(res) == val_key(r0) {
                    lemma_suffix_cancel(res, r0, "_value"@);
                }
                assert(pre =~= events.take(events.len() - 1));
                assert(carried_resolution(events, value_tag, period_tag, res, events.len() - 1));
            }
        }
    }
}

} // verus!

//! The laws of the correlation engine, stated and proved over the
//! mathematical model: bounds on every emitted correlation, exactness of the
//! type-compatibility rule, exclusion of non-finite timestamps, determinism,
//! and independence of the insertion order.

use vstd::prelude::*;

use crate::correlator::allowed_pair;
use crate::correlator::dir_corr;
use crate::correlator::dir_emit_pair;
use crate::correlator::dir_row_upto;
use crate::correlator::dir_upto;
use crate::correlator::emit_pair;
use crate::correlator::events_sorted;
use crate::correlator::lemma_confidence_bounds;
use crate::correlator::lemma_sort_by_time_ensures;
use crate::correlator::past_window;
use crate::correlator::scan_row;
use crate::correlator::scan_upto;
use crate::correlator::sort_by_time;
use crate::correlator::spec_corr;
use crate::correlator::spec_correlations;
use crate::correlator::spec_directional_correlations;
use crate::correlator::CorrelationView;
use crate::correlator::Direction;
use crate::correlator::PPM_SCALE;
use crate::event::lemma_ts_le_antisymmetric;
use crate::event::spec_delta;
use crate::event::ts_le;
use crate::event::EventTypeView;
use crate::event::EventView;
use crate::event::TimeDelta;

verus! {

// ------------------------------------------------------------------
// The compatibility rule, exactly
// ------------------------------------------------------------------

/// The type-compatibility rule holds of exactly the five listed ordered
/// pairs, and never of a pair of identical kinds.
pub proof fn lemma_allowed_pairs_exact(a: EventTypeView, b: EventTypeView)
    ensures
        allowed_pair(a, b) <==> {
            ||| (a is UiInteraction && b is ApiCall)
            ||| (a is ApiCall && b is ApiResponse)
            ||| (a is ApiResponse && b is Navigation)
            ||| (a is ApiResponse && b is ScreenChange)
            ||| (a is UiInteraction && b is Navigation)
        },
        !allowed_pair(a, a),
{
}

// ------------------------------------------------------------------
// Every correlation comes from an in-window pair of the sorted snapshot
// ------------------------------------------------------------------

/// `c` is the record of an emitted pair of the sorted snapshot `s`.
pub open spec fn corr_witnessed(
    s: Seq<EventView>,
    window_ms: u64,
    min_confidence_ppm: u64,
    c: CorrelationView,
) -> bool {
    exists|i: int, j: int|
        0 <= i < j < s.len() && emit_pair(s[i], s[j], window_ms, min_confidence_ppm) && c
            == spec_corr(s[i], s[j], window_ms)
}

proof fn lemma_scan_row_witnessed(
    s: Seq<EventView>,
    window_ms: u64,
    min_confidence_ppm: u64,
    i: int,
    j: int,
    k: int,
)
    requires
        0 <= i < s.len(),
        i < j,
        0 <= k < scan_row(s, window_ms, min_confidence_ppm, i, j).len(),
    ensures
        exists|jj: int|
            j <= jj < s.len() && emit_pair(s[i], s[jj], window_ms, min_confidence_ppm)
                && scan_row(s, window_ms, min_confidence_ppm, i, j)[k] == spec_corr(
                s[i],
                s[jj],
                window_ms,
            ),
    decreases s.len() - j,
{
    if emit_pair(s[i], s[j], window_ms, min_confidence_ppm) && k == 0 {
        assert(scan_row(s, window_ms, min_confidence_ppm, i, j)[0] == spec_corr(
            s[i],
            s[j],
            window_ms,
        ));
    } else if emit_pair(s[i], s[j], window_ms, min_confidence_ppm) {
        lemma_scan_row_witnessed(s, window_ms, min_confidence_ppm, i, j + 1, k - 1);
    } else {
        lemma_scan_row_witnessed(s, window_ms, min_confidence_ppm, i, j + 1, k);
    }
}

proof fn lemma_scan_upto_witnessed(
    s: Seq<EventView>,
    window_ms: u64,
    min_confidence_ppm: u64,
    i: int,
    k: int,
)
    requires
        i <= s.len(),
        0 <= k < scan_upto(s, window_ms, min_confidence_ppm, i).len(),
    ensures
        corr_witnessed(
            s,
            window_ms,
            min_confidence_ppm,
            scan_upto(s, window_ms, min_confidence_ppm, i)[k],
        ),
    decreases i,
{
    let prev = scan_upto(s, window_ms, min_confidence_ppm, i - 1);
    if k < prev.len() {
        lemma_scan_upto_witnessed(s, window_ms, min_confidence_ppm, i - 1, k);
    } else {
        lemma_scan_row_witnessed(
            s,
            window_ms,
            min_confidence_ppm,
            i - 1,
            i,
            k - prev.len(),
        );
    }
}

/// Every record of the correlation pass is the record of an emitted pair of
/// the sorted snapshot.
pub proof fn lemma_correlations_witnessed(
    events: Seq<EventView>,
    window_ms: u64,
    min_confidence_ppm: u64,
    k: int,
)
    requires
        0 <= k < spec_correlations(events, window_ms, min_confidence_ppm).len(),
    ensures
        corr_witnessed(
            sort_by_time(events),
            window_ms,
            min_confidence_ppm,
            spec_correlations(events, window_ms, min_confidence_ppm)[k],
        ),
{
    lemma_scan_upto_witnessed(
        sort_by_time(events),
        window_ms,
        min_confidence_ppm,
        sort_by_time(events).len() as int,
        k,
    );
}

// ------------------------------------------------------------------
// Bounds on every emitted correlation
// ------------------------------------------------------------------

/// Every correlation of the main pass has a forward time delta inside the
/// window, a confidence between 0 and 1 inclusive, and a confidence at or
/// above the engine's threshold.
pub proof fn lemma_correlation_bounds(
    events: Seq<EventView>,
    window_ms: u64,
    min_confidence_ppm: u64,
    k: int,
)
    requires
        0 <= k < spec_correlations(events, window_ms, min_confidence_ppm).len(),
    ensures
        0 <= spec_correlations(events, window_ms, min_confidence_ppm)[k].time_delta_ms
            <= window_ms,
        0 <= spec_correlations(events, window_ms, min_confidence_ppm)[k].confidence_ppm
            <= PPM_SCALE as int,
        spec_correlations(events, window_ms, min_confidence_ppm)[k].confidence_ppm
            >= min_confidence_ppm,
{
    lemma_correlations_witnessed(events, window_ms, min_confidence_ppm, k);
    let s = sort_by_time(events);
    let c = spec_correlations(events, window_ms, min_confidence_ppm)[k];
    let (i, j): (int, int) = choose|i: int, j: int|
        0 <= i < j < s.len() && emit_pair(s[i], s[j], window_ms, min_confidence_ppm) && c
            == spec_corr(s[i], s[j], window_ms);
    match spec_delta(s[j].timestamp, s[i].timestamp) {
        TimeDelta::Finite(d) => {
            lemma_confidence_bounds(s[i], s[j], d as int, window_ms as int);
        },
        _ => {
            assert(false);
        },
    }
}

// ------------------------------------------------------------------
// Non-finite timestamps never correlate
// ------------------------------------------------------------------

/// If every event carrying a given id has a non-finite timestamp (NaN or an
/// infinity), then no correlation of the pass names that id, as source or as
/// target.
pub proof fn lemma_nonfinite_excluded(
    events: Seq<EventView>,
    window_ms: u64,
    min_confidence_ppm: u64,
    id: Seq<char>,
    k: int,
)
    requires
        0 <= k < spec_correlations(events, window_ms, min_confidence_ppm).len(),
        forall|m: int|
            0 <= m < events.len() && (#[trigger] events[m]).event_id == id ==> !(
            events[m].timestamp is Finite),
    ensures
        spec_correlations(events, window_ms, min_confidence_ppm)[k].source_id != id,
        spec_correlations(events, window_ms, min_confidence_ppm)[k].target_id != id,
{
    broadcast use vstd::seq_lib::group_to_multiset_ensures;

    lemma_correlations_witnessed(events, window_ms, min_confidence_ppm, k);
    lemma_sort_by_time_ensures(events);
    let s = sort_by_time(events);
    let c = spec_correlations(events, window_ms, min_confidence_ppm)[k];
    let (i, j): (int, int) = choose|i: int, j: int|
        0 <= i < j < s.len() && emit_pair(s[i], s[j], window_ms, min_confidence_ppm) && c
            == spec_corr(s[i], s[j], window_ms);
    assert(s[i].timestamp is Finite && s[j].timestamp is Finite) by {
        match spec_delta(s[j].timestamp, s[i].timestamp) {
            TimeDelta::Finite(_) => {},
            _ => {
                assert(false);
            },
        }
    }
    assert(s.contains(s[i]));
    assert(events.to_multiset().count(s[i]) > 0);
    assert(events.contains(s[i]));
    let mi = choose|m: int| 0 <= m < events.len() && events[m] == s[i];
    assert(events[mi].event_id == s[i].event_id);
    assert(s.contains(s[j]));
    assert(events.to_multiset().count(s[j]) > 0);
    assert(events.contains(s[j]));
    let mj = choose|m: int| 0 <= m < events.len() && events[m] == s[j];
    assert(events[mj].event_id == s[j].event_id);
}

// ------------------------------------------------------------------
// Non-finite events are inert
// ------------------------------------------------------------------

proof fn lemma_sorted_elements_from(events: Seq<EventView>, k: int)
    requires
        0 <= k < sort_by_time(events).len(),
    ensures
        exists|m: int| 0 <= m < events.len() && events[m] == sort_by_time(events)[k],
{
    broadcast use vstd::seq_lib::group_to_multiset_ensures;

    lemma_sort_by_time_ensures(events);
    let s = sort_by_time(events);
    assert(s.contains(s[k]));
    assert(events.to_multiset().count(s[k]) > 0);
    assert(events.contains(s[k]));
}

proof fn lemma_sort_push_top(events: Seq<EventView>, e: EventView)
    requires
        forall|k: int|
            0 <= k < sort_by_time(events).len() ==> ts_le(
                (#[trigger] sort_by_time(events)[k]).timestamp,
                e.timestamp,
            ),
    ensures
        sort_by_time(events.push(e)) == sort_by_time(events).push(e),
{
    let s2 = events.push(e);
    assert(s2.drop_last() =~= events);
    assert(s2.last() == e);
    let sorted = sort_by_time(events);
    if sorted.len() == 0 {
        assert(seq![e] =~= sorted.push(e));
    } else {
        assert(ts_le(sorted.last().timestamp, e.timestamp));
    }
}

proof fn lemma_scan_row_push_inert(
    s: Seq<EventView>,
    e: EventView,
    window_ms: u64,
    min_confidence_ppm: u64,
    i: int,
    j: int,
)
    requires
        !(e.timestamp is Finite),
        0 <= i < s.len(),
        i < j,
    ensures
        scan_row(s.push(e), window_ms, min_confidence_ppm, i, j) == scan_row(
            s,
            window_ms,
            min_confidence_ppm,
            i,
            j,
        ),
    decreases s.len() + 1 - j,
{
    let s2 = s.push(e);
    if j >= s2.len() {
    } else if j == s.len() {
        assert(s2[j] == e);
        assert(!emit_pair(s2[i], s2[j], window_ms, min_confidence_ppm));
        if !past_window(s2[i], s2[j], window_ms) {
            assert(scan_row(s2, window_ms, min_confidence_ppm, i, j + 1)
                =~= Seq::<CorrelationView>::empty());
        }
    } else {
        assert(s2[i] == s[i]);
        assert(s2[j] == s[j]);
        lemma_scan_row_push_inert(s, e, window_ms, min_confidence_ppm, i, j + 1);
    }
}

proof fn lemma_scan_upto_push_inert(
    s: Seq<EventView>,
    e: EventView,
    window_ms: u64,
    min_confidence_ppm: u64,
    i: int,
)
    requires
        !(e.timestamp is Finite),
        i <= s.len(),
    ensures
        scan_upto(s.push(e), window_ms, min_confidence_ppm, i) == scan_upto(
            s,
            window_ms,
            min_confidence_ppm,
            i,
        ),
    decreases i,
{
    if i > 0 {
        lemma_scan_upto_push_inert(s, e, window_ms, min_confidence_ppm, i - 1);
        lemma_scan_row_push_inert(s, e, window_ms, min_confidence_ppm, i - 1, i);
    }
}

proof fn lemma_appended_inert(
    events: Seq<EventView>,
    e: EventView,
    window_ms: u64,
    min_confidence_ppm: u64,
)
    requires
        !(e.timestamp is Finite),
        forall|k: int|
            0 <= k < sort_by_time(events).len() ==> ts_le(
                (#[trigger] sort_by_time(events)[k]).timestamp,
                e.timestamp,
            ),
    ensures
        spec_correlations(events.push(e), window_ms, min_confidence_ppm) == spec_correlations(
            events,
            window_ms,
            min_confidence_ppm,
        ),
{
    lemma_sort_by_time_ensures(events);
    lemma_sort_push_top(events, e);
    let s = sort_by_time(events);
    let s2 = s.push(e);
    lemma_scan_upto_push_inert(s, e, window_ms, min_confidence_ppm, s.len() as int);
    assert(scan_upto(s2, window_ms, min_confidence_ppm, s2.len() as int) == scan_upto(
        s2,
        window_ms,
        min_confidence_ppm,
        s.len() as int,
    ) + scan_row(s2, window_ms, min_confidence_ppm, s.len() as int, s2.len() as int));
    assert(scan_row(s2, window_ms, min_confidence_ppm, s.len() as int, s2.len() as int)
        =~= Seq::<CorrelationView>::empty());
    assert(scan_upto(s2, window_ms, min_confidence_ppm, s2.len() as int) =~= scan_upto(
        s,
        window_ms,
        min_confidence_ppm,
        s.len() as int,
    ));
}

/// An event with a NaN timestamp contributes nothing: appending it to any
/// snapshot leaves the correlation output exactly as it was.
pub proof fn lemma_nan_event_inert(
    events: Seq<EventView>,
    e: EventView,
    window_ms: u64,
    min_confidence_ppm: u64,
)
    requires
        e.timestamp is NaN,
    ensures
        spec_correlations(events.push(e), window_ms, min_confidence_ppm) == spec_correlations(
            events,
            window_ms,
            min_confidence_ppm,
        ),
{
    lemma_appended_inert(events, e, window_ms, min_confidence_ppm);
}

/// An event with a positive-infinite timestamp is never a correlation
/// source or target: appended to a snapshot without NaN readings, it leaves
/// the correlation output exactly as it was.
pub proof fn lemma_posinf_event_inert(
    events: Seq<EventView>,
    e: EventView,
    window_ms: u64,
    min_confidence_ppm: u64,
)
    requires
        e.timestamp is PosInf,
        forall|m: int| 0 <= m < events.len() ==> !((#[trigger] events[m]).timestamp is NaN),
    ensures
        spec_correlations(events.push(e), window_ms, min_confidence_ppm) == spec_correlations(
            events,
            window_ms,
            min_confidence_ppm,
        ),
{
    assert forall|k: int| 0 <= k < sort_by_time(events).len() implies ts_le(
        (#[trigger] sort_by_time(events)[k]).timestamp,
        e.timestamp,
    ) by {
        lemma_sorted_elements_from(events, k);
    }
    lemma_appended_inert(events, e, window_ms, min_confidence_ppm);
}

// ------------------------------------------------------------------
// Determinism
// ------------------------------------------------------------------

/// The correlation pass is a pure function of the snapshot and thresholds:
/// equal snapshots give the identical ordered output.
pub proof fn lemma_correlate_deterministic(
    e1: Seq<EventView>,
    e2: Seq<EventView>,
    window_ms: u64,
    min_confidence_ppm: u64,
)
    requires
        e1 == e2,
    ensures
        spec_correlations(e1, window_ms, min_confidence_ppm) == spec_correlations(
            e2,
            window_ms,
            min_confidence_ppm,
        ),
{
}

// ------------------------------------------------------------------
// Insertion order does not matter
// ------------------------------------------------------------------

/// No two events of the snapshot share a timestamp.
pub open spec fn distinct_timestamps(s: Seq<EventView>) -> bool {
    forall|m: int, mm: int|
        0 <= m < mm < s.len() ==> (#[trigger] s[m]).timestamp != (#[trigger] s[mm]).timestamp
}

/// No two events of the snapshot share a finite timestamp.
pub open spec fn distinct_finite_timestamps(s: Seq<EventView>) -> bool {
    forall|m: int, mm: int|
        0 <= m < mm < s.len() && (#[trigger] s[m]).timestamp is Finite
            && (#[trigger] s[mm]).timestamp is Finite ==> s[m].timestamp != s[mm].timestamp
}

/// Two occurrences of one value give it a multiset count of at least two.
proof fn lemma_two_indices_count(s: Seq<EventView>, i: int, j: int)
    requires
        0 <= i < j < s.len(),
        s[i] == s[j],
    ensures
        s.to_multiset().count(s[i]) >= 2,
{
    broadcast use vstd::seq_lib::group_to_multiset_ensures;
    broadcast use vstd::multiset::group_multiset_axioms;

    let removed = s.remove(i);
    assert(removed.to_multiset() == s.to_multiset().remove(s[i]));
    assert(removed[j - 1] == s[j]);
    assert(removed.contains(s[j]));
    assert(removed.to_multiset().count(s[j]) > 0);
}

/// A multiset count of at least two gives two distinct occurrences.
proof fn lemma_count_two_indices(s: Seq<EventView>, v: EventView)
    requires
        s.to_multiset().count(v) >= 2,
    ensures
        exists|i: int, j: int| 0 <= i < j < s.len() && s[i] == v && s[j] == v,
{
    broadcast use vstd::seq_lib::group_to_multiset_ensures;
    broadcast use vstd::multiset::group_multiset_axioms;

    assert(s.contains(v));
    let i = choose|i: int| 0 <= i < s.len() && s[i] == v;
    let removed = s.remove(i);
    assert(removed.to_multiset() == s.to_multiset().remove(v));
    assert(removed.to_multiset().count(v) >= 1);
    assert(removed.contains(v));
    let jr = choose|j: int| 0 <= j < removed.len() && removed[j] == v;
    if jr < i {
        assert(s[jr] == removed[jr]);
        assert(0 <= jr < i < s.len() && s[jr] == v && s[i] == v);
    } else {
        assert(s[jr + 1] == removed[jr]);
        assert(0 <= i < jr + 1 < s.len() && s[i] == v && s[jr + 1] == v);
    }
}

/// Distinctness of the finite timestamps carries over to any snapshot with
/// the same events.
proof fn lemma_distinctness_transport(e1: Seq<EventView>, e2: Seq<EventView>)
    requires
        e1.to_multiset() == e2.to_multiset(),
        distinct_finite_timestamps(e1),
    ensures
        distinct_finite_timestamps(e2),
{
    broadcast use vstd::seq_lib::group_to_multiset_ensures;
    broadcast use vstd::multiset::group_multiset_axioms;

    assert forall|m: int, mm: int|
        0 <= m < mm < e2.len() && (#[trigger] e2[m]).timestamp is Finite
            && (#[trigger] e2[mm]).timestamp is Finite implies e2[m].timestamp != e2[
        mm].timestamp by {
        if e2[m].timestamp == e2[mm].timestamp {
            if e2[m] == e2[mm] {
                lemma_two_indices_count(e2, m, mm);
                lemma_count_two_indices(e1, e2[m]);
                let (i, j): (int, int) = choose|i: int, j: int|
                    0 <= i < j < e1.len() && e1[i] == e2[m] && e1[j] == e2[m];
                assert(e1[i].timestamp == e1[j].timestamp);
            } else {
                assert(e2.contains(e2[m]));
                assert(e1.to_multiset().count(e2[m]) > 0);
                assert(e1.contains(e2[m]));
                let i = choose|i: int| 0 <= i < e1.len() && e1[i] == e2[m];
                assert(e2.contains(e2[mm]));
                assert(e1.to_multiset().count(e2[mm]) > 0);
                assert(e1.contains(e2[mm]));
                let j = choose|j: int| 0 <= j < e1.len() && e1[j] == e2[mm];
                assert(i != j);
                assert(e1[i].timestamp == e1[j].timestamp);
            }
        }
    }
}

// ------------------------------------------------------------------
// The scan depends only on the finite part of the sorted snapshot
// ------------------------------------------------------------------

/// The subsequence of events with finite timestamps, in order.
pub open spec fn finite_part(s: Seq<EventView>) -> Seq<EventView>
    decreases s.len(),
{
    if s.len() == 0 {
        Seq::<EventView>::empty()
    } else if s.last().timestamp is Finite {
        finite_part(s.drop_last()).push(s.last())
    } else {
        finite_part(s.drop_last())
    }
}

proof fn lemma_finite_part_finite(s: Seq<EventView>)
    ensures
        finite_part(s).len() <= s.len(),
        forall|k: int|
            0 <= k < finite_part(s).len() ==> (#[trigger] finite_part(s)[k]).timestamp is Finite,
    decreases s.len(),
{
    if s.len() > 0 {
        lemma_finite_part_finite(s.drop_last());
    }
}

proof fn lemma_finite_part_count(s: Seq<EventView>, x: EventView)
    requires
        x.timestamp is Finite,
    ensures
        finite_part(s).to_multiset().count(x) == s.to_multiset().count(x),
    decreases s.len(),
{
    broadcast use vstd::seq_lib::group_to_multiset_ensures;
    broadcast use vstd::multiset::group_multiset_axioms;

    if s.len() > 0 {
        let dl = s.drop_last();
        lemma_finite_part_count(dl, x);
        assert(s =~= dl.push(s.last()));
        assert(dl.push(s.last()).to_multiset() == dl.to_multiset().insert(s.last()));
        if s.last().timestamp is Finite {
            assert(finite_part(dl).push(s.last()).to_multiset() == finite_part(
                dl,
            ).to_multiset().insert(s.last()));
        } else {
            assert(x != s.last());
        }
    }
}

proof fn lemma_finite_part_all(s: Seq<EventView>)
    requires
        forall|k: int| 0 <= k < s.len() ==> (#[trigger] s[k]).timestamp is Finite,
    ensures
        finite_part(s) == s,
    decreases s.len(),
{
    if s.len() > 0 {
        lemma_finite_part_all(s.drop_last());
        assert(finite_part(s) =~= s);
    } else {
        assert(finite_part(s) =~= s);
    }
}

proof fn lemma_finite_part_skip_first(s: Seq<EventView>)
    requires
        s.len() >= 1,
        !(s[0].timestamp is Finite),
    ensures
        finite_part(s) == finite_part(s.drop_first()),
    decreases s.len(),
{
    if s.len() == 1 {
        assert(finite_part(s.drop_last()) =~= Seq::<EventView>::empty());
        assert(finite_part(s.drop_first()) =~= Seq::<EventView>::empty());
    } else {
        let t = s.drop_first();
        lemma_finite_part_skip_first(s.drop_last());
        assert(s.drop_last().drop_first() =~= t.drop_last());
        assert(s.last() == t.last());
    }
}

proof fn lemma_finite_part_sorted(s: Seq<EventView>)
    requires
        events_sorted(s),
    ensures
        events_sorted(finite_part(s)),
    decreases s.len(),
{
    broadcast use vstd::seq_lib::group_to_multiset_ensures;
    broadcast use vstd::multiset::group_multiset_axioms;

    if s.len() > 0 {
        let dl = s.drop_last();
        assert(events_sorted(dl));
        lemma_finite_part_sorted(dl);
        if s.last().timestamp is Finite {
            lemma_finite_part_finite(dl);
            assert forall|k: int| 0 <= k < finite_part(dl).len() implies ts_le(
                (#[trigger] finite_part(dl)[k]).timestamp,
                s.last().timestamp,
            ) by {
                let x = finite_part(dl)[k];
                assert(finite_part(dl).contains(x));
                assert(finite_part(dl).to_multiset().count(x) > 0);
                lemma_finite_part_count(dl, x);
                assert(dl.contains(x));
                let m = choose|m: int| 0 <= m < dl.len() && dl[m] == x;
                assert(ts_le(s[m].timestamp, s.last().timestamp));
            }
        }
    }
}

proof fn lemma_finite_part_distinct(s: Seq<EventView>)
    requires
        distinct_finite_timestamps(s),
    ensures
        distinct_timestamps(finite_part(s)),
{
    broadcast use vstd::seq_lib::group_to_multiset_ensures;
    broadcast use vstd::multiset::group_multiset_axioms;

    let fp = finite_part(s);
    lemma_finite_part_finite(s);
    assert forall|m: int, mm: int| 0 <= m < mm < fp.len() implies (#[trigger] fp[m]).timestamp
        != (#[trigger] fp[mm]).timestamp by {
        if fp[m].timestamp == fp[mm].timestamp {
            if fp[m] == fp[mm] {
                lemma_two_indices_count(fp, m, mm);
                lemma_finite_part_count(s, fp[m]);
                lemma_count_two_indices(s, fp[m]);
                let (i, j): (int, int) = choose|i: int, j: int|
                    0 <= i < j < s.len() && s[i] == fp[m] && s[j] == fp[m];
                assert(s[i].timestamp == s[j].timestamp);
            } else {
                assert(fp.contains(fp[m]));
                assert(fp.to_multiset().count(fp[m]) > 0);
                lemma_finite_part_count(s, fp[m]);
                assert(s.contains(fp[m]));
                let i = choose|i: int| 0 <= i < s.len() && s[i] == fp[m];
                assert(fp.contains(fp[mm]));
                assert(fp.to_multiset().count(fp[mm]) > 0);
                lemma_finite_part_count(s, fp[mm]);
                assert(s.contains(fp[mm]));
                let j = choose|j: int| 0 <= j < s.len() && s[j] == fp[mm];
                assert(i != j);
                assert(s[i].timestamp == s[j].timestamp);
            }
        }
    }
}

proof fn lemma_scan_row_shift(
    s: Seq<EventView>,
    window_ms: u64,
    min_confidence_ppm: u64,
    i: int,
    j: int,
)
    requires
        1 <= i < s.len(),
        i < j,
    ensures
        scan_row(s, window_ms, min_confidence_ppm, i, j) == scan_row(
            s.drop_first(),
            window_ms,
            min_confidence_ppm,
            i - 1,
            j - 1,
        ),
    decreases s.len() + 1 - j,
{
    let t = s.drop_first();
    if j >= s.len() {
    } else {
        assert(t[j - 1] == s[j]);
        assert(t[i - 1] == s[i]);
        lemma_scan_row_shift(s, window_ms, min_confidence_ppm, i, j + 1);
    }
}

proof fn lemma_neginf_row_empty(
    s: Seq<EventView>,
    window_ms: u64,
    min_confidence_ppm: u64,
    i: int,
    j: int,
)
    requires
        0 <= i < s.len(),
        s[i].timestamp is NegInf,
        i < j,
    ensures
        scan_row(s, window_ms, min_confidence_ppm, i, j) == Seq::<CorrelationView>::empty(),
    decreases s.len() + 1 - j,
{
    if j >= s.len() {
    } else {
        assert(!emit_pair(s[i], s[j], window_ms, min_confidence_ppm));
        if !past_window(s[i], s[j], window_ms) {
            lemma_neginf_row_empty(s, window_ms, min_confidence_ppm, i, j + 1);
            assert(scan_row(s, window_ms, min_confidence_ppm, i, j) =~= Seq::<
                CorrelationView,
            >::empty());
        }
    }
}

proof fn lemma_scan_upto_shift(s: Seq<EventView>, window_ms: u64, min_confidence_ppm: u64, i: int)
    requires
        1 <= i <= s.len(),
    ensures
        scan_upto(s, window_ms, min_confidence_ppm, i) == scan_row(
            s,
            window_ms,
            min_confidence_ppm,
            0,
            1,
        ) + scan_upto(s.drop_first(), window_ms, min_confidence_ppm, i - 1),
    decreases i,
{
    let t = s.drop_first();
    let row0 = scan_row(s, window_ms, min_confidence_ppm, 0, 1);
    if i == 1 {
        assert(scan_upto(s, window_ms, min_confidence_ppm, 0) == Seq::<
            CorrelationView,
        >::empty());
        assert(scan_upto(t, window_ms, min_confidence_ppm, 0) == Seq::<
            CorrelationView,
        >::empty());
        assert(scan_upto(s, window_ms, min_confidence_ppm, 1) =~= Seq::<
            CorrelationView,
        >::empty() + row0);
        assert(Seq::<CorrelationView>::empty() + row0 =~= row0 + scan_upto(
            t,
            window_ms,
            min_confidence_ppm,
            0,
        ));
    } else {
        lemma_scan_upto_shift(s, window_ms, min_confidence_ppm, i - 1);
        lemma_scan_row_shift(s, window_ms, min_confidence_ppm, i - 1, i);
        assert(scan_upto(s, window_ms, min_confidence_ppm, i) =~= row0 + (scan_upto(
            t,
            window_ms,
            min_confidence_ppm,
            i - 2,
        ) + scan_row(t, window_ms, min_confidence_ppm, i - 2, i - 1)));
    }
}

proof fn lemma_scan_drop_neginf_first(s: Seq<EventView>, window_ms: u64, min_confidence_ppm: u64)
    requires
        s.len() >= 1,
        s[0].timestamp is NegInf,
    ensures
        scan_upto(s, window_ms, min_confidence_ppm, s.len() as int) == scan_upto(
            s.drop_first(),
            window_ms,
            min_confidence_ppm,
            s.len() - 1,
        ),
{
    lemma_scan_upto_shift(s, window_ms, min_confidence_ppm, s.len() as int);
    lemma_neginf_row_empty(s, window_ms, min_confidence_ppm, 0, 1);
    assert(Seq::<CorrelationView>::empty() + scan_upto(
        s.drop_first(),
        window_ms,
        min_confidence_ppm,
        s.len() - 1,
    ) =~= scan_upto(s.drop_first(), window_ms, min_confidence_ppm, s.len() - 1));
}

proof fn lemma_scan_drop_nonfinite_last(s: Seq<EventView>, window_ms: u64, min_confidence_ppm: u64)
    requires
        s.len() >= 1,
        !(s.last().timestamp is Finite),
    ensures
        scan_upto(s, window_ms, min_confidence_ppm, s.len() as int) == scan_upto(
            s.drop_last(),
            window_ms,
            min_confidence_ppm,
            s.len() - 1,
        ),
{
    let dl = s.drop_last();
    assert(s =~= dl.push(s.last()));
    lemma_scan_upto_push_inert(dl, s.last(), window_ms, min_confidence_ppm, dl.len() as int);
    assert(scan_row(s, window_ms, min_confidence_ppm, s.len() - 1, s.len() as int) =~= Seq::<
        CorrelationView,
    >::empty());
    assert(scan_upto(s, window_ms, min_confidence_ppm, s.len() as int) =~= scan_upto(
        s,
        window_ms,
        min_confidence_ppm,
        s.len() - 1,
    ));
}

/// The scan of a sorted snapshot equals the scan of its finite part: events
/// with non-finite timestamps contribute nothing, as sources or as targets.
proof fn lemma_scan_is_finite_scan(s: Seq<EventView>, window_ms: u64, min_confidence_ppm: u64)
    requires
        events_sorted(s),
    ensures
        scan_upto(s, window_ms, min_confidence_ppm, s.len() as int) == scan_upto(
            finite_part(s),
            window_ms,
            min_confidence_ppm,
            finite_part(s).len() as int,
        ),
    decreases s.len(),
{
    if s.len() == 0 {
        assert(finite_part(s) =~= s);
    } else if !(s.last().timestamp is Finite) {
        lemma_scan_drop_nonfinite_last(s, window_ms, min_confidence_ppm);
        let dl = s.drop_last();
        assert(events_sorted(dl));
        lemma_scan_is_finite_scan(dl, window_ms, min_confidence_ppm);
    } else if s[0].timestamp is NegInf {
        lemma_scan_drop_neginf_first(s, window_ms, min_confidence_ppm);
        let t = s.drop_first();
        assert(events_sorted(t)) by {
            assert forall|m: int, mm: int| 0 <= m < mm < t.len() implies ts_le(
                t[m].timestamp,
                t[mm].timestamp,
            ) by {
                assert(t[m] == s[m + 1]);
                assert(t[mm] == s[mm + 1]);
            }
        }
        lemma_scan_is_finite_scan(t, window_ms, min_confidence_ppm);
        lemma_finite_part_skip_first(s);
    } else {
        assert forall|k: int| 0 <= k < s.len() implies (#[trigger] s[k]).timestamp is Finite by {
            if s[k].timestamp is NegInf {
                if k > 0 {
                    assert(ts_le(s[0].timestamp, s[k].timestamp));
                }
                assert(false);
            }
            if s[k].timestamp is PosInf || s[k].timestamp is NaN {
                if k < s.len() - 1 {
                    assert(ts_le(s[k].timestamp, s[s.len() - 1].timestamp));
                }
                assert(false);
            }
        }
        lemma_finite_part_all(s);
    }
}

/// Two sorted snapshots of the same events, with pairwise distinct
/// timestamps, are equal.
proof fn lemma_sorted_unique(s1: Seq<EventView>, s2: Seq<EventView>)
    requires
        events_sorted(s1),
        events_sorted(s2),
        distinct_timestamps(s1),
        distinct_timestamps(s2),
        s1.to_multiset() == s2.to_multiset(),
    ensures
        s1 == s2,
    decreases s1.len(),
{
    broadcast use vstd::seq_lib::group_to_multiset_ensures;
    broadcast use vstd::multiset::group_multiset_axioms;

    assert(s1.to_multiset().len() == s1.len());
    assert(s2.to_multiset().len() == s2.len());
    if s1.len() == 0 {
        assert(s1 =~= s2);
    } else {
        let v1 = s1.last();
        let v2 = s2.last();
        assert(s2.contains(v2));
        assert(s1.to_multiset().count(v2) > 0);
        assert(s1.contains(v2));
        let i = choose|i: int| 0 <= i < s1.len() && s1[i] == v2;
        assert(s1.contains(v1));
        assert(s2.to_multiset().count(v1) > 0);
        assert(s2.contains(v1));
        let j = choose|j: int| 0 <= j < s2.len() && s2[j] == v1;
        if i < s1.len() - 1 {
            assert(ts_le(v2.timestamp, v1.timestamp));
            assert(ts_le(v1.timestamp, v2.timestamp));
            lemma_ts_le_antisymmetric(v1.timestamp, v2.timestamp);
            assert(s1[i].timestamp == s1[s1.len() - 1].timestamp);
            assert(false);
        }
        assert(v1 == v2);
        let d1 = s1.drop_last();
        let d2 = s2.drop_last();
        assert(s1.remove(s1.len() - 1) =~= d1);
        assert(s2.remove(s2.len() - 1) =~= d2);
        assert(d1.to_multiset() == s1.to_multiset().remove(v1));
        assert(d2.to_multiset() == s2.to_multiset().remove(v2));
        lemma_sorted_unique(d1, d2);
        assert(s1 =~= d1.push(v1));
        assert(s2 =~= d2.push(v2));
    }
}

/// Permuting the snapshot's insertion order does not change the correlation
/// output at all, as long as no two events share a finite timestamp. (With a
/// shared finite timestamp the tie order, and so the emitted set, can depend
/// on insertion order.)
pub proof fn lemma_insertion_order_irrelevant(
    e1: Seq<EventView>,
    e2: Seq<EventView>,
    window_ms: u64,
    min_confidence_ppm: u64,
)
    requires
        e1.to_multiset() == e2.to_multiset(),
        distinct_finite_timestamps(e1),
    ensures
        spec_correlations(e1, window_ms, min_confidence_ppm) == spec_correlations(
            e2,
            window_ms,
            min_confidence_ppm,
        ),
{
    broadcast use vstd::multiset::group_multiset_axioms;

    lemma_sort_by_time_ensures(e1);
    lemma_sort_by_time_ensures(e2);
    let s1 = sort_by_time(e1);
    let s2 = sort_by_time(e2);
    lemma_distinctness_transport(e1, s1);
    lemma_distinctness_transport(e1, s2);
    let f1 = finite_part(s1);
    let f2 = finite_part(s2);
    lemma_finite_part_sorted(s1);
    lemma_finite_part_sorted(s2);
    lemma_finite_part_distinct(s1);
    lemma_finite_part_distinct(s2);
    assert(f1.to_multiset() =~= f2.to_multiset()) by {
        lemma_finite_part_finite(s1);
        lemma_finite_part_finite(s2);
        assert forall|x: EventView| #[trigger]
            f1.to_multiset().count(x) == f2.to_multiset().count(x) by {
            if x.timestamp is Finite {
                lemma_finite_part_count(s1, x);
                lemma_finite_part_count(s2, x);
            } else {
                broadcast use vstd::seq_lib::group_to_multiset_ensures;

                if f1.to_multiset().count(x) > 0 {
                    assert(f1.contains(x));
                    let k = choose|k: int| 0 <= k < f1.len() && f1[k] == x;
                    assert(f1[k].timestamp is Finite);
                    assert(false);
                }
                if f2.to_multiset().count(x) > 0 {
                    assert(f2.contains(x));
                    let k = choose|k: int| 0 <= k < f2.len() && f2[k] == x;
                    assert(f2[k].timestamp is Finite);
                    assert(false);
                }
            }
        }
    }
    lemma_sorted_unique(f1, f2);
    lemma_scan_is_finite_scan(s1, window_ms, min_confidence_ppm);
    lemma_scan_is_finite_scan(s2, window_ms, min_confidence_ppm);
}

// ------------------------------------------------------------------
// Bounds for the directional views
// ------------------------------------------------------------------

proof fn lemma_dir_row_bounds(
    d: Direction,
    s: Seq<EventView>,
    window_ms: u64,
    min_confidence_ppm: u64,
    i: int,
    j: int,
    k: int,
)
    requires
        0 <= i < s.len(),
        0 <= k < dir_row_upto(d, s, window_ms, min_confidence_ppm, i, j).len(),
    ensures
        0 <= dir_row_upto(d, s, window_ms, min_confidence_ppm, i, j)[k].time_delta_ms
            <= window_ms,
        0 <= dir_row_upto(d, s, window_ms, min_confidence_ppm, i, j)[k].confidence_ppm
            <= PPM_SCALE as int,
        dir_row_upto(d, s, window_ms, min_confidence_ppm, i, j)[k].confidence_ppm
            >= min_confidence_ppm,
    decreases j,
{
    let prev = dir_row_upto(d, s, window_ms, min_confidence_ppm, i, j - 1);
    if k < prev.len() {
        lemma_dir_row_bounds(d, s, window_ms, min_confidence_ppm, i, j - 1, k);
    } else {
        assert(dir_emit_pair(d, s[i], s[j - 1], window_ms, min_confidence_ppm));
        assert(dir_row_upto(d, s, window_ms, min_confidence_ppm, i, j)[k] == dir_corr(
            d,
            s[i],
            s[j - 1],
            window_ms,
        ));
        match spec_delta(s[j - 1].timestamp, s[i].timestamp) {
            TimeDelta::Finite(dd) => {
                lemma_confidence_bounds(s[i], s[j - 1], dd as int, window_ms as int);
            },
            _ => {
                assert(false);
            },
        }
    }
}

proof fn lemma_dir_upto_bounds(
    d: Direction,
    s: Seq<EventView>,
    window_ms: u64,
    min_confidence_ppm: u64,
    i: int,
    k: int,
)
    requires
        i <= s.len(),
        0 <= k < dir_upto(d, s, window_ms, min_confidence_ppm, i).len(),
    ensures
        0 <= dir_upto(d, s, window_ms, min_confidence_ppm, i)[k].time_delta_ms <= window_ms,
        0 <= dir_upto(d, s, window_ms, min_confidence_ppm, i)[k].confidence_ppm <= PPM_SCALE
            as int,
        dir_upto(d, s, window_ms, min_confidence_ppm, i)[k].confidence_ppm
            >= min_confidence_ppm,
    decreases i,
{
    let prev = dir_upto(d, s, window_ms, min_confidence_ppm, i - 1);
    if k < prev.len() {
        lemma_dir_upto_bounds(d, s, window_ms, min_confidence_ppm, i - 1, k);
    } else {
        lemma_dir_row_bounds(
            d,
            s,
            window_ms,
            min_confidence_ppm,
            i - 1,
            s.len() as int,
            k - prev.len(),
        );
    }
}

/// Every correlation of a directional view has a forward time delta inside
/// the window and a confidence between 0 and 1, at or above the threshold.
pub proof fn lemma_directional_bounds(
    d: Direction,
    events: Seq<EventView>,
    window_ms: u64,
    min_confidence_ppm: u64,
    k: int,
)
    requires
        0 <= k < spec_directional_correlations(d, events, window_ms, min_confidence_ppm).len(),
    ensures
        ({
            let c = spec_directional_correlations(d, events, window_ms, min_confidence_ppm)[k];
            &&& 0 <= c.time_delta_ms <= window_ms
            &&& 0 <= c.confidence_ppm <= PPM_SCALE as int
            &&& c.confidence_ppm >= min_confidence_ppm
        }),
{
    lemma_dir_upto_bounds(
        d,
        events,
        window_ms,
        min_confidence_ppm,
        events.len() as int,
        k,
    );
}

} // verus!

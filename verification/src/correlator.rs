//! The correlation engine: type-compatibility rule, confidence model,
//! windowed pairwise scan, and the derived graph and statistics views.
//!
//! Confidence scores are exact fixed-point values in millionths (ppm), so
//! `1_000_000` stands for a confidence of `1.0`. Divisions truncate toward
//! zero; every score is a deterministic integer function of the inputs.

use vstd::arithmetic::div_mod::lemma_div_is_ordered;
use vstd::arithmetic::div_mod::lemma_div_multiples_vanish;
use vstd::arithmetic::div_mod::lemma_div_pos_is_pos;
use vstd::prelude::*;

use crate::event::data_view;
use crate::event::has_key;
use crate::event::lemma_key_index_absent;
use crate::event::lemma_key_index_found;
use crate::event::lemma_ts_le_total;
use crate::event::lemma_ts_le_transitive;
use crate::event::spec_lookup;
use crate::event::timestamp_le;
use crate::event::ts_le;
use crate::event::Event;
use crate::event::EventType;
use crate::event::EventTypeView;
use crate::event::EventView;
use crate::event::TimeDelta;
use crate::event::Timestamp;

verus! {

/// One million: the fixed-point scale. A score of `PPM_SCALE` means 1.0.
pub const PPM_SCALE: u64 = 1_000_000;

/// Weight of the temporal-proximity term (0.4).
pub const TIME_WEIGHT_PPM: u64 = 400_000;

/// Bonus for a type-compatible pair (0.3).
pub const TYPE_BONUS_PPM: u64 = 300_000;

/// Weight of the shared-data similarity term (0.3).
pub const DATA_WEIGHT_PPM: u64 = 300_000;

// ------------------------------------------------------------------
// Type compatibility rule
// ------------------------------------------------------------------

/// The fixed relation of ordered (source kind, target kind) pairs eligible
/// for correlation. Identical kinds and every pair not listed here are
/// rejected, regardless of timing.
pub open spec fn allowed_pair(source: EventTypeView, target: EventTypeView) -> bool {
    match (source, target) {
        (EventTypeView::UiInteraction, EventTypeView::ApiCall) => true,
        (EventTypeView::ApiCall, EventTypeView::ApiResponse) => true,
        (EventTypeView::ApiResponse, EventTypeView::Navigation) => true,
        (EventTypeView::ApiResponse, EventTypeView::ScreenChange) => true,
        (EventTypeView::UiInteraction, EventTypeView::Navigation) => true,
        _ => false,
    }
}

/// Decides whether two event kinds may be correlated, per [`allowed_pair`].
pub fn types_should_correlate(source: &EventType, target: &EventType) -> (r: bool)
    ensures
        r == allowed_pair(source@, target@),
{
    match (source, target) {
        (EventType::UiInteraction, EventType::ApiCall) => true,
        (EventType::ApiCall, EventType::ApiResponse) => true,
        (EventType::ApiResponse, EventType::Navigation) => true,
        (EventType::ApiResponse, EventType::ScreenChange) => true,
        (EventType::UiInteraction, EventType::Navigation) => true,
        _ => false,
    }
}

/// Label attached to a correlation of an allowed pair: the two canonical
/// kind tags joined by an underscore. Pairs outside the relation carry no
/// label.
pub open spec fn spec_pair_label(source: EventTypeView, target: EventTypeView) -> Seq<char> {
    match (source, target) {
        (EventTypeView::UiInteraction, EventTypeView::ApiCall) => "UI_INTERACTION_API_CALL"@,
        (EventTypeView::ApiCall, EventTypeView::ApiResponse) => "API_CALL_API_RESPONSE"@,
        (EventTypeView::ApiResponse, EventTypeView::Navigation) => "API_RESPONSE_NAVIGATION"@,
        (EventTypeView::ApiResponse, EventTypeView::ScreenChange) => "API_RESPONSE_SCREEN_CHANGE"@,
        (EventTypeView::UiInteraction, EventTypeView::Navigation) => "UI_INTERACTION_NAVIGATION"@,
        _ => Seq::<char>::empty(),
    }
}

/// Builds the label of [`spec_pair_label`] for an allowed pair.
pub fn pair_label(source: &EventType, target: &EventType) -> (r: String)
    requires
        allowed_pair(source@, target@),
    ensures
        r@ == spec_pair_label(source@, target@),
{
    match (source, target) {
        (EventType::UiInteraction, EventType::ApiCall) => String::from_str(
            "UI_INTERACTION_API_CALL",
        ),
        (EventType::ApiCall, EventType::ApiResponse) => String::from_str(
            "API_CALL_API_RESPONSE",
        ),
        (EventType::ApiResponse, EventType::Navigation) => String::from_str(
            "API_RESPONSE_NAVIGATION",
        ),
        (EventType::ApiResponse, EventType::ScreenChange) => String::from_str(
            "API_RESPONSE_SCREEN_CHANGE",
        ),
        _ => String::from_str("UI_INTERACTION_NAVIGATION"),
    }
}

// ------------------------------------------------------------------
// Data similarity
// ------------------------------------------------------------------

/// Number of entries of `a` whose key also appears in `b`.
pub open spec fn count_common(
    a: Seq<(Seq<char>, Seq<char>)>,
    b: Seq<(Seq<char>, Seq<char>)>,
) -> int
    decreases a.len(),
{
    if a.len() == 0 {
        0
    } else {
        count_common(a.drop_last(), b) + if has_key(b, a.last().0) {
            1int
        } else {
            0int
        }
    }
}

/// Number of entries of `a` whose key appears in `b` with an equal value.
pub open spec fn count_matching(
    a: Seq<(Seq<char>, Seq<char>)>,
    b: Seq<(Seq<char>, Seq<char>)>,
) -> int
    decreases a.len(),
{
    if a.len() == 0 {
        0
    } else {
        count_matching(a.drop_last(), b) + if spec_lookup(b, a.last().0) == Some(
            a.last().1,
        ) {
            1int
        } else {
            0int
        }
    }
}

proof fn lemma_counts_bounded(a: Seq<(Seq<char>, Seq<char>)>, b: Seq<(Seq<char>, Seq<char>)>)
    ensures
        0 <= count_matching(a, b) <= count_common(a, b) <= a.len(),
    decreases a.len(),
{
    if a.len() > 0 {
        lemma_counts_bounded(a.drop_last(), b);
    }
}

proof fn lemma_count_common_step(
    a: Seq<(Seq<char>, Seq<char>)>,
    b: Seq<(Seq<char>, Seq<char>)>,
    i: int,
)
    requires
        0 <= i < a.len(),
    ensures
        count_common(a.take(i + 1), b) == count_common(a.take(i), b) + if has_key(
            b,
            a[i].0,
        ) {
            1int
        } else {
            0int
        },
{
    assert(a.take(i + 1).drop_last() =~= a.take(i));
    assert(a.take(i + 1).last() == a[i]);
}

proof fn lemma_count_matching_step(
    a: Seq<(Seq<char>, Seq<char>)>,
    b: Seq<(Seq<char>, Seq<char>)>,
    i: int,
)
    requires
        0 <= i < a.len(),
    ensures
        count_matching(a.take(i + 1), b) == count_matching(a.take(i), b) + if spec_lookup(
            b,
            a[i].0,
        ) == Some(a[i].1) {
            1int
        } else {
            0int
        },
{
    assert(a.take(i + 1).drop_last() =~= a.take(i));
    assert(a.take(i + 1).last() == a[i]);
}

/// Whether `data` holds an entry for `key`.
fn data_has_key(data: &Vec<(String, String)>, key: &String) -> (r: bool)
    ensures
        r == has_key(data_view(data@), key@),
{
    let n = data.len();
    let mut i: usize = 0;
    while i < n
        invariant
            n == data@.len(),
            i <= n,
            forall|k: int| 0 <= k < i ==> data_view(data@)[k].0 != key@,
        decreases n - i,
    {
        if data[i].0 == *key {
            assert(data_view(data@)[i as int].0 == key@);
            return true;
        }
        i += 1;
    }
    false
}

/// Whether `data` stores exactly `value` under `key`.
fn data_value_matches(data: &Vec<(String, String)>, key: &String, value: &String) -> (r: bool)
    ensures
        r == (spec_lookup(data_view(data@), key@) == Some(value@)),
{
    let n = data.len();
    let mut i: usize = 0;
    while i < n
        invariant
            n == data@.len(),
            i <= n,
            forall|k: int| 0 <= k < i ==> data_view(data@)[k].0 != key@,
        decreases n - i,
    {
        if data[i].0 == *key {
            proof {
                assert(data_view(data@)[i as int].0 == key@);
                lemma_key_index_found(data_view(data@), key@, i as int);
            }
            return data[i].1 == *value;
        }
        i += 1;
    }
    proof {
        lemma_key_index_absent(data_view(data@), key@);
    }
    false
}

/// Counts the entries of `a` whose key also appears in `b`.
fn count_common_keys(a: &Vec<(String, String)>, b: &Vec<(String, String)>) -> (c: usize)
    ensures
        c as int == count_common(data_view(a@), data_view(b@)),
{
    let n = a.len();
    let mut count: usize = 0;
    let mut i: usize = 0;
    while i < n
        invariant
            n == a@.len(),
            i <= n,
            count as int == count_common(data_view(a@).take(i as int), data_view(b@)),
            count <= i,
        decreases n - i,
    {
        proof {
            lemma_count_common_step(data_view(a@), data_view(b@), i as int);
        }
        if data_has_key(b, &a[i].0) {
            assert(data_view(a@)[i as int].0 == a@[i as int].0@);
            count += 1;
        }
        i += 1;
    }
    proof {
        assert(data_view(a@).take(n as int) =~= data_view(a@));
    }
    count
}

/// Counts the entries of `a` matched by `b` with an equal value.
fn count_matching_values(a: &Vec<(String, String)>, b: &Vec<(String, String)>) -> (c: usize)
    ensures
        c as int == count_matching(data_view(a@), data_view(b@)),
{
    let n = a.len();
    let mut count: usize = 0;
    let mut i: usize = 0;
    while i < n
        invariant
            n == a@.len(),
            i <= n,
            count as int == count_matching(data_view(a@).take(i as int), data_view(b@)),
            count <= i,
        decreases n - i,
    {
        proof {
            lemma_count_matching_step(data_view(a@), data_view(b@), i as int);
        }
        if data_value_matches(b, &a[i].0, &a[i].1) {
            count += 1;
        }
        i += 1;
    }
    proof {
        assert(data_view(a@).take(n as int) =~= data_view(a@));
    }
    count
}

// ------------------------------------------------------------------
// Confidence model
// ------------------------------------------------------------------

/// Temporal-proximity term: `0.4 * (1 - delta / window)`, in millionths,
/// truncating toward zero.
pub open spec fn spec_time_term_ppm(delta_ms: int, window_ms: int) -> int {
    (TIME_WEIGHT_PPM as int) * (window_ms - delta_ms) / window_ms
}

/// Shared-data similarity term: `0.3 * (matching / common)`, in millionths,
/// truncating toward zero; zero when either context map is empty or no key
/// is shared.
pub open spec fn spec_data_term_ppm(
    a: Seq<(Seq<char>, Seq<char>)>,
    b: Seq<(Seq<char>, Seq<char>)>,
) -> int {
    if a.len() == 0 || b.len() == 0 {
        0
    } else if count_common(a, b) == 0 {
        0
    } else {
        (DATA_WEIGHT_PPM as int) * count_matching(a, b) / count_common(a, b)
    }
}

/// Shared-data similarity on its own scale: the fraction of keys present in
/// both context maps whose values agree, in millionths, truncating toward
/// zero; zero when either map is empty or no key is shared.
pub open spec fn spec_data_similarity_ppm(
    a: Seq<(Seq<char>, Seq<char>)>,
    b: Seq<(Seq<char>, Seq<char>)>,
) -> int {
    if a.len() == 0 || b.len() == 0 {
        0
    } else if count_common(a, b) == 0 {
        0
    } else {
        (PPM_SCALE as int) * count_matching(a, b) / count_common(a, b)
    }
}

/// Unclamped confidence: temporal term, plus the type bonus when the pair is
/// on the compatibility list, plus the data-similarity term.
pub open spec fn spec_raw_confidence_ppm(
    source: EventView,
    target: EventView,
    delta_ms: int,
    window_ms: int,
) -> int {
    spec_time_term_ppm(delta_ms, window_ms) + (if allowed_pair(
        source.event_type,
        target.event_type,
    ) {
        TYPE_BONUS_PPM as int
    } else {
        0int
    }) + spec_data_term_ppm(source.data, target.data)
}

/// Confidence of a candidate pair in millionths, clamped to at most 1.0.
pub open spec fn spec_confidence_ppm(
    source: EventView,
    target: EventView,
    delta_ms: int,
    window_ms: int,
) -> int {
    if spec_raw_confidence_ppm(source, target, delta_ms, window_ms) > PPM_SCALE as int {
        PPM_SCALE as int
    } else {
        spec_raw_confidence_ppm(source, target, delta_ms, window_ms)
    }
}

/// `0 <= k*x/y <= k` whenever `0 <= x <= y` and `y >= 1`.
proof fn lemma_scaled_fraction_bounds(k: int, x: int, y: int)
    requires
        0 <= k,
        0 <= x <= y,
        1 <= y,
    ensures
        0 <= k * x / y <= k,
{
    assert(k * x <= k * y) by (nonlinear_arith)
        requires
            0 <= k,
            x <= y,
    ;
    lemma_div_is_ordered(k * x, k * y, y);
    lemma_div_multiples_vanish(k, y);
    assert(y * k == k * y) by (nonlinear_arith);
    lemma_div_pos_is_pos(k * x, y);
}

pub proof fn lemma_time_term_bounds(delta_ms: int, window_ms: int)
    requires
        0 <= delta_ms <= window_ms,
        1 <= window_ms,
    ensures
        0 <= spec_time_term_ppm(delta_ms, window_ms) <= TIME_WEIGHT_PPM as int,
{
    lemma_scaled_fraction_bounds(
        TIME_WEIGHT_PPM as int,
        window_ms - delta_ms,
        window_ms,
    );
}

pub proof fn lemma_data_term_bounds(a: Seq<(Seq<char>, Seq<char>)>, b: Seq<(Seq<char>, Seq<char>)>)
    ensures
        0 <= spec_data_term_ppm(a, b) <= DATA_WEIGHT_PPM as int,
{
    lemma_counts_bounded(a, b);
    if a.len() != 0 && b.len() != 0 && count_common(a, b) != 0 {
        lemma_scaled_fraction_bounds(
            DATA_WEIGHT_PPM as int,
            count_matching(a, b),
            count_common(a, b),
        );
    }
}

/// The confidence of an in-window pair lies in `[0, 1]`.
pub proof fn lemma_confidence_bounds(
    source: EventView,
    target: EventView,
    delta_ms: int,
    window_ms: int,
)
    requires
        0 <= delta_ms <= window_ms,
        1 <= window_ms,
    ensures
        0 <= spec_confidence_ppm(source, target, delta_ms, window_ms) <= PPM_SCALE as int,
{
    lemma_time_term_bounds(delta_ms, window_ms);
    lemma_data_term_bounds(source.data, target.data);
}

/// Computes the clamped confidence score of [`spec_confidence_ppm`].
pub fn confidence_ppm(source: &Event, target: &Event, delta_ms: u64, window_ms: u64) -> (c: u64)
    requires
        1 <= window_ms,
        delta_ms <= window_ms,
    ensures
        c as int == spec_confidence_ppm(source@, target@, delta_ms as int, window_ms as int),
        c <= PPM_SCALE,
{
    proof {
        lemma_time_term_bounds(delta_ms as int, window_ms as int);
        lemma_data_term_bounds(source@.data, target@.data);
        lemma_counts_bounded(source@.data, target@.data);
    }
    let time_term: u64 = ((TIME_WEIGHT_PPM as u128) * ((window_ms - delta_ms) as u128)
        / (window_ms as u128)) as u64;
    let type_term: u64 = if types_should_correlate(&source.event_type, &target.event_type) {
        TYPE_BONUS_PPM
    } else {
        0
    };
    let data_term: u64 = if source.data.len() == 0 || target.data.len() == 0 {
        0
    } else {
        let common = count_common_keys(&source.data, &target.data);
        if common == 0 {
            0
        } else {
            let matching = count_matching_values(&source.data, &target.data);
            ((DATA_WEIGHT_PPM as u128) * (matching as u128) / (common as u128)) as u64
        }
    };
    let raw = time_term + type_term + data_term;
    if raw > PPM_SCALE {
        PPM_SCALE
    } else {
        raw
    }
}

// ------------------------------------------------------------------
// Sorting by timestamp
// ------------------------------------------------------------------

/// The events stand in ascending [`ts_le`] order.
pub open spec fn events_sorted(s: Seq<EventView>) -> bool {
    forall|i: int, j: int|
        0 <= i < j < s.len() ==> ts_le(s[i].timestamp, s[j].timestamp)
}

/// Stable insertion: `e` goes after every element whose timestamp is
/// less than or equal to its own.
pub open spec fn insert_by_time(sorted: Seq<EventView>, e: EventView) -> Seq<EventView>
    decreases sorted.len(),
{
    if sorted.len() == 0 {
        seq![e]
    } else if ts_le(sorted.last().timestamp, e.timestamp) {
        sorted.push(e)
    } else {
        insert_by_time(sorted.drop_last(), e).push(sorted.last())
    }
}

/// Stable insertion sort of the snapshot by timestamp, under the total
/// order of [`ts_le`]: ties keep their insertion order.
pub open spec fn sort_by_time(s: Seq<EventView>) -> Seq<EventView>
    decreases s.len(),
{
    if s.len() == 0 {
        Seq::<EventView>::empty()
    } else {
        insert_by_time(sort_by_time(s.drop_last()), s.last())
    }
}

proof fn lemma_insert_by_time_multiset(sorted: Seq<EventView>, e: EventView)
    ensures
        insert_by_time(sorted, e).len() == sorted.len() + 1,
        insert_by_time(sorted, e).to_multiset() == sorted.to_multiset().insert(e),
    decreases sorted.len(),
{
    broadcast use vstd::seq_lib::to_multiset_build;
    broadcast use vstd::multiset::group_multiset_axioms;

    if sorted.len() == 0 {
        assert(seq![e] =~= Seq::<EventView>::empty().push(e));
        assert(sorted =~= Seq::<EventView>::empty());
    } else if ts_le(sorted.last().timestamp, e.timestamp) {
    } else {
        let dl = sorted.drop_last();
        let last = sorted.last();
        lemma_insert_by_time_multiset(dl, e);
        assert(sorted =~= dl.push(last));
        assert(insert_by_time(sorted, e).to_multiset() == dl.to_multiset().insert(e).insert(
            last,
        ));
        assert(dl.to_multiset().insert(e).insert(last) =~= dl.to_multiset().insert(
            last,
        ).insert(e));
    }
}

proof fn lemma_insert_keeps_upper_bound(sorted: Seq<EventView>, e: EventView, bound: Timestamp)
    requires
        forall|i: int| 0 <= i < sorted.len() ==> ts_le(sorted[i].timestamp, bound),
        ts_le(e.timestamp, bound),
    ensures
        forall|i: int|
            0 <= i < insert_by_time(sorted, e).len() ==> ts_le(
                insert_by_time(sorted, e)[i].timestamp,
                bound,
            ),
    decreases sorted.len(),
{
    if sorted.len() == 0 {
    } else if ts_le(sorted.last().timestamp, e.timestamp) {
    } else {
        lemma_insert_keeps_upper_bound(sorted.drop_last(), e, bound);
    }
}

proof fn lemma_insert_by_time_sorted(sorted: Seq<EventView>, e: EventView)
    requires
        events_sorted(sorted),
    ensures
        events_sorted(insert_by_time(sorted, e)),
    decreases sorted.len(),
{
    if sorted.len() == 0 {
    } else if ts_le(sorted.last().timestamp, e.timestamp) {
        let r = sorted.push(e);
        assert forall|i: int, j: int| 0 <= i < j < r.len() implies ts_le(
            r[i].timestamp,
            r[j].timestamp,
        ) by {
            if j == r.len() - 1 && i < sorted.len() - 1 {
                lemma_ts_le_transitive(
                    sorted[i].timestamp,
                    sorted.last().timestamp,
                    e.timestamp,
                );
            }
        }
    } else {
        let dl = sorted.drop_last();
        let last = sorted.last();
        lemma_ts_le_total(last.timestamp, e.timestamp);
        lemma_insert_by_time_sorted(dl, e);
        assert forall|i: int| 0 <= i < dl.len() implies ts_le(dl[i].timestamp, last.timestamp) by {
        }
        lemma_insert_keeps_upper_bound(dl, e, last.timestamp);
        let r = insert_by_time(dl, e).push(last);
        assert forall|i: int, j: int| 0 <= i < j < r.len() implies ts_le(
            r[i].timestamp,
            r[j].timestamp,
        ) by {
        }
    }
}

/// The sorted snapshot is a permutation of the input, in ascending order.
pub proof fn lemma_sort_by_time_ensures(s: Seq<EventView>)
    ensures
        sort_by_time(s).len() == s.len(),
        sort_by_time(s).to_multiset() == s.to_multiset(),
        events_sorted(sort_by_time(s)),
    decreases s.len(),
{
    broadcast use vstd::seq_lib::to_multiset_build;

    if s.len() > 0 {
        let dl = s.drop_last();
        lemma_sort_by_time_ensures(dl);
        lemma_insert_by_time_multiset(sort_by_time(dl), s.last());
        lemma_insert_by_time_sorted(sort_by_time(dl), s.last());
        assert(s =~= dl.push(s.last()));
        assert(dl.push(s.last()).to_multiset() =~= dl.to_multiset().insert(s.last()));
    } else {
        assert(s =~= Seq::<EventView>::empty());
    }
}

proof fn lemma_insert_at_index(sorted: Seq<EventView>, e: EventView, idx: int)
    requires
        events_sorted(sorted),
        0 <= idx <= sorted.len(),
        forall|k: int| 0 <= k < idx ==> ts_le(sorted[k].timestamp, e.timestamp),
        idx < sorted.len() ==> !ts_le(sorted[idx].timestamp, e.timestamp),
    ensures
        insert_by_time(sorted, e) == sorted.insert(idx, e),
    decreases sorted.len(),
{
    if sorted.len() == 0 {
        assert(insert_by_time(sorted, e) =~= sorted.insert(0, e));
    } else if idx == sorted.len() {
        assert(ts_le(sorted.last().timestamp, e.timestamp));
        assert(sorted.push(e) =~= sorted.insert(idx, e));
    } else {
        if ts_le(sorted.last().timestamp, e.timestamp) {
            lemma_ts_le_transitive(
                sorted[idx].timestamp,
                sorted.last().timestamp,
                e.timestamp,
            );
            assert(false);
        }
        let dl = sorted.drop_last();
        lemma_insert_at_index(dl, e, idx);
        assert(insert_by_time(dl, e).push(sorted.last()) =~= sorted.insert(idx, e));
    }
}

/// First position whose timestamp is strictly greater than that of `e`
/// in the total order, or the length if there is none.
fn find_insert_position(sorted: &Vec<Event>, e: &Event) -> (idx: usize)
    ensures
        idx <= sorted@.len(),
        forall|k: int| 0 <= k < idx ==> ts_le(sorted.deep_view()[k].timestamp, e@.timestamp),
        idx < sorted@.len() ==> !ts_le(
            sorted.deep_view()[idx as int].timestamp,
            e@.timestamp,
        ),
{
    let n = sorted.len();
    let mut i: usize = 0;
    while i < n
        invariant
            n == sorted@.len(),
            i <= n,
            forall|k: int| 0 <= k < i ==> ts_le(sorted.deep_view()[k].timestamp, e@.timestamp),
        decreases n - i,
    {
        if !timestamp_le(&sorted[i].timestamp, &e.timestamp) {
            assert(sorted.deep_view()[i as int].timestamp == sorted@[i as int].timestamp);
            return i;
        }
        assert(sorted.deep_view()[i as int].timestamp == sorted@[i as int].timestamp);
        i += 1;
    }
    n
}

/// Sorts the snapshot ascending by timestamp under the documented total
/// order; ties keep their insertion order.
pub fn sort_events_by_time(events: &Vec<Event>) -> (r: Vec<Event>)
    ensures
        r.deep_view() == sort_by_time(events.deep_view()),
        events_sorted(r.deep_view()),
        r.deep_view().len() == events.deep_view().len(),
        r.deep_view().to_multiset() == events.deep_view().to_multiset(),
{
    let n = events.len();
    let mut result: Vec<Event> = Vec::new();
    let mut i: usize = 0;
    while i < n
        invariant
            n == events@.len(),
            i <= n,
            result.deep_view() == sort_by_time(events.deep_view().take(i as int)),
            events_sorted(result.deep_view()),
        decreases n - i,
    {
        let e = events[i].clone();
        let idx = find_insert_position(&result, &e);
        proof {
            lemma_insert_at_index(result.deep_view(), e@, idx as int);
            assert(events.deep_view().take(i + 1).drop_last() =~= events.deep_view().take(
                i as int,
            ));
            assert(events.deep_view().take(i + 1).last() == events.deep_view()[i as int]);
            lemma_insert_by_time_sorted(result.deep_view(), e@);
        }
        result.insert(idx, e);
        proof {
            assert(result.deep_view() =~= sort_by_time(events.deep_view().take(i as int)).insert(
                idx as int,
                events.deep_view()[i as int],
            ));
        }
        i += 1;
    }
    proof {
        assert(events.deep_view().take(n as int) =~= events.deep_view());
        lemma_sort_by_time_ensures(events.deep_view());
    }
    result
}

// ------------------------------------------------------------------
// The correlation scan
// ------------------------------------------------------------------

/// An inferred directed link between two events: confidence in millionths,
/// the forward time distance in milliseconds, and a label naming the pair of
/// kinds (or the direction, for the directional views).
#[derive(Debug)]
pub struct Correlation {
    pub source_event_id: String,
    pub target_event_id: String,
    pub confidence_ppm: u64,
    pub time_delta_ms: u64,
    pub correlation_type: String,
}

impl Clone for Correlation {
    /// Clones preserve every field of the model exactly.
    fn clone(&self) -> (r: Self)
        ensures
            r@ == self@,
    {
        Correlation {
            source_event_id: self.source_event_id.clone(),
            target_event_id: self.target_event_id.clone(),
            confidence_ppm: self.confidence_ppm,
            time_delta_ms: self.time_delta_ms,
            correlation_type: self.correlation_type.clone(),
        }
    }
}

/// Mathematical model of a correlation record.
pub struct CorrelationView {
    pub source_id: Seq<char>,
    pub target_id: Seq<char>,
    pub confidence_ppm: int,
    pub time_delta_ms: int,
    pub label: Seq<char>,
}

impl View for Correlation {
    type V = CorrelationView;

    open spec fn view(&self) -> CorrelationView {
        CorrelationView {
            source_id: self.source_event_id@,
            target_id: self.target_event_id@,
            confidence_ppm: self.confidence_ppm as int,
            time_delta_ms: self.time_delta_ms as int,
            label: self.correlation_type@,
        }
    }
}

impl DeepView for Correlation {
    type V = CorrelationView;

    open spec fn deep_view(&self) -> CorrelationView {
        self.view()
    }
}

/// Break condition of the sorted scan: the target lies past the window
/// (a finite delta above it, or a positive-infinite delta). A NaN delta is
/// no reason to stop: later targets may still be correlatable.
pub open spec fn past_window(source: EventView, target: EventView, window_ms: u64) -> bool {
    match crate::event::spec_delta(target.timestamp, source.timestamp) {
        TimeDelta::PosInf => true,
        TimeDelta::Finite(d) => d > window_ms,
        _ => false,
    }
}

/// Whether the ordered pair is emitted: a finite forward delta inside the
/// window, kinds on the compatibility list, and confidence at or above the
/// threshold. Pairs with a non-finite delta are never emitted, and a window
/// of zero emits nothing (its time score is undefined, as the float division
/// zero-by-zero would be).
pub open spec fn emit_pair(
    source: EventView,
    target: EventView,
    window_ms: u64,
    min_confidence_ppm: u64,
) -> bool {
    &&& window_ms >= 1
    &&& match crate::event::spec_delta(target.timestamp, source.timestamp) {
        TimeDelta::Finite(d) => {
            &&& 0 <= d <= window_ms
            &&& allowed_pair(source.event_type, target.event_type)
            &&& spec_confidence_ppm(source, target, d as int, window_ms as int)
                >= min_confidence_ppm
        },
        _ => false,
    }
}

/// The delta of a pair whose timestamps are both finite.
pub open spec fn finite_delta(source: EventView, target: EventView) -> int {
    match crate::event::spec_delta(target.timestamp, source.timestamp) {
        TimeDelta::Finite(d) => d as int,
        _ => 0,
    }
}

/// The correlation record emitted for an in-window pair.
pub open spec fn spec_corr(source: EventView, target: EventView, window_ms: u64) -> CorrelationView {
    CorrelationView {
        source_id: source.event_id,
        target_id: target.event_id,
        confidence_ppm: spec_confidence_ppm(
            source,
            target,
            finite_delta(source, target),
            window_ms as int,
        ),
        time_delta_ms: finite_delta(source, target),
        label: spec_pair_label(source.event_type, target.event_type),
    }
}

/// Correlations of source `i` against targets from `j` onward in the sorted
/// snapshot, stopping at the first past-window target.
pub open spec fn scan_row(
    s: Seq<EventView>,
    window_ms: u64,
    min_confidence_ppm: u64,
    i: int,
    j: int,
) -> Seq<CorrelationView>
    decreases s.len() - j,
{
    if j < 0 || j >= s.len() {
        Seq::<CorrelationView>::empty()
    } else if past_window(s[i], s[j], window_ms) {
        Seq::<CorrelationView>::empty()
    } else if emit_pair(s[i], s[j], window_ms, min_confidence_ppm) {
        seq![spec_corr(s[i], s[j], window_ms)] + scan_row(
            s,
            window_ms,
            min_confidence_ppm,
            i,
            j + 1,
        )
    } else {
        scan_row(s, window_ms, min_confidence_ppm, i, j + 1)
    }
}

/// Concatenation of the rows of all sources below index `i`, in order.
pub open spec fn scan_upto(
    s: Seq<EventView>,
    window_ms: u64,
    min_confidence_ppm: u64,
    i: int,
) -> Seq<CorrelationView>
    decreases i,
{
    if i <= 0 {
        Seq::<CorrelationView>::empty()
    } else {
        scan_upto(s, window_ms, min_confidence_ppm, i - 1) + scan_row(
            s,
            window_ms,
            min_confidence_ppm,
            i - 1,
            i,
        )
    }
}

/// The full correlation pass over a snapshot: sort by timestamp, then scan
/// each source's subsequent targets, grouped by source in ascending order.
pub open spec fn spec_correlations(
    events: Seq<EventView>,
    window_ms: u64,
    min_confidence_ppm: u64,
) -> Seq<CorrelationView> {
    scan_upto(
        sort_by_time(events),
        window_ms,
        min_confidence_ppm,
        sort_by_time(events).len() as int,
    )
}

/// Scans the row of source `i`, appending every emitted correlation.
fn scan_row_exec(
    s: &Vec<Event>,
    window_ms: u64,
    min_confidence_ppm: u64,
    i: usize,
    result: &mut Vec<Correlation>,
)
    requires
        events_sorted(s.deep_view()),
        i < s@.len(),
    ensures
        final(result).deep_view() == old(result).deep_view() + scan_row(
            s.deep_view(),
            window_ms,
            min_confidence_ppm,
            i as int,
            i + 1,
        ),
{
    let ghost sv = s.deep_view();
    let n = s.len();
    let mut j: usize = i + 1;
    while j < n
        invariant
            n == s@.len(),
            sv == s.deep_view(),
            events_sorted(sv),
            i < j <= n,
            old(result).deep_view() + scan_row(sv, window_ms, min_confidence_ppm, i as int, i + 1)
                == result.deep_view() + scan_row(
                sv,
                window_ms,
                min_confidence_ppm,
                i as int,
                j as int,
            ),
        decreases n - j,
    {
        let d = crate::event::time_delta(&s[j].timestamp, &s[i].timestamp);
        proof {
            assert(sv[j as int].timestamp == s@[j as int].timestamp);
            assert(sv[i as int].timestamp == s@[i as int].timestamp);
        }
        match d {
            TimeDelta::PosInf => {
                proof {
                    assert(past_window(sv[i as int], sv[j as int], window_ms));
                    assert(scan_row(sv, window_ms, min_confidence_ppm, i as int, j as int)
                        =~= Seq::<CorrelationView>::empty());
                }
                return ;
            },
            TimeDelta::Finite(dv) => {
                if dv > window_ms as i128 {
                    proof {
                        assert(past_window(sv[i as int], sv[j as int], window_ms));
                        assert(scan_row(sv, window_ms, min_confidence_ppm, i as int, j as int)
                            =~= Seq::<CorrelationView>::empty());
                    }
                    return ;
                }
                proof {
                    assert(ts_le(sv[i as int].timestamp, sv[j as int].timestamp));
                    assert(0 <= dv <= window_ms);
                }
                if window_ms >= 1 && types_should_correlate(
                    &s[i].event_type,
                    &s[j].event_type,
                ) {
                    let conf = confidence_ppm(&s[i], &s[j], dv as u64, window_ms);
                    if conf >= min_confidence_ppm {
                        proof {
                            assert(emit_pair(
                                sv[i as int],
                                sv[j as int],
                                window_ms,
                                min_confidence_ppm,
                            ));
                        }
                        let corr = Correlation {
                            source_event_id: s[i].event_id.clone(),
                            target_event_id: s[j].event_id.clone(),
                            confidence_ppm: conf,
                            time_delta_ms: dv as u64,
                            correlation_type: pair_label(&s[i].event_type, &s[j].event_type),
                        };
                        proof {
                            assert(corr@ == spec_corr(sv[i as int], sv[j as int], window_ms));
                        }
                        let ghost before = result.deep_view();
                        result.push(corr);
                        proof {
                            assert(result.deep_view() =~= before.push(corr@));
                            assert(seq![spec_corr(sv[i as int], sv[j as int], window_ms)]
                                + scan_row(
                                sv,
                                window_ms,
                                min_confidence_ppm,
                                i as int,
                                j + 1,
                            ) == scan_row(sv, window_ms, min_confidence_ppm, i as int, j as int));
                            assert(before + scan_row(
                                sv,
                                window_ms,
                                min_confidence_ppm,
                                i as int,
                                j as int,
                            ) =~= result.deep_view() + scan_row(
                                sv,
                                window_ms,
                                min_confidence_ppm,
                                i as int,
                                j + 1,
                            ));
                        }
                    } else {
                        proof {
                            assert(!emit_pair(
                                sv[i as int],
                                sv[j as int],
                                window_ms,
                                min_confidence_ppm,
                            ));
                        }
                    }
                } else {
                    proof {
                        assert(!emit_pair(
                            sv[i as int],
                            sv[j as int],
                            window_ms,
                            min_confidence_ppm,
                        ));
                    }
                }
            },
            _ => {
                proof {
                    assert(!past_window(sv[i as int], sv[j as int], window_ms));
                    assert(!emit_pair(
                        sv[i as int],
                        sv[j as int],
                        window_ms,
                        min_confidence_ppm,
                    ));
                }
            },
        }
        j += 1;
    }
    proof {
        assert(scan_row(sv, window_ms, min_confidence_ppm, i as int, n as int)
            =~= Seq::<CorrelationView>::empty());
    }
}

/// Runs the scan over an already sorted snapshot.
fn scan_sorted(s: &Vec<Event>, window_ms: u64, min_confidence_ppm: u64) -> (r: Vec<Correlation>)
    requires
        events_sorted(s.deep_view()),
    ensures
        r.deep_view() == scan_upto(
            s.deep_view(),
            window_ms,
            min_confidence_ppm,
            s.deep_view().len() as int,
        ),
{
    let n = s.len();
    let mut result: Vec<Correlation> = Vec::new();
    proof {
        assert(result.deep_view() =~= Seq::<CorrelationView>::empty());
    }
    let mut i: usize = 0;
    while i < n
        invariant
            n == s@.len(),
            i <= n,
            events_sorted(s.deep_view()),
            result.deep_view() == scan_upto(s.deep_view(), window_ms, min_confidence_ppm, i as int),
        decreases n - i,
    {
        scan_row_exec(s, window_ms, min_confidence_ppm, i, &mut result);
        i += 1;
    }
    result
}

// ------------------------------------------------------------------
// The correlation engine
// ------------------------------------------------------------------

/// The event correlation engine: an event store plus the two fixed
/// thresholds, the time window in milliseconds and the minimum confidence
/// in millionths.
pub struct RustCorrelator {
    events: Vec<Event>,
    max_time_delta_ms: u64,
    min_confidence_ppm: u64,
}

impl RustCorrelator {
    /// The stored snapshot, in insertion order.
    pub closed spec fn spec_events(&self) -> Seq<EventView> {
        self.events.deep_view()
    }

    /// The correlation time window in milliseconds.
    pub closed spec fn spec_window_ms(&self) -> u64 {
        self.max_time_delta_ms
    }

    /// The minimum confidence for a correlation to be emitted, in millionths.
    pub closed spec fn spec_min_confidence_ppm(&self) -> u64 {
        self.min_confidence_ppm
    }

    /// Creates an engine with an empty store and the given thresholds.
    pub fn new(max_time_delta_ms: u64, min_confidence_ppm: u64) -> (r: RustCorrelator)
        ensures
            r.spec_events() == Seq::<EventView>::empty(),
            r.spec_window_ms() == max_time_delta_ms,
            r.spec_min_confidence_ppm() == min_confidence_ppm,
    {
        let events: Vec<Event> = Vec::new();
        proof {
            assert(events.deep_view() =~= Seq::<EventView>::empty());
        }
        RustCorrelator { events, max_time_delta_ms, min_confidence_ppm }
    }

    /// Appends one event to the store.
    pub fn add_event(&mut self, event: Event)
        ensures
            final(self).spec_events() == old(self).spec_events().push(event@),
            final(self).spec_window_ms() == old(self).spec_window_ms(),
            final(self).spec_min_confidence_ppm() == old(self).spec_min_confidence_ppm(),
    {
        self.events.push(event);
        proof {
            assert(self.events.deep_view() =~= old(self).events.deep_view().push(
                self.events@.last()@,
            ));
        }
    }

    /// Appends a batch of events, preserving their order.
    pub fn add_events(&mut self, events: Vec<Event>)
        ensures
            final(self).spec_events() == old(self).spec_events() + events.deep_view(),
            final(self).spec_window_ms() == old(self).spec_window_ms(),
            final(self).spec_min_confidence_ppm() == old(self).spec_min_confidence_ppm(),
    {
        let mut incoming = events;
        self.events.append(&mut incoming);
        proof {
            assert(self.events.deep_view() =~= old(self).spec_events() + events.deep_view());
        }
    }

    /// Empties the store.
    pub fn clear(&mut self)
        ensures
            final(self).spec_events() == Seq::<EventView>::empty(),
            final(self).spec_window_ms() == old(self).spec_window_ms(),
            final(self).spec_min_confidence_ppm() == old(self).spec_min_confidence_ppm(),
    {
        self.events.clear();
        proof {
            assert(self.events.deep_view() =~= Seq::<EventView>::empty());
        }
    }

    /// Number of stored events.
    pub fn len(&self) -> (n: usize)
        ensures
            n == self.spec_events().len(),
    {
        self.events.len()
    }

    /// Decides whether two event kinds may be correlated, per
    /// [`allowed_pair`].
    pub fn should_correlate(&self, source_type: &EventType, target_type: &EventType) -> (r: bool)
        ensures
            r == allowed_pair(source_type@, target_type@),
    {
        types_should_correlate(source_type, target_type)
    }

    /// Same relation as [`RustCorrelator::should_correlate`], under the name
    /// the confidence model uses for its type bonus.
    pub fn are_compatible_types(&self, source_type: &EventType, target_type: &EventType) -> (r:
        bool)
        ensures
            r == allowed_pair(source_type@, target_type@),
    {
        types_should_correlate(source_type, target_type)
    }

    /// Scores an in-window candidate pair, in millionths. The confidence
    /// model is only defined inside the window, so the delta must not
    /// exceed it.
    pub fn calculate_confidence(&self, source: &Event, target: &Event, time_delta_ms: u64) -> (c:
        u64)
        requires
            1 <= self.spec_window_ms(),
            time_delta_ms <= self.spec_window_ms(),
        ensures
            c as int == spec_confidence_ppm(
                source@,
                target@,
                time_delta_ms as int,
                self.spec_window_ms() as int,
            ),
            c <= PPM_SCALE,
    {
        confidence_ppm(source, target, time_delta_ms, self.max_time_delta_ms)
    }

    /// The shared-data similarity of two events, in millionths.
    pub fn calculate_data_similarity(&self, source: &Event, target: &Event) -> (s: u64)
        ensures
            s as int == spec_data_similarity_ppm(source@.data, target@.data),
            s <= PPM_SCALE,
    {
        proof {
            lemma_counts_bounded(source@.data, target@.data);
        }
        if source.data.len() == 0 || target.data.len() == 0 {
            return 0;
        }
        let common = count_common_keys(&source.data, &target.data);
        if common == 0 {
            return 0;
        }
        let matching = count_matching_values(&source.data, &target.data);
        proof {
            lemma_scaled_fraction_bounds(
                PPM_SCALE as int,
                count_matching(source@.data, target@.data),
                count_common(source@.data, target@.data),
            );
        }
        ((PPM_SCALE as u128) * (matching as u128) / (common as u128)) as u64
    }

    /// Computes all correlations of the current snapshot: sorted by
    /// timestamp, each source scanned against its subsequent targets inside
    /// the window.
    pub fn correlate_events(&self) -> (r: Vec<Correlation>)
        ensures
            r.deep_view() == spec_correlations(
                self.spec_events(),
                self.spec_window_ms(),
                self.spec_min_confidence_ppm(),
            ),
    {
        let sorted = sort_events_by_time(&self.events);
        scan_sorted(&sorted, self.max_time_delta_ms, self.min_confidence_ppm)
    }

    /// The correlation list of the current snapshot; same result as
    /// [`RustCorrelator::correlate_events`].
    pub fn find_correlations(&self) -> (r: Vec<Correlation>)
        ensures
            r.deep_view() == spec_correlations(
                self.spec_events(),
                self.spec_window_ms(),
                self.spec_min_confidence_ppm(),
            ),
    {
        self.correlate_events()
    }

    /// Folds the correlation list of the current snapshot into an adjacency
    /// mapping: source id to its target ids, in discovery order. Multi-edges
    /// are kept; events sharing an id merge their outgoing edges.
    pub fn build_correlation_graph(&self) -> (g: Vec<(String, Vec<String>)>)
        ensures
            adjacency_view(g@) == spec_graph(
                spec_correlations(
                    self.spec_events(),
                    self.spec_window_ms(),
                    self.spec_min_confidence_ppm(),
                ),
            ),
    {
        let corrs = self.correlate_events();
        let ghost cs = corrs.deep_view();
        let n = corrs.len();
        let mut graph: Vec<(String, Vec<String>)> = Vec::new();
        proof {
            assert(adjacency_view(graph@) =~= Seq::<(Seq<char>, Seq<Seq<char>>)>::empty());
            assert(cs.take(0) =~= Seq::<CorrelationView>::empty());
        }
        let mut i: usize = 0;
        while i < n
            invariant
                n == corrs@.len(),
                cs == corrs.deep_view(),
                i <= n,
                adjacency_view(graph@) == spec_graph(cs.take(i as int)),
            decreases n - i,
        {
            proof {
                assert(cs.take(i + 1).drop_last() =~= cs.take(i as int));
                assert(cs.take(i + 1).last() == cs[i as int]);
            }
            graph_insert(&mut graph, &corrs[i].source_event_id, &corrs[i].target_event_id);
            i += 1;
        }
        proof {
            assert(cs.take(n as int) =~= cs);
        }
        graph
    }

    /// Recomputes the correlations and reports their count, truncated mean
    /// confidence and mean time delta (zero when there are none), and the
    /// per-label counts in discovery order.
    pub fn get_statistics(&self) -> (st: CorrelationStats)
        ensures
            ({
                let cs = spec_correlations(
                    self.spec_events(),
                    self.spec_window_ms(),
                    self.spec_min_confidence_ppm(),
                );
                &&& st.total_correlations == cs.len()
                &&& st.avg_confidence_ppm as int == (if cs.len() == 0 {
                    0int
                } else {
                    sum_confidence(cs) / cs.len() as int
                })
                &&& st.avg_time_delta_ms as int == (if cs.len() == 0 {
                    0int
                } else {
                    sum_delta(cs) / cs.len() as int
                })
                &&& by_type_view(st.by_type@) == spec_by_type(cs)
            }),
    {
        let corrs = self.correlate_events();
        let ghost cs = corrs.deep_view();
        let n = corrs.len();
        let mut sum_c: u128 = 0;
        let mut sum_d: u128 = 0;
        let mut bt: Vec<(String, usize)> = Vec::new();
        proof {
            assert(by_type_view(bt@) =~= Seq::<(Seq<char>, int)>::empty());
            assert(cs.take(0) =~= Seq::<CorrelationView>::empty());
        }
        let mut i: usize = 0;
        while i < n
            invariant
                n == corrs@.len(),
                cs == corrs.deep_view(),
                i <= n,
                sum_c as int == sum_confidence(cs.take(i as int)),
                sum_d as int == sum_delta(cs.take(i as int)),
                sum_c as int <= (i as int) * (u64::MAX as int),
                sum_d as int <= (i as int) * (u64::MAX as int),
                by_type_view(bt@) == spec_by_type(cs.take(i as int)),
                forall|k: int| 0 <= k < bt@.len() ==> (#[trigger] bt@[k]).1 as int <= i as int,
            decreases n - i,
        {
            proof {
                assert(cs.take(i + 1).drop_last() =~= cs.take(i as int));
                assert(cs.take(i + 1).last() == cs[i as int]);
                assert(cs[i as int] == corrs@[i as int]@);
                assert((i as int + 1) * (u64::MAX as int) == (i as int) * (u64::MAX as int)
                    + (u64::MAX as int)) by (nonlinear_arith);
                assert((i as int + 1) * (u64::MAX as int) <= 0x1_0000_0000_0000_0000int * (
                u64::MAX as int)) by (nonlinear_arith)
                    requires
                        0 <= i as int + 1 <= 0x1_0000_0000_0000_0000int,
                ;
            }
            sum_c = sum_c + (corrs[i].confidence_ppm as u128);
            sum_d = sum_d + (corrs[i].time_delta_ms as u128);
            add_type_count(&mut bt, &corrs[i].correlation_type, Ghost(i as int));
            i += 1;
        }
        proof {
            assert(cs.take(n as int) =~= cs);
        }
        let avg_c: u64 = if n == 0 {
            0
        } else {
            proof {
                lemma_div_is_ordered(
                    sum_c as int,
                    (n as int) * (u64::MAX as int),
                    n as int,
                );
                lemma_div_multiples_vanish(u64::MAX as int, n as int);
                lemma_div_pos_is_pos(sum_c as int, n as int);
            }
            (sum_c / (n as u128)) as u64
        };
        let avg_d: u64 = if n == 0 {
            0
        } else {
            proof {
                lemma_div_is_ordered(
                    sum_d as int,
                    (n as int) * (u64::MAX as int),
                    n as int,
                );
                lemma_div_multiples_vanish(u64::MAX as int, n as int);
                lemma_div_pos_is_pos(sum_d as int, n as int);
            }
            (sum_d / (n as u128)) as u64
        };
        CorrelationStats {
            total_correlations: n,
            avg_confidence_ppm: avg_c,
            avg_time_delta_ms: avg_d,
            by_type: bt,
        }
    }

    /// Correlates user-interface interactions with API calls over the full
    /// cross product of the snapshot, in insertion order.
    pub fn correlate_ui_to_api(&self) -> (r: Vec<Correlation>)
        ensures
            r.deep_view() == spec_directional_correlations(
                Direction::UiToApi,
                self.spec_events(),
                self.spec_window_ms(),
                self.spec_min_confidence_ppm(),
            ),
    {
        directional_scan(
            &self.events,
            Direction::UiToApi,
            self.max_time_delta_ms,
            self.min_confidence_ppm,
        )
    }

    /// Correlates API responses with navigation and screen changes over the
    /// full cross product of the snapshot, in insertion order.
    pub fn correlate_api_to_navigation(&self) -> (r: Vec<Correlation>)
        ensures
            r.deep_view() == spec_directional_correlations(
                Direction::ApiToNavigation,
                self.spec_events(),
                self.spec_window_ms(),
                self.spec_min_confidence_ppm(),
            ),
    {
        directional_scan(
            &self.events,
            Direction::ApiToNavigation,
            self.max_time_delta_ms,
            self.min_confidence_ppm,
        )
    }
}

// ------------------------------------------------------------------
// Directional correlation views
// ------------------------------------------------------------------

/// A semantic direction for the restricted correlation views.
#[derive(Debug, Clone, Copy, PartialEq, Eq, Structural)]
pub enum Direction {
    UiToApi,
    ApiToNavigation,
}

/// The kind restriction of each direction.
pub open spec fn direction_matches(
    d: Direction,
    source: EventTypeView,
    target: EventTypeView,
) -> bool {
    match d {
        Direction::UiToApi => source is UiInteraction && target is ApiCall,
        Direction::ApiToNavigation => source is ApiResponse && (target is Navigation
            || target is ScreenChange),
    }
}

/// The label a directional view attaches to its correlations.
pub open spec fn spec_direction_label(d: Direction) -> Seq<char> {
    match d {
        Direction::UiToApi => "UI_TO_API"@,
        Direction::ApiToNavigation => "API_TO_NAVIGATION"@,
    }
}

/// Whether a directional view emits the ordered pair: matching kinds, a
/// finite forward delta inside the window, and confidence at or above the
/// threshold.
pub open spec fn dir_emit_pair(
    d: Direction,
    source: EventView,
    target: EventView,
    window_ms: u64,
    min_confidence_ppm: u64,
) -> bool {
    &&& window_ms >= 1
    &&& direction_matches(d, source.event_type, target.event_type)
    &&& match crate::event::spec_delta(target.timestamp, source.timestamp) {
        TimeDelta::Finite(dd) => {
            &&& 0 <= dd <= window_ms
            &&& spec_confidence_ppm(source, target, dd as int, window_ms as int)
                >= min_confidence_ppm
        },
        _ => false,
    }
}

/// The correlation record a directional view emits for an in-window pair.
pub open spec fn dir_corr(
    d: Direction,
    source: EventView,
    target: EventView,
    window_ms: u64,
) -> CorrelationView {
    CorrelationView {
        source_id: source.event_id,
        target_id: target.event_id,
        confidence_ppm: spec_confidence_ppm(
            source,
            target,
            finite_delta(source, target),
            window_ms as int,
        ),
        time_delta_ms: finite_delta(source, target),
        label: spec_direction_label(d),
    }
}

/// Directional emissions of source `i` against the targets below index `j`,
/// in order.
pub open spec fn dir_row_upto(
    d: Direction,
    s: Seq<EventView>,
    window_ms: u64,
    min_confidence_ppm: u64,
    i: int,
    j: int,
) -> Seq<CorrelationView>
    decreases j,
{
    if j <= 0 || j > s.len() {
        Seq::<CorrelationView>::empty()
    } else {
        dir_row_upto(d, s, window_ms, min_confidence_ppm, i, j - 1) + (if dir_emit_pair(
            d,
            s[i],
            s[j - 1],
            window_ms,
            min_confidence_ppm,
        ) {
            seq![dir_corr(d, s[i], s[j - 1], window_ms)]
        } else {
            Seq::<CorrelationView>::empty()
        })
    }
}

/// Directional emissions of all sources below index `i`, each scanned over
/// the whole snapshot.
pub open spec fn dir_upto(
    d: Direction,
    s: Seq<EventView>,
    window_ms: u64,
    min_confidence_ppm: u64,
    i: int,
) -> Seq<CorrelationView>
    decreases i,
{
    if i <= 0 {
        Seq::<CorrelationView>::empty()
    } else {
        dir_upto(d, s, window_ms, min_confidence_ppm, i - 1) + dir_row_upto(
            d,
            s,
            window_ms,
            min_confidence_ppm,
            i - 1,
            s.len() as int,
        )
    }
}

/// A directional view: the full cross product of the snapshot in insertion
/// order, restricted to one direction; time ordering is still required.
pub open spec fn spec_directional_correlations(
    d: Direction,
    events: Seq<EventView>,
    window_ms: u64,
    min_confidence_ppm: u64,
) -> Seq<CorrelationView> {
    dir_upto(d, events, window_ms, min_confidence_ppm, events.len() as int)
}

// ------------------------------------------------------------------
// Association lists keyed by character sequences
// ------------------------------------------------------------------

/// Whether the association list holds an entry for `key`.
pub open spec fn assoc_has_key<V>(s: Seq<(Seq<char>, V)>, key: Seq<char>) -> bool {
    exists|k: int| 0 <= k < s.len() && s[k].0 == key
}

/// Index of the first entry for `key`, or `s.len()` if there is none.
pub open spec fn assoc_key_index<V>(s: Seq<(Seq<char>, V)>, key: Seq<char>) -> int
    decreases s.len(),
{
    if s.len() == 0 {
        0
    } else if s[0].0 == key {
        0
    } else {
        1 + assoc_key_index(s.drop_first(), key)
    }
}

pub proof fn lemma_assoc_key_index_found<V>(s: Seq<(Seq<char>, V)>, key: Seq<char>, i: int)
    requires
        0 <= i < s.len(),
        s[i].0 == key,
        forall|k: int| 0 <= k < i ==> s[k].0 != key,
    ensures
        assoc_key_index(s, key) == i,
    decreases s.len(),
{
    if i > 0 {
        lemma_assoc_key_index_found(s.drop_first(), key, i - 1);
    }
}

// ------------------------------------------------------------------
// Graph view
// ------------------------------------------------------------------

/// The adjacency mapping after one more edge: the target id is appended to
/// the source's list, merging entries by exact source id; a new source is
/// appended at the end.
pub open spec fn graph_add_edge(
    g: Seq<(Seq<char>, Seq<Seq<char>>)>,
    src: Seq<char>,
    tgt: Seq<char>,
) -> Seq<(Seq<char>, Seq<Seq<char>>)> {
    if assoc_has_key(g, src) {
        let k = assoc_key_index(g, src);
        g.update(k, (g[k].0, g[k].1.push(tgt)))
    } else {
        g.push((src, seq![tgt]))
    }
}

/// The dependency graph of a correlation list: source id mapped to its
/// targets in discovery order; multi-edges are kept, and events sharing an
/// id merge their outgoing edges.
pub open spec fn spec_graph(cs: Seq<CorrelationView>) -> Seq<(Seq<char>, Seq<Seq<char>>)>
    decreases cs.len(),
{
    if cs.len() == 0 {
        Seq::<(Seq<char>, Seq<Seq<char>>)>::empty()
    } else {
        graph_add_edge(
            spec_graph(cs.drop_last()),
            cs.last().source_id,
            cs.last().target_id,
        )
    }
}

/// Model of an adjacency list held in vectors.
pub open spec fn adjacency_view(g: Seq<(String, Vec<String>)>) -> Seq<
    (Seq<char>, Seq<Seq<char>>),
> {
    g.map_values(|p: (String, Vec<String>)| (p.0@, p.1.deep_view()))
}

/// Adds one edge to the adjacency list, merging by source id.
fn graph_insert(g: &mut Vec<(String, Vec<String>)>, src: &String, tgt: &String)
    ensures
        adjacency_view(final(g)@) == graph_add_edge(adjacency_view(old(g)@), src@, tgt@),
{
    let n = g.len();
    let mut k: usize = 0;
    while k < n
        invariant
            n == g@.len(),
            k <= n,
            *g == *old(g),
            forall|m: int| 0 <= m < k ==> adjacency_view(g@)[m].0 != src@,
        decreases n - k,
    {
        if g[k].0 == *src {
            proof {
                assert(adjacency_view(g@)[k as int].0 == src@);
                lemma_assoc_key_index_found(adjacency_view(g@), src@, k as int);
            }
            let mut entry = g.remove(k);
            entry.1.push(tgt.clone());
            g.insert(k, entry);
            proof {
                assert(adjacency_view(g@) =~~= graph_add_edge(
                    adjacency_view(old(g)@),
                    src@,
                    tgt@,
                ));
            }
            return ;
        }
        k += 1;
    }
    let mut targets: Vec<String> = Vec::new();
    targets.push(tgt.clone());
    g.push((src.clone(), targets));
    proof {
        assert(!assoc_has_key(adjacency_view(old(g)@), src@));
        assert(adjacency_view(g@) =~~= graph_add_edge(adjacency_view(old(g)@), src@, tgt@));
    }
}

// ------------------------------------------------------------------
// Statistics view
// ------------------------------------------------------------------

/// Aggregate statistics of a correlation pass. Averages are truncated
/// fixed-point values and report zero when there are no correlations.
#[derive(Debug)]
pub struct CorrelationStats {
    pub total_correlations: usize,
    pub avg_confidence_ppm: u64,
    pub avg_time_delta_ms: u64,
    pub by_type: Vec<(String, usize)>,
}

/// Sum of the confidence scores of a correlation list.
pub open spec fn sum_confidence(cs: Seq<CorrelationView>) -> int
    decreases cs.len(),
{
    if cs.len() == 0 {
        0
    } else {
        sum_confidence(cs.drop_last()) + cs.last().confidence_ppm
    }
}

/// Sum of the time deltas of a correlation list.
pub open spec fn sum_delta(cs: Seq<CorrelationView>) -> int
    decreases cs.len(),
{
    if cs.len() == 0 {
        0
    } else {
        sum_delta(cs.drop_last()) + cs.last().time_delta_ms
    }
}

/// The per-label counts after one more correlation of label `lab`.
pub open spec fn type_counts_add(m: Seq<(Seq<char>, int)>, lab: Seq<char>) -> Seq<
    (Seq<char>, int),
> {
    if assoc_has_key(m, lab) {
        let k = assoc_key_index(m, lab);
        m.update(k, (m[k].0, m[k].1 + 1))
    } else {
        m.push((lab, 1))
    }
}

/// Count of correlations per label, in discovery order of the labels.
pub open spec fn spec_by_type(cs: Seq<CorrelationView>) -> Seq<(Seq<char>, int)>
    decreases cs.len(),
{
    if cs.len() == 0 {
        Seq::<(Seq<char>, int)>::empty()
    } else {
        type_counts_add(spec_by_type(cs.drop_last()), cs.last().label)
    }
}

/// Model of a per-label count table held in vectors.
pub open spec fn by_type_view(bt: Seq<(String, usize)>) -> Seq<(Seq<char>, int)> {
    bt.map_values(|p: (String, usize)| (p.0@, p.1 as int))
}

/// Bumps the count of `label`, appending a fresh entry when it is new. The
/// ghost bound caps every current count so the increment cannot overflow.
pub(crate) fn add_type_count(bt: &mut Vec<(String, usize)>, label: &String, Ghost(bound): Ghost<int>)
    requires
        0 <= bound,
        bound + 1 <= usize::MAX as int,
        forall|m: int| 0 <= m < old(bt)@.len() ==> (#[trigger] old(bt)@[m]).1 as int <= bound,
    ensures
        by_type_view(final(bt)@) == type_counts_add(by_type_view(old(bt)@), label@),
        forall|m: int|
            0 <= m < final(bt)@.len() ==> (#[trigger] final(bt)@[m]).1 as int <= bound + 1,
{
    let n = bt.len();
    let mut k: usize = 0;
    while k < n
        invariant
            n == bt@.len(),
            k <= n,
            *bt == *old(bt),
            0 <= bound,
            bound + 1 <= usize::MAX as int,
            forall|m: int| 0 <= m < old(bt)@.len() ==> (#[trigger] old(bt)@[m]).1 as int <= bound,
            forall|m: int| 0 <= m < k ==> by_type_view(bt@)[m].0 != label@,
        decreases n - k,
    {
        if bt[k].0 == *label {
            proof {
                assert(by_type_view(bt@)[k as int].0 == label@);
                lemma_assoc_key_index_found(by_type_view(bt@), label@, k as int);
            }
            let kept = bt[k].0.clone();
            let count = bt[k].1;
            proof {
                assert((k as int) < old(bt)@.len());
                assert(old(bt)@[k as int] == bt@[k as int]);
                assert(old(bt)@[k as int].1 as int <= bound);
            }
            bt.set(k, (kept, count + 1));
            proof {
                assert(by_type_view(bt@) =~~= type_counts_add(
                    by_type_view(old(bt)@),
                    label@,
                ));
                assert forall|m: int| 0 <= m < bt@.len() implies bt@[m].1 as int <= bound
                    + 1 by {
                    if m != k as int {
                        assert(bt@[m] == old(bt)@[m]);
                    }
                }
            }
            return ;
        }
        k += 1;
    }
    bt.push((label.clone(), 1));
    proof {
        assert(!assoc_has_key(by_type_view(old(bt)@), label@));
        assert(by_type_view(bt@) =~~= type_counts_add(by_type_view(old(bt)@), label@));
    }
}

/// Decides the kind restriction of a direction.
fn direction_matches_exec(d: Direction, source: &EventType, target: &EventType) -> (r: bool)
    ensures
        r == direction_matches(d, source@, target@),
{
    match d {
        Direction::UiToApi => {
            let s = matches!(source, EventType::UiInteraction);
            let t = matches!(target, EventType::ApiCall);
            s && t
        },
        Direction::ApiToNavigation => {
            let s = matches!(source, EventType::ApiResponse);
            let t = matches!(target, EventType::Navigation) || matches!(
                target,
                EventType::ScreenChange,
            );
            s && t
        },
    }
}

/// Builds the label of [`spec_direction_label`].
fn direction_label(d: Direction) -> (r: String)
    ensures
        r@ == spec_direction_label(d),
{
    match d {
        Direction::UiToApi => String::from_str("UI_TO_API"),
        Direction::ApiToNavigation => String::from_str("API_TO_NAVIGATION"),
    }
}

/// Runs one directional view over the snapshot.
fn directional_scan(
    events: &Vec<Event>,
    d: Direction,
    window_ms: u64,
    min_confidence_ppm: u64,
) -> (r: Vec<Correlation>)
    ensures
        r.deep_view() == spec_directional_correlations(
            d,
            events.deep_view(),
            window_ms,
            min_confidence_ppm,
        ),
{
    let ghost sv = events.deep_view();
    let n = events.len();
    let mut result: Vec<Correlation> = Vec::new();
    proof {
        assert(result.deep_view() =~= Seq::<CorrelationView>::empty());
    }
    let mut i: usize = 0;
    while i < n
        invariant
            n == events@.len(),
            sv == events.deep_view(),
            i <= n,
            result.deep_view() == dir_upto(d, sv, window_ms, min_confidence_ppm, i as int),
        decreases n - i,
    {
        let mut j: usize = 0;
        while j < n
            invariant
                n == events@.len(),
                sv == events.deep_view(),
                i < n,
                j <= n,
                result.deep_view() == dir_upto(d, sv, window_ms, min_confidence_ppm, i as int)
                    + dir_row_upto(d, sv, window_ms, min_confidence_ppm, i as int, j as int),
            decreases n - j,
        {
            proof {
                assert(sv[i as int].timestamp == events@[i as int].timestamp);
                assert(sv[j as int].timestamp == events@[j as int].timestamp);
            }
            let mut emitted = false;
            if direction_matches_exec(d, &events[i].event_type, &events[j].event_type) {
                let delta = crate::event::time_delta(
                    &events[j].timestamp,
                    &events[i].timestamp,
                );
                if let TimeDelta::Finite(dv) = delta {
                    if 0 <= dv && dv <= window_ms as i128 && window_ms >= 1 {
                        let conf = confidence_ppm(&events[i], &events[j], dv as u64, window_ms);
                        if conf >= min_confidence_ppm {
                            proof {
                                assert(dir_emit_pair(
                                    d,
                                    sv[i as int],
                                    sv[j as int],
                                    window_ms,
                                    min_confidence_ppm,
                                ));
                            }
                            let corr = Correlation {
                                source_event_id: events[i].event_id.clone(),
                                target_event_id: events[j].event_id.clone(),
                                confidence_ppm: conf,
                                time_delta_ms: dv as u64,
                                correlation_type: direction_label(d),
                            };
                            proof {
                                assert(corr@ == dir_corr(
                                    d,
                                    sv[i as int],
                                    sv[j as int],
                                    window_ms,
                                ));
                            }
                            let ghost before = result.deep_view();
                            result.push(corr);
                            proof {
                                assert(result.deep_view() =~= before.push(corr@));
                            }
                            emitted = true;
                        }
                    }
                }
            }
            proof {
                if !emitted {
                    assert(!dir_emit_pair(
                        d,
                        sv[i as int],
                        sv[j as int],
                        window_ms,
                        min_confidence_ppm,
                    ));
                    assert(result.deep_view() =~= dir_upto(
                        d,
                        sv,
                        window_ms,
                        min_confidence_ppm,
                        i as int,
                    ) + dir_row_upto(d, sv, window_ms, min_confidence_ppm, i as int, j + 1));
                } else {
                    assert(result.deep_view() =~= dir_upto(
                        d,
                        sv,
                        window_ms,
                        min_confidence_ppm,
                        i as int,
                    ) + dir_row_upto(d, sv, window_ms, min_confidence_ppm, i as int, j + 1));
                }
            }
            j += 1;
        }
        i += 1;
    }
    result
}

} // verus!

//! Event records and the timestamp model.
//!
//! Telemetry sources hand the engine 64-bit float timestamps that may be NaN
//! or infinite. The library keeps a reading as a [`Timestamp`]: finite
//! readings as whole milliseconds, the three non-finite shapes as explicit
//! variants. Sorting uses a documented total order ([`ts_le`]): negative
//! infinity first, finite values in numeric order, positive infinity after
//! every finite value, and NaN after everything else.

use vstd::prelude::*;

verus! {

/// A session timestamp in milliseconds, including the non-finite readings a
/// float channel can deliver.
#[derive(Debug, Clone, Copy, PartialEq, Eq, Structural)]
pub enum Timestamp {
    NegInf,
    Finite(i64),
    PosInf,
    NaN,
}

/// The difference of two timestamps under IEEE subtraction rules, as a shape
/// rather than a float: any NaN operand gives NaN, like infinities cancel to
/// NaN, and only two finite readings give a finite difference.
#[derive(Debug, Clone, Copy, PartialEq, Eq, Structural)]
pub enum TimeDelta {
    NegInf,
    Finite(i128),
    PosInf,
    NaN,
}

/// Position of a timestamp shape in the sorting convention.
pub open spec fn rank(t: Timestamp) -> int {
    match t {
        Timestamp::NegInf => 0,
        Timestamp::Finite(_) => 1,
        Timestamp::PosInf => 2,
        Timestamp::NaN => 3,
    }
}

/// The total order on timestamps used for sorting: NegInf, then finite values
/// in numeric order, then PosInf, then NaN.
pub open spec fn ts_le(a: Timestamp, b: Timestamp) -> bool {
    if rank(a) != rank(b) {
        rank(a) < rank(b)
    } else {
        match (a, b) {
            (Timestamp::Finite(x), Timestamp::Finite(y)) => x <= y,
            _ => true,
        }
    }
}

pub proof fn lemma_ts_le_total(a: Timestamp, b: Timestamp)
    ensures
        ts_le(a, b) || ts_le(b, a),
{
}

pub proof fn lemma_ts_le_transitive(a: Timestamp, b: Timestamp, c: Timestamp)
    ensures
        ts_le(a, b) && ts_le(b, c) ==> ts_le(a, c),
{
}

pub proof fn lemma_ts_le_antisymmetric(a: Timestamp, b: Timestamp)
    ensures
        ts_le(a, b) && ts_le(b, a) ==> a == b,
{
}

/// Comparator for sorting events by timestamp.
pub fn timestamp_le(a: &Timestamp, b: &Timestamp) -> (r: bool)
    ensures
        r == ts_le(*a, *b),
{
    match (a, b) {
        (Timestamp::Finite(x), Timestamp::Finite(y)) => *x <= *y,
        (Timestamp::NegInf, _) => true,
        (_, Timestamp::NaN) => true,
        (Timestamp::Finite(_), Timestamp::PosInf) => true,
        (Timestamp::PosInf, Timestamp::PosInf) => true,
        _ => false,
    }
}

/// IEEE-style subtraction `target - source` on timestamp shapes.
pub open spec fn spec_delta(target: Timestamp, source: Timestamp) -> TimeDelta {
    match (target, source) {
        (Timestamp::NaN, _) => TimeDelta::NaN,
        (_, Timestamp::NaN) => TimeDelta::NaN,
        (Timestamp::Finite(t), Timestamp::Finite(s)) => TimeDelta::Finite((t - s) as i128),
        (Timestamp::PosInf, Timestamp::PosInf) => TimeDelta::NaN,
        (Timestamp::PosInf, _) => TimeDelta::PosInf,
        (Timestamp::NegInf, Timestamp::NegInf) => TimeDelta::NaN,
        (Timestamp::NegInf, _) => TimeDelta::NegInf,
        (Timestamp::Finite(_), Timestamp::PosInf) => TimeDelta::NegInf,
        (Timestamp::Finite(_), Timestamp::NegInf) => TimeDelta::PosInf,
    }
}

/// Computes `target - source` under the IEEE subtraction rules of
/// [`spec_delta`].
pub fn time_delta(target: &Timestamp, source: &Timestamp) -> (d: TimeDelta)
    ensures
        d == spec_delta(*target, *source),
{
    match (target, source) {
        (Timestamp::NaN, _) => TimeDelta::NaN,
        (_, Timestamp::NaN) => TimeDelta::NaN,
        (Timestamp::Finite(t), Timestamp::Finite(s)) => TimeDelta::Finite(
            (*t as i128) - (*s as i128),
        ),
        (Timestamp::PosInf, Timestamp::PosInf) => TimeDelta::NaN,
        (Timestamp::PosInf, _) => TimeDelta::PosInf,
        (Timestamp::NegInf, Timestamp::NegInf) => TimeDelta::NaN,
        (Timestamp::NegInf, _) => TimeDelta::NegInf,
        (Timestamp::Finite(_), Timestamp::PosInf) => TimeDelta::NegInf,
        (Timestamp::Finite(_), Timestamp::NegInf) => TimeDelta::PosInf,
    }
}

/// The kind tag of a session event: the five first-class kinds the engine
/// correlates, plus an open fallback for unrecognized telemetry tags.
#[derive(Debug, PartialEq)]
pub enum EventType {
    UiInteraction,
    ApiCall,
    ApiResponse,
    Navigation,
    ScreenChange,
    Other(String),
}

/// Mathematical model of an event kind tag.
pub enum EventTypeView {
    UiInteraction,
    ApiCall,
    ApiResponse,
    Navigation,
    ScreenChange,
    Other(Seq<char>),
}

impl View for EventType {
    type V = EventTypeView;

    open spec fn view(&self) -> EventTypeView {
        match self {
            EventType::UiInteraction => EventTypeView::UiInteraction,
            EventType::ApiCall => EventTypeView::ApiCall,
            EventType::ApiResponse => EventTypeView::ApiResponse,
            EventType::Navigation => EventTypeView::Navigation,
            EventType::ScreenChange => EventTypeView::ScreenChange,
            EventType::Other(s) => EventTypeView::Other(s@),
        }
    }
}

impl Clone for EventType {
    /// Clones preserve the tag exactly.
    fn clone(&self) -> (r: Self)
        ensures
            r@ == self@,
    {
        match self {
            EventType::UiInteraction => EventType::UiInteraction,
            EventType::ApiCall => EventType::ApiCall,
            EventType::ApiResponse => EventType::ApiResponse,
            EventType::Navigation => EventType::Navigation,
            EventType::ScreenChange => EventType::ScreenChange,
            EventType::Other(s) => EventType::Other(s.clone()),
        }
    }
}

/// A single event in the session timeline. The `data` field is an association
/// list of key/value context pairs; [`Event::add_data`] keeps one entry per
/// key, as a string map would.
#[derive(Debug)]
pub struct Event {
    pub event_id: String,
    pub event_type: EventType,
    pub timestamp: Timestamp,
    pub data: Vec<(String, String)>,
}

/// Mathematical model of an event: id and context entries as character
/// sequences, the kind tag and timestamp as their models.
pub struct EventView {
    pub event_id: Seq<char>,
    pub event_type: EventTypeView,
    pub timestamp: Timestamp,
    pub data: Seq<(Seq<char>, Seq<char>)>,
}

/// The context entries of an event, as character sequences.
pub open spec fn data_view(data: Seq<(String, String)>) -> Seq<(Seq<char>, Seq<char>)> {
    data.map_values(|p: (String, String)| (p.0@, p.1@))
}

impl View for Event {
    type V = EventView;

    open spec fn view(&self) -> EventView {
        EventView {
            event_id: self.event_id@,
            event_type: self.event_type@,
            timestamp: self.timestamp,
            data: data_view(self.data@),
        }
    }
}

impl DeepView for Event {
    type V = EventView;

    open spec fn deep_view(&self) -> EventView {
        self.view()
    }
}

/// Whether the association list holds an entry for `key`.
pub open spec fn has_key(data: Seq<(Seq<char>, Seq<char>)>, key: Seq<char>) -> bool {
    exists|i: int| 0 <= i < data.len() && data[i].0 == key
}

/// Index of the first entry for `key`, or `data.len()` if there is none.
pub open spec fn key_index(data: Seq<(Seq<char>, Seq<char>)>, key: Seq<char>) -> int
    decreases data.len(),
{
    if data.len() == 0 {
        0
    } else if data[0].0 == key {
        0
    } else {
        1 + key_index(data.drop_first(), key)
    }
}

/// The value stored for `key`, if any.
pub open spec fn spec_lookup(data: Seq<(Seq<char>, Seq<char>)>, key: Seq<char>) -> Option<
    Seq<char>,
> {
    if has_key(data, key) {
        Some(data[key_index(data, key)].1)
    } else {
        None
    }
}

/// `data` after storing `value` under `key`: the first entry for `key` is
/// replaced, or a new entry is appended.
pub open spec fn spec_upsert(
    data: Seq<(Seq<char>, Seq<char>)>,
    key: Seq<char>,
    value: Seq<char>,
) -> Seq<(Seq<char>, Seq<char>)> {
    if has_key(data, key) {
        data.update(key_index(data, key), (key, value))
    } else {
        data.push((key, value))
    }
}

pub proof fn lemma_key_index_found(data: Seq<(Seq<char>, Seq<char>)>, key: Seq<char>, i: int)
    requires
        0 <= i < data.len(),
        data[i].0 == key,
        forall|k: int| 0 <= k < i ==> data[k].0 != key,
    ensures
        key_index(data, key) == i,
    decreases data.len(),
{
    if i > 0 {
        lemma_key_index_found(data.drop_first(), key, i - 1);
    }
}

pub proof fn lemma_key_index_absent(data: Seq<(Seq<char>, Seq<char>)>, key: Seq<char>)
    requires
        forall|k: int| 0 <= k < data.len() ==> data[k].0 != key,
    ensures
        !has_key(data, key),
{
}

fn clone_data(data: &Vec<(String, String)>) -> (r: Vec<(String, String)>)
    ensures
        r@ == data@,
{
    let n = data.len();
    let mut out: Vec<(String, String)> = Vec::new();
    let mut i: usize = 0;
    while i < n
        invariant
            n == data@.len(),
            i <= n,
            out@ == data@.take(i as int),
        decreases n - i,
    {
        out.push((data[i].0.clone(), data[i].1.clone()));
        proof {
            assert(out@ =~= data@.take(i + 1));
        }
        i += 1;
    }
    proof {
        assert(data@.take(n as int) =~= data@);
    }
    out
}

impl Clone for Event {
    /// Clones preserve every field of the model exactly.
    fn clone(&self) -> (r: Self)
        ensures
            r@ == self@,
    {
        Event {
            event_id: self.event_id.clone(),
            event_type: self.event_type.clone(),
            timestamp: self.timestamp,
            data: clone_data(&self.data),
        }
    }
}

impl Event {
    /// Creates an event with an empty context map.
    pub fn new(event_id: String, event_type: EventType, timestamp: Timestamp) -> (e: Event)
        ensures
            e@.event_id == event_id@,
            e@.event_type == event_type@,
            e@.timestamp == timestamp,
            e@.data == Seq::<(Seq<char>, Seq<char>)>::empty(),
    {
        proof {
            assert(data_view(Seq::<(String, String)>::empty()) =~= Seq::<
                (Seq<char>, Seq<char>),
            >::empty());
        }
        Event { event_id, event_type, timestamp, data: Vec::new() }
    }

    /// Stores a context key/value pair, replacing any earlier value for the
    /// same key.
    pub fn add_data(&mut self, key: String, value: String)
        ensures
            final(self)@.event_id == old(self)@.event_id,
            final(self)@.event_type == old(self)@.event_type,
            final(self)@.timestamp == old(self)@.timestamp,
            final(self)@.data == spec_upsert(old(self)@.data, key@, value@),
    {
        let n = self.data.len();
        let mut i: usize = 0;
        while i < n
            invariant
                n == self.data.len(),
                i <= n,
                *self == *old(self),
                forall|k: int| 0 <= k < i ==> self@.data[k].0 != key@,
            decreases n - i,
        {
            if self.data[i].0 == key {
                proof {
                    assert(old(self)@.data[i as int].0 == key@);
                    assert(has_key(old(self)@.data, key@));
                    lemma_key_index_found(self@.data, key@, i as int);
                }
                let kept = self.data[i].0.clone();
                self.data.set(i, (kept, value));
                proof {
                    assert(kept@ == key@);
                    assert(self@.data =~~= spec_upsert(old(self)@.data, key@, value@));
                }
                return ;
            }
            i += 1;
        }
        proof {
            lemma_key_index_absent(self@.data, key@);
        }
        self.data.push((key, value));
        proof {
            assert(self@.data =~~= spec_upsert(old(self)@.data, key@, value@));
        }
    }
}

} // verus!

//! The population protocol: the per-event decisions of the two producers,
//! and the laws that make their uncoordinated race safe.
//!
//! The two producers run concurrently with no ordering barrier, so the store
//! sees an arbitrary interleaving of their writes. [`ProducerEvent`] and
//! [`run_events`] model such an interleaving as a sequence of events folded
//! over the abstract map, each event transforming it exactly as the
//! corresponding store operation's contract says. The proof functions here
//! state why any interleaving ends well: the stream merger always
//! overwrites, the bulk loader only fills gaps.

use vstd::prelude::*;

use crate::store::bulk_merge;
use crate::store::lemma_bulk_merge_preserves_existing;
use crate::store::lemma_bulk_merge_untouched;
use crate::store::lemma_bulk_merge_fills_gap;
use crate::store::StreamCache;

verus! {

impl StreamCache {
    /// One step of the stream merger: a well-formed item is applied at once
    /// (the stream is authoritative for keys it touches), a malformed item
    /// is discarded and the merger carries on with the next one.
    pub fn apply_stream_item(&mut self, item: Result<(String, u64), String>)
        ensures
            final(self)@ == (match item {
                Ok(update) => old(self)@.insert(update.0@, update.1),
                Err(_) => old(self)@,
            }),
    {
        match item {
            Ok((key, value)) => self.apply_update(key, value),
            Err(_) => (),
        }
    }

    /// The bulk loader's one and only step: a successful fetch seeds every
    /// key the store does not know yet, and a failed fetch changes nothing;
    /// the error message is handed back so the embedding program may report
    /// it. Neither outcome is retried, and neither reaches lookup callers.
    pub fn apply_fetch_result(&mut self, fetched: Result<Vec<(String, u64)>, String>) -> (report:
        Option<String>)
        ensures
            final(self)@ == (match fetched {
                Ok(entries) => bulk_merge(old(self)@, entries.deep_view()),
                Err(_) => old(self)@,
            }),
            report == (match fetched {
                Ok(_) => None::<String>,
                Err(message) => Some(message),
            }),
    {
        match fetched {
            Ok(entries) => {
                self.apply_bulk(entries);
                None
            },
            Err(message) => Some(message),
        }
    }
}

/// One write-side event of an interleaved run of the two producers, as it
/// reaches the cache store.
pub enum ProducerEvent {
    /// The stream merger applied a well-formed item for a key.
    Update(Seq<char>, u64),
    /// The stream merger met a malformed item and discarded it.
    StreamError,
    /// The bulk loader's fetch resolved with a snapshot.
    BulkLoaded(Seq<(Seq<char>, u64)>),
    /// The bulk loader's fetch failed; the loader gives up for good.
    BulkFailed,
}

/// What one event does to the abstract map: exactly what the contract of the
/// corresponding store operation says.
pub open spec fn apply_event(m: Map<Seq<char>, u64>, e: ProducerEvent) -> Map<Seq<char>, u64> {
    match e {
        ProducerEvent::Update(k, v) => m.insert(k, v),
        ProducerEvent::StreamError => m,
        ProducerEvent::BulkLoaded(entries) => bulk_merge(m, entries),
        ProducerEvent::BulkFailed => m,
    }
}

/// The map after a whole interleaving of producer events, applied in order
/// to a starting map.
pub open spec fn run_events(m: Map<Seq<char>, u64>, events: Seq<ProducerEvent>) -> Map<
    Seq<char>,
    u64,
>
    decreases events.len(),
{
    if events.len() == 0 {
        m
    } else {
        apply_event(run_events(m, events.drop_last()), events.last())
    }
}

/// Does the event carry the key at all?
pub open spec fn touches(e: ProducerEvent, k: Seq<char>) -> bool {
    match e {
        ProducerEvent::Update(k2, _) => k2 == k,
        ProducerEvent::StreamError => false,
        ProducerEvent::BulkLoaded(entries) => exists|i: int|
            0 <= i < entries.len() && entries[i].0 == k,
        ProducerEvent::BulkFailed => false,
    }
}

/// Is the event a stream write of this very key?
pub open spec fn is_update_of(e: ProducerEvent, k: Seq<char>) -> bool {
    match e {
        ProducerEvent::Update(k2, _) => k2 == k,
        _ => false,
    }
}

proof fn lemma_apply_event_untouched(m: Map<Seq<char>, u64>, e: ProducerEvent, k: Seq<char>)
    requires
        !touches(e, k),
    ensures
        apply_event(m, e).contains_key(k) == m.contains_key(k),
        m.contains_key(k) ==> apply_event(m, e)[k] == m[k],
{
    match e {
        ProducerEvent::BulkLoaded(entries) => {
            assert(forall|i: int| 0 <= i < entries.len() ==> entries[i].0 != k);
            if m.contains_key(k) {
                lemma_bulk_merge_preserves_existing(m, entries, k);
            } else {
                lemma_bulk_merge_untouched(m, entries, k);
            }
        },
        _ => (),
    }
}

/// A key that no event of the run touches keeps whatever binding the
/// starting map gave it — in particular none at all.
pub proof fn lemma_run_leaves_untouched_key(
    m: Map<Seq<char>, u64>,
    events: Seq<ProducerEvent>,
    k: Seq<char>,
)
    requires
        forall|i: int| 0 <= i < events.len() ==> !touches(#[trigger] events[i], k),
    ensures
        run_events(m, events).contains_key(k) == m.contains_key(k),
        m.contains_key(k) ==> run_events(m, events)[k] == m[k],
    decreases events.len(),
{
    if events.len() > 0 {
        let prefix = events.drop_last();
        assert(forall|i: int| 0 <= i < prefix.len() ==> prefix[i] == events[i]);
        lemma_run_leaves_untouched_key(m, prefix, k);
        lemma_apply_event_untouched(run_events(m, prefix), events.last(), k);
    }
}

/// On a store that starts empty, a key never touched by either producer
/// stays absent, so a lookup for it reports absence, which is not an error.
pub proof fn lemma_untouched_key_stays_absent(events: Seq<ProducerEvent>, k: Seq<char>)
    requires
        forall|i: int| 0 <= i < events.len() ==> !touches(#[trigger] events[i], k),
    ensures
        !run_events(Map::<Seq<char>, u64>::empty(), events).contains_key(k),
{
    lemma_run_leaves_untouched_key(Map::<Seq<char>, u64>::empty(), events, k);
}

proof fn lemma_bulk_fill_from(
    m: Map<Seq<char>, u64>,
    events: Seq<ProducerEvent>,
    entries: Seq<(Seq<char>, u64)>,
    k: Seq<char>,
    i: int,
    j: int,
)
    requires
        !m.contains_key(k),
        0 <= i < events.len(),
        events[i] == ProducerEvent::BulkLoaded(entries),
        0 <= j < entries.len(),
        entries[j].0 == k,
        forall|l: int| 0 <= l < j ==> entries[l].0 != k,
        forall|l: int| 0 <= l < events.len() && l != i ==> !touches(#[trigger] events[l], k),
    ensures
        run_events(m, events).contains_key(k),
        run_events(m, events)[k] == entries[j].1,
    decreases events.len(),
{
    let prefix = events.drop_last();
    assert(forall|l: int| 0 <= l < prefix.len() ==> prefix[l] == events[l]);
    if i == events.len() - 1 {
        assert(forall|l: int| 0 <= l < prefix.len() ==> !touches(#[trigger] prefix[l], k));
        lemma_run_leaves_untouched_key(m, prefix, k);
        lemma_bulk_merge_fills_gap(run_events(m, prefix), entries, k, j);
    } else {
        lemma_bulk_fill_from(m, prefix, entries, k, i, j);
        lemma_apply_event_untouched(run_events(m, prefix), events.last(), k);
    }
}

/// A key touched only by the bulk loader ends bound to exactly its bulk
/// value: the value at the key's first occurrence in the fetched snapshot.
pub proof fn lemma_bulk_only_key_gets_bulk_value(
    events: Seq<ProducerEvent>,
    entries: Seq<(Seq<char>, u64)>,
    k: Seq<char>,
    i: int,
    j: int,
)
    requires
        0 <= i < events.len(),
        events[i] == ProducerEvent::BulkLoaded(entries),
        0 <= j < entries.len(),
        entries[j].0 == k,
        forall|l: int| 0 <= l < j ==> entries[l].0 != k,
        forall|l: int| 0 <= l < events.len() && l != i ==> !touches(#[trigger] events[l], k),
    ensures
        run_events(Map::<Seq<char>, u64>::empty(), events).contains_key(k),
        run_events(Map::<Seq<char>, u64>::empty(), events)[k] == entries[j].1,
{
    lemma_bulk_fill_from(Map::<Seq<char>, u64>::empty(), events, entries, k, i, j);
}

/// Once the stream merger has written a key and writes it no more, that
/// value is final, whatever else the run still holds: later updates of other
/// keys, discarded items, a failed fetch — or a whole bulk snapshot, even
/// one carrying this very key. The merger's value for a key it touched is
/// the most recently applied one.
pub proof fn lemma_last_stream_write_wins(
    m: Map<Seq<char>, u64>,
    events: Seq<ProducerEvent>,
    i: int,
    k: Seq<char>,
    v: u64,
)
    requires
        0 <= i < events.len(),
        events[i] == ProducerEvent::Update(k, v),
        forall|l: int| i < l < events.len() ==> !is_update_of(#[trigger] events[l], k),
    ensures
        run_events(m, events).contains_key(k),
        run_events(m, events)[k] == v,
    decreases events.len(),
{
    let prefix = events.drop_last();
    assert(forall|l: int| 0 <= l < prefix.len() ==> prefix[l] == events[l]);
    if i == events.len() - 1 {
    } else {
        lemma_last_stream_write_wins(m, prefix, i, k, v);
        match events.last() {
            ProducerEvent::BulkLoaded(snapshot) => {
                lemma_bulk_merge_preserves_existing(run_events(m, prefix), snapshot, k);
            },
            _ => (),
        }
    }
}

/// The race the asymmetric merge policy exists for: the stream merger writes
/// a key, and only afterwards does the bulk fetch resolve, carrying a stale
/// value for that same key. The stream's value stays visible, because the
/// bulk loader only fills gaps and never overwrites.
pub proof fn lemma_bulk_cannot_clobber_stream_write(
    m: Map<Seq<char>, u64>,
    events: Seq<ProducerEvent>,
    entries: Seq<(Seq<char>, u64)>,
    k: Seq<char>,
    v: u64,
    i: int,
    b: int,
)
    requires
        0 <= i < b < events.len(),
        events[i] == ProducerEvent::Update(k, v),
        events[b] == ProducerEvent::BulkLoaded(entries),
        forall|l: int| i < l < events.len() ==> !is_update_of(#[trigger] events[l], k),
    ensures
        run_events(m, events).contains_key(k),
        run_events(m, events)[k] == v,
{
    lemma_last_stream_write_wins(m, events, i, k, v);
}

/// Last write wins: two stream updates of the same key leave only the later
/// value visible; the store keeps no history.
pub proof fn lemma_update_twice_keeps_latest(
    m: Map<Seq<char>, u64>,
    k: Seq<char>,
    v1: u64,
    v2: u64,
)
    ensures
        m.insert(k, v1).insert(k, v2) == m.insert(k, v2),
{
    assert(m.insert(k, v1).insert(k, v2) =~= m.insert(k, v2));
}

} // verus!

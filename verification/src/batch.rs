use vstd::prelude::*;
use crate::action::{action_views, frame_views, Action, ActionView};
use crate::table::{
    first_key_index, key_index_of, key_lookup, lemma_first_key_index, lemma_first_key_index_none,
    lemma_first_key_index_of,
};
use crate::tree::str_eq;

verus! {

/// Result of queuing a packet into a batch.
pub enum BatchResult {
    /// The packet was queued; the batch still waits for more sources.
    Queued,
    /// The threshold was met: every queued packet comes back, in insertion
    /// order, with the action tail stored when the batch was created.
    Release { packets: Vec<Vec<u8>>, remaining_actions: Vec<Action> },
}

/// What a timeout found.
pub enum TimeoutResult {
    /// No batch with that key and creation identity was live.
    Missing,
    /// The batch was dropped, its packets discarded.
    Dropped,
    /// The batch was released: every queued packet, in insertion order, with
    /// the stored action tail.
    Release { packets: Vec<Vec<u8>>, remaining_actions: Vec<Action> },
}

/// One batch in progress.
struct BatchEntry {
    key: String,
    packets: Vec<Vec<u8>>,
    systems: Vec<u8>,
    threshold: usize,
    forward_on_timeout: bool,
    remaining_actions: Vec<Action>,
    generation: u64,
}

/// Model of one batch in progress.
#[verifier::ext_equal]
pub struct BatchEntryView {
    pub packets: Seq<Seq<u8>>,
    pub systems: Seq<u8>,
    pub threshold: int,
    pub forward_on_timeout: bool,
    pub remaining_actions: Seq<ActionView>,
    pub generation: u64,
}

impl View for BatchEntry {
    type V = BatchEntryView;

    closed spec fn view(&self) -> BatchEntryView {
        BatchEntryView {
            packets: frame_views(self.packets@),
            systems: self.systems@,
            threshold: self.threshold as int,
            forward_on_timeout: self.forward_on_timeout,
            remaining_actions: action_views(self.remaining_actions@),
            generation: self.generation,
        }
    }
}

/// Model of the aggregator: the live batches, keyed by batch key, and the
/// identity the next batch will get.
#[verifier::ext_equal]
pub struct BatchManagerView {
    pub entries: Seq<(Seq<char>, BatchEntryView)>,
    pub next_generation: u64,
}

/// Keyed queues of packets, each waiting for enough distinct source systems
/// or for its timeout.
pub struct BatchManager {
    entries: Vec<BatchEntry>,
    next_generation: u64,
}

impl View for BatchManager {
    type V = BatchManagerView;

    closed spec fn view(&self) -> BatchManagerView {
        BatchManagerView {
            entries: self.entries@.map_values(|e: BatchEntry| (e.key@, e@)),
            next_generation: self.next_generation,
        }
    }
}

/// The entry a fresh batch starts with.
pub open spec fn fresh_entry(
    packet: Seq<u8>,
    system_id: u8,
    threshold: int,
    forward_on_timeout: bool,
    remaining: Seq<ActionView>,
    generation: u64,
) -> BatchEntryView {
    BatchEntryView {
        packets: seq![packet],
        systems: seq![system_id],
        threshold,
        forward_on_timeout,
        remaining_actions: remaining,
        generation,
    }
}

/// An entry after one more packet from `system_id` was queued on it.
pub open spec fn queued_entry(e: BatchEntryView, packet: Seq<u8>, system_id: u8) -> BatchEntryView {
    BatchEntryView {
        packets: e.packets.push(packet),
        systems: if e.systems.contains(system_id) {
            e.systems
        } else {
            e.systems.push(system_id)
        },
        threshold: e.threshold,
        forward_on_timeout: e.forward_on_timeout,
        remaining_actions: e.remaining_actions,
        generation: e.generation,
    }
}

/// Whether the aggregator is well formed: one live batch per key, and every
/// live identity below the next one, no two alike.
pub open spec fn wf_view(v: BatchManagerView) -> bool {
    &&& forall|i: int, j: int|
        0 <= i < j < v.entries.len() ==> (#[trigger] v.entries[i]).0 != (
        #[trigger] v.entries[j]).0
    &&& forall|i: int|
        0 <= i < v.entries.len() ==> (#[trigger] v.entries[i]).1.generation < v.next_generation
    &&& forall|i: int, j: int|
        0 <= i < j < v.entries.len() ==> (#[trigger] v.entries[i]).1.generation != (
        #[trigger] v.entries[j]).1.generation
}

impl BatchManager {
    /// Whether the aggregator is well formed.
    pub open spec fn wf(&self) -> bool {
        wf_view(self@)
    }

    /// An empty aggregator.
    pub fn new() -> (r: Self)
        ensures
            r@.entries == Seq::<(Seq<char>, BatchEntryView)>::empty(),
            r@.next_generation == 0,
            r.wf(),
    {
        let r = BatchManager { entries: Vec::new(), next_generation: 0 };
        proof {
            assert(r@.entries =~= Seq::<(Seq<char>, BatchEntryView)>::empty());
        }
        r
    }
}

} // verus!

verus! {

/// Whether `v` holds the byte `x`.
fn contains_u8(v: &Vec<u8>, x: u8) -> (r: bool)
    ensures
        r == v@.contains(x),
{
    let n = v.len();
    let mut i: usize = 0;
    while i < n
        invariant
            i <= n,
            forall|l: int| 0 <= l < i ==> v@[l] != x,
        decreases n - i,
    {
        if v[i] == x {
            return true;
        }
        i += 1;
    }
    proof {
        assert(forall|l: int| 0 <= l < v@.len() ==> v@[l] != x);
    }
    false
}

impl BatchManager {
    /// Queue `packet` under `key`, creating the batch when none is live, and
    /// release the batch once it has seen as many distinct source systems as
    /// its threshold asks.  A batch keeps the threshold, flag and action tail
    /// given when it was created; later calls only add packets.  The second
    /// result, when set, asks the caller to arm the timeout of a batch this
    /// call created, and names that batch's identity.
    pub fn queue_or_release(
        &mut self,
        key: &str,
        system_id: u8,
        packet: Vec<u8>,
        threshold: usize,
        forward_on_timeout: bool,
        remaining_actions: Vec<Action>,
    ) -> (r: (BatchResult, Option<u64>))
        requires
            old(self).wf(),
            old(self)@.next_generation < u64::MAX,
        ensures
            final(self).wf(),
            match key_lookup(old(self)@.entries, key@) {
                None => {
                    let e0 = fresh_entry(
                        packet@,
                        system_id,
                        threshold as int,
                        forward_on_timeout,
                        action_views(remaining_actions@),
                        old(self)@.next_generation,
                    );
                    &&& r.1 == Some(old(self)@.next_generation)
                    &&& final(self)@.next_generation == old(self)@.next_generation + 1
                    &&& if threshold <= 1 {
                        &&& r.0 matches BatchResult::Release { packets, remaining_actions: rem }
                            && frame_views(packets@) == e0.packets && action_views(rem@)
                            == e0.remaining_actions
                        &&& final(self)@.entries == old(self)@.entries
                    } else {
                        &&& r.0 is Queued
                        &&& final(self)@.entries == old(self)@.entries.push((key@, e0))
                    }
                },
                Some(e) => {
                    let e2 = queued_entry(e, packet@, system_id);
                    let j = key_index_of(old(self)@.entries, key@);
                    &&& r.1 is None
                    &&& final(self)@.next_generation == old(self)@.next_generation
                    &&& if e2.systems.len() >= e.threshold {
                        &&& r.0 matches BatchResult::Release { packets, remaining_actions: rem }
                            && frame_views(packets@) == e2.packets && action_views(rem@)
                            == e.remaining_actions
                        &&& final(self)@.entries == old(self)@.entries.remove(j)
                    } else {
                        &&& r.0 is Queued
                        &&& final(self)@.entries == old(self)@.entries.update(j, (key@, e2))
                    }
                },
            },
    {
        proof {
            lemma_first_key_index(old(self)@.entries, key@);
        }
        let ghost es = self@.entries;
        let n = self.entries.len();
        let mut i: usize = 0;
        while i < n
            invariant
                i <= n,
                n == self.entries@.len(),
                self@ == old(self)@,
                forall|l: int| 0 <= l < i ==> (#[trigger] es[l]).0 != key@,
            decreases n - i,
        {
            proof {
                assert(es[i as int] == (self.entries@[i as int].key@, self.entries@[i as int]@));
            }
            if str_eq(self.entries[i].key.as_str(), key) {
                proof {
                    lemma_first_key_index_of(es, key@, i as int);
                }
                let ghost e_v = es[i as int].1;
                let ghost before_entries = self.entries@;
                let mut e = self.entries.remove(i);
                e.packets.push(packet);
                if !contains_u8(&e.systems, system_id) {
                    e.systems.push(system_id);
                }
                proof {
                    assert(frame_views(e.packets@) =~= e_v.packets.push(packet@));
                    assert(e@ =~= queued_entry(e_v, packet@, system_id));
                }
                if e.systems.len() >= e.threshold {
                    proof {
                        assert forall|l: int|
                            0 <= l < self@.entries.len() implies #[trigger] self@.entries[l]
                            == es.remove(i as int)[l] by {
                            assert(self@.entries[l] == (
                                self.entries@[l].key@,
                                self.entries@[l]@,
                            ));
                            if l < i {
                                assert(self.entries@[l] == before_entries[l]);
                                assert(es[l] == (before_entries[l].key@, before_entries[l]@));
                            } else {
                                assert(self.entries@[l] == before_entries[l + 1]);
                                assert(es[l + 1] == (
                                    before_entries[l + 1].key@,
                                    before_entries[l + 1]@,
                                ));
                            }
                        }
                        assert(self@.entries =~= es.remove(i as int));
                    }
                    let packets = e.packets;
                    let rem = e.remaining_actions;
                    return (
                        BatchResult::Release { packets, remaining_actions: rem },
                        None,
                    );
                } else {
                    self.entries.insert(i, e);
                    proof {
                        assert forall|l: int|
                            0 <= l < self@.entries.len() implies #[trigger] self@.entries[l]
                            == es.update(i as int, (key@, queued_entry(e_v, packet@, system_id)))[l]
                            by {
                            assert(self@.entries[l] == (
                                self.entries@[l].key@,
                                self.entries@[l]@,
                            ));
                            if l != i {
                                assert(self.entries@[l] == before_entries[l]);
                                assert(es[l] == (before_entries[l].key@, before_entries[l]@));
                            }
                        }
                        assert(self@.entries =~= es.update(
                            i as int,
                            (key@, queued_entry(e_v, packet@, system_id)),
                        ));
                    }
                    return (BatchResult::Queued, None);
                }
            }
            i += 1;
        }
        proof {
            lemma_first_key_index_none(es, key@);
        }
        let generation = self.next_generation;
        self.next_generation = generation + 1;
        if threshold <= 1 {
            let mut packets: Vec<Vec<u8>> = Vec::new();
            let ghost packet_v = packet@;
            packets.push(packet);
            proof {
                assert(frame_views(packets@) =~= seq![packet_v]);
            }
            return (
                BatchResult::Release { packets, remaining_actions },
                Some(generation),
            );
        }
        let mut new_packets: Vec<Vec<u8>> = Vec::new();
        let ghost packet_v = packet@;
        new_packets.push(packet);
        let mut new_systems: Vec<u8> = Vec::new();
        new_systems.push(system_id);
        let entry = BatchEntry {
            key: key.to_owned(),
            packets: new_packets,
            systems: new_systems,
            threshold,
            forward_on_timeout,
            remaining_actions,
            generation,
        };
        let ghost before_entries = self.entries@;
        proof {
            assert(frame_views(entry.packets@) =~= seq![packet_v]);
            assert(entry@ =~= fresh_entry(
                packet_v,
                system_id,
                threshold as int,
                forward_on_timeout,
                action_views(entry.remaining_actions@),
                generation,
            ));
        }
        self.entries.push(entry);
        proof {
            assert forall|l: int|
                0 <= l < self@.entries.len() implies #[trigger] self@.entries[l] == es.push(
                (key@, fresh_entry(
                    packet_v,
                    system_id,
                    threshold as int,
                    forward_on_timeout,
                    action_views(remaining_actions@),
                    generation,
                )),
            )[l] by {
                assert(self@.entries[l] == (self.entries@[l].key@, self.entries@[l]@));
                if l < es.len() {
                    assert(self.entries@[l] == before_entries[l]);
                    assert(es[l] == (before_entries[l].key@, before_entries[l]@));
                }
            }
            assert(self@.entries =~= es.push(
                (key@, fresh_entry(
                    packet_v,
                    system_id,
                    threshold as int,
                    forward_on_timeout,
                    action_views(remaining_actions@),
                    generation,
                )),
            ));
        }
        (BatchResult::Queued, Some(generation))
    }
}

} // verus!

verus! {

impl BatchManager {
    /// Act on a timeout armed for the batch of that key and identity.  The
    /// batch, when still live, leaves the aggregator and is either released
    /// or dropped as its flag says; a timeout whose batch is gone, or whose
    /// key now names a younger batch, finds nothing.
    pub fn handle_timeout(&mut self, key: &str, generation: u64) -> (r: TimeoutResult)
        requires
            old(self).wf(),
        ensures
            final(self).wf(),
            final(self)@.next_generation == old(self)@.next_generation,
            match key_lookup(old(self)@.entries, key@) {
                Some(e) => if e.generation == generation {
                    let j = key_index_of(old(self)@.entries, key@);
                    &&& final(self)@.entries == old(self)@.entries.remove(j)
                    &&& if e.forward_on_timeout {
                        r matches TimeoutResult::Release { packets, remaining_actions: rem }
                            && frame_views(packets@) == e.packets && action_views(rem@)
                            == e.remaining_actions
                    } else {
                        r is Dropped
                    }
                } else {
                    &&& r is Missing
                    &&& final(self)@ == old(self)@
                },
                None => {
                    &&& r is Missing
                    &&& final(self)@ == old(self)@
                },
            },
    {
        proof {
            lemma_first_key_index(old(self)@.entries, key@);
        }
        let ghost es = self@.entries;
        let n = self.entries.len();
        let mut i: usize = 0;
        while i < n
            invariant
                i <= n,
                n == self.entries@.len(),
                self@ == old(self)@,
                forall|l: int| 0 <= l < i ==> (#[trigger] es[l]).0 != key@,
            decreases n - i,
        {
            proof {
                assert(es[i as int] == (self.entries@[i as int].key@, self.entries@[i as int]@));
            }
            if str_eq(self.entries[i].key.as_str(), key) {
                proof {
                    lemma_first_key_index_of(es, key@, i as int);
                }
                if self.entries[i].generation != generation {
                    return TimeoutResult::Missing;
                }
                let ghost before_entries = self.entries@;
                let e = self.entries.remove(i);
                proof {
                    assert forall|l: int|
                        0 <= l < self@.entries.len() implies #[trigger] self@.entries[l]
                        == es.remove(i as int)[l] by {
                        assert(self@.entries[l] == (self.entries@[l].key@, self.entries@[l]@));
                        if l < i {
                            assert(self.entries@[l] == before_entries[l]);
                            assert(es[l] == (before_entries[l].key@, before_entries[l]@));
                        } else {
                            assert(self.entries@[l] == before_entries[l + 1]);
                            assert(es[l + 1] == (
                                before_entries[l + 1].key@,
                                before_entries[l + 1]@,
                            ));
                        }
                    }
                    assert(self@.entries =~= es.remove(i as int));
                }
                if e.forward_on_timeout {
                    return TimeoutResult::Release {
                        packets: e.packets,
                        remaining_actions: e.remaining_actions,
                    };
                } else {
                    return TimeoutResult::Dropped;
                }
            }
            i += 1;
        }
        proof {
            lemma_first_key_index_none(es, key@);
        }
        TimeoutResult::Missing
    }
}

/// A release removes the only live batch under its key: right after it, a
/// timeout that names the key finds no batch at all.
pub proof fn lemma_release_leaves_no_batch(v: BatchManagerView, key: Seq<char>, j: int)
    requires
        wf_view(v),
        first_key_index(v.entries, key) == Some(j),
    ensures
        key_lookup(v.entries.remove(j), key) is None,
{
    lemma_first_key_index(v.entries, key);
    let shrunk = v.entries.remove(j);
    assert forall|l: int| 0 <= l < shrunk.len() implies (#[trigger] shrunk[l]).0 != key by {
        if l < j {
            assert(shrunk[l] == v.entries[l]);
        } else {
            assert(shrunk[l] == v.entries[l + 1]);
        }
    }
    lemma_first_key_index_none(shrunk, key);
}

/// Every live batch carries an identity older than the next one to be
/// given out, so an identity not yet given out answers to no timeout, and —
/// since identities are never reused — a released batch's identity never
/// answers to one again.
pub proof fn lemma_live_identity_is_older(v: BatchManagerView, key: Seq<char>)
    requires
        wf_view(v),
    ensures
        match key_lookup(v.entries, key) {
            Some(e) => e.generation < v.next_generation,
            None => true,
        },
{
    lemma_first_key_index(v.entries, key);
}

} // verus!

verus! {

impl BatchManager {
    /// Whether every batch identity has been used up; a practical
    /// impossibility, checked so that callers can refuse new batches then.
    pub fn at_capacity(&self) -> (r: bool)
        ensures
            r == (self@.next_generation == u64::MAX),
    {
        self.next_generation == u64::MAX
    }
}

} // verus!

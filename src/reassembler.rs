//! The receiver's reassembly state machine. Each batch id is unknown, in
//! progress (it has a decoder) or completed; packets of a completed batch are
//! dropped, and a batch is handed out once, when its decoder completes.
use vstd::prelude::*;

use crate::codec::{bytes_of, BatchDecoder, TransmissionParams, PACKET_SNO};
use crate::frame::{packet_fields, parse_packet};
use crate::{BATCH_ID_SIZE, MTU_SIZE};

verus! {

/// What the reassembler knows: the completed batch ids and, for each batch
/// in progress, how many of its packets arrived.
pub struct ReassemblyState {
    pub completed: Set<Seq<u8>>,
    pub in_progress: Map<Seq<u8>, nat>,
}

/// A batch id is never both in progress and completed.
pub open spec fn state_wf(s: ReassemblyState) -> bool {
    forall|id: Seq<u8>| s.completed.contains(id) ==> !s.in_progress.contains_key(id)
}

/// The packet count after one more packet; it stops at `u64::MAX`.
pub open spec fn bump(c: nat) -> nat {
    if c < u64::MAX {
        c + 1
    } else {
        c
    }
}

/// The state after a well-formed packet of batch `id`, where `done` says
/// whether its decoder completed on it.
pub open spec fn next_state(s: ReassemblyState, id: Seq<u8>, done: bool) -> ReassemblyState {
    if s.completed.contains(id) {
        s
    } else if done {
        ReassemblyState { completed: s.completed.insert(id), in_progress: s.in_progress.remove(id) }
    } else {
        ReassemblyState {
            completed: s.completed,
            in_progress: s.in_progress.insert(
                id,
                if s.in_progress.contains_key(id) {
                    bump(s.in_progress[id])
                } else {
                    1
                },
            ),
        }
    }
}

/// Whether that packet hands a reassembled object to the persister.
pub open spec fn emits(s: ReassemblyState, id: Seq<u8>, done: bool) -> bool {
    done && !s.completed.contains(id)
}

/// The copy of a received packet that is relayed: its `len` bytes with the
/// forward flag cleared.
pub open spec fn relay_copy(buf: Seq<u8>, len: int) -> Seq<u8> {
    buf.subrange(0, len).update(1, 0u8)
}

/// What is handed to the forwarder for the first `len` bytes of `buf`, given
/// the completed batch ids: a relay copy of a well-formed packet of a batch
/// not completed whose forward flag is set, and nothing otherwise.
pub open spec fn forward_decision(completed: Set<Seq<u8>>, buf: Seq<u8>, len: int) -> Option<Seq<u8>> {
    match packet_fields(buf, len) {
        Some(f) => if !completed.contains(f.0) && f.1 == 1 {
            Some(relay_copy(buf, len))
        } else {
            None
        },
        None => None,
    }
}

/// The symbols fed to one batch's decoder, each with the decoder's answer.
pub type DecodeLog = Seq<(Seq<u8>, Option<Seq<u8>>)>;

/// The decode log of batch `id`; empty for a batch without a decoder.
pub open spec fn prior_log(logs: Map<Seq<u8>, DecodeLog>, id: Seq<u8>) -> DecodeLog {
    if logs.contains_key(id) {
        logs[id]
    } else {
        Seq::empty()
    }
}

/// A reassembled object, named by its batch id.
pub struct CompletedBatch {
    pub batch_id: [u8; BATCH_ID_SIZE],
    pub contents: Vec<u8>,
}

/// What the reassembler asks of the other stages for one packet.
pub struct PacketOutcome {
    /// Bytes to hand to the forwarder, if any.
    pub forward: Option<Vec<u8>>,
    /// An object to hand to the persister, if the packet completed one.
    pub completed: Option<CompletedBatch>,
    /// The decode log of the packet's batch after the packet.
    pub log: Ghost<DecodeLog>,
}

struct DecoderEntry {
    batch_id: [u8; BATCH_ID_SIZE],
    received_count: u64,
    decoder: BatchDecoder,
}

/// Per-batch decoder state and the set of completed batches of a receiver.
pub struct Reassembler {
    params: TransmissionParams,
    completed: Vec<[u8; BATCH_ID_SIZE]>,
    in_progress: Vec<DecoderEntry>,
    completed_ids: Ghost<Set<Seq<u8>>>,
    counts: Ghost<Map<Seq<u8>, nat>>,
    logs: Ghost<Map<Seq<u8>, DecodeLog>>,
}

impl Reassembler {
    pub closed spec fn model(&self) -> ReassemblyState {
        ReassemblyState { completed: self.completed_ids@, in_progress: self.counts@ }
    }

    /// The decode log of each batch in progress.
    pub closed spec fn decode_logs(&self) -> Map<Seq<u8>, DecodeLog> {
        self.logs@
    }

    /// The object parameters every decoder is built with.
    pub closed spec fn spec_params(&self) -> TransmissionParams {
        self.params
    }

    pub closed spec fn wf(&self) -> bool {
        &&& self.params.wf()
        &&& forall|i: int| 0 <= i < self.completed@.len() ==> self.completed_ids@.contains(#[trigger] self.completed@[i]@)
        &&& forall|id: Seq<u8>| #[trigger] self.completed_ids@.contains(id)
            ==> exists|i: int| 0 <= i < self.completed@.len() && self.completed@[i]@ == id
        &&& forall|i: int| 0 <= i < self.in_progress@.len() ==> {
            let e = #[trigger] self.in_progress@[i];
            &&& self.counts@.contains_key(e.batch_id@)
            &&& self.counts@[e.batch_id@] == e.received_count
            &&& self.logs@.contains_key(e.batch_id@)
            &&& self.logs@[e.batch_id@] == e.decoder.history()
            &&& e.decoder.wf()
            &&& e.decoder.spec_params() == self.params
        }
        &&& forall|id: Seq<u8>| #[trigger] self.counts@.contains_key(id)
            ==> exists|i: int| 0 <= i < self.in_progress@.len() && self.in_progress@[i].batch_id@ == id
        &&& self.logs@.dom() == self.counts@.dom()
        &&& forall|i: int, j: int| 0 <= i < self.in_progress@.len() && 0 <= j < self.in_progress@.len()
            && (#[trigger] self.in_progress@[i]).batch_id@ == (#[trigger] self.in_progress@[j]).batch_id@ ==> i == j
        &&& state_wf(self.model())
    }

    /// A receiver that knows no batch yet; its decoders use `params`.
    pub fn new(params: TransmissionParams) -> (r: Reassembler)
        requires
            params.wf(),
        ensures
            r.wf(),
            r.spec_params() == params,
            r.model().completed == Set::<Seq<u8>>::empty(),
            r.model().in_progress == Map::<Seq<u8>, nat>::empty(),
            r.decode_logs() == Map::<Seq<u8>, DecodeLog>::empty(),
    {
        Reassembler {
            params,
            completed: Vec::new(),
            in_progress: Vec::new(),
            completed_ids: Ghost(Set::empty()),
            counts: Ghost(Map::empty()),
            logs: Ghost(Map::empty()),
        }
    }

    /// Whether batch `batch_id` was completed.
    pub fn is_completed(&self, batch_id: &[u8; BATCH_ID_SIZE]) -> (r: bool)
        requires
            self.wf(),
        ensures
            r == self.model().completed.contains(batch_id@),
    {
        for i in 0..self.completed.len()
            invariant
                self.wf(),
                forall|k: int| 0 <= k < i ==> self.completed@[k]@ != batch_id@,
        {
            if same_id(&self.completed[i], batch_id) {
                return true;
            }
        }
        false
    }

    fn find_entry(&self, batch_id: &[u8; BATCH_ID_SIZE]) -> (r: Option<usize>)
        requires
            self.wf(),
        ensures
            r matches Some(i) ==> i < self.in_progress@.len() && self.in_progress@[i as int].batch_id@ == batch_id@,
            r is None ==> !self.model().in_progress.contains_key(batch_id@),
    {
        for i in 0..self.in_progress.len()
            invariant
                self.wf(),
                forall|k: int| 0 <= k < i ==> self.in_progress@[k].batch_id@ != batch_id@,
        {
            if same_id(&self.in_progress[i].batch_id, batch_id) {
                return Some(i);
            }
        }
        None
    }

    /// How many packets of batch `batch_id` arrived, while it is in progress.
    pub fn received_count(&self, batch_id: &[u8; BATCH_ID_SIZE]) -> (r: Option<u64>)
        requires
            self.wf(),
        ensures
            r is Some <==> self.model().in_progress.contains_key(batch_id@),
            r matches Some(c) ==> c == self.model().in_progress[batch_id@],
    {
        match self.find_entry(batch_id) {
            Some(i) => Some(self.in_progress[i].received_count),
            None => None,
        }
    }

    /// Acts on a decoder's answer for batch `batch_id`. An object for a batch
    /// not yet completed completes it: the batch joins the completed set, its
    /// decoder is freed, and the object is handed out with its batch id.
    /// No object, or a batch already completed, changes nothing.
    pub fn settle(&mut self, batch_id: [u8; BATCH_ID_SIZE], result: Option<Vec<u8>>) -> (r: Option<CompletedBatch>)
        requires
            old(self).wf(),
        ensures
            final(self).wf(),
            final(self).spec_params() == old(self).spec_params(),
            r is Some <==> (result is Some && !old(self).model().completed.contains(batch_id@)),
            r matches Some(c) ==> c.batch_id@ == batch_id@ && bytes_of(result) == Some(c.contents@),
            r is Some ==> final(self).model() == next_state(old(self).model(), batch_id@, true)
                && final(self).decode_logs() == old(self).decode_logs().remove(batch_id@),
            r is None ==> final(self).model() == old(self).model() && final(self).decode_logs() == old(self).decode_logs(),
    {
        let contents = match result {
            Some(c) => c,
            None => {
                return None;
            },
        };
        if self.is_completed(&batch_id) {
            return None;
        }
        let ghost id = batch_id@;
        let ghost old_model = self.model();
        let ghost old_entries = self.in_progress@;
        let ghost old_completed = self.completed@;
        match self.find_entry(&batch_id) {
            Some(i) => {
                let _freed = self.in_progress.remove(i);
                self.completed.push(batch_id);
                proof {
                    self.completed_ids@ = self.completed_ids@.insert(id);
                    self.counts@ = self.counts@.remove(id);
                    self.logs@ = self.logs@.remove(id);
                    assert(self.logs@.dom() =~= self.counts@.dom());
                    assert(self.in_progress@ == old_entries.remove(i as int));
                    assert forall|j: int| 0 <= j < self.in_progress@.len() implies
                        (#[trigger] self.in_progress@[j]).batch_id@ != id by {
                        let k = if j < i { j } else { j + 1 };
                        assert(old_entries[k] == self.in_progress@[j]);
                    }
                    assert forall|id2: Seq<u8>| #[trigger] self.counts@.contains_key(id2)
                        implies exists|k: int| 0 <= k < self.in_progress@.len() && self.in_progress@[k].batch_id@ == id2 by {
                        assert(old_model.in_progress.contains_key(id2));
                        let k = choose|k: int| 0 <= k < old_entries.len() && old_entries[k].batch_id@ == id2;
                        assert(k != i);
                        if k < i {
                            assert(self.in_progress@[k].batch_id@ == id2);
                        } else {
                            assert(self.in_progress@[k - 1].batch_id@ == id2);
                        }
                    }
                    assert forall|j1: int, j2: int| 0 <= j1 < self.in_progress@.len() && 0 <= j2 < self.in_progress@.len()
                        && (#[trigger] self.in_progress@[j1]).batch_id@ == (#[trigger] self.in_progress@[j2]).batch_id@
                        implies j1 == j2 by {
                        let k1 = if j1 < i { j1 } else { j1 + 1 };
                        let k2 = if j2 < i { j2 } else { j2 + 1 };
                        assert(old_entries[k1] == self.in_progress@[j1]);
                        assert(old_entries[k2] == self.in_progress@[j2]);
                    }
                }
            },
            None => {
                self.completed.push(batch_id);
                proof {
                    self.completed_ids@ = self.completed_ids@.insert(id);
                    assert(self.counts@.remove(id) =~= self.counts@);
                    assert(self.logs@.remove(id) =~= self.logs@);
                }
            },
        }
        proof {
            assert forall|id2: Seq<u8>| #[trigger] self.completed_ids@.contains(id2)
                implies exists|k: int| 0 <= k < self.completed@.len() && self.completed@[k]@ == id2 by {
                if id2 == id {
                    assert(self.completed@[old_completed.len() as int]@ == id2);
                } else {
                    let k = choose|k: int| 0 <= k < old_completed.len() && old_completed[k]@ == id2;
                    assert(self.completed@[k]@ == id2);
                }
            }
            assert forall|j: int| 0 <= j < self.completed@.len() implies
                self.completed_ids@.contains(#[trigger] self.completed@[j]@) by {
                if j < old_completed.len() {
                    assert(self.completed@[j] == old_completed[j]);
                }
            }
        }
        Some(CompletedBatch { batch_id, contents })
    }

    /// Takes one received datagram, the first `len` bytes of `buf`.
    ///
    /// A datagram shorter than a header and one payload byte, or one of a
    /// completed batch, changes nothing and asks for nothing. Otherwise a
    /// set forward flag asks for a relay copy with the flag cleared; the
    /// batch's decoder is created on its first packet and every packet,
    /// the first included, is counted and fed to it when its payload is one
    /// symbol of the agreed size in one of the object's source blocks (other
    /// payloads are counted and dropped). The decoder's answer is then
    /// settled: an object completes the batch.
    pub fn handle_packet(&mut self, buf: &[u8; MTU_SIZE], len: usize) -> (r: PacketOutcome)
        requires
            old(self).wf(),
        ensures
            final(self).wf(),
            final(self).spec_params() == old(self).spec_params(),
            state_wf(final(self).model()),
            bytes_of(r.forward) == forward_decision(old(self).model().completed, buf@, len as int),
            match packet_fields(buf@, len as int) {
                None => final(self).model() == old(self).model() && final(self).decode_logs() == old(self).decode_logs()
                    && r.completed is None,
                Some(f) => {
                    let params = old(self).spec_params();
                    let fed = BatchDecoder::accepts(params, f.2);
                    let prior = prior_log(old(self).decode_logs(), f.0);
                    &&& final(self).model() == next_state(old(self).model(), f.0, r.completed is Some)
                    &&& old(self).model().completed.contains(f.0) ==> r.completed is None
                        && final(self).decode_logs() == old(self).decode_logs()
                    &&& !old(self).model().completed.contains(f.0) ==> {
                        &&& fed ==> r.log@.len() == prior.len() + 1 && r.log@.drop_last() == prior
                            && r.log@.last().0 == f.2
                        &&& !fed ==> r.log@ == prior
                        &&& r.completed is Some <==> (fed && r.log@.last().1 is Some)
                        &&& r.completed matches Some(c) ==> c.batch_id@ == f.0 && r.log@.last().1 == Some(c.contents@)
                            && c.contents@.len() == params.transfer_length
                        &&& r.completed is None ==> final(self).decode_logs() == old(self).decode_logs().insert(f.0, r.log@)
                        &&& r.completed is Some ==> final(self).decode_logs() == old(self).decode_logs().remove(f.0)
                    }
                },
            },
    {
        let parsed = match parse_packet(buf, len) {
            None => {
                return PacketOutcome { forward: None, completed: None, log: Ghost(Seq::empty()) };
            },
            Some(p) => p,
        };
        let batch_id = parsed.batch_id;
        let ghost id = batch_id@;
        if self.is_completed(&batch_id) {
            return PacketOutcome { forward: None, completed: None, log: Ghost(Seq::empty()) };
        }
        let forward = if parsed.forward_flag == 1 {
            Some(relay_bytes(buf, len))
        } else {
            None
        };
        let payload = parsed.payload;
        let params = self.params;
        let fits = payload.len() == PACKET_SNO + params.symbol_size as usize && payload[0] < params.source_blocks;
        let ghost old_model = self.model();
        let ghost old_logs = self.logs@;
        let ghost old_entries = self.in_progress@;
        let idx = self.find_entry(&batch_id);
        let mut e = match idx {
            Some(i) => {
                let mut e = self.in_progress.remove(i);
                assert(old_entries[i as int] == e);
                let c = e.received_count;
                e.received_count = if c < u64::MAX { c + 1 } else { c };
                e
            },
            None => DecoderEntry { batch_id, received_count: 1, decoder: BatchDecoder::new(params) },
        };
        let result = if fits {
            e.decoder.decode(payload.as_slice())
        } else {
            None
        };
        let ghost log = e.decoder.history();
        let ghost count = e.received_count as nat;
        assert(e.batch_id@ == id);
        match idx {
            Some(i) => {
                self.in_progress.insert(i, e);
                proof {
                    self.counts@ = self.counts@.insert(id, count);
                    self.logs@ = self.logs@.insert(id, log);
                    assert(self.logs@.dom() =~= self.counts@.dom());
                    assert(self.in_progress@ =~= old_entries.update(i as int, e));
                    assert forall|j: int| 0 <= j < self.in_progress@.len() && j != i implies
                        (#[trigger] self.in_progress@[j]).batch_id@ != id by {
                        assert(old_entries[j] == self.in_progress@[j]);
                    }
                    assert forall|j: int| 0 <= j < self.in_progress@.len() implies {
                        let en = #[trigger] self.in_progress@[j];
                        &&& self.counts@.contains_key(en.batch_id@)
                        &&& self.counts@[en.batch_id@] == en.received_count
                        &&& self.logs@.contains_key(en.batch_id@)
                        &&& self.logs@[en.batch_id@] == en.decoder.history()
                        &&& en.decoder.wf()
                        &&& en.decoder.spec_params() == self.params
                    } by {
                        if j != i {
                            assert(self.in_progress@[j] == old_entries[j]);
                            assert(old_entries[j].batch_id@ != id);
                        }
                    }
                    assert(state_wf(self.model()));
                    assert forall|id2: Seq<u8>| #[trigger] self.counts@.contains_key(id2)
                        implies exists|k: int| 0 <= k < self.in_progress@.len() && self.in_progress@[k].batch_id@ == id2 by {
                        if id2 == id {
                            assert(self.in_progress@[i as int].batch_id@ == id2);
                        } else {
                            assert(old_model.in_progress.contains_key(id2));
                            let k = choose|k: int| 0 <= k < old_entries.len() && old_entries[k].batch_id@ == id2;
                            assert(self.in_progress@[k].batch_id@ == id2);
                        }
                    }
                }
            },
            None => {
                self.in_progress.push(e);
                proof {
                    self.counts@ = self.counts@.insert(id, count);
                    self.logs@ = self.logs@.insert(id, log);
                    assert(self.logs@.dom() =~= self.counts@.dom());
                    let n = old_entries.len() as int;
                    assert(self.in_progress@ == old_entries.push(e));
                    assert forall|j: int| 0 <= j < n implies (#[trigger] old_entries[j]).batch_id@ != id by {
                        assert(old_model.in_progress.contains_key(old_entries[j].batch_id@));
                    }
                    assert forall|j: int| 0 <= j < self.in_progress@.len() implies {
                        let en = #[trigger] self.in_progress@[j];
                        &&& self.counts@.contains_key(en.batch_id@)
                        &&& self.counts@[en.batch_id@] == en.received_count
                        &&& self.logs@.contains_key(en.batch_id@)
                        &&& self.logs@[en.batch_id@] == en.decoder.history()
                        &&& en.decoder.wf()
                        &&& en.decoder.spec_params() == self.params
                    } by {
                        if j < n {
                            assert(self.in_progress@[j] == old_entries[j]);
                        }
                    }
                    assert forall|id2: Seq<u8>| #[trigger] self.counts@.contains_key(id2)
                        implies exists|k: int| 0 <= k < self.in_progress@.len() && self.in_progress@[k].batch_id@ == id2 by {
                        if id2 == id {
                            assert(self.in_progress@[n].batch_id@ == id2);
                        } else {
                            let k = choose|k: int| 0 <= k < old_entries.len() && old_entries[k].batch_id@ == id2;
                            assert(self.in_progress@[k].batch_id@ == id2);
                        }
                    }
                    assert forall|j1: int, j2: int| 0 <= j1 < self.in_progress@.len() && 0 <= j2 < self.in_progress@.len()
                        && (#[trigger] self.in_progress@[j1]).batch_id@ == (#[trigger] self.in_progress@[j2]).batch_id@
                        implies j1 == j2 by {
                        if j1 < n && j2 < n {
                            assert(self.in_progress@[j1] == old_entries[j1]);
                            assert(self.in_progress@[j2] == old_entries[j2]);
                        } else if j1 < n {
                            assert(self.in_progress@[j1] == old_entries[j1]);
                        } else if j2 < n {
                            assert(self.in_progress@[j2] == old_entries[j2]);
                        }
                    }
                }
            },
        }
        assert forall|id2: Seq<u8>| #[trigger] self.completed_ids@.contains(id2)
            implies exists|k: int| 0 <= k < self.completed@.len() && self.completed@[k]@ == id2 by {
            assert(old(self).completed_ids@.contains(id2));
            assert(old(self).completed@ == self.completed@);
        }
        assert(self.wf());
        let ghost mid_model = self.model();
        let ghost mid_logs = self.logs@;
        let completed = self.settle(batch_id, result);
        proof {
            assert(mid_model.in_progress.remove(id) =~= old_model.in_progress.remove(id));
            assert(mid_logs.remove(id) =~= old_logs.remove(id));
        }
        PacketOutcome { forward, completed, log: Ghost(log) }
    }
}

/// The state after a sequence of well-formed packets, each given as its
/// batch id and whether its decoder completed on it.
pub open spec fn run(s: ReassemblyState, events: Seq<(Seq<u8>, bool)>) -> ReassemblyState
    decreases events.len(),
{
    if events.len() == 0 {
        s
    } else {
        next_state(run(s, events.drop_last()), events.last().0, events.last().1)
    }
}

/// The batch ids handed to the persister over that sequence, in order.
pub open spec fn emissions(s: ReassemblyState, events: Seq<(Seq<u8>, bool)>) -> Seq<Seq<u8>>
    decreases events.len(),
{
    if events.len() == 0 {
        Seq::empty()
    } else {
        let rest = emissions(s, events.drop_last());
        if emits(run(s, events.drop_last()), events.last().0, events.last().1) {
            rest.push(events.last().0)
        } else {
            rest
        }
    }
}

/// At-most-once completion: over any sequence of packets, no batch id is
/// handed to the persister twice, nor one that was already completed; every
/// batch handed out is completed afterwards, and completed batches stay so.
pub proof fn lemma_at_most_once_completion(s: ReassemblyState, events: Seq<(Seq<u8>, bool)>)
    ensures
        emissions(s, events).no_duplicates(),
        forall|k: int| 0 <= k < emissions(s, events).len() ==> !s.completed.contains(#[trigger] emissions(s, events)[k]),
        forall|k: int| 0 <= k < emissions(s, events).len() ==> run(s, events).completed.contains(#[trigger] emissions(s, events)[k]),
        forall|id: Seq<u8>| s.completed.contains(id) ==> #[trigger] run(s, events).completed.contains(id),
    decreases events.len(),
{
    if events.len() > 0 {
        let prev = events.drop_last();
        lemma_at_most_once_completion(s, prev);
        let p = run(s, prev);
        let (id, done) = events.last();
        let rest = emissions(s, prev);
        if emits(p, id, done) {
            assert forall|k: int| 0 <= k < rest.len() implies rest[k] != id by {
                assert(p.completed.contains(rest[k]));
            }
            let all = rest.push(id);
            assert forall|a: int, b: int| 0 <= a < all.len() && 0 <= b < all.len() && a != b implies all[a] != all[b] by {
                if a < rest.len() && b < rest.len() {
                } else if a < rest.len() {
                    assert(all[b] == id);
                    assert(all[a] == rest[a]);
                } else {
                    assert(all[a] == id);
                    assert(all[b] == rest[b]);
                }
            }
            assert forall|k: int| 0 <= k < all.len() implies !s.completed.contains(#[trigger] all[k]) by {
                if k < rest.len() {
                    assert(all[k] == rest[k]);
                }
            }
            assert forall|k: int| 0 <= k < all.len() implies run(s, events).completed.contains(#[trigger] all[k]) by {
                if k < rest.len() {
                    assert(all[k] == rest[k]);
                }
            }
        }
    }
}

/// A chain of reassembly steps is a run: where each state follows from the
/// one before by `next_state` (as each call of `handle_packet` ensures for a
/// well-formed packet), the last state is the run of the events from the
/// first, so `lemma_at_most_once_completion` covers the whole chain.
pub proof fn lemma_steps_form_run(states: Seq<ReassemblyState>, events: Seq<(Seq<u8>, bool)>)
    requires
        states.len() == events.len() + 1,
        forall|k: int| 0 <= k < events.len() ==> #[trigger] states[k + 1] == next_state(states[k], events[k].0, events[k].1),
    ensures
        states.last() == run(states[0], events),
    decreases events.len(),
{
    if events.len() > 0 {
        let n = events.len() as int;
        let ps = states.drop_last();
        let pe = events.drop_last();
        assert forall|k: int| 0 <= k < pe.len() implies #[trigger] ps[k + 1] == next_state(ps[k], pe[k].0, pe[k].1) by {
            assert(states[k + 1] == next_state(states[k], events[k].0, events[k].1));
        }
        lemma_steps_form_run(ps, pe);
        assert(states[n] == next_state(states[n - 1], events[n - 1].0, events[n - 1].1));
    }
}

/// Dedup after completion: a packet of a completed batch changes no state
/// and hands nothing to the persister, whatever its decoder would say.
pub proof fn lemma_completed_packets_dropped(s: ReassemblyState, id: Seq<u8>, done: bool)
    requires
        s.completed.contains(id),
    ensures
        next_state(s, id, done) == s,
        !emits(s, id, done),
{
}

/// The reassembly step keeps a batch id out of being both in progress and
/// completed.
pub proof fn lemma_next_state_wf(s: ReassemblyState, id: Seq<u8>, done: bool)
    requires
        state_wf(s),
    ensures
        state_wf(next_state(s, id, done)),
{
}

/// Relay depth is at most one: a relayed copy carries a cleared forward
/// flag, and when it arrives at any receiver, whatever that receiver has
/// completed, it is not relayed again.
pub proof fn lemma_relay_depth_one(completed: Set<Seq<u8>>, buf: Seq<u8>, len: int, other: Set<Seq<u8>>, arrived: Seq<u8>)
    requires
        buf.len() == MTU_SIZE,
        forward_decision(completed, buf, len) is Some,
        arrived.len() == MTU_SIZE,
        arrived.subrange(0, len) == forward_decision(completed, buf, len)->0,
    ensures
        forward_decision(completed, buf, len)->0[1] == 0,
        forward_decision(other, arrived, len) is None,
{
    let f = forward_decision(completed, buf, len)->0;
    assert(f == relay_copy(buf, len));
    assert(arrived[1] == arrived.subrange(0, len)[1]);
}

fn relay_bytes(buf: &[u8; MTU_SIZE], len: usize) -> (r: Vec<u8>)
    requires
        2 <= len <= MTU_SIZE,
    ensures
        r@ == relay_copy(buf@, len as int),
{
    let mut v: Vec<u8> = Vec::with_capacity(len);
    for j in 0..len
        invariant
            len <= MTU_SIZE,
            v@.len() == j,
            forall|k: int| 0 <= k < j ==> v@[k] == if k == 1 { 0u8 } else { buf@[k] },
    {
        v.push(if j == 1 { 0u8 } else { buf[j] });
    }
    assert(v@ =~= relay_copy(buf@, len as int));
    v
}

fn same_id(a: &[u8; BATCH_ID_SIZE], b: &[u8; BATCH_ID_SIZE]) -> (r: bool)
    ensures
        r == (a@ == b@),
{
    for i in 0..BATCH_ID_SIZE
        invariant
            a@.len() == BATCH_ID_SIZE,
            b@.len() == BATCH_ID_SIZE,
            forall|k: int| 0 <= k < i ==> a@[k] == b@[k],
    {
        if a[i] != b[i] {
            return false;
        }
    }
    assert(a@ =~= b@);
    true
}

} // verus!

//! The sender's fan-out: which receiver each packet goes to first, and the
//! bound on sends in flight.
use vstd::prelude::*;

verus! {

/// How many of the packets `0..packet_count` round-robin sharding sends to
/// receiver `k` of `receiver_count`.
pub open spec fn shard_count(packet_count: nat, receiver_count: nat, k: nat) -> nat
    decreases packet_count,
{
    if packet_count == 0 {
        0
    } else {
        shard_count((packet_count - 1) as nat, receiver_count, k) + if (packet_count - 1) as nat
            % receiver_count == k {
            1nat
        } else {
            0nat
        }
    }
}

/// Index into the receiver list of the first destination of packet `packet_index`.
pub fn shard_destination(packet_index: usize, receiver_count: usize) -> (r: usize)
    requires
        receiver_count > 0,
    ensures
        r == packet_index % receiver_count,
        r < receiver_count,
{
    packet_index % receiver_count
}

/// First destination of each of `packet_count` packets.
pub fn shard_plan(packet_count: usize, receiver_count: usize) -> (r: Vec<usize>)
    requires
        receiver_count > 0,
    ensures
        r@.len() == packet_count,
        forall|i: int| 0 <= i < packet_count ==> r@[i] == i % (receiver_count as int),
{
    let mut plan: Vec<usize> = Vec::with_capacity(packet_count);
    for i in 0..packet_count
        invariant
            receiver_count > 0,
            plan@.len() == i,
            forall|j: int| 0 <= j < i ==> plan@[j] == j % (receiver_count as int),
    {
        plan.push(shard_destination(i, receiver_count));
    }
    plan
}

proof fn lemma_shard_count_exact(p: nat, n: nat, k: nat)
    requires
        n > 0,
        k < n,
    ensures
        shard_count(p, n, k) == p / n + if k < p % n { 1nat } else { 0nat },
    decreases p,
{
    if p > 0 {
        let q = (p - 1) as nat;
        lemma_shard_count_exact(q, n, k);
        assert(shard_count(p, n, k) == shard_count(q, n, k) + if q % n == k { 1nat } else { 0nat });
        vstd::arithmetic::div_mod::lemma_fundamental_div_mod(q as int, n as int);
        vstd::arithmetic::div_mod::lemma_fundamental_div_mod(p as int, n as int);
        vstd::arithmetic::div_mod::lemma_mod_bound(q as int, n as int);
        vstd::arithmetic::div_mod::lemma_mod_bound(p as int, n as int);
        if q % n + 1 == n {
            assert((q / n + 1) * n == (q / n) * n + n) by (nonlinear_arith);
            vstd::arithmetic::div_mod::lemma_fundamental_div_mod_converse(p as int, n as int, (q / n + 1) as int, (0) as int);
        } else {
            vstd::arithmetic::div_mod::lemma_fundamental_div_mod_converse(p as int, n as int, (q / n) as int, (q % n + 1) as int);
        }
    } else {
        vstd::arithmetic::div_mod::lemma_fundamental_div_mod_converse(0, n as int, 0, 0);
    }
}

/// Round-robin sharding is fair: of `packet_count` packets, each of
/// `receiver_count` receivers is the first destination of the floor or the
/// ceiling of `packet_count / receiver_count` of them.
pub proof fn lemma_sharding_fair(packet_count: nat, receiver_count: nat, k: nat)
    requires
        receiver_count > 0,
        k < receiver_count,
    ensures
        shard_count(packet_count, receiver_count, k) == packet_count / receiver_count
            || shard_count(packet_count, receiver_count, k) == (packet_count + receiver_count - 1) as nat
            / receiver_count,
        packet_count / receiver_count <= shard_count(packet_count, receiver_count, k)
            <= (packet_count + receiver_count - 1) as nat / receiver_count,
{
    lemma_shard_count_exact(packet_count, receiver_count, k);
    let p = packet_count as int;
    let n = receiver_count as int;
    vstd::arithmetic::div_mod::lemma_fundamental_div_mod(p, n);
    vstd::arithmetic::div_mod::lemma_mod_bound(p, n);
    if p % n == 0 {
        vstd::arithmetic::div_mod::lemma_fundamental_div_mod_converse(p + n - 1, n as int, (p / n) as int, (n - 1) as int);
    } else {
        assert((p / n + 1) * n == (p / n) * n + n) by (nonlinear_arith);
        vstd::arithmetic::div_mod::lemma_fundamental_div_mod_converse(p + n - 1, n as int, (p / n + 1) as int, (p % n - 1) as int);
    }
}

/// Bound on the sends a batch has in flight: a new send is launched only
/// while fewer than `cap` are outstanding.
pub struct SendWindow {
    pub in_flight: usize,
    pub cap: usize,
}

impl SendWindow {
    pub open spec fn wf(&self) -> bool {
        1 <= self.cap && self.in_flight <= self.cap
    }

    /// An empty window admitting `num_packet_blast` sends; a cap of zero is
    /// taken as one.
    pub fn new(num_packet_blast: usize) -> (r: SendWindow)
        ensures
            r.wf(),
            r.in_flight == 0,
            r.cap == if num_packet_blast == 0 { 1 } else { num_packet_blast },
    {
        SendWindow { in_flight: 0, cap: if num_packet_blast == 0 { 1 } else { num_packet_blast } }
    }

    /// Whether the oldest outstanding send must complete before the next launch.
    pub fn must_wait(&self) -> (r: bool)
        requires
            self.wf(),
        ensures
            r == (self.in_flight == self.cap),
    {
        self.in_flight >= self.cap
    }

    /// Records a launched send.
    pub fn launch(&mut self)
        requires
            old(self).wf(),
            old(self).in_flight < old(self).cap,
        ensures
            final(self).wf(),
            final(self).cap == old(self).cap,
            final(self).in_flight == old(self).in_flight + 1,
    {
        self.in_flight = self.in_flight + 1;
    }

    /// Records a completed send.
    pub fn complete(&mut self)
        requires
            old(self).wf(),
            old(self).in_flight > 0,
        ensures
            final(self).wf(),
            final(self).cap == old(self).cap,
            final(self).in_flight == old(self).in_flight - 1,
    {
        self.in_flight = self.in_flight - 1;
    }
}

} // verus!

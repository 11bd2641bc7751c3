//! Round-trip bookkeeping: a ring of outstanding sequence numbers and the
//! RTT and outage statistics over it. Times are in nanoseconds.
use vstd::prelude::*;

verus! {

#[derive(Clone, Copy, Debug, PartialEq, Eq, Structural)]
pub struct RTTEntry {
    pub seq: usize,
    pub arrival_time: u64,
    /// Up to when outage has been counted for this entry.
    pub last_outage_time: u64,
    pub pong_time: Option<u64>,
    /// Inter-link arrival delta reported by the receiver, in nanoseconds.
    pub delta: i64,
}

impl RTTEntry {
    fn new(seq: usize, arrival_time: u64, last_outage_time: u64) -> (r: Self)
        ensures
            r == (RTTEntry { seq, arrival_time, last_outage_time, pong_time: None, delta: 0 }),
    {
        RTTEntry { seq, arrival_time, last_outage_time, pong_time: None, delta: 0 }
    }

    fn update_value(&mut self, value: u64, delta: i64) -> (r: u64)
        ensures
            *final(self) == (RTTEntry { pong_time: Some(value), delta, ..*old(self) }),
            r == rtt_of(old(self).arrival_time, value),
    {
        self.pong_time = Some(value);
        self.delta = delta;
        value.saturating_sub(self.arrival_time)
    }
}

/// Round-trip time of a pong at `pong` for a send at `arrival`, zero where
/// the pong is not later.
pub open spec fn rtt_of(arrival: u64, pong: u64) -> u64 {
    if pong >= arrival {
        (pong - arrival) as u64
    } else {
        0
    }
}

/// Outage an entry contributes to a statistic taken at `now`: time past its
/// last counted point, up to its pong or, without one, up to `now`.
pub open spec fn outage_of(e: RTTEntry, now: u64) -> int {
    let until = match e.pong_time {
        Some(p) => p,
        None => now,
    };
    if until > e.last_outage_time {
        until - e.last_outage_time
    } else {
        0
    }
}

/// A slot after a statistic at `now`: completed entries leave, pending ones
/// have their outage counted up to `now`.
pub open spec fn slot_after(s: Option<RTTEntry>, now: u64) -> Option<RTTEntry> {
    match s {
        None => None,
        Some(e) => match e.pong_time {
            Some(_) => None,
            None => Some(
                RTTEntry {
                    last_outage_time: if now > e.last_outage_time {
                        now
                    } else {
                        e.last_outage_time
                    },
                    ..e
                },
            ),
        },
    }
}

/// Sum of the round-trip times of the completed entries of `q`.
pub open spec fn rtt_sum(q: Seq<Option<RTTEntry>>) -> int
    decreases q.len(),
{
    if q.len() == 0 {
        0
    } else {
        rtt_sum(q.drop_last()) + match q.last() {
            Some(e) => match e.pong_time {
                Some(p) => rtt_of(e.arrival_time, p) as int,
                None => 0,
            },
            None => 0,
        }
    }
}

/// Number of completed entries of `q`.
pub open spec fn done_count(q: Seq<Option<RTTEntry>>) -> int
    decreases q.len(),
{
    if q.len() == 0 {
        0
    } else {
        done_count(q.drop_last()) + match q.last() {
            Some(e) => if e.pong_time is Some {
                1int
            } else {
                0
            },
            None => 0,
        }
    }
}

/// Sum of the outage that the entries of `q` contribute at `now`.
pub open spec fn outage_sum(q: Seq<Option<RTTEntry>>, now: u64) -> int
    decreases q.len(),
{
    if q.len() == 0 {
        0
    } else {
        outage_sum(q.drop_last(), now) + match q.last() {
            Some(e) => outage_of(e, now),
            None => 0,
        }
    }
}

/// Result of one statistic over the ring.
#[derive(Clone, Copy, Debug, PartialEq, Eq, Structural)]
pub struct RttStatistic {
    /// Mean round-trip time of the completed entries (zero if none).
    pub rtt_avg: u64,
    /// Total outage counted, in nanoseconds; divided by the target RTT it is
    /// the outage rate.
    pub outage: u128,
}

pub struct RttRecords {
    pub queue: Vec<Option<RTTEntry>>,
    pub target_rtt: u64,
    pub max_length: usize,
}

impl RttRecords {
    pub open spec fn wf(&self) -> bool {
        &&& self.max_length > 0
        &&& self.queue@.len() == self.max_length
    }

    pub fn new(max_length: usize, target_rtt: u64) -> (r: Self)
        requires
            max_length > 0,
        ensures
            r.wf(),
            r.max_length == max_length,
            r.target_rtt == target_rtt,
            forall|i: int| 0 <= i < max_length ==> r.queue@[i] is None,
    {
        let mut queue: Vec<Option<RTTEntry>> = Vec::with_capacity(max_length);
        let mut i: usize = 0;
        while i < max_length
            invariant
                i <= max_length,
                queue@.len() == i,
                forall|j: int| 0 <= j < i ==> queue@[j] is None,
            decreases max_length - i,
        {
            queue.push(None);
            i = i + 1;
        }
        RttRecords { queue, target_rtt, max_length }
    }

    /// Notes that `seq` was sent at `arrival_time`: its slot gets a fresh
    /// entry whose outage counts from `arrival_time + target_rtt`.
    pub fn update_arrival(&mut self, seq: usize, arrival_time: u64)
        requires
            old(self).wf(),
            arrival_time + old(self).target_rtt <= u64::MAX,
        ensures
            final(self).wf(),
            final(self).target_rtt == old(self).target_rtt,
            final(self).max_length == old(self).max_length,
            final(self).queue@ == old(self).queue@.update(
                (seq as int) % (old(self).max_length as int),
                Some(
                    RTTEntry {
                        seq,
                        arrival_time,
                        last_outage_time: (arrival_time + old(self).target_rtt) as u64,
                        pong_time: None,
                        delta: 0,
                    },
                ),
            ),
    {
        let index = seq % self.max_length;
        let entry = RTTEntry::new(seq, arrival_time, arrival_time + self.target_rtt);
        self.queue.set(index, Some(entry));
    }

    /// Records the pong of `seq` at `pong_time` with the receiver's delta and
    /// returns its round-trip time; a `seq` that its slot does not hold is
    /// dropped (`None`).
    pub fn update(&mut self, seq: usize, pong_time: u64, delta: i64) -> (r: Option<u64>)
        requires
            old(self).wf(),
        ensures
            final(self).wf(),
            final(self).target_rtt == old(self).target_rtt,
            final(self).max_length == old(self).max_length,
            ({
                let i = (seq as int) % (old(self).max_length as int);
                match old(self).queue@[i] {
                    Some(e) if e.seq == seq => {
                        &&& r == Some(rtt_of(e.arrival_time, pong_time))
                        &&& final(self).queue@ == old(self).queue@.update(
                            i,
                            Some(RTTEntry { pong_time: Some(pong_time), delta, ..e }),
                        )
                    },
                    _ => r is None && final(self).queue@ == old(self).queue@,
                }
            }),
    {
        let index = seq % self.max_length;
        match self.queue[index] {
            Some(mut entry) => {
                if entry.seq == seq {
                    let rtt = entry.update_value(pong_time, delta);
                    self.queue.set(index, Some(entry));
                    Some(rtt)
                } else {
                    None
                }
            },
            None => None,
        }
    }

    /// Takes the statistic at `now`: the mean RTT of the completed entries
    /// and the outage of all entries (see `outage_of`); completed entries
    /// leave the ring and pending ones have their outage counted up to `now`.
    pub fn statistic(&mut self, now: u64) -> (r: RttStatistic)
        requires
            old(self).wf(),
        ensures
            final(self).wf(),
            final(self).target_rtt == old(self).target_rtt,
            final(self).max_length == old(self).max_length,
            final(self).queue@.len() == old(self).queue@.len(),
            forall|i: int|
                0 <= i < old(self).queue@.len() ==> #[trigger] final(self).queue@[i] == slot_after(
                    old(self).queue@[i],
                    now,
                ),
            r.rtt_avg == if done_count(old(self).queue@) == 0 {
                0
            } else {
                rtt_sum(old(self).queue@) / done_count(old(self).queue@)
            },
            r.outage == outage_sum(old(self).queue@, now),
    {
        let ghost q0 = self.queue@;
        let n = self.queue.len();
        let mut outages: u128 = 0;
        let mut rtts: u128 = 0;
        let mut count: u64 = 0;
        let mut i: usize = 0;
        while i < n
            invariant
                n == q0.len(),
                i <= n,
                self.max_length == old(self).max_length,
                self.target_rtt == old(self).target_rtt,
                self.queue@.len() == n,
                forall|j: int| i <= j < n ==> self.queue@[j] == q0[j],
                forall|j: int| 0 <= j < i ==> #[trigger] self.queue@[j] == slot_after(q0[j], now),
                rtts == rtt_sum(q0.subrange(0, i as int)),
                count == done_count(q0.subrange(0, i as int)),
                outages == outage_sum(q0.subrange(0, i as int), now),
                rtts <= i * 0xffff_ffff_ffff_ffff,
                count <= i,
                outages <= i * 0xffff_ffff_ffff_ffff,
            decreases n - i,
        {
            proof {
                let pre = q0.subrange(0, i + 1);
                assert(pre.drop_last() =~= q0.subrange(0, i as int));
                assert(pre.last() == q0[i as int]);
                assert(i * 0xffff_ffff_ffff_ffffu128 + 0xffff_ffff_ffff_ffff == (i + 1)
                    * 0xffff_ffff_ffff_ffffu128) by (nonlinear_arith);
                assert((i + 1) * 0xffff_ffff_ffff_ffffu128 <= 0xffff_ffff_ffff_ffff
                    * 0xffff_ffff_ffff_ffffu128) by (nonlinear_arith)
                    requires
                        i < n <= usize::MAX,
                        usize::MAX <= 0xffff_ffff_ffff_ffff,
                ;
            }
            match self.queue[i] {
                Some(mut entry) => {
                    match entry.pong_time {
                        Some(pong_time) => {
                            rtts = rtts + pong_time.saturating_sub(entry.arrival_time) as u128;
                            count = count + 1;
                            if pong_time > entry.last_outage_time {
                                outages = outages + (pong_time - entry.last_outage_time) as u128;
                            }
                            self.queue.set(i, None);
                        },
                        None => {
                            if now > entry.last_outage_time {
                                outages = outages + (now - entry.last_outage_time) as u128;
                                entry.last_outage_time = now;
                            }
                            self.queue.set(i, Some(entry));
                        },
                    }
                },
                None => {},
            }
            i = i + 1;
        }
        assert(q0.subrange(0, n as int) =~= q0);
        let rtt_avg: u64 = if count == 0 {
            0
        } else {
            proof {
                assert((rtts as int) / (count as int) <= 0xffff_ffff_ffff_ffff) by {
                    lemma_avg_bound(rtts as int, count as int, q0);
                }
            }
            (rtts / count as u128) as u64
        };
        RttStatistic { rtt_avg, outage: outages }
    }
}

proof fn lemma_rtt_sum_bound(q: Seq<Option<RTTEntry>>)
    ensures
        0 <= rtt_sum(q) <= done_count(q) * 0xffff_ffff_ffff_ffff,
        0 <= done_count(q),
    decreases q.len(),
{
    if q.len() > 0 {
        lemma_rtt_sum_bound(q.drop_last());
    }
}

proof fn lemma_avg_bound(sum: int, count: int, q: Seq<Option<RTTEntry>>)
    requires
        sum == rtt_sum(q),
        count == done_count(q),
        count > 0,
    ensures
        sum / count <= 0xffff_ffff_ffff_ffff,
{
    lemma_rtt_sum_bound(q);
    assert(sum / count <= 0xffff_ffff_ffff_ffff) by (nonlinear_arith)
        requires
            0 <= sum <= count * 0xffff_ffff_ffff_ffff,
            count > 0,
    ;
}

} // verus!

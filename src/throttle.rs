//! Sliding-window rate throttle with a bounded staging buffer.
use vstd::prelude::*;
use std::collections::VecDeque;
use crate::packet::PacketWithMeta;

verus! {

/// A FIFO of bounded length: pushing onto a full one drops its oldest item.
pub struct CycledVecDequeue<T> {
    size: usize,
    fifo: VecDeque<T>,
}

/// `s` after pushing `x` onto a FIFO of capacity `size`.
pub open spec fn cycled_push<T>(s: Seq<T>, size: nat, x: T) -> Seq<T> {
    if s.len() >= size && s.len() > 0 {
        s.drop_first().push(x)
    } else {
        s.push(x)
    }
}

impl<T> CycledVecDequeue<T> {
    pub closed spec fn capacity(&self) -> nat {
        self.size as nat
    }

    pub closed spec fn items(&self) -> Seq<T> {
        self.fifo@
    }

    pub fn new(size: usize) -> (r: Self)
        ensures
            r.capacity() == size,
            r.items() == Seq::<T>::empty(),
    {
        let fifo = VecDeque::new();
        Self { size, fifo }
    }

    pub fn push(&mut self, item: T)
        ensures
            final(self).capacity() == old(self).capacity(),
            final(self).items() == cycled_push(old(self).items(), old(self).capacity(), item),
    {
        if self.fifo.len() >= self.size && self.fifo.len() > 0 {
            self.fifo.pop_front();
        }
        self.fifo.push_back(item);
    }

    pub fn len(&self) -> (r: usize)
        ensures
            r == self.items().len(),
    {
        self.fifo.len()
    }

    pub fn front(&self) -> (r: Option<&T>)
        ensures
            self.items().len() == 0 ==> r is None,
            self.items().len() > 0 ==> r == Some(&self.items()[0]),
    {
        if self.fifo.len() > 0 {
            Some(&self.fifo[0])
        } else {
            None
        }
    }

    pub fn pop_front(&mut self) -> (r: Option<T>)
        ensures
            final(self).capacity() == old(self).capacity(),
            old(self).items().len() == 0 ==> r is None && final(self).items() == old(self).items(),
            old(self).items().len() > 0 ==> r == Some(old(self).items()[0]) && final(self).items()
                == old(self).items().drop_first(),
    {
        self.fifo.pop_front()
    }

    pub fn clear(&mut self)
        ensures
            final(self).capacity() == old(self).capacity(),
            final(self).items() == Seq::<T>::empty(),
    {
        self.fifo.clear();
    }
}

pub const NANOS_PER_SEC: u64 = 1_000_000_000;

/// Largest size the window records for one send: a fragment's length field.
pub const MAX_RECORDED_SIZE: u64 = 65535;

/// Sum of the sizes in a window of (timestamp, size) pairs.
pub open spec fn window_sum(w: Seq<(u64, u64)>) -> int
    decreases w.len(),
{
    if w.len() == 0 {
        0
    } else {
        window_sum(w.drop_last()) + w.last().1
    }
}

/// Nanoseconds from `t0` to `now`, zero where `now` is not later.
pub open spec fn elapsed(t0: u64, now: u64) -> int {
    if now >= t0 {
        now - t0
    } else {
        0
    }
}

/// Admitting `size` more bytes at `now` would bring the rate over the window,
/// 8·(Σsize + size) / (now − t₀), to `throttle` bits per second or above.
/// A zero throttle, or an empty window, admits.
pub open spec fn rate_exceeds(w: Seq<(u64, u64)>, throttle: u64, size: int, now: u64) -> bool {
    &&& throttle != 0
    &&& w.len() > 0
    &&& 8 * (window_sum(w) + size) * NANOS_PER_SEC >= throttle * elapsed(w[0].0, now)
}

/// What `try_consume` decides about the fragment at the head of the stage.
pub enum Admission {
    /// Nothing is staged.
    Empty,
    /// Sending now would reach the throttle; wait and ask again.
    Throttled,
    /// This fragment, the head of the stage, may be sent now.
    Admit(PacketWithMeta),
}

pub struct RateThrottler {
    pub name: String,
    /// (timestamp in nanoseconds, size in bytes) of the latest sends.
    pub window: CycledVecDequeue<(u64, u64)>,
    /// Fragments waiting to be sent, oldest first.
    pub buffer: CycledVecDequeue<PacketWithMeta>,
    /// Throttle threshold in bits per second; zero disables throttling.
    pub throttle: u64,
    /// The rate last published for statistics, in bits per second.
    pub rate: u64,
}

impl RateThrottler {
    pub open spec fn window_items(&self) -> Seq<(u64, u64)> {
        self.window.items()
    }

    pub open spec fn staged(&self) -> Seq<PacketWithMeta> {
        self.buffer.items()
    }

    pub open spec fn window_size(&self) -> nat {
        self.window.capacity()
    }

    pub open spec fn stage_size(&self) -> nat {
        self.buffer.capacity()
    }

    /// Every recorded size is a fragment length.
    pub open spec fn wf(&self) -> bool {
        forall|i: int|
            0 <= i < self.window.items().len() ==> (#[trigger] self.window.items()[i]).1
                <= MAX_RECORDED_SIZE
    }

    pub fn new(name: String, throttle: u64, window_size: usize) -> (r: Self)
        ensures
            r.wf(),
            r.name == name,
            r.throttle == throttle,
            r.rate == 0,
            r.window_size() == window_size,
            r.stage_size() == if window_size <= usize::MAX / 100 {
                100 * window_size as int
            } else {
                usize::MAX as int
            },
            r.window_items() == Seq::<(u64, u64)>::empty(),
            r.staged() == Seq::<PacketWithMeta>::empty(),
    {
        let stage = if window_size <= usize::MAX / 100 {
            100 * window_size
        } else {
            usize::MAX
        };
        RateThrottler {
            name,
            window: CycledVecDequeue::new(window_size),
            buffer: CycledVecDequeue::new(stage),
            throttle,
            rate: 0,
        }
    }

    /// Sum of the window's sizes plus `extra`.
    fn window_bytes(&self, extra: u64) -> (r: u128)
        requires
            self.wf(),
        ensures
            r == window_sum(self.window_items()) + extra,
            r <= self.window_items().len() * MAX_RECORDED_SIZE + extra,
    {
        let n = self.window.len();
        let mut acc: u128 = extra as u128;
        let mut i: usize = 0;
        while i < n
            invariant
                self.wf(),
                n == self.window.items().len(),
                i <= n,
                acc == window_sum(self.window.items().subrange(0, i as int)) + extra,
                acc <= i * MAX_RECORDED_SIZE + extra,
            decreases n - i,
        {
            let item = self.window.fifo[i];
            proof {
                let s = self.window.items();
                assert(s.subrange(0, i + 1).drop_last() =~= s.subrange(0, i as int));
                assert(s[i as int].1 <= MAX_RECORDED_SIZE);
            }
            acc = acc + item.1 as u128;
            i = i + 1;
        }
        assert(self.window.items().subrange(0, n as int) =~= self.window.items());
        acc
    }

    /// The rate over the window plus `extra_bytes`, in bits per second:
    /// 8·(Σsize + extra) / (now − t₀), rounded down; `None` for an empty
    /// window or no time elapsed since its oldest entry.
    pub fn current_rate_bps(&self, extra_bytes: u64, now: u64) -> (r: Option<u128>)
        requires
            self.wf(),
        ensures
            r is None <==> (self.window_items().len() == 0 || elapsed(
                self.window_items()[0].0,
                now,
            ) == 0),
            r matches Some(v) ==> v == 8 * (window_sum(self.window_items()) + extra_bytes)
                * NANOS_PER_SEC / elapsed(self.window_items()[0].0, now),
    {
        let n = self.window.len();
        if n == 0 {
            return None;
        }
        let t0 = self.window.fifo[0].0;
        if now <= t0 {
            return None;
        }
        let bytes = self.window_bytes(extra_bytes);
        proof {
            assert(8 * bytes * NANOS_PER_SEC <= 0xffff_ffff_ffff_ffff_ffff_ffff_ffff_ffff)
                by (nonlinear_arith)
                requires
                    bytes <= n * MAX_RECORDED_SIZE + extra_bytes,
                    n <= usize::MAX,
                    extra_bytes <= u64::MAX,
                    MAX_RECORDED_SIZE == 65535,
                    NANOS_PER_SEC == 1_000_000_000,
            ;
        }
        Some(8 * bytes * (NANOS_PER_SEC as u128) / ((now - t0) as u128))
    }

    /// Whether admitting `size_bytes` more at `now` would reach the throttle.
    pub fn exceeds_with(&self, size_bytes: u64, now: u64) -> (r: bool)
        requires
            self.wf(),
        ensures
            r == rate_exceeds(self.window_items(), self.throttle, size_bytes as int, now),
    {
        let n = self.window.len();
        if self.throttle == 0 || n == 0 {
            return false;
        }
        let t0 = self.window.fifo[0].0;
        let dt: u64 = if now >= t0 {
            now - t0
        } else {
            0
        };
        let bytes = self.window_bytes(size_bytes);
        proof {
            assert(8 * bytes * NANOS_PER_SEC <= 0xffff_ffff_ffff_ffff_ffff_ffff_ffff_ffff)
                by (nonlinear_arith)
                requires
                    bytes <= n * MAX_RECORDED_SIZE + size_bytes,
                    n <= usize::MAX,
                    size_bytes <= u64::MAX,
                    MAX_RECORDED_SIZE == 65535,
                    NANOS_PER_SEC == 1_000_000_000,
            ;
            assert((self.throttle as int) * (dt as int) <= 0xffff_ffff_ffff_ffff_ffff_ffff_ffff_ffff)
                by (nonlinear_arith)
                requires
                    self.throttle <= u64::MAX,
                    dt <= u64::MAX,
            ;
        }
        8 * bytes * (NANOS_PER_SEC as u128) >= (self.throttle as u128) * (dt as u128)
    }

    /// Decides on the head of the stage at `now`: `Empty` when nothing is
    /// staged, `Throttled` when sending it would reach the throttle, else
    /// `Admit` with a copy of it. Nothing changes; after a successful send
    /// the caller records it with `consume`.
    pub fn try_consume(&self, now: u64) -> (r: Admission)
        requires
            self.wf(),
        ensures
            self.staged().len() == 0 <==> r is Empty,
            r is Throttled <==> (self.staged().len() > 0 && rate_exceeds(
                self.window_items(),
                self.throttle,
                self.staged()[0].packet.length as int,
                now,
            )),
            r matches Admission::Admit(p) ==> {
                &&& p.packet.seq == self.staged()[0].packet.seq
                &&& p.packet.offset == self.staged()[0].packet.offset
                &&& p.packet.length == self.staged()[0].packet.length
                &&& p.packet.indicators == self.staged()[0].packet.indicators
                &&& p.packet.payload@ == self.staged()[0].packet.payload@
                &&& p.port == self.staged()[0].port
                &&& p.num == self.staged()[0].num
                &&& p.arrival_time == self.staged()[0].arrival_time
            },
    {
        match self.buffer.front() {
            None => Admission::Empty,
            Some(packet) => {
                if self.exceeds_with(packet.packet.length as u64, now) {
                    Admission::Throttled
                } else {
                    Admission::Admit(packet.duplicate())
                }
            },
        }
    }

    /// Takes the head of the stage after it was sent at `now`, and records
    /// (now, its length) in the window.
    pub fn consume(&mut self, now: u64) -> (r: Option<PacketWithMeta>)
        requires
            old(self).wf(),
        ensures
            final(self).wf(),
            final(self).name == old(self).name,
            final(self).throttle == old(self).throttle,
            final(self).rate == old(self).rate,
            final(self).window_size() == old(self).window_size(),
            final(self).stage_size() == old(self).stage_size(),
            old(self).staged().len() == 0 ==> {
                &&& r is None
                &&& final(self).staged() == old(self).staged()
                &&& final(self).window_items() == old(self).window_items()
            },
            old(self).staged().len() > 0 ==> {
                &&& r == Some(old(self).staged()[0])
                &&& final(self).staged() == old(self).staged().drop_first()
                &&& final(self).window_items() == cycled_push(
                    old(self).window_items(),
                    old(self).window_size(),
                    (now, old(self).staged()[0].packet.length as u64),
                )
            },
    {
        let r = self.buffer.pop_front();
        if let Some(ref p) = r {
            let ghost w0 = self.window.items();
            self.window.push((now, p.packet.length as u64));
            proof {
                let w1 = self.window.items();
                assert forall|i: int| 0 <= i < w1.len() implies (#[trigger] w1[i]).1
                    <= MAX_RECORDED_SIZE by {
                    if w0.len() >= self.window.capacity() && w0.len() > 0 {
                        if i < w1.len() - 1 {
                            assert(w1[i] == w0[i + 1]);
                        }
                    } else {
                        if i < w1.len() - 1 {
                            assert(w1[i] == w0[i]);
                        }
                    }
                }
            }
        }
        r
    }

    /// Stages `packets` in order (dropping the oldest on overflow) and
    /// publishes the current rate over the window, saturated to `u64`.
    pub fn prepare(&mut self, packets: Vec<PacketWithMeta>, now: u64)
        requires
            old(self).wf(),
        ensures
            final(self).wf(),
            final(self).name == old(self).name,
            final(self).throttle == old(self).throttle,
            final(self).window_items() == old(self).window_items(),
            final(self).window_size() == old(self).window_size(),
            final(self).stage_size() == old(self).stage_size(),
            final(self).staged() == push_all(old(self).staged(), old(self).stage_size(), packets@),
            old(self).window_items().len() == 0 || elapsed(old(self).window_items()[0].0, now) == 0
                ==> final(self).rate == 0,
            old(self).window_items().len() > 0 && elapsed(old(self).window_items()[0].0, now) > 0
                ==> final(self).rate == min_u64(
                8 * window_sum(old(self).window_items()) * NANOS_PER_SEC / elapsed(
                    old(self).window_items()[0].0,
                    now,
                ),
            ),
    {
        let rate = match self.current_rate_bps(0, now) {
            None => 0,
            Some(v) => if v > u64::MAX as u128 {
                u64::MAX
            } else {
                v as u64
            },
        };
        self.rate = rate;
        let n = packets.len();
        let mut rest = packets;
        let ghost all = rest@;
        let ghost s0 = self.buffer.items();
        let mut i: usize = 0;
        while i < n
            invariant
                n == all.len(),
                i <= n,
                rest@ == all.subrange(i as int, n as int),
                self.buffer.capacity() == old(self).buffer.capacity(),
                self.buffer.items() == push_all(s0, self.buffer.capacity(), all.subrange(0, i as int)),
                self.window == old(self).window,
                self.name == old(self).name,
                self.throttle == old(self).throttle,
                self.rate == rate,
            decreases n - i,
        {
            let p = rest.remove(0);
            proof {
                let pre = all.subrange(0, i + 1);
                assert(pre.drop_last() =~= all.subrange(0, i as int));
                assert(pre.last() == p);
            }
            self.buffer.push(p);
            i = i + 1;
            assert(rest@ =~= all.subrange(i as int, n as int));
        }
        assert(all.subrange(0, n as int) =~= all);
    }

    /// Clears the window and the stage.
    pub fn reset(&mut self)
        ensures
            final(self).wf(),
            final(self).name == old(self).name,
            final(self).throttle == old(self).throttle,
            final(self).rate == old(self).rate,
            final(self).window_size() == old(self).window_size(),
            final(self).stage_size() == old(self).stage_size(),
            final(self).window_items() == Seq::<(u64, u64)>::empty(),
            final(self).staged() == Seq::<PacketWithMeta>::empty(),
    {
        self.window.clear();
        self.buffer.clear();
    }
}

/// `s` after pushing each of `xs` in order onto a FIFO of capacity `size`.
pub open spec fn push_all<T>(s: Seq<T>, size: nat, xs: Seq<T>) -> Seq<T>
    decreases xs.len(),
{
    if xs.len() == 0 {
        s
    } else {
        cycled_push(push_all(s, size, xs.drop_last()), size, xs.last())
    }
}

pub open spec fn min_u64(x: int) -> u64 {
    if x > u64::MAX {
        u64::MAX
    } else {
        x as u64
    }
}

/// Throttle bound: a fragment of `size` bytes that the rate check admits at
/// `now` keeps the rate over the window and itself,
/// 8·(Σsize + size)/(now − t₀), strictly below the throttle; once recorded
/// in a window with room, the window's own rate is below the throttle.
pub proof fn lemma_throttle_bound(w: Seq<(u64, u64)>, cap: nat, throttle: u64, size: u64, now: u64)
    requires
        throttle != 0,
        w.len() > 0,
        !rate_exceeds(w, throttle, size as int, now),
    ensures
        8 * (window_sum(w) + size) * NANOS_PER_SEC < throttle * elapsed(w[0].0, now),
        w.len() < cap ==> 8 * window_sum(cycled_push(w, cap, (now, size))) * NANOS_PER_SEC
            < throttle * elapsed(cycled_push(w, cap, (now, size))[0].0, now),
{
    let w1 = w.push((now, size));
    assert(w1.drop_last() =~= w);
}

} // verus!

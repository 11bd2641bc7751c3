//! The per-stream source worker's decisions: staging a datagram's fragments,
//! choosing the link of the next one, and booking the outcome of a send.
use vstd::prelude::*;
use vstd::arithmetic::div_mod::{lemma_mod_add_multiples_vanish, lemma_small_mod};
use crate::fragment::{fragment_datagram, fragments_of, num_fragments};
use crate::mac_queue::MACQueuesSnapshot;
use crate::packet::{channel_info, indicator_of, link_of, PacketWithMeta, MAX_PAYLOAD_LEN};
use crate::policies::{decide, Policy};
use crate::throttle::{cycled_push, push_all, RateThrottler};
use crate::tx_part_ctl::TxPartCtler;

verus! {

/// Fragments one datagram of `size_bytes` bytes (those of `buffer`, where
/// given) and stages the fragments in the throttle; returns the datagram's
/// sequence number, which the RTT tracker is told about.
pub fn enqueue_datagram(
    template: &mut PacketWithMeta,
    throttler: &mut RateThrottler,
    size_bytes: usize,
    buffer: Option<&[u8]>,
    now: u64,
) -> (r: u32)
    requires
        old(template).packet.wf(),
        old(throttler).wf(),
        size_bytes <= 65535 * MAX_PAYLOAD_LEN,
        buffer matches Some(b) ==> b@.len() == size_bytes,
    ensures
        r == final(template).packet.seq,
        r == old(template).packet.seq.wrapping_add(1),
        final(template).packet.wf(),
        final(throttler).wf(),
        final(throttler).throttle == old(throttler).throttle,
        final(throttler).window_items() == old(throttler).window_items(),
        final(throttler).window_size() == old(throttler).window_size(),
        final(throttler).stage_size() == old(throttler).stage_size(),
        exists|fs: Seq<PacketWithMeta>|
            {
                &&& fs.len() == num_fragments(size_bytes as int)
                &&& forall|i: int|
                    0 <= i < fs.len() ==> (#[trigger] fs[i]).packet.seq == r && fs[i].arrival_time
                        == now && fs[i].num == fs.len()
                &&& (buffer matches Some(b) ==> fragments_of(fs, b@))
                &&& final(throttler).staged() == push_all(
                    old(throttler).staged(),
                    old(throttler).stage_size(),
                    fs,
                )
            },
{
    let frags = fragment_datagram(template, size_bytes, buffer, now);
    let ghost fs = frags@;
    throttler.prepare(frags, now);
    assert(forall|i: int|
        0 <= i < fs.len() ==> (#[trigger] fs[i]).packet.seq == template.packet.seq
            && fs[i].arrival_time == now && fs[i].num == fs.len());
    template.packet.seq
}

/// Chooses the link of `packet`, the fragment at the head of the stage, and
/// writes the choice into its indicator; returns the link id. `None` where
/// the fragment belongs to no datagram (a count of zero), or where the
/// policy makes no decision; the controller then clears its blocked flags.
pub fn schedule_fragment(
    ctl: &mut TxPartCtler,
    packet: &mut PacketWithMeta,
    snapshot: &MACQueuesSnapshot,
    link_costs: Vec<u64>,
) -> (r: Option<usize>)
    requires
        old(ctl).wf(),
        link_costs@.len() >= 2,
    ensures
        final(ctl).wf(),
        final(ctl).policy == old(ctl).policy,
        final(ctl).policy_parameters == old(ctl).policy_parameters,
        old(packet).num == 0 ==> r is None && *final(packet) == *old(packet) && final(ctl).blocked_signals@ == old(ctl).blocked_signals@,
        old(packet).num > 0 ==> match decide(
            old(ctl).policy,
            old(ctl).policy_parameters,
            old(packet).packet.offset as int,
            old(packet).num as int,
            old(ctl).blocked_signals@,
            link_costs@,
        ) {
            None => {
                &&& r is None
                &&& *final(packet) == *old(packet)
                &&& final(ctl).blocked_signals@ == seq![false, false]
            },
            Some(t) => {
                &&& r == Some(link_of(t) as usize)
                &&& final(packet).packet.indicators == indicator_of(t)
                &&& final(packet).packet.seq == old(packet).packet.seq
                &&& final(packet).packet.offset == old(packet).packet.offset
                &&& final(packet).packet.length == old(packet).packet.length
                &&& final(packet).packet.payload == old(packet).packet.payload
                &&& final(packet).port == old(packet).port
                &&& final(packet).num == old(packet).num
                &&& final(packet).arrival_time == old(packet).arrival_time
                &&& final(ctl).blocked_signals@ == old(ctl).blocked_signals@
            },
        },
{
    if packet.num == 0 {
        return None;
    }
    let msg = ctl.determine_schedule_info(packet, snapshot, link_costs);
    match ctl.get_packet_state(&msg) {
        None => None,
        Some(t) => {
            packet.packet.set_indicator(t);
            let link = channel_info(packet.packet.indicators);
            Some(link as usize)
        },
    }
}

/// Books the outcome of sending the head of the stage on `link` at `now`:
/// the controller notes it, and a fragment that went out leaves the stage
/// and enters the rate window.
pub fn finish_send(
    throttler: &mut RateThrottler,
    ctl: &mut TxPartCtler,
    link: usize,
    sent: bool,
    now: u64,
)
    requires
        old(throttler).wf(),
        old(ctl).wf(),
        link < 2,
    ensures
        final(throttler).wf(),
        final(ctl).wf(),
        final(ctl).policy == old(ctl).policy,
        final(ctl).policy_parameters == old(ctl).policy_parameters,
        !sent ==> final(ctl).blocked_signals@ == old(ctl).blocked_signals@.update(link as int, true),
        sent && old(ctl).policy != Policy::ConditionalRR ==> final(ctl).blocked_signals@ == old(
            ctl).blocked_signals@.update(link as int, false),
        sent && old(ctl).policy == Policy::ConditionalRR ==> final(ctl).blocked_signals@ == old(
            ctl).blocked_signals@,
        final(throttler).throttle == old(throttler).throttle,
        final(throttler).window_size() == old(throttler).window_size(),
        final(throttler).stage_size() == old(throttler).stage_size(),
        !sent ==> final(throttler).staged() == old(throttler).staged() && final(throttler).window_items() == old(throttler).window_items(),
        sent && old(throttler).staged().len() == 0 ==> final(throttler).staged() == old(
            throttler).staged() && final(throttler).window_items() == old(throttler).window_items(),
        sent && old(throttler).staged().len() > 0 ==> {
            &&& final(throttler).staged() == old(throttler).staged().drop_first()
            &&& final(throttler).window_items() == cycled_push(
                old(throttler).window_items(),
                old(throttler).window_size(),
                (now, old(throttler).staged()[0].packet.length as u64),
            )
        },
{
    ctl.report_send(link, sent);
    if sent {
        let _ = throttler.consume(now);
    }
}

/// Replay position in a trace of `rows` rows, sent for at most
/// `max_loops - 1` datagrams.
pub struct TraceCursor {
    pub idx: usize,
    pub loops: usize,
    pub max_loops: usize,
    pub rows: usize,
}

impl TraceCursor {
    pub fn new(start_offset: usize, max_loops: usize, rows: usize) -> (r: Self)
        ensures
            r == (TraceCursor { idx: start_offset, loops: 0, max_loops, rows }),
    {
        TraceCursor { idx: start_offset, loops: 0, max_loops, rows }
    }

    /// The row of the next datagram: the one after the current row, wrapping
    /// at the end of the trace; `None` once the loop budget is spent, after
    /// which the worker only drains until the stream stops.
    pub fn next_row(&mut self) -> (r: Option<usize>)
        requires
            old(self).rows > 0,
        ensures
            final(self).rows == old(self).rows,
            final(self).max_loops == old(self).max_loops,
            final(self).loops == if old(self).loops < usize::MAX {
                old(self).loops + 1
            } else {
                old(self).loops as int
            },
            final(self).loops < old(self).max_loops ==> {
                &&& r == Some(((old(self).idx + 1) % (old(self).rows as int)) as usize)
                &&& final(self).idx == r->0
            },
            final(self).loops >= old(self).max_loops ==> r is None && final(self).idx == old(self).idx,
    {
        self.loops = self.loops.saturating_add(1);
        if self.loops < self.max_loops {
            let rows = self.rows;
            let idx = self.idx;
            self.idx = if idx >= rows - 1 {
                proof {
                    lemma_mod_add_multiples_vanish(idx + 1 - rows, rows as int);
                }
                (idx - (rows - 1)) % rows
            } else {
                proof {
                    lemma_small_mod((idx + 1) as nat, rows as nat);
                }
                idx + 1
            };
            Some(self.idx)
        } else {
            None
        }
    }
}

} // verus!

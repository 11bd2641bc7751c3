//! Per-stream transmit controller: policy, parameters and blocked links.
use vstd::prelude::*;
use crate::mac_queue::{MACQueueInfo, MACQueuesSnapshot};
use crate::packet::{PacketType, PacketWithMeta};
use crate::policies::{policy_decision, Policy, PolicyParameter, SchedulingMessage};

verus! {

broadcast use vstd::std_specs::hash::group_hash_axioms;

/// Depth of access category 1 in one interface's queues, zero if absent.
pub open spec fn ac1_depth(q: Map<u8, usize>) -> usize {
    if q.contains_key(1u8) {
        q[1u8]
    } else {
        0
    }
}

pub struct TxPartCtler {
    pub policy: Policy,
    /// Per link: the latest send on it would have blocked.
    pub blocked_signals: Vec<bool>,
    pub policy_parameters: PolicyParameter,
}

impl TxPartCtler {
    /// One blocked flag per managed link.
    pub open spec fn wf(&self) -> bool {
        self.blocked_signals@.len() == 2
    }

    pub fn new(policy: Policy, policy_parameters: PolicyParameter) -> (r: Self)
        ensures
            r.wf(),
            r.policy == policy,
            r.policy_parameters == policy_parameters,
            r.blocked_signals@ == seq![false, false],
    {
        let blocked_signals: Vec<bool> = vec![false, false];
        TxPartCtler { policy, blocked_signals, policy_parameters }
    }

    /// The policy's decision on `params`. On "no decision" the blocked
    /// flags are cleared so that later attempts probe the links again.
    pub fn get_packet_state(&mut self, params: &SchedulingMessage) -> (r: Option<PacketType>)
        requires
            old(self).wf(),
            params.wf(),
        ensures
            final(self).wf(),
            r == policy_decision(old(self).policy, *params, old(self).policy_parameters),
            final(self).policy == old(self).policy,
            final(self).policy_parameters == old(self).policy_parameters,
            r is None ==> final(self).blocked_signals@ == seq![false, false],
            r is Some ==> final(self).blocked_signals@ == old(self).blocked_signals@,
    {
        let r = self.policy.get_packet_state(params, &self.policy_parameters);
        if r.is_none() {
            self.blocked_signals.set(0, false);
            self.blocked_signals.set(1, false);
            assert(self.blocked_signals@ =~= seq![false, false]);
        }
        r
    }

    /// Notes the outcome of a send on `link`: a failed send (would-block or
    /// another error) marks the link blocked; a successful one clears the
    /// mark, except under the conditional round robin, which clears marks
    /// only on "no decision".
    pub fn report_send(&mut self, link: usize, sent: bool)
        requires
            old(self).wf(),
            link < 2,
        ensures
            final(self).wf(),
            final(self).policy == old(self).policy,
            final(self).policy_parameters == old(self).policy_parameters,
            !sent ==> final(self).blocked_signals@ == old(self).blocked_signals@.update(link as int, true),
            sent && old(self).policy != Policy::ConditionalRR ==> final(self).blocked_signals@ == old(
                self,
            ).blocked_signals@.update(link as int, false),
            sent && old(self).policy == Policy::ConditionalRR ==> final(self).blocked_signals@ == old(
                self,
            ).blocked_signals@,
    {
        if !sent {
            self.blocked_signals.set(link, true);
        } else if self.policy != Policy::ConditionalRR {
            self.blocked_signals.set(link, false);
        }
    }

    /// The scheduling message for `packet` under `snapshot`: its position,
    /// the snapshot's time, the current blocked flags, the AC 1 depth of
    /// each interface in order, and the given link costs.
    pub fn determine_schedule_info(
        &self,
        packet: &PacketWithMeta,
        snapshot: &MACQueuesSnapshot,
        link_costs: Vec<u64>,
    ) -> (r: SchedulingMessage)
        ensures
            r.seq == packet.packet.seq,
            r.offset == packet.packet.offset,
            r.num == packet.num,
            r.arrival_time == packet.arrival_time,
            r.current_time == snapshot.taken_at,
            r.blocked_signals@ == self.blocked_signals@,
            r.ac1_info@.len() == snapshot.queues@.len(),
            forall|i: int|
                0 <= i < r.ac1_info@.len() ==> #[trigger] r.ac1_info@[i] == ac1_depth(
                    snapshot.queues@[i].1@,
                ),
            r.link_costs == link_costs,
    {
        let mut ac1_info: Vec<usize> = Vec::new();
        let n = snapshot.queues.len();
        let mut i: usize = 0;
        while i < n
            invariant
                n == snapshot.queues@.len(),
                i <= n,
                ac1_info@.len() == i,
                forall|k: int|
                    0 <= k < i ==> #[trigger] ac1_info@[k] == ac1_depth(snapshot.queues@[k].1@),
            decreases n - i,
        {
            let q: &MACQueueInfo = &snapshot.queues[i].1;
            let depth: usize = match q.get(&1u8) {
                Some(v) => *v,
                None => 0,
            };
            ac1_info.push(depth);
            i = i + 1;
        }
        let blocked = self.blocked_signals.clone();
        assert(blocked@ =~= self.blocked_signals@);
        SchedulingMessage::new(packet, snapshot.taken_at, blocked, ac1_info, link_costs)
    }
}

} // verus!

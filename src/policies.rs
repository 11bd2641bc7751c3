//! Scheduling policies: for each fragment, the link that carries it.
use vstd::prelude::*;
use crate::packet::{link_of, is_terminator, packet_type_of, PacketType, PacketWithMeta};

pub mod conditional_rr;
pub mod hard_threshold;
pub mod queue_aware;

verus! {

/// Which scheduling policy a stream uses.
#[derive(Clone, Copy, Debug, PartialEq, Eq, Structural)]
pub enum Policy {
    QueueAware,
    ConditionalRR,
    HardThreshold,
}

impl Default for Policy {
    fn default() -> (r: Self)
        ensures
            r == Policy::HardThreshold,
    {
        Policy::HardThreshold
    }
}

/// Units in one whole policy parameter: parameters are held in millionths.
pub const PARAMETER_SCALE: i64 = 1_000_000;

/// The four policy parameters θ₁..θ₄, each in millionths.
#[derive(Clone, Copy, Debug, PartialEq, Eq, Structural)]
pub struct PolicyParameter {
    pub theta_1: i64,
    pub theta_2: i64,
    pub theta_3: i64,
    pub theta_4: i64,
}

impl Default for PolicyParameter {
    fn default() -> (r: Self)
        ensures
            r == (PolicyParameter { theta_1: 0, theta_2: 0, theta_3: 0, theta_4: 0 }),
    {
        PolicyParameter { theta_1: 0, theta_2: 0, theta_3: 0, theta_4: 0 }
    }
}

/// What a policy sees of one fragment at its decision point.
pub struct SchedulingMessage {
    pub seq: usize,
    pub offset: usize,
    /// Number of fragments of the datagram.
    pub num: usize,
    /// When the datagram entered the stage, in nanoseconds.
    pub arrival_time: u64,
    /// When the MAC snapshot in use was taken, in nanoseconds.
    pub current_time: u64,
    /// Per link: the latest send on it would have blocked.
    pub blocked_signals: Vec<bool>,
    /// Per link: depth of its AC 1 (video) queue, in packets.
    pub ac1_info: Vec<usize>,
    /// Per link: what sending there costs under the queue-aware policy, in an
    /// encoding whose integer order is the order of the costs.
    pub link_costs: Vec<u64>,
}

impl SchedulingMessage {
    /// The message for `packet` at `current_time`, with the given link state.
    pub fn new(
        packet: &PacketWithMeta,
        current_time: u64,
        blocked_signals: Vec<bool>,
        ac1_info: Vec<usize>,
        link_costs: Vec<u64>,
    ) -> (r: Self)
        ensures
            r.seq == packet.packet.seq,
            r.offset == packet.packet.offset,
            r.num == packet.num,
            r.arrival_time == packet.arrival_time,
            r.current_time == current_time,
            r.blocked_signals == blocked_signals,
            r.ac1_info == ac1_info,
            r.link_costs == link_costs,
    {
        SchedulingMessage {
            seq: packet.packet.seq as usize,
            offset: packet.packet.offset as usize,
            num: packet.num,
            arrival_time: packet.arrival_time,
            current_time,
            blocked_signals,
            ac1_info,
            link_costs,
        }
    }

    /// The fragment is the last of its datagram.
    pub open spec fn is_last(&self) -> bool {
        self.offset == self.num - 1
    }

    /// The message carries what every policy reads: a fragment count, and
    /// a blocked flag and a cost for each of the two links.
    pub open spec fn wf(&self) -> bool {
        &&& self.num > 0
        &&& self.blocked_signals@.len() >= 2
        &&& self.link_costs@.len() >= 2
    }
}

/// The link under the hard-threshold policy: the second (1) once
/// offset / num ≥ θ₁, the first (0) before.
pub open spec fn hard_threshold_link(offset: int, num: int, theta_1: int) -> int {
    if offset * PARAMETER_SCALE >= theta_1 * num {
        1
    } else {
        0
    }
}

/// The packet type for the second link or the first, terminator or not.
pub fn link_packet_type(second_link: bool, is_last: bool) -> (r: PacketType)
    ensures
        r == packet_type_of(
            if second_link {
                1
            } else {
                0
            },
            is_last,
        ),
{
    if second_link {
        if is_last {
            PacketType::LastPacketInSecondLink
        } else {
            PacketType::SecondLink
        }
    } else {
        if is_last {
            PacketType::LastPacketInFirstLink
        } else {
            PacketType::FirstLink
        }
    }
}

/// What each policy decides for a message.
pub open spec fn policy_decision(
    policy: Policy,
    msg: SchedulingMessage,
    params: PolicyParameter,
) -> Option<PacketType> {
    decide(policy, params, msg.offset as int, msg.num as int, msg.blocked_signals@, msg.link_costs@)
}

/// What each policy decides for the fragment at `offset` of `num`, with the
/// links' blocked flags and costs; `None` is "no decision".
pub open spec fn decide(
    policy: Policy,
    params: PolicyParameter,
    offset: int,
    num: int,
    blocked: Seq<bool>,
    costs: Seq<u64>,
) -> Option<PacketType> {
    let is_last = offset == num - 1;
    match policy {
        Policy::HardThreshold => Some(
            packet_type_of(hard_threshold_link(offset, num, params.theta_1 as int), is_last),
        ),
        Policy::ConditionalRR => if blocked[0] && blocked[1] {
            None
        } else if blocked[0] {
            Some(packet_type_of(1, is_last))
        } else {
            Some(packet_type_of(0, is_last))
        },
        Policy::QueueAware => Some(
            packet_type_of(
                if costs[0] < costs[1] {
                    0
                } else {
                    1
                },
                is_last,
            ),
        ),
    }
}

impl Policy {
    /// The decision of this policy on one fragment.
    pub fn get_packet_state(&self, params: &SchedulingMessage, policy_parameters: &PolicyParameter) -> (r:
        Option<PacketType>)
        requires
            params.wf(),
        ensures
            r == policy_decision(*self, *params, *policy_parameters),
    {
        match self {
            Policy::QueueAware => Some(queue_aware::get_packet_state(params)),
            Policy::ConditionalRR => conditional_rr::get_packet_state(params),
            Policy::HardThreshold => Some(hard_threshold::get_packet_state(params, policy_parameters)),
        }
    }
}

/// Hard-threshold monotonicity: for a fixed fragment count and θ₁, the link
/// never goes back from the second to the first as the offset grows.
pub proof fn lemma_hard_threshold_monotone(num: int, theta_1: int, o1: int, o2: int)
    requires
        0 <= o1 <= o2,
    ensures
        hard_threshold_link(o1, num, theta_1) <= hard_threshold_link(o2, num, theta_1),
{
    assert(o1 * PARAMETER_SCALE <= o2 * PARAMETER_SCALE) by (nonlinear_arith)
        requires
            o1 <= o2,
            PARAMETER_SCALE > 0,
    ;
}

/// Queue-aware tie-break: where the two links cost the same, the fragment
/// goes to the second link.
pub proof fn lemma_queue_aware_tie(msg: SchedulingMessage, params: PolicyParameter)
    requires
        msg.link_costs@.len() >= 2,
        msg.link_costs@[0] == msg.link_costs@[1],
    ensures
        policy_decision(Policy::QueueAware, msg, params) matches Some(t) && link_of(t) == 1,
{
    assert((1u8 & 1) == 1 && (3u8 & 1) == 1) by (bit_vector);
}

/// Every decision marks the fragment as a terminator exactly when it is the
/// last of its datagram, and names link 0 or 1.
pub proof fn lemma_terminator_is_last(
    policy: Policy,
    msg: SchedulingMessage,
    params: PolicyParameter,
)
    requires
        msg.wf(),
    ensures
        policy_decision(policy, msg, params) matches Some(t) ==> {
            &&& is_terminator(t) <==> msg.offset == msg.num - 1
            &&& link_of(t) == 0 || link_of(t) == 1
        },
{
    assert((0u8 & 1) == 0 && (1u8 & 1) == 1 && (2u8 & 1) == 0 && (3u8 & 1) == 1) by (bit_vector);
    assert(((0u8 >> 1) & 1) == 0 && ((1u8 >> 1) & 1) == 0 && ((2u8 >> 1) & 1) == 1 && ((3u8 >> 1)
        & 1) == 1) by (bit_vector);
}

} // verus!

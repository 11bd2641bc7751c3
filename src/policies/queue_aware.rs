//! Queue aware: the link whose cost is lower.
use vstd::prelude::*;
use crate::packet::PacketType;
use crate::policies::{link_packet_type, policy_decision, Policy, PolicyParameter, SchedulingMessage};

verus! {

/// The first link where its cost is strictly lower, else the second.
pub fn get_packet_state(params: &SchedulingMessage) -> (r: PacketType)
    requires
        params.num > 0,
        params.link_costs@.len() >= 2,
    ensures
        forall|p: PolicyParameter| Some(r) == #[trigger] policy_decision(Policy::QueueAware, *params, p),
{
    let is_last = params.offset == params.num - 1;
    link_packet_type(!(params.link_costs[0] < params.link_costs[1]), is_last)
}

} // verus!

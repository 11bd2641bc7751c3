//! Conditional round robin: the first link unless it is blocked.
use vstd::prelude::*;
use crate::packet::PacketType;
use crate::policies::{link_packet_type, policy_decision, Policy, PolicyParameter, SchedulingMessage};

verus! {

/// The first link while it is not blocked, else the second while that is
/// not blocked; `None` when both are.
pub fn get_packet_state(params: &SchedulingMessage) -> (r: Option<PacketType>)
    requires
        params.num > 0,
        params.blocked_signals@.len() >= 2,
    ensures
        forall|p: PolicyParameter| r == #[trigger] policy_decision(Policy::ConditionalRR, *params, p),
{
    let is_last = params.offset == params.num - 1;
    let b0 = params.blocked_signals[0];
    let b1 = params.blocked_signals[1];
    if b0 && b1 {
        None
    } else {
        Some(link_packet_type(b0, is_last))
    }
}

} // verus!

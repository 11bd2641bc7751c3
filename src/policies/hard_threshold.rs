//! Hard threshold: a fixed split point within each datagram.
use vstd::prelude::*;
use crate::packet::PacketType;
use crate::policies::{link_packet_type, policy_decision, Policy, PolicyParameter, SchedulingMessage, PARAMETER_SCALE};

verus! {

/// Fragments with offset / num ≥ θ₁ go to the second link, earlier ones to
/// the first.
pub fn get_packet_state(params: &SchedulingMessage, policy_parameters: &PolicyParameter) -> (r:
    PacketType)
    requires
        params.num > 0,
    ensures
        Some(r) == policy_decision(Policy::HardThreshold, *params, *policy_parameters),
{
    let is_last = params.offset == params.num - 1;
    let lhs = params.offset as i128 * PARAMETER_SCALE as i128;
    proof {
        assert(-0x8000_0000_0000_0000_0000_0000_0000_0000 <= (policy_parameters.theta_1 as int) * (
        params.num as int) <= 0x7fff_ffff_ffff_ffff_ffff_ffff_ffff_ffff) by (nonlinear_arith)
            requires
                -0x8000_0000_0000_0000 <= policy_parameters.theta_1 <= 0x7fff_ffff_ffff_ffff,
                0 <= params.num <= 0xffff_ffff_ffff_ffff,
        ;
    }
    let rhs = policy_parameters.theta_1 as i128 * params.num as i128;
    link_packet_type(lhs >= rhs, is_last)
}

} // verus!

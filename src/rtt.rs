//! Pong datagrams from the receiver.
use vstd::prelude::*;
use crate::packet::from_le32;

verus! {

/// Pongs arrive on the stream's port plus this.
pub const PONG_PORT_INC: u16 = 1024;

/// Shortest pong: seq (4 bytes), receiver timestamps (15), delta (8).
pub const PONG_MIN_LEN: usize = 27;

/// Little-endian value of the eight bytes of `b` from `i`.
pub open spec fn le64_at(b: Seq<u8>, i: int) -> int
{
    le_value(b, i, 8)
}

pub open spec fn le_value(b: Seq<u8>, i: int, k: nat) -> int
    decreases k,
{
    if k == 0 {
        0
    } else {
        le_value(b, i + 1, (k - 1) as nat) * 256 + b[i]
    }
}

/// A pong's sequence number (bytes 0..4, little endian) and the raw bits of
/// its inter-link delta (bytes 19..27, a little-endian IEEE double);
/// `None` for a datagram shorter than a pong.
pub fn parse_pong(buf: &[u8]) -> (r: Option<(u32, u64)>)
    ensures
        r is None <==> buf@.len() < PONG_MIN_LEN,
        r matches Some((seq, bits)) ==> seq == from_le32(buf@[0], buf@[1], buf@[2], buf@[3])
            && bits == le64_at(buf@, 19),
{
    if buf.len() < PONG_MIN_LEN {
        return None;
    }
    let seq: u32 = (buf[0] as u32) | ((buf[1] as u32) << 8) | ((buf[2] as u32) << 16) | ((
    buf[3] as u32) << 24);
    let mut bits: u64 = 0;
    let mut k: usize = 8;
    while k > 0
        invariant
            buf@.len() >= PONG_MIN_LEN,
            k <= 8,
            bits == le_value(buf@, 19 + k, (8 - k) as nat),
            bits < pow2_8k((8 - k) as nat),
        decreases k,
    {
        k = k - 1;
        proof {
            lemma_pow2_8k_le((8 - k - 1) as nat);
            assert(bits * 256 + buf@[19 + k] < pow2_8k((8 - k - 1) as nat) * 256) by (nonlinear_arith)
                requires
                    bits < pow2_8k((8 - k - 1) as nat),
                    buf@[19 + k] < 256,
            ;
        }
        bits = bits * 256 + buf[19 + k] as u64;
    }
    Some((seq, bits))
}

pub open spec fn pow2_8k(k: nat) -> int
    decreases k,
{
    if k == 0 {
        1
    } else {
        pow2_8k((k - 1) as nat) * 256
    }
}

proof fn lemma_pow2_8k_le(k: nat)
    requires
        k <= 7,
    ensures
        pow2_8k(k) * 256 <= 0x1_0000_0000_0000_0000,
    decreases k,
{
    reveal_with_fuel(pow2_8k, 9);
    if k > 0 {
        lemma_pow2_8k_le((k - 1) as nat);
    }
}

} // verus!

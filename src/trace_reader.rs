//! Video segment files: a sequence of records (interval in nanoseconds as a
//! big-endian u64, payload length as a big-endian u64, payload).
use vstd::prelude::*;
use vstd::slice::slice_subrange;
use vstd::slice::slice_to_vec;

verus! {

/// Big-endian value of the `k` bytes of `b` from `i`.
pub open spec fn be_value(b: Seq<u8>, i: int, k: nat) -> int
    decreases k,
{
    if k == 0 {
        0
    } else {
        be_value(b, i, (k - 1) as nat) * 256 + b[i + k - 1]
    }
}

/// The records of a segment file; `None` where a record is cut short.
pub open spec fn records_of(b: Seq<u8>) -> Option<Seq<(u64, Seq<u8>)>>
    decreases b.len(),
{
    if b.len() == 0 {
        Some(Seq::empty())
    } else if b.len() < 16 {
        None
    } else {
        let len = be_value(b, 8, 8);
        if len < 0 || b.len() - 16 < len {
            None
        } else {
            match records_of(b.subrange(16 + len, b.len() as int)) {
                None => None,
                Some(rest) => Some(
                    seq![(be_value(b, 0, 8) as u64, b.subrange(16, 16 + len))] + rest,
                ),
            }
        }
    }
}

proof fn lemma_be_value_bound(b: Seq<u8>, i: int, k: nat)
    requires
        0 <= i,
        i + k <= b.len(),
    ensures
        0 <= be_value(b, i, k) < pow256(k),
    decreases k,
{
    if k > 0 {
        lemma_be_value_bound(b, i, (k - 1) as nat);
        let v = be_value(b, i, (k - 1) as nat);
        let p = pow256((k - 1) as nat);
        assert(v * 256 + b[i + k - 1] < p * 256) by (nonlinear_arith)
            requires
                0 <= v < p,
                0 <= b[i + k - 1] < 256,
        ;
        assert(0 <= v * 256 + b[i + k - 1]) by (nonlinear_arith)
            requires
                0 <= v,
                0 <= b[i + k - 1],
        ;
    }
}

pub open spec fn pow256(k: nat) -> int
    decreases k,
{
    if k == 0 {
        1
    } else {
        pow256((k - 1) as nat) * 256
    }
}

fn read_be64(b: &[u8], i: usize) -> (r: u64)
    requires
        i + 8 <= b@.len(),
    ensures
        r == be_value(b@, i as int, 8),
{
    let bl = b.len();
    let mut v: u64 = 0;
    let mut k: usize = 0;
    while k < 8
        invariant
            bl == b@.len(),
            i + 8 <= b@.len(),
            k <= 8,
            v == be_value(b@, i as int, k as nat),
        decreases 8 - k,
    {
        proof {
            lemma_be_value_bound(b@, i as int, k as nat);
            assert(pow256(k as nat) <= pow256(7)) by {
                lemma_pow256_mono(k as nat, 7);
            }
            reveal_with_fuel(pow256, 8);
            assert(pow256(7) == 0x100_0000_0000_0000);
            assert(v * 256 + b@[i + k] <= u64::MAX) by (nonlinear_arith)
                requires
                    v < 0x100_0000_0000_0000,
                    b@[i + k] < 256,
            ;
        }
        v = v * 256 + b[i + k] as u64;
        k = k + 1;
    }
    v
}

proof fn lemma_pow256_mono(a: nat, b: nat)
    requires
        a <= b,
    ensures
        pow256(a) <= pow256(b),
    decreases b,
{
    if a < b {
        lemma_pow256_mono(a, (b - 1) as nat);
        lemma_pow256_pos((b - 1) as nat);
    }
}

proof fn lemma_pow256_pos(a: nat)
    ensures
        pow256(a) > 0,
    decreases a,
{
    if a > 0 {
        lemma_pow256_pos((a - 1) as nat);
    }
}

/// The records of a segment file held in `data`, in order: (interval in
/// nanoseconds, payload). `None` where the file ends inside a record.
pub fn read_packets(data: &[u8]) -> (r: Option<Vec<(u64, Vec<u8>)>>)
    ensures
        records_of(data@) is None <==> r is None,
        r matches Some(v) ==> records_of(data@) matches Some(recs) && v@.len() == recs.len() && (
        forall|i: int|
            0 <= i < recs.len() ==> (#[trigger] v@[i]).0 == recs[i].0 && v@[i].1@ == recs[i].1),
{
    let n = data.len();
    let mut out: Vec<(u64, Vec<u8>)> = Vec::new();
    let mut pos: usize = 0;
    let ghost done: Seq<(u64, Seq<u8>)> = Seq::empty();
    assert(data@.subrange(0, n as int) =~= data@);
    while pos < n
        invariant
            n == data@.len(),
            pos <= n,
            out@.len() == done.len(),
            forall|i: int|
                0 <= i < done.len() ==> (#[trigger] out@[i]).0 == done[i].0 && out@[i].1@
                    == done[i].1,
            records_of(data@) == match records_of(data@.subrange(pos as int, n as int)) {
                None => None,
                Some(rest) => Some(done + rest),
            },
        decreases n - pos,
    {
        let ghost b = data@.subrange(pos as int, n as int);
        if n - pos < 16 {
            return None;
        }
        let interval = read_be64(data, pos);
        let length = read_be64(data, pos + 8);
        proof {
            assert forall|k: nat| k <= 8 implies be_value(b, 0, k) == be_value(data@, pos as int, k)
                && be_value(b, 8, k) == be_value(data@, pos + 8, k) by {
                lemma_be_shift(data@, b, pos as int, k);
            }
        }
        if ((n - pos - 16) as u64) < length {
            return None;
        }
        let end = pos + 16 + length as usize;
        let payload = slice_to_vec(slice_subrange(data, pos + 16, end));
        proof {
            let rec = (interval, b.subrange(16, 16 + length));
            assert(payload@ =~= rec.1);
            assert(b.subrange(16 + length, b.len() as int) =~= data@.subrange(end as int, n as int));
            let rest_spec = records_of(data@.subrange(end as int, n as int));
            match rest_spec {
                None => {},
                Some(rest) => {
                    assert(done + (seq![rec] + rest) =~= done.push(rec) + rest);
                },
            }
            done = done.push(rec);
        }
        out.push((interval, payload));
        pos = end;
    }
    assert(data@.subrange(n as int, n as int) =~= Seq::<u8>::empty());
    assert(done + Seq::<(u64, Seq<u8>)>::empty() =~= done);
    Some(out)
}

proof fn lemma_be_shift(d: Seq<u8>, b: Seq<u8>, pos: int, k: nat)
    requires
        0 <= pos <= d.len(),
        b == d.subrange(pos, d.len() as int),
        k <= 8,
        b.len() >= 16,
    ensures
        be_value(b, 0, k) == be_value(d, pos, k),
        be_value(b, 8, k) == be_value(d, pos + 8, k),
    decreases k,
{
    if k > 0 {
        lemma_be_shift(d, b, pos, (k - 1) as nat);
    }
}

} // verus!

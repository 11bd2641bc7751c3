//! Slicing an application datagram into fixed-size fragments.
use vstd::prelude::*;
use vstd::arithmetic::div_mod::{lemma_fundamental_div_mod, lemma_fundamental_div_mod_converse};
use vstd::slice::slice_subrange;
use crate::packet::{PacketStruct, PacketWithMeta, MAX_PAYLOAD_LEN};

verus! {

/// Number of fragments of a datagram of `size` bytes: ⌈size / MAX_PAYLOAD_LEN⌉.
pub open spec fn num_fragments(size: int) -> int {
    (size + MAX_PAYLOAD_LEN - 1) / (MAX_PAYLOAD_LEN as int)
}

/// Length of the last fragment: size mod MAX_PAYLOAD_LEN, or a full
/// payload where that is zero.
pub open spec fn last_fragment_len(size: int) -> int {
    if size % (MAX_PAYLOAD_LEN as int) == 0 {
        MAX_PAYLOAD_LEN as int
    } else {
        size % (MAX_PAYLOAD_LEN as int)
    }
}

/// Length of fragment `i` out of `num`, the last one holding `remains` bytes.
pub open spec fn fragment_len(num: int, remains: int, i: int) -> int {
    if i == num - 1 {
        remains
    } else {
        MAX_PAYLOAD_LEN as int
    }
}

/// Fragment `i` of a datagram, as `generate_packets` emits it from `template`
/// at time `now`.
pub open spec fn is_fragment(
    f: PacketWithMeta,
    template: PacketWithMeta,
    remains: int,
    i: int,
    now: u64,
) -> bool {
    &&& f.packet.wf()
    &&& f.packet.seq == template.packet.seq
    &&& f.packet.offset == i
    &&& f.packet.length == fragment_len(template.num as int, remains, i)
    &&& f.packet.indicators == template.packet.indicators
    &&& f.port == template.port
    &&& f.num == template.num
    &&& f.arrival_time == now
}

/// Fragment count and length of the last fragment for a datagram of
/// `size_bytes` bytes.
pub fn fragment_layout(size_bytes: usize) -> (r: (usize, usize))
    ensures
        r.0 == num_fragments(size_bytes as int),
        r.1 == last_fragment_len(size_bytes as int),
        0 < r.1 <= MAX_PAYLOAD_LEN,
        r.0 > 0 ==> (r.0 - 1) * MAX_PAYLOAD_LEN + r.1 == size_bytes,
        r.0 == 0 <==> size_bytes == 0,
{
    let num = size_bytes / MAX_PAYLOAD_LEN;
    let remains = size_bytes % MAX_PAYLOAD_LEN;
    proof {
        let d = MAX_PAYLOAD_LEN as int;
        lemma_fundamental_div_mod(size_bytes as int, d);
        assert((num + 1) * d + (remains - 1) == size_bytes + d - 1 && num * d + (d - 1)
            == size_bytes + d - 1 - remains) by (nonlinear_arith)
            requires
                size_bytes == d * num + remains,
        ;
        assert(num * d <= size_bytes && num * d == d * num && (num - 1) * d + d == num * d)
            by (nonlinear_arith)
            requires
                size_bytes == d * num + remains,
                0 <= remains,
        ;
        assert(num < usize::MAX) by (nonlinear_arith)
            requires
                num * d <= size_bytes,
                d == 1463,
                size_bytes <= usize::MAX,
        ;
        if remains > 0 {
            lemma_fundamental_div_mod_converse(
                size_bytes + d - 1,
                d,
                num + 1,
                remains - 1,
            );
        } else {
            lemma_fundamental_div_mod_converse(size_bytes + d - 1, d, num as int, d - 1);
        }
    }
    if remains > 0 {
        (num + 1, remains)
    } else {
        (num, MAX_PAYLOAD_LEN)
    }
}

/// Emits the `template.num` fragments of one datagram, stamped with `now`.
/// Fragment `i` has offset `i` and a full payload, the last one `remains`
/// bytes; with a `buffer`, each carries its slice of it.
pub fn generate_packets(
    remains: usize,
    template: &mut PacketWithMeta,
    buffer: Option<&[u8]>,
    now: u64,
) -> (r: Vec<PacketWithMeta>)
    requires
        old(template).packet.wf(),
        old(template).num <= 65536,
        remains <= MAX_PAYLOAD_LEN,
        buffer matches Some(b) ==> old(template).num > 0 ==> b@.len() == (old(template).num - 1)
            * MAX_PAYLOAD_LEN + remains,
    ensures
        r@.len() == old(template).num,
        forall|i: int|
            0 <= i < r@.len() ==> is_fragment(#[trigger] r@[i], *old(template), remains as int, i, now),
        forall|i: int|
            0 <= i < r@.len() ==> match buffer {
                Some(b) => (#[trigger] r@[i]).packet.data() == b@.subrange(
                    i * MAX_PAYLOAD_LEN,
                    i * MAX_PAYLOAD_LEN + r@[i].packet.length,
                ),
                None => (#[trigger] r@[i]).packet.payload@ == old(template).packet.payload@,
            },
        final(template).packet.wf(),
        final(template).packet.seq == old(template).packet.seq,
        final(template).packet.indicators == old(template).packet.indicators,
        final(template).num == old(template).num,
        final(template).port == old(template).port,
        final(template).arrival_time == now,
{
    let ghost t0 = *template;
    template.arrival_time = now;
    let num = template.num;
    let mut packets: Vec<PacketWithMeta> = Vec::new();
    let mut i: usize = 0;
    while i < num
        invariant
            num == t0.num,
            num <= 65536,
            remains <= MAX_PAYLOAD_LEN,
            i <= num,
            template.packet.wf(),
            template.packet.seq == t0.packet.seq,
            template.packet.indicators == t0.packet.indicators,
            template.num == t0.num,
            template.port == t0.port,
            template.arrival_time == now,
            buffer matches Some(b) ==> num > 0 ==> b@.len() == (num - 1) * MAX_PAYLOAD_LEN + remains,
            buffer is None ==> template.packet.payload@ == t0.packet.payload@,
            packets@.len() == i,
            forall|k: int| 0 <= k < i ==> is_fragment(#[trigger] packets@[k], t0, remains as int, k, now),
            forall|k: int|
                0 <= k < i ==> match buffer {
                    Some(b) => (#[trigger] packets@[k]).packet.data() == b@.subrange(
                        k * MAX_PAYLOAD_LEN,
                        k * MAX_PAYLOAD_LEN + packets@[k].packet.length,
                    ),
                    None => (#[trigger] packets@[k]).packet.payload@ == t0.packet.payload@,
                },
        decreases num - i,
    {
        let length: usize = if i == num - 1 {
            remains
        } else {
            MAX_PAYLOAD_LEN
        };
        template.packet.set_length(length as u16);
        template.packet.set_offset(i as u16);
        if let Some(buf) = buffer {
            assert(i * MAX_PAYLOAD_LEN + length <= buf@.len()) by (nonlinear_arith)
                requires
                    i < num,
                    buf@.len() == (num - 1) * MAX_PAYLOAD_LEN + remains,
                    length == if i == num - 1 { remains } else { MAX_PAYLOAD_LEN },
                    MAX_PAYLOAD_LEN == 1463,
            ;
            assert(i * MAX_PAYLOAD_LEN <= 65536 * 1463) by (nonlinear_arith)
                requires
                    i < num <= 65536,
                    MAX_PAYLOAD_LEN == 1463,
            ;
            let start = i * MAX_PAYLOAD_LEN;
            template.packet.set_payload(slice_subrange(buf, start, start + length));
            assert(template.packet.data() =~= buf@.subrange(start as int, start + length));
        }
        let payload = template.packet.payload.clone();
        assert(payload@ =~= template.packet.payload@);
        let fragment = PacketWithMeta {
            packet: PacketStruct {
                seq: template.packet.seq,
                offset: template.packet.offset,
                length: template.packet.length,
                indicators: template.packet.indicators,
                payload,
            },
            port: template.port,
            num: template.num,
            arrival_time: template.arrival_time,
        };
        packets.push(fragment);
        i = i + 1;
    }
    packets
}

/// `fs` are the fragments of datagram `d`: one per slot of `MAX_PAYLOAD_LEN`
/// bytes, fragment `i` at offset `i` carrying bytes `i·MAX_PAYLOAD_LEN ..`
/// of `d`, all full but the last.
pub open spec fn fragments_of(fs: Seq<PacketWithMeta>, d: Seq<u8>) -> bool {
    &&& fs.len() == num_fragments(d.len() as int)
    &&& forall|i: int|
        0 <= i < fs.len() ==> {
            &&& (#[trigger] fs[i]).packet.offset == i
            &&& fs[i].packet.length == fragment_len(
                fs.len() as int,
                last_fragment_len(d.len() as int),
                i,
            )
            &&& fs[i].packet.data() == d.subrange(
                i * MAX_PAYLOAD_LEN,
                i * MAX_PAYLOAD_LEN + fs[i].packet.length,
            )
        }
}

/// The payload data of `fs`, in order.
pub open spec fn concat_data(fs: Seq<PacketWithMeta>) -> Seq<u8>
    decreases fs.len(),
{
    if fs.len() == 0 {
        Seq::empty()
    } else {
        concat_data(fs.drop_last()) + fs.last().packet.data()
    }
}

/// Sum of the fragments' length fields.
pub open spec fn total_length(fs: Seq<PacketWithMeta>) -> int
    decreases fs.len(),
{
    if fs.len() == 0 {
        0
    } else {
        total_length(fs.drop_last()) + fs.last().packet.length
    }
}

/// Fragments one datagram of `size_bytes` bytes (the bytes of `buffer`,
/// where given): the template moves to the next sequence number with the
/// fragment count in its offset field, then the fragments are emitted.
pub fn fragment_datagram(
    template: &mut PacketWithMeta,
    size_bytes: usize,
    buffer: Option<&[u8]>,
    now: u64,
) -> (r: Vec<PacketWithMeta>)
    requires
        old(template).packet.wf(),
        size_bytes <= 65535 * MAX_PAYLOAD_LEN,
        buffer matches Some(b) ==> b@.len() == size_bytes,
    ensures
        final(template).packet.seq == old(template).packet.seq.wrapping_add(1),
        final(template).num == num_fragments(size_bytes as int),
        final(template).packet.wf(),
        final(template).port == old(template).port,
        r@.len() == num_fragments(size_bytes as int),
        forall|i: int|
            0 <= i < r@.len() ==> {
                &&& (#[trigger] r@[i]).packet.wf()
                &&& r@[i].packet.seq == final(template).packet.seq
                &&& r@[i].packet.offset == i
                &&& r@[i].packet.length == fragment_len(
                    r@.len() as int,
                    last_fragment_len(size_bytes as int),
                    i,
                )
                &&& r@[i].packet.indicators == old(template).packet.indicators
                &&& r@[i].port == old(template).port
                &&& r@[i].num == r@.len()
                &&& r@[i].arrival_time == now
            },
        buffer matches Some(b) ==> fragments_of(r@, b@),
{
    let (num, remains) = fragment_layout(size_bytes);
    proof {
        assert(num <= 65535) by (nonlinear_arith)
            requires
                num > 0 ==> (num - 1) * MAX_PAYLOAD_LEN + remains == size_bytes,
                0 < remains,
                size_bytes <= 65535 * MAX_PAYLOAD_LEN,
                MAX_PAYLOAD_LEN == 1463,
        ;
    }
    template.next_seq(num);
    generate_packets(remains, template, buffer, now)
}

proof fn lemma_concat_prefix(fs: Seq<PacketWithMeta>, d: Seq<u8>, k: int)
    requires
        fragments_of(fs, d),
        0 <= k <= fs.len(),
    ensures
        k < fs.len() ==> concat_data(fs.subrange(0, k)) == d.subrange(0, k * MAX_PAYLOAD_LEN),
        k < fs.len() ==> total_length(fs.subrange(0, k)) == k * MAX_PAYLOAD_LEN,
        k == fs.len() ==> concat_data(fs.subrange(0, k)) == d,
        k == fs.len() ==> total_length(fs.subrange(0, k)) == d.len(),
    decreases k,
{
    let n = fs.len() as int;
    let m = MAX_PAYLOAD_LEN as int;
    let sz = d.len() as int;
    let rem = last_fragment_len(sz);
    lemma_fundamental_div_mod(sz, m);
    lemma_fundamental_div_mod(sz + m - 1, m);
    if sz % m == 0 {
        assert(sz + m - 1 == (sz / m) * m + (m - 1)) by (nonlinear_arith)
            requires
                sz == m * (sz / m) + sz % m,
                sz % m == 0,
        ;
        lemma_fundamental_div_mod_converse(sz + m - 1, m, sz / m, m - 1);
        assert((n - 1) * m + rem == sz) by (nonlinear_arith)
            requires
                n == sz / m,
                rem == m,
                sz == m * (sz / m),
        ;
    } else {
        assert(sz + m - 1 == (sz / m + 1) * m + (sz % m - 1)) by (nonlinear_arith)
            requires
                sz == m * (sz / m) + sz % m,
        ;
        lemma_fundamental_div_mod_converse(sz + m - 1, m, sz / m + 1, sz % m - 1);
        assert((n - 1) * m + rem == sz) by (nonlinear_arith)
            requires
                n == sz / m + 1,
                rem == sz % m,
                sz == m * (sz / m) + sz % m,
        ;
    }
    if k == 0 {
        assert(fs.subrange(0, 0) =~= Seq::<PacketWithMeta>::empty());
        if n == 0 {
            assert(d =~= Seq::<u8>::empty()) by {
                assert(sz == 0) by (nonlinear_arith)
                    requires
                        (n - 1) * m + rem == sz,
                        n == 0,
                        rem <= m,
                        sz >= 0,
                ;
            }
        }
        assert(d.subrange(0, 0) =~= Seq::<u8>::empty());
    } else {
        lemma_concat_prefix(fs, d, k - 1);
        let pre = fs.subrange(0, k);
        assert(pre.drop_last() =~= fs.subrange(0, k - 1));
        assert(pre.last() == fs[k - 1]);
        let f = fs[k - 1];
        assert((k - 1) * m + m == k * m) by (nonlinear_arith);
        assert(k - 1 < n - 1 ==> k * m <= (n - 1) * m) by (nonlinear_arith)
            requires
                k <= n,
                m > 0,
        ;
        assert(0 <= (k - 1) * m) by (nonlinear_arith)
            requires
                k >= 1,
                m > 0,
        ;
        if k < n {
            assert(concat_data(pre) =~= d.subrange(0, k * m));
        } else {
            assert(concat_data(pre) =~= d);
        }
    }
}

/// Fragmentation round trip: the fragments of a datagram carry offsets
/// 0..num−1, their lengths sum to its size, and their payload data
/// concatenated in offset order is the datagram.
pub proof fn lemma_fragments_reassemble(fs: Seq<PacketWithMeta>, d: Seq<u8>)
    requires
        fragments_of(fs, d),
    ensures
        fs.len() == num_fragments(d.len() as int),
        forall|i: int| 0 <= i < fs.len() ==> (#[trigger] fs[i]).packet.offset == i,
        total_length(fs) == d.len(),
        concat_data(fs) == d,
{
    lemma_concat_prefix(fs, d, fs.len() as int);
    assert(fs.subrange(0, fs.len() as int) =~= fs);
}

} // verus!

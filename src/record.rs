//! Receive side: one datagram's fragments, gathered as they arrive.
use vstd::prelude::*;
use std::collections::HashMap;
use crate::fragment::{concat_data, fragments_of, lemma_fragments_reassemble};
use crate::packet::{
    decodes_to, from_buffer, get_packet_type, is_valid_fragment, PacketStruct,
    PacketType, PacketWithMeta, MAX_PAYLOAD_LEN,
};

verus! {

broadcast use vstd::std_specs::hash::group_hash_axioms;

/// Receive-side state of one stream: its datagrams by sequence number.
pub struct RecvData {
    pub recv_records: HashMap<u32, RecvRecord>,
    pub last_seq: u32,
    pub recevied: u32,
    pub data_len: u32,
    /// When reception started, in nanoseconds.
    pub rx_start_time: u64,
}

impl RecvData {
    pub fn new() -> (r: Self)
        ensures
            r.recv_records@ == Map::<u32, RecvRecord>::empty(),
            r.last_seq == 0,
            r.recevied == 0,
            r.data_len == 0,
            r.rx_start_time == 0,
    {
        RecvData {
            recv_records: HashMap::new(),
            last_seq: 0,
            recevied: 0,
            data_len: 0,
            rx_start_time: 0,
        }
    }
}

/// Latest arrival time on each link, in nanoseconds.
pub struct RecvOffsets {
    pub first_link_rx_time: Option<u64>,
    pub second_link_rx_time: Option<u64>,
}

/// The fragments of one datagram received so far.
pub struct RecvRecord {
    /// Fragments by offset.
    pub packets: HashMap<u16, PacketStruct>,
    pub is_ack: (bool, bool),
    pub offsets: RecvOffsets,
    /// Offset of the last fragment, once a terminator has arrived.
    pub last_packet_id: Option<u16>,
    pub is_complete: bool,
}

/// A terminator has arrived and every offset up to its own is present.
pub open spec fn complete_spec(m: Map<u16, PacketStruct>, last: Option<u16>) -> bool {
    match last {
        None => false,
        Some(l) => forall|i: u16| i <= l ==> #[trigger] m.contains_key(i),
    }
}

/// The payload data of fragments 0..n of `m`, in offset order.
pub open spec fn gathered(m: Map<u16, PacketStruct>, n: nat) -> Seq<u8>
    decreases n,
{
    if n == 0 {
        Seq::empty()
    } else {
        gathered(m, (n - 1) as nat) + m[(n - 1) as u16].data()
    }
}

impl RecvRecord {
    /// Each stored fragment is well formed and sits under its own offset.
    pub open spec fn wf(&self) -> bool {
        forall|k: u16|
            #[trigger] self.packets@.contains_key(k) ==> {
                &&& self.packets@[k].wf()
                &&& self.packets@[k].length <= MAX_PAYLOAD_LEN
                &&& self.packets@[k].offset == k
            }
    }

    pub fn new() -> (r: Self)
        ensures
            r.wf(),
            r.packets@ == Map::<u16, PacketStruct>::empty(),
            r.is_ack == (false, false),
            r.offsets.first_link_rx_time is None,
            r.offsets.second_link_rx_time is None,
            r.last_packet_id is None,
            !r.is_complete,
    {
        RecvRecord {
            packets: HashMap::new(),
            is_ack: (false, false),
            offsets: RecvOffsets { first_link_rx_time: None, second_link_rx_time: None },
            last_packet_id: None,
            is_complete: false,
        }
    }

    /// Records a received datagram at `rx_time`. A buffer that is not a
    /// fragment is dropped (`false`). Otherwise the fragment is stored under
    /// its offset, its link's arrival time becomes `rx_time`, a terminator
    /// sets the last offset, and completeness is recomputed.
    pub fn record(&mut self, data: &[u8], rx_time: u64) -> (r: bool)
        requires
            old(self).wf(),
        ensures
            final(self).wf(),
            r == is_valid_fragment(data@),
            !r ==> *final(self) == *old(self),
            r ==> exists|p: PacketStruct|
                {
                    &&& decodes_to(data@, p)
                    &&& final(self).packets@ == old(self).packets@.insert(p.offset, p)
                    &&& final(self).is_ack == old(self).is_ack
                    &&& final(self).offsets.first_link_rx_time == if p.indicators & 1 == 0 {
                        Some(rx_time)
                    } else {
                        old(self).offsets.first_link_rx_time
                    }
                    &&& final(self).offsets.second_link_rx_time == if p.indicators & 1 == 1 {
                        Some(rx_time)
                    } else {
                        old(self).offsets.second_link_rx_time
                    }
                    &&& final(self).last_packet_id == if p.indicators >= 2 {
                        Some(p.offset)
                    } else {
                        old(self).last_packet_id
                    }
                },
            r ==> (final(self).is_complete <==> complete_spec(
                final(self).packets@,
                final(self).last_packet_id,
            )),
    {
        let packet = match from_buffer(data) {
            None => return false,
            Some(p) => p,
        };
        let ind = packet.indicators;
        assert(ind & 1 == 0 <==> ind == 0 || ind == 2) by (bit_vector)
            requires
                ind < 4,
        ;
        assert(ind & 1 == 1 <==> ind == 1 || ind == 3) by (bit_vector)
            requires
                ind < 4,
        ;
        match get_packet_type(packet.indicators) {
            PacketType::FirstLink => {
                self.offsets.first_link_rx_time = Some(rx_time);
            },
            PacketType::SecondLink => {
                self.offsets.second_link_rx_time = Some(rx_time);
            },
            PacketType::LastPacketInFirstLink => {
                self.last_packet_id = Some(packet.offset);
                self.offsets.first_link_rx_time = Some(rx_time);
            },
            PacketType::LastPacketInSecondLink => {
                self.last_packet_id = Some(packet.offset);
                self.offsets.second_link_rx_time = Some(rx_time);
            },
        }
        let offset = packet.offset;
        self.packets.insert(offset, packet);
        self.is_complete = self.determine_complete();
        true
    }

    /// Arrival time on the second link minus that on the first, in
    /// nanoseconds, an absent time counting as zero.
    pub fn delta(&self) -> (r: i128)
        ensures
            r == (match self.offsets.second_link_rx_time {
                Some(t) => t as int,
                None => 0,
            }) - (match self.offsets.first_link_rx_time {
                Some(t) => t as int,
                None => 0,
            }),
    {
        let first: u64 = match self.offsets.first_link_rx_time {
            Some(t) => t,
            None => 0,
        };
        let second: u64 = match self.offsets.second_link_rx_time {
            Some(t) => t,
            None => 0,
        };
        second as i128 - first as i128
    }

    fn determine_complete(&self) -> (r: bool)
        ensures
            r == complete_spec(self.packets@, self.last_packet_id),
    {
        match self.last_packet_id {
            None => false,
            Some(last) => {
                let mut i: u16 = 0;
                loop
                    invariant
                        self.last_packet_id == Some(last),
                        i <= last,
                        forall|j: u16| j < i ==> #[trigger] self.packets@.contains_key(j),
                    decreases last - i,
                {
                    if !self.packets.contains_key(&i) {
                        assert(!self.packets@.contains_key(i));
                        assert(!complete_spec(self.packets@, Some(last)));
                        return false;
                    }
                    assert(self.packets@.contains_key(i));
                    if i == last {
                        assert forall|j: u16| j <= last implies #[trigger] self.packets@.contains_key(
                            j,
                        ) by {
                            if j < i {
                            }
                        }
                        assert(complete_spec(self.packets@, Some(last)));
                        return true;
                    }
                    i = i + 1;
                }
            },
        }
    }

    /// The payload data of fragments 0..n−1 in offset order, where n is the
    /// number of fragments held and all of 0..n−1 are present.
    pub fn gather(&self) -> (r: Vec<u8>)
        requires
            self.wf(),
            self.packets@.len() <= 65536,
            forall|i: int|
                0 <= i < self.packets@.len() ==> #[trigger] self.packets@.contains_key(i as u16),
        ensures
            r@ == gathered(self.packets@, self.packets@.len()),
    {
        let mut data: Vec<u8> = Vec::new();
        let n = self.packets.len();
        let mut i: usize = 0;
        while i < n
            invariant
                self.wf(),
                n == self.packets@.len(),
                n <= 65536,
                i <= n,
                forall|k: int| 0 <= k < n ==> #[trigger] self.packets@.contains_key(k as u16),
                data@ == gathered(self.packets@, i as nat),
            decreases n - i,
        {
            assert(self.packets@.contains_key(i as u16));
            let packet = self.packets.get(&(i as u16)).unwrap();
            let len = packet.length as usize;
            let mut j: usize = 0;
            let ghost before = data@;
            while j < len
                invariant
                    j <= len,
                    len == packet.length,
                    len <= packet.payload@.len(),
                    data@ == before + packet.payload@.subrange(0, j as int),
                decreases len - j,
            {
                data.push(packet.payload[j]);
                j = j + 1;
                assert(data@ =~= before + packet.payload@.subrange(0, j as int));
            }
            assert(((i + 1) as nat - 1) as u16 == i as u16);
            i = i + 1;
        }
        data
    }
}

/// `m` holds, under each offset i below the length of `fs`, a fragment with
/// the payload data of `fs[i]`.
pub open spec fn holds_fragments(m: Map<u16, PacketStruct>, fs: Seq<PacketWithMeta>) -> bool {
    forall|i: int|
        0 <= i < fs.len() ==> m.contains_key(i as u16) && m[i as u16].data() == (
        #[trigger] fs[i]).packet.data()
}

/// Reassembly: a record that holds, under offsets 0..num−1, fragments with
/// the payload data of the fragments of datagram `d` gathers back to `d`.
pub proof fn lemma_gather_reassembles(m: Map<u16, PacketStruct>, fs: Seq<PacketWithMeta>, d: Seq<u8>)
    requires
        fragments_of(fs, d),
        fs.len() <= 65536,
        holds_fragments(m, fs),
    ensures
        gathered(m, fs.len()) == d,
{
    lemma_gather_prefix(m, fs, fs.len());
    lemma_fragments_reassemble(fs, d);
    assert(fs.subrange(0, fs.len() as int) =~= fs);
}

proof fn lemma_gather_prefix(m: Map<u16, PacketStruct>, fs: Seq<PacketWithMeta>, k: nat)
    requires
        k <= fs.len() <= 65536,
        holds_fragments(m, fs),
    ensures
        gathered(m, k) == concat_data(fs.subrange(0, k as int)),
    decreases k,
{
    if k == 0 {
        assert(fs.subrange(0, 0) =~= Seq::<PacketWithMeta>::empty());
    } else {
        lemma_gather_prefix(m, fs, (k - 1) as nat);
        let pre = fs.subrange(0, k as int);
        assert(pre.drop_last() =~= fs.subrange(0, k - 1));
        let j = (k - 1) as int;
        assert(m[j as u16].data() == fs[j].packet.data());
    }
}

} // verus!

//! Fragment record: fixed layout, header plus payload, and its byte encoding.
use vstd::prelude::*;

verus! {

pub const IP_HEADER_LENGTH: usize = 20;

pub const UDP_HEADER_LENGTH: usize = 8;

/// seq (4) + offset (2) + length (2) + indicator (1).
pub const APP_HEADER_LENGTH: usize = 9;

pub const UDP_MAX_LENGTH: usize = 1500 - IP_HEADER_LENGTH - UDP_HEADER_LENGTH;

pub const MAX_PAYLOAD_LEN: usize = UDP_MAX_LENGTH - APP_HEADER_LENGTH;

/// Link and terminator status of a fragment.
#[derive(Clone, Copy, Debug, PartialEq, Eq, Structural)]
pub enum PacketType {
    FirstLink,
    SecondLink,
    LastPacketInFirstLink,
    LastPacketInSecondLink,
}

/// The wire value of a packet type: link id in bit 0, terminator in bit 1.
pub open spec fn indicator_of(t: PacketType) -> u8 {
    match t {
        PacketType::FirstLink => 0,
        PacketType::SecondLink => 1,
        PacketType::LastPacketInFirstLink => 2,
        PacketType::LastPacketInSecondLink => 3,
    }
}

/// The packet type that carries a fragment on `link` (0 or 1).
pub open spec fn packet_type_of(link: int, is_last: bool) -> PacketType {
    if link == 0 {
        if is_last {
            PacketType::LastPacketInFirstLink
        } else {
            PacketType::FirstLink
        }
    } else {
        if is_last {
            PacketType::LastPacketInSecondLink
        } else {
            PacketType::SecondLink
        }
    }
}

/// The link (0 or 1) that a packet type names.
pub open spec fn link_of(t: PacketType) -> int {
    (indicator_of(t) & 1) as int
}

/// Whether a packet type marks the last fragment of its datagram on its link.
pub open spec fn is_terminator(t: PacketType) -> bool {
    (indicator_of(t) >> 1) & 1 == 1
}

/// One fragment as it travels in one UDP datagram.
#[derive(Clone, Debug)]
pub struct PacketStruct {
    pub seq: u32,
    pub offset: u16,
    pub length: u16,
    pub indicators: u8,
    pub payload: Vec<u8>,
}

/// The test fill of a fresh record: the i-th byte is i mod 256.
pub open spec fn fill_pattern() -> Seq<u8> {
    Seq::new(MAX_PAYLOAD_LEN as nat, |i: int| (i % 256) as u8)
}

pub open spec fn le16(x: u16) -> Seq<u8> {
    seq![(x & 0xff) as u8, ((x >> 8) & 0xff) as u8]
}

pub open spec fn le32(x: u32) -> Seq<u8> {
    seq![(x & 0xff) as u8, ((x >> 8) & 0xff) as u8, ((x >> 16) & 0xff) as u8, ((x >> 24) & 0xff) as u8]
}

/// The nine header bytes, in the byte order of the x86-64 endpoints.
pub open spec fn header_bytes(seq: u32, offset: u16, length: u16, indicators: u8) -> Seq<u8> {
    le32(seq) + le16(offset) + le16(length) + seq![indicators]
}

impl PacketStruct {
    /// The payload buffer has its fixed capacity.
    pub open spec fn wf(&self) -> bool {
        self.payload@.len() == MAX_PAYLOAD_LEN
    }

    /// The whole record as bytes: header, then the full payload buffer.
    pub open spec fn encoded(&self) -> Seq<u8> {
        header_bytes(self.seq, self.offset, self.length, self.indicators) + self.payload@
    }

    /// What one datagram carries: header, then `length` payload bytes.
    pub open spec fn wire(&self) -> Seq<u8> {
        self.encoded().subrange(0, APP_HEADER_LENGTH + self.length as int)
    }

    /// The payload bytes that count.
    pub open spec fn data(&self) -> Seq<u8> {
        self.payload@.subrange(0, self.length as int)
    }

    /// A record with seq, offset, length and indicator zero and the test fill as payload.
    pub fn new() -> (r: Self)
        ensures
            r.wf(),
            r.seq == 0,
            r.offset == 0,
            r.length == 0,
            r.indicators == 0,
            r.payload@ == fill_pattern(),
    {
        let mut payload: Vec<u8> = Vec::with_capacity(MAX_PAYLOAD_LEN);
        let mut i: usize = 0;
        while i < MAX_PAYLOAD_LEN
            invariant
                i <= MAX_PAYLOAD_LEN,
                payload@.len() == i,
                forall|j: int| 0 <= j < i ==> payload@[j] == (j % 256) as u8,
            decreases MAX_PAYLOAD_LEN - i,
        {
            payload.push((i % 256) as u8);
            i = i + 1;
        }
        assert(payload@ =~= fill_pattern());
        PacketStruct { seq: 0, offset: 0, length: 0, indicators: 0, payload }
    }

    /// A copy of the record, payload buffer included.
    pub fn duplicate(&self) -> (r: Self)
        ensures
            r.seq == self.seq,
            r.offset == self.offset,
            r.length == self.length,
            r.indicators == self.indicators,
            r.payload@ == self.payload@,
    {
        let payload = self.payload.clone();
        assert(payload@ =~= self.payload@);
        PacketStruct {
            seq: self.seq,
            offset: self.offset,
            length: self.length,
            indicators: self.indicators,
            payload,
        }
    }

    pub fn set_length(&mut self, length: u16)
        ensures
            *final(self) == (PacketStruct { length, ..*old(self) }),
    {
        self.length = length;
    }

    /// Moves to the next datagram: the sequence number advances (wrapping at
    /// the top of `u32`) and the offset field carries the fragment count.
    pub fn next_seq(&mut self, num: usize)
        ensures
            *final(self) == (PacketStruct {
                seq: old(self).seq.wrapping_add(1),
                offset: num as u16,
                ..*old(self)
            }),
    {
        self.seq = self.seq.wrapping_add(1);
        self.offset = num as u16;
    }

    pub fn set_offset(&mut self, offset: u16)
        ensures
            *final(self) == (PacketStruct { offset, ..*old(self) }),
    {
        self.offset = offset;
    }

    pub fn set_indicator(&mut self, packet_type: PacketType)
        ensures
            *final(self) == (PacketStruct { indicators: indicator_of(packet_type), ..*old(self) }),
    {
        self.indicators = to_indicator(packet_type);
    }

    /// Overwrites the start of the payload buffer with `payload`.
    pub fn set_payload(&mut self, payload: &[u8])
        requires
            old(self).wf(),
            payload@.len() <= MAX_PAYLOAD_LEN,
        ensures
            final(self).wf(),
            final(self).payload@ == payload@ + old(self).payload@.subrange(
                payload@.len() as int,
                MAX_PAYLOAD_LEN as int,
            ),
            final(self).seq == old(self).seq,
            final(self).offset == old(self).offset,
            final(self).length == old(self).length,
            final(self).indicators == old(self).indicators,
    {
        let n = payload.len();
        let mut i: usize = 0;
        while i < n
            invariant
                n == payload@.len(),
                n <= MAX_PAYLOAD_LEN,
                i <= n,
                self.wf(),
                self.seq == old(self).seq,
                self.offset == old(self).offset,
                self.length == old(self).length,
                self.indicators == old(self).indicators,
                forall|j: int| 0 <= j < i ==> self.payload@[j] == payload@[j],
                forall|j: int| i <= j < MAX_PAYLOAD_LEN ==> self.payload@[j] == old(self).payload@[j],
            decreases n - i,
        {
            self.payload.set(i, payload[i]);
            i = i + 1;
        }
        assert(self.payload@ =~= payload@ + old(self).payload@.subrange(
            payload@.len() as int,
            MAX_PAYLOAD_LEN as int,
        ));
    }
}

/// The link id carried in an indicator: its lowest bit.
pub fn channel_info(indicator: u8) -> (r: u8)
    ensures
        r == indicator & 1,
{
    indicator & 1
}

pub fn to_indicator(packet_type: PacketType) -> (r: u8)
    ensures
        r == indicator_of(packet_type),
        r < 4,
{
    match packet_type {
        PacketType::FirstLink => 0,
        PacketType::SecondLink => 1,
        PacketType::LastPacketInFirstLink => 2,
        PacketType::LastPacketInSecondLink => 3,
    }
}

/// Decodes one of the four defined indicator values.
pub fn get_packet_type(indicators: u8) -> (r: PacketType)
    requires
        indicators < 4,
    ensures
        indicator_of(r) == indicators,
{
    match indicators {
        0 => PacketType::FirstLink,
        1 => PacketType::SecondLink,
        2 => PacketType::LastPacketInFirstLink,
        _ => PacketType::LastPacketInSecondLink,
    }
}

/// IEEE 802.11e access category of the top three ToS bits
/// (VO = 0, VI = 1, BE = 2, BK = 3).
pub open spec fn ac_of_priority(p: u8) -> usize {
    if p == 1 || p == 2 {
        3
    } else if p == 0 || p == 3 {
        2
    } else if p == 4 || p == 5 {
        1
    } else {
        0
    }
}

pub fn tos2ac(tos: u8) -> (r: usize)
    ensures
        r == ac_of_priority(tos >> 5),
        r < 4,
{
    let ac_bits = (tos & 0xE0) >> 5;
    assert(ac_bits == tos >> 5 && ac_bits < 8) by (bit_vector)
        requires
            ac_bits == (tos & 0xE0) >> 5,
    ;
    if ac_bits == 1 || ac_bits == 2 {
        3
    } else if ac_bits == 0 || ac_bits == 3 {
        2
    } else if ac_bits == 4 || ac_bits == 5 {
        1
    } else {
        0
    }
}

/// The value of two little-endian bytes.
pub open spec fn from_le16(b0: u8, b1: u8) -> u16 {
    (b0 as u16) | ((b1 as u16) << 8)
}

/// The value of four little-endian bytes.
pub open spec fn from_le32(b0: u8, b1: u8, b2: u8, b3: u8) -> u32 {
    (b0 as u32) | ((b1 as u32) << 8) | ((b2 as u32) << 16) | ((b3 as u32) << 24)
}

/// `p` is what a received buffer decodes to: the header fields, and the
/// payload bytes that follow them (at most `MAX_PAYLOAD_LEN`) with the rest
/// of the payload buffer zero.
pub open spec fn decodes_to(b: Seq<u8>, p: PacketStruct) -> bool {
    &&& b.len() >= APP_HEADER_LENGTH
    &&& p.wf()
    &&& p.seq == from_le32(b[0], b[1], b[2], b[3])
    &&& p.offset == from_le16(b[4], b[5])
    &&& p.length == from_le16(b[6], b[7])
    &&& p.indicators == b[8]
    &&& p.payload@ == decoded_payload(b)
}

/// The payload buffer that a received buffer decodes to.
pub open spec fn decoded_payload(b: Seq<u8>) -> Seq<u8> {
    Seq::new(
        MAX_PAYLOAD_LEN as nat,
        |i: int|
            if APP_HEADER_LENGTH + i < b.len() {
                b[APP_HEADER_LENGTH + i]
            } else {
                0u8
            },
    )
}

/// A received buffer is a fragment: it holds a whole header with a defined
/// indicator, and the payload bytes that its length field announces.
pub open spec fn is_valid_fragment(b: Seq<u8>) -> bool {
    &&& b.len() >= APP_HEADER_LENGTH
    &&& b[8] < 4
    &&& from_le16(b[6], b[7]) <= MAX_PAYLOAD_LEN
    &&& b.len() >= APP_HEADER_LENGTH + from_le16(b[6], b[7])
}

/// Parses a received datagram into a fragment record, or `None` where the
/// buffer is not a fragment.
pub fn from_buffer(buffer: &[u8]) -> (r: Option<PacketStruct>)
    ensures
        is_valid_fragment(buffer@) <==> r is Some,
        r matches Some(p) ==> decodes_to(buffer@, p),
{
    let n = buffer.len();
    if n < APP_HEADER_LENGTH {
        return None;
    }
    let seq: u32 = (buffer[0] as u32) | ((buffer[1] as u32) << 8) | ((buffer[2] as u32) << 16) | ((
    buffer[3] as u32) << 24);
    let offset: u16 = (buffer[4] as u16) | ((buffer[5] as u16) << 8);
    let length: u16 = (buffer[6] as u16) | ((buffer[7] as u16) << 8);
    let indicators = buffer[8];
    if indicators >= 4 || length as usize > MAX_PAYLOAD_LEN || n - APP_HEADER_LENGTH
        < length as usize {
        return None;
    }
    let mut payload: Vec<u8> = Vec::with_capacity(MAX_PAYLOAD_LEN);
    let mut i: usize = 0;
    while i < MAX_PAYLOAD_LEN
        invariant
            n == buffer@.len(),
            n >= APP_HEADER_LENGTH,
            i <= MAX_PAYLOAD_LEN,
            payload@.len() == i,
            forall|j: int| 0 <= j < i ==> payload@[j] == decoded_payload(buffer@)[j],
        decreases MAX_PAYLOAD_LEN - i,
    {
        if i < n - APP_HEADER_LENGTH {
            payload.push(buffer[APP_HEADER_LENGTH + i]);
        } else {
            payload.push(0);
        }
        i = i + 1;
    }
    assert(payload@ =~= decoded_payload(buffer@));
    Some(PacketStruct { seq, offset, length, indicators, payload })
}

proof fn lemma_le16_round_trip(x: u16)
    ensures
        from_le16(le16(x)[0], le16(x)[1]) == x,
{
    let b0 = (x & 0xff) as u8;
    let b1 = ((x >> 8) & 0xff) as u8;
    assert((b0 as u16) | ((b1 as u16) << 8) == x) by (bit_vector)
        requires
            b0 == (x & 0xff) as u8,
            b1 == ((x >> 8) & 0xff) as u8,
    ;
}

proof fn lemma_le32_round_trip(x: u32)
    ensures
        from_le32(le32(x)[0], le32(x)[1], le32(x)[2], le32(x)[3]) == x,
{
    let b0 = (x & 0xff) as u8;
    let b1 = ((x >> 8) & 0xff) as u8;
    let b2 = ((x >> 16) & 0xff) as u8;
    let b3 = ((x >> 24) & 0xff) as u8;
    assert((b0 as u32) | ((b1 as u32) << 8) | ((b2 as u32) << 16) | ((b3 as u32) << 24) == x)
        by (bit_vector)
        requires
            b0 == (x & 0xff) as u8,
            b1 == ((x >> 8) & 0xff) as u8,
            b2 == ((x >> 16) & 0xff) as u8,
            b3 == ((x >> 24) & 0xff) as u8,
    ;
}

/// Codec round trip: what one datagram carries for a well-formed fragment
/// is a valid fragment and parses back to the same header fields and the
/// same payload data; the full record parses back to the same fields and
/// the same payload buffer.
pub proof fn lemma_codec_round_trip(p: PacketStruct, q: PacketStruct)
    requires
        p.wf(),
        p.indicators < 4,
        p.length <= MAX_PAYLOAD_LEN,
    ensures
        is_valid_fragment(p.wire()),
        is_valid_fragment(p.encoded()),
        decodes_to(p.wire(), q) ==> {
            &&& q.seq == p.seq
            &&& q.offset == p.offset
            &&& q.length == p.length
            &&& q.indicators == p.indicators
            &&& q.data() == p.data()
        },
        decodes_to(p.encoded(), q) ==> {
            &&& q.seq == p.seq
            &&& q.offset == p.offset
            &&& q.length == p.length
            &&& q.indicators == p.indicators
            &&& q.payload@ == p.payload@
        },
{
    lemma_le16_round_trip(p.offset);
    lemma_le16_round_trip(p.length);
    lemma_le32_round_trip(p.seq);
    let w = p.wire();
    let e = p.encoded();
    assert(w[6] == e[6] && w[7] == e[7]);
    assert(decoded_payload(w).subrange(0, p.length as int) =~= p.data());
    if decodes_to(w, q) {
        assert(q.data() =~= p.data());
    }
    assert(decoded_payload(e) =~= p.payload@);
}

/// A fragment record together with what the sender keeps beside it.
#[derive(Clone, Debug)]
pub struct PacketWithMeta {
    pub packet: PacketStruct,
    pub port: u16,
    /// Number of fragments of the original datagram.
    pub num: usize,
    /// When the datagram entered the stage, in nanoseconds.
    pub arrival_time: u64,
}

impl PacketWithMeta {
    pub fn new(port: u16) -> (r: Self)
        ensures
            r.packet.wf(),
            r.packet.seq == 0,
            r.packet.offset == 0,
            r.packet.length == 0,
            r.packet.indicators == 0,
            r.packet.payload@ == fill_pattern(),
            r.port == port,
            r.num == 0,
            r.arrival_time == 0,
    {
        PacketWithMeta { packet: PacketStruct::new(), port, num: 0, arrival_time: 0 }
    }

    /// A copy of the fragment and its metadata.
    pub fn duplicate(&self) -> (r: Self)
        ensures
            r.packet.seq == self.packet.seq,
            r.packet.offset == self.packet.offset,
            r.packet.length == self.packet.length,
            r.packet.indicators == self.packet.indicators,
            r.packet.payload@ == self.packet.payload@,
            r.port == self.port,
            r.num == self.num,
            r.arrival_time == self.arrival_time,
    {
        PacketWithMeta {
            packet: self.packet.duplicate(),
            port: self.port,
            num: self.num,
            arrival_time: self.arrival_time,
        }
    }

    /// The record as contiguous bytes: header, then the full payload buffer.
    pub fn to_u8_slice(&self) -> (r: Vec<u8>)
        ensures
            r@ == self.packet.encoded(),
    {
        let p = &self.packet;
        let mut r: Vec<u8> = Vec::with_capacity(APP_HEADER_LENGTH + MAX_PAYLOAD_LEN);
        r.push((p.seq & 0xff) as u8);
        r.push(((p.seq >> 8) & 0xff) as u8);
        r.push(((p.seq >> 16) & 0xff) as u8);
        r.push(((p.seq >> 24) & 0xff) as u8);
        r.push((p.offset & 0xff) as u8);
        r.push(((p.offset >> 8) & 0xff) as u8);
        r.push((p.length & 0xff) as u8);
        r.push(((p.length >> 8) & 0xff) as u8);
        r.push(p.indicators);
        let ghost head = r@;
        assert(head =~= header_bytes(p.seq, p.offset, p.length, p.indicators));
        let mut i: usize = 0;
        while i < p.payload.len()
            invariant
                i <= p.payload@.len(),
                r@ == head + p.payload@.subrange(0, i as int),
            decreases p.payload@.len() - i,
        {
            r.push(p.payload[i]);
            i = i + 1;
            assert(r@ =~= head + p.payload@.subrange(0, i as int));
        }
        assert(p.payload@.subrange(0, i as int) =~= p.payload@);
        r
    }

    /// Moves to the next datagram of `num` fragments.
    pub fn next_seq(&mut self, num: usize)
        ensures
            final(self).num == num,
            final(self).packet == (PacketStruct {
                seq: old(self).packet.seq.wrapping_add(1),
                offset: num as u16,
                ..old(self).packet
            }),
            final(self).port == old(self).port,
            final(self).arrival_time == old(self).arrival_time,
    {
        self.num = num;
        self.packet.next_seq(num);
    }
}

/// Indicator algebra: each packet type's indicator is below four, names its
/// link in bit 0 and its terminator status in bit 1, and decoding an
/// indicator then encoding the result gives the indicator back.
pub proof fn lemma_indicator_algebra(t: PacketType, i: u8)
    requires
        i < 4,
    ensures
        indicator_of(t) < 4,
        t == packet_type_of(link_of(t), is_terminator(t)),
        link_of(t) == (indicator_of(t) & 1) as int,
        is_terminator(t) <==> (indicator_of(t) >> 1) & 1 == 1,
        forall|u: PacketType| indicator_of(u) == i ==> u == packet_type_of(
            (i & 1) as int,
            (i >> 1) & 1 == 1,
        ),
        forall|u: PacketType, v: PacketType| indicator_of(u) == indicator_of(v) ==> u == v,
{
    assert((0u8 & 1) == 0 && (1u8 & 1) == 1 && (2u8 & 1) == 0 && (3u8 & 1) == 1) by (bit_vector);
    assert(((0u8 >> 1) & 1) == 0 && ((1u8 >> 1) & 1) == 0 && ((2u8 >> 1) & 1) == 1 && ((3u8 >> 1)
        & 1) == 1) by (bit_vector);
}

} // verus!

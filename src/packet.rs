//! The packet model and its wire encoding.
//!
//! A packet is a delivery-mode header plus an opaque payload. On the wire a
//! packet is laid out with fixed-width little-endian integers:
//!
//! * the header variant as a `u32` (0 ordered, 1 unordered, 2 sequenced,
//!   3 unreliable sequenced, 4 unreliable unordered);
//! * the variant's fields: `stream_id` as one byte, then `seq_id` as a `u16`
//!   for the two sequenced variants;
//! * the payload length as a `u64`, then the payload bytes.
//!
//! Decoding reads one packet from the front of a buffer; bytes after it are
//! ignored.
use vstd::prelude::*;
use vstd::bytes::{
    spec_u16_from_le_bytes, spec_u16_to_le_bytes, spec_u32_from_le_bytes, spec_u32_to_le_bytes,
    spec_u64_from_le_bytes, spec_u64_to_le_bytes, u16_from_le_bytes, u16_to_le_bytes,
    u32_from_le_bytes, u32_to_le_bytes, u64_from_le_bytes, u64_to_le_bytes,
    lemma_auto_spec_u16_to_from_le_bytes, lemma_auto_spec_u32_to_from_le_bytes,
    lemma_auto_spec_u64_to_from_le_bytes,
};
use vstd::slice::{slice_subrange, slice_to_vec};

verus! {

/// The delivery mode of a packet, with the fields that mode needs.
#[derive(Clone, Copy, Debug, PartialEq, Eq, Structural)]
pub enum PacketHeader {
    /// Reliable and ordered: no packet is dropped, order is kept per stream.
    Ordered { stream_id: u8 },
    /// Reliable, in no particular order.
    Unordered,
    /// Reliable; a packet older than one already delivered on its stream is
    /// dropped.
    Sequenced { stream_id: u8, seq_id: u16 },
    /// Unreliable; lost packets stay lost and older ones are dropped.
    UnreliableSequenced { stream_id: u8, seq_id: u16 },
    /// Unreliable, in no particular order.
    UnreliableUnordered,
}

/// A header and its payload.
#[derive(Clone, Debug, PartialEq, Eq)]
pub struct Packet {
    pub header: PacketHeader,
    pub bytes: Vec<u8>,
}

/// Why a buffer does not hold a packet.
#[derive(Clone, Copy, Debug, PartialEq, Eq, Structural)]
pub enum DecodeError {
    /// The buffer ends before the packet does.
    Truncated,
    /// The header variant number is not one of the five.
    UnknownVariant(u32),
}

/// The variant number of a header on the wire.
pub open spec fn header_tag(h: PacketHeader) -> u32 {
    match h {
        PacketHeader::Ordered { .. } => 0,
        PacketHeader::Unordered => 1,
        PacketHeader::Sequenced { .. } => 2,
        PacketHeader::UnreliableSequenced { .. } => 3,
        PacketHeader::UnreliableUnordered => 4,
    }
}

/// The wire form of a header's fields.
pub open spec fn header_fields(h: PacketHeader) -> Seq<u8> {
    match h {
        PacketHeader::Ordered { stream_id } => seq![stream_id],
        PacketHeader::Sequenced { stream_id, seq_id } => seq![stream_id] + spec_u16_to_le_bytes(
            seq_id,
        ),
        PacketHeader::UnreliableSequenced { stream_id, seq_id } => seq![stream_id]
            + spec_u16_to_le_bytes(seq_id),
        _ => Seq::empty(),
    }
}

/// The wire form of a header.
pub open spec fn header_wire(h: PacketHeader) -> Seq<u8> {
    spec_u32_to_le_bytes(header_tag(h)) + header_fields(h)
}

/// The wire form of a packet with header `h` and payload `b`.
pub open spec fn packet_wire(h: PacketHeader, b: Seq<u8>) -> Seq<u8> {
    header_wire(h) + spec_u64_to_le_bytes(b.len() as u64) + b
}

/// Reads a header from the front of `s`: the header and the number of bytes
/// it took.
pub open spec fn header_parse(s: Seq<u8>) -> Result<(PacketHeader, int), DecodeError> {
    if s.len() < 4 {
        Err(DecodeError::Truncated)
    } else {
        let tag = spec_u32_from_le_bytes(s.subrange(0, 4));
        if tag == 0 {
            if s.len() < 5 {
                Err(DecodeError::Truncated)
            } else {
                Ok((PacketHeader::Ordered { stream_id: s[4] }, 5))
            }
        } else if tag == 1 {
            Ok((PacketHeader::Unordered, 4))
        } else if tag == 2 || tag == 3 {
            if s.len() < 7 {
                Err(DecodeError::Truncated)
            } else {
                let stream_id = s[4];
                let seq_id = spec_u16_from_le_bytes(s.subrange(5, 7));
                if tag == 2 {
                    Ok((PacketHeader::Sequenced { stream_id, seq_id }, 7))
                } else {
                    Ok((PacketHeader::UnreliableSequenced { stream_id, seq_id }, 7))
                }
            }
        } else if tag == 4 {
            Ok((PacketHeader::UnreliableUnordered, 4))
        } else {
            Err(DecodeError::UnknownVariant(tag))
        }
    }
}

/// Reads a packet from the front of `s`: its header and payload.
pub open spec fn wire_parse(s: Seq<u8>) -> Result<(PacketHeader, Seq<u8>), DecodeError> {
    match header_parse(s) {
        Err(e) => Err(e),
        Ok((h, n)) => {
            if s.len() < n + 8 {
                Err(DecodeError::Truncated)
            } else {
                let len = spec_u64_from_le_bytes(s.subrange(n, n + 8));
                if s.len() < n + 8 + len {
                    Err(DecodeError::Truncated)
                } else {
                    Ok((h, s.subrange(n + 8, n + 8 + len)))
                }
            }
        },
    }
}

/// The header with its sequence id replaced, for the variants that carry one.
pub open spec fn header_with_seq(h: PacketHeader, seq_id: u16) -> PacketHeader {
    match h {
        PacketHeader::Sequenced { stream_id, .. } => PacketHeader::Sequenced { stream_id, seq_id },
        PacketHeader::UnreliableSequenced { stream_id, .. } => PacketHeader::UnreliableSequenced {
            stream_id,
            seq_id,
        },
        other => other,
    }
}

impl PacketHeader {
    /// The header with `seq_id` as its sequence id; headers without one are
    /// returned as they are.
    pub fn with_seq_id(self, seq_id: u16) -> (r: Self)
        ensures
            r == header_with_seq(self, seq_id),
    {
        match self {
            PacketHeader::Sequenced { stream_id, .. } => PacketHeader::Sequenced {
                stream_id,
                seq_id,
            },
            PacketHeader::UnreliableSequenced { stream_id, .. } => {
                PacketHeader::UnreliableSequenced { stream_id, seq_id }
            },
            other => other,
        }
    }
}

impl Default for PacketHeader {
    fn default() -> (r: Self)
        ensures
            r == (PacketHeader::Ordered { stream_id: 0 }),
    {
        PacketHeader::Ordered { stream_id: 0 }
    }
}

/// Appends `b` to `out`.
fn push_all(out: &mut Vec<u8>, b: &[u8])
    ensures
        final(out)@ == old(out)@ + b@,
{
    let mut i: usize = 0;
    while i < b.len()
        invariant
            i <= b@.len(),
            out@ == old(out)@ + b@.subrange(0, i as int),
        decreases b@.len() - i,
    {
        out.push(b[i]);
        i = i + 1;
        assert(b@.subrange(0, i as int) == b@.subrange(0, i - 1) + seq![b@[i - 1]]);
    }
    assert(b@.subrange(0, b@.len() as int) == b@);
}

/// The wire form of a header.
fn encode_header(h: PacketHeader) -> (r: Vec<u8>)
    ensures
        r@ == header_wire(h),
{
    let tag: u32 = match h {
        PacketHeader::Ordered { .. } => 0,
        PacketHeader::Unordered => 1,
        PacketHeader::Sequenced { .. } => 2,
        PacketHeader::UnreliableSequenced { .. } => 3,
        PacketHeader::UnreliableUnordered => 4,
    };
    let mut out = u32_to_le_bytes(tag);
    match h {
        PacketHeader::Ordered { stream_id } => {
            out.push(stream_id);
        },
        PacketHeader::Sequenced { stream_id, seq_id } | PacketHeader::UnreliableSequenced {
            stream_id,
            seq_id,
        } => {
            out.push(stream_id);
            let sb = u16_to_le_bytes(seq_id);
            push_all(&mut out, sb.as_slice());
            assert(seq![stream_id] + spec_u16_to_le_bytes(seq_id) == seq![stream_id].add(
                sb@,
            ));
        },
        _ => {},
    }
    assert(out@ =~= header_wire(h));
    out
}

impl Packet {
    /// A reliable, ordered packet on `stream_id`.
    pub fn ordered(bytes: Vec<u8>, stream_id: u8) -> (r: Self)
        ensures
            r.header == (PacketHeader::Ordered { stream_id }),
            r.bytes@ == bytes@,
    {
        Packet { bytes, header: PacketHeader::Ordered { stream_id } }
    }

    /// A reliable packet in no particular order.
    pub fn unordered(bytes: Vec<u8>) -> (r: Self)
        ensures
            r.header == PacketHeader::Unordered,
            r.bytes@ == bytes@,
    {
        Packet { bytes, header: PacketHeader::Unordered }
    }

    /// A reliable sequenced packet on `stream_id`; its sequence id is
    /// assigned when it is sent.
    pub fn sequenced(bytes: Vec<u8>, stream_id: u8) -> (r: Self)
        ensures
            r.header == (PacketHeader::Sequenced { stream_id, seq_id: 0 }),
            r.bytes@ == bytes@,
    {
        Packet { bytes, header: PacketHeader::Sequenced { stream_id, seq_id: 0 } }
    }

    /// An unreliable sequenced packet on `stream_id`; its sequence id is
    /// assigned when it is sent.
    pub fn unreliable_sequenced(bytes: Vec<u8>, stream_id: u8) -> (r: Self)
        ensures
            r.header == (PacketHeader::UnreliableSequenced { stream_id, seq_id: 0 }),
            r.bytes@ == bytes@,
    {
        Packet { bytes, header: PacketHeader::UnreliableSequenced { stream_id, seq_id: 0 } }
    }

    /// An unreliable packet in no particular order.
    pub fn unreliable_unordered(bytes: Vec<u8>) -> (r: Self)
        ensures
            r.header == PacketHeader::UnreliableUnordered,
            r.bytes@ == bytes@,
    {
        Packet { bytes, header: PacketHeader::UnreliableUnordered }
    }

    /// The packet with `seq_id` as its sequence id, where its header has one.
    pub fn with_seq_id(self, seq_id: u16) -> (r: Self)
        ensures
            r.header == header_with_seq(self.header, seq_id),
            r.bytes@ == self.bytes@,
    {
        Packet { bytes: self.bytes, header: self.header.with_seq_id(seq_id) }
    }

    /// The wire form of the packet.
    pub fn encode(&self) -> (r: Vec<u8>)
        ensures
            r@ == packet_wire(self.header, self.bytes@),
    {
        let mut out = encode_header(self.header);
        let len = u64_to_le_bytes(self.bytes.len() as u64);
        push_all(&mut out, len.as_slice());
        push_all(&mut out, self.bytes.as_slice());
        out
    }

    /// Reads one packet from the front of `bytes`: succeeds exactly when
    /// `bytes` starts with the wire form of a packet, and returns that packet.
    pub fn decode(bytes: &[u8]) -> (r: Result<Packet, DecodeError>)
        ensures
            r is Ok ==> packet_wire(r->Ok_0.header, r->Ok_0.bytes@).is_prefix_of(bytes@),
            r is Err ==> forall|h: PacketHeader, b: Seq<u8>|
                b.len() <= u64::MAX ==> !(#[trigger] packet_wire(h, b).is_prefix_of(bytes@)),
            match r {
                Ok(p) => wire_parse(bytes@) is Ok && wire_parse(bytes@)->Ok_0 == (p.header, p.bytes@),
                Err(e) => wire_parse(bytes@) is Err && wire_parse(bytes@)->Err_0 == e,
            },
    {
        let r = read_packet(bytes);
        proof {
            if wire_parse(bytes@) is Ok {
                lemma_parse_is_prefix(bytes@);
            } else {
                assert forall|h: PacketHeader, b: Seq<u8>| b.len() <= u64::MAX implies !(
                #[trigger] packet_wire(h, b).is_prefix_of(bytes@)) by {
                    if packet_wire(h, b).is_prefix_of(bytes@) {
                        lemma_prefix_parses(h, b, bytes@);
                    }
                }
            }
        }
        r
    }
}

/// Reads one packet from the front of `bytes`, as `wire_parse` does.
fn read_packet(bytes: &[u8]) -> (r: Result<Packet, DecodeError>)
    ensures
        match r {
            Ok(p) => wire_parse(bytes@) is Ok && wire_parse(bytes@)->Ok_0 == (p.header, p.bytes@),
            Err(e) => wire_parse(bytes@) is Err && wire_parse(bytes@)->Err_0 == e,
        },
{
    let (header, n) = match decode_header(bytes) {
        Ok(v) => v,
        Err(e) => {
            return Err(e);
        },
    };
    if bytes.len() - n < 8 {
        return Err(DecodeError::Truncated);
    }
    let len = u64_from_le_bytes(slice_subrange(bytes, n, n + 8));
    let start = n + 8;
    if len > (bytes.len() - start) as u64 {
        return Err(DecodeError::Truncated);
    }
    let end = start + len as usize;
    let payload = slice_to_vec(slice_subrange(bytes, start, end));
    Ok(Packet { header, bytes: payload })
}

/// Reads a header from the front of `bytes`.
fn decode_header(bytes: &[u8]) -> (r: Result<(PacketHeader, usize), DecodeError>)
    ensures
        match r {
            Ok((h, n)) => header_parse(bytes@) is Ok && header_parse(bytes@)->Ok_0 == (h, n as int)
                && n <= bytes@.len(),
            Err(e) => header_parse(bytes@) is Err && header_parse(bytes@)->Err_0 == e,
        },
{
    if bytes.len() < 4 {
        return Err(DecodeError::Truncated);
    }
    let tag = u32_from_le_bytes(slice_subrange(bytes, 0, 4));
    if tag == 0 {
        if bytes.len() < 5 {
            Err(DecodeError::Truncated)
        } else {
            Ok((PacketHeader::Ordered { stream_id: bytes[4] }, 5))
        }
    } else if tag == 1 {
        Ok((PacketHeader::Unordered, 4))
    } else if tag == 2 || tag == 3 {
        if bytes.len() < 7 {
            Err(DecodeError::Truncated)
        } else {
            let stream_id = bytes[4];
            let seq_id = u16_from_le_bytes(slice_subrange(bytes, 5, 7));
            if tag == 2 {
                Ok((PacketHeader::Sequenced { stream_id, seq_id }, 7))
            } else {
                Ok((PacketHeader::UnreliableSequenced { stream_id, seq_id }, 7))
            }
        }
    } else if tag == 4 {
        Ok((PacketHeader::UnreliableUnordered, 4))
    } else {
        Err(DecodeError::UnknownVariant(tag))
    }
}

/// A buffer that starts with the wire form of a packet reads as that packet.
pub proof fn lemma_prefix_parses(h: PacketHeader, b: Seq<u8>, s: Seq<u8>)
    requires
        b.len() <= u64::MAX,
        packet_wire(h, b).is_prefix_of(s),
    ensures
        wire_parse(s) is Ok,
        wire_parse(s)->Ok_0 == (h, b),
{
    lemma_auto_spec_u16_to_from_le_bytes();
    lemma_auto_spec_u32_to_from_le_bytes();
    lemma_auto_spec_u64_to_from_le_bytes();
    let w = packet_wire(h, b);
    let hw = header_wire(h);
    let lw = spec_u64_to_le_bytes(b.len() as u64);
    assert(s.subrange(0, w.len() as int) == w);
    assert(s.subrange(0, 4) =~= spec_u32_to_le_bytes(header_tag(h)));
    let n = hw.len() as int;
    assert(s[4] == w[4] || n == 4);
    match h {
        PacketHeader::Sequenced { stream_id, seq_id } => {
            assert(w.subrange(5, 7) =~= spec_u16_to_le_bytes(seq_id));
            assert(s.subrange(5, 7) =~= w.subrange(5, 7));
        },
        PacketHeader::UnreliableSequenced { stream_id, seq_id } => {
            assert(w.subrange(5, 7) =~= spec_u16_to_le_bytes(seq_id));
            assert(s.subrange(5, 7) =~= w.subrange(5, 7));
        },
        _ => {},
    }
    assert(w.subrange(n, n + 8) =~= lw);
    assert(s.subrange(n, n + 8) =~= w.subrange(n, n + 8));
    assert(w.subrange(n + 8, n + 8 + b.len()) =~= b);
    assert(s.subrange(n + 8, n + 8 + b.len()) =~= w.subrange(n + 8, n + 8 + b.len()));
}

/// What a buffer reads as is a packet whose wire form starts the buffer.
pub proof fn lemma_parse_is_prefix(s: Seq<u8>)
    requires
        wire_parse(s) is Ok,
    ensures
        wire_parse(s)->Ok_0.1.len() <= u64::MAX,
        packet_wire(wire_parse(s)->Ok_0.0, wire_parse(s)->Ok_0.1).is_prefix_of(s),
{
    lemma_auto_spec_u16_to_from_le_bytes();
    lemma_auto_spec_u32_to_from_le_bytes();
    lemma_auto_spec_u64_to_from_le_bytes();
    let (h, n) = header_parse(s)->Ok_0;
    let (h2, b) = wire_parse(s)->Ok_0;
    assert(h2 == h);
    let tag = spec_u32_from_le_bytes(s.subrange(0, 4));
    assert(header_tag(h) == tag);
    assert(spec_u32_to_le_bytes(tag) == s.subrange(0, 4));
    match h {
        PacketHeader::Sequenced { stream_id, seq_id } => {
            assert(spec_u16_to_le_bytes(seq_id) == s.subrange(5, 7));
        },
        PacketHeader::UnreliableSequenced { stream_id, seq_id } => {
            assert(spec_u16_to_le_bytes(seq_id) == s.subrange(5, 7));
        },
        _ => {},
    }
    assert(header_wire(h) =~= s.subrange(0, n));
    let len = spec_u64_from_le_bytes(s.subrange(n, n + 8));
    assert(b.len() == len);
    assert(spec_u64_to_le_bytes(len) == s.subrange(n, n + 8));
    assert(packet_wire(h, b) =~= s.subrange(0, n + 8 + len));
}

/// Decoding the encoding of a packet gives the packet back.
pub proof fn lemma_round_trip(h: PacketHeader, b: Seq<u8>)
    requires
        b.len() <= u64::MAX,
    ensures
        wire_parse(packet_wire(h, b)) is Ok,
        wire_parse(packet_wire(h, b))->Ok_0 == (h, b),
{
    let w = packet_wire(h, b);
    assert(w.is_prefix_of(w)) by {
        assert(w =~= w.subrange(0, w.len() as int));
    }
    lemma_prefix_parses(h, b, w);
}

} // verus!

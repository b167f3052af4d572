//! The filter handshake that gates every new connection.
//!
//! Right after the transport connects, each end sends one filter packet on a
//! fresh unidirectional stream and reads the peer's. A filter packet holds a
//! fixed magic number and the sender's `(major, minor)` protocol version,
//! laid out as a little-endian `u64` and two little-endian `u16`s. A peer
//! whose magic differs, or whose major version differs from ours, is
//! rejected; a peer whose minor version alone differs is accepted.
use vstd::prelude::*;
use vstd::bytes::{
    spec_u16_from_le_bytes, spec_u16_to_le_bytes, spec_u64_from_le_bytes, spec_u64_to_le_bytes,
    u16_from_le_bytes, u16_to_le_bytes, u64_from_le_bytes, u64_to_le_bytes,
    lemma_auto_spec_u16_to_from_le_bytes, lemma_auto_spec_u64_to_from_le_bytes,
};
use vstd::slice::slice_subrange;
use crate::packet::DecodeError;

verus! {

/// The number every filter packet starts with.
pub const MAGIC_BYTES: u64 = 0x87213c5b6657d98a;

/// Major protocol version of this library; peers must match it.
pub const VERSION_MAJOR: u16 = 0;

/// Minor protocol version of this library.
pub const VERSION_MINOR: u16 = 2;

/// Seconds that each direction of the handshake may take.
pub const HANDSHAKE_TIMEOUT_SECS: u64 = 5;

/// Length of an encoded filter packet.
pub const FILTER_PACKET_LEN: usize = 12;

/// Why a connection was rejected during the handshake.
#[derive(Debug)]
pub enum FilterError {
    /// A direction of the handshake took longer than the timeout.
    TimedOut,
    /// The connection failed.
    ConnectionError(quinn::ConnectionError),
    /// Reading the peer's filter stream failed.
    IoError(std::io::Error),
    /// Writing our filter packet failed.
    WriteError(quinn::WriteError),
    /// The peer's filter packet does not decode.
    PacketParseError(DecodeError),
    /// The peer's filter packet has the wrong magic number.
    InvalidPacketMagicBytes,
    /// The peer's major version differs from ours; carries the peer's
    /// `(major, minor)`.
    NotCompatible(u16, u16),
    /// The peer closed without sending a filter packet.
    NoResponse,
}

/// How a peer that passed the filter relates to us.
#[derive(Clone, Copy, Debug, PartialEq, Eq, Structural)]
pub enum Compatibility {
    /// Same major and minor version.
    Exact,
    /// Same major version, different minor version.
    MinorDiffers,
}

/// The contents of a filter packet.
#[derive(Clone, Copy, Debug, PartialEq, Eq, Structural)]
pub struct FilterPacket {
    pub magic_bytes: u64,
    pub major: u16,
    pub minor: u16,
}

/// The wire form of a filter packet.
pub open spec fn filter_wire(p: FilterPacket) -> Seq<u8> {
    spec_u64_to_le_bytes(p.magic_bytes) + spec_u16_to_le_bytes(p.major) + spec_u16_to_le_bytes(
        p.minor,
    )
}

/// Reads a filter packet from the front of `s`.
pub open spec fn filter_parse(s: Seq<u8>) -> Result<FilterPacket, DecodeError> {
    if s.len() < FILTER_PACKET_LEN {
        Err(DecodeError::Truncated)
    } else {
        Ok(
            FilterPacket {
                magic_bytes: spec_u64_from_le_bytes(s.subrange(0, 8)),
                major: spec_u16_from_le_bytes(s.subrange(8, 10)),
                minor: spec_u16_from_le_bytes(s.subrange(10, 12)),
            },
        )
    }
}

/// The filter packet this end sends when its version is `(major, minor)`.
pub open spec fn packet_for(major: u16, minor: u16) -> FilterPacket {
    FilterPacket { magic_bytes: MAGIC_BYTES, major, minor }
}

/// The verdict on the peer's filter frame `s` at an end whose version is
/// `(major, minor)`.
pub open spec fn filter_verdict(s: Seq<u8>, major: u16, minor: u16) -> Result<
    Compatibility,
    FilterError,
> {
    match filter_parse(s) {
        Err(e) => Err(FilterError::PacketParseError(e)),
        Ok(p) => if p.magic_bytes != MAGIC_BYTES {
            Err(FilterError::InvalidPacketMagicBytes)
        } else if p.major != major {
            Err(FilterError::NotCompatible(p.major, p.minor))
        } else if p.minor != minor {
            Ok(Compatibility::MinorDiffers)
        } else {
            Ok(Compatibility::Exact)
        },
    }
}

impl FilterPacket {
    /// The filter packet this library sends.
    pub fn ours() -> (r: Self)
        ensures
            r == packet_for(VERSION_MAJOR, VERSION_MINOR),
    {
        FilterPacket { magic_bytes: MAGIC_BYTES, major: VERSION_MAJOR, minor: VERSION_MINOR }
    }

    /// The wire form of the packet.
    pub fn encode(&self) -> (r: Vec<u8>)
        ensures
            r@ == filter_wire(*self),
    {
        let mut out = u64_to_le_bytes(self.magic_bytes);
        let mut major = u16_to_le_bytes(self.major);
        let mut minor = u16_to_le_bytes(self.minor);
        out.append(&mut major);
        out.append(&mut minor);
        out
    }

    /// Reads a filter packet from the front of `bytes`.
    pub fn decode(bytes: &[u8]) -> (r: Result<FilterPacket, DecodeError>)
        ensures
            r == filter_parse(bytes@),
    {
        if bytes.len() < FILTER_PACKET_LEN {
            return Err(DecodeError::Truncated);
        }
        let magic_bytes = u64_from_le_bytes(slice_subrange(bytes, 0, 8));
        let major = u16_from_le_bytes(slice_subrange(bytes, 8, 10));
        let minor = u16_from_le_bytes(slice_subrange(bytes, 10, 12));
        Ok(FilterPacket { magic_bytes, major, minor })
    }
}

/// Checks the peer's filter frame at an end whose version is
/// `(major, minor)`.
pub fn check_peer(bytes: &[u8], major: u16, minor: u16) -> (r: Result<Compatibility, FilterError>)
    ensures
        r == filter_verdict(bytes@, major, minor),
{
    match FilterPacket::decode(bytes) {
        Err(e) => Err(FilterError::PacketParseError(e)),
        Ok(p) => {
            if p.magic_bytes != MAGIC_BYTES {
                Err(FilterError::InvalidPacketMagicBytes)
            } else if p.major != major {
                Err(FilterError::NotCompatible(p.major, p.minor))
            } else if p.minor != minor {
                Ok(Compatibility::MinorDiffers)
            } else {
                Ok(Compatibility::Exact)
            }
        },
    }
}

/// Checks the peer's filter frame against this library's version.
pub fn check_filter_packet(bytes: &[u8]) -> (r: Result<Compatibility, FilterError>)
    ensures
        r == filter_verdict(bytes@, VERSION_MAJOR, VERSION_MINOR),
{
    check_peer(bytes, VERSION_MAJOR, VERSION_MINOR)
}

/// Whether `e` is the peer's filter packet failing the check: undecodable,
/// wrong magic number, or an incompatible major version.
pub open spec fn is_rejection(e: FilterError) -> bool {
    e is PacketParseError || e is InvalidPacketMagicBytes || e is NotCompatible
}

/// The outcome of a handshake in which sending our packet gave `sent` and
/// checking the peer's gave `received`.
pub open spec fn handshake_outcome(
    sent: Result<(), FilterError>,
    received: Result<Compatibility, FilterError>,
) -> Result<Compatibility, FilterError> {
    if received is Err && is_rejection(received->Err_0) {
        received
    } else if sent is Err {
        Err(sent->Err_0)
    } else {
        received
    }
}

/// Combines the two directions of the handshake: the connection is accepted
/// only when our packet went out and the peer's passed. When the peer's
/// packet failed the check, that rejection is the result whatever became of
/// our own packet; otherwise a failure to send is reported before a failure
/// to receive.
pub fn handshake_result(
    sent: Result<(), FilterError>,
    received: Result<Compatibility, FilterError>,
) -> (r: Result<Compatibility, FilterError>)
    ensures
        r == handshake_outcome(sent, received),
{
    let rejected = match &received {
        Err(FilterError::PacketParseError(_)) => true,
        Err(FilterError::InvalidPacketMagicBytes) => true,
        Err(FilterError::NotCompatible(_, _)) => true,
        _ => false,
    };
    if rejected {
        return received;
    }
    match sent {
        Err(e) => Err(e),
        Ok(()) => received,
    }
}

/// Decoding the encoding of a filter packet gives it back.
pub proof fn lemma_filter_round_trip(p: FilterPacket)
    ensures
        filter_parse(filter_wire(p)) is Ok,
        filter_parse(filter_wire(p))->Ok_0 == p,
{
    lemma_auto_spec_u16_to_from_le_bytes();
    lemma_auto_spec_u64_to_from_le_bytes();
    let s = filter_wire(p);
    assert(s.subrange(0, 8) =~= spec_u64_to_le_bytes(p.magic_bytes));
    assert(s.subrange(8, 10) =~= spec_u16_to_le_bytes(p.major));
    assert(s.subrange(10, 12) =~= spec_u16_to_le_bytes(p.minor));
}

/// The handshake is symmetric: two ends accept each other exactly when their
/// major versions agree, and then both see the same compatibility (exact when
/// the versions are equal, a differing minor otherwise); with differing
/// majors each end rejects the other as not compatible, naming the peer's
/// version, and that rejection is the outcome of the whole handshake
/// whatever became of the end's own packet.
pub proof fn lemma_handshake_symmetric(a_major: u16, a_minor: u16, b_major: u16, b_minor: u16)
    ensures
        filter_verdict(filter_wire(packet_for(a_major, a_minor)), b_major, b_minor) is Ok
            <==> a_major == b_major,
        a_major == b_major ==> filter_verdict(
            filter_wire(packet_for(a_major, a_minor)),
            b_major,
            b_minor,
        ) == filter_verdict(filter_wire(packet_for(b_major, b_minor)), a_major, a_minor),
        a_major == b_major && a_minor == b_minor ==> filter_verdict(
            filter_wire(packet_for(a_major, a_minor)),
            b_major,
            b_minor,
        )->Ok_0 == Compatibility::Exact,
        a_major == b_major && a_minor != b_minor ==> filter_verdict(
            filter_wire(packet_for(a_major, a_minor)),
            b_major,
            b_minor,
        )->Ok_0 == Compatibility::MinorDiffers,
        a_major != b_major ==> filter_verdict(
            filter_wire(packet_for(a_major, a_minor)),
            b_major,
            b_minor,
        )->Err_0 == FilterError::NotCompatible(a_major, a_minor),
        a_major != b_major ==> filter_verdict(
            filter_wire(packet_for(b_major, b_minor)),
            a_major,
            a_minor,
        )->Err_0 == FilterError::NotCompatible(b_major, b_minor),
        a_major != b_major ==> forall|sent: Result<(), FilterError>|
            #[trigger] handshake_outcome(
                sent,
                filter_verdict(filter_wire(packet_for(a_major, a_minor)), b_major, b_minor),
            ) == filter_verdict(filter_wire(packet_for(a_major, a_minor)), b_major, b_minor),
{
    lemma_filter_round_trip(packet_for(a_major, a_minor));
    lemma_filter_round_trip(packet_for(b_major, b_minor));
}

} // verus!

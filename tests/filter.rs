use eznet::filter::{
    check_filter_packet, check_peer, handshake_result, Compatibility, FilterError, FilterPacket,
    MAGIC_BYTES, VERSION_MAJOR, VERSION_MINOR,
};
use eznet::packet::DecodeError;

fn wire(major: u16, minor: u16) -> Vec<u8> {
    FilterPacket { magic_bytes: MAGIC_BYTES, major, minor }.encode()
}

#[test]
fn filter_packet_layout() {
    let bytes = FilterPacket::ours().encode();
    assert_eq!(bytes.len(), 12);
    assert_eq!(&bytes[..8], &[0x8a, 0xd9, 0x57, 0x66, 0x5b, 0x3c, 0x21, 0x87]);
    assert_eq!(&bytes[8..], &[VERSION_MAJOR as u8, 0, VERSION_MINOR as u8, 0]);
    let reference = bincode::serialize(&(MAGIC_BYTES, (3u16, 4u16))).unwrap();
    assert_eq!(wire(3, 4), reference);
    assert_eq!(FilterPacket::decode(&bytes), Ok(FilterPacket::ours()));
}

#[test]
fn identical_versions_accept_each_other() {
    assert!(matches!(check_peer(&wire(1, 3), 1, 3), Ok(Compatibility::Exact)));
    assert!(matches!(check_filter_packet(&FilterPacket::ours().encode()), Ok(Compatibility::Exact)));
}

#[test]
fn differing_minors_accept_both_ways() {
    assert!(matches!(check_peer(&wire(1, 3), 1, 4), Ok(Compatibility::MinorDiffers)));
    assert!(matches!(check_peer(&wire(1, 4), 1, 3), Ok(Compatibility::MinorDiffers)));
}

#[test]
fn differing_majors_reject_both_ways() {
    assert!(matches!(check_peer(&wire(1, 0), 2, 0), Err(FilterError::NotCompatible(1, 0))));
    assert!(matches!(check_peer(&wire(2, 0), 1, 0), Err(FilterError::NotCompatible(2, 0))));
}

#[test]
fn wrong_magic_is_rejected() {
    let bytes = FilterPacket { magic_bytes: 1, major: VERSION_MAJOR, minor: VERSION_MINOR }.encode();
    assert!(matches!(check_filter_packet(&bytes), Err(FilterError::InvalidPacketMagicBytes)));
}

#[test]
fn short_filter_frame_is_a_parse_error() {
    assert!(matches!(
        check_filter_packet(&[1, 2, 3]),
        Err(FilterError::PacketParseError(DecodeError::Truncated))
    ));
    assert_eq!(FilterPacket::decode(&[0; 11]), Err(DecodeError::Truncated));
}

#[test]
fn both_directions_must_pass() {
    assert!(matches!(handshake_result(Ok(()), Ok(Compatibility::Exact)), Ok(Compatibility::Exact)));
    assert!(matches!(
        handshake_result(Err(FilterError::TimedOut), Err(FilterError::NoResponse)),
        Err(FilterError::TimedOut)
    ));
    assert!(matches!(
        handshake_result(Ok(()), Err(FilterError::NoResponse)),
        Err(FilterError::NoResponse)
    ));
}

#[test]
fn peer_rejection_wins_over_a_failed_send() {
    let received = check_peer(&wire(1, 0), 2, 0);
    assert!(matches!(
        handshake_result(Err(FilterError::TimedOut), received),
        Err(FilterError::NotCompatible(1, 0))
    ));
    assert!(matches!(
        handshake_result(Err(FilterError::NoResponse), Err(FilterError::InvalidPacketMagicBytes)),
        Err(FilterError::InvalidPacketMagicBytes)
    ));
    assert!(matches!(
        handshake_result(
            Err(FilterError::TimedOut),
            Err(FilterError::PacketParseError(DecodeError::Truncated))
        ),
        Err(FilterError::PacketParseError(DecodeError::Truncated))
    ));
    assert!(matches!(
        handshake_result(Err(FilterError::TimedOut), Ok(Compatibility::Exact)),
        Err(FilterError::TimedOut)
    ));
}

use eznet::packet::{Packet, PacketHeader};
use eznet::reader::{Intake, Reader};
use eznet::socket::Socket;
use eznet::writer::{DatagramOutcome, SendPlan, Writer};

fn frame_of(plan: SendPlan) -> Vec<u8> {
    match plan {
        SendPlan::Stream { frame, .. } => frame,
        SendPlan::FreshStream { frame } => frame,
        SendPlan::Datagram { bytes } => bytes,
    }
}

fn deliver(reader: &mut Reader, bytes: &[u8]) -> Option<Packet> {
    match reader.handle_packet(bytes) {
        Intake::Deliver(p) => Some(p),
        Intake::Stale | Intake::Skipped => None,
        Intake::Corrupt(e) => panic!("corrupt frame: {:?}", e),
    }
}

#[test]
fn ordered_twenty_thousand_in_order() {
    let mut writer = Writer::new();
    let mut reader = Reader::new();
    let mut seen = Vec::new();
    for i in 0u32..20000 {
        match writer.prepare(Packet::ordered(i.to_be_bytes().to_vec(), 0)) {
            SendPlan::Stream { stream_id, open, frame } => {
                assert_eq!(stream_id, 0);
                assert_eq!(open, i == 0);
                let p = deliver(&mut reader, &frame).unwrap();
                assert_eq!(p.header, PacketHeader::Ordered { stream_id: 0 });
                seen.push(u32::from_be_bytes([p.bytes[0], p.bytes[1], p.bytes[2], p.bytes[3]]));
            }
            _ => panic!("ordered packets go on their stream"),
        }
    }
    assert_eq!(seen, (0u32..20000).collect::<Vec<_>>());
}

#[test]
fn unordered_twenty_thousand_as_a_multiset() {
    let mut writer = Writer::new();
    let mut frames = Vec::new();
    for i in 0u32..20000 {
        match writer.prepare(Packet::unordered(i.to_be_bytes().to_vec())) {
            SendPlan::FreshStream { frame } => frames.push(frame),
            _ => panic!("unordered packets each get a fresh stream"),
        }
    }
    // fresh streams may be accepted in any order
    frames.reverse();
    let mut reader = Reader::new();
    let mut seen: Vec<u32> = frames
        .iter()
        .map(|f| {
            let p = deliver(&mut reader, f).unwrap();
            u32::from_be_bytes([p.bytes[0], p.bytes[1], p.bytes[2], p.bytes[3]])
        })
        .collect();
    seen.sort();
    assert_eq!(seen, (0u32..20000).collect::<Vec<_>>());
}

#[test]
fn unreliable_twenty_thousand_subset() {
    let mut writer = Writer::new();
    let mut datagrams = Vec::new();
    for i in 0u32..20000 {
        match writer.prepare(Packet::unreliable_unordered(i.to_be_bytes().to_vec())) {
            SendPlan::Datagram { bytes } => datagrams.push(bytes),
            _ => panic!("unreliable packets are datagrams"),
        }
    }
    let mut reader = Reader::new();
    let mut seen = Vec::new();
    // the transport loses every third datagram and swaps neighbours
    let mut kept: Vec<&Vec<u8>> = datagrams.iter().enumerate().filter(|(i, _)| i % 3 != 0).map(|(_, d)| d).collect();
    for pair in kept.chunks_mut(2) {
        pair.reverse();
    }
    for d in kept {
        let p = reader.handle_datagram(d).unwrap();
        seen.push(u32::from_be_bytes([p.bytes[0], p.bytes[1], p.bytes[2], p.bytes[3]]));
    }
    assert!(seen.len() <= 20000);
    assert!(seen.iter().all(|&i| i < 20000 && i % 3 != 0));
    assert_eq!(reader.corrupt_datagrams(), 0);
}

#[test]
fn sequenced_ids_are_assigned_per_stream() {
    let mut writer = Writer::new();
    let mut ids = Vec::new();
    for sid in [0u8, 0, 1, 0, 1] {
        let plan = writer.prepare(Packet::sequenced(vec![sid], sid).with_seq_id(999));
        let p = Packet::decode(&frame_of(plan)).unwrap();
        ids.push(p.header);
    }
    assert_eq!(
        ids,
        vec![
            PacketHeader::Sequenced { stream_id: 0, seq_id: 0 },
            PacketHeader::Sequenced { stream_id: 0, seq_id: 1 },
            PacketHeader::Sequenced { stream_id: 1, seq_id: 0 },
            PacketHeader::Sequenced { stream_id: 0, seq_id: 2 },
            PacketHeader::Sequenced { stream_id: 1, seq_id: 1 },
        ]
    );
}

#[test]
fn ordered_and_sequenced_share_the_stream_counter() {
    let mut writer = Writer::new();
    let first = writer.prepare(Packet::ordered(vec![1], 5));
    assert!(matches!(first, SendPlan::Stream { stream_id: 5, open: true, .. }));
    let second = writer.prepare(Packet::sequenced(vec![2], 5));
    match second {
        SendPlan::Stream { stream_id: 5, open: false, frame } => {
            let p = Packet::decode(&frame).unwrap();
            assert_eq!(p.header, PacketHeader::Sequenced { stream_id: 5, seq_id: 1 });
        }
        _ => panic!("sequenced packets reuse the stream"),
    }
}

#[test]
fn unreliable_sequenced_opens_no_stream() {
    let mut writer = Writer::new();
    let a = writer.prepare(Packet::unreliable_sequenced(vec![1], 2));
    let b = writer.prepare(Packet::unreliable_sequenced(vec![2], 2));
    let ha = Packet::decode(&frame_of(a)).unwrap().header;
    let hb = Packet::decode(&frame_of(b)).unwrap().header;
    assert_eq!(ha, PacketHeader::UnreliableSequenced { stream_id: 2, seq_id: 0 });
    assert_eq!(hb, PacketHeader::UnreliableSequenced { stream_id: 2, seq_id: 1 });
    // the reliable stream for id 2 is still to be opened
    let c = writer.prepare(Packet::ordered(vec![3], 2));
    assert!(matches!(c, SendPlan::Stream { stream_id: 2, open: true, .. }));
    assert_eq!(writer.take_dirty(), vec![2]);
}

#[test]
fn flush_list_holds_each_fed_stream_once() {
    let mut writer = Writer::new();
    for sid in [3u8, 1, 3, 3, 1] {
        writer.prepare(Packet::ordered(vec![0], sid));
    }
    writer.prepare(Packet::unordered(vec![0]));
    let mut dirty = writer.take_dirty();
    dirty.sort();
    assert_eq!(dirty, vec![1, 3]);
    assert!(writer.take_dirty().is_empty());
}

#[test]
fn failed_stream_is_opened_again() {
    let mut writer = Writer::new();
    writer.prepare(Packet::ordered(vec![0], 8));
    writer.prepare(Packet::ordered(vec![0], 8));
    writer.stream_failed(8);
    match writer.prepare(Packet::sequenced(vec![0], 8)) {
        SendPlan::Stream { open, frame, .. } => {
            assert!(open);
            let p = Packet::decode(&frame).unwrap();
            assert_eq!(p.header, PacketHeader::Sequenced { stream_id: 8, seq_id: 0 });
        }
        _ => panic!("sequenced packets go on their stream"),
    }
}

#[test]
fn oversized_datagram_is_dropped_and_counted() {
    let mut writer = Writer::new();
    assert!(!writer.datagram_sent(DatagramOutcome::Sent));
    assert_eq!(writer.dropped_datagrams(), 0);
    assert!(!writer.datagram_sent(DatagramOutcome::TooLarge));
    assert!(!writer.datagram_sent(DatagramOutcome::TooLarge));
    assert_eq!(writer.dropped_datagrams(), 2);
    assert!(writer.datagram_sent(DatagramOutcome::Refused));
    assert_eq!(writer.dropped_datagrams(), 2);
}

#[test]
fn sequenced_arrivals_come_out_increasing() {
    let mut writer = Writer::new();
    let frames: Vec<Vec<u8>> = (0..10)
        .map(|i| frame_of(writer.prepare(Packet::unreliable_sequenced(vec![i], 0))))
        .collect();
    let order = [0usize, 2, 1, 3, 3, 7, 5, 6, 9, 8];
    let mut reader = Reader::new();
    let mut ids = Vec::new();
    for &i in order.iter() {
        if let Some(p) = reader.handle_datagram(&frames[i]) {
            match p.header {
                PacketHeader::UnreliableSequenced { seq_id, .. } => ids.push(seq_id),
                _ => panic!("header kept"),
            }
        }
    }
    assert_eq!(ids, vec![0, 2, 3, 7, 9]);
    assert_eq!(reader.stale_dropped(), 5);
}

#[test]
fn reliable_and_unreliable_sequences_are_apart() {
    let mut reader = Reader::new();
    let a = Packet::sequenced(vec![], 0).with_seq_id(100).encode();
    let b = Packet::unreliable_sequenced(vec![], 0).with_seq_id(5).encode();
    assert!(matches!(reader.handle_packet(&a), Intake::Deliver(_)));
    assert!(matches!(reader.handle_packet(&b), Intake::Deliver(_)));
    assert!(matches!(reader.handle_packet(&a), Intake::Stale));
}

#[test]
fn corrupt_input_is_reported_and_counted() {
    let mut reader = Reader::new();
    assert!(matches!(reader.handle_packet(&[7, 0, 0, 0]), Intake::Corrupt(_)));
    assert_eq!(reader.corrupt_datagrams(), 0);
    assert!(reader.handle_datagram(&[1, 0]).is_none());
    assert_eq!(reader.corrupt_datagrams(), 1);
    let good = Packet::unreliable_unordered(vec![1]).encode();
    assert_eq!(reader.handle_datagram(&good), Some(Packet::unreliable_unordered(vec![1])));
}

#[test]
fn split_then_reunite_behaves_as_never_split() {
    let (mut w1, r1) = Socket::new().split();
    let (mut w2, r2) = Socket::new().split();
    w1.prepare(Packet::sequenced(vec![1], 0));
    w2.prepare(Packet::sequenced(vec![1], 0));
    let (mut w1, mut r1) = Socket::reunite(w1, r1).split();
    let (mut w2b, mut r2b) = Writer::reunite(w2, r2).split();
    let f1 = frame_of(w1.prepare(Packet::sequenced(vec![2], 0)));
    let f2 = frame_of(w2b.prepare(Packet::sequenced(vec![2], 0)));
    assert_eq!(f1, f2);
    let d1 = deliver(&mut r1, &f1);
    let d2 = deliver(&mut r2b, &f2);
    assert_eq!(d1, d2);
    let _ = Reader::reunite(w1, r1);
}

#[test]
fn corrupt_frame_abandons_only_its_stream() {
    let mut reader = Reader::new();
    let good = Packet::ordered(vec![4], 0).encode();
    assert!(matches!(reader.handle_frame(1, &good), Intake::Deliver(_)));
    assert!(matches!(reader.handle_frame(1, &[200, 0, 0, 0]), Intake::Corrupt(_)));
    assert!(reader.is_abandoned(1));
    assert!(matches!(reader.handle_frame(1, &good), Intake::Skipped));
    assert!(matches!(reader.handle_frame(2, &good), Intake::Deliver(_)));
    reader.stream_failed(2);
    assert!(matches!(reader.handle_frame(2, &good), Intake::Skipped));
    assert!(!reader.is_abandoned(3));
}

//! The reader's intake rules: what becomes of each encoded packet that
//! arrives, on a stream or as a datagram.
//!
//! A packet that decodes is delivered unless it is a sequenced packet older
//! than one already delivered on its stream id (see `sequence`). Reliable and
//! unreliable sequenced packets are tracked in separate tables. A stale
//! packet is dropped and counted. A datagram that does not decode is dropped
//! and counted; a stream frame that does not decode ends that stream.
use vstd::prelude::*;
use crate::packet::{DecodeError, Packet, PacketHeader, wire_parse};
use crate::seq_table::{SeqTable, table_contents};
use crate::sequence::{drop_sequenced_common, gate_accepts, gate_after, new_seq_table};

verus! {

/// What became of one arriving encoded packet.
#[derive(Debug)]
pub enum Intake {
    /// The packet is new: hand it to the application.
    Deliver(Packet),
    /// A sequenced packet older than one already delivered: dropped.
    Stale,
    /// The bytes do not hold a packet.
    Corrupt(DecodeError),
    /// A frame of a stream already abandoned: ignored.
    Skipped,
}

/// An intake verdict as a mathematical value.
pub ghost enum IntakeView {
    Deliver(PacketHeader, Seq<u8>),
    Stale,
    Corrupt(DecodeError),
    Skipped,
}

impl View for Intake {
    type V = IntakeView;

    open spec fn view(&self) -> IntakeView {
        match self {
            Intake::Deliver(p) => IntakeView::Deliver(p.header, p.bytes@),
            Intake::Stale => IntakeView::Stale,
            Intake::Corrupt(e) => IntakeView::Corrupt(*e),
            Intake::Skipped => IntakeView::Skipped,
        }
    }
}

/// The reader's state for one connection.
#[derive(Debug)]
pub struct Reader {
    reliable: SeqTable,
    unreliable: SeqTable,
    abandoned: Vec<u64>,
    stale_dropped: u64,
    corrupt_datagrams: u64,
}

/// The reader's state as a mathematical value.
pub ghost struct ReaderView {
    /// Id expected next on each stream id, reliable sequenced packets.
    pub reliable: Map<u8, u16>,
    /// Id expected next on each stream id, unreliable sequenced packets.
    pub unreliable: Map<u8, u16>,
    /// Inbound streams given up on, by the number the transport side gave
    /// each.
    pub abandoned: Set<u64>,
    /// Stale packets dropped.
    pub stale_dropped: nat,
    /// Datagrams dropped because they did not decode.
    pub corrupt_datagrams: nat,
}

impl View for Reader {
    type V = ReaderView;

    closed spec fn view(&self) -> ReaderView {
        ReaderView {
            reliable: table_contents(self.reliable),
            unreliable: table_contents(self.unreliable),
            abandoned: self.abandoned@.to_set(),
            stale_dropped: self.stale_dropped as nat,
            corrupt_datagrams: self.corrupt_datagrams as nat,
        }
    }
}

/// Adds one to a counter that stops at `u64::MAX`.
pub open spec fn bump(n: nat) -> nat {
    if n < u64::MAX {
        n + 1
    } else {
        n
    }
}

/// Whether a packet with header `h` passes the stale-drop rule.
pub open spec fn passes(v: ReaderView, h: PacketHeader) -> bool {
    match h {
        PacketHeader::Sequenced { stream_id, seq_id } => gate_accepts(v.reliable, stream_id, seq_id),
        PacketHeader::UnreliableSequenced { stream_id, seq_id } => gate_accepts(
            v.unreliable,
            stream_id,
            seq_id,
        ),
        _ => true,
    }
}

/// The tables after a packet with header `h` went through the stale-drop
/// rule.
pub open spec fn after_passing(v: ReaderView, h: PacketHeader) -> ReaderView {
    match h {
        PacketHeader::Sequenced { stream_id, seq_id } => ReaderView {
            reliable: gate_after(v.reliable, stream_id, seq_id),
            ..v
        },
        PacketHeader::UnreliableSequenced { stream_id, seq_id } => ReaderView {
            unreliable: gate_after(v.unreliable, stream_id, seq_id),
            ..v
        },
        _ => v,
    }
}

/// The verdict on encoded packet `s`.
pub open spec fn intake_of(v: ReaderView, s: Seq<u8>) -> IntakeView {
    match wire_parse(s) {
        Err(e) => IntakeView::Corrupt(e),
        Ok((h, b)) => if passes(v, h) {
            IntakeView::Deliver(h, b)
        } else {
            IntakeView::Stale
        },
    }
}

/// The reader's state after encoded packet `s` arrived.
pub open spec fn intake_state(v: ReaderView, s: Seq<u8>) -> ReaderView {
    match wire_parse(s) {
        Err(_) => v,
        Ok((h, b)) => {
            let v2 = after_passing(v, h);
            if passes(v, h) {
                v2
            } else {
                ReaderView { stale_dropped: bump(v.stale_dropped), ..v2 }
            }
        },
    }
}

/// The reader's state after datagram `s` arrived.
pub open spec fn datagram_state(v: ReaderView, s: Seq<u8>) -> ReaderView {
    match wire_parse(s) {
        Err(_) => ReaderView { corrupt_datagrams: bump(v.corrupt_datagrams), ..v },
        Ok(_) => intake_state(v, s),
    }
}

impl Reader {
    /// A reader that expects id 0 on every stream id.
    pub fn new() -> (r: Self)
        ensures
            r@.reliable =~= Map::empty(),
            r@.unreliable =~= Map::empty(),
            r@.abandoned =~= Set::empty(),
            r@.stale_dropped == 0,
            r@.corrupt_datagrams == 0,
    {
        let r = Reader {
            reliable: new_seq_table(),
            unreliable: new_seq_table(),
            abandoned: Vec::new(),
            stale_dropped: 0,
            corrupt_datagrams: 0,
        };
        assert(r.abandoned@.to_set() =~= Set::empty());
        r
    }

    /// The stale-drop step on one table: true when `seq_id` is new on
    /// `stream_id`, which then expects `seq_id + 1`.
    pub fn seq_id_should_drop(stream_id: u8, seq_id: u16, seq: &mut SeqTable) -> (accepted: bool)
        ensures
            accepted == gate_accepts(table_contents(*old(seq)), stream_id, seq_id),
            table_contents(*final(seq)) == gate_after(
                table_contents(*old(seq)),
                stream_id,
                seq_id,
            ),
    {
        drop_sequenced_common(stream_id, seq_id, seq)
    }

    /// Applies the stale-drop rule: the packet back when it is to be
    /// delivered, `None` when it is stale.
    pub fn drop_sequenced(&mut self, packet: Packet) -> (r: Option<Packet>)
        ensures
            r is Some <==> passes(old(self)@, packet.header),
            r is Some ==> r->Some_0 == packet,
            final(self)@ == after_passing(old(self)@, packet.header),
    {
        let keep = match packet.header {
            PacketHeader::Sequenced { stream_id, seq_id } => drop_sequenced_common(
                stream_id,
                seq_id,
                &mut self.reliable,
            ),
            PacketHeader::UnreliableSequenced { stream_id, seq_id } => drop_sequenced_common(
                stream_id,
                seq_id,
                &mut self.unreliable,
            ),
            _ => true,
        };
        if keep {
            Some(packet)
        } else {
            None
        }
    }

    /// The verdict on one encoded packet that arrived on a stream. A
    /// `Corrupt` verdict ends that stream.
    pub fn handle_packet(&mut self, bytes: &[u8]) -> (r: Intake)
        ensures
            r@ == intake_of(old(self)@, bytes@),
            final(self)@ == intake_state(old(self)@, bytes@),
    {
        match Packet::decode(bytes) {
            Err(e) => Intake::Corrupt(e),
            Ok(packet) => match self.drop_sequenced(packet) {
                Some(p) => Intake::Deliver(p),
                None => {
                    self.stale_dropped = self.stale_dropped.saturating_add(1);
                    Intake::Stale
                },
            },
        }
    }

    /// The packet to deliver from one datagram, if any. A datagram that does
    /// not decode is dropped and counted.
    pub fn handle_datagram(&mut self, bytes: &[u8]) -> (r: Option<Packet>)
        ensures
            r is Some <==> intake_of(old(self)@, bytes@) is Deliver,
            r is Some ==> intake_of(old(self)@, bytes@) == IntakeView::Deliver(
                r->Some_0.header,
                r->Some_0.bytes@,
            ),
            final(self)@ == datagram_state(old(self)@, bytes@),
    {
        match self.handle_packet(bytes) {
            Intake::Deliver(p) => Some(p),
            Intake::Stale | Intake::Skipped => None,
            Intake::Corrupt(_) => {
                self.corrupt_datagrams = self.corrupt_datagrams.saturating_add(1);
                None
            },
        }
    }

    /// Whether inbound stream `stream` was given up on.
    pub fn is_abandoned(&self, stream: u64) -> (r: bool)
        ensures
            r == self@.abandoned.contains(stream),
    {
        let mut i: usize = 0;
        while i < self.abandoned.len()
            invariant
                i <= self.abandoned@.len(),
                forall|j: int| 0 <= j < i ==> self.abandoned@[j] != stream,
            decreases self.abandoned@.len() - i,
        {
            if self.abandoned[i] == stream {
                assert(self.abandoned@.to_set().contains(stream));
                return true;
            }
            i = i + 1;
        }
        assert(!self.abandoned@.contains(stream));
        false
    }

    /// Gives up on inbound stream `stream`: its later frames are skipped.
    pub fn stream_failed(&mut self, stream: u64)
        ensures
            final(self)@ == (ReaderView {
                abandoned: old(self)@.abandoned.insert(stream),
                ..old(self)@
            }),
    {
        let ghost before = self.abandoned@;
        self.abandoned.push(stream);
        proof {
            before.lemma_push_to_set_commute(stream);
        }
    }

    /// The verdict on one frame of inbound stream `stream`. Frames of an
    /// abandoned stream are skipped; a frame that does not decode abandons
    /// its stream.
    pub fn handle_frame(&mut self, stream: u64, bytes: &[u8]) -> (r: Intake)
        ensures
            old(self)@.abandoned.contains(stream) ==> r is Skipped && final(self)@ == old(self)@,
            !old(self)@.abandoned.contains(stream) ==> r@ == intake_of(old(self)@, bytes@),
            !old(self)@.abandoned.contains(stream) && !(r is Corrupt) ==> final(self)@
                == intake_state(old(self)@, bytes@),
            !old(self)@.abandoned.contains(stream) && r is Corrupt ==> final(self)@ == (ReaderView {
                abandoned: old(self)@.abandoned.insert(stream),
                ..old(self)@
            }),
    {
        if self.is_abandoned(stream) {
            return Intake::Skipped;
        }
        let r = self.handle_packet(bytes);
        if let Intake::Corrupt(_) = r {
            self.stream_failed(stream);
        }
        r
    }

    /// How many stale packets were dropped.
    pub fn stale_dropped(&self) -> (r: u64)
        ensures
            r as nat == self@.stale_dropped,
    {
        self.stale_dropped
    }

    /// How many datagrams were dropped because they did not decode.
    pub fn corrupt_datagrams(&self) -> (r: u64)
        ensures
            r as nat == self@.corrupt_datagrams,
    {
        self.corrupt_datagrams
    }
}

} // verus!

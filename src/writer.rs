//! The writer's dispatch rules: which sub-transport carries a packet, which
//! sequence id it gets, and what happens to a datagram the transport refuses.
//!
//! Reliable ordered and sequenced packets share one long-lived outbound
//! stream per stream id, opened on first use; each packet sent on it takes
//! the stream's next sequence id. A reliable unordered packet goes on a fresh
//! stream of its own. Unreliable packets go out as single datagrams; the
//! unreliable sequenced ones take the next id of a per-stream-id counter that
//! opens no stream.
use vstd::prelude::*;
use crate::packet::{Packet, PacketHeader, header_with_seq, packet_wire};
use crate::seq_table::{SeqTable, table_contents, table_get, table_insert, table_remove};
use crate::sequence::{expected_of, new_seq_table, seq_next};

verus! {

/// What the transport must do to send one packet.
#[derive(Debug)]
pub enum SendPlan {
    /// Feed `frame` into the outbound stream kept for `stream_id`, opening
    /// that stream first when `open` is set.
    Stream { stream_id: u8, open: bool, frame: Vec<u8> },
    /// Open a fresh unidirectional stream, send `frame` on it and finish it.
    FreshStream { frame: Vec<u8> },
    /// Send `bytes` as one datagram.
    Datagram { bytes: Vec<u8> },
}

/// A send plan as a mathematical value.
pub ghost enum PlanView {
    Stream { stream_id: u8, open: bool, frame: Seq<u8> },
    FreshStream { frame: Seq<u8> },
    Datagram { bytes: Seq<u8> },
}

impl View for SendPlan {
    type V = PlanView;

    open spec fn view(&self) -> PlanView {
        match self {
            SendPlan::Stream { stream_id, open, frame } => PlanView::Stream {
                stream_id: *stream_id,
                open: *open,
                frame: frame@,
            },
            SendPlan::FreshStream { frame } => PlanView::FreshStream { frame: frame@ },
            SendPlan::Datagram { bytes } => PlanView::Datagram { bytes: bytes@ },
        }
    }
}

/// How the transport took a datagram.
#[derive(Clone, Copy, Debug, PartialEq, Eq, Structural)]
pub enum DatagramOutcome {
    /// Handed to the transport.
    Sent,
    /// Larger than the transport can carry at present.
    TooLarge,
    /// Refused for another reason: datagrams unsupported or disabled, or the
    /// connection is gone.
    Refused,
}

/// The writer's state for one connection.
#[derive(Debug)]
pub struct Writer {
    streams: SeqTable,
    datagram_seq: SeqTable,
    dirty: Vec<u8>,
    dropped_datagrams: u64,
}

/// The writer's state as a mathematical value.
pub ghost struct WriterView {
    /// Stream ids with an open outbound stream, each with its next sequence id.
    pub streams: Map<u8, u16>,
    /// Next sequence id of unreliable sequenced packets, per stream id.
    pub datagram_seq: Map<u8, u16>,
    /// Stream ids fed since the last flush.
    pub dirty: Set<u8>,
    /// Datagrams dropped for being too large.
    pub dropped_datagrams: nat,
}

impl View for Writer {
    type V = WriterView;

    closed spec fn view(&self) -> WriterView {
        WriterView {
            streams: table_contents(self.streams),
            datagram_seq: table_contents(self.datagram_seq),
            dirty: self.dirty@.to_set(),
            dropped_datagrams: self.dropped_datagrams as nat,
        }
    }
}

/// The plan for a packet with header `h` and payload `b`.
pub open spec fn planned(v: WriterView, h: PacketHeader, b: Seq<u8>) -> PlanView {
    match h {
        PacketHeader::Ordered { stream_id } | PacketHeader::Sequenced { stream_id, .. } => {
            PlanView::Stream {
                stream_id,
                open: !v.streams.contains_key(stream_id),
                frame: packet_wire(header_with_seq(h, expected_of(v.streams, stream_id)), b),
            }
        },
        PacketHeader::Unordered => PlanView::FreshStream { frame: packet_wire(h, b) },
        PacketHeader::UnreliableSequenced { stream_id, .. } => PlanView::Datagram {
            bytes: packet_wire(header_with_seq(h, expected_of(v.datagram_seq, stream_id)), b),
        },
        PacketHeader::UnreliableUnordered => PlanView::Datagram { bytes: packet_wire(h, b) },
    }
}

/// The writer's state after planning a packet with header `h`.
pub open spec fn planned_state(v: WriterView, h: PacketHeader) -> WriterView {
    match h {
        PacketHeader::Ordered { stream_id } | PacketHeader::Sequenced { stream_id, .. } => {
            WriterView {
                streams: v.streams.insert(stream_id, seq_next(expected_of(v.streams, stream_id))),
                dirty: v.dirty.insert(stream_id),
                ..v
            }
        },
        PacketHeader::UnreliableSequenced { stream_id, .. } => WriterView {
            datagram_seq: v.datagram_seq.insert(
                stream_id,
                seq_next(expected_of(v.datagram_seq, stream_id)),
            ),
            ..v
        },
        _ => v,
    }
}

impl Writer {
    /// The writer's own consistency: no stream id is listed twice among
    /// those awaiting a flush.
    pub closed spec fn wf(&self) -> bool {
        self.dirty@.no_duplicates()
    }

    /// A writer with no stream open and every counter at 0.
    pub fn new() -> (r: Self)
        ensures
            r.wf(),
            r@.streams =~= Map::empty(),
            r@.datagram_seq =~= Map::empty(),
            r@.dirty =~= Set::empty(),
            r@.dropped_datagrams == 0,
    {
        let r = Writer {
            streams: new_seq_table(),
            datagram_seq: new_seq_table(),
            dirty: Vec::new(),
            dropped_datagrams: 0,
        };
        assert(r.dirty@.to_set() =~= Set::empty());
        r
    }

    /// Records that the stream of `stream_id` holds data not yet flushed.
    fn mark_dirty(&mut self, stream_id: u8)
        requires
            old(self).wf(),
        ensures
            final(self).wf(),
            final(self)@ == (WriterView { dirty: old(self)@.dirty.insert(stream_id), ..old(self)@ }),
    {
        let mut i: usize = 0;
        while i < self.dirty.len()
            invariant
                *self == *old(self),
                old(self).wf(),
                i <= self.dirty@.len(),
                forall|j: int| 0 <= j < i ==> self.dirty@[j] != stream_id,
            decreases self.dirty@.len() - i,
        {
            if self.dirty[i] == stream_id {
                assert(self.dirty@.to_set().contains(stream_id));
                assert(self.dirty@.to_set().insert(stream_id) =~= self.dirty@.to_set());
                return;
            }
            i = i + 1;
        }
        let ghost before = self.dirty@;
        self.dirty.push(stream_id);
        assert(self.dirty@ == before.push(stream_id));
        proof {
            before.lemma_push_to_set_commute(stream_id);
        }
    }

    /// The stream ids to flush, each once; afterwards none awaits a flush.
    pub fn take_dirty(&mut self) -> (r: Vec<u8>)
        requires
            old(self).wf(),
        ensures
            final(self).wf(),
            r@.no_duplicates(),
            r@.to_set() == old(self)@.dirty,
            final(self)@ == (WriterView { dirty: Set::empty(), ..old(self)@ }),
    {
        let ghost before = self.dirty@;
        let r = self.dirty.split_off(0);
        assert(r@ =~= before);
        assert(self.dirty@.to_set() =~= Set::empty());
        r
    }

    /// Decides how `packet` is sent: assigns its sequence id where its mode
    /// has one, encodes it, and says which sub-transport carries it.
    pub fn prepare(&mut self, packet: Packet) -> (plan: SendPlan)
        requires
            old(self).wf(),
        ensures
            final(self).wf(),
            plan@ == planned(old(self)@, packet.header, packet.bytes@),
            final(self)@ == planned_state(old(self)@, packet.header),
    {
        match packet.header {
            PacketHeader::Ordered { stream_id } | PacketHeader::Sequenced { stream_id, .. } => {
                let (open, seq_id) = match table_get(&self.streams, stream_id) {
                    Some(n) => (false, n),
                    None => (true, 0u16),
                };
                table_insert(&mut self.streams, stream_id, seq_id.wrapping_add(1));
                self.mark_dirty(stream_id);
                let frame = packet.with_seq_id(seq_id).encode();
                SendPlan::Stream { stream_id, open, frame }
            },
            PacketHeader::Unordered => SendPlan::FreshStream { frame: packet.encode() },
            PacketHeader::UnreliableSequenced { stream_id, .. } => {
                let seq_id = match table_get(&self.datagram_seq, stream_id) {
                    Some(n) => n,
                    None => 0u16,
                };
                table_insert(&mut self.datagram_seq, stream_id, seq_id.wrapping_add(1));
                SendPlan::Datagram { bytes: packet.with_seq_id(seq_id).encode() }
            },
            PacketHeader::UnreliableUnordered => SendPlan::Datagram { bytes: packet.encode() },
        }
    }

    /// Forgets the outbound stream of `stream_id` after it failed; the next
    /// packet on that id opens a new one, with ids starting again at 0.
    pub fn stream_failed(&mut self, stream_id: u8)
        requires
            old(self).wf(),
        ensures
            final(self).wf(),
            final(self)@ == (WriterView {
                streams: old(self)@.streams.remove(stream_id),
                ..old(self)@
            }),
    {
        table_remove(&mut self.streams, stream_id);
    }

    /// Records how the transport took a datagram and says whether the send
    /// failed. A datagram too large for the transport is dropped and counted,
    /// and the send still succeeds; any other refusal fails it.
    pub fn datagram_sent(&mut self, outcome: DatagramOutcome) -> (failed: bool)
        requires
            old(self).wf(),
        ensures
            final(self).wf(),
            final(self)@.dirty == old(self)@.dirty,
            failed == (outcome == DatagramOutcome::Refused),
            final(self)@.streams == old(self)@.streams,
            final(self)@.datagram_seq == old(self)@.datagram_seq,
            final(self)@.dropped_datagrams == if outcome == DatagramOutcome::TooLarge {
                if old(self)@.dropped_datagrams < u64::MAX {
                    old(self)@.dropped_datagrams + 1
                } else {
                    old(self)@.dropped_datagrams
                }
            } else {
                old(self)@.dropped_datagrams
            },
    {
        match outcome {
            DatagramOutcome::Sent => false,
            DatagramOutcome::TooLarge => {
                self.dropped_datagrams = self.dropped_datagrams.saturating_add(1);
                false
            },
            DatagramOutcome::Refused => true,
        }
    }

    /// How many datagrams were dropped for being too large.
    pub fn dropped_datagrams(&self) -> (r: u64)
        ensures
            r as nat == self@.dropped_datagrams,
    {
        self.dropped_datagrams
    }
}

} // verus!

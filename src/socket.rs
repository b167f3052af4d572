//! The protocol state of one connection: a writer half and a reader half,
//! which can be split apart and put back together.
use vstd::prelude::*;
use crate::packet::PacketHeader;
use crate::reader::{Reader, ReaderView, intake_of, intake_state};
use crate::writer::{Writer, WriterView, planned, planned_state};

verus! {

/// Writer and reader state of one connection.
#[derive(Debug)]
pub struct Socket {
    writer: Writer,
    reader: Reader,
}

/// The state of a connection as a mathematical value.
pub ghost struct SocketView {
    pub writer: WriterView,
    pub reader: ReaderView,
}

impl View for Socket {
    type V = SocketView;

    closed spec fn view(&self) -> SocketView {
        SocketView { writer: self.writer@, reader: self.reader@ }
    }
}

impl Socket {
    /// The halves' own consistency.
    pub closed spec fn wf(&self) -> bool {
        self.writer.wf()
    }

    /// The state of a connection that has just passed the handshake.
    pub fn new() -> (r: Self)
        ensures
            r.wf(),
            r@.writer.dirty =~= Set::empty(),
            r@.writer.streams =~= Map::empty(),
            r@.writer.datagram_seq =~= Map::empty(),
            r@.writer.dropped_datagrams == 0,
            r@.reader.reliable =~= Map::empty(),
            r@.reader.unreliable =~= Map::empty(),
            r@.reader.abandoned =~= Set::empty(),
            r@.reader.stale_dropped == 0,
            r@.reader.corrupt_datagrams == 0,
    {
        Socket { writer: Writer::new(), reader: Reader::new() }
    }

    /// Splits the state into its writer and reader halves.
    pub fn split(self) -> (r: (Writer, Reader))
        requires
            self.wf(),
        ensures
            r.0.wf(),
            r.0@ == self@.writer,
            r.1@ == self@.reader,
    {
        (self.writer, self.reader)
    }

    /// Puts the two halves back together.
    pub fn reunite(writer: Writer, reader: Reader) -> (r: Self)
        requires
            writer.wf(),
        ensures
            r.wf(),
            r@ == (SocketView { writer: writer@, reader: reader@ }),
    {
        Socket { writer, reader }
    }
}

impl Writer {
    /// Puts the two halves back together.
    pub fn reunite(writer: Writer, reader: Reader) -> (r: Socket)
        requires
            writer.wf(),
        ensures
            r.wf(),
            r@ == (SocketView { writer: writer@, reader: reader@ }),
    {
        Socket::reunite(writer, reader)
    }
}

impl Reader {
    /// Puts the two halves back together.
    pub fn reunite(writer: Writer, reader: Reader) -> (r: Socket)
        requires
            writer.wf(),
        ensures
            r.wf(),
            r@ == (SocketView { writer: writer@, reader: reader@ }),
    {
        Socket::reunite(writer, reader)
    }
}

/// Splitting a connection's state and reuniting the halves gives back the
/// same state, so every later send plan and every later intake verdict is
/// the one the connection would have given had it never been split.
pub proof fn lemma_split_reunite(s: SocketView, w: WriterView, r: ReaderView)
    requires
        w == s.writer,
        r == s.reader,
    ensures
        (SocketView { writer: w, reader: r }) == s,
        forall|h: PacketHeader, b: Seq<u8>| #[trigger]
            planned(w, h, b) == planned(s.writer, h, b) && planned_state(w, h) == planned_state(
                s.writer,
                h,
            ),
        forall|bytes: Seq<u8>| #[trigger]
            intake_of(r, bytes) == intake_of(s.reader, bytes) && intake_state(r, bytes)
                == intake_state(s.reader, bytes),
{
}

} // verus!

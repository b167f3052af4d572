//! The stale-drop rule for sequenced packets.
//!
//! Sequence ids are 16-bit and wrap. The receiver keeps, per stream id, the
//! id it expects next (`r`, initially 0). An arriving id `s` is accepted when
//! `(s - r) mod 2^16 < 2^15`; the expected id then becomes `s + 1 (mod 2^16)`.
//! Otherwise the packet is older than one already delivered and is dropped.
use vstd::prelude::*;
use crate::seq_table::{SeqTable, table_contents, table_get, table_insert, table_new};

verus! {

/// Number of distinct sequence ids.
pub const SEQ_SPACE: u32 = 65536;

/// Half of the sequence space: the window of ids counted as newer.
pub const SEQ_HALF: u16 = 32768;

/// `(s - r) mod 2^16`: how far `s` lies ahead of `r`.
pub open spec fn seq_distance(r: u16, s: u16) -> int {
    (s as int - r as int) % (SEQ_SPACE as int)
}

/// Whether `s` counts as new when `r` is the id expected next.
pub open spec fn seq_is_newer(r: u16, s: u16) -> bool {
    seq_distance(r, s) < SEQ_HALF as int
}

/// The id after `s`, wrapping at 2^16.
pub open spec fn seq_next(s: u16) -> u16 {
    ((s as int + 1) % (SEQ_SPACE as int)) as u16
}

/// The acceptance test: whether an arriving `seq_id` is new when `last` is
/// the id expected next.
pub fn seq_id_is_newer(last: u16, seq_id: u16) -> (r: bool)
    ensures
        r == seq_is_newer(last, seq_id),
{
    seq_id.wrapping_sub(last) < SEQ_HALF
}

/// The id expected next on `stream_id`: 0 until one was accepted there.
pub open spec fn expected_of(t: Map<u8, u16>, stream_id: u8) -> u16 {
    if t.contains_key(stream_id) {
        t[stream_id]
    } else {
        0
    }
}

/// Whether the table accepts `seq_id` on `stream_id`.
pub open spec fn gate_accepts(t: Map<u8, u16>, stream_id: u8, seq_id: u16) -> bool {
    seq_is_newer(expected_of(t, stream_id), seq_id)
}

/// The table after `seq_id` arrived on `stream_id`.
pub open spec fn gate_after(t: Map<u8, u16>, stream_id: u8, seq_id: u16) -> Map<u8, u16> {
    if gate_accepts(t, stream_id, seq_id) {
        t.insert(stream_id, seq_next(seq_id))
    } else {
        t
    }
}

/// The ids of a run of arrivals on `stream_id` that the table lets through,
/// in order.
pub open spec fn gate_passed(t: Map<u8, u16>, stream_id: u8, ids: Seq<u16>) -> Seq<u16>
    decreases ids.len(),
{
    if ids.len() == 0 {
        Seq::empty()
    } else {
        let rest = gate_passed(gate_after(t, stream_id, ids[0]), stream_id, ids.drop_first());
        if gate_accepts(t, stream_id, ids[0]) {
            seq![ids[0]].add(rest)
        } else {
            rest
        }
    }
}

/// Wrap-safe order on sequence ids: `b` comes after `a` when it lies 1 to
/// 2^15 steps ahead of it.
pub open spec fn seq_later(a: u16, b: u16) -> bool {
    1 <= seq_distance(a, b) && seq_distance(a, b) <= SEQ_HALF as int
}

/// The stale-drop step: decides whether `seq_id` on `stream_id` is new,
/// and if it is, records `seq_id + 1` as the id expected next there.
/// Returns true for a packet to deliver, false for a stale one.
pub fn drop_sequenced_common(stream_id: u8, seq_id: u16, seq: &mut SeqTable) -> (accepted: bool)
    ensures
        accepted == gate_accepts(table_contents(*old(seq)), stream_id, seq_id),
        table_contents(*final(seq)) == gate_after(table_contents(*old(seq)), stream_id, seq_id),
{
    let last = match table_get(seq, stream_id) {
        Some(v) => v,
        None => 0,
    };
    if seq_id_is_newer(last, seq_id) {
        table_insert(seq, stream_id, seq_id.wrapping_add(1));
        true
    } else {
        false
    }
}

/// An empty table: every stream expects id 0.
pub fn new_seq_table() -> (r: SeqTable)
    ensures
        table_contents(r) =~= Map::empty(),
{
    table_new()
}

/// After id `2^16 - 1` is accepted, the ids that follow the wrap, starting
/// at 0, are accepted too.
pub proof fn lemma_wrap_accepts(t: Map<u8, u16>, stream_id: u8)
    requires
        gate_accepts(t, stream_id, 65535),
    ensures
        gate_accepts(gate_after(t, stream_id, 65535), stream_id, 0),
        forall|k: u16|
            k < SEQ_HALF ==> #[trigger] gate_accepts(gate_after(t, stream_id, 65535), stream_id, k),
{
    let t2 = gate_after(t, stream_id, 65535);
    assert(expected_of(t2, stream_id) == 0);
}

/// Accepted ids on one stream rise strictly, in the wrap-safe order.
pub proof fn lemma_passed_increasing(t: Map<u8, u16>, stream_id: u8, ids: Seq<u16>)
    ensures
        forall|i: int|
            0 <= i < gate_passed(t, stream_id, ids).len() - 1 ==> seq_later(
                #[trigger] gate_passed(t, stream_id, ids)[i],
                gate_passed(t, stream_id, ids)[i + 1],
            ),
    decreases ids.len(),
{
    if ids.len() > 0 {
        let t1 = gate_after(t, stream_id, ids[0]);
        let rest_ids = ids.drop_first();
        lemma_passed_increasing(t1, stream_id, rest_ids);
        let rest = gate_passed(t1, stream_id, rest_ids);
        let p = gate_passed(t, stream_id, ids);
        if gate_accepts(t, stream_id, ids[0]) {
            assert(p == seq![ids[0]].add(rest));
            if rest.len() > 0 {
                lemma_passed_head_after(t1, stream_id, rest_ids);
                assert(expected_of(t1, stream_id) == seq_next(ids[0]));
                lemma_newer_than_next_is_later(ids[0], rest[0]);
            }
            assert forall|i: int| 0 <= i < p.len() - 1 implies seq_later(
                #[trigger] p[i],
                p[i + 1],
            ) by {
                if i > 0 {
                    assert(p[i] == rest[i - 1]);
                    assert(p[i + 1] == rest[i]);
                }
            }
        } else {
            assert(p == rest);
        }
    }
}

/// An id that is new once `a + 1` is expected lies after `a`.
proof fn lemma_newer_than_next_is_later(a: u16, b: u16)
    requires
        seq_is_newer(seq_next(a), b),
    ensures
        seq_later(a, b),
{
    let n = seq_next(a);
    if a == 65535 {
        assert(n == 0);
    } else {
        assert(n == a + 1);
    }
}

/// The first id let through from a table is new with respect to the id the
/// table expects; when the table expects `a + 1`, it lies after `a`.
proof fn lemma_passed_head_after(t: Map<u8, u16>, stream_id: u8, ids: Seq<u16>)
    requires
        gate_passed(t, stream_id, ids).len() > 0,
    ensures
        gate_accepts(t, stream_id, gate_passed(t, stream_id, ids)[0]),
    decreases ids.len(),
{
    let t1 = gate_after(t, stream_id, ids[0]);
    if gate_accepts(t, stream_id, ids[0]) {
    } else {
        assert(t1 == t);
        lemma_passed_head_after(t1, stream_id, ids.drop_first());
    }
}

} // verus!

//! What reaches the peer: the writer's plans for a run of packets, fed to the
//! peer's reader in the order the transport hands them over.
use vstd::prelude::*;
use crate::packet::{PacketHeader, header_with_seq, lemma_round_trip, packet_wire};
use crate::reader::{IntakeView, ReaderView, intake_of, intake_state};
use crate::sequence::{gate_passed, lemma_passed_increasing, seq_later};
use crate::writer::{PlanView, WriterView, planned, planned_state};

verus! {

/// The plans for a run of packets, in order.
pub open spec fn plan_run(v: WriterView, ps: Seq<(PacketHeader, Seq<u8>)>) -> Seq<PlanView>
    decreases ps.len(),
{
    if ps.len() == 0 {
        Seq::empty()
    } else {
        seq![planned(v, ps[0].0, ps[0].1)] + plan_run(planned_state(v, ps[0].0), ps.drop_first())
    }
}

/// The bytes a plan puts on the wire.
pub open spec fn wire_of(p: PlanView) -> Seq<u8> {
    match p {
        PlanView::Stream { frame, .. } => frame,
        PlanView::FreshStream { frame } => frame,
        PlanView::Datagram { bytes } => bytes,
    }
}

/// The packets the reader delivers from a run of encoded packets, in order.
pub open spec fn deliveries(v: ReaderView, frames: Seq<Seq<u8>>) -> Seq<(PacketHeader, Seq<u8>)>
    decreases frames.len(),
{
    if frames.len() == 0 {
        Seq::empty()
    } else {
        let rest = deliveries(intake_state(v, frames[0]), frames.drop_first());
        match intake_of(v, frames[0]) {
            IntakeView::Deliver(h, b) => seq![(h, b)] + rest,
            _ => rest,
        }
    }
}

/// Payloads as packets of one header.
pub open spec fn with_header(h: PacketHeader, payloads: Seq<Seq<u8>>) -> Seq<(PacketHeader, Seq<u8>)> {
    payloads.map_values(|b: Seq<u8>| (h, b))
}

/// Payloads that fit the wire's 64-bit length field.
pub open spec fn sendable(payloads: Seq<Seq<u8>>) -> bool {
    forall|i: int| 0 <= i < payloads.len() ==> #[trigger] payloads[i].len() <= u64::MAX
}

/// A packet whose header is neither sequenced variant is delivered as it
/// was encoded, and leaves the reader's state as it was.
proof fn lemma_plain_delivered(v: ReaderView, h: PacketHeader, b: Seq<u8>)
    requires
        b.len() <= u64::MAX,
        !(h is Sequenced),
        !(h is UnreliableSequenced),
    ensures
        intake_of(v, packet_wire(h, b)) == IntakeView::Deliver(h, b),
        intake_state(v, packet_wire(h, b)) == v,
{
    lemma_round_trip(h, b);
}

/// Ordered packets on one stream id all go on that id's stream, each framed
/// as itself.
proof fn lemma_ordered_plans(w: WriterView, stream_id: u8, payloads: Seq<Seq<u8>>)
    ensures
        plan_run(w, with_header(PacketHeader::Ordered { stream_id }, payloads)).len()
            == payloads.len(),
        forall|i: int|
            0 <= i < payloads.len() ==> {
                let p = #[trigger] plan_run(w, with_header(PacketHeader::Ordered { stream_id }, payloads))[i];
                &&& p is Stream
                &&& p->Stream_stream_id == stream_id
                &&& p->Stream_frame == packet_wire(PacketHeader::Ordered { stream_id }, payloads[i])
            },
    decreases payloads.len(),
{
    let h = PacketHeader::Ordered { stream_id };
    let ps = with_header(h, payloads);
    if payloads.len() > 0 {
        let w1 = planned_state(w, h);
        assert(ps[0] == (h, payloads[0]));
        assert(ps.drop_first() =~= with_header(h, payloads.drop_first()));
        lemma_ordered_plans(w1, stream_id, payloads.drop_first());
        let rest = plan_run(w1, with_header(h, payloads.drop_first()));
        let all = plan_run(w, ps);
        assert(all == seq![planned(w, h, payloads[0])] + rest);
        assert(header_with_seq(h, 0) == h);
        assert forall|i: int| 0 <= i < payloads.len() implies {
            let p = #[trigger] all[i];
            &&& p is Stream
            &&& p->Stream_stream_id == stream_id
            &&& p->Stream_frame == packet_wire(h, payloads[i])
        } by {
            if i > 0 {
                assert(all[i] == rest[i - 1]);
                assert(payloads.drop_first()[i - 1] == payloads[i]);
            }
        }
    }
}

/// The reader delivers a run of encoded packets of one plain header as the
/// packets themselves, in order.
proof fn lemma_plain_run_delivered(r: ReaderView, h: PacketHeader, payloads: Seq<Seq<u8>>)
    requires
        sendable(payloads),
        !(h is Sequenced),
        !(h is UnreliableSequenced),
    ensures
        deliveries(r, payloads.map_values(|b: Seq<u8>| packet_wire(h, b))) == with_header(h, payloads),
    decreases payloads.len(),
{
    let frames = payloads.map_values(|b: Seq<u8>| packet_wire(h, b));
    if payloads.len() > 0 {
        lemma_plain_delivered(r, h, payloads[0]);
        let tail = payloads.drop_first();
        assert(sendable(tail)) by {
            assert forall|i: int| 0 <= i < tail.len() implies #[trigger] tail[i].len() <= u64::MAX by {
                assert(tail[i] == payloads[i + 1]);
            }
        }
        assert(frames.drop_first() =~= tail.map_values(|b: Seq<u8>| packet_wire(h, b)));
        lemma_plain_run_delivered(r, h, tail);
        assert(with_header(h, payloads) =~= seq![(h, payloads[0])] + with_header(h, tail));
    } else {
        assert(with_header(h, payloads) =~= Seq::<(PacketHeader, Seq<u8>)>::empty());
    }
}

/// Ordered packets sent on one stream id travel on that id's single stream,
/// and whatever prefix of that stream reaches the peer's reader comes out as
/// the same packets in the same order: none lost, none repeated, none
/// reordered.
pub proof fn lemma_ordered_delivery(
    w: WriterView,
    r: ReaderView,
    stream_id: u8,
    payloads: Seq<Seq<u8>>,
    k: int,
)
    requires
        sendable(payloads),
        0 <= k <= payloads.len(),
    ensures
        forall|i: int|
            0 <= i < payloads.len() ==> #[trigger] plan_run(
                w,
                with_header(PacketHeader::Ordered { stream_id }, payloads),
            )[i] is Stream && plan_run(
                w,
                with_header(PacketHeader::Ordered { stream_id }, payloads),
            )[i]->Stream_stream_id == stream_id,
        deliveries(
            r,
            plan_run(w, with_header(PacketHeader::Ordered { stream_id }, payloads)).take(k).map_values(
                |p: PlanView| wire_of(p),
            ),
        ) == with_header(PacketHeader::Ordered { stream_id }, payloads.take(k)),
{
    let h = PacketHeader::Ordered { stream_id };
    let plans = plan_run(w, with_header(h, payloads));
    lemma_ordered_plans(w, stream_id, payloads);
    let pre = payloads.take(k);
    assert(sendable(pre)) by {
        assert forall|i: int| 0 <= i < pre.len() implies #[trigger] pre[i].len() <= u64::MAX by {
            assert(pre[i] == payloads[i]);
        }
    }
    assert(plans.take(k).map_values(|p: PlanView| wire_of(p)) =~= pre.map_values(
        |b: Seq<u8>| packet_wire(h, b),
    ));
    lemma_plain_run_delivered(r, h, pre);
}

/// Unreliable unordered packets each go out as one datagram holding the
/// packet itself.
proof fn lemma_datagram_plans(w: WriterView, payloads: Seq<Seq<u8>>)
    ensures
        plan_run(w, with_header(PacketHeader::UnreliableUnordered, payloads)).len()
            == payloads.len(),
        forall|i: int|
            0 <= i < payloads.len() ==> #[trigger] plan_run(
                w,
                with_header(PacketHeader::UnreliableUnordered, payloads),
            )[i] == (PlanView::Datagram {
                bytes: packet_wire(PacketHeader::UnreliableUnordered, payloads[i]),
            }),
    decreases payloads.len(),
{
    let h = PacketHeader::UnreliableUnordered;
    let ps = with_header(h, payloads);
    if payloads.len() > 0 {
        assert(ps[0] == (h, payloads[0]));
        assert(ps.drop_first() =~= with_header(h, payloads.drop_first()));
        assert(planned_state(w, h) == w);
        lemma_datagram_plans(w, payloads.drop_first());
        let rest = plan_run(w, with_header(h, payloads.drop_first()));
        let all = plan_run(w, ps);
        assert(all == seq![planned(w, h, payloads[0])] + rest);
        assert forall|i: int| 0 <= i < payloads.len() implies #[trigger] all[i]
            == (PlanView::Datagram { bytes: packet_wire(h, payloads[i]) }) by {
            if i > 0 {
                assert(all[i] == rest[i - 1]);
                assert(payloads.drop_first()[i - 1] == payloads[i]);
            }
        }
    }
}

/// The plans for a run of unreliable unordered packets.
pub open spec fn unreliable_plans(w: WriterView, payloads: Seq<Seq<u8>>) -> Seq<PlanView> {
    plan_run(w, with_header(PacketHeader::UnreliableUnordered, payloads))
}

/// What the transport hands over: the wire bytes of the chosen plans, by
/// index, in the order given.
pub open spec fn arrived(plans: Seq<PlanView>, arrivals: Seq<int>) -> Seq<Seq<u8>> {
    arrivals.map_values(|j: int| wire_of(plans[j]))
}

/// Picking distinct positions of a sequence gives a sub-multiset of it.
proof fn lemma_distinct_picks_submultiset<A>(t: Seq<A>, idx: Seq<int>)
    requires
        idx.no_duplicates(),
        forall|m: int| 0 <= m < idx.len() ==> 0 <= #[trigger] idx[m] < t.len(),
    ensures
        idx.map_values(|j: int| t[j]).to_multiset().subset_of(t.to_multiset()),
    decreases t.len(),
{
    broadcast use vstd::seq_lib::group_to_multiset_ensures;

    let picks = idx.map_values(|j: int| t[j]);
    if t.len() == 0 {
        if idx.len() > 0 {
            assert(0 <= idx[0] < t.len());
        }
        assert(picks.to_multiset().len() == 0);
        assert(picks.to_multiset() =~= vstd::multiset::Multiset::empty());
    } else {
        let last = t.len() - 1;
        let t1 = t.drop_last();
        assert(t =~= t1.push(t[last]));
        assert(t.to_multiset() =~= t1.to_multiset().insert(t[last]));
        if idx.contains(last) {
            let p = choose|p: int| 0 <= p < idx.len() && idx[p] == last;
            let idx1 = idx.remove(p);
            assert forall|m: int| 0 <= m < idx1.len() implies 0 <= #[trigger] idx1[m] < t1.len() by {
                if m < p {
                    assert(idx1[m] == idx[m]);
                    assert(idx[m] != idx[p]);
                } else {
                    assert(idx1[m] == idx[m + 1]);
                    assert(idx[m + 1] != idx[p]);
                }
            }
            assert(idx1.no_duplicates()) by {
                assert forall|a: int, b: int| 0 <= a < idx1.len() && 0 <= b < idx1.len() && a != b
                    implies idx1[a] != idx1[b] by {
                    let a0 = if a < p { a } else { a + 1 };
                    let b0 = if b < p { b } else { b + 1 };
                    assert(idx1[a] == idx[a0]);
                    assert(idx1[b] == idx[b0]);
                }
            }
            lemma_distinct_picks_submultiset(t1, idx1);
            let picks1 = idx1.map_values(|j: int| t1[j]);
            assert(picks1 =~= picks.remove(p));
            assert(picks[p] == t[last]);
            assert(picks1.to_multiset() =~= picks.to_multiset().remove(t[last]));
            assert(picks.to_multiset().count(t[last]) > 0) by {
                assert(picks.contains(t[last]));
            }
            assert(picks.to_multiset() =~= picks1.to_multiset().insert(t[last]));
        } else {
            assert forall|m: int| 0 <= m < idx.len() implies 0 <= #[trigger] idx[m] < t1.len() by {
                if idx[m] == last {
                    assert(idx.contains(last));
                }
            }
            lemma_distinct_picks_submultiset(t1, idx);
            assert(idx.map_values(|j: int| t1[j]) =~= picks);
        }
    }
}

/// Unreliable unordered packets go out as datagrams; whichever of them the
/// transport hands over, in whatever order and however often, the reader
/// delivers only packets that were sent. Each delivery is the very packet of
/// the datagram that caused it, so when the transport hands each datagram
/// over at most once (no index repeats in `arrivals`), the deliveries match
/// distinct sent packets one for one: a sub-multiset of what was sent.
pub proof fn lemma_unreliable_subset(
    w: WriterView,
    r: ReaderView,
    payloads: Seq<Seq<u8>>,
    arrivals: Seq<int>,
)
    requires
        sendable(payloads),
        forall|j: int| 0 <= j < arrivals.len() ==> 0 <= #[trigger] arrivals[j] < payloads.len(),
    ensures
        forall|i: int|
            0 <= i < payloads.len() ==> (#[trigger] unreliable_plans(w, payloads)[i] is Datagram),
        forall|d: (PacketHeader, Seq<u8>)|
            #[trigger] deliveries(r, arrived(unreliable_plans(w, payloads), arrivals)).contains(d)
                ==> with_header(PacketHeader::UnreliableUnordered, payloads).contains(d),
        deliveries(r, arrived(unreliable_plans(w, payloads), arrivals)).len() == arrivals.len(),
        forall|m: int|
            0 <= m < arrivals.len() ==> #[trigger] deliveries(
                r,
                arrived(unreliable_plans(w, payloads), arrivals),
            )[m] == with_header(PacketHeader::UnreliableUnordered, payloads)[arrivals[m]],
        arrivals.no_duplicates() ==> deliveries(
            r,
            arrived(unreliable_plans(w, payloads), arrivals),
        ).to_multiset().subset_of(
            with_header(PacketHeader::UnreliableUnordered, payloads).to_multiset(),
        ),
{
    let h = PacketHeader::UnreliableUnordered;
    let plans = plan_run(w, with_header(h, payloads));
    lemma_datagram_plans(w, payloads);
    let chosen = arrivals.map_values(|j: int| payloads[j]);
    assert(sendable(chosen)) by {
        assert forall|i: int| 0 <= i < chosen.len() implies #[trigger] chosen[i].len() <= u64::MAX by {
            assert(chosen[i] == payloads[arrivals[i]]);
        }
    }
    let frames = arrivals.map_values(|j: int| wire_of(plans[j]));
    assert(frames =~= chosen.map_values(|b: Seq<u8>| packet_wire(h, b))) by {
        assert forall|i: int| 0 <= i < frames.len() implies #[trigger] frames[i] == packet_wire(
            h,
            chosen[i],
        ) by {
            assert(plans[arrivals[i]] == (PlanView::Datagram {
                bytes: packet_wire(h, payloads[arrivals[i]]),
            }));
        }
    }
    lemma_plain_run_delivered(r, h, chosen);
    let out = deliveries(r, frames);
    let sent = with_header(h, payloads);
    assert forall|m: int| 0 <= m < arrivals.len() implies #[trigger] out[m] == sent[arrivals[m]] by {
        assert(out[m] == (h, chosen[m]));
    }
    if arrivals.no_duplicates() {
        lemma_distinct_picks_submultiset(sent, arrivals);
        assert(out =~= arrivals.map_values(|j: int| sent[j]));
    }
    assert forall|d: (PacketHeader, Seq<u8>)| #[trigger] out.contains(d) implies sent.contains(d) by {
        let m = choose|m: int| 0 <= m < out.len() && out[m] == d;
        assert(out[m] == (h, chosen[m]));
        assert(sent[arrivals[m]] == (h, payloads[arrivals[m]]));
    }
}

/// Reliable sequenced packets on one stream id, with the given sequence ids
/// and payloads, as they travel encoded.
pub open spec fn sequenced_frames(stream_id: u8, ids: Seq<u16>, payloads: Seq<Seq<u8>>) -> Seq<
    Seq<u8>,
> {
    Seq::new(
        ids.len(),
        |i: int| packet_wire(PacketHeader::Sequenced { stream_id, seq_id: ids[i] }, payloads[i]),
    )
}

/// The sequence id a header carries, 0 for those without one.
pub open spec fn seq_of(h: PacketHeader) -> u16 {
    match h {
        PacketHeader::Sequenced { seq_id, .. } => seq_id,
        PacketHeader::UnreliableSequenced { seq_id, .. } => seq_id,
        _ => 0,
    }
}

/// The sequence ids of delivered packets, in order.
pub open spec fn delivered_ids(ds: Seq<(PacketHeader, Seq<u8>)>) -> Seq<u16> {
    ds.map_values(|d: (PacketHeader, Seq<u8>)| seq_of(d.0))
}

/// The reader delivers exactly those reliable sequenced packets that its
/// table lets through.
proof fn lemma_sequenced_passed(
    r: ReaderView,
    stream_id: u8,
    ids: Seq<u16>,
    payloads: Seq<Seq<u8>>,
)
    requires
        ids.len() == payloads.len(),
        sendable(payloads),
    ensures
        delivered_ids(deliveries(r, sequenced_frames(stream_id, ids, payloads))) == gate_passed(
            r.reliable,
            stream_id,
            ids,
        ),
    decreases ids.len(),
{
    let frames = sequenced_frames(stream_id, ids, payloads);
    if ids.len() == 0 {
        assert(delivered_ids(deliveries(r, frames)) =~= Seq::<u16>::empty());
    } else {
        let h = PacketHeader::Sequenced { stream_id, seq_id: ids[0] };
        lemma_round_trip(h, payloads[0]);
        assert(frames[0] == packet_wire(h, payloads[0]));
        let r1 = intake_state(r, frames[0]);
        let tail_p = payloads.drop_first();
        assert(sendable(tail_p)) by {
            assert forall|i: int| 0 <= i < tail_p.len() implies #[trigger] tail_p[i].len()
                <= u64::MAX by {
                assert(tail_p[i] == payloads[i + 1]);
            }
        }
        assert(frames.drop_first() =~= sequenced_frames(stream_id, ids.drop_first(), tail_p));
        lemma_sequenced_passed(r1, stream_id, ids.drop_first(), tail_p);
        let rest = deliveries(r1, frames.drop_first());
        if intake_of(r, frames[0]) is Deliver {
            assert(deliveries(r, frames) == seq![(h, payloads[0])] + rest);
            assert(delivered_ids(deliveries(r, frames)) =~= seq![ids[0]] + delivered_ids(rest));
        } else {
            assert(deliveries(r, frames) == rest);
        }
    }
}

/// Reliable sequenced packets on one stream id, whatever order and
/// repetitions they arrive in, come out of the reader with strictly
/// increasing sequence ids in the wrap-safe order.
pub proof fn lemma_sequenced_delivery_increasing(
    r: ReaderView,
    stream_id: u8,
    ids: Seq<u16>,
    payloads: Seq<Seq<u8>>,
)
    requires
        ids.len() == payloads.len(),
        sendable(payloads),
    ensures
        forall|i: int|
            0 <= i < delivered_ids(deliveries(r, sequenced_frames(stream_id, ids, payloads))).len()
                - 1 ==> seq_later(
                #[trigger] delivered_ids(deliveries(r, sequenced_frames(stream_id, ids, payloads)))[i],
                delivered_ids(deliveries(r, sequenced_frames(stream_id, ids, payloads)))[i + 1],
            ),
{
    lemma_sequenced_passed(r, stream_id, ids, payloads);
    lemma_passed_increasing(r.reliable, stream_id, ids);
}

} // verus!

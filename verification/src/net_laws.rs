//! What holds between two nodes, whatever they do in between.

use crate::address::{AddressView, IpView};
use crate::net::{
    beacon_due, departed, door_mask, farewells, has_node, led_to, names_host, silent, still_there,
    taught, updated, InboundView, NetConfig, NetEventView, NetView, OutboundView, SEEN_RING,
};
use crate::peers::{held_on, knows, PeerView};
use crate::peers_laws::{first_pinned, law_a_pin_wins_outright, law_nobody_known_is_missing};
use crate::receipt::{word_on, Delivery, Word};
use crate::single::{Single, ONE};
use crate::wire::{
    decoded, encoded, header_of, BeaconView, DecodeError, Edge, MessageView, NackReason, SatState,
    ThrowView,
    HEADER_LEN, MAGIC, MAX_FRAME_LEN, PROTOCOL_VERSION,
};
use crate::wire_laws::{law_a_partial_frame_waits, law_round_trip, sendable};
use vstd::prelude::*;

verus! {

/// No two throws of one node have the same id, as long as its counter has not gone all the
/// way round.
pub proof fn law_throw_ids_are_distinct(a: NetView, b: NetView)
    requires
        a.node_id == b.node_id,
        a.next_throw != b.next_throw,
    ensures
        a.next_id() != b.next_id(),
{
    let node: u64 = a.node_id;
    let x: u64 = a.next_throw;
    let y: u64 = b.next_throw;
    assert(x != y ==> (node << 16) ^ x != (node << 16) ^ y) by (bit_vector);
}

/// The node after it has accepted these throws, one after the other.
pub open spec fn accepting_all(net: NetView, ids: Seq<u64>) -> NetView
    decreases ids.len(),
{
    if ids.len() == 0 {
        net
    } else {
        accepting_all(net, ids.drop_last()).accepting(ids.last())
    }
}

proof fn lemma_seen_after(net: NetView, ids: Seq<u64>, id: u64)
    requires
        net.seen.len() <= SEEN_RING,
    ensures
        ({
            let after = accepting_all(net.accepting(id), ids).seen;
            &&& after.len() <= SEEN_RING
            &&& ids.len() < SEEN_RING ==> {
                &&& after.len() > ids.len()
                &&& after[after.len() - 1 - ids.len()] == id
            }
        }),
    decreases ids.len(),
{
    if ids.len() > 0 {
        lemma_seen_after(net, ids.drop_last(), id);
    }
}

/// A throw that is delivered twice is acknowledged twice but lands once: after it was
/// accepted, and before that many others were accepted that the memory is full of them,
/// it is answered and not offered to the frame loop again.
pub proof fn law_a_throw_delivered_twice_lands_once(
    net: NetView,
    t: ThrowView,
    used: nat,
    others: Seq<u64>,
)
    requires
        net.wf(),
        others.len() < SEEN_RING,
    ensures
        accepting_all(net.accepting(t.throw_id), others).verdict(t, used) == (InboundView::Reply {
            used,
            reply: encoded(MessageView::Ack(t.throw_id)),
        }),
{
    lemma_seen_after(net, others, t.throw_id);
}

/// A screen with no room refuses a new throw, and says that it is full.
pub proof fn law_a_full_screen_refuses(net: NetView, t: ThrowView, used: nat)
    requires
        !net.has_room(),
        !net.seen.contains(t.throw_id),
    ensures
        net.verdict(t, used) == (InboundView::Reply {
            used,
            reply: encoded(MessageView::Nack(t.throw_id, NackReason::Full)),
        }),
{
}

/// A throw that was refused is not remembered: sent again, it is judged anew, and never
/// acknowledged without having been taken.
pub proof fn law_a_refused_throw_is_not_acknowledged_later(
    net: NetView,
    t: ThrowView,
    used: nat,
    from: AddressView,
    now: u64,
    later: NetView,
)
    requires
        !net.seen.contains(t.throw_id),
        later.seen == net.after_learning(t, from.ip, now).seen,
    ensures
        later.verdict(t, used) != (InboundView::Reply {
            used,
            reply: encoded(MessageView::Ack(t.throw_id)),
        }),
{
    let ack = MessageView::Ack(t.throw_id);
    let nack = MessageView::Nack(t.throw_id, NackReason::Full);
    law_round_trip(ack, Seq::empty());
    law_round_trip(nack, Seq::empty());
    assert(encoded(ack) + Seq::empty() =~= encoded(ack));
    assert(encoded(nack) + Seq::empty() =~= encoded(nack));
}

/// Promises never exceed the room there is: a throw is offered only while a slot is free,
/// and accepting it takes that slot.
pub proof fn law_accepting_never_overfills(net: NetView, t: ThrowView, used: nat)
    requires
        net.wf(),
        net.verdict(t, used) is Offer,
    ensures
        net.accepting(t.throw_id).resident + net.accepting(t.throw_id).reserved <= net.capacity,
        net.accepting(t.throw_id).reserved == net.reserved + 1,
{
}

/// A blob that leaves one node turns up at another that has room, with everything it was
/// thrown with, and takes exactly its own bytes out of the stream.
pub proof fn law_a_throw_crosses(
    catcher: NetView,
    t: ThrowView,
    rest: Seq<u8>,
    from: AddressView,
    now: u64,
)
    requires
        sendable(MessageView::Throw(t)),
        catcher.has_room(),
        !catcher.seen.contains(t.throw_id),
    ensures
        catcher.receiving(encoded(MessageView::Throw(t)) + rest, from, now).1 == (
        InboundView::Offer { used: encoded(MessageView::Throw(t)).len(), throw: t }),
{
    law_round_trip(MessageView::Throw(t), rest);
}

/// Until a frame is complete nothing is decided and nothing changes.
pub proof fn law_an_unfinished_frame_changes_nothing(
    net: NetView,
    buf: Seq<u8>,
    k: int,
    from: AddressView,
    now: u64,
)
    requires
        header_of(buf) is Ok,
        0 <= k < HEADER_LEN + (header_of(buf)->Ok_0).1,
    ensures
        net.receiving(buf.take(k), from, now) == (net, InboundView::Wait),
{
    law_a_partial_frame_waits(buf, k);
}

/// Bytes that are not one of our frames, or one of another version, close the connection
/// without a reply and leave the node as it was.
pub proof fn law_garbage_is_dropped_without_a_reply(
    net: NetView,
    buf: Seq<u8>,
    from: AddressView,
    now: u64,
)
    requires
        buf.len() >= HEADER_LEN,
        buf.take(4) != MAGIC@ || crate::bytes::le_at(buf, 4, 2) != PROTOCOL_VERSION,
    ensures
        net.receiving(buf, from, now).0 == net,
        net.receiving(buf, from, now).1 is Close,
{
}

/// A frame of a kind this version does not know is passed over, and the connection goes
/// on behind it.
pub proof fn law_unknown_kinds_are_passed_over(
    net: NetView,
    buf: Seq<u8>,
    from: AddressView,
    now: u64,
)
    requires
        decoded(buf) matches Err(DecodeError::UnknownKind(_)),
    ensures
        net.receiving(buf, from, now) == (
            net,
            InboundView::Skip { used: HEADER_LEN as nat + (header_of(buf)->Ok_0).1 },
        ),
        HEADER_LEN + (header_of(buf)->Ok_0).1 <= buf.len(),
{
}

/// Catching a blob teaches where to throw it back: the sender's own port, at the address
/// the throw came from, is among the peers from then on.
pub proof fn law_catching_teaches_the_way_back(
    net: NetView,
    t: ThrowView,
    from: AddressView,
    now: u64,
    later: u64,
)
    requires
        t.from_port != 0,
    ensures
        knows(net.after_learning(t, from.ip, now).known(later), from.ip.port(t.from_port)),
{
    let addr = from.ip.port(t.from_port);
    let list = net.learned;
    let after = taught(list, t.from_node, addr, now);
    if has_node(list, t.from_node) {
        let i = choose|i: int| 0 <= i < list.len() && (#[trigger] list[i]).node_id == t.from_node;
        assert(after[i].addr.same(addr));
    } else {
        assert(after[list.len() as int].addr.same(addr));
    }
    law_nobody_known_is_missing(net.peers, after, net.pinned, later, addr);
}

/// Nodes of one group find each other: a beacon heard from another node puts the port it
/// announces, at the address it came from, among the peers.
pub proof fn law_a_beacon_makes_a_peer(
    speaker: NetView,
    listener: NetView,
    ip: IpView,
    now: u64,
    later: u64,
)
    requires
        sendable(MessageView::Beacon(speaker.beacon())),
        speaker.node_id != listener.node_id,
        speaker.group == listener.group,
    ensures
        knows(
            listener.hearing(encoded(MessageView::Beacon(speaker.beacon())), ip, now).0.known(
                later,
            ),
            ip.port(speaker.tcp_port),
        ),
{
    let b = speaker.beacon();
    let m = MessageView::Beacon(b);
    law_round_trip(m, Seq::empty());
    assert(encoded(m) + Seq::empty() =~= encoded(m));
    let p = NetView::announced(b, ip, now);
    let addr = ip.port(speaker.tcp_port);
    let after = updated(listener.peers, p);
    lemma_updated_knows(listener.peers, p);
    let pinned = led_to(listener.pinned, after, addr);
    law_nobody_known_is_missing(after, listener.learned, pinned, later, addr);
}

/// A pin holds: an edge that any peer is pinned to leads to one that is, whoever else is
/// there and whether it has been heard or not; of several it is the one listed first, and if
/// all pins of the edge are for one address, it is the peer there.
pub proof fn law_a_pin_holds(net: NetView, edge: Edge, i: int, now: u64)
    requires
        0 <= i < net.pinned.len(),
        net.pinned[i].edge == Some(edge),
    ensures
        net.door(edge, now) matches Some(p) && {
            &&& exists|k: int| first_pinned(net.known(now), net.pinned, edge, p, k)
            &&& (forall|j: int|
                0 <= j < net.pinned.len() && (#[trigger] net.pinned[j]).edge == Some(edge)
                    ==> net.pinned[j].addr.same(net.pinned[i].addr)) ==> p.addr.same(
                net.pinned[i].addr,
            )
        },
{
    let addr = net.pinned[i].addr;
    assert(net.pinned[i].addr.same(addr));
    law_nobody_known_is_missing(net.peers, net.learned, net.pinned, now, addr);
    law_a_pin_wins_outright(net.known(now), net.pinned, edge, i);
    let p = net.door(edge, now)->0;
    let k = choose|k: int| first_pinned(net.known(now), net.pinned, edge, p, k);
    assert(held_on(net.pinned, edge, p.addr));
}

/// A pin that names a port is never led elsewhere, and no pin changes its edge or its host.
pub proof fn law_a_pin_stays(net: NetView, datagram: Seq<u8>, ip: IpView, now: u64, i: int)
    requires
        0 <= i < net.pinned.len(),
    ensures
        ({
            let pin = net.pinned[i];
            let after = net.hearing(datagram, ip, now).0.pinned;
            &&& after.len() == net.pinned.len()
            &&& !pin.bare ==> after[i] == pin
            &&& after[i].edge == pin.edge && after[i].bare == pin.bare
            &&& after[i].addr.ip.v6 == pin.addr.ip.v6 && after[i].addr.ip.bits == pin.addr.ip.bits
        }),
{
}

/// A host that was named without a port is usable once its beacon has been heard: the edge
/// pinned to it leads to the port that the host announced, or to another one of that host
/// that is being heard.
pub proof fn law_a_bare_host_is_reached_once_heard(
    net: NetView,
    b: BeaconView,
    ip: IpView,
    now: u64,
    later: u64,
    edge: Edge,
    i: int,
)
    requires
        sendable(MessageView::Beacon(b)),
        b.node_id != net.node_id,
        b.group == net.group,
        0 <= i < net.pinned.len(),
        net.pinned[i].edge == Some(edge),
        forall|j: int|
            0 <= j < net.pinned.len() && j != i ==> (#[trigger] net.pinned[j]).edge != Some(edge),
        names_host(net.pinned[i], ip),
    ensures
        ({
            let after = net.hearing(encoded(MessageView::Beacon(b)), ip, now).0;
            let addr = after.pinned[i].addr;
            &&& after.door(edge, later) matches Some(p) && p.addr.same(addr)
            &&& addr.ip.v6 == ip.v6 && addr.ip.bits == ip.bits
            &&& addr == ip.port(b.tcp_port) || addr == net.pinned[i].addr
            &&& knows(after.peers, addr)
        }),
{
    let m = MessageView::Beacon(b);
    law_round_trip(m, Seq::empty());
    assert(encoded(m) + Seq::empty() =~= encoded(m));
    let after = net.hearing(encoded(m), ip, now).0;
    let p = NetView::announced(b, ip, now);
    lemma_updated_knows(net.peers, p);
    assert(after.pinned[i].edge == Some(edge));
    assert forall|j: int|
        0 <= j < after.pinned.len() && (#[trigger] after.pinned[j]).edge == Some(edge) implies
        after.pinned[j].addr.same(after.pinned[i].addr) by {
        assert(net.pinned[j].edge == after.pinned[j].edge);
    }
    law_a_pin_holds(after, edge, i, later);
}

proof fn lemma_updated_knows(list: Seq<PeerView>, p: PeerView)
    ensures
        knows(updated(list, p), p.addr),
{
    let after = updated(list, p);
    if has_node(list, p.node_id) {
        let i = choose|i: int| 0 <= i < list.len() && (#[trigger] list[i]).node_id == p.node_id;
        assert(after[i].addr.same(p.addr));
    } else {
        assert(after[list.len() as int].addr.same(p.addr));
    }
}

/// A node takes no notice of its own beacon, nor of one from another group.
pub proof fn law_own_and_foreign_beacons_are_ignored(
    net: NetView,
    b: BeaconView,
    ip: IpView,
    now: u64,
)
    requires
        sendable(MessageView::Beacon(b)),
        b.node_id == net.node_id || b.group != net.group,
    ensures
        net.hearing(encoded(MessageView::Beacon(b)), ip, now) == (net, None::<NetEventView>),
{
    let m = MessageView::Beacon(b);
    law_round_trip(m, Seq::empty());
    assert(encoded(m) + Seq::empty() =~= encoded(m));
}

/// The sender hears the answer to its throw, behind any number of receipts for other
/// throws and whatever follows.
pub proof fn law_the_receipt_is_heard(
    throw_id: u64,
    answer: Delivery,
    others: Seq<u64>,
    rest: Seq<u8>,
)
    requires
        !others.contains(throw_id),
    ensures
        word_on(throw_id, acks(others) + receipt(throw_id, answer) + rest) == Word::Answer(answer),
    decreases others.len(),
{
    if others.len() == 0 {
        let m = receipt_message(throw_id, answer);
        law_round_trip(m, rest);
        assert(acks(others) + receipt(throw_id, answer) + rest =~= encoded(m) + rest);
    } else {
        let m = MessageView::Ack(others[0]);
        let tail = acks(others.skip(1)) + receipt(throw_id, answer) + rest;
        let all = acks(others) + receipt(throw_id, answer) + rest;
        law_round_trip(m, tail);
        assert(all =~= encoded(m) + tail);
        assert(all.skip(encoded(m).len() as int) =~= tail);
        assert(others[0] != throw_id) by {
            assert(others.contains(others[0]));
        }
        assert forall|i: int| 0 <= i < others.skip(1).len() implies others.skip(1)[i]
            != throw_id by {
            assert(others.contains(others[i + 1]));
        }
        law_the_receipt_is_heard(throw_id, answer, others.skip(1), rest);
        assert(word_on(throw_id, all) == word_on(throw_id, tail));
    }
}

/// The message that answers a throw.
pub open spec fn receipt_message(throw_id: u64, answer: Delivery) -> MessageView {
    match answer {
        Delivery::Ack => MessageView::Ack(throw_id),
        Delivery::Nack(why) => MessageView::Nack(throw_id, why),
    }
}

/// The frame that answers a throw.
pub open spec fn receipt(throw_id: u64, answer: Delivery) -> Seq<u8> {
    encoded(receipt_message(throw_id, answer))
}

/// The frames that acknowledge these throws, one after the other.
pub open spec fn acks(ids: Seq<u64>) -> Seq<u8>
    decreases ids.len(),
{
    if ids.len() == 0 {
        Seq::empty()
    } else {
        encoded(MessageView::Ack(ids[0])) + acks(ids.skip(1))
    }
}

/// The bit of an edge is set in the mask of doors exactly if the edge leads somewhere, and
/// no other bits are.
pub proof fn law_door_mask_bits(net: NetView, now: u64, edge: Edge)
    ensures
        0 <= door_mask(net, now) < 16,
        (door_mask(net, now) as u8 & edge.weight() != 0) == (net.door(edge, now) is Some),
{
    let m: u8 = door_mask(net, now) as u8;
    let l: bool = net.door(Edge::Left, now) is Some;
    let r: bool = net.door(Edge::Right, now) is Some;
    let t: bool = net.door(Edge::Top, now) is Some;
    let b: bool = net.door(Edge::Bottom, now) is Some;
    let wl: u8 = if l { 1 } else { 0 };
    let wr: u8 = if r { 2 } else { 0 };
    let wt: u8 = if t { 4 } else { 0 };
    let wb: u8 = if b { 8 } else { 0 };
    assert(m == wl + wr + wt + wb);
    assert((m & 1 != 0) == (wl == 1) && (m & 2 != 0) == (wr == 2) && (m & 4 != 0) == (wt == 4) && (m
        & 8 != 0) == (wb == 8)) by (bit_vector)
        requires
            m == wl + wr + wt + wb,
            wl == 0 || wl == 1,
            wr == 0 || wr == 2,
            wt == 0 || wt == 4,
            wb == 0 || wb == 8,
    ;
}

/// A throw says what was thrown. If an edge leads to a peer, what is sent there is one frame
/// that decodes to a throw with just that edge, that crossing, that velocity and those
/// satellites, and with the id, the node and the port that the answer and the way back go by;
/// and the next throw gets another id.
pub proof fn law_a_throw_says_what_was_thrown(
    net: NetView,
    edge: Edge,
    along: Single,
    vel: (Single, Single),
    sats: Seq<SatState>,
    now: u64,
)
    requires
        net.door(edge, now) is Some,
        along.finite() && vel.0.finite() && vel.1.finite(),
        0 <= along.units() <= (Single { bits: ONE }).units(),
        forall|k: int|
            0 <= k < sats.len() ==> (#[trigger] sats[k]).off_x.finite() && sats[k].off_y.finite()
                && sats[k].vel_x.finite() && sats[k].vel_y.finite(),
        36 + 16 * sats.len() <= MAX_FRAME_LEN,
    ensures
        ({
            let (after, sent) = net.throwing(edge, along, vel, sats, now);
            &&& sent is Some
            &&& sent->0.peer == net.door(edge, now)->0
            &&& decoded(sent->0.bytes) matches Ok((MessageView::Throw(t), used)) && {
                &&& used == sent->0.bytes.len()
                &&& t.edge == edge && t.along == along
                &&& t.vel_x == vel.0 && t.vel_y == vel.1 && t.sats == sats
                &&& t.throw_id == sent->0.throw_id
                &&& t.from_node == net.node_id && t.from_port == net.tcp_port
            }
            &&& after.next_throw != net.next_throw
            &&& after == (NetView { next_throw: after.next_throw, ..net })
            &&& after.next_id() != sent->0.throw_id
        }),
{
    let m = MessageView::Throw(
        ThrowView {
            throw_id: net.next_id(),
            from_node: net.node_id,
            from_port: net.tcp_port,
            edge,
            along,
            vel_x: vel.0,
            vel_y: vel.1,
            sats,
        },
    );
    law_round_trip(m, Seq::empty());
    assert(encoded(m) + Seq::empty() =~= encoded(m));
    law_throw_ids_are_distinct(net, net.throwing(edge, along, vel, sats, now).0);
}

/// Through an edge that leads nowhere nothing is sent, and nothing changes.
pub proof fn law_nothing_is_thrown_at_nobody(
    net: NetView,
    edge: Edge,
    along: Single,
    vel: (Single, Single),
    sats: Seq<SatState>,
    now: u64,
)
    requires
        net.door(edge, now) is None,
    ensures
        net.throwing(edge, along, vel, sats, now) == (net, None::<OutboundView>),
{
}

/// A blob goes from screen to screen as it is: what one node throws out through an edge, a
/// node with a free slot that has not taken it before offers to its frame loop, with the same
/// edge, crossing, velocity and satellites.
pub proof fn law_a_blob_goes_over_as_it_is(
    thrower: NetView,
    catcher: NetView,
    edge: Edge,
    along: Single,
    vel: (Single, Single),
    sats: Seq<SatState>,
    from: AddressView,
    now: u64,
    then: u64,
)
    requires
        thrower.door(edge, now) is Some,
        along.finite() && vel.0.finite() && vel.1.finite(),
        0 <= along.units() <= (Single { bits: ONE }).units(),
        forall|k: int|
            0 <= k < sats.len() ==> (#[trigger] sats[k]).off_x.finite() && sats[k].off_y.finite()
                && sats[k].vel_x.finite() && sats[k].vel_y.finite(),
        36 + 16 * sats.len() <= MAX_FRAME_LEN,
        catcher.resident + catcher.reserved < catcher.capacity,
        !catcher.seen.contains((thrower.throwing(edge, along, vel, sats, now).1->0).throw_id),
    ensures
        ({
            let sent = thrower.throwing(edge, along, vel, sats, now).1->0;
            catcher.receiving(sent.bytes, from, then).1 matches InboundView::Offer { used, throw }
                && {
                &&& used == sent.bytes.len()
                &&& throw.throw_id == sent.throw_id
                &&& throw.edge == edge && throw.along == along
                &&& throw.vel_x == vel.0 && throw.vel_y == vel.1 && throw.sats == sats
                &&& throw.from_node == thrower.node_id && throw.from_port == thrower.tcp_port
            }
        }),
{
    law_a_throw_says_what_was_thrown(thrower, edge, along, vel, sats, now);
}

/// A throw is offered exactly if it has not been accepted lately and a slot is free; one that
/// has is acknowledged whatever the room, and one that there is no room for is refused.
pub proof fn law_a_throw_is_judged_by_memory_and_room(net: NetView, t: ThrowView, used: nat)
    ensures
        ({
            let known = exists|k: int| 0 <= k < net.seen.len() && net.seen[k] == t.throw_id;
            let free = net.resident + net.reserved < net.capacity;
            &&& known ==> net.verdict(t, used) == (InboundView::Reply {
                used,
                reply: encoded(MessageView::Ack(t.throw_id)),
            })
            &&& !known && free ==> net.verdict(t, used) == (InboundView::Offer { used, throw: t })
            &&& !known && !free ==> net.verdict(t, used) == (InboundView::Reply {
                used,
                reply: encoded(MessageView::Nack(t.throw_id, NackReason::Full)),
            })
        }),
{
}

/// Frames that are no throws change nothing about a node that they are sent to, and are
/// passed over whole.
pub proof fn law_other_frames_are_passed_over(
    net: NetView,
    m: MessageView,
    rest: Seq<u8>,
    from: AddressView,
    now: u64,
)
    requires
        sendable(m),
        !(m is Throw),
    ensures
        net.receiving(encoded(m) + rest, from, now) == (
            net,
            InboundView::Skip { used: encoded(m).len() },
        ),
{
    law_round_trip(m, rest);
}

/// To accept a throw is to promise one slot and to remember its id behind all the others, of
/// which only the oldest is forgotten, and only once there are as many as are kept.
pub proof fn law_accepting_promises_and_remembers(net: NetView, id: u64, k: int)
    requires
        net.wf(),
        net.resident + net.reserved < net.capacity,
    ensures
        ({
            let after = net.accepting(id);
            &&& after.reserved == net.reserved + 1
            &&& after.seen.len() > 0 && after.seen.last() == id
            &&& after.seen.len() == (if net.seen.len() < 64 {
                net.seen.len() + 1
            } else {
                64
            })
            &&& 0 <= k < net.seen.len() && (k > 0 || net.seen.len() < 64) ==> after.seen.contains(
                net.seen[k],
            )
            &&& after == (NetView { reserved: after.reserved, seen: after.seen, ..net })
        }),
{
    let after = net.accepting(id);
    if 0 <= k < net.seen.len() && (k > 0 || net.seen.len() < 64) {
        if net.seen.len() == 64 {
            assert(after.seen[k - 1] == net.seen[k]);
        } else {
            assert(after.seen[k] == net.seen[k]);
        }
    }
}

/// An offer that the frame loop takes is acknowledged and accepted; one that it does not take
/// is refused, and nothing is promised or remembered.
pub proof fn law_an_offer_is_settled(net: NetView, id: u64)
    ensures
        net.settling(id, true) == (net.accepting(id), encoded(MessageView::Ack(id))),
        net.settling(id, false) == (net, encoded(MessageView::Nack(id, NackReason::Full))),
{
}

/// A throw teaches where its node is: at the port it names, on the machine it came from, just
/// now. What else is known of the node stays, and nothing about any other does; a throw that
/// names no port teaches nothing.
pub proof fn law_a_throw_teaches_its_node_only(
    net: NetView,
    t: ThrowView,
    from: AddressView,
    now: u64,
    k: int,
)
    ensures
        ({
            let after = net.after_learning(t, from.ip, now);
            let known = exists|i: int|
                0 <= i < net.learned.len() && (#[trigger] net.learned[i]).node_id == t.from_node;
            &&& after == (NetView { learned: after.learned, ..net })
            &&& t.from_port == 0 ==> after == net
            &&& t.from_port != 0 && known ==> after.learned.len() == net.learned.len()
            &&& t.from_port != 0 && !known ==> {
                &&& after.learned.len() == net.learned.len() + 1
                &&& after.learned.last().node_id == t.from_node
                &&& after.learned.last().addr == (AddressView {
                    ip: from.ip,
                    port: t.from_port,
                    flow: 0,
                    scope: 0,
                })
                &&& after.learned.last().name == after.learned.last().addr.written()
                &&& after.learned.last().last_seen == now
                &&& after.learned.last().capacity == 0 && after.learned.last().pinned_edge is None
            }
            &&& 0 <= k < net.learned.len() && t.from_port != 0 ==> if net.learned[k].node_id
                == t.from_node {
                after.learned[k] == (PeerView {
                    addr: AddressView { ip: from.ip, port: t.from_port, flow: 0, scope: 0 },
                    last_seen: now,
                    ..net.learned[k]
                })
            } else {
                after.learned[k] == net.learned[k]
            }
        }),
{
    assert(has_node(net.learned, t.from_node) == exists|i: int|
        0 <= i < net.learned.len() && (#[trigger] net.learned[i]).node_id == t.from_node);
}

/// A beacon says of its node who it is, where it listens, how large its screen is, how many
/// blobs are on it and how many it will hold, in which group, and under which name.
pub proof fn law_a_beacon_says_what_the_node_is(net: NetView)
    requires
        net.wf(),
    ensures
        ({
            let b = net.beacon();
            &&& b.node_id == net.node_id && b.tcp_port == net.tcp_port
            &&& b.screen_w == net.screen.0 && b.screen_h == net.screen.1
            &&& net.resident <= 0xffff ==> b.blobs == net.resident
            &&& net.resident > 0xffff ==> b.blobs == 0xffff
            &&& b.capacity == net.capacity
            &&& b.group == net.group && b.name == net.name
        }),
{
}

/// A beacon of another node of the group is believed in all it says, as of now, at the
/// machine it came from; it takes the place of what was heard of that node before and touches
/// nobody else. That somebody is here is told exactly when the node was not known.
pub proof fn law_a_beacon_is_believed(
    net: NetView,
    b: BeaconView,
    ip: IpView,
    now: u64,
    k: int,
)
    requires
        sendable(MessageView::Beacon(b)),
        b.node_id != net.node_id && b.group == net.group,
        net.wf(),
    ensures
        ({
            let (after, news) = net.hearing(encoded(MessageView::Beacon(b)), ip, now);
            let p = PeerView {
                node_id: b.node_id,
                addr: AddressView { ip, port: b.tcp_port, flow: 0, scope: 0 },
                name: b.name,
                screen: (b.screen_w, b.screen_h),
                blobs: b.blobs,
                capacity: b.capacity,
                last_seen: now,
                pinned_edge: None,
            };
            let known = exists|i: int|
                0 <= i < net.peers.len() && (#[trigger] net.peers[i]).node_id == b.node_id;
            &&& after.peers.contains(p)
            &&& after == (NetView { peers: after.peers, pinned: after.pinned, ..net })
            &&& known ==> news is None && after.peers.len() == net.peers.len()
            &&& !known ==> news == Some(
                NetEventView::PeerUp { name: p.label(), addr: p.addr, screen: p.screen },
            ) && after.peers == net.peers.push(p)
            &&& 0 <= k < net.peers.len() && net.peers[k].node_id != b.node_id ==> after.peers[k]
                == net.peers[k]
        }),
{
    let m = MessageView::Beacon(b);
    law_round_trip(m, Seq::empty());
    assert(encoded(m) + Seq::empty() =~= encoded(m));
    let p = NetView::announced(b, ip, now);
    let after = updated(net.peers, p);
    assert(has_node(net.peers, b.node_id) == exists|i: int|
        0 <= i < net.peers.len() && (#[trigger] net.peers[i]).node_id == b.node_id);
    if has_node(net.peers, b.node_id) {
        let i = choose|i: int|
            0 <= i < net.peers.len() && (#[trigger] net.peers[i]).node_id == b.node_id;
        assert(after[i] == p);
    } else {
        assert(after[net.peers.len() as int] == p);
    }
}

/// A peer that has been silent for more than four and a half seconds is forgotten and
/// reported by its label; any other stays, just as it was. Nothing else changes.
pub proof fn law_the_silent_are_forgotten(net: NetView, now: u64, p: PeerView)
    ensures
        ({
            let (after, gone) = net.pruning(now);
            let silent = now - p.last_seen > 4_500_000_000;
            &&& after == (NetView { peers: after.peers, ..net })
            &&& after.peers.contains(p) <==> net.peers.contains(p) && !silent
            &&& net.peers.contains(p) && silent ==> gone.contains(
                NetEventView::PeerDown { name: p.label() },
            )
            &&& gone.len() + after.peers.len() == net.peers.len()
        }),
{
    let out = |p: PeerView| silent(p, now);
    let stay = |p: PeerView| !silent(p, now);
    lemma_filter_contains(net.peers, stay, p);
    lemma_filter_contains(net.peers, out, p);
    lemma_filters_part(net.peers, now);
    let gone = departed(net.peers, now);
    if gone.contains(p) {
        let k = choose|k: int| 0 <= k < gone.len() && gone[k] == p;
        assert(farewells(gone)[k] == (NetEventView::PeerDown { name: p.label() }));
    }
}

proof fn lemma_filter_contains(list: Seq<PeerView>, pred: spec_fn(PeerView) -> bool, p: PeerView)
    ensures
        list.filter(pred).contains(p) <==> list.contains(p) && pred(p),
    decreases list.len(),
{
    reveal(Seq::filter);
    if list.len() > 0 {
        let head = list.drop_last();
        let out = list.filter(pred);
        let sub = head.filter(pred);
        lemma_filter_contains(head, pred, p);
        if list.contains(p) && pred(p) {
            let k = choose|k: int| 0 <= k < list.len() && list[k] == p;
            if k < head.len() {
                assert(head[k] == p);
                assert(sub.contains(p));
                let j = choose|j: int| 0 <= j < sub.len() && sub[j] == p;
                assert(out[j] == p);
            } else {
                assert(out[sub.len() as int] == p);
            }
        }
        if out.contains(p) {
            let j = choose|j: int| 0 <= j < out.len() && out[j] == p;
            if j < sub.len() {
                assert(sub[j] == p);
                assert(sub.contains(p));
                let k = choose|k: int| 0 <= k < head.len() && head[k] == p;
                assert(list[k] == p);
            } else {
                assert(list[list.len() - 1] == p);
            }
        }
    }
}

proof fn lemma_filters_part(list: Seq<PeerView>, now: u64)
    ensures
        still_there(list, now).len() + departed(list, now).len() == list.len(),
    decreases list.len(),
{
    reveal(Seq::filter);
    if list.len() > 0 {
        lemma_filters_part(list.drop_last(), now);
    }
}

/// A node announces itself at once, and from then on whenever a second has gone by.
pub proof fn law_a_node_announces_itself_every_second(last: u64, now: u64)
    ensures
        beacon_due(None, now),
        beacon_due(Some(last), now) <==> now >= last + 1_000_000_000,
{
}

/// A promise that is kept frees its slot, one at a time, and never below none.
pub proof fn law_a_kept_promise_frees_its_slot(net: NetView)
    ensures
        net.reserved > 0 ==> net.committed().reserved == net.reserved - 1,
        net.reserved == 0 ==> net.committed().reserved == 0,
        net.committed() == (NetView { reserved: net.committed().reserved, ..net }),
{
}

/// A node believes what it is told of its own screen.
pub proof fn law_a_node_knows_its_screen(net: NetView, n: u32, w: u32, h: u32)
    ensures
        net.with_resident(n as nat).resident == n,
        net.with_resident(n as nat) == (NetView { resident: n, ..net }),
        net.with_screen(w, h).screen == (w, h),
        net.with_screen(w, h) == (NetView { screen: (w, h), ..net }),
{
}

/// A node begins as it was told to be: in its group, under its name, with its peers and with
/// room for as many blobs as it may hold, for one at least. It has heard of nobody, accepted
/// nothing and holds nothing, so there is room; and without a pinned peer there is nobody to
/// throw to.
pub proof fn law_a_node_begins_with_nothing(
    cfg: NetConfig,
    node_id: u64,
    tcp_port: u16,
    edge: Edge,
    now: u64,
)
    ensures
        ({
            let net = NetView::beginning(cfg, node_id, tcp_port);
            &&& net.group == cfg.group@ && net.name == cfg.name@
            &&& net.discovery == cfg.discovery
            &&& net.node_id == node_id && net.tcp_port == tcp_port
            &&& net.pinned.len() == cfg.pinned@.len()
            &&& forall|i: int|
                0 <= i < cfg.pinned@.len() ==> (#[trigger] net.pinned[i]) == cfg.pinned@[i]@
            &&& cfg.capacity > 0 ==> net.capacity == cfg.capacity
            &&& cfg.capacity == 0 ==> net.capacity == 1
            &&& net.resident + net.reserved < net.capacity
            &&& net.peers.len() == 0 && net.learned.len() == 0 && net.seen.len() == 0
            &&& net.resident == 0 && net.reserved == 0
            &&& cfg.pinned@.len() == 0 ==> net.door(edge, now) is None
        }),
{
    let net = NetView::beginning(cfg, node_id, tcp_port);
    if cfg.pinned@.len() == 0 {
        assert(net.known(now).len() == 0);
    }
}

/// The id of a throw is the node's, sixteen bits up, with the count of its throws below; and
/// each throw counts one on, to begin at nothing again after the last number.
pub proof fn law_a_throw_id_is_node_and_count(
    net: NetView,
    edge: Edge,
    along: Single,
    vel: (Single, Single),
    sats: Seq<SatState>,
    now: u64,
)
    ensures
        ({
            let (after, sent) = net.throwing(edge, along, vel, sats, now);
            &&& sent is Some && net.node_id < 0x1_0000_0000_0000 && net.next_throw < 0x1_0000
                ==> sent->0.throw_id == net.node_id * 0x1_0000 + net.next_throw
            &&& sent is Some && net.next_throw < u64::MAX ==> after.next_throw == net.next_throw + 1
            &&& sent is Some && net.next_throw == u64::MAX ==> after.next_throw == 0
            &&& sent is None ==> after.next_throw == net.next_throw
        }),
{
    let (n, k) = (net.node_id, net.next_throw);
    assert(n < 0x1_0000_0000_0000 && k < 0x1_0000 ==> ((n << 16) ^ k) == n * 0x1_0000 + k)
        by (bit_vector);
}

} // verus!

//! What holds of a whole connection, however its bytes come in: of the one that throws are
//! caught on, and of the one that a receipt is awaited on.

use crate::address::AddressView;
use crate::net::{InboundView, NetEventView, NetView};
use crate::receipt::{
    awaited, delivered, heeded, reported, word_on, Attempt, Delivery, ReadingView, SetbackView,
    Word,
};
use crate::wire::{
    decoded, encoded, header_of, DecodeError, MessageView, NackReason, ThrowView, HEADER_LEN,
};
use crate::wire_laws::{
    law_a_bad_header_stays_bad, law_following_bytes_do_not_matter, law_round_trip,
    law_what_is_no_frame, sendable,
};
use vstd::prelude::*;

verus! {

/// The throws in the bytes of a connection, in order. Other frames are passed over; at an
/// unfinished or a broken frame it ends.
pub open spec fn throws_in(buf: Seq<u8>) -> Seq<ThrowView>
    decreases buf.len(),
{
    match decoded(buf) {
        Ok((MessageView::Throw(t), used)) => seq![t] + throws_in(buf.skip(used as int)),
        Ok((_, used)) => throws_in(buf.skip(used as int)),
        Err(DecodeError::UnknownKind(_)) => throws_in(
            buf.skip(HEADER_LEN + (header_of(buf)->Ok_0).1),
        ),
        Err(_) => Seq::empty(),
    }
}

/// What has come of the bytes of an inbound connection.
pub struct Served {
    /// The node after it.
    pub net: NetView,
    /// The answers that were sent, in order.
    pub replies: Seq<Seq<u8>>,
    /// The throws that the frame loop took, in order.
    pub arrived: Seq<ThrowView>,
    /// The bytes of a frame that is not complete yet.
    pub left: Seq<u8>,
    /// Whether the connection was closed over a broken frame.
    pub closed: bool,
}

/// One frame after the other is looked at by [`crate::net::Net::receive`], and each offer
/// settled by [`crate::net::Net::settle`]. `at` is how many bytes came before `buf`; at that
/// point of the stream the time is `clock(at)`, and the frame loop takes a throw if
/// `takes(at)`.
pub open spec fn serving(
    net: NetView,
    buf: Seq<u8>,
    at: nat,
    from: AddressView,
    clock: spec_fn(nat) -> u64,
    takes: spec_fn(nat) -> bool,
) -> Served
    decreases buf.len(),
{
    let (next, what) = net.receiving(buf, from, clock(at));
    match what {
        InboundView::Wait => Served {
            net: next,
            replies: Seq::empty(),
            arrived: Seq::empty(),
            left: buf,
            closed: false,
        },
        InboundView::Close { .. } => Served {
            net: next,
            replies: Seq::empty(),
            arrived: Seq::empty(),
            left: Seq::empty(),
            closed: true,
        },
        InboundView::Skip { used } => serving(
            next,
            buf.skip(used as int),
            at + used,
            from,
            clock,
            takes,
        ),
        InboundView::Reply { used, reply } => {
            let s = serving(next, buf.skip(used as int), at + used, from, clock, takes);
            Served { replies: seq![reply] + s.replies, ..s }
        },
        InboundView::Offer { used, throw } => {
            let (settled, reply) = next.settling(throw.throw_id, takes(at));
            let s = serving(settled, buf.skip(used as int), at + used, from, clock, takes);
            Served {
                replies: seq![reply] + s.replies,
                arrived: if takes(at) {
                    seq![throw] + s.arrived
                } else {
                    s.arrived
                },
                ..s
            }
        },
    }
}

/// The slots that nothing is in and nothing is promised.
pub open spec fn free_slots(net: NetView) -> int {
    if net.has_room() {
        net.capacity - net.resident - net.reserved
    } else {
        0
    }
}

/// Whether a reply is an answer to a throw: an acknowledgement, or a refusal for want of
/// room.
pub open spec fn answers(reply: Seq<u8>, t: ThrowView) -> bool {
    reply == encoded(MessageView::Ack(t.throw_id)) || reply == encoded(
        MessageView::Nack(t.throw_id, NackReason::Full),
    )
}

/// Whether a throw is among those of a connection and was acknowledged there.
pub open spec fn acknowledged(throws: Seq<ThrowView>, replies: Seq<Seq<u8>>, t: ThrowView) -> bool {
    exists|k: int|
        0 <= k < throws.len() && 0 <= k < replies.len() && #[trigger] throws[k] == t && replies[k]
            == encoded(MessageView::Ack(t.throw_id))
}

/// Over a whole connection every throw gets one answer, in order and with its own id. As
/// many throws are taken as slots were newly promised, never more than were free, and each
/// that was taken has been acknowledged.
pub proof fn law_every_throw_is_answered_once_and_in_order(
    net: NetView,
    buf: Seq<u8>,
    at: nat,
    from: AddressView,
    clock: spec_fn(nat) -> u64,
    takes: spec_fn(nat) -> bool,
)
    requires
        net.wf(),
    ensures
        ({
            let s = serving(net, buf, at, from, clock, takes);
            let throws = throws_in(buf);
            &&& s.replies.len() == throws.len()
            &&& forall|k: int|
                0 <= k < throws.len() ==> answers(#[trigger] s.replies[k], throws[k])
            &&& s.net.reserved == net.reserved + s.arrived.len()
            &&& s.arrived.len() <= free_slots(net)
            &&& s.net.resident == net.resident && s.net.capacity == net.capacity
            &&& forall|j: int|
                0 <= j < s.arrived.len() ==> acknowledged(
                    throws,
                    s.replies,
                    #[trigger] s.arrived[j],
                )
        }),
    decreases buf.len(),
{
    let s = serving(net, buf, at, from, clock, takes);
    let throws = throws_in(buf);
    let (next, what) = net.receiving(buf, from, clock(at));
    match what {
        InboundView::Wait => {},
        InboundView::Close { .. } => {},
        InboundView::Skip { used } => {
            law_every_throw_is_answered_once_and_in_order(
                next,
                buf.skip(used as int),
                at + used,
                from,
                clock,
                takes,
            );
        },
        InboundView::Reply { used, reply } => {
            let t = (decoded(buf)->Ok_0).0->Throw_0;
            lemma_learning_keeps_wf(net, t, from, clock(at));
            lemma_answered_on(next, buf, at, used, reply, t, from, clock, takes, s);
        },
        InboundView::Offer { used, throw } => {
            lemma_learning_keeps_wf(net, throw, from, clock(at));
            let (settled, reply) = next.settling(throw.throw_id, takes(at));
            if takes(at) {
                lemma_accepting_keeps_wf(next, throw.throw_id);
            }
            lemma_answered_on(settled, buf, at, used, reply, throw, from, clock, takes, s);
            if takes(at) {
                assert(throws[0] == throw);
                assert(acknowledged(throws, s.replies, throw));
            }
        },
    }
}

proof fn lemma_learning_keeps_wf(net: NetView, t: ThrowView, from: AddressView, now: u64)
    requires
        net.wf(),
    ensures
        net.after_learning(t, from.ip, now).wf(),
{
    let list = net.learned;
    let after = net.after_learning(t, from.ip, now).learned;
    assert forall|i: int, j: int| 0 <= i < after.len() && 0 <= j < after.len() && i != j implies (
    #[trigger] after[i]).node_id != (#[trigger] after[j]).node_id by {
        if i < list.len() && j < list.len() {
            assert(list[i].node_id != list[j].node_id);
        }
    }
}

proof fn lemma_accepting_keeps_wf(net: NetView, throw_id: u64)
    requires
        net.wf(),
        net.has_room(),
        !net.seen.contains(throw_id),
    ensures
        net.accepting(throw_id).wf(),
{
    let kept = if net.seen.len() == crate::net::SEEN_RING {
        net.seen.skip(1)
    } else {
        net.seen
    };
    assert(!kept.contains(throw_id)) by {
        if kept.contains(throw_id) {
            let k = choose|k: int| 0 <= k < kept.len() && kept[k] == throw_id;
            if net.seen.len() == crate::net::SEEN_RING {
                assert(net.seen[k + 1] == throw_id);
            } else {
                assert(net.seen[k] == throw_id);
            }
        }
    }
    assert(net.accepting(throw_id).seen.no_duplicates());
}

/// One answered throw in front of the rest of a connection.
proof fn lemma_answered_on(
    then: NetView,
    buf: Seq<u8>,
    at: nat,
    used: nat,
    reply: Seq<u8>,
    t: ThrowView,
    from: AddressView,
    clock: spec_fn(nat) -> u64,
    takes: spec_fn(nat) -> bool,
    s: Served,
)
    requires
        then.wf(),
        decoded(buf) == Ok::<(MessageView, nat), DecodeError>((MessageView::Throw(t), used)),
        answers(reply, t),
        s.replies == seq![reply] + serving(
            then,
            buf.skip(used as int),
            at + used,
            from,
            clock,
            takes,
        ).replies,
    ensures
        ({
            let rest = serving(then, buf.skip(used as int), at + used, from, clock, takes);
            let throws = throws_in(buf);
            &&& throws[0] == t && s.replies[0] == reply
            &&& s.replies.len() == throws.len()
            &&& forall|k: int|
                0 <= k < throws.len() ==> answers(#[trigger] s.replies[k], throws[k])
            &&& rest.net.reserved == then.reserved + rest.arrived.len()
            &&& rest.arrived.len() <= free_slots(then)
            &&& rest.net.resident == then.resident && rest.net.capacity == then.capacity
            &&& forall|j: int|
                0 <= j < rest.arrived.len() ==> acknowledged(
                    throws,
                    s.replies,
                    #[trigger] rest.arrived[j],
                )
        }),
    decreases buf.len(), 0int,
{
    let tail = buf.skip(used as int);
    let rest = serving(then, tail, at + used, from, clock, takes);
    let throws = throws_in(buf);
    law_every_throw_is_answered_once_and_in_order(then, tail, at + used, from, clock, takes);
    assert(throws == seq![t] + throws_in(tail));
    assert forall|k: int| 0 <= k < throws.len() implies answers(
        #[trigger] s.replies[k],
        throws[k],
    ) by {
        if k > 0 {
            assert(answers(rest.replies[k - 1], throws_in(tail)[k - 1]));
        }
    }
    assert forall|j: int| 0 <= j < rest.arrived.len() implies acknowledged(
        throws,
        s.replies,
        #[trigger] rest.arrived[j],
    ) by {
        let x = rest.arrived[j];
        assert(acknowledged(throws_in(tail), rest.replies, x));
        let k = choose|k: int|
            0 <= k < throws_in(tail).len() && 0 <= k < rest.replies.len() && #[trigger] throws_in(
                tail,
            )[k] == x && rest.replies[k] == encoded(MessageView::Ack(x.throw_id));
        assert(throws[k + 1] == x);
        assert(s.replies[k + 1] == rest.replies[k]);
    }
}

/// What is decided about a frame that is there does not depend on what follows it.
proof fn lemma_receiving_on(net: NetView, a: Seq<u8>, b: Seq<u8>, from: AddressView, now: u64)
    ensures
        !(net.receiving(a, from, now).1 is Wait) ==> net.receiving(a + b, from, now)
            == net.receiving(a, from, now),
        match net.receiving(a, from, now).1 {
            InboundView::Skip { used } => 0 < used <= a.len() && (a + b).skip(used as int)
                == a.skip(used as int) + b,
            InboundView::Reply { used, .. } => 0 < used <= a.len() && (a + b).skip(used as int)
                == a.skip(used as int) + b,
            InboundView::Offer { used, .. } => 0 < used <= a.len() && (a + b).skip(used as int)
                == a.skip(used as int) + b,
            InboundView::Wait => net.receiving(a, from, now).0 == net,
            InboundView::Close { .. } => true,
        },
{
    if header_of(a) is Ok {
        law_following_bytes_do_not_matter(a, b);
        let used = HEADER_LEN + (header_of(a)->Ok_0).1;
        assert((a + b).skip(used) =~= a.skip(used) + b);
    } else if header_of(a) != Err::<(u16, nat), DecodeError>(DecodeError::Truncated) {
        law_a_bad_header_stays_bad(a, b);
    }
}

/// What has come of two pieces of a connection, one after the other.
pub open spec fn joined(first: Served, then: Served) -> Served {
    Served {
        replies: first.replies + then.replies,
        arrived: first.arrived + then.arrived,
        ..then
    }
}

/// It does not matter in which pieces the bytes of a connection come in: what is left of
/// one piece, followed by the next, leads to the same answers and the same throws as both
/// together; and once the connection is closed nothing that follows is looked at.
pub proof fn law_pieces_of_a_connection_do_not_matter(
    net: NetView,
    a: Seq<u8>,
    b: Seq<u8>,
    at: nat,
    from: AddressView,
    clock: spec_fn(nat) -> u64,
    takes: spec_fn(nat) -> bool,
)
    ensures
        ({
            let first = serving(net, a, at, from, clock, takes);
            let both = serving(net, a + b, at, from, clock, takes);
            let read = (at + a.len() - first.left.len()) as nat;
            &&& first.left.len() <= a.len()
            &&& first.closed ==> both == first
            &&& !first.closed ==> both == joined(
                first,
                serving(first.net, first.left + b, read, from, clock, takes),
            )
        }),
    decreases a.len(),
{
    let first = serving(net, a, at, from, clock, takes);
    let both = serving(net, a + b, at, from, clock, takes);
    let (next, what) = net.receiving(a, from, clock(at));
    lemma_receiving_on(net, a, b, from, clock(at));
    match what {
        InboundView::Wait => {
            assert(first.left == a && first.net == net);
            assert(joined(first, both).replies =~= both.replies);
            assert(joined(first, both).arrived =~= both.arrived);
        },
        InboundView::Close { .. } => {},
        InboundView::Skip { used } => {
            let rest = a.skip(used as int);
            law_pieces_of_a_connection_do_not_matter(next, rest, b, at + used, from, clock, takes);
            assert(first == serving(next, rest, at + used, from, clock, takes));
            assert(both == serving(next, rest + b, at + used, from, clock, takes));
        },
        InboundView::Reply { used, reply } => {
            let rest = a.skip(used as int);
            law_pieces_of_a_connection_do_not_matter(next, rest, b, at + used, from, clock, takes);
            let s = serving(next, rest, at + used, from, clock, takes);
            let t = serving(next, rest + b, at + used, from, clock, takes);
            assert(first == (Served { replies: seq![reply] + s.replies, ..s }));
            assert(both == (Served { replies: seq![reply] + t.replies, ..t }));
            let read = (at + a.len() - s.left.len()) as nat;
            lemma_joined_behind(s, t, b, read, from, clock, takes, reply, Seq::empty());
            assert(Seq::<ThrowView>::empty() + s.arrived =~= s.arrived);
            assert(Seq::<ThrowView>::empty() + t.arrived =~= t.arrived);
        },
        InboundView::Offer { used, throw } => {
            let rest = a.skip(used as int);
            let (settled, reply) = next.settling(throw.throw_id, takes(at));
            law_pieces_of_a_connection_do_not_matter(
                settled,
                rest,
                b,
                at + used,
                from,
                clock,
                takes,
            );
            let s = serving(settled, rest, at + used, from, clock, takes);
            let t = serving(settled, rest + b, at + used, from, clock, takes);
            let taken = if takes(at) {
                seq![throw]
            } else {
                Seq::empty()
            };
            assert(taken + s.arrived =~= if takes(at) {
                seq![throw] + s.arrived
            } else {
                s.arrived
            });
            assert(taken + t.arrived =~= if takes(at) {
                seq![throw] + t.arrived
            } else {
                t.arrived
            });
            assert(first == (Served {
                replies: seq![reply] + s.replies,
                arrived: taken + s.arrived,
                ..s
            }));
            assert(both == (Served {
                replies: seq![reply] + t.replies,
                arrived: taken + t.arrived,
                ..t
            }));
            let read = (at + a.len() - s.left.len()) as nat;
            lemma_joined_behind(s, t, b, read, from, clock, takes, reply, taken);
        },
    }
}

/// What came first stays first when two pieces are joined behind it.
proof fn lemma_joined_behind(
    s: Served,
    t: Served,
    b: Seq<u8>,
    read: nat,
    from: AddressView,
    clock: spec_fn(nat) -> u64,
    takes: spec_fn(nat) -> bool,
    reply: Seq<u8>,
    taken: Seq<ThrowView>,
)
    requires
        s.closed ==> t == s,
        !s.closed ==> t == joined(s, serving(s.net, s.left + b, read, from, clock, takes)),
    ensures
        ({
            let first = Served {
                replies: seq![reply] + s.replies,
                arrived: taken + s.arrived,
                ..s
            };
            let both = Served {
                replies: seq![reply] + t.replies,
                arrived: taken + t.arrived,
                ..t
            };
            &&& s.closed ==> both == first
            &&& !s.closed ==> both == joined(
                first,
                serving(s.net, s.left + b, read, from, clock, takes),
            )
        }),
{
    let u = serving(s.net, s.left + b, read, from, clock, takes);
    assert(seq![reply] + (s.replies + u.replies) =~= (seq![reply] + s.replies) + u.replies);
    assert(taken + (s.arrived + u.arrived) =~= (taken + s.arrived) + u.arrived);
}

/// It does not matter in which pieces a receipt comes in: a piece that says nothing yet
/// leaves what the next one is to be read behind, and an answer or a broken frame stands
/// whatever follows.
pub proof fn law_a_receipt_may_come_in_pieces(throw_id: u64, a: Seq<u8>, b: Seq<u8>)
    ensures
        word_on(throw_id, a + b) == (match word_on(throw_id, a) {
            Word::Nothing(rest) => word_on(throw_id, rest + b),
            said => said,
        }),
    decreases a.len(),
{
    if header_of(a) is Ok {
        law_following_bytes_do_not_matter(a, b);
        let used = HEADER_LEN + (header_of(a)->Ok_0).1;
        assert((a + b).skip(used) =~= a.skip(used) + b);
        law_a_receipt_may_come_in_pieces(throw_id, a.skip(used), b);
    } else if header_of(a) != Err::<(u16, nat), DecodeError>(DecodeError::Truncated) {
        law_a_bad_header_stays_bad(a, b);
    }
}

/// All the bytes that are read in time, up to the first turn that brings none.
pub open spec fn read_in_time(deadline: u64, turns: Seq<Attempt>) -> Seq<u8>
    decreases turns.len(),
{
    if turns.len() == 0 || turns[0].at >= deadline {
        Seq::empty()
    } else {
        match turns[0].reading {
            ReadingView::Bytes(b) => b + read_in_time(deadline, turns.skip(1)),
            _ => Seq::empty(),
        }
    }
}

/// Why the reading ends: what is wrong with the first turn that brings no bytes in time.
/// `None` if every turn brings some.
pub open spec fn ended_by(deadline: u64, turns: Seq<Attempt>) -> Option<Seq<char>>
    decreases turns.len(),
{
    if turns.len() == 0 {
        None
    } else if turns[0].at >= deadline {
        Some("no receipt within the deadline"@)
    } else {
        match turns[0].reading {
            ReadingView::Bytes(_) => ended_by(deadline, turns.skip(1)),
            ReadingView::Closed => Some("the peer closed the connection without a receipt"@),
            ReadingView::TimedOut => Some("no receipt within the deadline"@),
            ReadingView::Failed(e) => Some("reading the receipt failed: "@ + e),
        }
    }
}

/// What is left of bytes that say nothing yet says nothing either, and is all that is left.
proof fn lemma_nothing_left(throw_id: u64, buf: Seq<u8>)
    ensures
        word_on(throw_id, buf) matches Word::Nothing(rest) ==> word_on(throw_id, rest)
            == Word::Nothing(rest),
    decreases buf.len(),
{
    if header_of(buf) is Ok {
        let used = HEADER_LEN + (header_of(buf)->Ok_0).1;
        lemma_nothing_left(throw_id, buf.skip(used));
    }
}

/// What a wait comes to depends on all the bytes together that are read in time, and not on
/// the pieces they come in: the first word in them on the throw, if there is one, and
/// otherwise whatever ends the reading.
pub proof fn law_a_wait_comes_to_the_first_word(
    throw_id: u64,
    deadline: u64,
    buf: Seq<u8>,
    turns: Seq<Attempt>,
)
    requires
        word_on(throw_id, buf) == Word::Nothing(buf),
    ensures
        awaited(throw_id, deadline, buf, turns) == (match word_on(
            throw_id,
            buf + read_in_time(deadline, turns),
        ) {
            Word::Answer(d) => Some(Ok(d)),
            Word::Broken(e) => Some(Err("the receipt did not parse: "@ + e.words())),
            Word::Nothing(_) => match ended_by(deadline, turns) {
                Some(why) => Some(Err(why)),
                None => None,
            },
        }),
    decreases turns.len(),
{
    let heard = read_in_time(deadline, turns);
    if turns.len() == 0 || turns[0].at >= deadline || !(turns[0].reading is Bytes) {
        assert(buf + heard =~= buf);
    } else {
        let b = turns[0].reading->Bytes_0;
        let more = read_in_time(deadline, turns.skip(1));
        assert(buf + heard =~= (buf + b) + more);
        law_a_receipt_may_come_in_pieces(throw_id, buf + b, more);
        match word_on(throw_id, buf + b) {
            Word::Nothing(rest) => {
                lemma_nothing_left(throw_id, buf + b);
                law_a_wait_comes_to_the_first_word(throw_id, deadline, rest, turns.skip(1));
            },
            _ => {},
        }
    }
}

/// Whether a wait has been brought to an end: by a word on the throw in the bytes read in
/// time, by something that does not parse, or by the end of the reading.
pub open spec fn wait_is_over(throw_id: u64, deadline: u64, turns: Seq<Attempt>) -> bool {
    !(word_on(throw_id, read_in_time(deadline, turns)) is Nothing) || ended_by(deadline, turns)
        is Some
}

/// Every throw comes to one outcome, and it is told truly. Once there was a setback, or the
/// wait is over, there is an outcome, and nothing that is read later changes it. The event
/// says that the throw landed exactly if the first receipt for it, in all the bytes read in
/// time, is the acknowledgement; that it was refused exactly if that receipt is the refusal,
/// and with its reason; and otherwise that it was lost, with a reason that is not empty.
pub proof fn law_a_throw_is_reported_truly(
    throw_id: u64,
    peer: Seq<char>,
    setback: Option<(SetbackView, Seq<char>)>,
    deadline: u64,
    turns: Seq<Attempt>,
    later: Seq<Attempt>,
)
    ensures
        ({
            let outcome = delivered(throw_id, setback, deadline, turns);
            let word = word_on(throw_id, read_in_time(deadline, turns));
            let e = reported(throw_id, peer, outcome->0);
            &&& outcome is Some <==> setback is Some || wait_is_over(throw_id, deadline, turns)
            &&& outcome is Some ==> {
                &&& delivered(throw_id, setback, deadline, turns + later) == outcome
                &&& e is Landed <==> setback is None && word == Word::Answer(Delivery::Ack)
                &&& e is Refused <==> setback is None && (word matches Word::Answer(
                    Delivery::Nack(_),
                ))
                &&& match e {
                    NetEventView::Landed { throw_id: id, .. } => id == throw_id,
                    NetEventView::Refused { throw_id: id, why, .. } => id == throw_id && word
                        == Word::Answer(Delivery::Nack(why)),
                    NetEventView::Lost { throw_id: id, why, .. } => id == throw_id && why.len()
                        > 0,
                    _ => false,
                }
            }
        }),
{
    let none = Seq::<u8>::empty();
    assert(word_on(throw_id, none) == Word::Nothing(none));
    law_a_wait_comes_to_the_first_word(throw_id, deadline, none, turns);
    assert(none + read_in_time(deadline, turns) =~= read_in_time(deadline, turns));
    lemma_an_outcome_stands(throw_id, deadline, none, turns, later);
    lemma_an_end_has_a_reason(deadline, turns);
    reveal_strlit("the receipt did not parse: ");
    reveal_strlit("could not reach ");
    reveal_strlit("could not set a read timeout: ");
    reveal_strlit("could not set a write timeout: ");
    reveal_strlit("could not send the throw: ");
}

proof fn lemma_an_outcome_stands(
    throw_id: u64,
    deadline: u64,
    buf: Seq<u8>,
    turns: Seq<Attempt>,
    later: Seq<Attempt>,
)
    ensures
        awaited(throw_id, deadline, buf, turns) is Some ==> awaited(
            throw_id,
            deadline,
            buf,
            turns + later,
        ) == awaited(throw_id, deadline, buf, turns),
    decreases turns.len(),
{
    if turns.len() > 0 {
        let all = turns + later;
        assert(all[0] == turns[0]);
        assert(all.skip(1) =~= turns.skip(1) + later);
        if turns[0].at < deadline && heeded(throw_id, buf, turns[0].reading) is None {
            let left = word_on(throw_id, buf + turns[0].reading->Bytes_0)->Nothing_0;
            lemma_an_outcome_stands(throw_id, deadline, left, turns.skip(1), later);
        }
    }
}

proof fn lemma_an_end_has_a_reason(deadline: u64, turns: Seq<Attempt>)
    ensures
        ended_by(deadline, turns) matches Some(why) ==> why.len() > 0,
    decreases turns.len(),
{
    reveal_strlit("the peer closed the connection without a receipt");
    reveal_strlit("no receipt within the deadline");
    reveal_strlit("reading the receipt failed: ");
    if turns.len() > 0 {
        lemma_an_end_has_a_reason(deadline, turns.skip(1));
    }
}

/// Frame by frame the wait goes on until one speaks of the throw: its own receipt or refusal
/// is the answer, and every other message, the receipts and refusals of other throws among
/// them, is passed over. What is no frame at all breaks it off.
pub proof fn law_only_its_own_answer_ends_a_wait(throw_id: u64, m: MessageView, rest: Seq<u8>)
    requires
        sendable(m),
    ensures
        ({
            let word = word_on(throw_id, encoded(m) + rest);
            &&& match m {
                MessageView::Ack(id) => if id == throw_id {
                    word == Word::Answer(Delivery::Ack)
                } else {
                    word == word_on(throw_id, rest)
                },
                MessageView::Nack(id, why) => if id == throw_id {
                    word == Word::Answer(Delivery::Nack(why))
                } else {
                    word == word_on(throw_id, rest)
                },
                _ => word == word_on(throw_id, rest),
            }
            &&& word_on(throw_id, Seq::empty()) == Word::Nothing(Seq::empty())
            &&& rest.len() >= 12 && rest[0] != 0x4c ==> word_on(throw_id, rest) == Word::Broken(
                DecodeError::BadMagic,
            )
        }),
{
    law_round_trip(m, rest);
    assert((encoded(m) + rest).skip(encoded(m).len() as int) =~= rest);
    if rest.len() >= 12 && rest[0] != 0x4c {
        law_what_is_no_frame(rest);
    }
}

/// What came of a throw is told under its own id and of the peer that it was thrown to, and
/// with the reason that was given.
pub proof fn law_an_outcome_is_told_as_it_is(
    throw_id: u64,
    peer: Seq<char>,
    why: NackReason,
    trouble: Seq<char>,
)
    ensures
        reported(throw_id, peer, Ok(Delivery::Ack)) == (NetEventView::Landed { throw_id, peer }),
        reported(throw_id, peer, Ok(Delivery::Nack(why))) == (NetEventView::Refused {
            throw_id,
            peer,
            why,
        }),
        reported(throw_id, peer, Err(trouble)) == (NetEventView::Lost {
            throw_id,
            peer,
            why: trouble,
        }),
{
}

} // verus!

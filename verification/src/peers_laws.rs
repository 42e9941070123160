//! What holds of the peer list and of the doors it makes.

use crate::address::AddressView;
use crate::peers::{
    arranged, behind, bytes_before, dealt, gathered, held, held_on, knows, listed_before,
    pinned_peers, pinned_to, placed, turn, unpinned, with_missing, with_room, PeerView, PinView,
};
use crate::wire::Edge;
use vstd::prelude::*;
use vstd::seq_lib::group_seq_properties;
use vstd::utf8::encode_utf8;

verus! {

/// Of two byte strings at most one stands before the other, and standing behind is
/// transitive.
proof fn lemma_bytes_order(a: Seq<u8>, b: Seq<u8>, c: Seq<u8>)
    ensures
        !(bytes_before(a, b) && bytes_before(b, a)),
        !bytes_before(b, a) && !bytes_before(c, b) ==> !bytes_before(c, a),
    decreases a.len() + b.len() + c.len(),
{
    if a.len() > 0 && b.len() > 0 && c.len() > 0 {
        lemma_bytes_order(a.skip(1), b.skip(1), c.skip(1));
    } else if a.len() > 0 && b.len() > 0 {
        lemma_bytes_order(a.skip(1), b.skip(1), c);
    }
}

proof fn lemma_listing_order(p: PeerView, q: PeerView, r: PeerView)
    ensures
        !(listed_before(p, q) && listed_before(q, p)),
        !listed_before(q, p) && !listed_before(r, q) ==> !listed_before(r, p),
{
    lemma_bytes_order(
        encode_utf8(p.addr.written()),
        encode_utf8(q.addr.written()),
        encode_utf8(r.addr.written()),
    );
}

/// Nobody on the list stands before somebody listed earlier.
pub open spec fn in_order(list: Seq<PeerView>) -> bool {
    forall|i: int, j: int| 0 <= i < j < list.len() ==> !listed_before(list[j], list[i])
}

proof fn lemma_placed(list: Seq<PeerView>, x: PeerView)
    requires
        in_order(list),
    ensures
        in_order(placed(list, x)),
        placed(list, x).to_multiset() == list.to_multiset().insert(x),
        placed(list, x).len() == list.len() + 1,
    decreases list.len(),
{
    broadcast use group_seq_properties;

    if list.len() > 0 && listed_before(x, list.last()) {
        let head = list.drop_last();
        let last = list.last();
        lemma_placed(head, x);
        let p = placed(head, x);
        assert(list =~= head.push(last));
        assert forall|i: int, j: int| 0 <= i < j < p.push(last).len() implies !listed_before(
            p.push(last)[j],
            p.push(last)[i],
        ) by {
            if j == p.len() {
                assert(p.to_multiset().count(p[i]) > 0) by {
                    assert(p.contains(p[i]));
                }
                if p[i] != x {
                    assert(head.to_multiset().count(p[i]) > 0);
                    assert(head.contains(p[i]));
                    let k = choose|k: int| 0 <= k < head.len() && head[k] == p[i];
                    assert(list[k] == p[i]);
                    assert(list[head.len() as int] == last);
                } else {
                    lemma_listing_order(x, last, last);
                }
            }
        }
    } else {
        assert forall|i: int, j: int| 0 <= i < j < list.push(x).len() implies !listed_before(
            list.push(x)[j],
            list.push(x)[i],
        ) by {
            if j == list.len() {
                lemma_listing_order(list[i], list.last(), x);
                if i < list.len() - 1 {
                    assert(!listed_before(list[list.len() - 1], list[i]));
                }
            }
        }
    }
}

/// The listing is in order and neither loses nor invents a peer.
pub proof fn law_listing_is_an_ordering(list: Seq<PeerView>)
    ensures
        in_order(arranged(list)),
        arranged(list).to_multiset() == list.to_multiset(),
        arranged(list).len() == list.len(),
    decreases list.len(),
{
    broadcast use group_seq_properties;

    if list.len() > 0 {
        law_listing_is_an_ordering(list.drop_last());
        lemma_placed(arranged(list.drop_last()), list.last());
        assert(list =~= list.drop_last().push(list.last()));
    }
}

proof fn lemma_arranged_knows(list: Seq<PeerView>, addr: AddressView)
    ensures
        knows(list, addr) ==> knows(arranged(list), addr),
{
    broadcast use group_seq_properties;

    law_listing_is_an_ordering(list);
    if knows(list, addr) {
        let i = choose|i: int| 0 <= i < list.len() && (#[trigger] list[i]).addr.same(addr);
        let out = arranged(list);
        assert(list.contains(list[i]));
        assert(list.to_multiset().count(list[i]) > 0);
        assert(out.to_multiset().count(list[i]) > 0);
        assert(out.contains(list[i]));
        let k = choose|k: int| 0 <= k < out.len() && out[k] == list[i];
        assert(out[k].addr.same(addr));
    }
}

proof fn lemma_with_missing_knows(list: Seq<PeerView>, more: Seq<PeerView>, addr: AddressView)
    ensures
        knows(list, addr) || knows(more, addr) ==> knows(with_missing(list, more), addr),
        list.len() <= with_missing(list, more).len(),
        with_missing(list, more).take(list.len() as int) == list,
    decreases more.len(),
{
    if more.len() == 0 {
        assert(list.take(list.len() as int) =~= list);
    } else {
        let head = more.drop_last();
        let before = with_missing(list, head);
        let out = with_missing(list, more);
        lemma_with_missing_knows(list, head, addr);
        assert(out.take(list.len() as int) =~= before.take(list.len() as int));
        if knows(list, addr) || knows(more, addr) {
            if knows(before, addr) {
                let i = choose|i: int|
                    0 <= i < before.len() && (#[trigger] before[i]).addr.same(addr);
                assert(out[i].addr.same(addr));
            } else {
                let i = choose|i: int| 0 <= i < more.len() && (#[trigger] more[i]).addr.same(addr);
                if i < head.len() {
                    assert(head[i].addr.same(addr));
                    assert(knows(head, addr));
                }
                assert(more.last().addr.same(addr));
                if knows(before, more.last().addr) {
                    let j = choose|j: int|
                        0 <= j < before.len() && (#[trigger] before[j]).addr.same(
                            more.last().addr,
                        );
                    assert(before[j].addr.same(addr));
                }
                assert(out[before.len() as int].addr.same(addr));
            }
        }
    }
}

/// Everybody who was heard, who threw a blob here or who was named on the command line
/// is on the list.
pub proof fn law_nobody_known_is_missing(
    heard: Seq<PeerView>,
    learned: Seq<PeerView>,
    pinned: Seq<PinView>,
    now: u64,
    addr: AddressView,
)
    requires
        knows(heard, addr) || knows(learned, addr) || exists|i: int|
            0 <= i < pinned.len() && (#[trigger] pinned[i]).addr.same(addr),
    ensures
        knows(gathered(heard, learned, pinned, now), addr),
{
    let named = pinned_peers(pinned, now);
    let some = with_missing(heard, learned);
    lemma_with_missing_knows(heard, learned, addr);
    lemma_with_missing_knows(some, named, addr);
    if !knows(some, addr) {
        let i = choose|i: int| 0 <= i < pinned.len() && (#[trigger] pinned[i]).addr.same(addr);
        assert(named[i].addr.same(addr));
    }
    lemma_arranged_knows(with_missing(some, named), addr);
}

/// With nobody there, nothing is a door.
pub proof fn law_no_peers_no_doors(pins: Seq<PinView>, edge: Edge)
    ensures
        behind(Seq::empty(), pins, edge) is None,
{
    reveal(Seq::filter);
}

/// With a single peer and nothing pinned to any edge, every edge leads to it.
pub proof fn law_a_single_peer_is_behind_every_edge(p: PeerView, pins: Seq<PinView>, edge: Edge)
    requires
        forall|i: int| 0 <= i < pins.len() ==> (#[trigger] pins[i]).edge is None,
    ensures
        behind(seq![p], pins, edge) == Some(p),
{
    reveal_with_fuel(Seq::filter, 2);
    reveal_with_fuel(pinned_to, 2);
    let list = seq![p];
    assert(list.drop_last() =~= Seq::<PeerView>::empty());
    assert(list.skip(1) =~= Seq::<PeerView>::empty());
    assert(!held(pins, p.addr) && !held_on(pins, edge, p.addr));
    assert(unpinned(list, pins) =~= list);
    if p.full() {
        assert(with_room(list).len() == 0);
    } else {
        assert(with_room(list) =~= list);
    }
    assert(turn(edge) % 1 == 0);
}

/// A peer pinned to one edge owns that edge, and with nobody else there no other edge
/// leads anywhere. It is all the same whether the peer has been heard.
pub proof fn law_a_pinned_peer_owns_only_its_own_edge(
    p: PeerView,
    pin: PinView,
    own: Edge,
    edge: Edge,
)
    requires
        pin.edge == Some(own),
        p.addr.same(pin.addr),
    ensures
        behind(seq![p], seq![pin], edge) == (if edge == own {
            Some(p)
        } else {
            None
        }),
{
    reveal_with_fuel(Seq::filter, 2);
    reveal_with_fuel(pinned_to, 2);
    let list = seq![p];
    let pins = seq![pin];
    assert(list.drop_last() =~= Seq::<PeerView>::empty());
    assert(list.skip(1) =~= Seq::<PeerView>::empty());
    assert(pins[0].edge is Some && pins[0].addr.same(p.addr));
    assert(held(pins, p.addr));
    assert(held_on(pins, edge, p.addr) == (edge == own));
    assert(unpinned(list, pins) =~= Seq::<PeerView>::empty());
}

/// Whether `p` stands at place `k` of the list and nobody before it is pinned to the edge.
pub open spec fn first_pinned(
    list: Seq<PeerView>,
    pins: Seq<PinView>,
    edge: Edge,
    p: PeerView,
    k: int,
) -> bool {
    &&& 0 <= k < list.len()
    &&& list[k] == p
    &&& held_on(pins, edge, p.addr)
    &&& forall|j: int| 0 <= j < k ==> !held_on(pins, edge, (#[trigger] list[j]).addr)
}

proof fn lemma_pinned_to(list: Seq<PeerView>, pins: Seq<PinView>, edge: Edge)
    ensures
        pinned_to(list, pins, edge) is None <==> forall|k: int|
            0 <= k < list.len() ==> !held_on(pins, edge, (#[trigger] list[k]).addr),
        pinned_to(list, pins, edge) matches Some(p) ==> exists|k: int|
            first_pinned(list, pins, edge, p, k),
    decreases list.len(),
{
    if list.len() > 0 {
        let rest = list.skip(1);
        lemma_pinned_to(rest, pins, edge);
        assert forall|k: int| 0 < k < list.len() implies #[trigger] list[k] == rest[k - 1] by {}
        if held_on(pins, edge, list[0].addr) {
            assert(first_pinned(list, pins, edge, list[0], 0));
        } else {
            if pinned_to(rest, pins, edge) is Some {
                let p = pinned_to(rest, pins, edge)->0;
                let k = choose|k: int| first_pinned(rest, pins, edge, p, k);
                assert(list[k + 1] == p);
                assert forall|j: int| 0 <= j < k + 1 implies !held_on(
                    pins,
                    edge,
                    (#[trigger] list[j]).addr,
                ) by {
                    if j > 0 {
                        assert(!held_on(pins, edge, rest[j - 1].addr));
                    }
                }
                assert(first_pinned(list, pins, edge, p, k + 1));
            } else {
                assert forall|k: int| 0 <= k < list.len() implies !held_on(
                    pins,
                    edge,
                    (#[trigger] list[k]).addr,
                ) by {
                    if k > 0 {
                        assert(!held_on(pins, edge, rest[k - 1].addr));
                    }
                }
            }
        }
    }
}

/// A pinned peer wins its edge outright: if anybody is listed at an address that is pinned to
/// an edge, the edge leads to the first on the list who is.
pub proof fn law_a_pin_wins_outright(
    list: Seq<PeerView>,
    pins: Seq<PinView>,
    edge: Edge,
    i: int,
)
    requires
        0 <= i < pins.len(),
        pins[i].edge == Some(edge),
        knows(list, pins[i].addr),
    ensures
        behind(list, pins, edge) matches Some(p) && exists|k: int|
            first_pinned(list, pins, edge, p, k),
{
    lemma_pinned_to(list, pins, edge);
    let k = choose|k: int| 0 <= k < list.len() && (#[trigger] list[k]).addr.same(pins[i].addr);
    assert(pins[i].addr.same(list[k].addr));
    assert(held_on(pins, edge, list[k].addr));
}

proof fn lemma_filter_member(list: Seq<PeerView>, pred: spec_fn(PeerView) -> bool, k: int)
    requires
        0 <= k < list.filter(pred).len(),
    ensures
        list.contains(list.filter(pred)[k]),
        pred(list.filter(pred)[k]),
    decreases list.len(),
{
    reveal(Seq::filter);
    if list.len() > 0 {
        let head = list.drop_last();
        let out = list.filter(pred);
        if k < head.filter(pred).len() {
            lemma_filter_member(head, pred, k);
            let i = choose|i: int| 0 <= i < head.len() && head[i] == out[k];
            assert(list[i] == out[k]);
        } else {
            assert(list[list.len() - 1] == out[k]);
        }
    }
}

/// An edge leads to a listed peer: one that is pinned to that edge if there is one, and
/// otherwise one that is not pinned to any edge.
pub proof fn law_a_door_leads_to_a_listed_peer(
    list: Seq<PeerView>,
    pins: Seq<PinView>,
    edge: Edge,
)
    requires
        behind(list, pins, edge) is Some,
    ensures
        list.contains(behind(list, pins, edge)->0),
        held_on(pins, edge, (behind(list, pins, edge)->0).addr) || {
            &&& !held(pins, (behind(list, pins, edge)->0).addr)
            &&& forall|k: int|
                0 <= k < list.len() ==> !held_on(pins, edge, (#[trigger] list[k]).addr)
        },
{
    let pred = |p: PeerView| !held(pins, p.addr);
    lemma_pinned_to(list, pins, edge);
    match pinned_to(list, pins, edge) {
        Some(p) => {
            let k = choose|k: int| first_pinned(list, pins, edge, p, k);
            assert(list[k] == p);
        },
        None => {
            let free = unpinned(list, pins);
            let k = (turn(edge) % dealt(list, pins).len()) as int;
            if with_room(free).len() > 0 {
                lemma_filter_member(free, |p: PeerView| !p.full(), k);
                let i = choose|i: int| 0 <= i < free.len() && free[i] == with_room(free)[k];
                lemma_filter_member(list, pred, i);
            } else {
                lemma_filter_member(list, pred, k);
            }
        },
    }
}

/// A peer that said it was full is dealt an edge only if all the unpinned ones did.
pub proof fn law_a_full_peer_waits_for_the_others(
    list: Seq<PeerView>,
    pins: Seq<PinView>,
    edge: Edge,
)
    requires
        behind(list, pins, edge) is Some,
        !held_on(pins, edge, (behind(list, pins, edge)->0).addr),
        (behind(list, pins, edge)->0).full(),
    ensures
        forall|i: int|
            0 <= i < list.len() && !held(pins, (#[trigger] list[i]).addr) ==> list[i].full(),
{
    lemma_pinned_to(list, pins, edge);
    let free = unpinned(list, pins);
    let pred = |p: PeerView| !held(pins, p.addr);
    let room = |p: PeerView| !p.full();
    let k = (turn(edge) % dealt(list, pins).len()) as int;
    if with_room(free).len() > 0 {
        lemma_filter_member(free, room, k);
    }
    list.filter_lemma(pred);
    free.filter_lemma(room);
    assert forall|i: int| 0 <= i < list.len() && !held(pins, (#[trigger] list[i]).addr) implies
        list[i].full() by {
        assert(pred(list[i]));
        assert(list.filter(pred).contains(list[i]));
        let j = choose|j: int| 0 <= j < free.len() && free[j] == list[i];
        if !free[j].full() {
            assert(room(free[j]));
            assert(free.filter(room).contains(free[j]));
        }
    }
}

/// If there is any unpinned peer at all, every edge is a door.
pub proof fn law_any_unpinned_peer_opens_every_edge(
    list: Seq<PeerView>,
    pins: Seq<PinView>,
    i: int,
    edge: Edge,
)
    requires
        0 <= i < list.len(),
        !held(pins, list[i].addr),
    ensures
        behind(list, pins, edge) is Some,
{
    let pred = |p: PeerView| !held(pins, p.addr);
    list.filter_lemma(pred);
    assert(pred(list[i]));
    assert(list.filter(pred).contains(list[i]));
}

/// The peers are dealt onto the edges in turn: of those that are pinned to no edge, without
/// the ones that said they were full if any did not, the first is behind the right edge, the
/// next behind the left, then the bottom and the top, and from the front again if there are
/// fewer than four. So it is on each edge that nobody listed is pinned to.
pub proof fn law_peers_are_dealt_in_turn(list: Seq<PeerView>, pins: Seq<PinView>)
    ensures
        ({
            let free = list.filter(
                |p: PeerView|
                    !(exists|i: int|
                        0 <= i < pins.len() && (#[trigger] pins[i]).edge is Some
                            && pins[i].addr.same(p.addr)),
            );
            let room = free.filter(|p: PeerView| p.capacity == 0 || p.blobs < p.capacity);
            let turns = if room.len() > 0 {
                room
            } else {
                free
            };
            let n = turns.len() as int;
            &&& n > 0 && pinned_to(list, pins, Edge::Right) is None ==> behind(
                list,
                pins,
                Edge::Right,
            ) == Some(turns[0])
            &&& n > 0 && pinned_to(list, pins, Edge::Left) is None ==> behind(
                list,
                pins,
                Edge::Left,
            ) == Some(turns[1int % n])
            &&& n > 0 && pinned_to(list, pins, Edge::Bottom) is None ==> behind(
                list,
                pins,
                Edge::Bottom,
            ) == Some(turns[2int % n])
            &&& n > 0 && pinned_to(list, pins, Edge::Top) is None ==> behind(
                list,
                pins,
                Edge::Top,
            ) == Some(turns[3int % n])
        }),
{
    let free = |p: PeerView|
        !(exists|i: int|
            0 <= i < pins.len() && (#[trigger] pins[i]).edge is Some && pins[i].addr.same(p.addr));
    let room = |p: PeerView| p.capacity == 0 || p.blobs < p.capacity;
    assert(free =~= |p: PeerView| !held(pins, p.addr)) by {
        assert forall|p: PeerView| free(p) == !held(pins, p.addr) by {}
    }
    assert(room =~= |p: PeerView| !p.full());
    assert(dealt(list, pins).len() > 0 ==> 0int % (dealt(list, pins).len() as int) == 0) by {
        if dealt(list, pins).len() > 0 {
            vstd::arithmetic::div_mod::lemma_small_mod(0, dealt(list, pins).len());
        }
    }
}

/// With nothing pinned to any edge and up to four peers that all have room, each of them is
/// behind some edge, and with four of them behind four different ones.
pub proof fn law_up_to_four_peers_are_all_reached(
    list: Seq<PeerView>,
    pins: Seq<PinView>,
    k: int,
    e: Edge,
    f: Edge,
)
    requires
        forall|i: int| 0 <= i < pins.len() ==> (#[trigger] pins[i]).edge is None,
        forall|i: int|
            0 <= i < list.len() ==> (#[trigger] list[i]).capacity == 0 || list[i].blobs
                < list[i].capacity,
        0 <= k < list.len() <= 4,
    ensures
        behind(list, pins, Edge::Right) == Some(list[k]) || behind(list, pins, Edge::Left) == Some(
            list[k],
        ) || behind(list, pins, Edge::Bottom) == Some(list[k]) || behind(list, pins, Edge::Top)
            == Some(list[k]),
        list.len() == 4 && e != f && list.no_duplicates() ==> behind(list, pins, e) != behind(
            list,
            pins,
            f,
        ),
{
    law_peers_are_dealt_in_turn(list, pins);
    let free = |p: PeerView|
        !(exists|i: int|
            0 <= i < pins.len() && (#[trigger] pins[i]).edge is Some && pins[i].addr.same(p.addr));
    let room = |p: PeerView| p.capacity == 0 || p.blobs < p.capacity;
    lemma_filter_all(list, free);
    lemma_filter_all(list, room);
    lemma_pinned_to(list, pins, Edge::Right);
    lemma_pinned_to(list, pins, Edge::Left);
    lemma_pinned_to(list, pins, Edge::Bottom);
    lemma_pinned_to(list, pins, Edge::Top);
    let n = list.len() as int;
    assert(n == 1 || n == 2 || n == 3 || n == 4);
}

proof fn lemma_filter_all(list: Seq<PeerView>, pred: spec_fn(PeerView) -> bool)
    requires
        forall|i: int| 0 <= i < list.len() ==> pred(#[trigger] list[i]),
    ensures
        list.filter(pred) == list,
    decreases list.len(),
{
    reveal(Seq::filter);
    if list.len() > 0 {
        let head = list.drop_last();
        assert forall|i: int| 0 <= i < head.len() implies pred(#[trigger] head[i]) by {
            assert(head[i] == list[i]);
        }
        lemma_filter_all(head, pred);
        assert(pred(list[list.len() - 1]));
        assert(head.push(list.last()) =~= list);
    } else {
        assert(list.filter(pred) =~= list);
    }
}

/// Byte strings are ordered as in a dictionary: by the first place at which they differ, and
/// if they differ at none, the shorter comes first.
pub proof fn law_bytes_stand_as_in_a_dictionary(a: Seq<u8>, b: Seq<u8>, k: int)
    requires
        0 <= k <= a.len() && k <= b.len(),
        a.take(k) == b.take(k),
    ensures
        k < a.len() && k < b.len() && a[k] < b[k] ==> bytes_before(a, b) && !bytes_before(b, a),
        k == a.len() && k < b.len() ==> bytes_before(a, b) && !bytes_before(b, a),
        k == a.len() && k == b.len() ==> !bytes_before(a, b),
    decreases k,
{
    if k > 0 {
        assert(a[0] == a.take(k)[0] && b[0] == b.take(k)[0]);
        assert(a.skip(1).take(k - 1) =~= a.take(k).skip(1));
        assert(b.skip(1).take(k - 1) =~= b.take(k).skip(1));
        law_bytes_stand_as_in_a_dictionary(a.skip(1), b.skip(1), k - 1);
    }
}

/// Peers are listed by node id, and those with the same id by their written address.
pub proof fn law_peers_are_listed_by_node_id(list: Seq<PeerView>, i: int, j: int)
    requires
        0 <= i < j < list.len(),
    ensures
        ({
            let (p, q) = (arranged(list)[i], arranged(list)[j]);
            &&& p.node_id <= q.node_id
            &&& p.node_id == q.node_id ==> !bytes_before(
                encode_utf8(q.addr.written()),
                encode_utf8(p.addr.written()),
            )
        }),
{
    law_listing_is_an_ordering(list);
    assert(!listed_before(arranged(list)[j], arranged(list)[i]));
}

proof fn lemma_arranged_contains(list: Seq<PeerView>, p: PeerView)
    ensures
        arranged(list).contains(p) <==> list.contains(p),
{
    broadcast use group_seq_properties;

    law_listing_is_an_ordering(list);
    let out = arranged(list);
    assert(out.contains(p) <==> out.to_multiset().count(p) > 0);
    assert(list.contains(p) <==> list.to_multiset().count(p) > 0);
}

proof fn lemma_with_missing_members(list: Seq<PeerView>, more: Seq<PeerView>, p: PeerView)
    ensures
        list.contains(p) ==> with_missing(list, more).contains(p),
        with_missing(list, more).contains(p) ==> list.contains(p) || more.contains(p),
        more.contains(p) ==> knows(with_missing(list, more), p.addr),
        more.contains(p) && !knows(list, p.addr) && (forall|q: PeerView|
            more.contains(q) && q.addr.same(p.addr) ==> q == p) ==> with_missing(
            list,
            more,
        ).contains(p),
    decreases more.len(),
{
    lemma_with_missing_knows(list, more, p.addr);
    if more.contains(p) {
        let k = choose|k: int| 0 <= k < more.len() && more[k] == p;
        assert(more[k].addr.same(p.addr));
        assert(knows(more, p.addr));
    }
    if more.len() > 0 {
        let head = more.drop_last();
        let before = with_missing(list, head);
        let out = with_missing(list, more);
        lemma_with_missing_members(list, head, p);
        assert forall|q: PeerView| before.contains(q) implies out.contains(q) by {
            let k = choose|k: int| 0 <= k < before.len() && before[k] == q;
            assert(out[k] == q);
        }
        if out.contains(p) && !before.contains(p) {
            let k = choose|k: int| 0 <= k < out.len() && out[k] == p;
            assert(k == before.len());
            assert(more[more.len() - 1] == p);
        }
        assert forall|q: PeerView| head.contains(q) implies more.contains(q) by {
            let k = choose|k: int| 0 <= k < head.len() && head[k] == q;
            assert(more[k] == q);
        }
        let alone = forall|q: PeerView| more.contains(q) && q.addr.same(p.addr) ==> q == p;
        if more.contains(p) && !knows(list, p.addr) && alone && !head.contains(p) {
            let k = choose|k: int| 0 <= k < more.len() && more[k] == p;
            if k < head.len() {
                assert(head[k] == p);
            }
            assert(more.last() == p);
            if knows(before, p.addr) {
                let j = choose|j: int| 0 <= j < before.len() && (#[trigger] before[j]).addr.same(
                    p.addr,
                );
                lemma_with_missing_members(list, head, before[j]);
                assert(before.contains(before[j]));
                if list.contains(before[j]) {
                    let i = choose|i: int| 0 <= i < list.len() && list[i] == before[j];
                    assert(list[i].addr.same(p.addr));
                } else {
                    assert(head.contains(before[j]));
                    assert(more.contains(before[j]));
                }
            }
            assert(out[before.len() as int] == p);
        }
    }
}

/// Everybody on the list was heard, was learned from a throw, or was named on the command
/// line; and everybody who was heard is on it, just as they were heard.
pub proof fn law_the_list_is_made_of_who_is_known(
    heard: Seq<PeerView>,
    learned: Seq<PeerView>,
    pins: Seq<PinView>,
    now: u64,
    p: PeerView,
)
    ensures
        heard.contains(p) ==> gathered(heard, learned, pins, now).contains(p),
        gathered(heard, learned, pins, now).contains(p) ==> heard.contains(p) || learned.contains(p)
            || exists|i: int|
            0 <= i < pins.len() && p == (PeerView {
                node_id: 0,
                addr: (#[trigger] pins[i]).addr,
                name: pins[i].addr.written(),
                screen: (0, 0),
                blobs: 0,
                capacity: 0,
                last_seen: now,
                pinned_edge: pins[i].edge,
            }),
        learned.contains(p) && !knows(heard, p.addr) && (forall|q: PeerView|
            learned.contains(q) && q.addr.same(p.addr) ==> q == p) ==> gathered(
            heard,
            learned,
            pins,
            now,
        ).contains(p),
{
    let named = pinned_peers(pins, now);
    let some = with_missing(heard, learned);
    lemma_with_missing_members(heard, learned, p);
    lemma_with_missing_members(some, named, p);
    lemma_arranged_contains(with_missing(some, named), p);
    if named.contains(p) {
        let k = choose|k: int| 0 <= k < named.len() && named[k] == p;
        assert(p.addr == pins[k].addr);
    }
}

/// A peer is called by its name with its address behind it, or by its address alone if it
/// has no name.
pub proof fn law_how_a_peer_is_called(p: PeerView)
    ensures
        p.name.len() == 0 ==> p.label() == p.addr.written(),
        p.name.len() > 0 ==> p.label() == p.name + " ("@ + p.addr.written() + ")"@,
{
}

/// A peer counts as full once it holds as many blobs as it said it would take, and one that
/// never said how many never does.
pub proof fn law_when_a_peer_is_full(p: PeerView)
    ensures
        p.full() <==> p.capacity != 0 && !(p.blobs < p.capacity),
{
}

} // verus!

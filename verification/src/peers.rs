//! The peers a node knows, in what order it lists them, and which of them an edge of the
//! screen leads to.

use crate::address::{Address, AddressView};
use crate::wire::Edge;
use vstd::prelude::*;
use vstd::utf8::encode_utf8;

verus! {

/// A peer we can throw to.
#[derive(Debug, PartialEq, Eq)]
pub struct Peer {
    pub node_id: u64,
    pub addr: Address,
    pub name: String,
    pub screen: (u32, u32),
    pub blobs: u16,
    pub capacity: u16,
    /// When it was last heard from, in nanoseconds on the node's own clock.
    pub last_seen: u64,
    /// Set when the peer came from `--peer <edge>=<host>` rather than a beacon.
    pub pinned_edge: Option<Edge>,
}

/// What a [`Peer`] says.
pub struct PeerView {
    pub node_id: u64,
    pub addr: AddressView,
    pub name: Seq<char>,
    pub screen: (u32, u32),
    pub blobs: u16,
    pub capacity: u16,
    pub last_seen: u64,
    pub pinned_edge: Option<Edge>,
}

impl View for Peer {
    type V = PeerView;

    open spec fn view(&self) -> PeerView {
        PeerView {
            node_id: self.node_id,
            addr: self.addr@,
            name: self.name@,
            screen: self.screen,
            blobs: self.blobs,
            capacity: self.capacity,
            last_seen: self.last_seen,
            pinned_edge: self.pinned_edge,
        }
    }
}

impl Clone for Peer {
    fn clone(&self) -> (r: Peer)
        ensures
            r@ == self@,
    {
        Peer {
            node_id: self.node_id,
            addr: self.addr.clone(),
            name: self.name.clone(),
            screen: self.screen,
            blobs: self.blobs,
            capacity: self.capacity,
            last_seen: self.last_seen,
            pinned_edge: self.pinned_edge,
        }
    }
}

/// What each peer of a list says.
pub open spec fn views(list: Seq<Peer>) -> Seq<PeerView> {
    list.map_values(|p: Peer| p@)
}

impl PeerView {
    /// The peer's own name and its address, or just the address if it never told a name.
    pub open spec fn label(self) -> Seq<char> {
        if self.name.len() == 0 {
            self.addr.written()
        } else {
            self.name + " ("@ + self.addr.written() + ")"@
        }
    }

    /// Its last word was that it holds as many blobs as it will take.
    pub open spec fn full(self) -> bool {
        self.capacity > 0 && self.blobs >= self.capacity
    }

    /// A peer of which nothing but its address is known.
    pub open spec fn bare(
        node_id: u64,
        addr: AddressView,
        now: u64,
        pinned_edge: Option<Edge>,
    ) -> PeerView {
        PeerView {
            node_id,
            addr,
            name: addr.written(),
            screen: (0, 0),
            blobs: 0,
            capacity: 0,
            last_seen: now,
            pinned_edge,
        }
    }
}

impl Peer {
    /// How this peer is named in the log.
    pub fn label(&self) -> (out: String)
        ensures
            out@ == self@.label(),
    {
        if self.name.as_str().is_empty() {
            self.addr.text()
        } else {
            let mut out = self.name.clone();
            out.append(" (");
            out.append(self.addr.text().as_str());
            out.append(")");
            out
        }
    }

    pub fn looks_full(&self) -> (r: bool)
        ensures
            r == self@.full(),
    {
        self.capacity > 0 && self.blobs >= self.capacity
    }

    /// A peer of which nothing but its address is known; its name is that address.
    pub fn bare(node_id: u64, addr: Address, now: u64, pinned_edge: Option<Edge>) -> (r: Peer)
        ensures
            r@ == PeerView::bare(node_id, addr@, now, pinned_edge),
    {
        let name = addr.text();
        Peer {
            node_id,
            addr,
            name,
            screen: (0, 0),
            blobs: 0,
            capacity: 0,
            last_seen: now,
            pinned_edge,
        }
    }
}

// ---------------------------------------------------------------------------
// Order
// ---------------------------------------------------------------------------

/// Whether `a` stands before `b` in a dictionary of byte strings.
pub open spec fn bytes_before(a: Seq<u8>, b: Seq<u8>) -> bool
    decreases b.len(),
{
    if b.len() == 0 {
        false
    } else if a.len() == 0 {
        true
    } else {
        a[0] < b[0] || (a[0] == b[0] && bytes_before(a.skip(1), b.skip(1)))
    }
}

/// Peers are listed by node id, and by written address where that is the same.
pub open spec fn listed_before(p: PeerView, q: PeerView) -> bool {
    p.node_id < q.node_id || (p.node_id == q.node_id && bytes_before(
        encode_utf8(p.addr.written()),
        encode_utf8(q.addr.written()),
    ))
}

/// `x` put into an ordered list, behind everything that it does not stand before.
pub open spec fn placed(list: Seq<PeerView>, x: PeerView) -> Seq<PeerView>
    decreases list.len(),
{
    if list.len() > 0 && listed_before(x, list.last()) {
        placed(list.drop_last(), x).push(list.last())
    } else {
        list.push(x)
    }
}

/// The list in order; peers of equal standing keep the order they had.
pub open spec fn arranged(list: Seq<PeerView>) -> Seq<PeerView>
    decreases list.len(),
{
    if list.len() == 0 {
        list
    } else {
        placed(arranged(list.drop_last()), list.last())
    }
}

fn is_bytes_before(a: &[u8], b: &[u8]) -> (r: bool)
    ensures
        r == bytes_before(a@, b@),
{
    let mut i: usize = 0;
    assert(a@.skip(0) =~= a@);
    assert(b@.skip(0) =~= b@);
    while i < a.len() && i < b.len()
        invariant
            i <= a@.len(),
            i <= b@.len(),
            bytes_before(a@, b@) == bytes_before(a@.skip(i as int), b@.skip(i as int)),
        decreases a@.len() - i,
    {
        if a[i] != b[i] {
            return a[i] < b[i];
        }
        assert(a@.skip(i as int).skip(1) =~= a@.skip(i + 1));
        assert(b@.skip(i as int).skip(1) =~= b@.skip(i + 1));
        i = i + 1;
    }
    i < b.len()
}

fn is_listed_before(p: &Peer, q: &Peer) -> (r: bool)
    ensures
        r == listed_before(p@, q@),
{
    if p.node_id != q.node_id {
        p.node_id < q.node_id
    } else {
        let a = p.addr.text();
        let b = q.addr.text();
        is_bytes_before(a.as_str().as_bytes(), b.as_str().as_bytes())
    }
}

/// Puts `x` into an ordered list, behind everything that it does not stand before.
fn place(list: &mut Vec<Peer>, x: Peer)
    ensures
        views(final(list)@) == placed(views(old(list)@), x@),
{
    let ghost all = views(list@);
    let mut i: usize = list.len();
    assert(all.take(i as int) =~= all);
    assert(placed(all, x@) =~= placed(all.take(i as int), x@) + all.skip(i as int));
    while i > 0 && is_listed_before(&x, &list[i - 1])
        invariant
            i <= list@.len(),
            all == views(list@),
            list@ == old(list)@,
            placed(all, x@) == placed(all.take(i as int), x@) + all.skip(i as int),
        decreases i,
    {
        proof {
            let head = all.take(i as int);
            assert(head.last() == list@[i - 1]@);
            assert(head.drop_last() =~= all.take(i - 1));
            assert(placed(all.take(i - 1), x@).push(head.last()) + all.skip(i as int) =~= placed(
                all.take(i - 1),
                x@,
            ) + all.skip(i - 1));
        }
        i = i - 1;
    }
    let ghost xv = x@;
    list.insert(i, x);
    proof {
        let head = all.take(i as int);
        assert(placed(head, xv) =~= head.push(xv)) by {
            if i > 0 {
                assert(head.last() == old(list)@[i - 1]@);
            }
        }
        assert(views(list@) =~= head.push(xv) + all.skip(i as int));
    }
}

/// Puts the list in order.
pub fn arrange(list: Vec<Peer>) -> (out: Vec<Peer>)
    ensures
        views(out@) == arranged(views(list@)),
{
    let ghost all = views(list@);
    let mut out: Vec<Peer> = Vec::new();
    let mut i: usize = 0;
    assert(views(out@) =~= arranged(all.take(0)));
    while i < list.len()
        invariant
            i <= list@.len(),
            all == views(list@),
            views(out@) == arranged(all.take(i as int)),
        decreases list@.len() - i,
    {
        place(&mut out, list[i].clone());
        proof {
            let head = all.take(i + 1);
            assert(head.drop_last() =~= all.take(i as int));
            assert(head.last() == list@[i as int]@);
        }
        i = i + 1;
    }
    assert(all.take(i as int) =~= all);
    out
}

// ---------------------------------------------------------------------------
// Gathering
// ---------------------------------------------------------------------------

/// Whether a listed peer lives at this address.
pub open spec fn knows(list: Seq<PeerView>, addr: AddressView) -> bool {
    exists|i: int| 0 <= i < list.len() && (#[trigger] list[i]).addr.same(addr)
}

/// `list`, followed by those of `more` whose address is not on it yet.
pub open spec fn with_missing(list: Seq<PeerView>, more: Seq<PeerView>) -> Seq<PeerView>
    decreases more.len(),
{
    if more.len() == 0 {
        list
    } else {
        let before = with_missing(list, more.drop_last());
        if knows(before, more.last().addr) {
            before
        } else {
            before.push(more.last())
        }
    }
}

/// A peer that was named on the command line.
#[derive(Debug, PartialEq, Eq)]
pub struct Pin {
    /// The edge it is pinned to, if it is to one.
    pub edge: Option<Edge>,
    pub addr: Address,
    /// Whether only the host was named. There is no fixed port to throw to, so the port of
    /// the address is the right one only once a beacon of that host has been heard.
    pub bare: bool,
}

/// What a [`Pin`] says.
pub struct PinView {
    pub edge: Option<Edge>,
    pub addr: AddressView,
    pub bare: bool,
}

impl View for Pin {
    type V = PinView;

    open spec fn view(&self) -> PinView {
        PinView { edge: self.edge, addr: self.addr@, bare: self.bare }
    }
}

impl Clone for Pin {
    fn clone(&self) -> (r: Pin)
        ensures
            r@ == self@,
    {
        Pin { edge: self.edge, addr: self.addr.clone(), bare: self.bare }
    }
}

/// What each pin of a list says.
pub open spec fn pin_views(pins: Seq<Pin>) -> Seq<PinView> {
    pins.map_values(|x: Pin| x@)
}

/// The peers that were named on the command line.
pub open spec fn pinned_peers(pins: Seq<PinView>, now: u64) -> Seq<PeerView> {
    pins.map_values(|x: PinView| PeerView::bare(0, x.addr, now, x.edge))
}

/// Every peer there is: those heard, those learned from a throw, those named on the
/// command line, each address once and in order.
pub open spec fn gathered(
    heard: Seq<PeerView>,
    learned: Seq<PeerView>,
    pins: Seq<PinView>,
    now: u64,
) -> Seq<PeerView> {
    arranged(with_missing(with_missing(heard, learned), pinned_peers(pins, now)))
}

pub(crate) fn knows_address(list: &Vec<Peer>, addr: &Address) -> (r: bool)
    ensures
        r == knows(views(list@), addr@),
{
    let mut i: usize = 0;
    while i < list.len()
        invariant
            i <= list@.len(),
            forall|j: int| 0 <= j < i ==> !(#[trigger] views(list@)[j]).addr.same(addr@),
        decreases list@.len() - i,
    {
        if list[i].addr.same(addr) {
            assert(views(list@)[i as int].addr.same(addr@));
            return true;
        }
        i = i + 1;
    }
    false
}

fn add_missing(list: &mut Vec<Peer>, more: &Vec<Peer>)
    ensures
        views(final(list)@) == with_missing(views(old(list)@), views(more@)),
{
    let ghost start = views(list@);
    let ghost extra = views(more@);
    let mut i: usize = 0;
    assert(with_missing(start, extra.take(0)) == start);
    while i < more.len()
        invariant
            i <= more@.len(),
            extra == views(more@),
            views(list@) == with_missing(start, extra.take(i as int)),
        decreases more@.len() - i,
    {
        proof {
            let head = extra.take(i + 1);
            assert(head.drop_last() =~= extra.take(i as int));
            assert(head.last() == more@[i as int]@);
        }
        if !knows_address(list, &more[i].addr) {
            let ghost before = views(list@);
            list.push(more[i].clone());
            assert(views(list@) =~= before.push(more@[i as int]@));
        }
        i = i + 1;
    }
    assert(extra.take(i as int) =~= extra);
}

fn copy_all(list: &Vec<Peer>) -> (out: Vec<Peer>)
    ensures
        views(out@) == views(list@),
{
    let mut out: Vec<Peer> = Vec::new();
    let mut i: usize = 0;
    while i < list.len()
        invariant
            i <= list@.len(),
            out@.len() == i,
            forall|j: int| 0 <= j < i ==> (#[trigger] out@[j])@ == list@[j]@,
        decreases list@.len() - i,
    {
        out.push(list[i].clone());
        i = i + 1;
    }
    assert(views(out@) =~= views(list@));
    out
}

/// Every peer there is, each address once and in order.
pub fn gather(heard: &Vec<Peer>, learned: &Vec<Peer>, pins: &Vec<Pin>, now: u64) -> (out: Vec<Peer>)
    ensures
        views(out@) == gathered(views(heard@), views(learned@), pin_views(pins@), now),
{
    let mut out = copy_all(heard);
    add_missing(&mut out, learned);
    let mut named: Vec<Peer> = Vec::new();
    let mut i: usize = 0;
    while i < pins.len()
        invariant
            i <= pins@.len(),
            named@.len() == i,
            forall|j: int|
                0 <= j < i ==> (#[trigger] named@[j])@ == PeerView::bare(
                    0,
                    pins@[j].addr@,
                    now,
                    pins@[j].edge,
                ),
        decreases pins@.len() - i,
    {
        named.push(Peer::bare(0, pins[i].addr.clone(), now, pins[i].edge));
        i = i + 1;
    }
    assert(views(named@) =~= pinned_peers(pin_views(pins@), now));
    add_missing(&mut out, &named);
    arrange(out)
}

// ---------------------------------------------------------------------------
// Edges
// ---------------------------------------------------------------------------

/// Whether an address is pinned to an edge, whichever that is.
pub open spec fn held(pins: Seq<PinView>, addr: AddressView) -> bool {
    exists|i: int|
        0 <= i < pins.len() && (#[trigger] pins[i]).edge is Some && pins[i].addr.same(addr)
}

/// Whether an address is pinned to this edge.
pub open spec fn held_on(pins: Seq<PinView>, edge: Edge, addr: AddressView) -> bool {
    exists|i: int|
        0 <= i < pins.len() && (#[trigger] pins[i]).edge == Some(edge) && pins[i].addr.same(addr)
}

/// The first listed peer whose address is pinned to this edge.
pub open spec fn pinned_to(list: Seq<PeerView>, pins: Seq<PinView>, edge: Edge) -> Option<PeerView>
    decreases list.len(),
{
    if list.len() == 0 {
        None
    } else if held_on(pins, edge, list[0].addr) {
        Some(list[0])
    } else {
        pinned_to(list.skip(1), pins, edge)
    }
}

/// The peers that may be dealt onto any edge: those whose address is pinned to none.
pub open spec fn unpinned(list: Seq<PeerView>, pins: Seq<PinView>) -> Seq<PeerView> {
    list.filter(|p: PeerView| !held(pins, p.addr))
}

/// The peers that did not say they were full.
pub open spec fn with_room(list: Seq<PeerView>) -> Seq<PeerView> {
    list.filter(|p: PeerView| !p.full())
}

/// The unpinned peers, without the full ones if anybody has room.
pub open spec fn dealt(list: Seq<PeerView>, pins: Seq<PinView>) -> Seq<PeerView> {
    let free = unpinned(list, pins);
    if with_room(free).len() > 0 {
        with_room(free)
    } else {
        free
    }
}

/// The turn of an edge when peers are dealt: right, left, bottom, top.
pub open spec fn turn(edge: Edge) -> nat {
    match edge {
        Edge::Right => 0,
        Edge::Left => 1,
        Edge::Bottom => 2,
        Edge::Top => 3,
    }
}

/// The peer that an edge leads to: the first listed one that is pinned to it, if there is
/// one, and otherwise the one that it is dealt.
pub open spec fn behind(list: Seq<PeerView>, pins: Seq<PinView>, edge: Edge) -> Option<PeerView> {
    match pinned_to(list, pins, edge) {
        Some(p) => Some(p),
        None => if dealt(list, pins).len() == 0 {
            None
        } else {
            Some(dealt(list, pins)[(turn(edge) % dealt(list, pins).len()) as int])
        },
    }
}

fn turn_of(edge: Edge) -> (r: usize)
    ensures
        r == turn(edge),
{
    match edge {
        Edge::Right => 0,
        Edge::Left => 1,
        Edge::Bottom => 2,
        Edge::Top => 3,
    }
}

fn is_held(pins: &Vec<Pin>, addr: &Address) -> (r: bool)
    ensures
        r == held(pin_views(pins@), addr@),
{
    let ghost all = pin_views(pins@);
    let mut i: usize = 0;
    while i < pins.len()
        invariant
            i <= pins@.len(),
            all == pin_views(pins@),
            forall|j: int|
                0 <= j < i ==> !((#[trigger] all[j]).edge is Some && all[j].addr.same(addr@)),
        decreases pins@.len() - i,
    {
        assert(all[i as int] == pins@[i as int]@);
        if pins[i].edge.is_some() && pins[i].addr.same(addr) {
            return true;
        }
        i = i + 1;
    }
    false
}

fn is_held_on(pins: &Vec<Pin>, edge: Edge, addr: &Address) -> (r: bool)
    ensures
        r == held_on(pin_views(pins@), edge, addr@),
{
    let ghost all = pin_views(pins@);
    let mut i: usize = 0;
    while i < pins.len()
        invariant
            i <= pins@.len(),
            all == pin_views(pins@),
            forall|j: int|
                0 <= j < i ==> !((#[trigger] all[j]).edge == Some(edge) && all[j].addr.same(addr@)),
        decreases pins@.len() - i,
    {
        assert(all[i as int] == pins@[i as int]@);
        match pins[i].edge {
            Some(e) => {
                if e == edge && pins[i].addr.same(addr) {
                    return true;
                }
            },
            None => {},
        }
        i = i + 1;
    }
    false
}

/// The first listed peer whose address is pinned to this edge.
fn find_pinned(list: &Vec<Peer>, pins: &Vec<Pin>, edge: Edge) -> (r: Option<Peer>)
    ensures
        match r {
            Some(p) => pinned_to(views(list@), pin_views(pins@), edge) == Some(p@),
            None => pinned_to(views(list@), pin_views(pins@), edge) is None,
        },
{
    let ghost all = views(list@);
    let ghost named = pin_views(pins@);
    let mut i: usize = 0;
    assert(all.skip(0) =~= all);
    while i < list.len()
        invariant
            i <= list@.len(),
            all == views(list@),
            named == pin_views(pins@),
            pinned_to(all, named, edge) == pinned_to(all.skip(i as int), named, edge),
        decreases list@.len() - i,
    {
        assert(all.skip(i as int)[0] == list@[i as int]@);
        assert(all.skip(i as int).skip(1) =~= all.skip(i + 1));
        if is_held_on(pins, edge, &list[i].addr) {
            return Some(list[i].clone());
        }
        i = i + 1;
    }
    None
}

/// The peer of `list` that an edge leads to.
///
/// The rules, in order:
/// 1. A peer pinned to this edge with `--peer <edge>=<host>` wins outright, however it came
///    to be listed, and is behind no edge that it is not pinned to. Of several, it is the
///    one listed first.
/// 2. With exactly one peer, every edge leads to it. Two machines side by side is the
///    case worth optimising for, and it needs no configuration at all.
/// 3. With several, peers are dealt onto the edges right, left, bottom, top in the order
///    of the list. A peer that said it was full is passed over while another has room.
pub fn choose_peer(list: &Vec<Peer>, pins: &Vec<Pin>, edge: Edge) -> (r: Option<Peer>)
    ensures
        match r {
            Some(p) => behind(views(list@), pin_views(pins@), edge) == Some(p@),
            None => behind(views(list@), pin_views(pins@), edge) is None,
        },
{
    match find_pinned(list, pins, edge) {
        Some(p) => {
            return Some(p);
        },
        None => {},
    }
    let ghost all = views(list@);
    let ghost held_at = pin_views(pins@);
    let mut free: Vec<Peer> = Vec::new();
    let mut open: Vec<Peer> = Vec::new();
    let mut i: usize = 0;
    proof {
        reveal(Seq::filter);
        assert(views(free@) =~= unpinned(all.take(0), held_at));
        assert(views(open@) =~= with_room(unpinned(all.take(0), held_at)));
    }
    while i < list.len()
        invariant
            i <= list@.len(),
            all == views(list@),
            held_at == pin_views(pins@),
            views(free@) == unpinned(all.take(i as int), held_at),
            views(open@) == with_room(unpinned(all.take(i as int), held_at)),
        decreases list@.len() - i,
    {
        proof {
            reveal(Seq::filter);
            assert(all.take(i + 1).drop_last() =~= all.take(i as int));
            assert(all.take(i + 1).last() == list@[i as int]@);
        }
        let ghost free_before = views(free@);
        let ghost open_before = views(open@);
        if !is_held(pins, &list[i].addr) {
            free.push(list[i].clone());
            assert(views(free@) =~= free_before.push(list@[i as int]@));
            assert(views(free@).drop_last() =~= free_before);
            if !list[i].looks_full() {
                open.push(list[i].clone());
                assert(views(open@) =~= open_before.push(list@[i as int]@));
            }
        }
        i = i + 1;
    }
    assert(all.take(i as int) =~= all);
    let picked = if open.len() > 0 {
        open
    } else {
        free
    };
    assert(views(picked@) == dealt(all, held_at));
    if picked.len() == 0 {
        None
    } else {
        let slot: usize = turn_of(edge) % picked.len();
        Some(picked[slot].clone())
    }
}

} // verus!

//! What a node knows and decides on its way to get a blob from this screen onto someone
//! else's.
//!
//! The sockets and their threads are elsewhere; this is what they ask. Presence goes over
//! UDP multicast: each node shouts a beacon once a second and listens for everyone
//! else's. The throw itself goes over TCP, on a port announced in the beacon.
//!
//! The blob must never be in two places and never in no place, so a throw is a transfer
//! with a receipt: the sender keeps the blob, sliding off the edge, until the peer says it
//! has it. A refusal, a failure or silence past the deadline bounces it back. The wall is
//! the fallback: every failure mode ends with the blob still yours.

use crate::address::{Address, AddressView, Ip, IpView};
use crate::peers::{
    behind, choose_peer, gather, gathered, knows, knows_address, pin_views, views, Peer, PeerView,
    Pin, PinView,
};
use crate::single::Single;
use crate::wire::{
    decode, decoded, encode_ack, encode_nack, encoded, header_of, parse_header, Beacon, BeaconView,
    DecodeError, Edge, Message, MessageView, NackReason, SatState, Throw, ThrowView,
    HEADER_LEN,
};
use std::collections::VecDeque;
use vstd::prelude::*;

verus! {

/// Administratively-scoped multicast group. Stays on the local network.
pub const MULTICAST_GROUP: [u8; 4] = [239, 255, 71, 11];

/// How often a node announces itself, in nanoseconds.
pub const BEACON_INTERVAL: u64 = 1_000_000_000;

/// A peer that has not been heard from for this long, in nanoseconds, is gone.
pub const PEER_TIMEOUT: u64 = 4_500_000_000;

/// How long to wait for a TCP connection to the peer, in milliseconds.
pub const CONNECT_TIMEOUT_MS: u64 = 700;

/// Blocking receive timeout on the discovery socket, in milliseconds, so that its owner
/// can still tick.
pub const UDP_POLL_MS: u64 = 250;

/// How many recently-accepted throw ids to remember, so a re-sent throw is acknowledged a
/// second time rather than landing as a second blob.
pub const SEEN_RING: usize = 64;

/// How this node presents itself, and who it is willing to talk to.
#[derive(Clone, Debug)]
pub struct NetConfig {
    /// Discovery scope. Only peers announcing the same group are considered.
    pub group: String,
    /// Human-readable, for logs and for the peer list. Defaults to the hostname.
    pub name: String,
    /// How many blobs this screen will hold before it starts refusing throws.
    pub capacity: u16,
    /// Announce ourselves and listen for others. `--peer` works without it.
    pub discovery: bool,
    /// Peers named on the command line, each optionally pinned to one edge.
    pub pinned: Vec<Pin>,
}

/// Something that happened on the network and that the frame loop has to know.
#[derive(Debug)]
pub enum NetEvent {
    /// A blob arrived and has been acknowledged. The frame loop must spawn it.
    Arrived { throw: Throw, from: Address },
    /// The peer has our blob. Delete the local copy.
    Landed { throw_id: u64, peer: String },
    /// The peer said no. Bounce the blob back in.
    Refused { throw_id: u64, peer: String, why: NackReason },
    /// Nobody answered, or the connection failed. Bounce the blob back in.
    Lost { throw_id: u64, peer: String, why: String },
    PeerUp { name: String, addr: Address, screen: (u32, u32) },
    PeerDown { name: String },
    /// Something worth printing that is nobody's fault in particular.
    Note(String),
}

/// What a [`NetEvent`] says.
pub enum NetEventView {
    Arrived { throw: ThrowView, from: AddressView },
    Landed { throw_id: u64, peer: Seq<char> },
    Refused { throw_id: u64, peer: Seq<char>, why: NackReason },
    Lost { throw_id: u64, peer: Seq<char>, why: Seq<char> },
    PeerUp { name: Seq<char>, addr: AddressView, screen: (u32, u32) },
    PeerDown { name: Seq<char> },
    Note(Seq<char>),
}

impl View for NetEvent {
    type V = NetEventView;

    open spec fn view(&self) -> NetEventView {
        match *self {
            NetEvent::Arrived { throw, from } => NetEventView::Arrived {
                throw: throw@,
                from: from@,
            },
            NetEvent::Landed { throw_id, peer } => NetEventView::Landed { throw_id, peer: peer@ },
            NetEvent::Refused { throw_id, peer, why } => NetEventView::Refused {
                throw_id,
                peer: peer@,
                why,
            },
            NetEvent::Lost { throw_id, peer, why } => NetEventView::Lost {
                throw_id,
                peer: peer@,
                why: why@,
            },
            NetEvent::PeerUp { name, addr, screen } => NetEventView::PeerUp {
                name: name@,
                addr: addr@,
                screen,
            },
            NetEvent::PeerDown { name } => NetEventView::PeerDown { name: name@ },
            NetEvent::Note(text) => NetEventView::Note(text@),
        }
    }
}

/// A node: who it is, how full its screen is, whom it knows and what it accepted lately.
pub struct Net {
    cfg: NetConfig,
    node_id: u64,
    tcp_port: u16,
    resident: u32,
    reserved: u32,
    capacity: u32,
    screen: (u32, u32),
    peers: Vec<Peer>,
    learned: Vec<Peer>,
    seen: VecDeque<u64>,
    next_throw: u64,
}

/// What a [`Net`] knows.
pub struct NetView {
    pub group: Seq<char>,
    pub name: Seq<char>,
    pub discovery: bool,
    /// The peers named on the command line, where they are to be reached: a host that was
    /// named without a port is at the port that its beacon announced, once one has been heard.
    pub pinned: Seq<PinView>,
    /// This node's own id, and the port it listens on for throws.
    pub node_id: u64,
    pub tcp_port: u16,
    /// Blobs on this screen, as the frame loop last said.
    pub resident: u32,
    /// Slots promised to throws that were acknowledged but not spawned yet. Without them
    /// two throws arriving in the same millisecond would both see room for one.
    pub reserved: u32,
    pub capacity: u32,
    /// The screen size the beacon advertises.
    pub screen: (u32, u32),
    /// Peers heard over discovery, and peers learned from a throw they made.
    pub peers: Seq<PeerView>,
    pub learned: Seq<PeerView>,
    /// The throws accepted lately, oldest first.
    pub seen: Seq<u64>,
    pub next_throw: u64,
}

impl View for Net {
    type V = NetView;

    closed spec fn view(&self) -> NetView {
        NetView {
            group: self.cfg.group@,
            name: self.cfg.name@,
            discovery: self.cfg.discovery,
            pinned: pin_views(self.cfg.pinned@),
            node_id: self.node_id,
            tcp_port: self.tcp_port,
            resident: self.resident,
            reserved: self.reserved,
            capacity: self.capacity,
            screen: self.screen,
            peers: views(self.peers@),
            learned: views(self.learned@),
            seen: self.seen@,
            next_throw: self.next_throw,
        }
    }
}

/// No two entries speak of one node.
pub open spec fn one_each(list: Seq<PeerView>) -> bool {
    forall|i: int, j: int|
        0 <= i < list.len() && 0 <= j < list.len() && i != j ==> (#[trigger] list[i]).node_id != (
        #[trigger] list[j]).node_id
}

/// Whether the list has an entry for a node.
pub open spec fn has_node(list: Seq<PeerView>, node_id: u64) -> bool {
    exists|i: int| 0 <= i < list.len() && (#[trigger] list[i]).node_id == node_id
}

impl NetView {
    pub open spec fn wf(self) -> bool {
        &&& 1 <= self.capacity <= 0xffff
        &&& self.seen.len() <= SEEN_RING
        &&& self.seen.no_duplicates()
        &&& one_each(self.peers)
        &&& one_each(self.learned)
    }

    /// Whether one more blob fits on this screen.
    pub open spec fn has_room(self) -> bool {
        self.resident + self.reserved < self.capacity
    }

    /// Everybody this node could throw to.
    pub open spec fn known(self, now: u64) -> Seq<PeerView> {
        gathered(self.peers, self.learned, self.pinned, now)
    }

    /// Where an edge leads.
    pub open spec fn door(self, edge: Edge, now: u64) -> Option<PeerView> {
        behind(self.known(now), self.pinned, edge)
    }

    /// The id of the next throw.
    pub open spec fn next_id(self) -> u64 {
        (self.node_id << 16) ^ self.next_throw
    }

    /// The node after it has sent a blob out through an edge, and what it sends to whom:
    /// nothing, if the edge leads nowhere.
    pub open spec fn throwing(
        self,
        edge: Edge,
        along: Single,
        vel: (Single, Single),
        sats: Seq<SatState>,
        now: u64,
    ) -> (NetView, Option<OutboundView>) {
        match self.door(edge, now) {
            None => (self, None),
            Some(peer) => (
                NetView {
                    next_throw: if self.next_throw == u64::MAX {
                        0
                    } else {
                        (self.next_throw + 1) as u64
                    },
                    ..self
                },
                Some(
                    OutboundView {
                        throw_id: self.next_id(),
                        peer,
                        bytes: encoded(
                            MessageView::Throw(
                                ThrowView {
                                    throw_id: self.next_id(),
                                    from_node: self.node_id,
                                    from_port: self.tcp_port,
                                    edge,
                                    along,
                                    vel_x: vel.0,
                                    vel_y: vel.1,
                                    sats,
                                },
                            ),
                        ),
                    },
                ),
            ),
        }
    }

    /// The presence beacon of this moment.
    pub open spec fn beacon(self) -> BeaconView {
        BeaconView {
            node_id: self.node_id,
            tcp_port: self.tcp_port,
            screen_w: self.screen.0,
            screen_h: self.screen.1,
            blobs: if self.resident < 0xffff {
                self.resident as u16
            } else {
                0xffff
            },
            capacity: self.capacity as u16,
            group: self.group,
            name: self.name,
        }
    }
}

impl NetView {
    /// The node after it has been told how many blobs are on screen.
    pub open spec fn with_resident(self, n: nat) -> NetView {
        NetView { resident: (n % 0x1_0000_0000) as u32, ..self }
    }

    /// The node after one of its promises has been kept.
    pub open spec fn committed(self) -> NetView {
        if self.reserved == 0 {
            self
        } else {
            NetView { reserved: (self.reserved - 1) as u32, ..self }
        }
    }

    /// The node after the screen has been given this size.
    pub open spec fn with_screen(self, w: u32, h: u32) -> NetView {
        NetView { screen: (w, h), ..self }
    }

    /// The node after the silent peers have been forgotten, and what is reported of that.
    pub open spec fn pruning(self, now: u64) -> (NetView, Seq<NetEventView>) {
        (
            NetView { peers: still_there(self.peers, now), ..self },
            farewells(departed(self.peers, now)),
        )
    }
}

impl NetView {
    /// A node with this configuration that knows nobody yet and holds nothing.
    pub open spec fn beginning(cfg: NetConfig, node_id: u64, tcp_port: u16) -> NetView {
        NetView {
            group: cfg.group@,
            name: cfg.name@,
            discovery: cfg.discovery,
            pinned: pin_views(cfg.pinned@),
            node_id,
            tcp_port,
            resident: 0,
            reserved: 0,
            capacity: if cfg.capacity == 0 {
                1
            } else {
                cfg.capacity as u32
            },
            screen: (0, 0),
            peers: Seq::empty(),
            learned: Seq::empty(),
            seen: Seq::empty(),
            next_throw: 1,
        }
    }
}

impl Net {
    /// A node that knows nobody yet and holds nothing. A screen holds at least one blob.
    pub fn start(cfg: NetConfig, node_id: u64, tcp_port: u16) -> (net: Net)
        ensures
            net@.wf(),
            net@ == NetView::beginning(cfg, node_id, tcp_port),
            net@ == (NetView {
                group: cfg.group@,
                name: cfg.name@,
                discovery: cfg.discovery,
                pinned: pin_views(cfg.pinned@),
                node_id,
                tcp_port,
                resident: 0,
                reserved: 0,
                capacity: if cfg.capacity == 0 {
                    1
                } else {
                    cfg.capacity as u32
                },
                screen: (0, 0),
                peers: Seq::empty(),
                learned: Seq::empty(),
                seen: Seq::empty(),
                next_throw: 1,
            }),
    {
        let capacity: u32 = if cfg.capacity == 0 {
            1
        } else {
            cfg.capacity as u32
        };
        let net = Net {
            cfg,
            node_id,
            tcp_port,
            resident: 0,
            reserved: 0,
            capacity,
            screen: (0, 0),
            peers: Vec::new(),
            learned: Vec::new(),
            seen: VecDeque::new(),
            next_throw: 1,
        };
        assert(views(net.peers@) =~= Seq::empty());
        assert(views(net.learned@) =~= Seq::empty());
        assert(net.seen@ =~= Seq::empty());
        net
    }

    /// Tell the node how many blobs are on screen. Called once a frame; it feeds both the
    /// beacon and the capacity check on inbound throws.
    pub fn set_resident(&mut self, n: usize)
        ensures
            final(self)@ == (NetView {
                resident: (n as nat % 0x1_0000_0000) as u32,
                ..old(self)@
            }),
            final(self)@ == old(self)@.with_resident(n as nat),
    {
        self.resident = (n as u64 % 0x1_0000_0000) as u32;
    }

    /// Consume one reserved slot: the frame loop has now actually spawned the blob it
    /// acknowledged. A slip in the bookkeeping can never wrap the counter.
    pub fn commit_arrival(&mut self)
        ensures
            final(self)@ == (NetView {
                reserved: if old(self)@.reserved == 0 {
                    0
                } else {
                    (old(self)@.reserved - 1) as u32
                },
                ..old(self)@
            }),
            final(self)@ == old(self)@.committed(),
    {
        self.reserved = self.reserved.saturating_sub(1);
    }

    fn has_room(&self) -> (r: bool)
        ensures
            r == self@.has_room(),
    {
        self.resident as u64 + (self.reserved as u64) < self.capacity as u64
    }

    /// Every peer we could throw to right now, beacons and `--peer` alike.
    pub fn peers(&self, now: u64) -> (out: Vec<Peer>)
        ensures
            views(out@) == self@.known(now),
    {
        gather(&self.peers, &self.learned, &self.cfg.pinned, now)
    }

    /// Which peer a blob leaving `edge` should be thrown to.
    pub fn peer_for_edge(&self, edge: Edge, now: u64) -> (r: Option<Peer>)
        ensures
            match r {
                Some(p) => self@.door(edge, now) == Some(p@),
                None => self@.door(edge, now) is None,
            },
    {
        let all = self.peers(now);
        choose_peer(&all, &self.cfg.pinned, edge)
    }

    /// Bitmask of edges that currently lead somewhere, for the physics to treat as doors
    /// rather than walls.
    pub fn portal_edges(&self, now: u64) -> (mask: u8)
        ensures
            mask == door_mask(self@, now),
    {
        let all = self.peers(now);
        let mut mask: u8 = 0;
        if choose_peer(&all, &self.cfg.pinned, Edge::Left).is_some() {
            mask = mask + Edge::Left.bit();
        }
        if choose_peer(&all, &self.cfg.pinned, Edge::Right).is_some() {
            mask = mask + Edge::Right.bit();
        }
        if choose_peer(&all, &self.cfg.pinned, Edge::Top).is_some() {
            mask = mask + Edge::Top.bit();
        }
        if choose_peer(&all, &self.cfg.pinned, Edge::Bottom).is_some() {
            mask = mask + Edge::Bottom.bit();
        }
        mask
    }

    /// Send a blob to the peer on `edge`. Returns what to send where, or `None` if there is
    /// nobody there after all (a peer can time out between the physics deciding to leave
    /// and this call).
    pub fn throw(
        &mut self,
        edge: Edge,
        along: Single,
        vel: (Single, Single),
        sats: Vec<SatState>,
        now: u64,
    ) -> (r: Option<Outbound>)
        ensures
            (final(self)@, match r {
                Some(out) => Some(out@),
                None => None,
            }) == old(self)@.throwing(edge, along, vel, sats@, now),
    {
        let peer = match self.peer_for_edge(edge, now) {
            Some(peer) => peer,
            None => return None,
        };
        let throw_id: u64 = (self.node_id << 16) ^ self.next_throw;
        self.next_throw = self.next_throw.wrapping_add(1);
        let msg = Throw {
            throw_id,
            from_node: self.node_id,
            from_port: self.tcp_port,
            edge,
            along,
            vel_x: vel.0,
            vel_y: vel.1,
            sats,
        };
        let bytes = msg.encode();
        Some(Outbound { throw_id, peer, bytes })
    }
}

/// A throw on its way out: the frame, and the peer to hand it to.
#[derive(Debug)]
pub struct Outbound {
    pub throw_id: u64,
    pub peer: Peer,
    pub bytes: Vec<u8>,
}

/// What an [`Outbound`] says.
pub struct OutboundView {
    pub throw_id: u64,
    pub peer: PeerView,
    pub bytes: Seq<u8>,
}

impl View for Outbound {
    type V = OutboundView;

    open spec fn view(&self) -> OutboundView {
        OutboundView { throw_id: self.throw_id, peer: self.peer@, bytes: self.bytes@ }
    }
}

/// The weights of the edges that lead somewhere, added up.
pub open spec fn door_mask(net: NetView, now: u64) -> int {
    (if net.door(Edge::Left, now) is Some {
        Edge::Left.weight() as int
    } else {
        0
    }) + (if net.door(Edge::Right, now) is Some {
        Edge::Right.weight() as int
    } else {
        0
    }) + (if net.door(Edge::Top, now) is Some {
        Edge::Top.weight() as int
    } else {
        0
    }) + (if net.door(Edge::Bottom, now) is Some {
        Edge::Bottom.weight() as int
    } else {
        0
    })
}

/// The screen size that the beacon advertises from now on.
pub fn publish_screen_size(net: &mut Net, w: u32, h: u32)
    ensures
        final(net)@ == (NetView { screen: (w, h), ..old(net)@ }),
        final(net)@ == old(net)@.with_screen(w, h),
{
    net.screen = (w, h);
}

// ---------------------------------------------------------------------------
// Inbound
// ---------------------------------------------------------------------------

/// What to do about the bytes at the front of an inbound connection.
#[derive(Debug)]
pub enum Inbound {
    /// No whole frame is there yet: read more.
    Wait,
    /// A frame of `used` bytes that is not ours to act on: drop it and go on.
    Skip { used: usize },
    /// A frame of `used` bytes, to be answered with `reply`.
    Reply { used: usize, reply: Vec<u8> },
    /// A throw in a frame of `used` bytes that there is room for. Hand it to the frame
    /// loop, then [`Net::settle`] it and send what that gives back.
    Offer { used: usize, throw: Throw },
    /// Not one of our frames, or a broken one: say so in the log and close the connection
    /// without a reply.
    Close { note: String },
}

/// What an [`Inbound`] says.
pub enum InboundView {
    Wait,
    Skip { used: nat },
    Reply { used: nat, reply: Seq<u8> },
    Offer { used: nat, throw: ThrowView },
    Close { note: Seq<char> },
}

impl View for Inbound {
    type V = InboundView;

    open spec fn view(&self) -> InboundView {
        match *self {
            Inbound::Wait => InboundView::Wait,
            Inbound::Skip { used } => InboundView::Skip { used: used as nat },
            Inbound::Reply { used, reply } => InboundView::Reply {
                used: used as nat,
                reply: reply@,
            },
            Inbound::Offer { used, throw } => InboundView::Offer {
                used: used as nat,
                throw: throw@,
            },
            Inbound::Close { note } => InboundView::Close { note: note@ },
        }
    }
}

/// The list of learned peers after a throw from `node_id`: its entry gets the address and
/// the time, or a new entry with nothing else in it.
pub open spec fn taught(list: Seq<PeerView>, node_id: u64, addr: AddressView, now: u64) -> Seq<
    PeerView,
> {
    if has_node(list, node_id) {
        list.map_values(
            |p: PeerView|
                if p.node_id == node_id {
                    PeerView { addr, last_seen: now, ..p }
                } else {
                    p
                },
        )
    } else {
        list.push(PeerView::bare(node_id, addr, now, None))
    }
}

impl NetView {
    /// The node after it has noted where a throw came from. A port of zero is no return
    /// address.
    pub open spec fn after_learning(self, t: ThrowView, ip: IpView, now: u64) -> NetView {
        if t.from_port == 0 {
            self
        } else {
            NetView {
                learned: taught(self.learned, t.from_node, ip.port(t.from_port), now),
                ..self
            }
        }
    }

    /// What to do about a throw in a frame of `used` bytes: one that was accepted before
    /// is acknowledged again, a new one is offered if there is room and refused if not.
    pub open spec fn verdict(self, t: ThrowView, used: nat) -> InboundView {
        if self.seen.contains(t.throw_id) {
            InboundView::Reply { used, reply: encoded(MessageView::Ack(t.throw_id)) }
        } else if self.has_room() {
            InboundView::Offer { used, throw: t }
        } else {
            InboundView::Reply {
                used,
                reply: encoded(MessageView::Nack(t.throw_id, NackReason::Full)),
            }
        }
    }

    /// What to do about `buf`, the unread bytes of a connection from `from`, and the node
    /// after that.
    pub open spec fn receiving(self, buf: Seq<u8>, from: AddressView, now: u64) -> (
        NetView,
        InboundView,
    ) {
        match decoded(buf) {
            Ok((MessageView::Throw(t), used)) => (
                self.after_learning(t, from.ip, now),
                self.verdict(t, used),
            ),
            Ok((_, used)) => (self, InboundView::Skip { used }),
            Err(DecodeError::Truncated) => (self, InboundView::Wait),
            Err(DecodeError::UnknownKind(_)) => (
                self,
                InboundView::Skip { used: HEADER_LEN as nat + (header_of(buf)->Ok_0).1 },
            ),
            Err(e) => (
                self,
                InboundView::Close {
                    note: "dropped a frame from "@ + from.written() + ": "@ + e.words(),
                },
            ),
        }
    }

    /// The node after it has accepted a throw: a slot is promised, and the id is
    /// remembered in place of the oldest one if the memory is full.
    pub open spec fn accepting(self, throw_id: u64) -> NetView {
        NetView {
            reserved: (self.reserved + 1) as u32,
            seen: (if self.seen.len() == SEEN_RING {
                self.seen.skip(1)
            } else {
                self.seen
            }).push(throw_id),
            ..self
        }
    }

    /// The node after a throw that it offered was taken, or was not, and the answer to it.
    pub open spec fn settling(self, throw_id: u64, taken: bool) -> (NetView, Seq<u8>) {
        if taken {
            (self.accepting(throw_id), encoded(MessageView::Ack(throw_id)))
        } else {
            (self, encoded(MessageView::Nack(throw_id, NackReason::Full)))
        }
    }
}

/// Where the entry for a node stands.
fn find_node(list: &Vec<Peer>, node_id: u64) -> (r: Option<usize>)
    ensures
        match r {
            Some(i) => i < list@.len() && list@[i as int]@.node_id == node_id && has_node(
                views(list@),
                node_id,
            ),
            None => !has_node(views(list@), node_id),
        },
{
    let mut i: usize = 0;
    while i < list.len()
        invariant
            i <= list@.len(),
            forall|j: int| 0 <= j < i ==> (#[trigger] views(list@)[j]).node_id != node_id,
        decreases list@.len() - i,
    {
        if list[i].node_id == node_id {
            assert(views(list@)[i as int].node_id == node_id);
            return Some(i);
        }
        i = i + 1;
    }
    None
}

/// Notes where a throw came from.
fn teach(list: &mut Vec<Peer>, node_id: u64, addr: Address, now: u64)
    requires
        one_each(views(old(list)@)),
    ensures
        views(final(list)@) == taught(views(old(list)@), node_id, addr@, now),
        one_each(views(final(list)@)),
{
    let ghost before = views(list@);
    match find_node(list, node_id) {
        Some(i) => {
            let mut p = list[i].clone();
            p.addr = addr;
            p.last_seen = now;
            let ghost pv = p@;
            list[i] = p;
            proof {
                let after = views(list@);
                assert(after =~= before.update(i as int, pv));
                assert forall|j: int| 0 <= j < before.len() && j != i implies before[j].node_id
                    != node_id by {
                    assert(before[i as int].node_id == node_id);
                }
                assert(after =~= taught(before, node_id, addr@, now));
                assert forall|j: int, k: int|
                    0 <= j < after.len() && 0 <= k < after.len() && j != k implies (
                #[trigger] after[j]).node_id != (#[trigger] after[k]).node_id by {
                    assert(before[j].node_id != before[k].node_id);
                }
            }
        },
        None => {
            let p = Peer::bare(node_id, addr, now, None);
            let ghost pv = p@;
            list.push(p);
            proof {
                assert(views(list@) =~= before.push(pv));
                assert forall|j: int| 0 <= j < before.len() implies before[j].node_id
                    != node_id by {}
            }
        },
    }
}

impl Net {
    fn remembers(&self, throw_id: u64) -> (r: bool)
        ensures
            r == self@.seen.contains(throw_id),
    {
        let mut i: usize = 0;
        while i < self.seen.len()
            invariant
                i <= self.seen@.len(),
                forall|j: int| 0 <= j < i ==> self.seen@[j] != throw_id,
            decreases self.seen@.len() - i,
        {
            if self.seen[i] == throw_id {
                return true;
            }
            i = i + 1;
        }
        false
    }

    /// Look at the unread bytes of an inbound connection and decide what to do about the
    /// frame at their front.
    ///
    /// The decision to accept or refuse is taken here, not on the frame loop, so the peer
    /// gets its receipt at network speed rather than at frame rate.
    pub fn receive(&mut self, buf: &[u8], from: &Address, now: u64) -> (r: Inbound)
        requires
            old(self)@.wf(),
        ensures
            final(self)@.wf(),
            (final(self)@, r@) == old(self)@.receiving(buf@, from@, now),
    {
        match decode(buf) {
            Ok((Message::Throw(t), used)) => {
                let ghost tv = t@;
                if t.from_port != 0 {
                    let addr = Address::new(from.ip.clone(), t.from_port);
                    teach(&mut self.learned, t.from_node, addr, now);
                }
                assert(self@ == old(self)@.after_learning(tv, from@.ip, now));
                if self.remembers(t.throw_id) {
                    Inbound::Reply { used, reply: encode_ack(t.throw_id) }
                } else if self.has_room() {
                    Inbound::Offer { used, throw: t }
                } else {
                    Inbound::Reply { used, reply: encode_nack(t.throw_id, NackReason::Full) }
                }
            },
            Ok((Message::Beacon(_), used)) => Inbound::Skip { used },
            Ok((Message::Ack(_), used)) => Inbound::Skip { used },
            Ok((Message::Nack(_, _), used)) => Inbound::Skip { used },
            Err(DecodeError::Truncated) => Inbound::Wait,
            Err(DecodeError::UnknownKind(k)) => {
                match parse_header(buf) {
                    Ok(h) => Inbound::Skip { used: h.total_len() },
                    Err(_) => {
                        assert(false);
                        Inbound::Wait
                    },
                }
            },
            Err(e) => {
                let mut note = String::from_str("dropped a frame from ");
                note.append(from.text().as_str());
                note.append(": ");
                note.append(e.describe().as_str());
                Inbound::Close { note }
            },
        }
    }

    /// Settle a throw that was offered: `taken` says whether the frame loop took it. If it
    /// did, a slot is promised and the throw is acknowledged; if the frame loop is gone,
    /// nothing is promised and the throw is refused. Gives back the reply to send.
    pub fn settle(&mut self, throw_id: u64, taken: bool) -> (reply: Vec<u8>)
        requires
            old(self)@.wf(),
            old(self)@.has_room(),
            !old(self)@.seen.contains(throw_id),
        ensures
            final(self)@.wf(),
            (final(self)@, reply@) == old(self)@.settling(throw_id, taken),
    {
        if !taken {
            return encode_nack(throw_id, NackReason::Full);
        }
        self.reserved = self.reserved + 1;
        if self.seen.len() == SEEN_RING {
            self.seen.pop_front();
            assert(self.seen@ =~= old(self)@.seen.skip(1));
        }
        self.seen.push_back(throw_id);
        proof {
            let before = old(self)@.seen;
            let after = self@.seen;
            assert(after =~= old(self)@.accepting(throw_id).seen);
            assert(after.no_duplicates());
        }
        encode_ack(throw_id)
    }
}

// ---------------------------------------------------------------------------
// Discovery
// ---------------------------------------------------------------------------

/// Whether a peer has been silent for too long.
pub open spec fn silent(p: PeerView, now: u64) -> bool {
    now - p.last_seen > PEER_TIMEOUT
}

/// The events that report peers as gone.
pub open spec fn farewells(gone: Seq<PeerView>) -> Seq<NetEventView> {
    gone.map_values(|p: PeerView| NetEventView::PeerDown { name: p.label() })
}

/// What each event of a list says.
pub open spec fn event_views(list: Seq<NetEvent>) -> Seq<NetEventView> {
    list.map_values(|e: NetEvent| e@)
}

/// The peers that are not silent.
pub open spec fn still_there(list: Seq<PeerView>, now: u64) -> Seq<PeerView> {
    list.filter(|p: PeerView| !silent(p, now))
}

/// The peers that are.
pub open spec fn departed(list: Seq<PeerView>, now: u64) -> Seq<PeerView> {
    list.filter(|p: PeerView| silent(p, now))
}

/// The list of heard peers with `p` in place of what was known of its node before.
pub open spec fn updated(list: Seq<PeerView>, p: PeerView) -> Seq<PeerView> {
    if has_node(list, p.node_id) {
        list.map_values(
            |q: PeerView|
                if q.node_id == p.node_id {
                    p
                } else {
                    q
                },
        )
    } else {
        list.push(p)
    }
}

/// Whether a pin names the host at `ip` and no port of it.
pub open spec fn names_host(pin: PinView, ip: IpView) -> bool {
    pin.bare && pin.addr.ip.v6 == ip.v6 && pin.addr.ip.bits == ip.bits
}

/// The pins once somebody has announced `addr`: a host that was named without a port is
/// there, unless its pin already leads to a peer that is being heard.
pub open spec fn led_to(pins: Seq<PinView>, heard: Seq<PeerView>, addr: AddressView) -> Seq<
    PinView,
> {
    pins.map_values(
        |pin: PinView|
            if names_host(pin, addr.ip) && !knows(heard, pin.addr) {
                PinView { addr, ..pin }
            } else {
                pin
            },
    )
}

/// Leads the pins of a host that was named without a port to where it is.
fn lead(pins: &mut Vec<Pin>, heard: &Vec<Peer>, addr: &Address)
    ensures
        pin_views(final(pins)@) == led_to(pin_views(old(pins)@), views(heard@), addr@),
{
    let ghost before = pin_views(pins@);
    let ghost want = led_to(before, views(heard@), addr@);
    let mut i: usize = 0;
    while i < pins.len()
        invariant
            i <= pins@.len(),
            pins@.len() == before.len(),
            want == led_to(before, views(heard@), addr@),
            forall|j: int| 0 <= j < i ==> (#[trigger] pins@[j])@ == want[j],
            forall|j: int| i <= j < pins@.len() ==> (#[trigger] pins@[j])@ == before[j],
        decreases pins@.len() - i,
    {
        assert(pins@[i as int]@ == before[i as int]);
        let ip = &pins[i].addr.ip;
        if pins[i].bare && ip.v6 == addr.ip.v6 && ip.bits == addr.ip.bits && !knows_address(
            heard,
            &pins[i].addr,
        ) {
            let edge = pins[i].edge;
            pins[i] = Pin { edge, addr: addr.clone(), bare: true };
        }
        i = i + 1;
    }
    assert(pin_views(pins@) =~= want);
}

impl NetView {
    /// The peer that a beacon from `ip` speaks of.
    pub open spec fn announced(b: BeaconView, ip: IpView, now: u64) -> PeerView {
        PeerView {
            node_id: b.node_id,
            addr: ip.port(b.tcp_port),
            name: b.name,
            screen: (b.screen_w, b.screen_h),
            blobs: b.blobs,
            capacity: b.capacity,
            last_seen: now,
            pinned_edge: None,
        }
    }

    /// What a datagram from `ip` tells: the node after it, and the event if it brought
    /// somebody new. Only beacons of this group from other nodes count.
    pub open spec fn hearing(self, datagram: Seq<u8>, ip: IpView, now: u64) -> (
        NetView,
        Option<NetEventView>,
    ) {
        match decoded(datagram) {
            Ok((MessageView::Beacon(b), _)) => if b.node_id == self.node_id || b.group
                != self.group {
                (self, None)
            } else {
                let p = NetView::announced(b, ip, now);
                (
                    NetView {
                        peers: updated(self.peers, p),
                        pinned: led_to(self.pinned, updated(self.peers, p), p.addr),
                        ..self
                    },
                    if has_node(self.peers, b.node_id) {
                        None
                    } else {
                        Some(
                            NetEventView::PeerUp {
                                name: p.label(),
                                addr: p.addr,
                                screen: p.screen,
                            },
                        )
                    },
                )
            },
            _ => (self, None),
        }
    }
}

/// Puts `p` in place of what was known of its node before; true if nothing was.
fn update(list: &mut Vec<Peer>, p: Peer) -> (fresh: bool)
    requires
        one_each(views(old(list)@)),
    ensures
        views(final(list)@) == updated(views(old(list)@), p@),
        one_each(views(final(list)@)),
        fresh == !has_node(views(old(list)@), p@.node_id),
{
    let ghost before = views(list@);
    let ghost pv = p@;
    match find_node(list, p.node_id) {
        Some(i) => {
            list[i] = p;
            proof {
                let after = views(list@);
                assert(after =~= before.update(i as int, pv));
                assert forall|j: int| 0 <= j < before.len() && j != i implies before[j].node_id
                    != pv.node_id by {
                    assert(before[i as int].node_id == pv.node_id);
                }
                assert(after =~= updated(before, pv));
                assert forall|j: int, k: int|
                    0 <= j < after.len() && 0 <= k < after.len() && j != k implies (
                #[trigger] after[j]).node_id != (#[trigger] after[k]).node_id by {
                    assert(before[j].node_id != before[k].node_id);
                }
            }
            false
        },
        None => {
            list.push(p);
            proof {
                assert(views(list@) =~= before.push(pv));
                assert forall|j: int| 0 <= j < before.len() implies before[j].node_id
                    != pv.node_id by {}
            }
            true
        },
    }
}

proof fn lemma_filter_keeps_one_each(list: Seq<PeerView>, pred: spec_fn(PeerView) -> bool)
    requires
        one_each(list),
    ensures
        one_each(list.filter(pred)),
        forall|id: u64| #[trigger] has_node(list.filter(pred), id) ==> has_node(list, id),
    decreases list.len(),
{
    reveal(Seq::filter);
    if list.len() > 0 {
        let head = list.drop_last();
        let out = list.filter(pred);
        lemma_filter_keeps_one_each(head, pred);
        let sub = head.filter(pred);
        assert forall|id: u64| #[trigger] has_node(out, id) implies has_node(list, id) by {
            let i = choose|i: int| 0 <= i < out.len() && (#[trigger] out[i]).node_id == id;
            if i < sub.len() {
                assert(sub[i].node_id == id);
                assert(has_node(sub, id));
                let j = choose|j: int| 0 <= j < head.len() && (#[trigger] head[j]).node_id == id;
                assert(list[j].node_id == id);
            } else {
                assert(list[list.len() - 1].node_id == id);
            }
        }
        if pred(list.last()) {
            assert forall|i: int| 0 <= i < sub.len() implies (#[trigger] sub[i]).node_id
                != list.last().node_id by {
                assert(has_node(sub, sub[i].node_id));
                let j = choose|j: int|
                    0 <= j < head.len() && (#[trigger] head[j]).node_id == sub[i].node_id;
                assert(list[j].node_id != list[list.len() - 1].node_id);
            }
        }
    }
}

impl Net {
    /// The frame that announces this node.
    pub fn beacon(&self) -> (out: Vec<u8>)
        requires
            self@.wf(),
        ensures
            out@ == encoded(MessageView::Beacon(self@.beacon())),
    {
        let blobs: u16 = if self.resident < 0xffff {
            self.resident as u16
        } else {
            0xffff
        };
        let b = Beacon {
            node_id: self.node_id,
            tcp_port: self.tcp_port,
            screen_w: self.screen.0,
            screen_h: self.screen.1,
            blobs,
            capacity: self.capacity as u16,
            group: self.cfg.group.clone(),
            name: self.cfg.name.clone(),
        };
        b.encode()
    }

    /// Forget the peers that have been silent for too long, and report each.
    pub fn prune(&mut self, now: u64) -> (gone: Vec<NetEvent>)
        requires
            old(self)@.wf(),
        ensures
            final(self)@.wf(),
            final(self)@ == (NetView { peers: still_there(old(self)@.peers, now), ..old(self)@ }),
            event_views(gone@) == farewells(departed(old(self)@.peers, now)),
            (final(self)@, event_views(gone@)) == old(self)@.pruning(now),
    {
        let ghost all = views(self.peers@);
        let mut gone: Vec<NetEvent> = Vec::new();
        let mut kept: Vec<Peer> = Vec::new();
        let mut i: usize = 0;
        proof {
            reveal(Seq::filter);
            assert(views(kept@) =~= still_there(all.take(0), now));
            assert(event_views(gone@) =~= farewells(departed(all.take(0), now)));
        }
        while i < self.peers.len()
            invariant
                i <= self.peers@.len(),
                all == views(self.peers@),
                *self == *old(self),
                views(kept@) == still_there(all.take(i as int), now),
                event_views(gone@) == farewells(departed(all.take(i as int), now)),
            decreases self.peers@.len() - i,
        {
            proof {
                reveal(Seq::filter);
                assert(all.take(i + 1).drop_last() =~= all.take(i as int));
                assert(all.take(i + 1).last() == self.peers@[i as int]@);
            }
            let ghost kept_before = views(kept@);
            let ghost gone_before = event_views(gone@);
            let ghost p = self.peers@[i as int]@;
            if now.saturating_sub(self.peers[i].last_seen) > PEER_TIMEOUT {
                gone.push(NetEvent::PeerDown { name: self.peers[i].label() });
                assert(event_views(gone@) =~= gone_before.push(
                    NetEventView::PeerDown { name: p.label() },
                ));
                assert(event_views(gone@) =~= farewells(departed(all.take(i + 1), now)));
            } else {
                kept.push(self.peers[i].clone());
                assert(views(kept@) =~= kept_before.push(p));
            }
            i = i + 1;
        }
        proof {
            assert(all.take(i as int) =~= all);
            lemma_filter_keeps_one_each(all, |p: PeerView| !silent(p, now));
        }
        self.peers = kept;
        gone
    }

    /// Take in a datagram from the discovery socket.
    pub fn hear(&mut self, datagram: &[u8], ip: &Ip, now: u64) -> (r: Option<NetEvent>)
        requires
            old(self)@.wf(),
        ensures
            final(self)@.wf(),
            (final(self)@, match r {
                Some(e) => Some(e@),
                None => None,
            }) == old(self)@.hearing(datagram@, ip@, now),
    {
        let b = match decode(datagram) {
            Ok((Message::Beacon(b), _)) => b,
            _ => return None,
        };
        if b.node_id == self.node_id || b.group != self.cfg.group {
            return None;
        }
        let peer = Peer {
            node_id: b.node_id,
            addr: Address::new(ip.clone(), b.tcp_port),
            name: b.name.clone(),
            screen: (b.screen_w, b.screen_h),
            blobs: b.blobs,
            capacity: b.capacity,
            last_seen: now,
            pinned_edge: None,
        };
        let name = peer.label();
        let addr = peer.addr.clone();
        let screen = peer.screen;
        assert(peer@ == NetView::announced(b@, ip@, now));
        let fresh = update(&mut self.peers, peer);
        lead(&mut self.cfg.pinned, &self.peers, &addr);
        if fresh {
            Some(NetEvent::PeerUp { name, addr, screen })
        } else {
            None
        }
    }
}

/// When a node last announced itself.
pub struct Discovery {
    pub last_beacon: Option<u64>,
}

/// Whether it is time to announce again: at once, and then every interval.
pub open spec fn beacon_due(last: Option<u64>, now: u64) -> bool {
    match last {
        None => true,
        Some(t) => now - t >= BEACON_INTERVAL,
    }
}

impl Discovery {
    pub fn new() -> (d: Discovery)
        ensures
            d.last_beacon is None,
    {
        Discovery { last_beacon: None }
    }

    /// One turn of the discovery loop before it listens: if it is time, the beacon to send
    /// and the peers that have departed meanwhile.
    pub fn tick(&mut self, net: &mut Net, now: u64) -> (r: Option<(Vec<u8>, Vec<NetEvent>)>)
        requires
            old(net)@.wf(),
        ensures
            final(net)@.wf(),
            match r {
                None => !beacon_due(old(self).last_beacon, now) && *final(self) == *old(self)
                    && final(net)@ == old(net)@,
                Some((beacon, gone)) => {
                    &&& beacon_due(old(self).last_beacon, now)
                    &&& final(self).last_beacon == Some(now)
                    &&& beacon@ == encoded(MessageView::Beacon(old(net)@.beacon()))
                    &&& final(net)@ == (NetView {
                        peers: still_there(old(net)@.peers, now),
                        ..old(net)@
                    })
                    &&& event_views(gone@) == farewells(departed(old(net)@.peers, now))
                    &&& (final(net)@, event_views(gone@)) == old(net)@.pruning(now)
                },
            },
    {
        match self.last_beacon {
            Some(t) => {
                if now.saturating_sub(t) < BEACON_INTERVAL {
                    return None;
                }
            },
            None => {},
        }
        self.last_beacon = Some(now);
        let beacon = net.beacon();
        let gone = net.prune(now);
        Some((beacon, gone))
    }
}

} // verus!

//! A peer with no screen: catch a blob, hold it, throw it back.
//!
//! This end has no physics, no renderer and no window, only the protocol, so anything it
//! can catch and return is defined by the wire format and not by shared code. As on any
//! node, a blob that was thrown is kept until the peer says that it has it; a throw that was
//! refused or lost leaves the blob here.

use crate::address::{Address, AddressView};
use crate::net::{Net, NetEvent, NetEventView, NetView, Outbound, OutboundView};
use crate::net_laws::law_a_throw_says_what_was_thrown;
use crate::single::Single;
use crate::text::{decimal, push_decimal};
use crate::wire::{decoded, Edge, MessageView, SatState, Throw, ThrowView};
use crate::wire_laws::sendable;
use vstd::prelude::*;

verus! {

/// The screen it pretends to have, so that `along` and the velocity units are exercised
/// for real.
pub const ECHO_SCREEN: (u32, u32) = (1920, 1080);

/// Where along the edge an invented blob is served: 0.5.
pub const SERVE_ALONG: u32 = 0x3f00_0000;

/// How fast an invented blob is served, across and down, in screen heights per second: 1.2
/// and -0.15.
pub const SERVE_VEL: (u32, u32) = (0x3f99_999a, 0xbe19_999a);

/// A blob that is being held, and since when, in nanoseconds.
#[derive(Debug)]
pub struct Held {
    pub since: u64,
    pub throw: Throw,
}

/// What a [`Held`] is.
pub struct HeldView {
    pub since: u64,
    pub throw: ThrowView,
}

impl View for Held {
    type V = HeldView;

    open spec fn view(&self) -> HeldView {
        HeldView { since: self.since, throw: self.throw@ }
    }
}

/// What each held blob of a list is.
pub open spec fn held_views(list: Seq<Held>) -> Seq<HeldView> {
    list.map_values(|h: Held| h@)
}

/// A blob that has been thrown and not been answered for yet.
#[derive(Debug)]
pub struct Away {
    /// The id that it was thrown with.
    pub throw_id: u64,
    /// How it had come in.
    pub throw: Throw,
}

/// What an [`Away`] is.
pub struct AwayView {
    pub throw_id: u64,
    pub throw: ThrowView,
}

impl View for Away {
    type V = AwayView;

    open spec fn view(&self) -> AwayView {
        AwayView { throw_id: self.throw_id, throw: self.throw@ }
    }
}

/// What each blob of a list that is away is.
pub open spec fn away_views(list: Seq<Away>) -> Seq<AwayView> {
    list.map_values(|a: Away| a@)
}

/// Those that were not thrown with this id.
pub open spec fn others_away(list: Seq<AwayView>, throw_id: u64) -> Seq<AwayView> {
    list.filter(|a: AwayView| a.throw_id != throw_id)
}

/// Those that were thrown with this id, held again from `now` on.
pub open spec fn back_again(list: Seq<AwayView>, throw_id: u64, now: u64) -> Seq<HeldView> {
    list.filter(|a: AwayView| a.throw_id == throw_id).map_values(
        |a: AwayView| HeldView { since: now, throw: a.throw },
    )
}

/// The headless peer: what it holds, what it has thrown, and its tallies.
#[derive(Debug)]
pub struct Echo {
    pub held: Vec<Held>,
    pub away: Vec<Away>,
    pub caught: u64,
    pub returned: u64,
    /// Whether a blob has been put into play, or none is to be.
    pub served: bool,
    /// How long a blob is held, in milliseconds.
    pub hold_ms: u64,
}

/// What an [`Echo`] is.
pub struct EchoView {
    pub held: Seq<HeldView>,
    pub away: Seq<AwayView>,
    pub caught: u64,
    pub returned: u64,
    pub served: bool,
    pub hold_ms: u64,
}

impl View for Echo {
    type V = EchoView;

    open spec fn view(&self) -> EchoView {
        EchoView {
            held: held_views(self.held@),
            away: away_views(self.away@),
            caught: self.caught,
            returned: self.returned,
            served: self.served,
            hold_ms: self.hold_ms,
        }
    }
}

/// What there is to print about an event.
#[derive(Debug)]
pub enum EchoNews {
    /// The blob that is now last among those held was caught, as number so-and-so.
    Caught { number: u64, from: Address },
    Say(String),
    Warn(String),
}

/// What an [`EchoNews`] says.
pub enum EchoNewsView {
    Caught { number: u64, from: AddressView },
    Say(Seq<char>),
    Warn(Seq<char>),
}

impl View for EchoNews {
    type V = EchoNewsView;

    open spec fn view(&self) -> EchoNewsView {
        match *self {
            EchoNews::Caught { number, from } => EchoNewsView::Caught { number, from: from@ },
            EchoNews::Say(text) => EchoNewsView::Say(text@),
            EchoNews::Warn(text) => EchoNewsView::Warn(text@),
        }
    }
}

/// One more, unless there is no larger number.
pub open spec fn one_more(n: u64) -> u64 {
    if n == u64::MAX {
        n
    } else {
        (n + 1) as u64
    }
}

/// What each outbound throw of a list says.
pub open spec fn outbound_views(list: Seq<Outbound>) -> Seq<OutboundView> {
    list.map_values(|o: Outbound| o@)
}

/// Whether a blob is to be held on to for now.
pub open spec fn keeps(h: HeldView, hold_ms: u64, now: u64) -> bool {
    (if now < h.since {
        0
    } else {
        now - h.since
    }) < hold_ms * 1_000_000
}

/// What becomes of the held blobs at `now`, and of the node that throws them: the node
/// after it, the blobs still held, those that are away now, the throws that go out, and how
/// many there was nobody for. A blob that has been held long enough goes back out of the
/// edge it came in by, with its velocity reversed; if there is nobody there it is held anew.
pub open spec fn returning(net: NetView, held: Seq<HeldView>, hold_ms: u64, now: u64) -> (
    NetView,
    Seq<HeldView>,
    Seq<AwayView>,
    Seq<OutboundView>,
    nat,
)
    decreases held.len(),
{
    if held.len() == 0 {
        (net, Seq::empty(), Seq::empty(), Seq::empty(), 0)
    } else {
        let (node, kept, away, sent, stuck) = returning(net, held.drop_last(), hold_ms, now);
        let h = held.last();
        let t = h.throw;
        if keeps(h, hold_ms, now) {
            (node, kept.push(h), away, sent, stuck)
        } else {
            match node.throwing(
                t.edge.facing(),
                t.along,
                (t.vel_x.negated(), t.vel_y.negated()),
                t.sats,
                now,
            ) {
                (next, Some(out)) => (
                    next,
                    kept,
                    away.push(AwayView { throw_id: out.throw_id, throw: t }),
                    sent.push(out),
                    stuck,
                ),
                (next, None) => (
                    next,
                    kept.push(HeldView { since: now, throw: t }),
                    away,
                    sent,
                    stuck + 1,
                ),
            }
        }
    }
}

/// The blob that is put into play, as if it had come in by the edge it is to go out of.
pub open spec fn invented(sats: Seq<SatState>) -> ThrowView {
    ThrowView {
        throw_id: 0,
        from_node: 0,
        from_port: 0,
        edge: Edge::Left,
        along: Single { bits: SERVE_ALONG },
        vel_x: (Single { bits: SERVE_VEL.0 }).negated(),
        vel_y: (Single { bits: SERVE_VEL.1 }).negated(),
        sats,
    }
}

impl EchoView {
    /// A peer that holds nothing yet.
    pub open spec fn beginning(serve: bool, hold_ms: u64) -> EchoView {
        EchoView {
            held: Seq::empty(),
            away: Seq::empty(),
            caught: 0,
            returned: 0,
            served: !serve,
            hold_ms,
        }
    }

    /// The peer after it was to put a blob into play, its node after that, and what goes out.
    pub open spec fn serving(self, net: NetView, sats: Seq<SatState>, now: u64) -> (
        EchoView,
        NetView,
        Option<OutboundView>,
    ) {
        let (thrown, out) = net.throwing(
            Edge::Right,
            Single { bits: SERVE_ALONG },
            (Single { bits: SERVE_VEL.0 }, Single { bits: SERVE_VEL.1 }),
            sats,
            now,
        );
        if self.served {
            (self, net, None)
        } else {
            match out {
                Some(o) => (
                    EchoView {
                        served: true,
                        away: self.away.push(
                            AwayView { throw_id: o.throw_id, throw: invented(sats) },
                        ),
                        ..self
                    },
                    thrown,
                    out,
                ),
                None => (self, thrown, None),
            }
        }
    }

    /// The peer after a throw of its own did not connect: the blob is held again.
    pub open spec fn with_back(self, throw_id: u64, now: u64) -> EchoView {
        EchoView {
            held: self.held + back_again(self.away, throw_id, now),
            away: others_away(self.away, throw_id),
            ..self
        }
    }

    /// The peer after an event, its node after it, and what there is to print.
    pub open spec fn hearing(self, net: NetView, ev: NetEventView, now: u64) -> (
        EchoView,
        NetView,
        EchoNewsView,
    ) {
        match ev {
            NetEventView::Arrived { throw, from } => (
                EchoView {
                    caught: one_more(self.caught),
                    held: self.held.push(HeldView { since: now, throw }),
                    ..self
                },
                NetView {
                    reserved: if net.reserved == 0 {
                        0
                    } else {
                        (net.reserved - 1) as u32
                    },
                    ..net
                },
                EchoNewsView::Caught { number: one_more(self.caught), from },
            ),
            NetEventView::Landed { throw_id, peer } => (
                EchoView {
                    returned: one_more(self.returned),
                    away: others_away(self.away, throw_id),
                    ..self
                },
                net,
                EchoNewsView::Say(
                    "[echo] thrown back; "@ + peer + " has it ("@ + decimal(
                        one_more(self.returned) as nat,
                    ) + " returned)"@,
                ),
            ),
            NetEventView::Refused { throw_id, peer, why } => (
                self.with_back(throw_id, now),
                net,
                EchoNewsView::Warn("[echo] "@ + peer + " refused it: "@ + why.meaning()),
            ),
            NetEventView::Lost { throw_id, peer, why } => (
                self.with_back(throw_id, now),
                net,
                EchoNewsView::Warn(
                    "[echo] the throw back to "@ + peer + " was lost: "@ + why,
                ),
            ),
            NetEventView::PeerUp { name, addr, screen } => (
                self,
                net,
                EchoNewsView::Say(
                    "[echo] "@ + name + " is here ("@ + decimal(screen.0 as nat) + "x"@ + decimal(
                        screen.1 as nat,
                    ) + ")"@,
                ),
            ),
            NetEventView::PeerDown { name } => (
                self,
                net,
                EchoNewsView::Say("[echo] "@ + name + " has gone"@),
            ),
            NetEventView::Note(text) => (self, net, EchoNewsView::Warn("[echo] "@ + text)),
        }
    }
}

impl Echo {
    /// A peer that holds nothing yet. With `serve` it will put a blob into play.
    pub fn new(serve: bool, hold_ms: u64) -> (r: Echo)
        ensures
            r@ == EchoView::beginning(serve, hold_ms),
            r@ == (EchoView {
                held: Seq::empty(),
                away: Seq::empty(),
                caught: 0,
                returned: 0,
                served: !serve,
                hold_ms,
            }),
    {
        let r = Echo {
            held: Vec::new(),
            away: Vec::new(),
            caught: 0,
            returned: 0,
            served: !serve,
            hold_ms,
        };
        assert(r@.held =~= Seq::empty());
        assert(r@.away =~= Seq::empty());
        r
    }

    /// Put a blob into play, unless that has been done: one off the right-hand edge, half
    /// way up, at a bit over one screen-height per second, with the satellites given.
    pub fn serve(&mut self, net: &mut Net, sats: Vec<SatState>, now: u64) -> (r: Option<Outbound>)
        ensures
            ({
                let (thrown, out) = old(net)@.throwing(
                    Edge::Right,
                    Single { bits: SERVE_ALONG },
                    (Single { bits: SERVE_VEL.0 }, Single { bits: SERVE_VEL.1 }),
                    sats@,
                    now,
                );
                if old(self)@.served {
                    r is None && final(self)@ == old(self)@ && final(net)@ == old(net)@
                } else {
                    &&& (match r {
                        Some(o) => Some(o@),
                        None => None,
                    }) == out
                    &&& final(net)@ == thrown
                    &&& final(self)@ == (match out {
                        Some(o) => EchoView {
                            served: true,
                            away: old(self)@.away.push(
                                AwayView { throw_id: o.throw_id, throw: invented(sats@) },
                            ),
                            ..old(self)@
                        },
                        None => old(self)@,
                    })
                }
            }),
            (final(self)@, final(net)@, match r {
                Some(o) => Some(o@),
                None => None,
            }) == old(self)@.serving(old(net)@, sats@, now),
    {
        if self.served {
            return None;
        }
        let across = Single { bits: SERVE_VEL.0 };
        let down = Single { bits: SERVE_VEL.1 };
        let again = sats.clone();
        assert(again@ =~= sats@);
        let r = net.throw(Edge::Right, Single { bits: SERVE_ALONG }, (across, down), sats, now);
        match &r {
            Some(out) => {
                self.served = true;
                let ghost before = self@.away;
                let throw = Throw {
                    throw_id: 0,
                    from_node: 0,
                    from_port: 0,
                    edge: Edge::Left,
                    along: Single { bits: SERVE_ALONG },
                    vel_x: across.neg(),
                    vel_y: down.neg(),
                    sats: again,
                };
                self.away.push(Away { throw_id: out.throw_id, throw });
                assert(self@.away =~= before.push(
                    AwayView { throw_id: out.throw_id, throw: invented(sats@) },
                ));
            },
            None => {},
        }
        r
    }

    /// Strikes those thrown with this id off the list of what is away, and gives them back
    /// to be held from `now` on.
    fn recall(&mut self, throw_id: u64, now: u64) -> (back: Vec<Held>)
        ensures
            final(self)@ == (EchoView {
                away: others_away(old(self)@.away, throw_id),
                ..old(self)@
            }),
            held_views(back@) == back_again(old(self)@.away, throw_id, now),
    {
        let ghost all = self@.away;
        let mut stay: Vec<Away> = Vec::new();
        let mut back: Vec<Held> = Vec::new();
        let mut i: usize = 0;
        proof {
            reveal(Seq::filter);
            assert(away_views(stay@) =~= others_away(all.take(0), throw_id));
            assert(held_views(back@) =~= back_again(all.take(0), throw_id, now));
        }
        while i < self.away.len()
            invariant
                i <= self.away@.len(),
                *self == *old(self),
                all == away_views(self.away@),
                away_views(stay@) == others_away(all.take(i as int), throw_id),
                held_views(back@) == back_again(all.take(i as int), throw_id, now),
            decreases self.away@.len() - i,
        {
            proof {
                reveal(Seq::filter);
                assert(all.take(i + 1).drop_last() =~= all.take(i as int));
                assert(all.take(i + 1).last() == self.away@[i as int]@);
            }
            let ghost stay_before = away_views(stay@);
            let ghost back_before = held_views(back@);
            let ghost one = self.away@[i as int]@;
            let throw = self.away[i].throw.clone();
            if self.away[i].throw_id == throw_id {
                back.push(Held { since: now, throw });
                assert(held_views(back@) =~= back_before.push(
                    HeldView { since: now, throw: one.throw },
                ));
                assert(held_views(back@) =~= back_again(all.take(i + 1), throw_id, now));
            } else {
                stay.push(Away { throw_id: self.away[i].throw_id, throw });
                assert(away_views(stay@) =~= stay_before.push(one));
            }
            i = i + 1;
        }
        assert(all.take(i as int) =~= all);
        self.away = stay;
        back
    }

    fn take_back(&mut self, throw_id: u64, now: u64)
        ensures
            final(self)@ == old(self)@.with_back(throw_id, now),
    {
        let mut back = self.recall(throw_id, now);
        let ghost before = self@.held;
        let ghost more = held_views(back@);
        self.held.append(&mut back);
        assert(self@.held =~= before + more);
    }

    /// Tell the node how many blobs are held here.
    pub fn announce(&self, net: &mut Net)
        ensures
            final(net)@ == (NetView {
                resident: (self@.held.len() % 0x1_0000_0000) as u32,
                ..old(net)@
            }),
    {
        net.set_resident(self.held.len());
    }

    /// Take in something that happened on the network.
    pub fn on_event(&mut self, net: &mut Net, ev: NetEvent, now: u64) -> (r: EchoNews)
        ensures
            (final(self)@, final(net)@, r@) == old(self)@.hearing(old(net)@, ev@, now),
    {
        match ev {
            NetEvent::Arrived { throw, from } => {
                let ghost before = self@.held;
                let ghost tv = throw@;
                self.caught = self.caught.saturating_add(1);
                self.held.push(Held { since: now, throw });
                assert(self@.held =~= before.push(HeldView { since: now, throw: tv }));
                net.commit_arrival();
                EchoNews::Caught { number: self.caught, from }
            },
            NetEvent::Landed { throw_id, peer } => {
                let _ = self.recall(throw_id, now);
                self.returned = self.returned.saturating_add(1);
                let mut line = String::from_str("[echo] thrown back; ");
                line.append(peer.as_str());
                line.append(" has it (");
                push_decimal(&mut line, self.returned);
                line.append(" returned)");
                EchoNews::Say(line)
            },
            NetEvent::Refused { throw_id, peer, why } => {
                self.take_back(throw_id, now);
                let mut line = String::from_str("[echo] ");
                line.append(peer.as_str());
                line.append(" refused it: ");
                line.append(why.explain());
                EchoNews::Warn(line)
            },
            NetEvent::Lost { throw_id, peer, why } => {
                self.take_back(throw_id, now);
                let mut line = String::from_str("[echo] the throw back to ");
                line.append(peer.as_str());
                line.append(" was lost: ");
                line.append(why.as_str());
                EchoNews::Warn(line)
            },
            NetEvent::PeerUp { name, addr: _, screen } => {
                let mut line = String::from_str("[echo] ");
                line.append(name.as_str());
                line.append(" is here (");
                push_decimal(&mut line, screen.0 as u64);
                line.append("x");
                push_decimal(&mut line, screen.1 as u64);
                line.append(")");
                EchoNews::Say(line)
            },
            NetEvent::PeerDown { name } => {
                let mut line = String::from_str("[echo] ");
                line.append(name.as_str());
                line.append(" has gone");
                EchoNews::Say(line)
            },
            NetEvent::Note(text) => {
                let mut line = String::from_str("[echo] ");
                line.append(text.as_str());
                EchoNews::Warn(line)
            },
        }
    }

    /// Throw back whatever has been held long enough. A blob that there is nobody to throw
    /// to stays held, for another while; how many there are of those comes back too.
    pub fn return_due(&mut self, net: &mut Net, now: u64) -> (r: (Vec<Outbound>, usize))
        ensures
            ({
                let (node, kept, away, out, stuck) = returning(
                    old(net)@,
                    old(self)@.held,
                    old(self)@.hold_ms,
                    now,
                );
                &&& final(net)@ == node
                &&& final(self)@ == (EchoView {
                    held: kept,
                    away: old(self)@.away + away,
                    ..old(self)@
                })
                &&& outbound_views(r.0@) == out
                &&& r.1 == stuck
            }),
    {
        let ghost all = self@.held;
        let mut kept: Vec<Held> = Vec::new();
        let mut away: Vec<Away> = Vec::new();
        let mut sent: Vec<Outbound> = Vec::new();
        let mut stuck: usize = 0;
        let mut i: usize = 0;
        proof {
            assert(held_views(kept@) =~= Seq::empty());
            assert(away_views(away@) =~= Seq::empty());
            assert(outbound_views(sent@) =~= Seq::empty());
            assert(all.take(0) =~= Seq::empty());
        }
        while i < self.held.len()
            invariant
                i <= self.held@.len(),
                *self == *old(self),
                all == held_views(self.held@),
                stuck <= i,
                (
                    net@,
                    held_views(kept@),
                    away_views(away@),
                    outbound_views(sent@),
                    stuck as nat,
                ) == returning(old(net)@, all.take(i as int), old(self)@.hold_ms, now),
            decreases self.held@.len() - i,
        {
            proof {
                assert(all.take(i + 1).drop_last() =~= all.take(i as int));
                assert(all.take(i + 1).last() == self.held@[i as int]@);
            }
            let ghost kept_before = held_views(kept@);
            let ghost sent_before = outbound_views(sent@);
            let since: u64 = self.held[i].since;
            let t = self.held[i].throw.clone();
            let ghost tv = t@;
            if (now.saturating_sub(since) as u128) < self.hold_ms as u128 * 1_000_000 {
                kept.push(Held { since, throw: t });
                assert(held_views(kept@) =~= kept_before.push(HeldView { since, throw: tv }));
            } else {
                let back = t.edge.opposite();
                let again = t.sats.clone();
                assert(again@ =~= t.sats@);
                match net.throw(back, t.along, (t.vel_x.neg(), t.vel_y.neg()), again, now) {
                    Some(out) => {
                        let ghost ov = out@;
                        let ghost away_before = away_views(away@);
                        away.push(Away { throw_id: out.throw_id, throw: t });
                        assert(away_views(away@) =~= away_before.push(
                            AwayView { throw_id: ov.throw_id, throw: tv },
                        ));
                        sent.push(out);
                        assert(outbound_views(sent@) =~= sent_before.push(ov));
                    },
                    None => {
                        kept.push(Held { since: now, throw: t });
                        assert(held_views(kept@) =~= kept_before.push(
                            HeldView { since: now, throw: tv },
                        ));
                        stuck = stuck + 1;
                    },
                }
            }
            i = i + 1;
        }
        assert(all.take(i as int) =~= all);
        let ghost before = self@.away;
        let ghost more = away_views(away@);
        self.held = kept;
        self.away.append(&mut away);
        assert(self@.away =~= before + more);
        (sent, stuck)
    }
}

/// The echo loses nothing when it throws: every blob it held it still holds, or it is away
/// under the id of a throw that goes out.
pub proof fn law_the_echo_loses_nothing(
    net: NetView,
    held: Seq<HeldView>,
    hold_ms: u64,
    now: u64,
)
    ensures
        ({
            let (_, kept, away, sent, _) = returning(net, held, hold_ms, now);
            &&& kept.len() + away.len() == held.len()
            &&& away.len() == sent.len()
            &&& forall|k: int|
                0 <= k < away.len() ==> (#[trigger] away[k]).throw_id == sent[k].throw_id
        }),
    decreases held.len(),
{
    if held.len() > 0 {
        law_the_echo_loses_nothing(net, held.drop_last(), hold_ms, now);
    }
}

proof fn lemma_parted(list: Seq<AwayView>, throw_id: u64, now: u64)
    ensures
        others_away(list, throw_id).len() + back_again(list, throw_id, now).len() == list.len(),
    decreases list.len(),
{
    reveal(Seq::filter);
    if list.len() > 0 {
        lemma_parted(list.drop_last(), throw_id, now);
    }
}

/// Nothing that happens on the network loses the echo a blob but the word that a peer has
/// it: an arrival is one more, and a throw that was refused or lost is a blob held again.
pub proof fn law_only_a_receipt_takes_a_blob_from_the_echo(
    echo: EchoView,
    net: NetView,
    ev: NetEventView,
    now: u64,
)
    ensures
        ({
            let after = echo.hearing(net, ev, now).0;
            let had = echo.held.len() + echo.away.len();
            let has = after.held.len() + after.away.len();
            match ev {
                NetEventView::Arrived { .. } => has == had + 1,
                NetEventView::Landed { throw_id, .. } => after.held == echo.held && after.away
                    == others_away(echo.away, throw_id),
                NetEventView::Refused { throw_id, .. } => has == had && after.away == others_away(
                    echo.away,
                    throw_id,
                ),
                NetEventView::Lost { throw_id, .. } => has == had && after.away == others_away(
                    echo.away,
                    throw_id,
                ),
                _ => after == echo,
            }
        }),
{
    match ev {
        NetEventView::Refused { throw_id, .. } => {
            lemma_parted(echo.away, throw_id, now);
        },
        NetEventView::Lost { throw_id, .. } => {
            lemma_parted(echo.away, throw_id, now);
        },
        _ => {},
    }
}

/// A blob is held for its time and no longer. What is held after throwing has either been
/// here for less than that time, and is just as it was, or there was nobody to throw it to,
/// and its time begins anew. Whatever is away had been here for that time at least.
pub proof fn law_a_blob_is_held_for_its_time(
    net: NetView,
    held: Seq<HeldView>,
    hold_ms: u64,
    now: u64,
    k: int,
)
    ensures
        ({
            let (_, kept, away, _, stuck) = returning(net, held, hold_ms, now);
            let time = hold_ms * 1_000_000;
            &&& 0 <= k < kept.len() ==> exists|i: int|
                0 <= i < held.len() && kept[k].throw == (#[trigger] held[i]).throw && (if time > 0
                    && now - held[i].since < time {
                    kept[k].since == held[i].since
                } else {
                    kept[k].since == now
                })
            &&& 0 <= k < away.len() ==> exists|i: int|
                0 <= i < held.len() && away[k].throw == (#[trigger] held[i]).throw && (time == 0
                    || now - held[i].since >= time)
            &&& stuck <= kept.len()
        }),
    decreases held.len(),
{
    if held.len() > 0 {
        let head = held.drop_last();
        let (node, kept0, away0, _, _) = returning(net, head, hold_ms, now);
        let (_, kept, away, _, _) = returning(net, held, hold_ms, now);
        law_a_blob_is_held_for_its_time(net, head, hold_ms, now, k);
        let time = hold_ms * 1_000_000;
        let last = held[held.len() - 1];
        if 0 <= k < kept.len() {
            if k < kept0.len() {
                assert(kept[k] == kept0[k]);
                let i = choose|i: int|
                    0 <= i < head.len() && kept[k].throw == (#[trigger] head[i]).throw && (if time
                        > 0 && now - head[i].since < time {
                        kept[k].since == head[i].since
                    } else {
                        kept[k].since == now
                    });
                assert(held[i] == head[i]);
            } else {
                assert(kept[k].throw == last.throw);
            }
        }
        if 0 <= k < away.len() {
            if k < away0.len() {
                assert(away[k] == away0[k]);
                let i = choose|i: int|
                    0 <= i < head.len() && away[k].throw == (#[trigger] head[i]).throw && (time
                        == 0 || now - head[i].since >= time);
                assert(held[i] == head[i]);
            } else {
                assert(away[k].throw == last.throw);
            }
        }
    }
}

/// What goes out goes back the way it came: over the edge across from the one it left its
/// sender by, at the same place, with its velocity reversed and its satellites as they were,
/// and under the id that it is away under.
pub proof fn law_a_blob_goes_back_the_way_it_came(
    net: NetView,
    held: Seq<HeldView>,
    hold_ms: u64,
    now: u64,
    k: int,
)
    requires
        forall|i: int|
            0 <= i < held.len() ==> sendable(MessageView::Throw((#[trigger] held[i]).throw)),
        0 <= k < returning(net, held, hold_ms, now).3.len(),
    ensures
        ({
            let (_, _, away, sent, _) = returning(net, held, hold_ms, now);
            let came = away[k].throw;
            &&& k < away.len()
            &&& decoded(sent[k].bytes) matches Ok((MessageView::Throw(t), used)) && {
                &&& used == sent[k].bytes.len()
                &&& t.throw_id == away[k].throw_id
                &&& came.edge == Edge::Left ==> t.edge == Edge::Right
                &&& came.edge == Edge::Right ==> t.edge == Edge::Left
                &&& came.edge == Edge::Top ==> t.edge == Edge::Bottom
                &&& came.edge == Edge::Bottom ==> t.edge == Edge::Top
                &&& t.along == came.along
                &&& t.vel_x.units() == -came.vel_x.units()
                &&& t.vel_y.units() == -came.vel_y.units()
                &&& t.sats == came.sats
            }
        }),
    decreases held.len(),
{
    if held.len() > 0 {
        let head = held.drop_last();
        assert forall|i: int| 0 <= i < head.len() implies sendable(
            MessageView::Throw((#[trigger] head[i]).throw),
        ) by {
            assert(head[i] == held[i]);
        }
        law_the_echo_loses_nothing(net, head, hold_ms, now);
        law_the_echo_loses_nothing(net, held, hold_ms, now);
        let (node, _, away0, sent0, _) = returning(net, head, hold_ms, now);
        let (_, _, away, sent, _) = returning(net, held, hold_ms, now);
        if k < sent0.len() {
            law_a_blob_goes_back_the_way_it_came(net, head, hold_ms, now, k);
            assert(sent[k] == sent0[k]);
            assert(away[k] == away0[k]);
        } else {
            let t = held[held.len() - 1].throw;
            assert(sendable(MessageView::Throw(t)));
            crate::single::law_the_opposite_number(t.vel_x);
            crate::single::law_the_opposite_number(t.vel_y);
            law_a_throw_says_what_was_thrown(
                node,
                t.edge.facing(),
                t.along,
                (t.vel_x.negated(), t.vel_y.negated()),
                t.sats,
                now,
            );
        }
    }
}

/// An arrival is held from now on, as it came, behind what was held before, and counted;
/// the slot that was promised to it is free again.
pub proof fn law_an_arrival_is_held(
    echo: EchoView,
    net: NetView,
    throw: ThrowView,
    from: AddressView,
    now: u64,
)
    ensures
        ({
            let (after, node, news) = echo.hearing(net, NetEventView::Arrived { throw, from }, now);
            let n = echo.held.len();
            &&& after.held.len() == n + 1 && after.held.take(n as int) == echo.held
            &&& after.held[n as int].throw == throw && after.held[n as int].since == now
            &&& after.away == echo.away && after.returned == echo.returned
            &&& after.served == echo.served && after.hold_ms == echo.hold_ms
            &&& echo.caught < u64::MAX ==> after.caught == echo.caught + 1
            &&& news matches EchoNewsView::Caught { number, from: who } && number == after.caught
                && who == from
            &&& net.reserved > 0 ==> node.reserved == net.reserved - 1
            &&& net.reserved == 0 ==> node.reserved == 0
            &&& node == (NetView { reserved: node.reserved, ..net })
        }),
{
    let (after, _, _) = echo.hearing(net, NetEventView::Arrived { throw, from }, now);
    assert(after.held.take(echo.held.len() as int) =~= echo.held);
}

proof fn lemma_recalled(list: Seq<AwayView>, throw_id: u64, now: u64, a: AwayView, h: HeldView)
    ensures
        others_away(list, throw_id).contains(a) <==> list.contains(a) && a.throw_id != throw_id,
        back_again(list, throw_id, now).contains(h) <==> h.since == now && list.contains(
            AwayView { throw_id, throw: h.throw },
        ),
    decreases list.len(),
{
    let others = others_away(list, throw_id);
    let back = back_again(list, throw_id, now);
    let b = AwayView { throw_id, throw: h.throw };
    reveal(Seq::filter);
    if list.len() > 0 {
        let head = list.drop_last();
        lemma_recalled(head, throw_id, now, a, h);
        let others0 = others_away(head, throw_id);
        let back0 = back_again(head, throw_id, now);
        let last = list[list.len() - 1];
        assert(list =~= head.push(last));
        assert(list.contains(a) <==> head.contains(a) || last == a) by {
            lemma_pushed(head, last, a);
        }
        assert(list.contains(b) <==> head.contains(b) || last == b) by {
            lemma_pushed(head, last, b);
        }
        if last.throw_id == throw_id {
            let again = HeldView { since: now, throw: last.throw };
            assert(others =~= others0);
            assert(back =~= back0.push(again));
            lemma_pushed(back0, again, h);
        } else {
            assert(others =~= others0.push(last));
            assert(back =~= back0);
            lemma_pushed(others0, last, a);
        }
    }
}

proof fn lemma_pushed<A>(list: Seq<A>, x: A, a: A)
    ensures
        list.push(x).contains(a) <==> list.contains(a) || a == x,
{
    let all = list.push(x);
    if list.contains(a) {
        let i = choose|i: int| 0 <= i < list.len() && list[i] == a;
        assert(all[i] == a);
    }
    if a == x {
        assert(all[list.len() as int] == a);
    }
    if all.contains(a) {
        let i = choose|i: int| 0 <= i < all.len() && all[i] == a;
        if i < list.len() {
            assert(list[i] == a);
        }
    }
}

/// The answer to a throw settles that throw and no other: whatever is away under another id
/// stays away, nothing is under this one any more, and what was is held again from now on if
/// the throw was refused or lost, and is gone if it landed.
pub proof fn law_an_answer_settles_its_throw(
    echo: EchoView,
    net: NetView,
    ev: NetEventView,
    throw_id: u64,
    now: u64,
    a: AwayView,
)
    requires
        match ev {
            NetEventView::Landed { throw_id: id, .. } => id == throw_id,
            NetEventView::Refused { throw_id: id, .. } => id == throw_id,
            NetEventView::Lost { throw_id: id, .. } => id == throw_id,
            _ => false,
        },
    ensures
        ({
            let (after, node, _) = echo.hearing(net, ev, now);
            let n = echo.held.len();
            let again = HeldView { since: now, throw: a.throw };
            &&& node == net
            &&& after.away.contains(a) <==> echo.away.contains(a) && a.throw_id != throw_id
            &&& after.held.len() >= n && after.held.take(n as int) == echo.held
            &&& ev is Landed ==> after.held == echo.held && (echo.returned < u64::MAX
                ==> after.returned == echo.returned + 1)
            &&& !(ev is Landed) ==> after.returned == echo.returned
            &&& !(ev is Landed) && a.throw_id == throw_id ==> (after.held.skip(n as int).contains(
                again,
            ) <==> echo.away.contains(a))
            &&& after.caught == echo.caught
        }),
{
    let (after, _, _) = echo.hearing(net, ev, now);
    let n = echo.held.len();
    let again = HeldView { since: now, throw: a.throw };
    lemma_recalled(echo.away, throw_id, now, a, again);
    assert(after.held.take(n as int) =~= echo.held);
    if !(ev is Landed) {
        assert(after.held.skip(n as int) =~= back_again(echo.away, throw_id, now));
    }
}

/// A blob that was put into play and comes back to be thrown again goes out as it did the
/// first time: off the right-hand edge, half way up, at 1.2 and -0.15 screen heights a
/// second.
pub proof fn law_an_invented_blob_is_served_alike(sats: Seq<SatState>)
    ensures
        ({
            let t = invented(sats);
            &&& t.edge.facing() == Edge::Right
            &&& t.along.bits == 0x3f00_0000
            &&& t.vel_x.negated().bits == 0x3f99_999a && t.vel_y.negated().bits == 0xbe19_999a
            &&& t.sats == sats
        }),
{
}

/// An echo begins with empty hands, and puts a blob into play just if it was told to.
pub proof fn law_an_echo_begins_with_nothing(serve: bool, hold_ms: u64)
    ensures
        ({
            let echo = EchoView::beginning(serve, hold_ms);
            &&& echo.held.len() == 0 && echo.away.len() == 0
            &&& echo.caught == 0 && echo.returned == 0
            &&& echo.served <==> !serve
            &&& echo.hold_ms == hold_ms
        }),
{
}

/// A blob is put into play once, as soon as the right-hand edge leads to somebody: it goes out
/// over that edge, half way up and at 1.2 and -0.15 screen heights a second, and is away under
/// the id of its throw.
pub proof fn law_a_blob_is_served_once(
    echo: EchoView,
    net: NetView,
    sats: Seq<SatState>,
    now: u64,
)
    requires
        forall|k: int|
            0 <= k < sats.len() ==> (#[trigger] sats[k]).off_x.finite() && sats[k].off_y.finite()
                && sats[k].vel_x.finite() && sats[k].vel_y.finite(),
        36 + 16 * sats.len() <= 65536,
    ensures
        ({
            let (after, node, out) = echo.serving(net, sats, now);
            let n = echo.away.len() as int;
            &&& echo.served || net.door(Edge::Right, now) is None ==> out is None && after == echo
                && node == net
            &&& !echo.served && net.door(Edge::Right, now) is Some ==> {
                &&& out is Some && out->0.peer == net.door(Edge::Right, now)->0
                &&& after.served && after.held == echo.held
                &&& after.away.len() == n + 1 && after.away.take(n) == echo.away
                &&& after.away[n].throw_id == out->0.throw_id && after.away[n].throw.sats == sats
                &&& decoded(out->0.bytes) matches Ok((MessageView::Throw(t), used)) && {
                    &&& t.edge == Edge::Right && t.throw_id == out->0.throw_id
                    &&& t.along.bits == 0x3f00_0000
                    &&& t.vel_x.bits == 0x3f99_999a && t.vel_y.bits == 0xbe19_999a
                    &&& t.sats == sats
                }
                &&& after.serving(node, sats, now).2 is None
            }
        }),
{
    let along = Single { bits: 0x3f00_0000 };
    let vel = (Single { bits: 0x3f99_999a }, Single { bits: 0xbe19_999a });
    let (after, _, _) = echo.serving(net, sats, now);
    (Single { bits: 0 }).lemma_rank(along);
    along.lemma_rank(Single { bits: 0x3f80_0000 });
    assert((Single { bits: 0 }).units() == 0);
    if net.door(Edge::Right, now) is Some {
        law_a_throw_says_what_was_thrown(net, Edge::Right, along, vel, sats, now);
        if !echo.served {
            assert(after.away.take(echo.away.len() as int) =~= echo.away);
        }
    } else {
        crate::net_laws::law_nothing_is_thrown_at_nobody(net, Edge::Right, along, vel, sats, now);
    }
}

} // verus!

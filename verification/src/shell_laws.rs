//! What holds of the blobs on a screen, whatever happens to them: none is lost, none is
//! doubled.

use crate::address::AddressView;
use crate::blob::{turned_back, BlobView, Walls};
use crate::blob_laws::inward_units;
use crate::desk::Placement;
use crate::net::{InboundView, NetEventView, NetView};
use crate::physics::{kept, measured, Bounds, Sample, Turn, Vec2};
use crate::region::{covered, rect_ints};
use crate::shell::{
    all_idle, deepest, first_flying, first_held, flies_as, overdue, residents, topmost, without,
    AppView, Input, NetActionView, Probe, ReactionView, Relocation, SlotView, FLIGHT_TIMEOUT,
};
use crate::single::Single;
use crate::wire::{encoded, Edge, MessageView, NackReason, ThrowView};
use vstd::prelude::*;

verus! {

/// How many blobs are in flight.
pub open spec fn flying(blobs: Seq<SlotView>) -> nat
    decreases blobs.len(),
{
    if blobs.len() == 0 {
        0
    } else {
        flying(blobs.drop_last()) + if blobs.last().flight is Some {
            1nat
        } else {
            0
        }
    }
}

/// Every blob is either on this screen or in flight.
pub proof fn law_every_blob_is_here_or_in_flight(blobs: Seq<SlotView>)
    ensures
        residents(blobs) + flying(blobs) == blobs.len(),
    decreases blobs.len(),
{
    if blobs.len() > 0 {
        law_every_blob_is_here_or_in_flight(blobs.drop_last());
    }
}

/// A blob that goes through a door is still ours: no blob appears or goes, the others stay
/// as they are, and this one is in flight or on its way back in.
pub proof fn law_a_departing_blob_is_still_ours(
    app: AppView,
    i: int,
    edge: Edge,
    sent: Option<(u64, Seq<char>)>,
    turn: Turn,
    now: u64,
)
    requires
        0 <= i < app.blobs.len(),
        app.blobs[i].flight is None,
    ensures
        ({
            let after = app.departed(i, edge, sent, turn, now);
            &&& after.blobs.len() == app.blobs.len()
            &&& forall|k: int|
                0 <= k < app.blobs.len() && k != i ==> after.blobs[k] == app.blobs[k]
            &&& match sent {
                Some((id, _)) => flies_as(after.blobs[i], id) && after.blobs[i].blob
                    == app.blobs[i].blob,
                None => after.blobs[i].flight is None && after.blobs[i].blob == turned_back(
                    app.blobs[i].blob,
                    edge,
                    turn,
                ),
            }
        }),
{
}

/// A throw that is refused, lost or never answered ends with the blob back on this screen:
/// in the same slot, on its way in over the edge it left by, and in flight no longer.
pub proof fn law_a_throw_that_does_not_connect_bounces(
    app: AppView,
    i: int,
    edge: Edge,
    id: u64,
    peer: Seq<char>,
    turn: Turn,
    now: u64,
)
    requires
        0 <= i < app.blobs.len(),
        app.blobs[i].flight is None,
    ensures
        ({
            let thrown = app.departed(i, edge, Some((id, peer)), turn, now);
            let after = thrown.bounced(i, turn);
            &&& after.blobs.len() == app.blobs.len()
            &&& forall|k: int|
                0 <= k < app.blobs.len() && k != i ==> after.blobs[k] == app.blobs[k]
            &&& after.blobs[i].flight is None
            &&& after.blobs[i].blob == turned_back(app.blobs[i].blob, edge, turn)
            &&& after.blobs[i].blob.entering
        }),
{
}

proof fn lemma_without_none(blobs: Seq<SlotView>, id: u64)
    requires
        forall|k: int| 0 <= k < blobs.len() ==> !flies_as(#[trigger] blobs[k], id),
    ensures
        without(blobs, id) == blobs,
    decreases blobs.len(),
{
    reveal(Seq::filter);
    if blobs.len() > 0 {
        let head = blobs.drop_last();
        assert forall|k: int| 0 <= k < head.len() implies !flies_as(#[trigger] head[k], id) by {
            assert(!flies_as(blobs[k], id));
        }
        lemma_without_none(head, id);
        assert(!flies_as(blobs[blobs.len() - 1], id));
        assert(without(blobs, id) =~= blobs);
    } else {
        assert(without(blobs, id) =~= blobs);
    }
}

/// A throw that the peer has is gone from here, and nothing else is: the blob is in one
/// place only.
pub proof fn law_a_landed_throw_leaves_this_screen(
    app: AppView,
    i: int,
    id: u64,
    peer: Seq<char>,
)
    requires
        0 <= i < app.blobs.len(),
        flies_as(app.blobs[i], id),
        forall|k: int| 0 <= k < app.blobs.len() && k != i ==> !flies_as(#[trigger] app.blobs[k], id),
    ensures
        app.hearing(NetEventView::Landed { throw_id: id, peer }).0.blobs == app.blobs.remove(i),
{
    let pred = |s: SlotView| !flies_as(s, id);
    let head = app.blobs.take(i);
    let tail = app.blobs.skip(i + 1);
    let one = seq![app.blobs[i]];
    assert forall|k: int| 0 <= k < head.len() implies !flies_as(#[trigger] head[k], id) by {
        assert(!flies_as(app.blobs[k], id));
    }
    assert forall|k: int| 0 <= k < tail.len() implies !flies_as(#[trigger] tail[k], id) by {
        assert(!flies_as(app.blobs[k + i + 1], id));
    }
    lemma_without_none(head, id);
    lemma_without_none(tail, id);
    Seq::filter_distributes_over_add(head, one, pred);
    Seq::filter_distributes_over_add(head + one, tail, pred);
    assert(head + one + tail =~= app.blobs);
    assert(one.filter(pred) =~= Seq::empty()) by {
        reveal_with_fuel(Seq::filter, 2);
        assert(one.drop_last() =~= Seq::empty());
        assert(!pred(one.last()));
    }
    assert(head + Seq::empty() + tail =~= app.blobs.remove(i));
}

/// A receipt for a throw that is not in flight here changes nothing.
pub proof fn law_a_foreign_receipt_changes_nothing(app: AppView, id: u64, peer: Seq<char>)
    requires
        forall|k: int| 0 <= k < app.blobs.len() ==> !flies_as(#[trigger] app.blobs[k], id),
    ensures
        app.hearing(NetEventView::Landed { throw_id: id, peer }).0 == app,
        app.hearing(NetEventView::Landed { throw_id: id, peer }).1 is Nothing,
        first_flying(app.blobs, id, 0) is None,
{
    lemma_without_none(app.blobs, id);
    lemma_first_flying(app.blobs, id, 0);
}

proof fn lemma_first_flying(blobs: Seq<SlotView>, id: u64, i: int)
    requires
        0 <= i,
    ensures
        first_flying(blobs, id, i) matches Some(k) ==> i <= k < blobs.len() && flies_as(
            blobs[k],
            id,
        ),
        first_flying(blobs, id, i) is None ==> forall|k: int|
            i <= k < blobs.len() ==> !flies_as(#[trigger] blobs[k], id),
    decreases blobs.len() - i,
{
    if i < blobs.len() && !flies_as(blobs[i], id) {
        lemma_first_flying(blobs, id, i + 1);
    }
}

/// A refusal and a loss are the same to the blob: both ask for the bounce of just that
/// throw, with the reason.
pub proof fn law_a_refusal_or_a_loss_asks_for_a_bounce(
    app: AppView,
    id: u64,
    peer: Seq<char>,
    reason: NackReason,
    why: Seq<char>,
)
    ensures
        app.hearing(NetEventView::Refused { throw_id: id, peer, why: reason }) == (
            app,
            NetActionView::Bounce { throw_id: id, why: reason.meaning() },
        ),
        app.hearing(NetEventView::Lost { throw_id: id, peer, why }) == (
            app,
            NetActionView::Bounce { throw_id: id, why },
        ),
{
}

/// No flight is forgotten: every one that has had no answer for too long is reported, and
/// no other.
pub proof fn law_overdue_flights_are_found(blobs: Seq<SlotView>, now: u64, n: int, id: u64)
    requires
        0 <= n <= blobs.len(),
    ensures
        overdue(blobs, now, n).contains(id) <==> exists|k: int|
            0 <= k < n && flies_as(#[trigger] blobs[k], id) && now - (blobs[k].flight->0).sent
                > FLIGHT_TIMEOUT,
    decreases n,
{
    if n > 0 {
        law_overdue_flights_are_found(blobs, now, n - 1, id);
        let before = overdue(blobs, now, n - 1);
        let all = overdue(blobs, now, n);
        if all.contains(id) {
            let j = choose|j: int| 0 <= j < all.len() && all[j] == id;
            if j < before.len() {
                assert(before[j] == id);
                assert(before.contains(id));
            } else {
                assert(flies_as(blobs[n - 1], id));
            }
        }
        if exists|k: int|
            0 <= k < n && flies_as(#[trigger] blobs[k], id) && now - (blobs[k].flight->0).sent
                > FLIGHT_TIMEOUT {
            let k = choose|k: int|
                0 <= k < n && flies_as(#[trigger] blobs[k], id) && now - (blobs[k].flight->0).sent
                    > FLIGHT_TIMEOUT;
            if k < n - 1 {
                assert(before.contains(id));
                let j = choose|j: int| 0 <= j < before.len() && before[j] == id;
                assert(all[j] == id);
            } else {
                assert(all[all.len() - 1] == id);
            }
        }
    }
}

/// A click never lands on a blob that has left.
pub proof fn law_a_click_finds_only_what_is_here(app: AppView, probes: Seq<Probe>, x: int, y: int)
    requires
        probes.len() == app.blobs.len(),
        app.under(probes, x, y) is Some,
    ensures
        0 <= app.under(probes, x, y)->0 < app.blobs.len(),
        app.blobs[app.under(probes, x, y)->0].flight is None,
{
    let n = app.blobs.len() as int;
    lemma_topmost(app.blobs, probes, x, y, n);
    lemma_deepest(app.blobs, probes, n);
}

proof fn lemma_topmost(blobs: Seq<SlotView>, probes: Seq<Probe>, x: int, y: int, n: int)
    requires
        n <= blobs.len(),
    ensures
        topmost(blobs, probes, x, y, n) matches Some(i) ==> 0 <= i < n && blobs[i].flight is None,
    decreases n,
{
    if n > 0 {
        lemma_topmost(blobs, probes, x, y, n - 1);
    }
}

proof fn lemma_deepest(blobs: Seq<SlotView>, probes: Seq<Probe>, n: int)
    requires
        n <= blobs.len(),
    ensures
        deepest(blobs, probes, n) matches Some(i) ==> 0 <= i < n && blobs[i].flight is None,
    decreases n,
{
    if n > 0 {
        lemma_deepest(blobs, probes, n - 1);
    }
}

/// What was acknowledged is taken in: once a node has offered a throw and the offer has
/// been settled with an acknowledgement, the app makes a blob of just that throw, however
/// many blobs it has and wherever they are.
pub proof fn law_what_is_acknowledged_is_taken_in(
    net: NetView,
    app: AppView,
    buf: Seq<u8>,
    from: AddressView,
    now: u64,
    throw: ThrowView,
    used: nat,
)
    requires
        net.receiving(buf, from, now).1 == (InboundView::Offer { used, throw }),
    ensures
        net.receiving(buf, from, now).0.settling(throw.throw_id, true).1 == encoded(
            MessageView::Ack(throw.throw_id),
        ),
        app.hearing(NetEventView::Arrived { throw, from }) == (
            app,
            NetActionView::Spawn { throw, from, entry: throw.edge.facing() },
        ),
{
}

/// A blob that comes in is one more on this screen, and nothing happens to the others.
pub proof fn law_an_arrival_adds_one_blob(app: AppView, b: BlobView)
    ensures
        residents(app.with_arrival(b).blobs) == residents(app.blobs) + 1,
        app.with_arrival(b).blobs.len() == app.blobs.len() + 1,
        app.with_arrival(b).blobs.drop_last() == app.blobs,
{
    assert(app.with_arrival(b).blobs.drop_last() =~= app.blobs);
}

/// A blob that is taken in is the one that arrived: it comes last, in no flight, with the
/// place, velocity, satellites, world, holes and hold of the blob handed in, still on its way
/// in if that was; it differs in its doors only, which are the app's. The blobs that were
/// there stay as they are, and from now on the blobs are not put back in the middle any more.
pub proof fn law_an_arrival_is_taken_as_it_is(app: AppView, b: BlobView, edge: Edge)
    ensures
        ({
            let after = app.with_arrival(b);
            let slot = after.blobs.last();
            &&& after.blobs.len() == app.blobs.len() + 1
            &&& forall|k: int| 0 <= k < app.blobs.len() ==> after.blobs[k] == app.blobs[k]
            &&& slot.flight is None
            &&& slot.blob.core.p == b.core.p && slot.blob.core.v == b.core.v
            &&& slot.blob.sats == b.sats && slot.blob.bounds == b.bounds
            &&& slot.blob.dead == b.dead && slot.blob.entering == b.entering
            &&& slot.blob.grab == b.grab && slot.blob.grab_target == b.grab_target
            &&& slot.blob.still_for == b.still_for
            &&& slot.blob.portals == app.portals
            &&& inward_units(edge, slot.blob.core.v) == inward_units(edge, b.core.v)
            &&& after == (AppView { blobs: after.blobs, touched: true, ..app })
        }),
{
}

/// A blob that has been sent stays as it is, and its flight keeps what the answer will need:
/// the id, the edge it left by, who it went to and when. One that nobody was there for is on
/// its way back in over the edge it came to.
pub proof fn law_a_departure_keeps_what_the_answer_needs(
    app: AppView,
    i: int,
    edge: Edge,
    id: u64,
    peer: Seq<char>,
    turn: Turn,
    now: u64,
)
    requires
        0 <= i < app.blobs.len(),
    ensures
        ({
            let sent = app.departed(i, edge, Some((id, peer)), turn, now);
            let kept = app.departed(i, edge, None, turn, now);
            let f = sent.blobs[i].flight;
            &&& f is Some && f->0.throw_id == id && f->0.edge == edge
            &&& f->0.peer == peer && f->0.sent == now
            &&& sent.blobs[i].blob == app.blobs[i].blob
            &&& kept.blobs[i].flight == app.blobs[i].flight
            &&& kept.blobs[i].blob.core.p == app.blobs[i].blob.core.p
            &&& kept.blobs[i].blob.core.v == turn.homeward(edge, app.blobs[i].blob.core.v)
            &&& kept.blobs[i].blob.entering
            &&& sent == (AppView { blobs: sent.blobs, ..app })
            &&& kept == (AppView { blobs: kept.blobs, ..app })
            &&& forall|k: int|
                0 <= k < app.blobs.len() && k != i ==> sent.blobs[k] == app.blobs[k]
                    && kept.blobs[k] == app.blobs[k]
        }),
{
}

/// The word that a peer has a throw takes from this screen just the blobs in flight as that
/// throw.
pub proof fn law_a_receipt_takes_just_its_blob(
    app: AppView,
    id: u64,
    peer: Seq<char>,
    s: SlotView,
)
    ensures
        ({
            let after = app.hearing(NetEventView::Landed { throw_id: id, peer }).0;
            &&& after.blobs.contains(s) <==> app.blobs.contains(s) && !(s.flight is Some
                && s.flight->0.throw_id == id)
            &&& after == (AppView { blobs: after.blobs, ..app })
        }),
{
    lemma_kept_slots(app.blobs, |s: SlotView| !flies_as(s, id), s);
}

proof fn lemma_kept_slots(list: Seq<SlotView>, pred: spec_fn(SlotView) -> bool, s: SlotView)
    ensures
        list.filter(pred).contains(s) <==> list.contains(s) && pred(s),
    decreases list.len(),
{
    reveal(Seq::filter);
    if list.len() > 0 {
        let head = list.drop_last();
        let out = list.filter(pred);
        let sub = head.filter(pred);
        lemma_kept_slots(head, pred, s);
        if list.contains(s) && pred(s) {
            let k = choose|k: int| 0 <= k < list.len() && list[k] == s;
            if k < head.len() {
                assert(head[k] == s);
                assert(sub.contains(s));
                let j = choose|j: int| 0 <= j < sub.len() && sub[j] == s;
                assert(out[j] == s);
            } else {
                assert(out[sub.len() as int] == s);
            }
        }
        if out.contains(s) {
            let j = choose|j: int| 0 <= j < out.len() && out[j] == s;
            if j < sub.len() {
                assert(sub[j] == s);
                assert(sub.contains(s));
                let k = choose|k: int| 0 <= k < head.len() && head[k] == s;
                assert(list[k] == s);
            } else {
                assert(list[list.len() - 1] == s);
            }
        }
    }
}

/// A flight is found by its id: the first blob in flight as that throw, if there is one.
pub proof fn law_a_flight_is_found_by_its_id(blobs: Seq<SlotView>, id: u64, k: int)
    ensures
        first_flying(blobs, id, 0) matches Some(i) ==> 0 <= i < blobs.len() && blobs[i].flight
            is Some && blobs[i].flight->0.throw_id == id,
        0 <= k < blobs.len() && blobs[k].flight is Some && blobs[k].flight->0.throw_id == id ==> (
        first_flying(blobs, id, 0) matches Some(i) && i <= k),
{
    lemma_first_flying(blobs, id, 0);
    if 0 <= k < blobs.len() && flies_as(blobs[k], id) {
        lemma_flying_no_later(blobs, id, 0, k);
    }
}

proof fn lemma_flying_no_later(blobs: Seq<SlotView>, id: u64, i: int, k: int)
    requires
        0 <= i <= k < blobs.len(),
        flies_as(blobs[k], id),
    ensures
        first_flying(blobs, id, i) matches Some(j) && j <= k,
    decreases k - i,
{
    if !flies_as(blobs[i], id) {
        lemma_flying_no_later(blobs, id, i + 1, k);
    }
}

/// A flight that has had no answer for more than three seconds is overdue.
pub proof fn law_a_flight_is_overdue_after_a_while(blobs: Seq<SlotView>, now: u64, k: int)
    requires
        0 <= k < blobs.len(),
        blobs[k].flight is Some,
        now - (blobs[k].flight->0).sent > 3_000_000_000,
    ensures
        overdue(blobs, now, blobs.len() as int).contains((blobs[k].flight->0).throw_id),
{
    let id = (blobs[k].flight->0).throw_id;
    assert(flies_as(blobs[k], id));
    law_overdue_flights_are_found(blobs, now, blobs.len() as int, id);
}

/// As many blobs are on this screen as are in no flight.
pub proof fn law_residents_are_those_in_no_flight(blobs: Seq<SlotView>)
    ensures
        residents(blobs) == blobs.filter(|s: SlotView| s.flight is None).len(),
    decreases blobs.len(),
{
    reveal(Seq::filter);
    if blobs.len() > 0 {
        law_residents_are_those_in_no_flight(blobs.drop_last());
    }
}

/// The frame rate drops exactly if no blob is in flight, held, or has moved within the last
/// quarter of a second.
pub proof fn law_the_app_rests_when_every_blob_does(blobs: Seq<SlotView>)
    ensures
        all_idle(blobs) <==> forall|i: int|
            0 <= i < blobs.len() ==> (#[trigger] blobs[i]).flight is None && blobs[i].blob.grab
                is None && (Single { bits: 0x3e80_0000 }).below(blobs[i].blob.still_for),
{
}

/// A click belongs to the topmost blob here whose cover it hits: the last one of those. If it
/// hits none it belongs to nobody, or, where the window system has vouched for it, to the
/// blob here that the pointer is deepest inside.
pub proof fn law_a_click_finds_the_topmost_blob(
    app: AppView,
    probes: Seq<Probe>,
    x: int,
    y: int,
    k: int,
)
    requires
        probes.len() == app.blobs.len(),
        0 <= k < app.blobs.len(),
        app.blobs[k].flight is None,
    ensures
        covered(rect_ints(probes[k].rects@), x, y) ==> (app.under(probes, x, y) matches Some(i) && i
            >= k && app.blobs[i].flight is None && covered(rect_ints(probes[i].rects@), x, y)),
        app.under(probes, x, y) is None ==> app.check_hit,
        app.under(probes, x, y) matches Some(i) ==> covered(rect_ints(probes[i].rects@), x, y) || (
        !app.check_hit && probes[i].depth.place() >= probes[k].depth.place()),
{
    let n = app.blobs.len() as int;
    lemma_topmost_is_last(app.blobs, probes, x, y, n, k);
    lemma_deepest_is_deepest(app.blobs, probes, n, k);
}

proof fn lemma_topmost_is_last(
    blobs: Seq<SlotView>,
    probes: Seq<Probe>,
    x: int,
    y: int,
    n: int,
    k: int,
)
    requires
        0 <= n <= blobs.len(),
        probes.len() == blobs.len(),
    ensures
        topmost(blobs, probes, x, y, n) matches Some(i) ==> 0 <= i < n && blobs[i].flight is None
            && covered(rect_ints(probes[i].rects@), x, y),
        0 <= k < n && blobs[k].flight is None && covered(rect_ints(probes[k].rects@), x, y) ==> (
        topmost(blobs, probes, x, y, n) matches Some(i) && i >= k),
    decreases n,
{
    if n > 0 {
        lemma_topmost_is_last(blobs, probes, x, y, n - 1, k);
    }
}

proof fn lemma_deepest_is_deepest(blobs: Seq<SlotView>, probes: Seq<Probe>, n: int, k: int)
    requires
        0 <= n <= blobs.len(),
        probes.len() == blobs.len(),
    ensures
        deepest(blobs, probes, n) matches Some(i) ==> 0 <= i < n && blobs[i].flight is None,
        0 <= k < n && blobs[k].flight is None ==> (deepest(blobs, probes, n) matches Some(i)
            && probes[i].depth.place() >= probes[k].depth.place()),
    decreases n,
{
    if n > 0 {
        lemma_deepest_is_deepest(blobs, probes, n - 1, k);
        if deepest(blobs, probes, n - 1) is None && 0 <= k < n - 1 {
            lemma_deepest_is_deepest(blobs, probes, n - 1, k);
        }
    }
}

/// The blob that is held is the first one that is.
pub proof fn law_the_held_blob_is_found(app: AppView, k: int)
    ensures
        app.held() matches Some(i) ==> 0 <= i < app.blobs.len() && app.blobs[i].blob.grab is Some,
        0 <= k < app.blobs.len() && app.blobs[k].blob.grab is Some ==> (app.held() matches Some(i)
            && i <= k),
{
    lemma_held_from(app.blobs, 0, k);
}

proof fn lemma_held_from(blobs: Seq<SlotView>, i: int, k: int)
    requires
        0 <= i,
    ensures
        first_held(blobs, i) matches Some(j) ==> i <= j < blobs.len() && blobs[j].blob.grab is Some,
        i <= k < blobs.len() && blobs[k].blob.grab is Some ==> (first_held(blobs, i) matches Some(j)
            && j <= k),
    decreases blobs.len() - i,
{
    if i < blobs.len() && blobs[i].blob.grab is None {
        lemma_held_from(blobs, i + 1, k);
    }
}

/// Pressing the button on a blob is a grab, and a second press in a row a reset; either way
/// the blobs have been touched, and the track of the pointer begins anew, for a grab with
/// where it is now. Pressing it beside the blobs does nothing but move the pointer.
pub proof fn law_a_press_grabs_or_resets(
    app: AppView,
    probes: Seq<Probe>,
    x: i32,
    y: i32,
    at: Vec2,
    clicks: u8,
    t: u64,
)
    ensures
        ({
            let ev = Input::LeftDown { x, y, at, clicks, t };
            let (after, left) = app.handling(ev, probes);
            let hit = app.under(probes, x as int, y as int);
            &&& after.cursor == at && after.blobs == app.blobs && after.running == app.running
            &&& hit is None ==> left is Nothing && after == (AppView { cursor: at, ..app })
            &&& hit is Some ==> after == (AppView {
                cursor: at,
                touched: true,
                track: after.track,
                ..app
            })
            &&& hit is Some && clicks >= 2 ==> left == ReactionView::Reset(hit->0)
                && after.track.len() == 0
            &&& hit is Some && clicks < 2 ==> left == ReactionView::Grab(hit->0) && after.track
                == seq![Sample { t, p: at }]
        }),
{
    let pointed = app.pointed(at);
    assert(pointed.under(probes, x as int, y as int) == app.under(probes, x as int, y as int));
    assert(Seq::<Sample>::empty().push(Sample { t, p: at }) =~= seq![Sample { t, p: at }]);
}

/// Letting go throws the blob that is held, by how the pointer went lately, up to where it is
/// now; the track is then forgotten. With nothing held nothing is thrown.
pub proof fn law_letting_go_throws_what_is_held(
    app: AppView,
    probes: Seq<Probe>,
    at: Vec2,
    t: u64,
)
    ensures
        ({
            let (after, left) = app.handling(Input::LeftUp { at, t }, probes);
            let track = kept(app.track.push(Sample { t, p: at }), t);
            &&& after.track.len() == 0 && after.blobs == app.blobs
            &&& app.held() is None ==> left == ReactionView::LetGo(None) && after.cursor
                == app.cursor
            &&& app.held() is Some ==> left == ReactionView::LetGo(
                Some((app.held()->0, measured(track, t))),
            ) && after.cursor == at
            &&& after == (AppView { track: after.track, cursor: after.cursor, ..app })
        }),
{
}

/// Moving the pointer drags the blob that is held, and no other, and is noted on the track;
/// with nothing held only the pointer moves.
pub proof fn law_moving_drags_what_is_held(app: AppView, probes: Seq<Probe>, at: Vec2, t: u64)
    ensures
        ({
            let (after, left) = app.handling(Input::Motion { at, t }, probes);
            &&& left is Nothing && after.cursor == at
            &&& app.held() is None ==> after == (AppView { cursor: at, ..app })
            &&& app.held() is Some ==> {
                let i = app.held()->0;
                &&& after.blobs.len() == app.blobs.len()
                &&& after.blobs[i].blob.grab_target == at
                &&& after.blobs[i].blob == (BlobView {
                    grab_target: at,
                    still_for: Single { bits: 0 },
                    ..app.blobs[i].blob
                })
                &&& after.blobs[i].flight == app.blobs[i].flight
                &&& forall|k: int|
                    0 <= k < app.blobs.len() && k != i ==> after.blobs[k] == app.blobs[k]
                &&& after.track == kept(app.track.push(Sample { t, p: at }), t)
            }
            &&& after == (AppView {
                blobs: after.blobs,
                track: after.track,
                cursor: at,
                ..app
            })
        }),
{
    law_the_held_blob_is_found(app, 0);
}

/// A held pointer that does not move is noted too; one that holds nothing is not.
pub proof fn law_a_still_pointer_is_noted(app: AppView, t: u64)
    ensures
        app.held() is None ==> app.fed(t) == app,
        app.held() is Some ==> app.fed(t) == (AppView {
            track: kept(app.track.push(Sample { t, p: app.cursor }), t),
            ..app
        }),
{
}

/// The program ends when the window is closed, when Escape is pressed, and when the middle
/// button is pressed on a blob; pressed beside the blobs it does nothing but move the pointer.
/// Nothing else ends it.
pub proof fn law_what_ends_the_program(app: AppView, probes: Seq<Probe>, ev: Input)
    ensures
        ({
            let after = app.handling(ev, probes).0;
            match ev {
                Input::Quit => !after.running && after.quit_reason
                    == "SDL_QUIT (SIGINT/SIGTERM or window closed)"@,
                Input::Escape => !after.running && after.quit_reason == "Esc pressed"@,
                Input::MiddleDown { x, y, at } => if app.under(probes, x as int, y as int) is Some {
                    !after.running && after.quit_reason == "middle-click on the blob"@
                        && after.cursor == at
                } else {
                    after == (AppView { cursor: at, ..app })
                },
                _ => after.running == app.running && after.quit_reason == app.quit_reason,
            }
        }),
        ev is Quit || ev is Escape ==> app.handling(ev, probes).0.blobs == app.blobs,
{
    match ev {
        Input::MiddleDown { x, y, at } => {
            assert(app.pointed(at).under(probes, x as int, y as int) == app.under(
                probes,
                x as int,
                y as int,
            ));
        },
        _ => {},
    }
}

/// A new size that is one is taken on, for the screen too where the window is the world, and
/// the world is to be worked out anew; any other is passed over. A move makes the window's
/// place be read again.
pub proof fn law_the_window_changes(app: AppView, probes: Seq<Probe>, w: i32, h: i32)
    ensures
        ({
            let (after, left) = app.handling(Input::Resized { w, h }, probes);
            let (moved, rest) = app.handling(Input::Moved, probes);
            &&& w > 0 && h > 0 ==> {
                &&& left is Rebound
                &&& after.logical.0 == w && after.logical.1 == h && after.geometry_dirty
                &&& app.check_hit ==> after.screen == after.logical
                &&& !app.check_hit ==> after.screen == app.screen
            }
            &&& w <= 0 || h <= 0 ==> left is Nothing && after == app
            &&& after.blobs == app.blobs && after.origin == app.origin
            &&& moved == (AppView { geometry_dirty: true, ..app }) && rest is Nothing
            &&& app.handling(Input::Other, probes) == (app, ReactionView::Nothing)
        }),
{
}

/// A place that is news moves the window there, and the world with it; while nobody has
/// touched the blobs they are put back in its middle. A place that is none, or the one that
/// is known, changes nothing.
pub proof fn law_a_window_that_moves_takes_the_world_along(app: AppView, found: Placement)
    ensures
        ({
            let (after, left) = app.relocating(found);
            let known = app.origin == (found.x, found.y) && app.logical == (found.w, found.h);
            let news = found.w > 0 && found.h > 0 && !known;
            &&& news ==> after.origin == (found.x, found.y) && after.logical == (found.w, found.h)
            &&& news && app.touched ==> left == Relocation::Rebound
            &&& news && !app.touched ==> left == Relocation::Recentre
            &&& !news ==> left == Relocation::Nothing && after.origin == app.origin && after.logical
                == app.logical
            &&& !after.geometry_dirty
            &&& after == (AppView {
                origin: after.origin,
                logical: after.logical,
                geometry_dirty: false,
                ..app
            })
        }),
{
}

/// The app begins with one blob, here and untouched, in the window it is given, running, with
/// the pointer on the blob and with all doors shut.
pub proof fn law_the_app_begins_with_one_blob(
    b: BlobView,
    at: Placement,
    screen: (u32, u32),
    check_hit: bool,
)
    ensures
        ({
            let app = AppView::starting(b, at, screen, check_hit);
            &&& app.blobs.len() == 1 && app.blobs[0].blob == b && app.blobs[0].flight is None
            &&& app.track.len() == 0 && app.cursor == b.core.p
            &&& app.running && !app.touched && !app.geometry_dirty && app.portals == 0
            &&& app.origin == (at.x, at.y) && app.logical == (at.w, at.h)
            &&& app.screen == screen && app.check_hit == check_hit
            &&& app.following_first() == app
        }),
{
}

/// The pointer counts as being on the first blob, if there is one; nothing else changes.
pub proof fn law_the_pointer_follows_the_first_blob(app: AppView)
    ensures
        app.blobs.len() > 0 ==> app.following_first().cursor == app.blobs[0].blob.core.p,
        app.blobs.len() == 0 ==> app.following_first() == app,
        app.following_first() == (AppView { cursor: app.following_first().cursor, ..app }),
{
}

/// A new world is every blob's world, and changes nothing else about them; new doors are
/// every blob's but those in flight, which keep the doors they left by.
pub proof fn law_world_and_doors_are_everybodys(app: AppView, b: Bounds, mask: u8, k: int)
    requires
        0 <= k < app.blobs.len(),
    ensures
        ({
            let (world, doors) = (app.in_world(b), app.with_doors(mask));
            let s = app.blobs[k];
            &&& world.blobs.len() == app.blobs.len() && doors.blobs.len() == app.blobs.len()
            &&& world.blobs[k].blob == (BlobView { bounds: b, ..s.blob })
            &&& world.blobs[k].flight == s.flight && doors.blobs[k].flight == s.flight
            &&& s.flight is None ==> doors.blobs[k].blob == (BlobView { portals: mask, ..s.blob })
            &&& s.flight is Some ==> doors.blobs[k] == s
            &&& doors.portals == mask
            &&& world == (AppView { blobs: world.blobs, ..app })
            &&& doors == (AppView { blobs: doors.blobs, portals: mask, ..app })
        }),
{
}

/// A blob that has been sent is not sent again, and once it is out of sight it is hidden; a
/// blob that has not been sent is never hidden.
pub proof fn law_a_flying_blob_is_left_alone(app: AppView, i: int, walls: Walls, bb: Bounds)
    requires
        0 <= i < app.blobs.len(),
    ensures
        app.blobs[i].flight is Some ==> app.going(i, walls) is None,
        app.blobs[i].flight is None ==> app.going(i, walls) == app.blobs[i].blob.departure(walls),
        app.blobs[i].flight is None ==> !app.blobs[i].hidden(bb),
        app.blobs[i].flight is Some ==> (app.blobs[i].hidden(bb) <==> (bb.x1.below(
            app.blobs[i].blob.bounds.x0,
        ) || app.blobs[i].blob.bounds.x1.below(bb.x0) || bb.y1.below(
            app.blobs[i].blob.bounds.y0,
        ) || app.blobs[i].blob.bounds.y1.below(bb.y0))),
{
}

/// What arrives is to be spawned as it was thrown, and comes in by the edge across from the
/// one it left by; until then nothing has changed.
pub proof fn law_an_arrival_comes_in_across(app: AppView, throw: ThrowView, from: AddressView)
    ensures
        ({
            let (after, action) = app.hearing(NetEventView::Arrived { throw, from });
            &&& after == app
            &&& action matches NetActionView::Spawn { throw: got, from: who, entry } && {
                &&& got == throw && who == from
                &&& throw.edge == Edge::Left ==> entry == Edge::Right
                &&& throw.edge == Edge::Right ==> entry == Edge::Left
                &&& throw.edge == Edge::Top ==> entry == Edge::Bottom
                &&& throw.edge == Edge::Bottom ==> entry == Edge::Top
            }
        }),
{
}

} // verus!

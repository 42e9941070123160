//! What holds of blobs, doors, walls and holes.

use crate::blob::{
    above_zero, arrived_sats, at_rest, in_hole, kept_out, nearest, off_the_ends, off_the_sides, off_the_walls,
    open_at, outward, place_along, turned_back, BlobView, Depths, Impact, Struck,
    Thrown, Walls,
};
use crate::physics::{
    believed, inward_part, Bounds, Fraction, Particle, Turn, Vec2, MAX_SAT_DIST,
    MIN_ENTRY_SPEED, SAT_COUNT,
};
use crate::single::{Single, HALF, ONE};
use crate::wire::Edge;
use vstd::prelude::*;

verus! {

/// A blob that is held, or on its way in, never goes through a door, however far outside
/// it is.
pub proof fn law_a_held_or_entering_blob_never_leaves(b: BlobView, walls: Walls)
    requires
        b.grab is Some || b.entering,
    ensures
        b.departure(walls) is None,
{
}

/// A blob leaves only through a door that is open, past the line of that edge and going
/// outward.
pub proof fn law_a_departure_is_through_an_open_door(b: BlobView, walls: Walls)
    requires
        b.departure(walls) is Some,
    ensures
        open_at(b.portals, b.departure(walls)->0),
        walls.passed(b.departure(walls)->0, b.core.p),
        outward(b.departure(walls)->0, b.core.v),
{
}

/// With all doors shut nothing ever leaves.
pub proof fn law_without_doors_nothing_leaves(b: BlobView, walls: Walls)
    requires
        b.portals == 0,
    ensures
        b.departure(walls) is None,
{
    assert(0u8 & 1 == 0 && 0u8 & 2 == 0 && 0u8 & 4 == 0 && 0u8 & 8 == 0) by (bit_vector);
}

/// A door in one edge opens no other.
pub proof fn law_a_door_does_not_open_the_others(edge: Edge, other: Edge)
    ensures
        open_at(edge.weight(), other) == (edge == other),
{
    crate::wire_laws::law_edge_bits_are_distinct(edge, other);
}

/// An edge with nobody behind it is a wall: whatever the core was doing, it is not past
/// that line once the walls have acted.
pub proof fn law_a_closed_edge_is_a_wall(
    core: Particle,
    walls: Walls,
    portals: u8,
    rebound: Vec2,
    edge: Edge,
)
    requires
        !walls.cramped(),
        !walls.lo_x.nan() && !walls.hi_x.nan() && !walls.lo_y.nan() && !walls.hi_y.nan(),
        !open_at(portals, edge),
    ensures
        !walls.passed(edge, off_the_walls(core, walls, portals, rebound).0.p),
{
}

/// A bounce reverses only the struck component: off a side wall the way up or down stays
/// what it was, off top or bottom the way across does, and the struck component leads back
/// in.
pub proof fn law_a_bounce_reverses_only_the_struck_component(
    core: Particle,
    walls: Walls,
    portals: u8,
    rebound: Vec2,
)
    requires
        0 <= rebound.x.units() && 0 <= rebound.y.units(),
    ensures
        ({
            let (done, hit) = off_the_sides(core, walls, portals, rebound);
            &&& done.p.y == core.p.y && done.v.y == core.v.y
            &&& hit matches Some(Impact { from: Edge::Left, .. }) ==> done.v.x == rebound.x
                && !outward(Edge::Left, done.v)
            &&& hit matches Some(Impact { from: Edge::Right, .. }) ==> done.v.x
                == rebound.x.negated() && !outward(Edge::Right, done.v)
        }),
        ({
            let (done, hit) = off_the_ends(core, walls, portals, rebound);
            &&& done.p.x == core.p.x && done.v.x == core.v.x
            &&& hit matches Some(Impact { from: Edge::Top, .. }) ==> done.v.y == rebound.y
                && !outward(Edge::Top, done.v)
            &&& hit matches Some(Impact { from: Edge::Bottom, .. }) ==> done.v.y
                == rebound.y.negated() && !outward(Edge::Bottom, done.v)
        }),
{
    lemma_negated(rebound.x);
    lemma_negated(rebound.y);
    assert((Single { bits: 0 }).units() == 0);
}

proof fn lemma_negated(x: Single)
    ensures
        x.negated().units() == -x.units(),
        x.negated().nan() == x.nan(),
{
}

/// Walls leave alone what is within their lines.
pub proof fn law_walls_leave_the_inside_alone(
    core: Particle,
    walls: Walls,
    portals: u8,
    rebound: Vec2,
)
    requires
        walls.hold(core.p),
    ensures
        off_the_walls(core, walls, portals, rebound) == (core, None::<Impact>),
{
}

/// An open door is no wall: a blob that is past that line and no other goes on as it was.
pub proof fn law_an_open_door_lets_the_blob_pass(
    core: Particle,
    walls: Walls,
    portals: u8,
    rebound: Vec2,
    edge: Edge,
)
    requires
        open_at(portals, edge),
        forall|e: Edge| e != edge ==> !(#[trigger] walls.passed(e, core.p)),
    ensures
        off_the_walls(core, walls, portals, rebound) == (core, None::<Impact>),
{
    assert(edge != Edge::Left ==> !walls.passed(Edge::Left, core.p));
    assert(edge != Edge::Right ==> !walls.passed(Edge::Right, core.p));
    assert(edge != Edge::Top ==> !walls.passed(Edge::Top, core.p));
    assert(edge != Edge::Bottom ==> !walls.passed(Edge::Bottom, core.p));
}

/// How deep a core is in a hole, from one of its sides.
pub open spec fn depth_from(d: Depths, side: Edge) -> Single {
    match side {
        Edge::Left => d.left,
        Edge::Right => d.right,
        Edge::Top => d.top,
        Edge::Bottom => d.bottom,
    }
}

/// The side by which a hole is left is one that no other side is nearer than.
pub proof fn law_a_hole_is_left_by_the_nearest_side(d: Depths, side: Edge)
    requires
        !d.left.nan() && !d.right.nan() && !d.top.nan() && !d.bottom.nan(),
    ensures
        depth_from(d, nearest(d)).at_most(depth_from(d, side)),
{
}

/// Whether a point lies on the line of one side of a hole.
pub open spec fn on_side(p: Vec2, hole: Bounds, side: Edge) -> bool {
    match side {
        Edge::Left => p.x == hole.x0,
        Edge::Right => p.x == hole.x1,
        Edge::Top => p.y == hole.y0,
        Edge::Bottom => p.y == hole.y1,
    }
}

/// The blob is kept out of the holes between displays. A core that is in none is not moved.
/// One that is in a hole is moved along one axis only, to the nearest side; it is in the
/// hole no longer, and its velocity on that axis does not lead back in.
pub proof fn law_a_hole_is_left(core: Particle, hole: Bounds, depths: Depths, rebound: Vec2)
    requires
        !hole.x0.nan() && !hole.x1.nan() && !hole.y0.nan() && !hole.y1.nan(),
        0 <= rebound.x.units() && 0 <= rebound.y.units(),
    ensures
        ({
            let (done, hit) = kept_out(core, hole, depths, rebound);
            let side = nearest(depths);
            &&& !in_hole(done.p, hole)
            &&& !in_hole(core.p, hole) ==> done == core && hit is None
            &&& in_hole(core.p, hole) ==> {
                &&& hit is Some
                &&& on_side(done.p, hole, side)
                &&& !outward(side.facing(), done.v)
                &&& match side {
                    Edge::Left | Edge::Right => done.p.y == core.p.y && done.v.y == core.v.y,
                    Edge::Top | Edge::Bottom => done.p.x == core.p.x && done.v.x == core.v.x,
                }
            }
        }),
{
    lemma_negated(rebound.x);
    lemma_negated(rebound.y);
    assert((Single { bits: 0 }).units() == 0);
}

/// With all doors shut the core is within all four lines once the walls have acted,
/// wherever it was before, and nothing is leaving.
pub proof fn law_without_doors_the_core_is_inside(b: BlobView, walls: Walls, rebound: Vec2)
    requires
        b.portals == 0,
        !walls.cramped(),
        !walls.lo_x.nan() && !walls.hi_x.nan() && !walls.lo_y.nan() && !walls.hi_y.nan(),
        !b.core.p.x.nan() && !b.core.p.y.nan(),
    ensures
        ({
            let core = off_the_walls(b.core, walls, b.portals, rebound).0;
            walls.hold(core.p) && (BlobView { core, ..b }).departure(walls) is None
        }),
{
    let core = off_the_walls(b.core, walls, b.portals, rebound).0;
    law_without_doors_nothing_leaves(BlobView { core, ..b }, walls);
    assert(0u8 & 1 == 0 && 0u8 & 2 == 0 && 0u8 & 4 == 0 && 0u8 & 8 == 0) by (bit_vector);
}

/// A throw with any other number of satellites than this blob has arrives just as one with
/// none at all.
pub proof fn law_a_differently_shaped_throw_arrives_round(
    core: Particle,
    rest: Seq<Vec2>,
    thrown: Seq<Thrown>,
)
    requires
        thrown.len() != SAT_COUNT,
    ensures
        arrived_sats(core, rest, thrown) == arrived_sats(core, rest, Seq::empty()),
        arrived_sats(core, rest, thrown) == at_rest(core, rest),
{
}

/// The thrown shape survives: each satellite that makes sense is where and as it was thrown.
pub proof fn law_the_thrown_shape_arrives(
    core: Particle,
    rest: Seq<Vec2>,
    thrown: Seq<Thrown>,
    i: int,
)
    requires
        thrown.len() == SAT_COUNT,
        0 <= i < thrown.len(),
        thrown[i].off.finite() && thrown[i].rel.finite(),
        thrown[i].dist.at_most(Single { bits: MAX_SAT_DIST }),
    ensures
        arrived_sats(core, rest, thrown)[i] == thrown[i].at,
{
}

/// An arriving blob is not thrown straight back: it is on its way in until the core is
/// within all four lines, and within them no blob is leaving.
pub proof fn law_an_arrival_is_not_thrown_back(b: BlobView, walls: Walls)
    requires
        b.entering,
    ensures
        b.departure(walls) is None,
        (BlobView { entering: b.entering && !walls.hold(b.core.p), ..b }).departure(walls) is None,
{
}

/// Whatever the velocity was, a blob that comes in over an edge is heading onto the screen
/// fast enough to get there, as long as what brings a velocity up to the entry speed does.
pub proof fn law_what_comes_in_gets_there(edge: Edge, v: Vec2, turn: Turn)
    requires
        !inward_part(edge, turn.hurried).below(Single { bits: MIN_ENTRY_SPEED }),
        !inward_part(edge, turn.turned_hurried).below(Single { bits: MIN_ENTRY_SPEED }),
    ensures
        !inward_part(edge, turn.homeward(edge, v)).below(Single { bits: MIN_ENTRY_SPEED }),
{
}

/// A velocity that already leads in fast enough is not touched.
pub proof fn law_a_good_throw_keeps_its_velocity(edge: Edge, v: Vec2, turn: Turn)
    requires
        v.finite(),
        !inward_part(edge, v).below(Single { bits: MIN_ENTRY_SPEED }),
    ensures
        turn.homeward(edge, believed(v)) == v,
{
}

/// A bounce does not move the blob, leaves its satellites and its doors alone, and keeps it
/// from leaving again before it is in.
pub proof fn law_a_bounce_does_not_teleport(b: BlobView, edge: Edge, turn: Turn, walls: Walls)
    ensures
        turned_back(b, edge, turn).core.p == b.core.p,
        turned_back(b, edge, turn).sats == b.sats,
        turned_back(b, edge, turn).portals == b.portals,
        turned_back(b, edge, turn).departure(walls) is None,
{
}

/// Where a blob crosses an edge is told as a number from 0 to 1.
pub proof fn law_a_crossing_is_a_fraction(f: Fraction)
    requires
        !f.part.nan(),
    ensures
        (Single { bits: 0 }).at_most(f.of_unit()),
        f.of_unit().at_most(Single { bits: ONE }),
{
    let zero = Single { bits: 0 };
    let half = Single { bits: HALF };
    let one = Single { bits: ONE };
    zero.lemma_rank(half);
    half.lemma_rank(one);
    zero.lemma_rank(one);
}

/// No departure goes unnoticed. A blob that is neither held nor on its way in, and that is
/// past the line of some edge, going outward over it, and finds the door there open, is
/// leaving; nothing else is. If that is so of one edge only, it leaves by that one; at a
/// corner the sides come first.
pub proof fn law_a_departure_is_noticed(b: BlobView, walls: Walls)
    requires
        !b.entering,
        b.grab is None,
    ensures
        ({
            let zero = Single { bits: 0 };
            let (p, v) = (b.core.p, b.core.v);
            let left = p.x.below(walls.lo_x) && v.x.below(zero) && b.portals & 1 != 0;
            let right = walls.hi_x.below(p.x) && zero.below(v.x) && b.portals & 2 != 0;
            let top = p.y.below(walls.lo_y) && v.y.below(zero) && b.portals & 4 != 0;
            let bottom = walls.hi_y.below(p.y) && zero.below(v.y) && b.portals & 8 != 0;
            &&& b.departure(walls) is Some <==> left || right || top || bottom
            &&& left ==> b.departure(walls) == Some(Edge::Left)
            &&& right && !left ==> b.departure(walls) == Some(Edge::Right)
            &&& top && !left && !right ==> b.departure(walls) == Some(Edge::Top)
            &&& bottom && !left && !right && !top ==> b.departure(walls) == Some(Edge::Bottom)
        }),
{
}

/// How hard a core with this component of velocity runs into something on its way down the
/// axis: its speed if it goes that way, and nothing if it does not.
pub open spec fn speed_down(x: Single) -> int {
    if x.units() < 0 {
        -x.units()
    } else {
        0
    }
}

/// The same on its way up the axis.
pub open spec fn speed_up(x: Single) -> int {
    if x.units() > 0 {
        x.units()
    } else {
        0
    }
}

proof fn lemma_above_zero(x: Single)
    requires
        !x.nan(),
    ensures
        above_zero(x).units() == speed_up(x),
        above_zero(x.negated()).units() == speed_down(x),
{
    lemma_negated(x);
    assert((Single { bits: 0 }).units() == 0);
}

/// A shut edge throws the core back. Wherever the core is past the line of an edge whose door
/// is shut, the walls put it on that line, going inward at the rebound speed, and report a
/// blow from there, as hard as the core was going outward; a blow from top or bottom counts
/// before one from the sides. On an axis on which it is past no such line nothing changes,
/// and if that is so of both, no blow is reported.
pub proof fn law_a_shut_edge_throws_the_core_back(
    b: BlobView,
    walls: Walls,
    middle: Vec2,
    rebound: Vec2,
)
    requires
        walls.lo_x.below(walls.hi_x) && walls.lo_y.below(walls.hi_y),
        !b.core.v.x.nan() && !b.core.v.y.nan(),
    ensures
        ({
            let (after, struck) = b.colliding(walls, middle, rebound);
            let (p, v) = (b.core.p, b.core.v);
            let left = p.x.below(walls.lo_x) && b.portals & 1 == 0;
            let right = walls.hi_x.below(p.x) && b.portals & 2 == 0;
            let top = p.y.below(walls.lo_y) && b.portals & 4 == 0;
            let bottom = walls.hi_y.below(p.y) && b.portals & 8 == 0;
            &&& left ==> after.core.p.x == walls.lo_x && after.core.v.x == rebound.x
            &&& right ==> after.core.p.x == walls.hi_x && after.core.v.x.units()
                == -rebound.x.units() && after.core.v.x.nan() == rebound.x.nan()
            &&& !left && !right ==> after.core.p.x == p.x && after.core.v.x == v.x
            &&& top ==> after.core.p.y == walls.lo_y && after.core.v.y == rebound.y
            &&& bottom ==> after.core.p.y == walls.hi_y && after.core.v.y.units()
                == -rebound.y.units() && after.core.v.y.nan() == rebound.y.nan()
            &&& !top && !bottom ==> after.core.p.y == p.y && after.core.v.y == v.y
            &&& after == (BlobView { core: after.core, ..b })
            &&& match struck {
                Struck::Walls(Some(hit)) => match hit.from {
                    Edge::Top => top && hit.speed.units() == speed_down(v.y),
                    Edge::Bottom => bottom && hit.speed.units() == speed_up(v.y),
                    Edge::Left => left && !top && !bottom && hit.speed.units() == speed_down(v.x),
                    Edge::Right => right && !top && !bottom && hit.speed.units() == speed_up(v.x),
                },
                Struck::Walls(None) => !left && !right && !top && !bottom,
                Struck::Cramped => false,
            }
        }),
{
    lemma_negated(rebound.x);
    lemma_negated(rebound.y);
    lemma_above_zero(b.core.v.x);
    lemma_above_zero(b.core.v.y);
}

/// On a screen no larger than the blob, the blob sits in the middle, and is in.
pub proof fn law_a_cramped_blob_sits_in_the_middle(
    b: BlobView,
    walls: Walls,
    middle: Vec2,
    rebound: Vec2,
)
    requires
        walls.hi_x.at_most(walls.lo_x) || walls.hi_y.at_most(walls.lo_y),
    ensures
        ({
            let (after, struck) = b.colliding(walls, middle, rebound);
            &&& struck == Struck::Cramped
            &&& after.core.p == middle && after.core.v == b.core.v
            &&& !after.entering
            &&& after == (BlobView { core: after.core, entering: false, ..b })
        }),
{
}

/// A hole throws the core back. A core strictly inside it is put on the line of the side that
/// it is the least deep behind, going outward there at the rebound speed, with a blow as hard
/// as it was going inward over that side; its other components stay. A core that is not
/// inside is left alone, and no blow is reported.
pub proof fn law_a_hole_throws_the_core_back(
    b: BlobView,
    hole: Bounds,
    d: Depths,
    rebound: Vec2,
)
    requires
        !b.core.p.x.nan() && !b.core.p.y.nan() && !b.core.v.x.nan() && !b.core.v.y.nan(),
        !hole.x0.nan() && !hole.x1.nan() && !hole.y0.nan() && !hole.y1.nan(),
        !d.left.nan() && !d.right.nan() && !d.top.nan() && !d.bottom.nan(),
    ensures
        ({
            let (after, hit) = b.leaving_hole(hole, d, rebound);
            let (p, v) = (b.core.p, b.core.v);
            let (q, w) = (after.core.p, after.core.v);
            let inside = hole.x0.below(p.x) && p.x.below(hole.x1) && hole.y0.below(p.y)
                && p.y.below(hole.y1);
            &&& after == (BlobView { core: after.core, ..b })
            &&& !inside ==> after == b && hit is None
            &&& inside ==> hit is Some && match hit->0.from {
                Edge::Right => {
                    &&& d.left.at_most(d.right) && d.left.at_most(d.top) && d.left.at_most(d.bottom)
                    &&& q.x == hole.x0 && q.y == p.y && w.y == v.y
                    &&& w.x.units() == -rebound.x.units() && hit->0.speed.units() == speed_up(v.x)
                },
                Edge::Left => {
                    &&& d.right.below(d.left) && d.right.at_most(d.top) && d.right.at_most(d.bottom)
                    &&& q.x == hole.x1 && q.y == p.y && w.y == v.y
                    &&& w.x == rebound.x && hit->0.speed.units() == speed_down(v.x)
                },
                Edge::Bottom => {
                    &&& d.top.below(d.left) && d.top.below(d.right) && d.top.at_most(d.bottom)
                    &&& q.y == hole.y0 && q.x == p.x && w.x == v.x
                    &&& w.y.units() == -rebound.y.units() && hit->0.speed.units() == speed_up(v.y)
                },
                Edge::Top => {
                    &&& d.bottom.below(d.left) && d.bottom.below(d.right) && d.bottom.below(d.top)
                    &&& q.y == hole.y1 && q.x == p.x && w.x == v.x
                    &&& w.y == rebound.y && hit->0.speed.units() == speed_down(v.y)
                },
            }
        }),
{
    lemma_negated(rebound.x);
    lemma_negated(rebound.y);
    lemma_above_zero(b.core.v.x);
    lemma_above_zero(b.core.v.y);
}

/// A new blob stands still in the middle with its satellites around it; nobody holds it, it
/// is not on its way in, and it knows of no doors and no holes.
pub proof fn law_a_blob_begins_at_rest(bounds: Bounds, middle: Vec2, rest: Seq<Vec2>)
    ensures
        ({
            let b = BlobView::resting(bounds, middle, rest);
            &&& b.core.p == middle && b.core.v.x.bits == 0 && b.core.v.y.bits == 0
            &&& b.sats.len() == rest.len()
            &&& forall|i: int|
                0 <= i < rest.len() ==> (#[trigger] b.sats[i]).p == rest[i] && b.sats[i].v
                    == b.core.v
            &&& b.bounds == bounds && b.dead.len() == 0 && b.portals == 0
            &&& b.grab is None && b.grab_target == middle && !b.entering && b.still_for.bits == 0
        }),
{
}

/// Putting a blob back in the middle makes it as it was at the beginning, in the world it is
/// in now: its bounds, holes and doors stay.
pub proof fn law_a_reset_begins_anew(b: BlobView, middle: Vec2, rest: Seq<Vec2>)
    ensures
        ({
            let after = b.recentred(middle, rest);
            let new = BlobView::resting(b.bounds, middle, rest);
            &&& after.core == new.core && after.sats == new.sats
            &&& after.grab is None && after.grab_target == middle
            &&& !after.entering && after.still_for.bits == 0
            &&& after.bounds == b.bounds && after.dead == b.dead && after.portals == b.portals
        }),
{
}

/// How fast a velocity leads inward from an edge.
pub open spec fn inward_units(edge: Edge, v: Vec2) -> int {
    match edge {
        Edge::Left => v.x.units(),
        Edge::Right => -v.x.units(),
        Edge::Top => v.y.units(),
        Edge::Bottom => -v.y.units(),
    }
}

proof fn lemma_inward_part(edge: Edge, v: Vec2)
    requires
        v.finite(),
    ensures
        inward_part(edge, v).units() == inward_units(edge, v),
        !inward_part(edge, v).nan(),
{
    lemma_negated(v.x);
    lemma_negated(v.y);
}

/// What leads out is turned round, what is too slow is hurried, and what is neither is left
/// alone; at the entry speed, 150 pixels a second, a velocity is fast enough.
pub proof fn law_the_way_in(edge: Edge, v: Vec2, turn: Turn)
    requires
        v.finite(),
        turn.turned.finite(),
    ensures
        ({
            let enough = (Single { bits: 0x4316_0000 }).units();
            let r = turn.homeward(edge, v);
            &&& inward_units(edge, v) >= enough ==> r == v
            &&& 0 <= inward_units(edge, v) < enough ==> r == turn.hurried
            &&& inward_units(edge, v) < 0 ==> r == (if inward_units(edge, turn.turned) >= enough {
                turn.turned
            } else {
                turn.turned_hurried
            })
        }),
{
    lemma_inward_part(edge, v);
    lemma_inward_part(edge, turn.turned);
    lemma_entry_speed();
}

proof fn lemma_entry_speed()
    ensures
        (Single { bits: 0 }).units() == 0,
        (Single { bits: MIN_ENTRY_SPEED }).units() > 0,
        MIN_ENTRY_SPEED == 0x4316_0000,
{
    (Single { bits: 0 }).lemma_rank(Single { bits: MIN_ENTRY_SPEED });
}

/// A thrown blob arrives where it was put, with the velocity that leads in over the edge, and
/// on its way in; it is free, and it has the doors and holes of nobody yet. A velocity that
/// is not finite counts as standing still.
pub proof fn law_an_arrival_is_on_its_way_in(
    bounds: Bounds,
    middle: Vec2,
    at: Vec2,
    edge: Edge,
    vel: Vec2,
    turn: Turn,
    rest: Seq<Vec2>,
    thrown: Seq<Thrown>,
)
    ensures
        ({
            let b = BlobView::arrival(bounds, middle, at, edge, vel, turn, rest, thrown);
            let still = Vec2 { x: Single { bits: 0 }, y: Single { bits: 0 } };
            &&& b.core.p == at
            &&& b.core.v == turn.homeward(
                edge,
                if vel.x.finite() && vel.y.finite() {
                    vel
                } else {
                    still
                },
            )
            &&& b.entering && b.grab is None && b.grab_target == middle
            &&& b.bounds == bounds && b.dead.len() == 0 && b.portals == 0
            &&& b.still_for.bits == 0
            &&& b.sats == arrived_sats(b.core, rest, thrown)
        }),
{
}

/// A satellite that was thrown with nonsense, or too far out, is at rest instead.
pub proof fn law_a_senseless_satellite_rests(
    core: Particle,
    rest: Seq<Vec2>,
    thrown: Seq<Thrown>,
    i: int,
)
    requires
        thrown.len() == SAT_COUNT && rest.len() == SAT_COUNT,
        0 <= i < SAT_COUNT,
        !(thrown[i].off.x.finite() && thrown[i].off.y.finite() && thrown[i].rel.x.finite()
            && thrown[i].rel.y.finite()) || (Single { bits: MAX_SAT_DIST }).below(thrown[i].dist)
            || thrown[i].dist.nan(),
    ensures
        arrived_sats(core, rest, thrown)[i] == (Particle { p: rest[i], v: core.v }),
{
}

/// From the grab on the blob is held where it was taken, and follows the pointer; letting go
/// leaves it where it is, with the velocity it is thrown with. A blob that nobody holds does
/// not care about the pointer.
pub proof fn law_a_blob_is_held_dragged_and_thrown(
    b: BlobView,
    at: Vec2,
    offset: Vec2,
    there: Vec2,
    throw: Vec2,
)
    ensures
        ({
            let held = b.grabbed(at, offset);
            let dragged = held.dragged(there);
            let free = dragged.released(throw);
            &&& held.grab == Some(offset) && held.grab_target == at && held.still_for.bits == 0
            &&& dragged.grab == Some(offset) && dragged.grab_target == there
            &&& dragged.still_for.bits == 0
            &&& held.core == b.core && dragged.core == b.core && free.core.p == b.core.p
            &&& free.grab is None && free.core.v == throw && free.still_for.bits == 0
            &&& free == (BlobView {
                core: free.core,
                grab: None,
                grab_target: there,
                still_for: free.still_for,
                ..b
            })
            &&& b.grab is None ==> b.dragged(there) == b
        }),
{
}

/// A blob slower than the rest speed, 6 pixels a second, stops dead; a faster one goes on as
/// it does. It is not moved by that, and nothing else changes.
pub proof fn law_a_slow_blob_stops(b: BlobView, v: Vec2, speed: Single)
    ensures
        ({
            let after = b.coasting(v, speed);
            &&& speed.below(Single { bits: 0x40c0_0000 }) ==> after.core.v.x.bits == 0
                && after.core.v.y.bits == 0
            &&& !speed.below(Single { bits: 0x40c0_0000 }) ==> after.core.v == v
            &&& after.core.p == b.core.p
            &&& after == (BlobView { core: after.core, ..b })
        }),
{
}

/// A blob on its way in is in once its core is within all four lines, and no sooner; that is
/// all that changes.
pub proof fn law_an_entry_is_over_once_inside(b: BlobView, walls: Walls)
    ensures
        ({
            let p = b.core.p;
            let inside = walls.lo_x.at_most(p.x) && p.x.at_most(walls.hi_x) && walls.lo_y.at_most(
                p.y,
            ) && p.y.at_most(walls.hi_y);
            &&& b.arriving_on(walls).entering == (b.entering && !inside)
            &&& b.arriving_on(walls) == (BlobView {
                entering: b.arriving_on(walls).entering,
                ..b
            })
        }),
{
}

/// A satellite that has strayed more than 70 pixels is reined in and goes along with the
/// core; one that has not is left alone, and so are all the others.
pub proof fn law_a_stray_is_reined_in(b: BlobView, i: int, dist: Single, reined: Vec2, k: int)
    requires
        0 <= i < b.sats.len(),
        0 <= k < b.sats.len(),
    ensures
        ({
            let after = b.tethered(i, dist, reined);
            let strayed = (Single { bits: 0x428c_0000 }).below(dist);
            &&& after.sats.len() == b.sats.len()
            &&& k == i && strayed ==> after.sats[k].p == reined && after.sats[k].v == b.core.v
            &&& k != i || !strayed ==> after.sats[k] == b.sats[k]
            &&& after == (BlobView { sats: after.sats, ..b })
        }),
{
}

/// Stillness is counted while nobody holds the blob, its core stands and its satellites are
/// calm; anything else starts the count anew. After a quarter of a second of it, and only
/// then, a free blob is at rest.
pub proof fn law_stillness_is_counted(
    b: BlobView,
    speed_sq: Single,
    max_rel: Single,
    longer: Single,
)
    ensures
        ({
            let after = b.counted(speed_sq, max_rel, longer);
            let still = b.grab is None && speed_sq.equals(Single { bits: 0 }) && max_rel.below(
                Single { bits: 0x40c0_0000 },
            );
            &&& still ==> after.still_for == longer
            &&& !still ==> after.still_for.bits == 0
            &&& after == (BlobView { still_for: after.still_for, ..b })
            &&& b.idle() <==> b.grab is None && (Single { bits: 0x3e80_0000 }).below(b.still_for)
        }),
{
}

/// A blob is off the screen exactly if its box lies wholly to one side of it.
pub proof fn law_off_screen_is_wholly_outside(b: BlobView, bb: Bounds)
    ensures
        b.misses_screen(bb) <==> (bb.x1.below(b.bounds.x0) || b.bounds.x1.below(bb.x0)
            || bb.y1.below(b.bounds.y0) || b.bounds.y1.below(bb.y0)),
{
}

/// A blob is finite exactly if all its places and velocities are.
pub proof fn law_a_finite_blob_is_finite_throughout(b: BlobView)
    ensures
        b.finite() <==> b.core.p.x.finite() && b.core.p.y.finite() && b.core.v.x.finite()
            && b.core.v.y.finite() && forall|i: int|
            0 <= i < b.sats.len() ==> (#[trigger] b.sats[i]).p.x.finite() && b.sats[i].p.y.finite()
                && b.sats[i].v.x.finite() && b.sats[i].v.y.finite(),
{
}

/// A bounce off an edge gives the blob the velocity that leads in over that edge, and marks it
/// as on its way in; it is not still any more.
pub proof fn law_a_bounce_leads_back_in(b: BlobView, edge: Edge, turn: Turn)
    ensures
        turned_back(b, edge, turn).core.v == turn.homeward(edge, b.core.v),
        turned_back(b, edge, turn).entering,
        turned_back(b, edge, turn).still_for.bits == 0,
        turned_back(b, edge, turn) == (BlobView {
            core: turned_back(b, edge, turn).core,
            entering: true,
            still_for: Single { bits: 0 },
            ..b
        }),
{
}

/// Satellites that snap back stand each in its rest place around the core and go where it
/// goes; the core, and everything else about the blob, is left alone.
pub proof fn law_satellites_snap_back(b: BlobView, rest: Seq<Vec2>, k: int)
    requires
        0 <= k < rest.len(),
    ensures
        ({
            let s = b.snapped(rest);
            &&& s.sats.len() == rest.len()
            &&& s.sats[k].p == rest[k] && s.sats[k].v == b.core.v
            &&& s.core == b.core
            &&& s == (BlobView { sats: s.sats, ..b })
        }),
{
}

/// A blob crosses a side as far down the screen as it is, and the top or the bottom as far
/// across.
pub proof fn law_a_crossing_is_where_the_blob_is(edge: Edge, across: Fraction, down: Fraction)
    requires
        !across.part.nan() && !down.part.nan(),
        !across.extent.nan() && across.extent.units() > (Single { bits: 0x3a83_126f }).units(),
        !down.extent.nan() && down.extent.units() > (Single { bits: 0x3a83_126f }).units(),
        0 <= across.part.units() <= (Single { bits: 0x3f80_0000 }).units(),
        0 <= down.part.units() <= (Single { bits: 0x3f80_0000 }).units(),
    ensures
        edge == Edge::Left || edge == Edge::Right ==> place_along(edge, across, down) == down.part,
        edge == Edge::Top || edge == Edge::Bottom ==> place_along(edge, across, down)
            == across.part,
{
    crate::physics::law_a_place_along_an_edge(across);
    crate::physics::law_a_place_along_an_edge(down);
}

/// A blob is drawn as nine balls: the core, 36 pixels in radius and of full strength, and
/// eight satellites of 24 pixels and 0.85, each where it is.
pub proof fn law_a_blob_is_nine_balls(b: BlobView, k: int)
    requires
        0 <= k < 8,
    ensures
        ({
            let balls = b.as_balls();
            &&& balls.len() == 9
            &&& balls[0].p == b.core.p
            &&& balls[0].r.bits == 0x4210_0000 && balls[0].w.bits == 0x3f80_0000
            &&& balls[k + 1].p == b.sats[k].p
            &&& balls[k + 1].r.bits == 0x41c0_0000 && balls[k + 1].w.bits == 0x3f59_999a
        }),
{
}

} // verus!

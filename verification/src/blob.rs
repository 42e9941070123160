//! One blob, and the decisions about it that its simulation asks for.

use crate::physics::{
    believed, entry_velocity, origin, Ball, Bounds, Fraction, Particle, Turn, Vec2, CORE_RADIUS,
    CORE_STRENGTH, MAX_SAT_DIST, MIN_EXTENT, REST_SPEED, SAT_COUNT, SAT_RADIUS, SAT_STRENGTH,
    STILL_TIME,
};
use crate::single::{Single, HALF};
use crate::wire::Edge;
use vstd::prelude::*;

verus! {

#[derive(Clone, Debug)]
pub struct Blob {
    pub core: Particle,
    pub sats: [Particle; SAT_COUNT],
    pub bounds: Bounds,
    /// Rectangles inside `bounds` that no display covers, which the blob is kept out of.
    /// Displays of different heights leave holes under the short ones belonging to no
    /// screen at all, and a blob flung into one would simply disappear.
    pub dead: Vec<Bounds>,
    /// `Some(offset)` while held: the vector from core to the point that was grabbed, so
    /// the blob does not snap its centre to the cursor.
    pub grab: Option<Vec2>,
    pub grab_target: Vec2,
    /// Seconds since the blob last moved meaningfully; drives the idle throttle.
    pub still_for: Single,
    /// Bitmask of `Edge`s that lead to another machine. Those stop being walls: the blob
    /// passes straight through and the frame loop turns that into a throw.
    pub portals: u8,
    /// True while the blob is outside its own bounds on its way in: freshly arrived from
    /// a peer, or bounced back after a throw that did not connect. It must not be
    /// mistaken for something leaving.
    pub entering: bool,
}

/// What a [`Blob`] is.
pub struct BlobView {
    pub core: Particle,
    pub sats: Seq<Particle>,
    pub bounds: Bounds,
    pub dead: Seq<Bounds>,
    pub grab: Option<Vec2>,
    pub grab_target: Vec2,
    pub still_for: Single,
    pub portals: u8,
    pub entering: bool,
}

impl View for Blob {
    type V = BlobView;

    open spec fn view(&self) -> BlobView {
        BlobView {
            core: self.core,
            sats: self.sats@,
            bounds: self.bounds,
            dead: self.dead@,
            grab: self.grab,
            grab_target: self.grab_target,
            still_for: self.still_for,
            portals: self.portals,
            entering: self.entering,
        }
    }
}

/// The lines at which the core bounces: the bounds, drawn in by the blob's radius.
#[derive(Copy, Clone, Debug, PartialEq, Eq, Structural)]
pub struct Walls {
    pub lo_x: Single,
    pub hi_x: Single,
    pub lo_y: Single,
    pub hi_y: Single,
}

/// How far the core is inside a hole, measured from each of its sides.
#[derive(Copy, Clone, Debug, PartialEq, Eq, Structural)]
pub struct Depths {
    pub left: Single,
    pub right: Single,
    pub top: Single,
    pub bottom: Single,
}

/// A blow: the edge whose inward normal it came along, and how fast the core was going
/// against it.
#[derive(Copy, Clone, Debug, PartialEq, Eq, Structural)]
pub struct Impact {
    pub from: Edge,
    pub speed: Single,
}

/// What the walls did to a blob.
#[derive(Copy, Clone, Debug, PartialEq, Eq, Structural)]
pub enum Struck {
    /// The screen is no larger than the blob, which now sits in its middle.
    Cramped,
    Walls(Option<Impact>),
}

/// How one satellite of an arriving blob was thrown: its offset from the core and its
/// velocity relative to the core, in this screen's pixels, how far out that is, and where
/// that puts it.
#[derive(Copy, Clone, Debug, PartialEq, Eq, Structural)]
pub struct Thrown {
    pub off: Vec2,
    pub rel: Vec2,
    pub dist: Single,
    pub at: Particle,
}

/// Whether the door in an edge is open.
pub open spec fn open_at(portals: u8, edge: Edge) -> bool {
    portals & edge.weight() != 0
}

/// The part of a speed that is above zero.
pub open spec fn above_zero(x: Single) -> Single {
    x.larger(Single { bits: 0 })
}

/// Satellites at these places, going along with the core.
pub open spec fn at_rest(core: Particle, rest: Seq<Vec2>) -> Seq<Particle> {
    rest.map_values(|p: Vec2| Particle { p, v: core.v })
}

impl Walls {
    /// There is no room between the lines.
    pub open spec fn cramped(self) -> bool {
        self.hi_x.at_most(self.lo_x) || self.hi_y.at_most(self.lo_y)
    }

    /// Whether a point is within all four lines.
    pub open spec fn hold(self, p: Vec2) -> bool {
        &&& self.lo_x.at_most(p.x) && p.x.at_most(self.hi_x)
        &&& self.lo_y.at_most(p.y) && p.y.at_most(self.hi_y)
    }

    /// Whether a point is past the line of an edge.
    pub open spec fn passed(self, edge: Edge, p: Vec2) -> bool {
        match edge {
            Edge::Left => p.x.below(self.lo_x),
            Edge::Right => self.hi_x.below(p.x),
            Edge::Top => p.y.below(self.lo_y),
            Edge::Bottom => self.hi_y.below(p.y),
        }
    }
}

/// Whether a velocity leads out through an edge.
pub open spec fn outward(edge: Edge, v: Vec2) -> bool {
    let zero = Single { bits: 0 };
    match edge {
        Edge::Left => v.x.below(zero),
        Edge::Right => zero.below(v.x),
        Edge::Top => v.y.below(zero),
        Edge::Bottom => zero.below(v.y),
    }
}

impl BlobView {
    /// Whether the blob has just left through the door in this edge.
    pub open spec fn leaves_by(self, edge: Edge, walls: Walls) -> bool {
        &&& !self.entering
        &&& self.grab is None
        &&& walls.passed(edge, self.core.p)
        &&& outward(edge, self.core.v)
        &&& open_at(self.portals, edge)
    }

    /// The door the blob has just left through; at a corner, the sides come before top
    /// and bottom.
    pub open spec fn departure(self, walls: Walls) -> Option<Edge> {
        if self.leaves_by(Edge::Left, walls) {
            Some(Edge::Left)
        } else if self.leaves_by(Edge::Right, walls) {
            Some(Edge::Right)
        } else if self.leaves_by(Edge::Top, walls) {
            Some(Edge::Top)
        } else if self.leaves_by(Edge::Bottom, walls) {
            Some(Edge::Bottom)
        } else {
            None
        }
    }

    /// Nothing of the box `bb` is on the screen.
    pub open spec fn misses_screen(self, bb: Bounds) -> bool {
        let b = self.bounds;
        bb.x1.below(b.x0) || b.x1.below(bb.x0) || bb.y1.below(b.y0) || b.y1.below(bb.y0)
    }

    /// Motionless for long enough.
    pub open spec fn idle(self) -> bool {
        self.grab is None && (Single { bits: STILL_TIME }).below(self.still_for)
    }

    pub open spec fn finite(self) -> bool {
        &&& self.core.p.finite() && self.core.v.finite()
        &&& forall|i: int|
            0 <= i < self.sats.len() ==> (#[trigger] self.sats[i]).p.finite()
                && self.sats[i].v.finite()
    }
}

/// The core and the blow after the left and right walls have had their say. `rebound` is
/// how fast each component comes off a wall.
pub open spec fn off_the_sides(core: Particle, walls: Walls, portals: u8, rebound: Vec2) -> (
    Particle,
    Option<Impact>,
) {
    if core.p.x.below(walls.lo_x) && !open_at(portals, Edge::Left) {
        (
            Particle {
                p: Vec2 { x: walls.lo_x, y: core.p.y },
                v: Vec2 { x: rebound.x, y: core.v.y },
            },
            Some(Impact { from: Edge::Left, speed: above_zero(core.v.x.negated()) }),
        )
    } else if walls.hi_x.below(core.p.x) && !open_at(portals, Edge::Right) {
        (
            Particle {
                p: Vec2 { x: walls.hi_x, y: core.p.y },
                v: Vec2 { x: rebound.x.negated(), y: core.v.y },
            },
            Some(Impact { from: Edge::Right, speed: above_zero(core.v.x) }),
        )
    } else {
        (core, None)
    }
}

/// The core and the blow after the top and bottom walls have had their say.
pub open spec fn off_the_ends(core: Particle, walls: Walls, portals: u8, rebound: Vec2) -> (
    Particle,
    Option<Impact>,
) {
    if core.p.y.below(walls.lo_y) && !open_at(portals, Edge::Top) {
        (
            Particle {
                p: Vec2 { x: core.p.x, y: walls.lo_y },
                v: Vec2 { x: core.v.x, y: rebound.y },
            },
            Some(Impact { from: Edge::Top, speed: above_zero(core.v.y.negated()) }),
        )
    } else if walls.hi_y.below(core.p.y) && !open_at(portals, Edge::Bottom) {
        (
            Particle {
                p: Vec2 { x: core.p.x, y: walls.hi_y },
                v: Vec2 { x: core.v.x, y: rebound.y.negated() },
            },
            Some(Impact { from: Edge::Bottom, speed: above_zero(core.v.y) }),
        )
    } else {
        (core, None)
    }
}

/// The core and the blow after all four walls. At a corner the later blow counts.
pub open spec fn off_the_walls(core: Particle, walls: Walls, portals: u8, rebound: Vec2) -> (
    Particle,
    Option<Impact>,
) {
    let (sided, side_hit) = off_the_sides(core, walls, portals, rebound);
    let (done, end_hit) = off_the_ends(sided, walls, portals, rebound);
    (
        done,
        if end_hit is Some {
            end_hit
        } else {
            side_hit
        },
    )
}

/// Whether a point is strictly inside a hole. A point that cannot be compared with the
/// sides counts as inside.
pub open spec fn in_hole(p: Vec2, hole: Bounds) -> bool {
    !(p.x.at_most(hole.x0) || hole.x1.at_most(p.x) || p.y.at_most(hole.y0) || hole.y1.at_most(p.y))
}

/// The side of a hole that is nearest.
pub open spec fn nearest(d: Depths) -> Edge {
    let m = d.left.smaller(d.right).smaller(d.top).smaller(d.bottom);
    if m.equals(d.left) {
        Edge::Left
    } else if m.equals(d.right) {
        Edge::Right
    } else if m.equals(d.top) {
        Edge::Top
    } else {
        Edge::Bottom
    }
}

/// The core and the blow after it has been put out of a hole by one of its sides.
pub open spec fn out_of_hole(core: Particle, hole: Bounds, side: Edge, rebound: Vec2) -> (
    Particle,
    Impact,
) {
    match side {
        Edge::Left => (
            Particle {
                p: Vec2 { x: hole.x0, y: core.p.y },
                v: Vec2 { x: rebound.x.negated(), y: core.v.y },
            },
            Impact { from: Edge::Right, speed: above_zero(core.v.x) },
        ),
        Edge::Right => (
            Particle {
                p: Vec2 { x: hole.x1, y: core.p.y },
                v: Vec2 { x: rebound.x, y: core.v.y },
            },
            Impact { from: Edge::Left, speed: above_zero(core.v.x.negated()) },
        ),
        Edge::Top => (
            Particle {
                p: Vec2 { x: core.p.x, y: hole.y0 },
                v: Vec2 { x: core.v.x, y: rebound.y.negated() },
            },
            Impact { from: Edge::Bottom, speed: above_zero(core.v.y) },
        ),
        Edge::Bottom => (
            Particle {
                p: Vec2 { x: core.p.x, y: hole.y1 },
                v: Vec2 { x: core.v.x, y: rebound.y },
            },
            Impact { from: Edge::Top, speed: above_zero(core.v.y.negated()) },
        ),
    }
}

/// What a hole does to the core: one that is in it is put out by the nearest side, and one
/// that is not is left alone.
pub open spec fn kept_out(core: Particle, hole: Bounds, depths: Depths, rebound: Vec2) -> (
    Particle,
    Option<Impact>,
) {
    if in_hole(core.p, hole) {
        let (done, hit) = out_of_hole(core, hole, nearest(depths), rebound);
        (done, Some(hit))
    } else {
        (core, None)
    }
}

/// The satellites of an arriving blob: as they were thrown, where that makes sense, if
/// there are as many as there should be; at rest if not.
pub open spec fn arrived_sats(core: Particle, rest: Seq<Vec2>, thrown: Seq<Thrown>) -> Seq<
    Particle,
> {
    if thrown.len() == SAT_COUNT {
        Seq::new(
            SAT_COUNT as nat,
            |i: int| thrown_or_resting(thrown[i], at_rest(core, rest)[i]),
        )
    } else {
        at_rest(core, rest)
    }
}

/// A blob that left by `edge`, on its way back in.
pub open spec fn turned_back(b: BlobView, edge: Edge, turn: Turn) -> BlobView {
    BlobView {
        core: Particle { p: b.core.p, v: turn.homeward(edge, b.core.v) },
        entering: true,
        still_for: Single { bits: 0 },
        ..b
    }
}

/// A satellite as it was thrown, if that makes sense; as it rests, if not.
pub open spec fn thrown_or_resting(t: Thrown, resting: Particle) -> Particle {
    if t.off.finite() && t.rel.finite() && t.dist.at_most(Single { bits: MAX_SAT_DIST }) {
        t.at
    } else {
        resting
    }
}

impl BlobView {
    /// A blob at rest in `middle`, its satellites at their rest places.
    pub open spec fn resting(bounds: Bounds, middle: Vec2, rest: Seq<Vec2>) -> BlobView {
        BlobView {
            core: Particle { p: middle, v: origin() },
            sats: at_rest(Particle { p: middle, v: origin() }, rest),
            bounds,
            dead: Seq::empty(),
            grab: None,
            grab_target: middle,
            still_for: Single { bits: 0 },
            portals: 0,
            entering: false,
        }
    }

    /// A blob on its way in over `edge`.
    pub open spec fn arrival(
        bounds: Bounds,
        middle: Vec2,
        at: Vec2,
        edge: Edge,
        vel: Vec2,
        turn: Turn,
        rest: Seq<Vec2>,
        thrown: Seq<Thrown>,
    ) -> BlobView {
        let core = Particle { p: at, v: turn.homeward(edge, believed(vel)) };
        BlobView {
            core,
            sats: arrived_sats(core, rest, thrown),
            entering: true,
            ..BlobView::resting(bounds, middle, rest)
        }
    }

    /// The blob with its satellites at rest around it.
    pub open spec fn snapped(self, rest: Seq<Vec2>) -> BlobView {
        BlobView { sats: at_rest(self.core, rest), ..self }
    }

    /// The blob put back in the middle and stopped dead.
    pub open spec fn recentred(self, middle: Vec2, rest: Seq<Vec2>) -> BlobView {
        BlobView {
            dead: self.dead,
            portals: self.portals,
            ..BlobView::resting(self.bounds, middle, rest)
        }
    }

    /// The blob after it has been taken hold of.
    pub open spec fn grabbed(self, at: Vec2, offset: Vec2) -> BlobView {
        BlobView {
            grab: Some(offset),
            grab_target: at,
            still_for: Single { bits: 0 },
            ..self
        }
    }

    /// The blob after the pointer has moved.
    pub open spec fn dragged(self, at: Vec2) -> BlobView {
        if self.grab is Some {
            BlobView { grab_target: at, still_for: Single { bits: 0 }, ..self }
        } else {
            self
        }
    }

    /// The blob after it has been let go.
    pub open spec fn released(self, throw: Vec2) -> BlobView {
        BlobView {
            grab: None,
            core: Particle { v: throw, ..self.core },
            still_for: Single { bits: 0 },
            ..self
        }
    }

    /// The blob after drag and friction.
    pub open spec fn coasting(self, v: Vec2, speed: Single) -> BlobView {
        let v = if speed.below(Single { bits: REST_SPEED }) {
            origin()
        } else {
            v
        };
        BlobView { core: Particle { v, ..self.core }, ..self }
    }

    /// The blob after it has been asked whether it is in.
    pub open spec fn arriving_on(self, walls: Walls) -> BlobView {
        if self.entering && walls.hold(self.core.p) {
            BlobView { entering: false, ..self }
        } else {
            self
        }
    }

    /// The blob after the walls have acted on it, and what they did.
    pub open spec fn colliding(self, walls: Walls, middle: Vec2, rebound: Vec2) -> (
        BlobView,
        Struck,
    ) {
        if walls.cramped() {
            (
                BlobView {
                    core: Particle { p: middle, ..self.core },
                    entering: false,
                    ..self
                },
                Struck::Cramped,
            )
        } else {
            let (core, hit) = off_the_walls(self.core, walls, self.portals, rebound);
            (BlobView { core, ..self }, Struck::Walls(hit))
        }
    }

    /// The blob after a hole has acted on it, and the blow.
    pub open spec fn leaving_hole(self, hole: Bounds, depths: Depths, rebound: Vec2) -> (
        BlobView,
        Option<Impact>,
    ) {
        let (core, hit) = kept_out(self.core, hole, depths, rebound);
        (BlobView { core, ..self }, hit)
    }

    /// The blob with satellite `i` on its tether.
    pub open spec fn tethered(self, i: int, dist: Single, reined: Vec2) -> BlobView {
        if (Single { bits: MAX_SAT_DIST }).below(dist) {
            BlobView {
                sats: self.sats.update(i, Particle { p: reined, v: self.core.v }),
                ..self
            }
        } else {
            self
        }
    }

    /// The blob with its stillness counted.
    pub open spec fn counted(self, speed_sq: Single, max_rel: Single, longer: Single) -> BlobView {
        let still = self.grab is None && speed_sq.equals(Single { bits: 0 }) && max_rel.below(
            Single { bits: REST_SPEED },
        );
        BlobView {
            still_for: if still {
                longer
            } else {
                Single { bits: 0 }
            },
            ..self
        }
    }
}

/// Where along an edge a place is, that lies so far across and so far down the screen.
pub open spec fn place_along(edge: Edge, across: Fraction, down: Fraction) -> Single {
    match edge {
        Edge::Left | Edge::Right => down.of_unit(),
        Edge::Top | Edge::Bottom => across.of_unit(),
    }
}

impl BlobView {
    /// The blob as metaballs: the core first, then the satellites.
    pub open spec fn as_balls(self) -> Seq<Ball> {
        seq![
            Ball {
                p: self.core.p,
                r: Single { bits: CORE_RADIUS },
                w: Single { bits: CORE_STRENGTH },
            },
        ] + Seq::new(
            SAT_COUNT as nat,
            |i: int|
                Ball {
                    p: self.sats[i].p,
                    r: Single { bits: SAT_RADIUS },
                    w: Single { bits: SAT_STRENGTH },
                },
        )
    }
}

impl Impact {
    /// Hard enough to ripple through the body.
    pub fn ripples(self) -> (r: bool)
        ensures
            r == (Single { bits: REST_SPEED }).below(self.speed),
            r == (!self.speed.nan() && self.speed.units() > (Single { bits: 0x40c0_0000 }).units()),
    {
        (Single { bits: REST_SPEED }).lt(self.speed)
    }
}

impl Blob {
    /// A blob at rest in `middle`, its satellites at their rest places.
    pub fn new(bounds: Bounds, middle: Vec2, rest: &[Vec2; SAT_COUNT]) -> (b: Blob)
        ensures
            b@ == (BlobView {
                core: Particle { p: middle, v: origin() },
                sats: at_rest(Particle { p: middle, v: origin() }, rest@),
                bounds,
                dead: Seq::empty(),
                grab: None,
                grab_target: middle,
                still_for: Single { bits: 0 },
                portals: 0,
                entering: false,
            }),
            b@ == BlobView::resting(bounds, middle, rest@),
    {
        let core = Particle { p: middle, v: Vec2::zero() };
        let mut b = Blob {
            core,
            sats: [core; SAT_COUNT],
            bounds,
            dead: Vec::new(),
            grab: None,
            grab_target: middle,
            still_for: Single { bits: 0 },
            portals: 0,
            entering: false,
        };
        b.snap_satellites(rest);
        assert(b@.dead =~= Seq::empty());
        b
    }

    /// Put every satellite exactly at its rest place with zero relative velocity.
    pub fn snap_satellites(&mut self, rest: &[Vec2; SAT_COUNT])
        ensures
            final(self)@ == (BlobView { sats: at_rest(old(self)@.core, rest@), ..old(self)@ }),
            final(self)@ == old(self)@.snapped(rest@),
    {
        let mut i: usize = 0;
        while i < SAT_COUNT
            invariant
                i <= SAT_COUNT,
                self@ == (BlobView { sats: self@.sats, ..old(self)@ }),
                self@.sats.len() == SAT_COUNT,
                forall|k: int|
                    0 <= k < i ==> self@.sats[k] == (Particle { p: rest@[k], v: self.core.v }),
            decreases SAT_COUNT - i,
        {
            self.sats[i] = Particle { p: rest[i], v: self.core.v };
            i = i + 1;
        }
        assert(self@.sats =~= at_rest(old(self)@.core, rest@));
    }

    /// A blob arriving from another machine: its core at `at`, just outside an edge, thrown
    /// with velocity `vel` and moving inward, carrying the deformation it was thrown with.
    /// `rest` and `thrown` are about the core with the velocity that it comes in with, for
    /// which see [`entry_velocity`]. A peer that models its blob
    /// differently sends a different count of satellites; then the blob simply arrives
    /// round, which is a worse throw but still a throw.
    pub fn arriving(
        bounds: Bounds,
        middle: Vec2,
        at: Vec2,
        edge: Edge,
        vel: Vec2,
        turn: &Turn,
        rest: &[Vec2; SAT_COUNT],
        thrown: &Vec<Thrown>,
    ) -> (b: Blob)
        ensures
            ({
                let core = Particle { p: at, v: turn.homeward(edge, believed(vel)) };
                b@ == (BlobView {
                    core,
                    sats: arrived_sats(core, rest@, thrown@),
                    bounds,
                    dead: Seq::empty(),
                    grab: None,
                    grab_target: middle,
                    still_for: Single { bits: 0 },
                    portals: 0,
                    entering: true,
                })
            }),
            b@ == BlobView::arrival(
                bounds,
                middle,
                at,
                edge,
                vel,
                *turn,
                rest@,
                thrown@,
            ),
    {
        let core = Particle { p: at, v: entry_velocity(edge, vel, turn) };
        let mut b = Blob::new(bounds, middle, rest);
        b.core = core;
        b.snap_satellites(rest);
        let ghost calm = b@;
        if thrown.len() == SAT_COUNT {
            let mut i: usize = 0;
            while i < SAT_COUNT
                invariant
                    i <= SAT_COUNT,
                    thrown@.len() == SAT_COUNT,
                    calm.sats == at_rest(core, rest@),
                    b@ == (BlobView { sats: b@.sats, ..calm }),
                    b@.sats.len() == SAT_COUNT,
                    forall|k: int|
                        0 <= k < i ==> b@.sats[k] == thrown_or_resting(thrown@[k], calm.sats[k]),
                    forall|k: int| i <= k < SAT_COUNT ==> b@.sats[k] == calm.sats[k],
                decreases SAT_COUNT - i,
            {
                let t = thrown[i];
                if t.off.is_finite() && t.rel.is_finite() && t.dist.le(
                    Single { bits: MAX_SAT_DIST },
                ) {
                    b.sats[i] = t.at;
                }
                i = i + 1;
            }
            assert(b@.sats =~= Seq::new(
                SAT_COUNT as nat,
                |i: int| thrown_or_resting(thrown@[i], at_rest(core, rest@)[i]),
            ));
        }
        b.entering = true;
        b
    }

    /// Recentre and stop dead. Used by the double-click reset.
    pub fn reset(&mut self, middle: Vec2, rest: &[Vec2; SAT_COUNT])
        ensures
            final(self)@ == (BlobView {
                core: Particle { p: middle, v: origin() },
                sats: at_rest(Particle { p: middle, v: origin() }, rest@),
                grab: None,
                grab_target: middle,
                still_for: Single { bits: 0 },
                entering: false,
                ..old(self)@
            }),
            final(self)@ == old(self)@.recentred(middle, rest@),
    {
        self.core = Particle { p: middle, v: Vec2::zero() };
        self.grab = None;
        self.grab_target = middle;
        self.still_for = Single { bits: 0 };
        self.entering = false;
        self.snap_satellites(rest);
    }

    pub fn set_bounds(&mut self, b: Bounds)
        ensures
            final(self)@ == (BlobView { bounds: b, ..old(self)@ }),
    {
        self.bounds = b;
    }

    /// The holes in the desktop, in the same window-relative pixels as `bounds`.
    pub fn set_dead_regions(&mut self, rects: &[Bounds])
        ensures
            final(self)@ == (BlobView { dead: rects@, ..old(self)@ }),
    {
        let mut dead: Vec<Bounds> = Vec::new();
        dead.extend_from_slice(rects);
        assert(dead@ =~= rects@);
        self.dead = dead;
    }

    /// Set which edges are doors rather than walls.
    pub fn set_portals(&mut self, mask: u8)
        ensures
            final(self)@ == (BlobView { portals: mask, ..old(self)@ }),
    {
        self.portals = mask;
    }

    /// Which edges are doors rather than walls.
    pub fn portals(&self) -> (r: u8)
        ensures
            r == self@.portals,
    {
        self.portals
    }

    fn portal_open(&self, e: Edge) -> (r: bool)
        ensures
            r == open_at(self@.portals, e),
    {
        self.portals & e.bit() != 0
    }

    /// True while the blob is outside the screen heading in.
    pub fn is_entering(&self) -> (r: bool)
        ensures
            r == self@.entering,
    {
        self.entering
    }

    /// The portal edge this blob has just left through, if any.
    ///
    /// The test is the same line an ordinary wall bounce happens at, so a portal is
    /// exactly a bounce that was allowed to continue.
    pub fn departing_edge(&self, walls: &Walls) -> (r: Option<Edge>)
        ensures
            r == self@.departure(*walls),
    {
        if self.entering || self.grab.is_some() {
            return None;
        }
        let zero = Single { bits: 0 };
        let p = self.core.p;
        let v = self.core.v;
        if p.x.lt(walls.lo_x) && v.x.lt(zero) && self.portal_open(Edge::Left) {
            Some(Edge::Left)
        } else if walls.hi_x.lt(p.x) && zero.lt(v.x) && self.portal_open(Edge::Right) {
            Some(Edge::Right)
        } else if p.y.lt(walls.lo_y) && v.y.lt(zero) && self.portal_open(Edge::Top) {
            Some(Edge::Top)
        } else if walls.hi_y.lt(p.y) && zero.lt(v.y) && self.portal_open(Edge::Bottom) {
            Some(Edge::Bottom)
        } else {
            None
        }
    }

    /// Where along `edge` the core is, as a fraction. This is what crosses the wire, so the
    /// blob turns up at the same height on a screen of a different size.
    pub fn along_edge(&self, edge: Edge, across: &Fraction, down: &Fraction) -> (r: Single)
        ensures
            r == (match edge {
                Edge::Left | Edge::Right => down.of_unit(),
                Edge::Top | Edge::Bottom => across.of_unit(),
            }),
            r == place_along(edge, *across, *down),
    {
        let f = match edge {
            Edge::Left | Edge::Right => *down,
            Edge::Top | Edge::Bottom => *across,
        };
        if (Single { bits: MIN_EXTENT }).lt(f.extent) {
            f.part.clamp_unit()
        } else {
            Single { bits: HALF }
        }
    }

    /// Turn a departure back into a bounce, because the throw did not connect. The blob is
    /// not snapped back to the wall, which would be a visible teleport: its velocity leads
    /// back in over the edge, and it coasts back on under its own power.
    pub fn bounce_back(&mut self, edge: Edge, turn: &Turn)
        ensures
            final(self)@ == turned_back(old(self)@, edge, *turn),
    {
        self.core.v = turn.send_home(edge, self.core.v);
        self.entering = true;
        self.still_for = Single { bits: 0 };
    }

    /// True once the blob, whose box is `bb`, is far enough outside that none of it is on
    /// screen.
    pub fn is_off_screen(&self, bb: &Bounds) -> (r: bool)
        ensures
            r == self@.misses_screen(*bb),
    {
        let b = self.bounds;
        bb.x1.lt(b.x0) || b.x1.lt(bb.x0) || bb.y1.lt(b.y0) || b.y1.lt(bb.y0)
    }

    pub fn is_grabbed(&self) -> (r: bool)
        ensures
            r == (self@.grab is Some),
    {
        self.grab.is_some()
    }

    /// Begin a drag. `at` is where the pointer went down, in screen pixels, and `offset`
    /// the way there from the core.
    pub fn grab(&mut self, at: Vec2, offset: Vec2)
        ensures
            final(self)@ == (BlobView {
                grab: Some(offset),
                grab_target: at,
                still_for: Single { bits: 0 },
                ..old(self)@
            }),
            final(self)@ == old(self)@.grabbed(at, offset),
    {
        self.grab = Some(offset);
        self.grab_target = at;
        self.still_for = Single { bits: 0 };
    }

    /// Move the drag target. Cheap; call it from every motion event.
    pub fn drag_to(&mut self, at: Vec2)
        ensures
            final(self)@ == (if old(self)@.grab is Some {
                BlobView { grab_target: at, still_for: Single { bits: 0 }, ..old(self)@ }
            } else {
                old(self)@
            }),
            final(self)@ == old(self)@.dragged(at),
    {
        if self.grab.is_some() {
            self.grab_target = at;
            self.still_for = Single { bits: 0 };
        }
    }

    /// End the drag, handing the blob the estimated throw velocity.
    pub fn release(&mut self, throw: Vec2)
        ensures
            final(self)@ == (BlobView {
                grab: None,
                core: Particle { p: old(self)@.core.p, v: throw },
                still_for: Single { bits: 0 },
                ..old(self)@
            }),
            final(self)@ == old(self)@.released(throw),
    {
        self.grab = None;
        self.core.v = throw;
        self.still_for = Single { bits: 0 };
    }

    /// Take on the velocity `v`, whose length is `speed`, after drag and friction. A blob
    /// slower than the rest speed stops dead.
    pub fn coast(&mut self, v: Vec2, speed: Single)
        ensures
            final(self)@ == (BlobView {
                core: Particle {
                    p: old(self)@.core.p,
                    v: if speed.below(Single { bits: REST_SPEED }) {
                        origin()
                    } else {
                        v
                    },
                },
                ..old(self)@
            }),
            final(self)@ == old(self)@.coasting(v, speed),
    {
        if speed.lt(Single { bits: REST_SPEED }) {
            self.core.v = Vec2::zero();
        } else {
            self.core.v = v;
        }
    }

    /// Once a blob that was on its way in is properly inside, it is an ordinary blob
    /// again, and only then may it be considered to be leaving. Using the bounce line
    /// rather than the screen edge means it has to be clear of the door before the door
    /// can be used again.
    pub fn finish_entering(&mut self, walls: &Walls)
        ensures
            final(self)@ == (BlobView {
                entering: old(self)@.entering && !walls.hold(old(self)@.core.p),
                ..old(self)@
            }),
            final(self)@ == old(self)@.arriving_on(*walls),
    {
        if self.entering {
            let p = self.core.p;
            if walls.lo_x.le(p.x) && p.x.le(walls.hi_x) && walls.lo_y.le(p.y) && p.y.le(
                walls.hi_y,
            ) {
                self.entering = false;
            }
        }
    }

    /// Let the walls act on the core. `middle` is the middle of the bounds, and `rebound`
    /// how fast each component of the velocity comes off a wall.
    ///
    /// An edge that leads to another machine is not a wall: the blob sails straight
    /// through the line it would have bounced off.
    pub fn collide_walls(&mut self, walls: &Walls, middle: Vec2, rebound: Vec2) -> (r: Struck)
        ensures
            (final(self)@, r) == (if walls.cramped() {
                (
                    BlobView {
                        core: Particle { p: middle, v: old(self)@.core.v },
                        entering: false,
                        ..old(self)@
                    },
                    Struck::Cramped,
                )
            } else {
                let (core, hit) = off_the_walls(
                    old(self)@.core,
                    *walls,
                    old(self)@.portals,
                    rebound,
                );
                (BlobView { core, ..old(self)@ }, Struck::Walls(hit))
            }),
            (final(self)@, r) == old(self)@.colliding(*walls, middle, rebound),
    {
        // Degenerate screens (narrower than the blob) would otherwise ping-pong.
        if walls.hi_x.le(walls.lo_x) || walls.hi_y.le(walls.lo_y) {
            self.core.p = middle;
            self.entering = false;
            return Struck::Cramped;
        }
        let zero = Single { bits: 0 };
        let mut hit: Option<Impact> = None;
        if self.core.p.x.lt(walls.lo_x) && !self.portal_open(Edge::Left) {
            hit = Some(Impact { from: Edge::Left, speed: self.core.v.x.neg().max(zero) });
            self.core.p.x = walls.lo_x;
            self.core.v.x = rebound.x;
        } else if walls.hi_x.lt(self.core.p.x) && !self.portal_open(Edge::Right) {
            hit = Some(Impact { from: Edge::Right, speed: self.core.v.x.max(zero) });
            self.core.p.x = walls.hi_x;
            self.core.v.x = rebound.x.neg();
        }
        if self.core.p.y.lt(walls.lo_y) && !self.portal_open(Edge::Top) {
            hit = Some(Impact { from: Edge::Top, speed: self.core.v.y.neg().max(zero) });
            self.core.p.y = walls.lo_y;
            self.core.v.y = rebound.y;
        } else if walls.hi_y.lt(self.core.p.y) && !self.portal_open(Edge::Bottom) {
            hit = Some(Impact { from: Edge::Bottom, speed: self.core.v.y.max(zero) });
            self.core.p.y = walls.hi_y;
            self.core.v.y = rebound.y.neg();
        }
        Struck::Walls(hit)
    }

    /// Whether the core is in a hole, which is given grown by the blob's radius, so the
    /// body stops at the edge of the missing screen rather than half-vanishing into it.
    fn is_in_hole(&self, hole: &Bounds) -> (r: bool)
        ensures
            r == in_hole(self@.core.p, *hole),
    {
        let p = self.core.p;
        !(p.x.le(hole.x0) || hole.x1.le(p.x) || p.y.le(hole.y0) || hole.y1.le(p.y))
    }

    /// Keep the core out of a hole: if it is in it, it is put out by the nearest side, as
    /// anything else teleports the blob across the hole when it enters near a corner.
    pub fn leave_hole(&mut self, hole: &Bounds, depths: &Depths, rebound: Vec2) -> (r: Option<
        Impact,
    >)
        ensures
            ({
                let (core, hit) = kept_out(old(self)@.core, *hole, *depths, rebound);
                final(self)@ == (BlobView { core, ..old(self)@ }) && r == hit
            }),
            (final(self)@, r) == old(self)@.leaving_hole(*hole, *depths, rebound),
    {
        if !self.is_in_hole(hole) {
            return None;
        }
        let zero = Single { bits: 0 };
        let m = depths.left.min(depths.right).min(depths.top).min(depths.bottom);
        if m.same(depths.left) {
            let hit = Impact { from: Edge::Right, speed: self.core.v.x.max(zero) };
            self.core.p.x = hole.x0;
            self.core.v.x = rebound.x.neg();
            Some(hit)
        } else if m.same(depths.right) {
            let hit = Impact { from: Edge::Left, speed: self.core.v.x.neg().max(zero) };
            self.core.p.x = hole.x1;
            self.core.v.x = rebound.x;
            Some(hit)
        } else if m.same(depths.top) {
            let hit = Impact { from: Edge::Bottom, speed: self.core.v.y.max(zero) };
            self.core.p.y = hole.y0;
            self.core.v.y = rebound.y.neg();
            Some(hit)
        } else {
            let hit = Impact { from: Edge::Top, speed: self.core.v.y.neg().max(zero) };
            self.core.p.y = hole.y1;
            self.core.v.y = rebound.y;
            Some(hit)
        }
    }

    /// Keep satellite `i`, which is `dist` away from the core, on its tether: one that has
    /// strayed too far is put at `reined` and goes along with the core.
    pub fn tether(&mut self, i: usize, dist: Single, reined: Vec2)
        requires
            i < SAT_COUNT,
        ensures
            final(self)@ == (if (Single { bits: MAX_SAT_DIST }).below(dist) {
                BlobView {
                    sats: old(self)@.sats.update(
                        i as int,
                        Particle { p: reined, v: old(self)@.core.v },
                    ),
                    ..old(self)@
                }
            } else {
                old(self)@
            }),
            final(self)@ == old(self)@.tethered(i as int, dist, reined),
    {
        if (Single { bits: MAX_SAT_DIST }).lt(dist) {
            self.sats[i] = Particle { p: reined, v: self.core.v };
            assert(self@.sats =~= old(self)@.sats.update(
                i as int,
                Particle { p: reined, v: old(self)@.core.v },
            ));
        }
    }

    /// Keep count of how long the blob has been still. `speed_sq` is the square of the
    /// core's speed, `max_rel` the greatest speed of a satellite relative to the core, and
    /// `longer` the count one substep on.
    pub fn track_idle(&mut self, speed_sq: Single, max_rel: Single, longer: Single)
        ensures
            final(self)@ == (BlobView {
                still_for: if old(self)@.grab is None && speed_sq.equals(Single { bits: 0 })
                    && max_rel.below(Single { bits: REST_SPEED }) {
                    longer
                } else {
                    Single { bits: 0 }
                },
                ..old(self)@
            }),
            final(self)@ == old(self)@.counted(speed_sq, max_rel, longer),
    {
        if self.grab.is_none() && speed_sq.same(Single { bits: 0 }) && max_rel.lt(
            Single { bits: REST_SPEED },
        ) {
            self.still_for = longer;
        } else {
            self.still_for = Single { bits: 0 };
        }
    }

    /// True once the blob has been motionless long enough to throttle the frame rate.
    pub fn is_at_rest(&self) -> (r: bool)
        ensures
            r == self@.idle(),
    {
        self.grab.is_none() && (Single { bits: STILL_TIME }).lt(self.still_for)
    }

    /// Metaballs for the renderer: core first, then satellites.
    pub fn balls(&self) -> (out: Vec<Ball>)
        ensures
            out@.len() == SAT_COUNT + 1,
            out@[0] == (Ball {
                p: self@.core.p,
                r: Single { bits: CORE_RADIUS },
                w: Single { bits: CORE_STRENGTH },
            }),
            forall|i: int|
                0 <= i < SAT_COUNT ==> #[trigger] out@[i + 1] == (Ball {
                    p: self@.sats[i].p,
                    r: Single { bits: SAT_RADIUS },
                    w: Single { bits: SAT_STRENGTH },
                }),
            out@ == self@.as_balls(),
    {
        let mut out: Vec<Ball> = Vec::new();
        out.push(
            Ball {
                p: self.core.p,
                r: Single { bits: CORE_RADIUS },
                w: Single { bits: CORE_STRENGTH },
            },
        );
        let mut i: usize = 0;
        while i < SAT_COUNT
            invariant
                i <= SAT_COUNT,
                out@.len() == i + 1,
                out@[0] == (Ball {
                    p: self@.core.p,
                    r: Single { bits: CORE_RADIUS },
                    w: Single { bits: CORE_STRENGTH },
                }),
                forall|k: int|
                    0 <= k < i ==> #[trigger] out@[k + 1] == (Ball {
                        p: self@.sats[k].p,
                        r: Single { bits: SAT_RADIUS },
                        w: Single { bits: SAT_STRENGTH },
                    }),
            decreases SAT_COUNT - i,
        {
            out.push(
                Ball {
                    p: self.sats[i].p,
                    r: Single { bits: SAT_RADIUS },
                    w: Single { bits: SAT_STRENGTH },
                },
            );
            i = i + 1;
        }
        proof {
            let all = self@.as_balls();
            assert forall|k: int| 0 <= k < out@.len() implies out@[k] == all[k] by {
                if k > 0 {
                    let j = k - 1;
                    assert(out@[j + 1] == all[j + 1]);
                }
            }
            assert(out@ =~= all);
        }
        out
    }

    /// Every number about the blob is one.
    pub fn all_finite(&self) -> (r: bool)
        ensures
            r == self@.finite(),
    {
        if !self.core.p.is_finite() || !self.core.v.is_finite() {
            return false;
        }
        let mut i: usize = 0;
        while i < SAT_COUNT
            invariant
                i <= SAT_COUNT,
                self@.sats.len() == SAT_COUNT,
                forall|k: int|
                    0 <= k < i ==> (#[trigger] self@.sats[k]).p.finite()
                        && self@.sats[k].v.finite(),
            decreases SAT_COUNT - i,
        {
            if !self.sats[i].p.is_finite() || !self.sats[i].v.is_finite() {
                assert(!(self@.sats[i as int].p.finite() && self@.sats[i as int].v.finite()));
                return false;
            }
            i = i + 1;
        }
        true
    }
}

} // verus!

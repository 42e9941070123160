//! What a blob is and what decides its fate: doors and walls, holes in the desktop,
//! being held, being on its way in.
//!
//! One heavy `core` particle plus [`SAT_COUNT`] satellites, each spring-attached to a rest
//! offset on a circle around the core. The arithmetic of the springs is done elsewhere;
//! its results come in here as numbers, and here is decided what follows from them.

use crate::single::{magnitude_units, Single, HALF, NO_NUMBER, ONE};
use crate::wire::Edge;
use std::collections::VecDeque;
use vstd::arithmetic::power2::{lemma2_to64, lemma_pow2_adds, pow2};
use vstd::prelude::*;

verus! {

/// Number of satellite particles around the core.
pub const SAT_COUNT: usize = 8;

/// Metaball radius of the core particle, 36 pixels.
pub const CORE_RADIUS: u32 = 0x4210_0000;

/// Metaball radius of each satellite, 24 pixels.
pub const SAT_RADIUS: u32 = 0x41c0_0000;

/// Field strength multiplier for the core, 1.0.
pub const CORE_STRENGTH: u32 = 0x3f80_0000;

/// Field strength multiplier for the satellites, 0.85.
pub const SAT_STRENGTH: u32 = 0x3f59_999a;

/// Below this speed, 6 pixels a second, a free blob is simply stopped, and considered at
/// rest.
pub const REST_SPEED: u32 = 0x40c0_0000;

/// Hard cap on how far a satellite may stray from the core, 70 pixels.
pub const MAX_SAT_DIST: u32 = 0x428c_0000;

/// How long a blob must have been still, 0.25 seconds, before the frame rate drops.
pub const STILL_TIME: u32 = 0x3e80_0000;

/// Slowest a blob may be travelling as it comes in over an edge, 150 pixels a second.
/// Anything slower strands it off the edge.
pub const MIN_ENTRY_SPEED: u32 = 0x4316_0000;

/// Cap on the estimated throw speed, 6000 pixels a second.
pub const MAX_THROW_SPEED: u32 = 0x45bb_8000;

/// A screen no larger than this, 0.001 pixels, has no places along its edges.
pub const MIN_EXTENT: u32 = 0x3a83_126f;

/// Window, in nanoseconds, over which release velocity is averaged. Using only the last
/// frame's delta gives noisy, feeble throws.
pub const THROW_WINDOW: u64 = 80_000_000;

/// Two samples closer together than this, in nanoseconds, give no velocity.
pub const MIN_TRACK_TIME: u64 = 100_000;

#[derive(Copy, Clone, Debug, PartialEq, Eq, Structural)]
pub struct Vec2 {
    pub x: Single,
    pub y: Single,
}

/// Axis-aligned rectangle in screen pixels, `x0..x1` / `y0..y1`.
#[derive(Copy, Clone, Debug, PartialEq, Eq, Structural)]
pub struct Bounds {
    pub x0: Single,
    pub y0: Single,
    pub x1: Single,
    pub y1: Single,
}

#[derive(Copy, Clone, Debug, PartialEq, Eq, Structural)]
pub struct Particle {
    pub p: Vec2,
    pub v: Vec2,
}

/// One metaball as handed to the shader: position, radius, field strength.
#[derive(Copy, Clone, Debug, PartialEq, Eq, Structural)]
pub struct Ball {
    pub p: Vec2,
    pub r: Single,
    pub w: Single,
}

/// No way at all.
pub open spec fn origin() -> Vec2 {
    Vec2 { x: Single { bits: 0 }, y: Single { bits: 0 } }
}

impl Vec2 {
    pub open spec fn finite(self) -> bool {
        self.x.finite() && self.y.finite()
    }

    pub fn zero() -> (r: Vec2)
        ensures
            r == origin(),
    {
        Vec2 { x: Single { bits: 0 }, y: Single { bits: 0 } }
    }

    pub fn is_finite(self) -> (r: bool)
        ensures
            r == self.finite(),
    {
        self.x.is_finite() && self.y.is_finite()
    }

    /// The vector a quarter turn on.
    pub fn perp(self) -> (r: Vec2)
        ensures
            r == (Vec2 { x: self.y.negated(), y: self.x }),
            r.x.units() == -self.y.units() && r.y.units() == self.x.units(),
    {
        Vec2 { x: self.y.neg(), y: self.x }
    }

    /// The vector that points the other way.
    pub fn neg(self) -> (r: Vec2)
        ensures
            r == (Vec2 { x: self.x.negated(), y: self.y.negated() }),
            r.x.units() == -self.x.units() && r.y.units() == -self.y.units(),
    {
        Vec2 { x: self.x.neg(), y: self.y.neg() }
    }
}

impl Bounds {
    /// A screen of this size with its corner at the origin.
    pub fn screen(w: Single, h: Single) -> (r: Bounds)
        ensures
            r == (Bounds { x0: Single { bits: 0 }, y0: Single { bits: 0 }, x1: w, y1: h }),
    {
        Bounds { x0: Single { bits: 0 }, y0: Single { bits: 0 }, x1: w, y1: h }
    }

    /// The two rectangles have a point in common, if only on their rims.
    pub open spec fn meets(self, other: Bounds) -> bool {
        &&& self.x0.at_most(other.x1) && other.x0.at_most(self.x1)
        &&& self.y0.at_most(other.y1) && other.y0.at_most(self.y1)
    }
}

/// The unit vector that points inward from an edge.
pub open spec fn inward(edge: Edge) -> Vec2 {
    let zero = Single { bits: 0 };
    let one = Single { bits: ONE };
    let minus = Single { bits: (ONE + 0x8000_0000) as u32 };
    match edge {
        Edge::Left => Vec2 { x: one, y: zero },
        Edge::Right => Vec2 { x: minus, y: zero },
        Edge::Top => Vec2 { x: zero, y: one },
        Edge::Bottom => Vec2 { x: zero, y: minus },
    }
}

/// The unit vector that points inward from an edge.
pub fn inward_normal(edge: Edge) -> (n: Vec2)
    ensures
        n == inward(edge),
{
    let zero = Single { bits: 0 };
    let one = Single { bits: ONE };
    let minus = Single { bits: ONE + 0x8000_0000 };
    match edge {
        Edge::Left => Vec2 { x: one, y: zero },
        Edge::Right => Vec2 { x: minus, y: zero },
        Edge::Top => Vec2 { x: zero, y: one },
        Edge::Bottom => Vec2 { x: zero, y: minus },
    }
}

/// How fast a velocity leads inward from an edge: its component along the inward normal,
/// or no number if the component along the edge is not finite.
pub open spec fn inward_part(edge: Edge, v: Vec2) -> Single {
    let (part, rest) = match edge {
        Edge::Left => (v.x, v.y),
        Edge::Right => (v.x.negated(), v.y),
        Edge::Top => (v.y, v.x),
        Edge::Bottom => (v.y.negated(), v.x),
    };
    if rest.finite() {
        part
    } else {
        Single { bits: NO_NUMBER }
    }
}

/// The component of a velocity along the inward normal of an edge.
pub fn inward_speed(edge: Edge, v: Vec2) -> (r: Single)
    ensures
        r == inward_part(edge, v),
{
    let (part, rest) = match edge {
        Edge::Left => (v.x, v.y),
        Edge::Right => (v.x.neg(), v.y),
        Edge::Top => (v.y, v.x),
        Edge::Bottom => (v.y.neg(), v.x),
    };
    if rest.is_finite() {
        part
    } else {
        Single { bits: NO_NUMBER }
    }
}

/// What can be made of a velocity so that it leads in over an edge.
#[derive(Copy, Clone, Debug, PartialEq, Eq, Structural)]
pub struct Turn {
    /// The velocity, brought up to the entry speed.
    pub hurried: Vec2,
    /// The velocity with its outward component turned round.
    pub turned: Vec2,
    /// The turned velocity, brought up to the entry speed.
    pub turned_hurried: Vec2,
}

impl Turn {
    /// The velocity that leads in over an edge: one that led out is turned round, and one
    /// that is too slow is brought up to the entry speed.
    pub open spec fn homeward(self, edge: Edge, v: Vec2) -> Vec2 {
        let out = inward_part(edge, v).below(Single { bits: 0 });
        let back = if out {
            self.turned
        } else {
            v
        };
        if inward_part(edge, back).below(Single { bits: MIN_ENTRY_SPEED }) {
            if out {
                self.turned_hurried
            } else {
                self.hurried
            }
        } else {
            back
        }
    }

    /// The velocity `v` as it leads in over an edge.
    pub fn send_home(&self, edge: Edge, v: Vec2) -> (r: Vec2)
        ensures
            r == self.homeward(edge, v),
    {
        let (back, hurried) = if inward_speed(edge, v).lt(Single { bits: 0 }) {
            (self.turned, self.turned_hurried)
        } else {
            (v, self.hurried)
        };
        if inward_speed(edge, back).lt(Single { bits: MIN_ENTRY_SPEED }) {
            hurried
        } else {
            back
        }
    }
}

/// The velocity of a blob thrown with velocity `v`, as far as it can be believed.
pub open spec fn believed(v: Vec2) -> Vec2 {
    if v.finite() {
        v
    } else {
        origin()
    }
}

/// The velocity with which a blob comes in over an edge, whatever the peer sent: it has to
/// be heading onto this screen, fast enough to get here. `turn` is about the velocity, or
/// about standing still if the velocity is not finite.
pub fn entry_velocity(edge: Edge, v: Vec2, turn: &Turn) -> (r: Vec2)
    ensures
        r == turn.homeward(edge, believed(v)),
{
    if v.is_finite() {
        turn.send_home(edge, v)
    } else {
        turn.send_home(edge, Vec2::zero())
    }
}

/// The throw velocity `v`, whose length is `speed`, or `slowed` if that is over the cap.
pub fn capped(v: Vec2, speed: Single, slowed: Vec2) -> (r: Vec2)
    ensures
        r == (if (Single { bits: MAX_THROW_SPEED }).below(speed) {
            slowed
        } else {
            v
        }),
        speed.nan() || speed.units() <= (Single { bits: 0x45bb_8000 }).units() ==> r == v,
        !speed.nan() && speed.units() > (Single { bits: 0x45bb_8000 }).units() ==> r == slowed,
{
    if (Single { bits: MAX_THROW_SPEED }).lt(speed) {
        slowed
    } else {
        v
    }
}

/// A place on an axis of the screen: how long the axis is, and which part of it lies
/// before the place.
#[derive(Copy, Clone, Debug, PartialEq, Eq, Structural)]
pub struct Fraction {
    pub extent: Single,
    pub part: Single,
}

impl Fraction {
    /// The part as a number from 0 to 1; the middle, if there is no extent to speak of.
    pub open spec fn of_unit(self) -> Single {
        if (Single { bits: MIN_EXTENT }).below(self.extent) {
            self.part.clamped()
        } else {
            Single { bits: HALF }
        }
    }
}

// ---------------------------------------------------------------------------
// The pointer's track
// ---------------------------------------------------------------------------

/// Where the pointer was, and when, in nanoseconds.
#[derive(Copy, Clone, Debug, PartialEq, Eq, Structural)]
pub struct Sample {
    pub t: u64,
    pub p: Vec2,
}

/// Timestamped pointer sample ring, used to estimate release velocity.
#[derive(Debug)]
pub struct PointerTrack {
    samples: VecDeque<Sample>,
}

impl View for PointerTrack {
    type V = Seq<Sample>;

    closed spec fn view(&self) -> Seq<Sample> {
        self.samples@
    }
}

/// The samples without the oldest ones that are of no use any more at time `t`. Two stay
/// in any case.
pub open spec fn kept(s: Seq<Sample>, t: u64) -> Seq<Sample>
    decreases s.len(),
{
    if s.len() > 2 && t - s[0].t > 3 * THROW_WINDOW {
        kept(s.skip(1), t)
    } else {
        s
    }
}

/// The oldest sample inside the window before `now`; the second-newest if there is none.
pub open spec fn window_start(s: Seq<Sample>, now: u64, i: int) -> int
    decreases s.len() - i,
{
    if i < 0 || i >= s.len() {
        s.len() - 2
    } else if s[i].t >= now - THROW_WINDOW {
        i
    } else {
        window_start(s, now, i + 1)
    }
}

/// The two samples that the release velocity is measured between.
pub open spec fn measured(s: Seq<Sample>, now: u64) -> Option<(Sample, Sample)> {
    let first = s[window_start(s, now, 0)];
    if s.len() < 2 || s.last().t - first.t <= MIN_TRACK_TIME {
        None
    } else {
        Some((first, s.last()))
    }
}

impl PointerTrack {
    pub fn new() -> (r: PointerTrack)
        ensures
            r@ == Seq::<Sample>::empty(),
    {
        PointerTrack { samples: VecDeque::new() }
    }

    pub fn clear(&mut self)
        ensures
            final(self)@ == Seq::<Sample>::empty(),
    {
        self.samples.clear();
    }

    /// Record where the pointer was at time `t`. A little more than the estimation window
    /// is kept, so there is always one sample older than it to interpolate from.
    pub fn push(&mut self, t: u64, p: Vec2)
        ensures
            final(self)@ == kept(old(self)@.push(Sample { t, p }), t),
    {
        self.samples.push_back(Sample { t, p });
        let ghost all = self.samples@;
        while self.samples.len() > 2
            invariant
                kept(all, t) == kept(self.samples@, t),
            ensures
                self.samples@ == kept(all, t),
            decreases self.samples@.len(),
        {
            let oldest: u64 = self.samples[0].t;
            if t.saturating_sub(oldest) > 3 * THROW_WINDOW {
                let ghost before = self.samples@;
                self.samples.pop_front();
                assert(self.samples@ =~= before.skip(1));
            } else {
                break;
            }
        }
    }

    /// The two samples that the average pointer velocity is taken between: the oldest
    /// one inside the window and the newest. `None` if that gives no velocity.
    pub fn span(&self, now: u64) -> (r: Option<(Sample, Sample)>)
        ensures
            r == measured(self@, now),
    {
        let n: usize = self.samples.len();
        if n < 2 {
            return None;
        }
        let mut first: usize = n - 2;
        let mut i: usize = 0;
        while i < n
            invariant_except_break
                first == n - 2,
                window_start(self.samples@, now, 0) == window_start(self.samples@, now, i as int),
            invariant
                n == self.samples@.len(),
                n >= 2,
                i <= n,
            ensures
                first < n,
                first == window_start(self.samples@, now, 0),
            decreases n - i,
        {
            if now.saturating_sub(self.samples[i].t) <= THROW_WINDOW {
                first = i;
                break;
            }
            i = i + 1;
        }
        let from = self.samples[first];
        let to = self.samples[n - 1];
        if to.t.saturating_sub(from.t) <= MIN_TRACK_TIME {
            None
        } else {
            Some((from, to))
        }
    }
}

/// The velocity is measured from within the window whenever any sample lies in it, and
/// always up to the newest sample.
pub proof fn law_old_samples_do_not_count(s: Seq<Sample>, now: u64, k: int)
    requires
        0 <= k < s.len(),
        s[k].t >= now - THROW_WINDOW,
        measured(s, now) is Some,
    ensures
        (measured(s, now)->0).0.t >= now - THROW_WINDOW,
        (measured(s, now)->0).1 == s.last(),
{
    lemma_window_start(s, now, 0, k);
}

proof fn lemma_window_start(s: Seq<Sample>, now: u64, i: int, k: int)
    requires
        0 <= i <= k < s.len(),
        s[k].t >= now - THROW_WINDOW,
    ensures
        i <= window_start(s, now, i) <= k,
        s[window_start(s, now, i)].t >= now - THROW_WINDOW,
    decreases s.len() - i,
{
    if s[i].t < now - THROW_WINDOW {
        lemma_window_start(s, now, i + 1, k);
    }
}

/// Forgetting old samples never changes the estimate: what is kept of a track at one time
/// gives the same velocity, then and later, as the whole track would have.
pub proof fn law_forgetting_does_not_change_the_estimate(s: Seq<Sample>, t: u64, now: u64)
    requires
        t <= now,
    ensures
        measured(kept(s, t), now) == measured(s, now),
    decreases s.len(),
{
    if s.len() > 2 && t - s[0].t > 3 * THROW_WINDOW {
        law_forgetting_does_not_change_the_estimate(s.skip(1), t, now);
        lemma_window_start_of_rest(s, now, 0);
        assert(window_start(s, now, 0) == window_start(s, now, 1));
        let rest = s.skip(1);
        let k = window_start(rest, now, 0);
        lemma_window_start_bounds(rest, now, 0);
        assert(rest[k] == s[k + 1]);
        assert(rest.last() == s.last());
    }
}

proof fn lemma_window_start_of_rest(s: Seq<Sample>, now: u64, i: int)
    requires
        s.len() > 0,
        0 <= i,
    ensures
        window_start(s.skip(1), now, i) + 1 == window_start(s, now, i + 1),
    decreases s.len() - i,
{
    if i < s.len() - 1 {
        assert(s.skip(1)[i] == s[i + 1]);
        lemma_window_start_of_rest(s, now, i + 1);
    }
}

proof fn lemma_window_start_bounds(s: Seq<Sample>, now: u64, i: int)
    requires
        s.len() >= 2,
        0 <= i,
    ensures
        0 <= window_start(s, now, i) < s.len(),
    decreases s.len() - i,
{
    if i < s.len() {
        lemma_window_start_bounds(s, now, i + 1);
    }
}

/// What is kept of a track is its newest part, of two samples at least: whatever is dropped
/// is older than 240 milliseconds, and nothing that old is left at the front of more than
/// two.
pub proof fn law_the_track_keeps_what_is_recent(s: Seq<Sample>, t: u64)
    ensures
        ({
            let k = kept(s, t);
            let gone = s.len() - k.len();
            &&& 0 <= gone
            &&& k == s.skip(gone)
            &&& forall|i: int| 0 <= i < gone ==> t - (#[trigger] s[i]).t > 240_000_000
            &&& k.len() > 2 ==> t - k[0].t <= 240_000_000
            &&& s.len() <= 2 ==> gone == 0
            &&& s.len() > 2 ==> k.len() >= 2
        }),
    decreases s.len(),
{
    assert(s.skip(0) =~= s);
    if s.len() > 2 && t - s[0].t > 3 * THROW_WINDOW {
        let rest = s.skip(1);
        law_the_track_keeps_what_is_recent(rest, t);
        let k = kept(s, t);
        let gone = rest.len() - k.len();
        assert(rest.skip(gone) =~= s.skip(gone + 1));
        assert forall|i: int| 0 <= i < gone + 1 implies t - (#[trigger] s[i]).t > 240_000_000 by {
            if i > 0 {
                assert(rest[i - 1] == s[i]);
            }
        }
    }
}

/// The velocity of a throw is measured from the first sample that is at most 80
/// milliseconds old, the `k`th, to the newest, unless these lie no more than a tenth of a
/// millisecond apart.
pub proof fn law_a_throw_is_measured_over_the_window(s: Seq<Sample>, now: u64, k: int)
    requires
        s.len() >= 2,
        0 <= k < s.len(),
        now - s[k].t <= 80_000_000,
        forall|j: int| 0 <= j < k ==> now - (#[trigger] s[j]).t > 80_000_000,
    ensures
        measured(s, now) == (if s[s.len() - 1].t - s[k].t <= 100_000 {
            None
        } else {
            Some((s[k], s[s.len() - 1]))
        }),
{
    lemma_window_start(s, now, 0, k);
    let w = window_start(s, now, 0);
    if w < k {
        assert(now - s[w].t > 80_000_000);
    }
}

/// Without a sample in the window the two newest are measured between; one sample gives no
/// velocity.
pub proof fn law_a_stale_track_is_measured_at_its_end(s: Seq<Sample>, now: u64)
    requires
        forall|j: int| 0 <= j < s.len() ==> now - (#[trigger] s[j]).t > 80_000_000,
    ensures
        s.len() < 2 ==> measured(s, now) is None,
        s.len() >= 2 ==> measured(s, now) == (if s[s.len() - 1].t - s[s.len() - 2].t <= 100_000 {
            None
        } else {
            Some((s[s.len() - 2], s[s.len() - 1]))
        }),
{
    lemma_no_window_start(s, now, 0);
}

proof fn lemma_no_window_start(s: Seq<Sample>, now: u64, i: int)
    requires
        0 <= i,
        forall|j: int| 0 <= j < s.len() ==> now - (#[trigger] s[j]).t > 80_000_000,
    ensures
        window_start(s, now, i) == s.len() - 2,
    decreases s.len() - i,
{
    if i < s.len() {
        assert(now - s[i].t > 80_000_000);
        lemma_no_window_start(s, now, i + 1);
    }
}

/// From each edge the inward normal is one pixel long and leads away from that edge: to the
/// right from the left one, to the left from the right one, down from the top and up from
/// the bottom.
pub proof fn law_the_normal_leads_inward(edge: Edge)
    ensures
        ({
            let n = inward(edge);
            let (zero, one) = (0u32, 0x3f80_0000u32);
            &&& edge == Edge::Left ==> n.x.bits == one && n.y.bits == zero
            &&& edge == Edge::Right ==> n.x.bits == one + 0x8000_0000 && n.y.bits == zero
            &&& edge == Edge::Top ==> n.x.bits == zero && n.y.bits == one
            &&& edge == Edge::Bottom ==> n.x.bits == zero && n.y.bits == one + 0x8000_0000
        }),
{
}

/// A place along an edge is told as it is if it lies between 0 and 1, as 0 or 1 beyond
/// that, and as one half on a screen of no extent.
pub proof fn law_a_place_along_an_edge(f: Fraction)
    requires
        !f.part.nan(),
    ensures
        f.extent.nan() || f.extent.units() <= (Single { bits: 0x3a83_126f }).units()
            ==> f.of_unit().bits == 0x3f00_0000,
        !f.extent.nan() && f.extent.units() > (Single { bits: 0x3a83_126f }).units() ==> {
            &&& f.part.units() < 0 ==> f.of_unit().bits == 0
            &&& f.part.units() > (Single { bits: 0x3f80_0000 }).units() ==> f.of_unit().bits
                == 0x3f80_0000
            &&& 0 <= f.part.units() <= (Single { bits: 0x3f80_0000 }).units() ==> f.of_unit()
                == f.part
        },
{
    assert((Single { bits: 0 }).units() == 0);
}

/// Boxes meet when they overlap along both axes, if only in a line.
pub proof fn law_boxes_meet_where_they_overlap(a: Bounds, b: Bounds)
    requires
        !a.x0.nan() && !a.x1.nan() && !a.y0.nan() && !a.y1.nan(),
        !b.x0.nan() && !b.x1.nan() && !b.y0.nan() && !b.y1.nan(),
    ensures
        a.meets(b) <==> !(a.x1.units() < b.x0.units() || b.x1.units() < a.x0.units() || a.y1.units()
            < b.y0.units() || b.y1.units() < a.y0.units()),
        a.meets(b) == b.meets(a),
{
}

/// The measures are what they are said to be, one pixel, one pixel a second or one second
/// being 1.0: radii of 36 and 24 pixels, a reach of 70, speeds of 6, 150 and 6000 pixels a
/// second, and a quarter of a second.
pub proof fn law_the_measures()
    ensures
        ({
            let one = (Single { bits: 0x3f80_0000 }).units();
            &&& one > 0
            &&& (Single { bits: CORE_RADIUS }).units() == 36 * one
            &&& (Single { bits: SAT_RADIUS }).units() == 24 * one
            &&& (Single { bits: MAX_SAT_DIST }).units() == 70 * one
            &&& (Single { bits: REST_SPEED }).units() == 6 * one
            &&& (Single { bits: MIN_ENTRY_SPEED }).units() == 150 * one
            &&& (Single { bits: MAX_THROW_SPEED }).units() == 6000 * one
            &&& 4 * (Single { bits: STILL_TIME }).units() == one
            &&& 2 * (Single { bits: HALF }).units() == one
            &&& (Single { bits: ONE }).units() == one
        }),
{
    lemma2_to64();
    let p = pow2(124);
    vstd::arithmetic::power2::lemma_pow2_pos(124);
    lemma_pow2_adds(124, 1);
    lemma_pow2_adds(124, 2);
    lemma_pow2_adds(124, 4);
    lemma_pow2_adds(124, 6);
    lemma_pow2_adds(124, 7);
    lemma_pow2_adds(124, 8);
    lemma_pow2_adds(124, 9);
    lemma_pow2_adds(124, 14);
    assert(pow2(125) == 2 * p && pow2(126) == 4 * p && pow2(128) == 16 * p && pow2(130) == 64 * p
        && pow2(131) == 128 * p && pow2(132) == 256 * p && pow2(133) == 512 * p && pow2(138) == 16384
        * p);
    assert(magnitude_units(0x3f80_0000) == 0x80_0000 * pow2(126));
    assert(magnitude_units(0x4210_0000) == 0x90_0000 * pow2(131));
    assert(magnitude_units(0x41c0_0000) == 0xc0_0000 * pow2(130));
    assert(magnitude_units(0x428c_0000) == 0x8c_0000 * pow2(132));
    assert(magnitude_units(0x40c0_0000) == 0xc0_0000 * pow2(128));
    assert(magnitude_units(0x4316_0000) == 0x96_0000 * pow2(133));
    assert(magnitude_units(0x45bb_8000) == 0xbb_8000 * pow2(138));
    assert(magnitude_units(0x3e80_0000) == 0x80_0000 * pow2(124));
    assert(magnitude_units(0x3f00_0000) == 0x80_0000 * pow2(125));
}

} // verus!

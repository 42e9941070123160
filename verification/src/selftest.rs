//! The self-test: the script that drives one blob through a grab, a fling and the bounces
//! that follow, and what has to hold of what is observed on the way.

use crate::physics::Vec2;
use crate::single::Single;
use crate::text::{left_aligned, push_left};
use vstd::prelude::*;

verus! {

/// How many steps to run.
pub const TICKS: usize = 10_000;

/// When the pointer takes hold, after sitting still until then.
pub const GRAB_AT: usize = 240;

/// When the pointer lets go.
pub const RELEASE_AT: usize = 400;

/// Which scripted phase a tick falls in: turns a bare number in a failure into something
/// you can act on.
pub open spec fn phase(tick: usize) -> Seq<char> {
    if tick < GRAB_AT {
        "idle"@
    } else if tick < RELEASE_AT {
        "drag"@
    } else {
        "free flight"@
    }
}

pub fn phase_of(tick: usize) -> (r: &'static str)
    ensures
        r@ == phase(tick),
{
    if tick < GRAB_AT {
        "idle"
    } else if tick < RELEASE_AT {
        "drag"
    } else {
        "free flight"
    }
}

/// What the script does to the blob at one tick.
#[derive(Copy, Clone, Debug, PartialEq, Eq, Structural)]
pub struct Cue {
    /// Take hold of it where it is.
    pub grab: bool,
    /// Pull it on.
    pub pull: bool,
    /// Let it go.
    pub release: bool,
}

/// What the script does at a tick. Taking hold and the first pull come in the same one.
pub fn cue(tick: usize) -> (r: Cue)
    ensures
        r.grab == (tick == GRAB_AT),
        r.pull == (phase(tick) == "drag"@),
        r.release == (tick == RELEASE_AT),
{
    proof {
        reveal_strlit("idle");
        reveal_strlit("drag");
        reveal_strlit("free flight");
        assert("idle"@[0] != "drag"@[0]);
        assert("free flight"@[0] != "drag"@[0]);
    }
    Cue {
        grab: tick == GRAB_AT,
        pull: GRAB_AT <= tick && tick < RELEASE_AT,
        release: tick == RELEASE_AT,
    }
}

/// Whether a number changed from clearly one sign to clearly the other.
pub open spec fn turned(before: Single, now: Single) -> bool {
    let up = Single { bits: 0x3f80_0000 };
    let down = Single { bits: 0xbf80_0000 };
    up.below(before) && now.below(down) || before.below(down) && up.below(now)
}

fn has_turned(before: Single, now: Single) -> (r: bool)
    ensures
        r == turned(before, now),
{
    let up = Single::new(0x3f80_0000);
    let down = Single::new(0xbf80_0000);
    up.lt(before) && now.lt(down) || before.lt(down) && up.lt(now)
}

/// Whether the blob bounced in this tick: the velocity changed its sign on either axis while
/// it was moving freely.
pub fn is_bounce(tick: usize, before: Vec2, now: Vec2) -> (r: bool)
    ensures
        r == (tick > RELEASE_AT && (turned(before.x, now.x) || turned(before.y, now.y))),
{
    tick > RELEASE_AT && (has_turned(before.x, now.x) || has_turned(before.y, now.y))
}

/// The larger of the worst overshoot so far and this one; one that is no number, or
/// unbounded, does not count here.
pub open spec fn worse(worst: Single, over: Single) -> Single {
    if over.finite() && worst.below(over) {
        over
    } else {
        worst
    }
}

pub fn worst_of(worst: Single, over: Single) -> (r: Single)
    ensures
        r == worse(worst, over),
{
    if over.is_finite() && worst.lt(over) {
        over
    } else {
        worst
    }
}

/// What was observed over the run.
#[derive(Copy, Clone, Debug, PartialEq, Eq)]
pub struct Observed {
    /// Whether anything was ever not a finite number.
    pub any_non_finite: bool,
    /// Whether everything is a finite number at the end.
    pub finite_at_the_end: bool,
    /// How far the core was outside the screen at worst, in pixels.
    pub worst_out_of_bounds: Single,
    /// The farthest a satellite was from the core, in pixels.
    pub max_sat_dist: Single,
    /// How far the core travelled while it was held, in pixels.
    pub drag_distance: Single,
    /// How fast it was let go, in pixels per second.
    pub release_speed: Single,
    /// How often it bounced.
    pub bounces: usize,
    /// How long after it was let go it came to rest, in seconds, if it did.
    pub rest_after_release: Option<Single>,
    /// Whether it is at rest at the end.
    pub at_rest: bool,
}

/// The checks, in order.
#[derive(Copy, Clone, Debug, PartialEq, Eq, Structural)]
pub struct Verdicts {
    /// No NaN or infinity anywhere.
    pub finite: bool,
    /// The core never left the screen by half a pixel.
    pub inside: bool,
    /// The satellites stayed clear of the hard cap: below 66.5 pixels.
    pub together: bool,
    /// The drag moved the blob by more than 200 pixels.
    pub dragged: bool,
    /// The throw was faster than 500 pixels per second, and not faster than 6000.
    pub thrown: bool,
    /// It bounced off a wall.
    pub bounced: bool,
    /// It came to rest within eight seconds of being let go.
    pub settled: bool,
    /// It is still at rest.
    pub resting: bool,
}

impl Verdicts {
    /// Whether every check passed.
    pub open spec fn passed(self) -> bool {
        self.finite && self.inside && self.together && self.dragged && self.thrown && self.bounced
            && self.settled && self.resting
    }

    pub fn all_ok(self) -> (r: bool)
        ensures
            r == self.passed(),
    {
        self.finite && self.inside && self.together && self.dragged && self.thrown && self.bounced
            && self.settled && self.resting
    }
}

impl Observed {
    /// What has to hold of a run.
    pub fn judge(self) -> (r: Verdicts)
        ensures
            r.finite == (!self.any_non_finite && self.finite_at_the_end),
            r.inside == self.worst_out_of_bounds.below(Single { bits: 0x3f00_0000 }),
            r.together == self.max_sat_dist.below(Single { bits: 0x4285_0000 }),
            r.dragged == (Single { bits: 0x4348_0000 }).below(self.drag_distance),
            r.thrown == ((Single { bits: 0x43fa_0000 }).below(self.release_speed)
                && self.release_speed.at_most(Single { bits: 0x45bb_8000 })),
            r.bounced == (self.bounces > 0),
            r.settled == (self.rest_after_release matches Some(s) && s.at_most(
                Single { bits: 0x4100_0000 },
            )),
            r.resting == self.at_rest,
    {
        Verdicts {
            finite: !self.any_non_finite && self.finite_at_the_end,
            inside: self.worst_out_of_bounds.lt(Single::new(0x3f00_0000)),
            together: self.max_sat_dist.lt(Single::new(0x4285_0000)),
            dragged: Single::new(0x4348_0000).lt(self.drag_distance),
            thrown: Single::new(0x43fa_0000).lt(self.release_speed) && self.release_speed.le(
                Single::new(0x45bb_8000),
            ),
            bounced: self.bounces > 0,
            settled: match self.rest_after_release {
                Some(s) => s.le(Single::new(0x4100_0000)),
                None => false,
            },
            resting: self.at_rest,
        }
    }
}

/// A line of the report: the verdict, what was checked, and what was seen.
pub open spec fn check_line(ok: bool, name: Seq<char>, detail: Seq<char>) -> Seq<char> {
    (if ok {
        "  [PASS] "@
    } else {
        "  [FAIL] "@
    }) + left_aligned(name, 52) + " "@ + detail
}

pub fn report_line(ok: bool, name: &str, detail: &str) -> (out: String)
    ensures
        out@ == check_line(ok, name@, detail@),
{
    let mut out = if ok {
        String::from_str("  [PASS] ")
    } else {
        String::from_str("  [FAIL] ")
    };
    push_left(&mut out, name, 52);
    out.append(" ");
    out.append(detail);
    out
}

/// The run has three phases: nothing happens before tick 240, the blob is dragged until tick
/// 400, and after that it flies.
pub proof fn law_the_phases_of_the_run(tick: usize)
    ensures
        tick < 240 ==> phase(tick) == "idle"@,
        240 <= tick < 400 ==> phase(tick) == "drag"@,
        400 <= tick ==> phase(tick) == "free flight"@,
{
}

/// A velocity has turned if it went from more than one pixel a second one way to more than
/// one the other way.
pub proof fn law_what_counts_as_a_turn(before: Single, now: Single)
    requires
        !before.nan() && !now.nan(),
    ensures
        ({
            let one = (Single { bits: 0x3f80_0000 }).units();
            turned(before, now) <==> (before.units() > one && now.units() < -one) || (
            before.units() < -one && now.units() > one)
        }),
        turned(before, now) == turned(now, before),
{
    let up = Single { bits: 0x3f80_0000 };
    let down = Single { bits: 0xbf80_0000 };
    assert(down.magnitude() == up.magnitude() && down.is_negative() && !up.is_negative());
}

/// The worst overshoot so far is never below an earlier one nor below any finite one.
pub proof fn law_the_worst_is_kept(worst: Single, over: Single)
    requires
        !worst.nan(),
    ensures
        worse(worst, over) == worst || worse(worst, over) == over,
        worse(worst, over).units() >= worst.units(),
        over.finite() ==> worse(worst, over).units() >= over.units(),
        !over.finite() ==> worse(worst, over) == worst,
{
}

/// A run passes if every one of its eight checks does.
pub proof fn law_a_run_passes_whole(v: Verdicts)
    ensures
        v.passed() <==> !(!v.finite || !v.inside || !v.together || !v.dragged || !v.thrown
            || !v.bounced || !v.settled || !v.resting),
{
}

} // verus!

//! The blob, driven by the floating-point half of the simulation. Each number computed here
//! is handed to the library, which decides what follows from it.

use liquid_metal::blob::{Blob, Depths, Impact, Struck, Thrown, Walls};
use liquid_metal::physics::{
    capped, entry_velocity, inward_normal, inward_speed, Bounds, Fraction, Particle, PointerTrack,
    Sample, Turn, Vec2, CORE_RADIUS, CORE_STRENGTH, MAX_THROW_SPEED, MIN_ENTRY_SPEED, REST_SPEED,
    SAT_COUNT, SAT_RADIUS, SAT_STRENGTH,
};
use liquid_metal::region::{hit_rects, hit_test, Grid, HIT_CELL, HIT_DILATE, MAX_CELLS};
use liquid_metal::single::Single;
use liquid_metal::wire::{Edge, SatState};
use std::f32::consts::TAU;

/// Rest distance of a satellite from the core.
const SAT_ORBIT: f32 = 22.0;
/// Radius used for wall collision: where the rendered surface of a resting blob is.
const COLLIDE_RADIUS: f32 = 75.0;
/// Satellite spring stiffness (1/s^2) and damping (1/s).
const SPRING_K: f32 = 180.0;
const SPRING_DAMP: f32 = 12.0;
/// Hard cap on how far a satellite may stray from the core, in pixels.
const MAX_SAT_DIST: f32 = 70.0;
/// Drag spring used while the pointer holds the blob.
const GRAB_K: f32 = 260.0;
const GRAB_DAMP: f32 = 28.0;
/// Free-flight damping: `v *= exp(-DRAG_K * dt)` gives the long coast; the small constant
/// `FRICTION` is what actually brings it to a stop in finite time.
const DRAG_K: f32 = 0.6;
const FRICTION: f32 = 70.0;
/// Wall bounce restitution, and how hard an impact squashes the satellites.
const RESTITUTION: f32 = 0.65;
const IMPACT_KICK: f32 = 0.18;
/// Ceiling on the excursion, in pixels, that a wall impact may push a satellite to.
const IMPACT_RIPPLE_PX: f32 = 16.0;
/// Squash and stretch: elongation along the velocity, area preserved.
const MAX_STRETCH: f32 = 1.6;
const STRETCH_PER_SPEED: f32 = 1.0 / 2200.0;
/// Fixed simulation substep. 240 Hz, independent of the render rate.
const SUBSTEP: f32 = 1.0 / 240.0;
/// How far outside the edge an arriving blob starts, in units of `COLLIDE_RADIUS`.
const ENTRY_MARGIN: f32 = 1.15;
/// Field threshold for the input region: the grabbable area sits slightly outside the
/// visible metal, whose surface is at 1.
const HIT_ISO: f32 = 0.70;

/// A number for the library.
fn single(x: f32) -> Single {
    Single { bits: x.to_bits() }
}

/// A number of the library.
fn float(s: Single) -> f32 {
    f32::from_bits(s.bits)
}

/// A vector to compute with.
#[derive(Copy, Clone, Debug, PartialEq)]
struct V2 {
    x: f32,
    y: f32,
}

fn v2(x: f32, y: f32) -> V2 {
    V2 { x, y }
}

impl From<Vec2> for V2 {
    fn from(v: Vec2) -> V2 {
        v2(float(v.x), float(v.y))
    }
}

impl From<V2> for Vec2 {
    fn from(v: V2) -> Vec2 {
        Vec2 { x: single(v.x), y: single(v.y) }
    }
}

impl V2 {
    fn len(self) -> f32 {
        (self.x * self.x + self.y * self.y).sqrt()
    }
    fn len_sq(self) -> f32 {
        self.x * self.x + self.y * self.y
    }
    fn dot(self, o: V2) -> f32 {
        self.x * o.x + self.y * o.y
    }
    /// Unit vector, or `(0, 0)` for a degenerate input (never a NaN).
    fn norm_or_zero(self) -> V2 {
        let l = self.len();
        if l > 1e-6 {
            self * (1.0 / l)
        } else {
            v2(0.0, 0.0)
        }
    }
    fn perp(self) -> V2 {
        v2(-self.y, self.x)
    }
}

impl std::ops::Add for V2 {
    type Output = V2;
    fn add(self, o: V2) -> V2 {
        v2(self.x + o.x, self.y + o.y)
    }
}

impl std::ops::Sub for V2 {
    type Output = V2;
    fn sub(self, o: V2) -> V2 {
        v2(self.x - o.x, self.y - o.y)
    }
}

impl std::ops::Mul<f32> for V2 {
    type Output = V2;
    fn mul(self, s: f32) -> V2 {
        v2(self.x * s, self.y * s)
    }
}

fn rect(x0: f32, y0: f32, x1: f32, y1: f32) -> Bounds {
    Bounds { x0: single(x0), y0: single(y0), x1: single(x1), y1: single(y1) }
}

fn center(b: &Bounds) -> V2 {
    v2((float(b.x0) + float(b.x1)) * 0.5, (float(b.y0) + float(b.y1)) * 0.5)
}

/// The lines at which the core bounces.
fn walls(b: &Bounds) -> Walls {
    Walls {
        lo_x: single(float(b.x0) + COLLIDE_RADIUS),
        hi_x: single(float(b.x1) - COLLIDE_RADIUS),
        lo_y: single(float(b.y0) + COLLIDE_RADIUS),
        hi_y: single(float(b.y1) - COLLIDE_RADIUS),
    }
}

/// Elongation factor along the velocity direction. Perpendicular gets its inverse, which
/// preserves area.
fn stretch(v: V2) -> f32 {
    (1.0 + v.len() * STRETCH_PER_SPEED).min(MAX_STRETCH)
}

/// Rest position of satellite `i` of a core, after squash and stretch.
fn rest_world(core: &Particle, i: usize) -> V2 {
    let (p, v) = (V2::from(core.p), V2::from(core.v));
    let a = TAU * (i as f32) / (SAT_COUNT as f32);
    let off = v2(a.cos(), a.sin()) * SAT_ORBIT;
    let s = stretch(v);
    let dir = v.norm_or_zero();
    if dir.len_sq() < 1e-9 {
        return p + off;
    }
    let perp = dir.perp();
    p + dir * (off.dot(dir) * s) + perp * (off.dot(perp) / s)
}

fn rest_pose(core: &Particle) -> [Vec2; SAT_COUNT] {
    std::array::from_fn(|i| rest_world(core, i).into())
}

fn still(p: V2) -> Particle {
    Particle { p: p.into(), v: v2(0.0, 0.0).into() }
}

/// A blob at rest in the middle of its world.
fn new_blob(bounds: Bounds) -> Blob {
    let c = center(&bounds);
    Blob::new(bounds, c.into(), &rest_pose(&still(c)))
}

/// Recentre and stop dead.
fn reset(b: &mut Blob) {
    let c = center(&b.bounds);
    b.reset(c.into(), &rest_pose(&still(c)));
}

/// Put every satellite where it rests at the core's velocity.
fn snap(b: &mut Blob) {
    let pose = rest_pose(&b.core);
    b.snap_satellites(&pose);
}

/// What can be made of a velocity so that it leads in over an edge: `back` is how much of
/// an outward velocity is taken off it.
fn turn(v: V2, edge: Edge, back: f32) -> Turn {
    let n = V2::from(inward_normal(edge));
    let hurry = |v: V2| v + n * (float(Single { bits: MIN_ENTRY_SPEED }) - v.dot(n));
    let turned = v - n * (v.dot(n) * back);
    Turn {
        hurried: hurry(v).into(),
        turned: turned.into(),
        turned_hurried: hurry(turned).into(),
    }
}

/// A blob arriving from another machine, placed just outside `edge` and moving inward,
/// carrying the deformation it was thrown with.
fn arriving(bounds: Bounds, edge: Edge, along: f32, vel: V2, sats: &[SatState]) -> Blob {
    let along = along.clamp(0.0, 1.0);
    let m = COLLIDE_RADIUS * ENTRY_MARGIN;
    let (x0, y0, x1, y1) =
        (float(bounds.x0), float(bounds.y0), float(bounds.x1), float(bounds.y1));
    let (w, h) = (x1 - x0, y1 - y0);
    let p = match edge {
        Edge::Left => v2(x0 - m, y0 + along * h),
        Edge::Right => v2(x1 + m, y0 + along * h),
        Edge::Top => v2(x0 + along * w, y0 - m),
        Edge::Bottom => v2(x0 + along * w, y1 + m),
    };
    let thrown_with = Vec2::from(vel);
    let turn = turn(if thrown_with.is_finite() { vel } else { v2(0.0, 0.0) }, edge, 2.0);
    let v = V2::from(entry_velocity(edge, thrown_with, &turn));
    let core = Particle { p: p.into(), v: v.into() };
    let thrown: Vec<Thrown> = sats
        .iter()
        .map(|s| {
            let off = v2(float(s.off_x), float(s.off_y)) * SAT_ORBIT;
            let rel = v2(float(s.vel_x), float(s.vel_y)) * SAT_ORBIT;
            Thrown {
                off: off.into(),
                rel: rel.into(),
                dist: single(off.len()),
                at: Particle { p: (p + off).into(), v: (v + rel).into() },
            }
        })
        .collect();
    let (middle, rest) = (center(&bounds).into(), rest_pose(&core));
    Blob::arriving(bounds, middle, core.p, edge, thrown_with, &turn, &rest, &thrown)
}

/// What can be made of the velocity of a blob that left by `edge`.
fn turn_back(b: &Blob, edge: Edge) -> Turn {
    turn(b.core.v.into(), edge, 1.0 + RESTITUTION)
}

/// Where along `edge` the core is, as a 0..=1 fraction.
fn along_edge(b: &Blob, edge: Edge) -> f32 {
    let (x0, y0) = (float(b.bounds.x0), float(b.bounds.y0));
    let (w, h) = (float(b.bounds.x1) - x0, float(b.bounds.y1) - y0);
    let p = V2::from(b.core.p);
    let across = Fraction { extent: single(w), part: single((p.x - x0) / w) };
    let down = Fraction { extent: single(h), part: single((p.y - y0) / h) };
    float(b.along_edge(edge, &across, &down))
}

/// Satellite offsets and velocities relative to the core, in units of `SAT_ORBIT`, ready
/// for the wire.
fn sat_states(b: &Blob) -> Vec<SatState> {
    let inv = 1.0 / SAT_ORBIT;
    b.sats
        .iter()
        .map(|s| {
            let off = (V2::from(s.p) - b.core.p.into()) * inv;
            let rel = (V2::from(s.v) - b.core.v.into()) * inv;
            SatState {
                off_x: single(off.x),
                off_y: single(off.y),
                vel_x: single(rel.x),
                vel_y: single(rel.y),
            }
        })
        .collect()
}

/// Begin a drag at a point.
fn grab(b: &mut Blob, at: V2) {
    let offset = at - b.core.p.into();
    b.grab(at.into(), offset.into());
}

/// The velocity between two samples of the pointer's track, capped.
fn velocity(span: Option<(Sample, Sample)>) -> V2 {
    let (a, b) = match span {
        Some(s) => s,
        None => return v2(0.0, 0.0),
    };
    let dt = b.t.saturating_sub(a.t) as f64 / 1e9;
    let v = (V2::from(b.p) - a.p.into()) * (1.0 / dt as f32);
    let speed = v.len();
    let slowed = v * (float(Single { bits: MAX_THROW_SPEED }) / speed);
    capped(v.into(), single(speed), slowed.into()).into()
}

/// Advance one fixed substep.
fn step(b: &mut Blob, dt: f32) {
    // --- core ---
    let v = V2::from(b.core.v);
    if let Some(off) = b.grab {
        let target = V2::from(b.grab_target) - off.into();
        let a = (target - b.core.p.into()) * GRAB_K - v * GRAB_DAMP;
        b.core.v = (v + a * dt).into();
    } else {
        let mut v = v * (-DRAG_K * dt).exp();
        let speed = v.len();
        if speed > 0.0 {
            v = v - v.norm_or_zero() * (FRICTION * dt).min(speed);
        }
        b.coast(v.into(), single(v.len()));
    }
    b.core.p = (V2::from(b.core.p) + V2::from(b.core.v) * dt).into();

    let lines = walls(&b.bounds);
    b.finish_entering(&lines);
    collide(b, &lines);

    // --- satellites ---
    for i in 0..SAT_COUNT {
        let target = rest_world(&b.core, i);
        let (p, v) = (V2::from(b.sats[i].p), V2::from(b.sats[i].v));
        let a = (target - p) * SPRING_K - (v - b.core.v.into()) * SPRING_DAMP;
        let v = v + a * dt;
        let p = p + v * dt;
        b.sats[i] = Particle { p: p.into(), v: v.into() };
        let core = V2::from(b.core.p);
        let off = p - core;
        let d = off.len();
        b.tether(i, single(d), (core + off * (MAX_SAT_DIST / d)).into());
    }

    // --- idle tracking ---
    let core_v = V2::from(b.core.v);
    let max_rel = b.sats.iter().map(|s| (V2::from(s.v) - core_v).len()).fold(0.0f32, f32::max);
    let longer = float(b.still_for) + dt;
    b.track_idle(single(core_v.len_sq()), single(max_rel), single(longer));
}

/// How fast each component of a velocity comes off a wall.
fn rebound(v: Vec2) -> Vec2 {
    let v = V2::from(v);
    v2(v.x.abs() * RESTITUTION, v.y.abs() * RESTITUTION).into()
}

fn collide(b: &mut Blob, lines: &Walls) {
    let middle = center(&b.bounds);
    let come_off = rebound(b.core.v);
    let mut hit = match b.collide_walls(lines, middle.into(), come_off) {
        Struck::Cramped => return,
        Struck::Walls(hit) => hit,
    };
    for i in 0..b.dead.len() {
        let d = b.dead[i];
        let r = COLLIDE_RADIUS;
        let hole = rect(float(d.x0) - r, float(d.y0) - r, float(d.x1) + r, float(d.y1) + r);
        let p = V2::from(b.core.p);
        let depths = Depths {
            left: single(p.x - float(hole.x0)),
            right: single(float(hole.x1) - p.x),
            top: single(p.y - float(hole.y0)),
            bottom: single(float(hole.y1) - p.y),
        };
        let come_off = rebound(b.core.v);
        hit = b.leave_hole(&hole, &depths, come_off).or(hit);
    }
    if let Some(hit) = hit {
        if hit.ripples() {
            ripple(b, &hit);
        }
    }
}

/// The whole body hits the wall, not just the core: the satellites are reflected too, and
/// those on the far side are squashed toward the wall.
fn ripple(b: &mut Blob, hit: &Impact) {
    let n = V2::from(inward_normal(hit.from));
    let kick = (float(hit.speed) * IMPACT_KICK).min(IMPACT_RIPPLE_PX * SPRING_K.sqrt());
    for i in 0..SAT_COUNT {
        let mut v = V2::from(b.sats[i].v);
        if inward_speed(hit.from, v.into()).lt(single(0.0)) {
            v = v - n * (v.dot(n) * (1.0 + RESTITUTION));
        }
        let off_dir = (V2::from(b.sats[i].p) - b.core.p.into()).norm_or_zero();
        let w = off_dir.dot(n).max(0.0);
        v = v - n * (kick * w);
        b.sats[i].v = v.into();
    }
}

/// The scalar field the shader draws, `sum(w * r^2 / (|d|^2 + 1))`; the surface is at 1.
fn field(b: &Blob, at: V2) -> f32 {
    let mut f = 0.0;
    for ball in b.balls() {
        let (r, w) = (float(ball.r), float(ball.w));
        f += w * r * r / ((at - ball.p.into()).len_sq() + 1.0);
    }
    f
}

/// Bounding box of the rendered blob, generously padded.
fn bbox(b: &Blob) -> Bounds {
    let balls = b.balls();
    let total: f32 = balls.iter().map(|b| float(b.w) * float(b.r) * float(b.r)).sum();
    let pad = (total / HIT_ISO).sqrt() + 4.0;
    let (mut x0, mut y0) = (f32::INFINITY, f32::INFINITY);
    let (mut x1, mut y1) = (f32::NEG_INFINITY, f32::NEG_INFINITY);
    for ball in balls {
        let p = V2::from(ball.p);
        x0 = x0.min(p.x - pad);
        y0 = y0.min(p.y - pad);
        x1 = x1.max(p.x + pad);
        y1 = y1.max(p.y + pad);
    }
    rect(x0, y0, x1, y1)
}

/// Rectangle cover of the blob for the input region. A blob too far out for its pixels to
/// be counted is a fault in the simulation, and stops the program.
fn cover(b: &Blob) -> Vec<(i32, i32, i32, i32)> {
    let bb = bbox(b);
    let c = HIT_CELL as f32;
    let x0 = (float(bb.x0) / c).floor() as i32;
    let y0 = (float(bb.y0) / c).floor() as i32;
    let x1 = (float(bb.x1) / c).ceil() as i32;
    let y1 = (float(bb.y1) / c).ceil() as i32;
    let far = i32::MAX / HIT_CELL - 2 * MAX_CELLS as i32 - 2 * HIT_DILATE;
    for edge in [x0, y0, x1, y1] {
        assert!(-far < edge && edge < far, "the blob is out of any window");
    }
    let grid = match Grid::over(x0, y0, x1, y1) {
        Some(g) => g,
        None => return Vec::new(),
    };
    let mask: Vec<Vec<bool>> = (0..grid.h)
        .map(|gy| {
            (0..grid.w)
                .map(|gx| {
                    let px = ((grid.x0 + gx as i32) as f32 + 0.5) * c;
                    let py = ((grid.y0 + gy as i32) as f32 + 0.5) * c;
                    field(b, v2(px, py)) >= HIT_ISO
                })
                .collect()
        })
        .collect();
    hit_rects(&grid, &mask)
}

/// Distance from the core at which the rendered field crosses `iso`, measured by bisection
/// along +x.
fn iso_radius(b: &Blob, iso: f32) -> f32 {
    let (mut lo, mut hi) = (1.0f32, 4000.0f32);
    for _ in 0..60 {
        let mid = 0.5 * (lo + hi);
        if field(b, V2::from(b.core.p) + v2(mid, 0.0)) > iso {
            lo = mid;
        } else {
            hi = mid;
        }
    }
    lo
}

/// How far the farthest satellite is from the core.
fn max_sat_dist(b: &Blob) -> f32 {
    b.sats.iter().map(|s| (V2::from(s.p) - b.core.p.into()).len()).fold(0.0f32, f32::max)
}

// ---------------------------------------------------------------------------

fn hits(b: &Blob, at: V2) -> bool {
    hit_test(&cover(b), at.x.floor() as i64, at.y.floor() as i64)
}

fn pos(b: &Blob) -> V2 {
    b.core.p.into()
}

fn vel(b: &Blob) -> V2 {
    b.core.v.into()
}

fn put(b: &mut Blob, p: V2, v: V2) {
    b.core = Particle { p: p.into(), v: v.into() };
}

fn leaving(b: &Blob) -> Option<Edge> {
    b.departing_edge(&walls(&b.bounds))
}

fn off_screen(b: &Blob) -> bool {
    b.is_off_screen(&bbox(b))
}

fn nanos(s: f64) -> u64 {
    (s * 1e9).round() as u64
}

fn screen() -> Bounds {
    Bounds::screen(single(1920.0), single(1080.0))
}

/// Modelled on a three-display desk: 2560x1440, 2560x1440 and 1512x982 in a row make a
/// 6632x1440 desktop with a 1512x458 hole under the short one.
#[test]
fn the_blob_is_kept_out_of_the_hole_between_displays() {
    let world = Bounds::screen(single(6632.0), single(1440.0));
    let hole = rect(5120.0, 982.0, 6632.0, 1440.0);
    let mut b = new_blob(world);
    b.set_dead_regions(&[hole]);

    // Aimed down into the hole from above the short display.
    put(&mut b, v2(5800.0, 900.0), v2(0.0, 1200.0));
    for _ in 0..480 {
        step(&mut b, SUBSTEP);
    }

    assert!(
        pos(&b).y <= float(hole.y0) - COLLIDE_RADIUS + 1.0,
        "the blob sank into the hole: y = {}, hole starts at {}",
        pos(&b).y,
        float(hole.y0)
    );
    // And it is still on the desktop, not flung out of the far side of the hole.
    assert!(pos(&b).x > float(world.x0) && pos(&b).x < float(world.x1));
}

/// The hole is not a wall for a screen that does reach that far down: the blob gets to the
/// bottom of a tall display before it bounces.
#[test]
fn the_full_height_of_a_tall_display_can_be_used() {
    let world = Bounds::screen(single(6632.0), single(1440.0));
    let hole = rect(5120.0, 982.0, 6632.0, 1440.0);
    let mut b = new_blob(world);
    b.set_dead_regions(&[hole]);

    put(&mut b, v2(2000.0, 900.0), v2(0.0, 1200.0));
    let mut lowest = 0.0f32;
    for _ in 0..480 {
        step(&mut b, SUBSTEP);
        lowest = lowest.max(pos(&b).y);
    }
    assert_eq!(lowest, 1440.0 - COLLIDE_RADIUS);
}

#[test]
fn spring_rest_state_is_stable() {
    let mut b = new_blob(screen());
    let p0 = pos(&b);
    let sats0: Vec<V2> = b.sats.iter().map(|s| s.p.into()).collect();
    for _ in 0..2400 {
        step(&mut b, SUBSTEP);
    }
    assert!(b.all_finite());
    assert!((pos(&b) - p0).len() < 1e-3, "core drifted: {:?}", pos(&b));
    for (i, s) in b.sats.iter().enumerate() {
        assert!(
            (V2::from(s.p) - sats0[i]).len() < 1e-3,
            "satellite {i} drifted to {:?} from {:?}",
            V2::from(s.p),
            sats0[i]
        );
    }
    assert!(b.is_at_rest());
}

#[test]
fn disturbed_springs_ring_down_to_rest() {
    let mut b = new_blob(screen());
    for s in b.sats.iter_mut() {
        s.v = v2(400.0, -250.0).into();
    }
    for _ in 0..2400 {
        step(&mut b, SUBSTEP);
    }
    assert!(b.all_finite());
    let max_rel =
        b.sats.iter().map(|s| (V2::from(s.v) - vel(&b)).len()).fold(0.0f32, f32::max);
    assert!(max_rel < f32::from_bits(REST_SPEED), "satellites still moving at {max_rel}");
}

#[test]
fn throw_estimator_matches_a_known_track() {
    // Pointer moving at exactly (1200, -600) px/s, sampled at 250 Hz.
    let mut t = PointerTrack::new();
    let vel = v2(1200.0, -600.0);
    for i in 0..100 {
        let s = i as f64 / 250.0;
        t.push(nanos(s), (v2(100.0, 800.0) + vel * s as f32).into());
    }
    let est = velocity(t.span(nanos(99.0 / 250.0)));
    assert!((est - vel).len() < 1.0, "estimated {:?}, expected {:?}", est, vel);
}

#[test]
fn throw_estimator_ignores_samples_older_than_the_window() {
    // Sits still for 300 ms, then flicks right for the last 80 ms. The estimate must see
    // the flick, not the average over the whole gesture.
    let mut t = PointerTrack::new();
    for i in 0..30 {
        t.push(nanos(i as f64 / 100.0), v2(500.0, 500.0).into());
    }
    for i in 1..=8 {
        let s = 0.30 + i as f64 / 100.0;
        t.push(nanos(s), v2(500.0 + 20.0 * i as f32, 500.0).into());
    }
    let est = velocity(t.span(nanos(0.38)));
    assert!(est.x > 1500.0, "flick under-estimated: {:?}", est);
    assert!(est.y.abs() < 1.0, "spurious y velocity: {:?}", est);
}

/// Samples long past make no difference, whether they are still remembered or not.
#[test]
fn forgotten_samples_do_not_change_the_estimate() {
    let mut long = PointerTrack::new();
    let mut short = PointerTrack::new();
    for i in 0..200u64 {
        let p = v2((i * i) as f32, 0.0).into();
        long.push(i * 5_000_000, p);
        if i >= 150 {
            short.push(i * 5_000_000, p);
        }
    }
    for now in [199 * 5_000_000, 199 * 5_000_000 + 50_000_000, 199 * 5_000_000 + 500_000_000] {
        assert_eq!(long.span(now), short.span(now));
    }
    let (from, to) = long.span(199 * 5_000_000).unwrap();
    assert_eq!((from.t, to.t), (183 * 5_000_000, 199 * 5_000_000));
}

#[test]
fn throw_estimator_is_empty_without_samples() {
    let t = PointerTrack::new();
    assert_eq!(velocity(t.span(nanos(1.0))), v2(0.0, 0.0));
}

#[test]
fn edge_bounce_reverses_only_the_struck_component() {
    let b0 = screen();
    let mut b = new_blob(b0);
    // Aim at the right wall with a downward component that must survive.
    put(&mut b, v2(float(b0.x1) - COLLIDE_RADIUS - 1.0, 500.0), v2(1000.0, 300.0));
    snap(&mut b);
    step(&mut b, SUBSTEP);
    assert!(vel(&b).x < 0.0, "x should have reversed: {:?}", vel(&b));
    assert!(vel(&b).y > 0.0, "y should be untouched: {:?}", vel(&b));
    // Drag and friction are applied before the wall test in the same substep, so the
    // outgoing speed is a hair under `1000 * RESTITUTION`.
    let expect = 1000.0 * RESTITUTION;
    assert!(
        (vel(&b).x.abs() - expect).abs() < expect * 0.01,
        "restitution not applied: {:?}",
        vel(&b)
    );
    assert!(pos(&b).x <= float(b0.x1) - COLLIDE_RADIUS + 1e-3);

    // ...and the same on the top wall.
    let mut b = new_blob(b0);
    put(&mut b, v2(700.0, float(b0.y0) + COLLIDE_RADIUS + 1.0), v2(-400.0, -900.0));
    snap(&mut b);
    step(&mut b, SUBSTEP);
    assert!(vel(&b).y > 0.0, "y should have reversed: {:?}", vel(&b));
    assert!(vel(&b).x < 0.0, "x should be untouched: {:?}", vel(&b));
}

#[test]
fn stretch_is_capped_and_area_preserving() {
    let mut b = new_blob(screen());
    b.core.v = v2(100000.0, 0.0).into();
    let s = stretch(vel(&b));
    assert!((s - MAX_STRETCH).abs() < 1e-5, "stretch not capped: {s}");
    // The satellite at local angle 0 lies along +x, so it stretches by exactly s; the one
    // at 90 degrees lies along +y and must shrink by 1/s.
    let along = rest_world(&b.core, 0) - pos(&b);
    let across = rest_world(&b.core, SAT_COUNT / 4) - pos(&b);
    assert!((along.len() - SAT_ORBIT * s).abs() < 0.01);
    assert!((across.len() - SAT_ORBIT / s).abs() < 0.01);
}

#[test]
fn grab_pulls_the_core_without_teleporting_it() {
    let mut b = new_blob(screen());
    let start = pos(&b);
    grab(&mut b, start);
    b.drag_to((start + v2(400.0, 0.0)).into());
    step(&mut b, SUBSTEP);
    let moved = (pos(&b) - start).len();
    assert!(moved > 0.0, "core did not move");
    assert!(moved < 40.0, "core teleported {moved} px in one substep");
    for _ in 0..600 {
        step(&mut b, SUBSTEP);
    }
    assert!((pos(&b) - (start + v2(400.0, 0.0))).len() < 1.0);
}

#[test]
fn hit_rects_cover_the_blob_and_stay_small() {
    let b = new_blob(screen());
    let rects = cover(&b);
    assert!(!rects.is_empty());
    assert!(rects.len() < 64, "too many rects: {}", rects.len());
    assert!(hits(&b, pos(&b)), "centre is not grabbable");
    // A point well clear of the blob must be click-through.
    assert!(!hits(&b, pos(&b) + v2(400.0, 0.0)));
    // The grab margin really is outside the rendered isosurface.
    let just_outside = pos(&b) + v2(iso_radius(&b, 1.0) + 8.0, 0.0);
    assert!(field(&b, just_outside) < 1.0, "test point is inside the metal");
    assert!(hits(&b, just_outside), "no grab margin outside the metal");
}

#[test]
fn a_fully_stretched_blob_does_not_split_into_lumps() {
    let mut b = new_blob(screen());
    b.core.v = v2(100_000.0, 0.0).into(); // far past the stretch cap
    snap(&mut b);
    assert!((stretch(vel(&b)) - MAX_STRETCH).abs() < 1e-5);

    // Walk the major axis from one end of the blob to the other; the field must never dip
    // below the isosurface in between, or the body has separated.
    let half = SAT_ORBIT * MAX_STRETCH + f32::from_bits(SAT_RADIUS);
    let mut min_f = f32::INFINITY;
    for i in -200..=200 {
        let x = half * (i as f32 / 200.0);
        min_f = min_f.min(field(&b, pos(&b) + v2(x, 0.0)));
    }
    assert!(min_f > 1.0, "blob split along its major axis: min field {min_f:.3}");

    // And across the minor axis, which the area-preserving squash makes thinner.
    let halfy = SAT_ORBIT / MAX_STRETCH + f32::from_bits(SAT_RADIUS);
    let mut min_fy = f32::INFINITY;
    for i in -200..=200 {
        let y = halfy * (i as f32 / 200.0);
        min_fy = min_fy.min(field(&b, pos(&b) + v2(0.0, y)));
    }
    assert!(min_fy > 1.0, "blob split along its minor axis: min field {min_fy:.3}");
}

#[test]
fn collide_radius_matches_the_rendered_surface() {
    let b = new_blob(screen());
    let r = iso_radius(&b, 1.0);
    assert!(
        (r - COLLIDE_RADIUS).abs() < COLLIDE_RADIUS * 0.06,
        "rendered isosurface is at {r:.1} px but COLLIDE_RADIUS is {COLLIDE_RADIUS}"
    );
    // And the grab threshold must sit outside the metal, never inside it.
    assert!(iso_radius(&b, HIT_ISO) > r + 6.0);
}

#[test]
fn field_isosurface_is_where_we_think_it_is() {
    let b = new_blob(screen());
    assert!(field(&b, pos(&b)) > 1.0);
    assert!(field(&b, pos(&b) + v2(1000.0, 0.0)) < 1.0);
}

#[test]
fn an_edge_with_nobody_behind_it_is_still_a_wall() {
    let mut b = new_blob(screen());
    b.core.v = v2(3000.0, 0.0).into();
    assert_eq!(b.portals(), 0);
    // Containment at every step, not just at the end: by the time it settles it has
    // bounced off both sides, so the final velocity says nothing.
    for _ in 0..2400 {
        step(&mut b, SUBSTEP);
        assert_eq!(leaving(&b), None, "nowhere to go, so it cannot be leaving");
        assert!(
            pos(&b).x <= float(screen().x1) - COLLIDE_RADIUS + 1e-3
                && pos(&b).x >= float(screen().x0) + COLLIDE_RADIUS - 1e-3,
            "the blob went through a wall to {:?}",
            pos(&b)
        );
    }
    assert!(b.is_at_rest(), "it should have settled");
}

#[test]
fn an_edge_with_a_peer_behind_it_is_a_door() {
    let mut b = new_blob(screen());
    b.set_portals(Edge::Right.bit());
    b.core.v = v2(3000.0, 0.0).into();

    let mut left_by = None;
    for _ in 0..600 {
        step(&mut b, SUBSTEP);
        if left_by.is_none() {
            left_by = leaving(&b);
        }
    }
    assert_eq!(left_by, Some(Edge::Right), "it never went through the door");
    assert!(b.all_finite());
    assert!(
        pos(&b).x > float(screen().x1) - COLLIDE_RADIUS,
        "it is still inside at {:?}",
        pos(&b)
    );
    // Given long enough it is genuinely gone, so the frame loop can stop drawing it.
    for _ in 0..600 {
        step(&mut b, SUBSTEP);
    }
    assert!(off_screen(&b), "bbox {:?} still overlaps the screen", bbox(&b));
}

#[test]
fn a_door_on_one_edge_does_not_open_the_others() {
    let mut b = new_blob(screen());
    b.set_portals(Edge::Right.bit());
    b.core.v = v2(0.0, -3000.0).into();
    for _ in 0..600 {
        step(&mut b, SUBSTEP);
    }
    assert_eq!(leaving(&b), None);
    assert!(pos(&b).y >= float(screen().y0) + COLLIDE_RADIUS - 1e-3, "went out the top");
}

#[test]
fn a_held_blob_never_goes_through_a_door() {
    let mut b = new_blob(screen());
    b.set_portals(0xf);
    let at = pos(&b);
    grab(&mut b, at);
    b.drag_to(v2(5000.0, 540.0).into());
    for _ in 0..600 {
        step(&mut b, SUBSTEP);
        assert_eq!(leaving(&b), None, "it left while it was being held");
    }
}

#[test]
fn along_edge_reports_where_it_crossed() {
    let mut b = new_blob(screen());
    b.core.p = v2(1000.0, 270.0).into(); // a quarter of the way down a 1080 screen
    assert!((along_edge(&b, Edge::Right) - 0.25).abs() < 1e-4);
    b.core.p = v2(480.0, 500.0).into(); // a quarter of the way across a 1920 screen
    assert!((along_edge(&b, Edge::Top) - 0.25).abs() < 1e-4);
}

#[test]
fn an_arriving_blob_comes_onto_the_screen() {
    let mut b = arriving(screen(), Edge::Left, 0.25, v2(900.0, 0.0), &[]);
    assert!(b.is_entering());
    assert!(
        pos(&b).x < float(screen().x0),
        "it should start outside, not at {:?}",
        pos(&b)
    );
    assert!((pos(&b).y - 270.0).abs() < 1.0, "it came in at the wrong height");

    for _ in 0..600 {
        step(&mut b, SUBSTEP);
    }
    assert!(b.all_finite());
    assert!(!b.is_entering(), "it never finished arriving");
    assert!(
        pos(&b).x > float(screen().x0) + COLLIDE_RADIUS,
        "still outside at {:?}",
        pos(&b)
    );
}

#[test]
fn an_arriving_blob_is_not_immediately_thrown_back() {
    let mut b = arriving(screen(), Edge::Left, 0.5, v2(900.0, 0.0), &[]);
    b.set_portals(0xf);
    for _ in 0..600 {
        assert_eq!(leaving(&b), None, "it turned round and left again");
        step(&mut b, SUBSTEP);
        if !b.is_entering() {
            return;
        }
    }
    panic!("it never got inside");
}

#[test]
fn a_throw_that_arrives_pointing_the_wrong_way_still_lands() {
    for (edge, bad) in [
        (Edge::Left, v2(-900.0, 0.0)),
        (Edge::Right, v2(900.0, 0.0)),
        (Edge::Top, v2(0.0, -900.0)),
        (Edge::Bottom, v2(0.0, 900.0)),
        (Edge::Left, v2(0.0, 0.0)),
    ] {
        let mut b = arriving(screen(), edge, 0.5, bad, &[]);
        for _ in 0..1200 {
            step(&mut b, SUBSTEP);
        }
        assert!(!b.is_entering(), "{edge:?} with {bad:?} never came on screen");
        assert!(b.all_finite());
    }
}

#[test]
fn the_thrown_shape_survives_the_round_trip() {
    let mut sent = new_blob(screen());
    sent.core.v = v2(1800.0, -600.0).into();
    let at = pos(&sent);
    grab(&mut sent, at);
    sent.drag_to(v2(1400.0, 300.0).into());
    for _ in 0..120 {
        step(&mut sent, SUBSTEP);
    }
    sent.release(v2(1800.0, -600.0).into());
    for _ in 0..30 {
        step(&mut sent, SUBSTEP);
    }

    let states = sat_states(&sent);
    assert_eq!(states.len(), SAT_COUNT);
    let deformed = states.iter().any(|s| {
        (v2(float(s.off_x), float(s.off_y)).len() - 1.0).abs() > 0.05
            || v2(float(s.vel_x), float(s.vel_y)).len() > 0.05
    });
    assert!(deformed, "the test did not actually deform the blob, so it proves nothing");

    let got = arriving(screen(), Edge::Left, 0.5, v2(1800.0, -600.0), &states);
    for (i, s) in states.iter().enumerate() {
        let off = (V2::from(got.sats[i].p) - pos(&got)) * (1.0 / SAT_ORBIT);
        let rel = (V2::from(got.sats[i].v) - vel(&got)) * (1.0 / SAT_ORBIT);
        assert!(
            (off - v2(float(s.off_x), float(s.off_y))).len() < 1e-4,
            "satellite {i} arrived at the wrong offset"
        );
        assert!(
            (rel - v2(float(s.vel_x), float(s.vel_y))).len() < 1e-4,
            "satellite {i} lost its motion"
        );
    }
}

#[test]
fn a_throw_from_a_differently_shaped_peer_still_lands() {
    for n in [0usize, 3, SAT_COUNT + 5] {
        let junk = vec![
            SatState { off_x: single(9.0), off_y: single(9.0), ..SatState::default() };
            n
        ];
        let mut b = arriving(screen(), Edge::Top, 0.5, v2(0.0, 900.0), &junk);
        for _ in 0..1200 {
            step(&mut b, SUBSTEP);
        }
        assert!(b.all_finite(), "{n} satellites produced a broken blob");
        assert!(max_sat_dist(&b) <= MAX_SAT_DIST + 1e-3);
        assert!(!b.is_entering());
    }
}

#[test]
fn a_throw_that_is_refused_bounces_the_blob_back_in() {
    let mut b = new_blob(screen());
    b.set_portals(Edge::Right.bit());
    b.core.v = v2(3000.0, 0.0).into();
    let mut edge = None;
    while edge.is_none() {
        step(&mut b, SUBSTEP);
        edge = leaving(&b);
    }
    // Let it get properly outside, the way a real one would while waiting.
    for _ in 0..120 {
        step(&mut b, SUBSTEP);
    }
    let outside = pos(&b);
    assert!(outside.x > float(screen().x1));

    let turn = turn_back(&b, Edge::Right);
    b.bounce_back(Edge::Right, &turn);
    assert!(b.is_entering());
    assert_eq!(pos(&b), outside, "bouncing back must not teleport it");
    assert!(vel(&b).x < 0.0, "it should be heading back in");

    for _ in 0..2400 {
        step(&mut b, SUBSTEP);
    }
    assert!(b.all_finite());
    assert!(!b.is_entering(), "it never made it back");
    assert!(pos(&b).x < float(screen().x1) - COLLIDE_RADIUS + 1e-3);
}

#[test]
fn a_peer_vanishing_mid_throw_does_not_lose_the_blob() {
    let mut b = new_blob(screen());
    b.set_portals(Edge::Right.bit());
    b.core.v = v2(3000.0, 0.0).into();
    for _ in 0..400 {
        step(&mut b, SUBSTEP);
    }
    assert!(pos(&b).x > float(screen().x1) - COLLIDE_RADIUS);

    b.set_portals(0); // the peer went away
    for _ in 0..2400 {
        step(&mut b, SUBSTEP);
    }
    assert!(b.all_finite());
    let bb = bbox(&b);
    assert!(
        float(bb.x1) <= float(screen().x1) + 1.0 && float(bb.x0) >= float(screen().x0) - 1.0,
        "the blob was left outside at {bb:?}"
    );
}

#[test]
fn the_balls_are_the_core_and_its_satellites() {
    let b = new_blob(screen());
    let balls = b.balls();
    assert_eq!(balls.len(), SAT_COUNT + 1);
    assert_eq!(balls[0].p, b.core.p);
    assert_eq!((balls[0].r.bits, balls[0].w.bits), (CORE_RADIUS, CORE_STRENGTH));
    assert_eq!((CORE_RADIUS, CORE_STRENGTH), (36.0f32.to_bits(), 1.0f32.to_bits()));
    for i in 0..SAT_COUNT {
        assert_eq!(balls[i + 1].p, b.sats[i].p);
        assert_eq!((balls[i + 1].r.bits, balls[i + 1].w.bits), (SAT_RADIUS, SAT_STRENGTH));
    }
    assert_eq!((SAT_RADIUS, SAT_STRENGTH), (24.0f32.to_bits(), 0.85f32.to_bits()));
}

#[test]
fn a_screen_narrower_than_the_blob_holds_it_in_the_middle() {
    let mut b = new_blob(Bounds::screen(single(100.0), single(1000.0)));
    b.core.v = v2(500.0, 500.0).into();
    let turn = turn_back(&b, Edge::Left);
    b.bounce_back(Edge::Left, &turn);
    for _ in 0..10 {
        step(&mut b, SUBSTEP);
        assert_eq!(pos(&b), v2(50.0, 500.0));
        assert!(!b.is_entering());
    }
}

#[test]
fn a_reset_blob_sits_still_in_the_middle() {
    let mut b = new_blob(screen());
    put(&mut b, v2(10.0, 10.0), v2(900.0, 0.0));
    let turn = turn_back(&b, Edge::Left);
    b.bounce_back(Edge::Left, &turn);
    reset(&mut b);
    assert_eq!(pos(&b), v2(960.0, 540.0));
    assert_eq!(vel(&b), v2(0.0, 0.0));
    assert!(!b.is_entering() && !b.is_grabbed() && !b.is_at_rest());
    assert_eq!(max_sat_dist(&b).round(), SAT_ORBIT);
}

#[test]
fn what_comes_in_over_an_edge_is_turned_and_hurried() {
    let put_in = |edge: Edge, v: V2| {
        let mut b = new_blob(screen());
        b.core.v = v.into();
        let turn = turn_back(&b, edge);
        b.bounce_back(edge, &turn);
        vel(&b)
    };
    // Outward comes back slower, but never slower than the entry speed.
    assert_eq!(put_in(Edge::Right, v2(1000.0, 30.0)), v2(-650.0, 30.0));
    assert_eq!(put_in(Edge::Left, v2(-1000.0, 30.0)), v2(650.0, 30.0));
    assert_eq!(put_in(Edge::Right, v2(100.0, 30.0)), v2(-150.0, 30.0));
    assert_eq!(put_in(Edge::Top, v2(7.0, 0.0)), v2(7.0, 150.0));
    // Inward and fast enough stays as it was; inward and slow is hurried.
    assert_eq!(put_in(Edge::Bottom, v2(7.0, -151.0)), v2(7.0, -151.0));
    assert_eq!(put_in(Edge::Bottom, v2(7.0, -149.0)), v2(7.0, -150.0));
    // An arrival that leads out is reflected whole, and nonsense counts as standing still.
    let b = arriving(screen(), Edge::Left, 0.5, v2(-400.0, 25.0), &[]);
    assert_eq!(vel(&b), v2(400.0, 25.0));
    let b = arriving(screen(), Edge::Top, 0.5, v2(f32::NAN, 25.0), &[]);
    assert_eq!(vel(&b), v2(0.0, 150.0));
    // A velocity that is infinite along the edge has no inward part to speak of.
    let skew = v2(-400.0, f32::INFINITY).into();
    assert!(!inward_speed(Edge::Left, skew).lt(single(0.0)));
    assert!(inward_speed(Edge::Left, v2(-400.0, 9.0).into()).lt(single(0.0)));
    assert_eq!((MIN_ENTRY_SPEED, MAX_THROW_SPEED), (150f32.to_bits(), 6000f32.to_bits()));
}

#[test]
fn a_throw_is_capped() {
    let (v, slowed) = (v2(9000.0, 0.0).into(), v2(6000.0, 0.0).into());
    assert_eq!(capped(v, single(9000.0), slowed), slowed);
    assert_eq!(capped(v, single(6000.0), slowed), v);
}

#[test]
fn a_crossing_is_a_fraction() {
    let b = new_blob(screen());
    let at = |extent: f32, part: f32| Fraction { extent: single(extent), part: single(part) };
    let (out, flat) = (at(1080.0, 1.25), at(0.001, 0.25));
    assert_eq!(float(b.along_edge(Edge::Left, &flat, &out)), 1.0);
    assert_eq!(float(b.along_edge(Edge::Bottom, &flat, &out)), 0.5);
    assert_eq!(float(b.along_edge(Edge::Top, &at(1920.0, -0.5), &out)), 0.0);
    assert_eq!(float(b.along_edge(Edge::Right, &flat, &at(0.0011, 0.25))), 0.25);
}

#[test]
fn a_hole_is_left_by_its_nearest_side_and_outward() {
    let hole = rect(100.0, 100.0, 300.0, 300.0);
    let put_out = |x: f32, y: f32| {
        let mut b = new_blob(screen());
        put(&mut b, v2(x, y), v2(40.0, 20.0));
        let depths = Depths {
            left: single(x - 100.0),
            right: single(300.0 - x),
            top: single(y - 100.0),
            bottom: single(300.0 - y),
        };
        let hit = b.leave_hole(&hole, &depths, rebound(b.core.v));
        (pos(&b), vel(&b), hit.map(|h| (h.from, float(h.speed))))
    };
    let (off_x, off_y) = (40.0 * RESTITUTION, 20.0 * RESTITUTION);
    assert_eq!(
        put_out(110.0, 200.0),
        (v2(100.0, 200.0), v2(-off_x, 20.0), Some((Edge::Right, 40.0)))
    );
    assert_eq!(
        put_out(290.0, 200.0),
        (v2(300.0, 200.0), v2(off_x, 20.0), Some((Edge::Left, 0.0)))
    );
    assert_eq!(
        put_out(200.0, 110.0),
        (v2(200.0, 100.0), v2(40.0, -off_y), Some((Edge::Bottom, 20.0)))
    );
    assert_eq!(
        put_out(200.0, 290.0),
        (v2(200.0, 300.0), v2(40.0, off_y), Some((Edge::Top, 0.0)))
    );
    assert_eq!(put_out(100.0, 200.0), (v2(100.0, 200.0), v2(40.0, 20.0), None));
}

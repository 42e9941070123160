//! The blobs on this screen, what the pointer does to them, and what the network does.

use crate::address::{Address, AddressView};
use crate::blob::{turned_back, Blob, BlobView, Walls};
use crate::desk::{visible, visible_bounds, Placement, World};
use crate::net::{NetEvent, NetEventView};
use crate::physics::{measured, Bounds, PointerTrack, Sample, Turn, Vec2};
use crate::region::{covered, hit_test, rect_ints};
use crate::single::Single;
use crate::text::{decimal, push_decimal};
use crate::wire::{Edge, Throw, ThrowView};
use vstd::prelude::*;

verus! {

/// Belt and braces: a throw whose thread never reports back at all is bounced after this
/// long, in nanoseconds. The socket paths all have their own, shorter deadlines.
pub const FLIGHT_TIMEOUT: u64 = 3_000_000_000;

/// A throw in progress.
#[derive(Debug)]
pub struct Flight {
    pub throw_id: u64,
    /// The edge it left by, so a refusal can be turned back into a bounce off that edge.
    pub edge: Edge,
    pub peer: String,
    /// When it was sent, in nanoseconds.
    pub sent: u64,
}

/// One blob on this screen, plus whatever the network is currently doing with it.
#[derive(Debug)]
pub struct Slot {
    pub blob: Blob,
    /// Set once the blob has gone through a door and we are waiting for the peer's receipt.
    /// Until that arrives the blob is still ours: still simulated, still drawn sliding off
    /// the edge, and still recoverable.
    pub flight: Option<Flight>,
}

/// Everything the event handler mutates.
#[derive(Debug)]
pub struct App {
    /// Blobs on this screen. Ordinarily one; more once machines start throwing them at
    /// each other. Newest last, which is also grab priority.
    pub blobs: Vec<Slot>,
    pub track: PointerTrack,
    pub cursor: Vec2,
    pub running: bool,
    /// Why the loop stopped, so an unexpected exit is never a silent mystery.
    pub quit_reason: &'static str,
    pub logical_w: u32,
    pub logical_h: u32,
    /// Where the window sits on the root, in screen pixels.
    pub origin: (i32, i32),
    /// The virtual screen.
    pub screen: (u32, u32),
    /// Whether the user has grabbed the blob yet. Until they have, the blob is still
    /// sitting where it was put, so it is safe to re-centre.
    pub touched: bool,
    /// The window is said to have moved or been resized; the real numbers are re-read.
    pub geometry_dirty: bool,
    /// Whether a click has to be tested against the blobs here. Where an input region
    /// decides which clicks arrive at all, a second test could only disagree with it.
    pub check_hit: bool,
    /// Edges that currently lead to a peer, so an arriving blob is given the same doors as
    /// everyone else.
    pub portals: u8,
}

/// What a [`Flight`] is.
pub struct FlightView {
    pub throw_id: u64,
    pub edge: Edge,
    pub peer: Seq<char>,
    pub sent: u64,
}

/// What a [`Slot`] holds.
pub struct SlotView {
    pub blob: BlobView,
    pub flight: Option<FlightView>,
}

/// What an [`App`] is.
pub struct AppView {
    pub blobs: Seq<SlotView>,
    pub track: Seq<Sample>,
    pub cursor: Vec2,
    pub running: bool,
    pub quit_reason: Seq<char>,
    pub logical: (u32, u32),
    pub origin: (i32, i32),
    pub screen: (u32, u32),
    pub touched: bool,
    pub geometry_dirty: bool,
    pub check_hit: bool,
    pub portals: u8,
}

impl View for Flight {
    type V = FlightView;

    open spec fn view(&self) -> FlightView {
        FlightView {
            throw_id: self.throw_id,
            edge: self.edge,
            peer: self.peer@,
            sent: self.sent,
        }
    }
}

impl View for Slot {
    type V = SlotView;

    open spec fn view(&self) -> SlotView {
        SlotView {
            blob: self.blob@,
            flight: match self.flight {
                Some(f) => Some(f@),
                None => None,
            },
        }
    }
}

/// What each slot of a list holds.
pub open spec fn slot_views(list: Seq<Slot>) -> Seq<SlotView> {
    list.map_values(|s: Slot| s@)
}

impl View for App {
    type V = AppView;

    open spec fn view(&self) -> AppView {
        AppView {
            blobs: slot_views(self.blobs@),
            track: self.track@,
            cursor: self.cursor,
            running: self.running,
            quit_reason: self.quit_reason@,
            logical: (self.logical_w, self.logical_h),
            origin: self.origin,
            screen: self.screen,
            touched: self.touched,
            geometry_dirty: self.geometry_dirty,
            check_hit: self.check_hit,
            portals: self.portals,
        }
    }
}

/// What is left to do once the window's place has been read.
#[derive(Copy, Clone, Debug, PartialEq, Eq, Structural)]
pub enum Relocation {
    Nothing,
    /// Work out the world anew and hand it to the blobs.
    Rebound,
    /// Do that, and put every blob back in the middle.
    Recentre,
}

/// What is known of one blob at the place where the pointer is: the rectangles that cover
/// the blob, and how deep inside its metal the pointer is.
#[derive(Debug)]
pub struct Probe {
    pub rects: Vec<(i32, i32, i32, i32)>,
    pub depth: Single,
}

/// Whether a slot's blob is here to be touched, and the pixel is on it.
pub open spec fn touched_at(s: SlotView, p: Probe, x: int, y: int) -> bool {
    s.flight is None && covered(rect_ints(p.rects@), x, y)
}

/// The last of the first `n` blobs that the pixel is on.
pub open spec fn topmost(
    blobs: Seq<SlotView>,
    probes: Seq<Probe>,
    x: int,
    y: int,
    n: int,
) -> Option<int>
    decreases n,
{
    if n <= 0 {
        None
    } else if touched_at(blobs[n - 1], probes[n - 1], x, y) {
        Some(n - 1)
    } else {
        topmost(blobs, probes, x, y, n - 1)
    }
}

/// The one of the first `n` blobs that the pointer is deepest inside; the last of those
/// where it is equally deep in several.
pub open spec fn deepest(blobs: Seq<SlotView>, probes: Seq<Probe>, n: int) -> Option<int>
    decreases n,
{
    if n <= 0 {
        None
    } else {
        let before = deepest(blobs, probes, n - 1);
        if blobs[n - 1].flight is Some {
            before
        } else {
            match before {
                Some(i) => if probes[i].depth.place() > probes[n - 1].depth.place() {
                    Some(i)
                } else {
                    Some(n - 1)
                },
                None => Some(n - 1),
            }
        }
    }
}

impl AppView {
    /// The blob that a click at a pixel belongs to. Where the input region has already
    /// decided that the pointer is on a blob, a miss means the region is a frame stale, and
    /// the click goes to the blob the pointer is deepest inside.
    pub open spec fn under(self, probes: Seq<Probe>, x: int, y: int) -> Option<int> {
        let n = self.blobs.len() as int;
        let top = topmost(self.blobs, probes, x, y, n);
        if top is Some || self.check_hit {
            top
        } else {
            deepest(self.blobs, probes, n)
        }
    }

    /// The first blob that is held.
    pub open spec fn held(self) -> Option<int> {
        first_held(self.blobs, 0)
    }

    /// The app after it has been told to stop.
    pub open spec fn stopped(self, why: Seq<char>) -> AppView {
        AppView { running: false, quit_reason: why, ..self }
    }

    /// The app after the pointer has been seen at a place.
    pub open spec fn pointed(self, at: Vec2) -> AppView {
        AppView { cursor: at, ..self }
    }

    /// The app after the pointer's place has been added to the track.
    pub open spec fn noted(self, t: u64, at: Vec2) -> AppView {
        AppView { track: crate::physics::kept(self.track.push(Sample { t, p: at }), t), ..self }
    }
}

/// The first blob from `i` on that is held.
pub open spec fn first_held(blobs: Seq<SlotView>, i: int) -> Option<int>
    decreases blobs.len() - i,
{
    if i < 0 || i >= blobs.len() {
        None
    } else if blobs[i].blob.grab is Some {
        Some(i)
    } else {
        first_held(blobs, i + 1)
    }
}

/// How many blobs are on this screen. A blob in flight has already left.
pub open spec fn residents(blobs: Seq<SlotView>) -> nat
    decreases blobs.len(),
{
    if blobs.len() == 0 {
        0
    } else {
        residents(blobs.drop_last()) + if blobs.last().flight is None {
            1nat
        } else {
            0
        }
    }
}

/// Whether nothing moves and nothing is in the post.
pub open spec fn all_idle(blobs: Seq<SlotView>) -> bool {
    forall|i: int|
        0 <= i < blobs.len() ==> (#[trigger] blobs[i]).flight is None && blobs[i].blob.idle()
}

impl AppView {
    /// The app at the start.
    pub open spec fn starting(
        blob: BlobView,
        at: Placement,
        screen: (u32, u32),
        check_hit: bool,
    ) -> AppView {
        AppView {
            blobs: seq![SlotView { blob, flight: None }],
            track: Seq::empty(),
            cursor: blob.core.p,
            running: true,
            quit_reason: "unknown"@,
            logical: (at.w, at.h),
            origin: (at.x, at.y),
            screen,
            touched: false,
            geometry_dirty: false,
            check_hit,
            portals: 0,
        }
    }

    /// The app with the pointer on its first blob.
    pub open spec fn following_first(self) -> AppView {
        if self.blobs.len() > 0 {
            self.pointed(self.blobs[0].blob.core.p)
        } else {
            self
        }
    }

    /// The app after the window has been found at a place, and what is left to do.
    pub open spec fn relocating(self, reported: Placement) -> (AppView, Relocation) {
        let was = Placement {
            x: self.origin.0,
            y: self.origin.1,
            w: self.logical.0,
            h: self.logical.1,
        };
        let seen = AppView { geometry_dirty: false, ..self };
        if !reported.sized() || reported == was {
            (seen, Relocation::Nothing)
        } else {
            (
                AppView {
                    origin: (reported.x, reported.y),
                    logical: (reported.w, reported.h),
                    ..seen
                },
                if self.touched {
                    Relocation::Rebound
                } else {
                    Relocation::Recentre
                },
            )
        }
    }

    /// The app with every blob in the world `b`.
    pub open spec fn in_world(self, b: Bounds) -> AppView {
        AppView {
            blobs: self.blobs.map_values(
                |s: SlotView| SlotView { blob: BlobView { bounds: b, ..s.blob }, ..s },
            ),
            ..self
        }
    }

    /// The app with these doors.
    pub open spec fn with_doors(self, mask: u8) -> AppView {
        AppView {
            portals: mask,
            blobs: self.blobs.map_values(
                |s: SlotView|
                    if s.flight is None {
                        SlotView { blob: BlobView { portals: mask, ..s.blob }, ..s }
                    } else {
                        s
                    },
            ),
            ..self
        }
    }

    /// The app after a frame in which the pointer stayed where it is.
    pub open spec fn fed(self, t: u64) -> AppView {
        if self.held() is Some {
            self.noted(t, self.cursor)
        } else {
            self
        }
    }

    /// The door that blob `i` has just left through, if it has not been sent already.
    pub open spec fn going(self, i: int, walls: Walls) -> Option<Edge> {
        if self.blobs[i].flight is Some {
            None
        } else {
            self.blobs[i].blob.departure(walls)
        }
    }
}

impl SlotView {
    /// The blob has left and is fully out of sight.
    pub open spec fn hidden(self, bb: Bounds) -> bool {
        self.flight is Some && self.blob.misses_screen(bb)
    }
}

impl App {
    /// The app at the start: one blob, at rest where it was put, in a window at `at`.
    pub fn new(blob: Blob, at: Placement, screen: (u32, u32), check_hit: bool) -> (r: App)
        ensures
            r@ == (AppView {
                blobs: seq![SlotView { blob: blob@, flight: None }],
                track: Seq::empty(),
                cursor: blob@.core.p,
                running: true,
                quit_reason: "unknown"@,
                logical: (at.w, at.h),
                origin: (at.x, at.y),
                screen,
                touched: false,
                geometry_dirty: false,
                check_hit,
                portals: 0,
            }),
            r@ == AppView::starting(blob@, at, screen, check_hit),
    {
        let cursor = blob.core.p;
        let ghost b = blob@;
        let mut blobs: Vec<Slot> = Vec::new();
        blobs.push(Slot { blob, flight: None });
        let r = App {
            blobs,
            track: PointerTrack::new(),
            cursor,
            running: true,
            quit_reason: "unknown",
            logical_w: at.w,
            logical_h: at.h,
            origin: (at.x, at.y),
            screen,
            touched: false,
            geometry_dirty: false,
            check_hit,
            portals: 0,
        };
        assert(r@.blobs =~= seq![SlotView { blob: b, flight: None }]);
        assert(r@.track =~= Seq::empty());
        r
    }

    /// Forget where the pointer was, now that the blobs have been put back in the middle: it
    /// counts as being on the first of them.
    pub fn follow_first(&mut self)
        ensures
            final(self)@ == (AppView {
                cursor: if old(self)@.blobs.len() > 0 {
                    old(self)@.blobs[0].blob.core.p
                } else {
                    old(self)@.cursor
                },
                ..old(self)@
            }),
            final(self)@ == old(self)@.following_first(),
    {
        if self.blobs.len() > 0 {
            assert(self@.blobs[0] == self.blobs@[0]@);
            self.cursor = self.blobs[0].blob.core.p;
        }
    }

    /// Take in where the window system says the window is. If that is news, the world has to
    /// be worked out anew; and if nobody has touched the blobs yet, they are put back in its
    /// middle.
    pub fn relocate(&mut self, reported: Placement) -> (r: Relocation)
        ensures
            ({
                let was = Placement {
                    x: old(self)@.origin.0,
                    y: old(self)@.origin.1,
                    w: old(self)@.logical.0,
                    h: old(self)@.logical.1,
                };
                if reported.sized() && reported != was {
                    &&& r == (if old(self)@.touched {
                        Relocation::Rebound
                    } else {
                        Relocation::Recentre
                    })
                    &&& final(self)@ == (AppView {
                        origin: (reported.x, reported.y),
                        logical: (reported.w, reported.h),
                        geometry_dirty: false,
                        ..old(self)@
                    })
                } else {
                    &&& r == Relocation::Nothing
                    &&& final(self)@ == (AppView { geometry_dirty: false, ..old(self)@ })
                }
            }),
            (final(self)@, r) == old(self)@.relocating(reported),
    {
        let was = Placement {
            x: self.origin.0,
            y: self.origin.1,
            w: self.logical_w,
            h: self.logical_h,
        };
        self.geometry_dirty = false;
        if !was.is_news(reported) {
            return Relocation::Nothing;
        }
        self.origin = (reported.x, reported.y);
        self.logical_w = reported.w;
        self.logical_h = reported.h;
        if self.touched {
            Relocation::Rebound
        } else {
            Relocation::Recentre
        }
    }

    /// Which blob is under a pixel, if any.
    pub fn blob_at(&self, probes: &Vec<Probe>, x: i32, y: i32) -> (r: Option<usize>)
        requires
            probes@.len() == self@.blobs.len(),
        ensures
            match r {
                Some(i) => i < self@.blobs.len() && self@.under(probes@, x as int, y as int)
                    == Some(i as int),
                None => self@.under(probes@, x as int, y as int) is None,
            },
    {
        let ghost all = slot_views(self.blobs@);
        let n: usize = self.blobs.len();
        let mut i: usize = n;
        while i > 0
            invariant
                i <= n,
                n == self.blobs@.len(),
                probes@.len() == n,
                all == slot_views(self.blobs@),
                topmost(all, probes@, x as int, y as int, n as int) == topmost(
                    all,
                    probes@,
                    x as int,
                    y as int,
                    i as int,
                ),
            decreases i,
        {
            i = i - 1;
            assert(all[i as int] == self.blobs@[i as int]@);
            if self.blobs[i].flight.is_none() && hit_test(&probes[i].rects, x as i64, y as i64) {
                return Some(i);
            }
        }
        if self.check_hit {
            return None;
        }
        let mut best: Option<usize> = None;
        let mut k: usize = 0;
        while k < n
            invariant
                k <= n,
                n == self.blobs@.len(),
                probes@.len() == n,
                all == slot_views(self.blobs@),
                match best {
                    Some(b) => b < k && deepest(all, probes@, k as int) == Some(b as int),
                    None => deepest(all, probes@, k as int) is None,
                },
            decreases n - k,
        {
            assert(all[k as int] == self.blobs@[k as int]@);
            if self.blobs[k].flight.is_none() {
                best = match best {
                    Some(b) => if probes[b].depth.after(probes[k].depth) {
                        Some(b)
                    } else {
                        Some(k)
                    },
                    None => Some(k),
                };
            }
            k = k + 1;
        }
        best
    }

    /// Which blob is held, if any.
    pub fn grabbed(&self) -> (r: Option<usize>)
        ensures
            match r {
                Some(i) => i < self@.blobs.len() && self@.held() == Some(i as int),
                None => self@.held() is None,
            },
    {
        let ghost all = slot_views(self.blobs@);
        let mut i: usize = 0;
        while i < self.blobs.len()
            invariant
                i <= self.blobs@.len(),
                all == slot_views(self.blobs@),
                first_held(all, 0) == first_held(all, i as int),
            decreases self.blobs@.len() - i,
        {
            assert(all[i as int] == self.blobs@[i as int]@);
            if self.blobs[i].blob.is_grabbed() {
                return Some(i);
            }
            i = i + 1;
        }
        None
    }

    /// Blobs actually on this screen, which is what the peer is told and what the capacity
    /// check uses.
    pub fn resident(&self) -> (r: usize)
        ensures
            r == residents(self@.blobs),
    {
        let ghost all = slot_views(self.blobs@);
        let mut n: usize = 0;
        let mut i: usize = 0;
        assert(all.take(0) =~= Seq::empty());
        while i < self.blobs.len()
            invariant
                i <= self.blobs@.len(),
                n <= i,
                all == slot_views(self.blobs@),
                n == residents(all.take(i as int)),
            decreases self.blobs@.len() - i,
        {
            assert(all.take(i + 1).drop_last() =~= all.take(i as int));
            assert(all.take(i + 1).last() == self.blobs@[i as int]@);
            if self.blobs[i].flight.is_none() {
                n = n + 1;
            }
            i = i + 1;
        }
        assert(all.take(i as int) =~= all);
        n
    }

    /// True when nothing is moving and nothing is in the post, so the frame rate can be
    /// throttled.
    pub fn at_rest(&self) -> (r: bool)
        ensures
            r == all_idle(self@.blobs),
    {
        let ghost all = slot_views(self.blobs@);
        let mut i: usize = 0;
        while i < self.blobs.len()
            invariant
                i <= self.blobs@.len(),
                all == slot_views(self.blobs@),
                forall|k: int|
                    0 <= k < i ==> (#[trigger] all[k]).flight is None && all[k].blob.idle(),
            decreases self.blobs@.len() - i,
        {
            assert(all[i as int] == self.blobs@[i as int]@);
            if self.blobs[i].flight.is_some() || !self.blobs[i].blob.is_at_rest() {
                assert(!(all[i as int].flight is None && all[i as int].blob.idle()));
                return false;
            }
            i = i + 1;
        }
        true
    }

    /// The blob's world, computed from where the window actually is.
    pub fn bounds(&self) -> (r: World)
        ensures
            (r.x0 as int, r.y0 as int, r.x1 as int, r.y1 as int) == visible(
                self@.origin,
                self@.logical,
                self@.screen,
            ),
    {
        visible_bounds(self.origin, (self.logical_w, self.logical_h), self.screen)
    }

    /// Give every blob the world `b`, after the window has moved or been resized.
    pub fn rebound(&mut self, b: Bounds)
        ensures
            final(self)@ == (AppView {
                blobs: old(self)@.blobs.map_values(
                    |s: SlotView| SlotView { blob: BlobView { bounds: b, ..s.blob }, ..s },
                ),
                ..old(self)@
            }),
            final(self)@ == old(self)@.in_world(b),
    {
        let ghost before = self@.blobs;
        let mut i: usize = 0;
        while i < self.blobs.len()
            invariant
                i <= self@.blobs.len(),
                self@ == (AppView { blobs: self@.blobs, ..old(self)@ }),
                before == old(self)@.blobs,
                self@.blobs.len() == before.len(),
                self@.blobs.len() == self.blobs@.len(),
                forall|k: int|
                    0 <= k < i ==> self@.blobs[k] == (SlotView {
                        blob: BlobView { bounds: b, ..before[k].blob },
                        ..before[k]
                    }),
                forall|k: int| i <= k < before.len() ==> self@.blobs[k] == before[k],
            decreases self.blobs@.len() - i,
        {
            let ghost now = self@.blobs;
            assert(now[i as int] == self.blobs@[i as int]@);
            self.blobs[i].blob.set_bounds(b);
            assert(self@.blobs =~= now.update(
                i as int,
                SlotView { blob: BlobView { bounds: b, ..before[i as int].blob }, ..before[i as int]
                },
            ));
            i = i + 1;
        }
        assert(self@.blobs =~= before.map_values(
            |s: SlotView| SlotView { blob: BlobView { bounds: b, ..s.blob }, ..s },
        ));
    }

    /// Open or close the doors. Called every frame: a peer appearing or vanishing changes
    /// an edge from a wall to a door and back. A blob already on its way out keeps its door
    /// even if the peer has just gone; closing it under a departing blob would strand it
    /// outside the screen with no wall to come back to.
    pub fn set_portals(&mut self, mask: u8)
        ensures
            final(self)@ == (AppView {
                portals: mask,
                blobs: old(self)@.blobs.map_values(
                    |s: SlotView|
                        if s.flight is None {
                            SlotView { blob: BlobView { portals: mask, ..s.blob }, ..s }
                        } else {
                            s
                        },
                ),
                ..old(self)@
            }),
            final(self)@ == old(self)@.with_doors(mask),
    {
        self.portals = mask;
        let ghost before = self@.blobs;
        let ghost f = |s: SlotView|
            if s.flight is None {
                SlotView { blob: BlobView { portals: mask, ..s.blob }, ..s }
            } else {
                s
            };
        let mut i: usize = 0;
        while i < self.blobs.len()
            invariant
                i <= self@.blobs.len(),
                self@ == (AppView { blobs: self@.blobs, portals: mask, ..old(self)@ }),
                before == old(self)@.blobs,
                f == (|s: SlotView|
                    if s.flight is None {
                        SlotView { blob: BlobView { portals: mask, ..s.blob }, ..s }
                    } else {
                        s
                    }),
                self@.blobs.len() == before.len(),
                self@.blobs.len() == self.blobs@.len(),
                forall|k: int| 0 <= k < i ==> self@.blobs[k] == f(before[k]),
                forall|k: int| i <= k < before.len() ==> self@.blobs[k] == before[k],
            decreases self.blobs@.len() - i,
        {
            let ghost now = self@.blobs;
            assert(now[i as int] == self.blobs@[i as int]@);
            if self.blobs[i].flight.is_none() {
                self.blobs[i].blob.set_portals(mask);
            }
            assert(self@.blobs =~= now.update(i as int, f(before[i as int])));
            i = i + 1;
        }
        assert(self@.blobs =~= before.map_values(f));
    }

    pub fn stop(&mut self, why: &'static str)
        ensures
            final(self)@ == old(self)@.stopped(why@),
    {
        self.running = false;
        self.quit_reason = why;
    }
}

// ---------------------------------------------------------------------------
// The pointer and the window
// ---------------------------------------------------------------------------

/// What the window system reports. Times are in nanoseconds; `at` is the pixel (`x`, `y`)
/// as a point.
#[derive(Copy, Clone, Debug, PartialEq, Eq, Structural)]
pub enum Input {
    /// The window was closed, or the process was asked to end.
    Quit,
    Escape,
    MiddleDown { x: i32, y: i32, at: Vec2 },
    LeftDown { x: i32, y: i32, at: Vec2, clicks: u8, t: u64 },
    LeftUp { at: Vec2, t: u64 },
    Motion { at: Vec2, t: u64 },
    Resized { w: i32, h: i32 },
    Moved,
    Other,
}

/// What is left to do after an input.
#[derive(Copy, Clone, Debug, PartialEq, Eq)]
pub enum Reaction {
    Nothing,
    /// Recentre this blob, and stop following the pointer outside the window.
    Reset(usize),
    /// Begin to drag this blob, and follow the pointer outside the window.
    Grab(usize),
    /// Let go of this blob with the velocity between these two samples, or at rest if
    /// there are none; if no blob was held, of nothing. Stop following the pointer.
    LetGo(Option<(usize, Option<(Sample, Sample)>)>),
    /// Work out the world anew and hand it to the blobs.
    Rebound,
}

/// What is left to do, in whole numbers.
pub enum ReactionView {
    Nothing,
    Reset(int),
    Grab(int),
    LetGo(Option<(int, Option<(Sample, Sample)>)>),
    Rebound,
}

impl View for Reaction {
    type V = ReactionView;

    open spec fn view(&self) -> ReactionView {
        match *self {
            Reaction::Nothing => ReactionView::Nothing,
            Reaction::Reset(i) => ReactionView::Reset(i as int),
            Reaction::Grab(i) => ReactionView::Grab(i as int),
            Reaction::LetGo(None) => ReactionView::LetGo(None),
            Reaction::LetGo(Some((i, span))) => ReactionView::LetGo(Some((i as int, span))),
            Reaction::Rebound => ReactionView::Rebound,
        }
    }
}

impl AppView {
    /// The app after a button press on blob `i`, and what is left to do: a second click
    /// resets the blob, a first one begins a drag.
    pub open spec fn pressing(self, i: int, at: Vec2, clicks: u8, t: u64) -> (
        AppView,
        ReactionView,
    ) {
        let begun = AppView { touched: true, track: Seq::empty(), ..self };
        if clicks >= 2 {
            (begun, ReactionView::Reset(i))
        } else {
            (begun.noted(t, at), ReactionView::Grab(i))
        }
    }

    /// The app after the button has been let go, and what is left to do.
    pub open spec fn letting_go(self, at: Vec2, t: u64) -> (AppView, ReactionView) {
        match self.held() {
            Some(i) => {
                let there = self.pointed(at).noted(t, at);
                (
                    AppView { track: Seq::empty(), ..there },
                    ReactionView::LetGo(Some((i, measured(there.track, t)))),
                )
            },
            None => (AppView { track: Seq::empty(), ..self }, ReactionView::LetGo(None)),
        }
    }

    /// The app after the pointer has moved.
    pub open spec fn moving(self, at: Vec2, t: u64) -> AppView {
        match self.held() {
            Some(i) => AppView {
                blobs: self.blobs.update(
                    i,
                    SlotView {
                        blob: BlobView {
                            grab_target: at,
                            still_for: Single { bits: 0 },
                            ..self.blobs[i].blob
                        },
                        ..self.blobs[i]
                    },
                ),
                ..self.pointed(at).noted(t, at)
            },
            None => self.pointed(at),
        }
    }

    /// The app after the window has been given a new size. Where the window is the world,
    /// the screen is that size too.
    pub open spec fn resized(self, w: i32, h: i32) -> AppView {
        AppView {
            logical: (w as u32, h as u32),
            screen: if self.check_hit {
                (w as u32, h as u32)
            } else {
                self.screen
            },
            geometry_dirty: true,
            ..self
        }
    }

    /// The app after an input, and what is left to do.
    pub open spec fn handling(self, ev: Input, probes: Seq<Probe>) -> (AppView, ReactionView) {
        match ev {
            Input::Quit => (
                self.stopped("SDL_QUIT (SIGINT/SIGTERM or window closed)"@),
                ReactionView::Nothing,
            ),
            Input::Escape => (self.stopped("Esc pressed"@), ReactionView::Nothing),
            Input::MiddleDown { x, y, at } => (
                if self.pointed(at).under(probes, x as int, y as int) is Some {
                    self.pointed(at).stopped("middle-click on the blob"@)
                } else {
                    self.pointed(at)
                },
                ReactionView::Nothing,
            ),
            Input::LeftDown { x, y, at, clicks, t } => match self.pointed(at).under(
                probes,
                x as int,
                y as int,
            ) {
                Some(i) => self.pointed(at).pressing(i, at, clicks, t),
                None => (self.pointed(at), ReactionView::Nothing),
            },
            Input::LeftUp { at, t } => self.letting_go(at, t),
            Input::Motion { at, t } => (self.moving(at, t), ReactionView::Nothing),
            Input::Resized { w, h } => if w > 0 && h > 0 {
                (self.resized(w, h), ReactionView::Rebound)
            } else {
                (self, ReactionView::Nothing)
            },
            Input::Moved => (AppView { geometry_dirty: true, ..self }, ReactionView::Nothing),
            Input::Other => (self, ReactionView::Nothing),
        }
    }
}

impl App {
    /// Take in what the window system reports. `probes` says of each blob how it lies under
    /// the pointer; it is looked at for a button press only.
    pub fn handle(&mut self, ev: Input, probes: &Vec<Probe>) -> (r: Reaction)
        requires
            ev is MiddleDown || ev is LeftDown ==> probes@.len() == old(self)@.blobs.len(),
        ensures
            (final(self)@, r@) == old(self)@.handling(ev, probes@),
    {
        match ev {
            Input::Quit => {
                self.stop("SDL_QUIT (SIGINT/SIGTERM or window closed)");
                Reaction::Nothing
            },
            Input::Escape => {
                self.stop("Esc pressed");
                Reaction::Nothing
            },
            Input::MiddleDown { x, y, at } => {
                self.cursor = at;
                if self.blob_at(probes, x, y).is_some() {
                    self.stop("middle-click on the blob");
                }
                Reaction::Nothing
            },
            Input::LeftDown { x, y, at, clicks, t } => {
                self.cursor = at;
                let i: usize = match self.blob_at(probes, x, y) {
                    Some(i) => i,
                    None => return Reaction::Nothing,
                };
                self.touched = true;
                self.track.clear();
                if clicks >= 2 {
                    Reaction::Reset(i)
                } else {
                    self.track.push(t, at);
                    Reaction::Grab(i)
                }
            },
            Input::LeftUp { at, t } => {
                let r = match self.grabbed() {
                    Some(i) => {
                        self.cursor = at;
                        self.track.push(t, at);
                        Reaction::LetGo(Some((i, self.track.span(t))))
                    },
                    None => Reaction::LetGo(None),
                };
                self.track.clear();
                r
            },
            Input::Motion { at, t } => {
                self.cursor = at;
                match self.grabbed() {
                    Some(i) => {
                        proof {
                            lemma_first_held(self@.blobs, 0);
                        }
                        let ghost before = self@.blobs;
                        assert(before[i as int] == self.blobs@[i as int]@);
                        self.track.push(t, at);
                        self.blobs[i].blob.drag_to(at);
                        assert(self@.blobs =~= old(self)@.moving(at, t).blobs);
                    },
                    None => {},
                }
                Reaction::Nothing
            },
            Input::Resized { w, h } => {
                if w > 0 && h > 0 {
                    self.logical_w = w as u32;
                    self.logical_h = h as u32;
                    if self.check_hit {
                        self.screen = (w as u32, h as u32);
                    }
                    self.geometry_dirty = true;
                    Reaction::Rebound
                } else {
                    Reaction::Nothing
                }
            },
            Input::Moved => {
                self.geometry_dirty = true;
                Reaction::Nothing
            },
            Input::Other => Reaction::Nothing,
        }
    }

    /// Keep feeding the throw estimator even when the pointer is not moving, so holding
    /// still for a moment before letting go really does drop the blob.
    pub fn feed_track(&mut self, t: u64)
        ensures
            final(self)@ == (if old(self)@.held() is Some {
                old(self)@.noted(t, old(self)@.cursor)
            } else {
                old(self)@
            }),
            final(self)@ == old(self)@.fed(t),
    {
        if self.grabbed().is_some() {
            self.track.push(t, self.cursor);
        }
    }
}

proof fn lemma_first_held(blobs: Seq<SlotView>, i: int)
    requires
        0 <= i,
    ensures
        first_held(blobs, i) matches Some(k) ==> i <= k < blobs.len() && blobs[k].blob.grab is Some,
    decreases blobs.len() - i,
{
    if i < blobs.len() && blobs[i].blob.grab is None {
        lemma_first_held(blobs, i + 1);
    }
}

// ---------------------------------------------------------------------------
// Throwing and catching
// ---------------------------------------------------------------------------

/// What the frame loop has to do about something that happened on the network.
#[derive(Debug)]
pub enum NetAction {
    Nothing,
    /// Make a blob of this throw, coming in at `entry`, and [`App::spawn`] it; the slot
    /// that was reserved for it is then used up.
    Spawn { throw: Throw, from: Address, entry: Edge },
    /// This throw did not connect, for this reason: [`App::bounce_flight`] it.
    Bounce { throw_id: u64, why: String },
    /// Print this.
    Say(String),
    /// Print this as a warning.
    Warn(String),
}

/// What a [`NetAction`] says.
pub enum NetActionView {
    Nothing,
    Spawn { throw: ThrowView, from: AddressView, entry: Edge },
    Bounce { throw_id: u64, why: Seq<char> },
    Say(Seq<char>),
    Warn(Seq<char>),
}

impl View for NetAction {
    type V = NetActionView;

    open spec fn view(&self) -> NetActionView {
        match *self {
            NetAction::Nothing => NetActionView::Nothing,
            NetAction::Spawn { throw, from, entry } => NetActionView::Spawn {
                throw: throw@,
                from: from@,
                entry,
            },
            NetAction::Bounce { throw_id, why } => NetActionView::Bounce { throw_id, why: why@ },
            NetAction::Say(text) => NetActionView::Say(text@),
            NetAction::Warn(text) => NetActionView::Warn(text@),
        }
    }
}

/// Whether a slot's blob is in flight as this throw.
pub open spec fn flies_as(s: SlotView, throw_id: u64) -> bool {
    s.flight matches Some(f) && f.throw_id == throw_id
}

/// The slots without those in flight as this throw.
pub open spec fn without(blobs: Seq<SlotView>, throw_id: u64) -> Seq<SlotView> {
    blobs.filter(|s: SlotView| !flies_as(s, throw_id))
}

/// The first slot from `i` on that is in flight as this throw.
pub open spec fn first_flying(blobs: Seq<SlotView>, throw_id: u64, i: int) -> Option<int>
    decreases blobs.len() - i,
{
    if i < 0 || i >= blobs.len() {
        None
    } else if flies_as(blobs[i], throw_id) {
        Some(i)
    } else {
        first_flying(blobs, throw_id, i + 1)
    }
}

/// The ids of the flights among the first `n` slots that have had no answer for too long.
pub open spec fn overdue(blobs: Seq<SlotView>, now: u64, n: int) -> Seq<u64>
    decreases n,
{
    if n <= 0 {
        Seq::empty()
    } else {
        let before = overdue(blobs, now, n - 1);
        match blobs[n - 1].flight {
            Some(f) => if now - f.sent > FLIGHT_TIMEOUT {
                before.push(f.throw_id)
            } else {
                before
            },
            None => before,
        }
    }
}

impl AppView {
    /// The app after something happened on the network, and what is left to do.
    pub open spec fn hearing(self, ev: NetEventView) -> (AppView, NetActionView) {
        match ev {
            NetEventView::Arrived { throw, from } => (
                self,
                NetActionView::Spawn { throw, from, entry: throw.edge.facing() },
            ),
            NetEventView::Landed { throw_id, peer } => (
                AppView { blobs: without(self.blobs, throw_id), ..self },
                if without(self.blobs, throw_id).len() < self.blobs.len() {
                    NetActionView::Say("[net] "@ + peer + " has it."@)
                } else {
                    NetActionView::Nothing
                },
            ),
            NetEventView::Refused { throw_id, peer, why } => (
                self,
                NetActionView::Bounce { throw_id, why: why.meaning() },
            ),
            NetEventView::Lost { throw_id, peer, why } => (
                self,
                NetActionView::Bounce { throw_id, why },
            ),
            NetEventView::PeerUp { name, addr, screen } => (
                self,
                NetActionView::Say(
                    "[net] "@ + name + " is here at "@ + addr.written() + " ("@ + decimal(
                        screen.0 as nat,
                    ) + "x"@ + decimal(screen.1 as nat)
                        + "). The edges that lead to it are doors now."@,
                ),
            ),
            NetEventView::PeerDown { name } => (
                self,
                NetActionView::Say("[net] "@ + name + " has gone."@),
            ),
            NetEventView::Note(text) => (self, NetActionView::Warn("[net] "@ + text)),
        }
    }

    /// The app after a blob has come in. It gets the same doors as everyone else.
    pub open spec fn with_arrival(self, b: BlobView) -> AppView {
        AppView {
            blobs: self.blobs.push(
                SlotView { blob: BlobView { portals: self.portals, ..b }, flight: None },
            ),
            touched: true,
            ..self
        }
    }

    /// Slot `i` with another slot in its place.
    pub open spec fn with_slot(self, i: int, s: SlotView) -> AppView {
        AppView { blobs: self.blobs.update(i, s), ..self }
    }

    /// The app after a blob that went through the door in `edge` has been sent, or, if
    /// nobody was there after all, has been turned back.
    pub open spec fn departed(
        self,
        i: int,
        edge: Edge,
        sent: Option<(u64, Seq<char>)>,
        turn: Turn,
        now: u64,
    ) -> AppView {
        match sent {
            Some((throw_id, peer)) => self.with_slot(
                i,
                SlotView {
                    flight: Some(FlightView { throw_id, edge, peer, sent: now }),
                    ..self.blobs[i]
                },
            ),
            None => self.with_slot(
                i,
                SlotView { blob: turned_back(self.blobs[i].blob, edge, turn), ..self.blobs[i] },
            ),
        }
    }

    /// The app after a throw that did not connect has been turned back into a bounce off
    /// the edge it left by.
    pub open spec fn bounced(self, i: int, turn: Turn) -> AppView {
        let left_by = (self.blobs[i].flight->0).edge;
        self.with_slot(
            i,
            SlotView { blob: turned_back(self.blobs[i].blob, left_by, turn), flight: None },
        )
    }
}

impl Slot {
    /// Whether the blob, whose box is `bb`, has left and is fully out of sight. Such a blob
    /// is neither moved nor drawn, so a throw that is slow to be answered does not coast
    /// away to infinity.
    pub fn is_hidden(&self, bb: &Bounds) -> (r: bool)
        ensures
            r == (self@.flight is Some && self@.blob.misses_screen(*bb)),
            r == self@.hidden(*bb),
    {
        self.flight.is_some() && self.blob.is_off_screen(bb)
    }
}

impl App {
    fn flying_as(&self, i: usize, throw_id: u64) -> (r: bool)
        requires
            i < self.blobs@.len(),
        ensures
            r == flies_as(self.blobs@[i as int]@, throw_id),
    {
        match &self.blobs[i].flight {
            Some(f) => f.throw_id == throw_id,
            None => false,
        }
    }

    /// The door that blob `i` has just left through, if it has not been sent already.
    pub fn departing(&self, i: usize, walls: &Walls) -> (r: Option<Edge>)
        requires
            i < self@.blobs.len(),
        ensures
            r == (if self@.blobs[i as int].flight is Some {
                None
            } else {
                self@.blobs[i as int].blob.departure(*walls)
            }),
            r == self@.going(i as int, *walls),
    {
        if self.blobs[i].flight.is_some() {
            return None;
        }
        self.blobs[i].blob.departing_edge(walls)
    }

    /// Blob `i` has gone through the door in `edge`. If it was sent, it is in flight now;
    /// if nobody was there after all, that edge is a wall again and the blob turns back.
    pub fn depart(
        &mut self,
        i: usize,
        edge: Edge,
        sent: Option<(u64, String)>,
        turn: &Turn,
        now: u64,
    )
        requires
            i < old(self)@.blobs.len(),
        ensures
            final(self)@ == old(self)@.departed(
                i as int,
                edge,
                match sent {
                    Some((id, peer)) => Some((id, peer@)),
                    None => None,
                },
                *turn,
                now,
            ),
    {
        let ghost before = self@.blobs;
        assert(before[i as int] == self.blobs@[i as int]@);
        match sent {
            Some((throw_id, peer)) => {
                self.blobs[i].flight = Some(Flight { throw_id, edge, peer, sent: now });
            },
            None => {
                self.blobs[i].blob.bounce_back(edge, turn);
            },
        }
        assert(self@.blobs =~= old(self)@.departed(
            i as int,
            edge,
            match sent {
                Some((id, peer)) => Some((id, peer@)),
                None => None,
            },
            *turn,
            now,
        ).blobs);
    }

    /// Which blob is in flight as this throw.
    pub fn find_flight(&self, throw_id: u64) -> (r: Option<usize>)
        ensures
            match r {
                Some(i) => i < self@.blobs.len() && first_flying(self@.blobs, throw_id, 0) == Some(
                    i as int,
                ) && flies_as(self@.blobs[i as int], throw_id),
                None => first_flying(self@.blobs, throw_id, 0) is None,
            },
    {
        let ghost all = slot_views(self.blobs@);
        let mut i: usize = 0;
        while i < self.blobs.len()
            invariant
                i <= self.blobs@.len(),
                all == slot_views(self.blobs@),
                first_flying(all, throw_id, 0) == first_flying(all, throw_id, i as int),
            decreases self.blobs@.len() - i,
        {
            assert(all[i as int] == self.blobs@[i as int]@);
            if self.flying_as(i, throw_id) {
                return Some(i);
            }
            i = i + 1;
        }
        None
    }

    /// Turn the throw of blob `i`, which did not connect for the reason given, back into a
    /// bounce off the edge it left by. Gives back what to print about it.
    pub fn bounce_flight(&mut self, i: usize, turn: &Turn, why: &str) -> (line: String)
        requires
            i < old(self)@.blobs.len(),
            old(self)@.blobs[i as int].flight is Some,
        ensures
            final(self)@ == old(self)@.bounced(i as int, *turn),
            line@ == "[net] the throw to "@ + (old(self)@.blobs[i as int].flight->0).peer
                + " did not connect ("@ + why@ + "); it bounced"@,
    {
        let ghost before = self@.blobs;
        assert(before[i as int] == self.blobs@[i as int]@);
        let mut line = String::from_str("[net] the throw to ");
        let mut left_by = Edge::Left;
        match &self.blobs[i].flight {
            Some(f) => {
                line.append(f.peer.as_str());
                left_by = f.edge;
            },
            None => {
                assert(false);
            },
        }
        line.append(" did not connect (");
        line.append(why);
        line.append("); it bounced");
        self.blobs[i].flight = None;
        self.blobs[i].blob.bounce_back(left_by, turn);
        assert(self@.blobs =~= old(self)@.bounced(i as int, *turn).blobs);
        line
    }

    /// Take in a blob that has arrived. It gets the same doors as everyone else.
    pub fn spawn(&mut self, blob: Blob)
        ensures
            final(self)@ == old(self)@.with_arrival(blob@),
    {
        let ghost before = self@.blobs;
        let mut b = blob;
        b.set_portals(self.portals);
        let ghost bv = b@;
        self.blobs.push(Slot { blob: b, flight: None });
        self.touched = true;
        assert(self@.blobs =~= before.push(SlotView { blob: bv, flight: None }));
    }

    /// Take in something that happened on the network.
    pub fn on_net_event(&mut self, ev: NetEvent) -> (r: NetAction)
        ensures
            (final(self)@, r@) == old(self)@.hearing(ev@),
    {
        match ev {
            NetEvent::Arrived { throw, from } => {
                // It has been acknowledged, so its sender has let go of it: it is ours now,
                // however many blobs there are.
                let entry = throw.edge.opposite();
                NetAction::Spawn { throw, from, entry }
            },
            NetEvent::Landed { throw_id, peer } => {
                let before: usize = self.blobs.len();
                self.remove_flights(throw_id);
                if self.blobs.len() < before {
                    let mut line = String::from_str("[net] ");
                    line.append(peer.as_str());
                    line.append(" has it.");
                    NetAction::Say(line)
                } else {
                    NetAction::Nothing
                }
            },
            NetEvent::Refused { throw_id, peer: _, why } => NetAction::Bounce {
                throw_id,
                why: String::from_str(why.explain()),
            },
            NetEvent::Lost { throw_id, peer: _, why } => NetAction::Bounce { throw_id, why },
            NetEvent::PeerUp { name, addr, screen } => {
                let mut line = String::from_str("[net] ");
                line.append(name.as_str());
                line.append(" is here at ");
                line.append(addr.text().as_str());
                line.append(" (");
                push_decimal(&mut line, screen.0 as u64);
                line.append("x");
                push_decimal(&mut line, screen.1 as u64);
                line.append("). The edges that lead to it are doors now.");
                NetAction::Say(line)
            },
            NetEvent::PeerDown { name } => {
                let mut line = String::from_str("[net] ");
                line.append(name.as_str());
                line.append(" has gone.");
                NetAction::Say(line)
            },
            NetEvent::Note(text) => {
                let mut line = String::from_str("[net] ");
                line.append(text.as_str());
                NetAction::Warn(line)
            },
        }
    }

    fn remove_flights(&mut self, throw_id: u64)
        ensures
            final(self)@ == (AppView { blobs: without(old(self)@.blobs, throw_id), ..old(self)@ }),
            final(self).blobs@.len() == final(self)@.blobs.len(),
    {
        let ghost all = self@.blobs;
        let ghost mut k: int = 0;
        let mut i: usize = 0;
        proof {
            reveal(Seq::filter);
            assert(without(all.take(0), throw_id) =~= Seq::empty());
            assert(all.skip(0) =~= all);
            assert(self@.blobs =~= without(all.take(k), throw_id) + all.skip(k));
        }
        while i < self.blobs.len()
            invariant
                0 <= k <= all.len(),
                i == without(all.take(k), throw_id).len(),
                self@ == (AppView { blobs: self@.blobs, ..old(self)@ }),
                self.blobs@.len() == self@.blobs.len(),
                self@.blobs == without(all.take(k), throw_id) + all.skip(k),
            decreases self.blobs@.len() - i,
        {
            let ghost done = without(all.take(k), throw_id);
            assert(self@.blobs[i as int] == all.skip(k)[0]);
            assert(self@.blobs[i as int] == self.blobs@[i as int]@);
            proof {
                reveal(Seq::filter);
                assert(all.take(k + 1).drop_last() =~= all.take(k));
                assert(all.take(k + 1).last() == all[k]);
            }
            if self.flying_as(i, throw_id) {
                let ghost before = self@.blobs;
                self.blobs.remove(i);
                assert(self@.blobs =~= before.remove(i as int));
                assert(self@.blobs =~= done + all.skip(k + 1));
            } else {
                assert(self@.blobs =~= done.push(all[k]) + all.skip(k + 1));
                i = i + 1;
            }
            proof {
                k = k + 1;
            }
        }
        assert(k == all.len());
        assert(all.take(k) =~= all);
        assert(self@.blobs =~= without(all, throw_id));
    }

    /// The throws whose thread never reported back at all. Every socket path has its own
    /// shorter deadline, but a blob stuck off-screen with no way home would be the worst
    /// possible bug to leave available.
    pub fn stalled(&self, now: u64) -> (out: Vec<u64>)
        ensures
            out@ == overdue(self@.blobs, now, self@.blobs.len() as int),
    {
        let ghost all = slot_views(self.blobs@);
        let mut out: Vec<u64> = Vec::new();
        let mut i: usize = 0;
        while i < self.blobs.len()
            invariant
                i <= self.blobs@.len(),
                all == slot_views(self.blobs@),
                out@ == overdue(all, now, i as int),
            decreases self.blobs@.len() - i,
        {
            assert(all[i as int] == self.blobs@[i as int]@);
            match &self.blobs[i].flight {
                Some(f) => {
                    if now.saturating_sub(f.sent) > FLIGHT_TIMEOUT {
                        out.push(f.throw_id);
                    }
                },
                None => {},
            }
            i = i + 1;
        }
        out
    }
}

} // verus!

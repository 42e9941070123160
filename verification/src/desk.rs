//! Where the window is, what part of it is visible, and how it came by its transparency.

use vstd::prelude::*;

verus! {

/// Twice the radius at which the blob collides, in pixels: a world narrower than this is
/// none.
pub const BLOB_SPAN: i64 = 150;

/// Frames to ask for the window's real geometry before trusting events alone.
pub const GEOMETRY_POLL_FRAMES: u32 = 90;

/// Frames to draw before a picture is taken, so that the shader can settle.
pub const CAPTURE_AFTER: u64 = 3;

/// How often to ask for the whole screen before accepting what we have.
pub const MAX_GEOMETRY_FIXUPS: u32 = 10;

/// A rectangle of whole pixels, `x0..x1` / `y0..y1`.
#[derive(Copy, Clone, Debug, PartialEq, Eq, Structural)]
pub struct World {
    pub x0: i64,
    pub y0: i64,
    pub x1: i64,
    pub y1: i64,
}

/// An unsigned number read as a signed one of the same bits.
pub open spec fn as_signed(n: u32) -> int {
    if n < 0x8000_0000 {
        n as int
    } else {
        n - 0x1_0000_0000
    }
}

pub(crate) fn signed(n: u32) -> (r: i64)
    ensures
        r == as_signed(n),
{
    if n < 0x8000_0000 {
        n as i64
    } else {
        n as i64 - 0x1_0000_0000
    }
}

/// The smaller of two numbers.
pub open spec fn least(a: int, b: int) -> int {
    if a <= b {
        a
    } else {
        b
    }
}

/// The larger of two numbers.
pub open spec fn most(a: int, b: int) -> int {
    if a >= b {
        a
    } else {
        b
    }
}

/// Left, top, right and bottom of the part of the window that is on screen; of the whole
/// window if that is too small for a blob.
pub open spec fn visible(origin: (i32, i32), win: (u32, u32), screen: (u32, u32)) -> (
    int,
    int,
    int,
    int,
) {
    let x0 = most(-origin.0, 0);
    let y0 = most(-origin.1, 0);
    let x1 = least(as_signed(screen.0) - origin.0, as_signed(win.0));
    let y1 = least(as_signed(screen.1) - origin.1, as_signed(win.1));
    if x1 - x0 < BLOB_SPAN || y1 - y0 < BLOB_SPAN {
        (0, 0, win.0 as int, win.1 as int)
    } else {
        (x0, y0, x1, y1)
    }
}

/// The blob's world: the part of the window that is actually on screen, in
/// window-relative pixels.
///
/// Rendering and pointer coordinates are both window-relative, so confining the blob to
/// this rectangle keeps it visible and grabbable no matter where the window manager
/// decided to put the window. A degenerate intersection would leave the blob nowhere to
/// live; then it is the whole window.
pub fn visible_bounds(origin: (i32, i32), win: (u32, u32), screen: (u32, u32)) -> (r: World)
    ensures
        (r.x0 as int, r.y0 as int, r.x1 as int, r.y1 as int) == visible(origin, win, screen),
{
    let x0: i64 = if origin.0 < 0 {
        -(origin.0 as i64)
    } else {
        0
    };
    let y0: i64 = if origin.1 < 0 {
        -(origin.1 as i64)
    } else {
        0
    };
    let right: i64 = signed(screen.0) - origin.0 as i64;
    let bottom: i64 = signed(screen.1) - origin.1 as i64;
    let x1: i64 = if right <= signed(win.0) {
        right
    } else {
        signed(win.0)
    };
    let y1: i64 = if bottom <= signed(win.1) {
        bottom
    } else {
        signed(win.1)
    };
    if x1 - x0 < BLOB_SPAN || y1 - y0 < BLOB_SPAN {
        World { x0: 0, y0: 0, x1: win.0 as i64, y1: win.1 as i64 }
    } else {
        World { x0, y0, x1, y1 }
    }
}

/// A window that sits exactly over the screen is its own world.
pub proof fn law_a_full_screen_window_is_the_world(win: (u32, u32))
    requires
        win.0 < 0x8000_0000 && win.1 < 0x8000_0000,
    ensures
        visible((0, 0), win, win) == (0int, 0int, win.0 as int, win.1 as int),
{
}

/// The blob's world lies within the window, and on the screen unless the part that does is
/// too small for a blob.
pub proof fn law_the_world_is_visible(origin: (i32, i32), win: (u32, u32), screen: (u32, u32))
    requires
        win.0 < 0x8000_0000 && win.1 < 0x8000_0000,
        screen.0 < 0x8000_0000 && screen.1 < 0x8000_0000,
    ensures
        ({
            let (x0, y0, x1, y1) = visible(origin, win, screen);
            &&& 0 <= x0 && 0 <= y0 && x1 <= win.0 && y1 <= win.1
            &&& (x0, y0, x1, y1) == (0int, 0int, win.0 as int, win.1 as int) || (0 <= origin.0 + x0
                && 0 <= origin.1 + y0 && origin.0 + x1 <= screen.0 && origin.1 + y1 <= screen.1)
        }),
{
}

/// Where the window is on the screen and how large.
#[derive(Copy, Clone, Debug, PartialEq, Eq, Structural)]
pub struct Placement {
    pub x: i32,
    pub y: i32,
    pub w: u32,
    pub h: u32,
}

impl Placement {
    /// Whether this is a window at all.
    pub open spec fn sized(self) -> bool {
        self.w > 0 && self.h > 0
    }

    /// The placement to go on with, given what the window system says of it.
    pub open spec fn trusting(self, reported: Option<Placement>) -> Placement {
        match reported {
            Some(p) => if p.sized() {
                p
            } else {
                self
            },
            None => self,
        }
    }

    /// What the window system says is news.
    pub open spec fn surprised(self, reported: Placement) -> bool {
        reported.sized() && reported != self
    }

    /// The placement to go on with, given what the window system says of it, if it says
    /// anything: its word counts over ours.
    pub fn trust(self, reported: Option<Placement>) -> (r: Placement)
        ensures
            r == self.trusting(reported),
            r == (match reported {
                Some(p) => if p.sized() {
                    p
                } else {
                    self
                },
                None => self,
            }),
    {
        match reported {
            Some(p) => if p.w > 0 && p.h > 0 {
                p
            } else {
                self
            },
            None => self,
        }
    }

    /// Whether what the window system says is news.
    pub fn is_news(self, reported: Placement) -> (r: bool)
        ensures
            r == (reported.sized() && reported != self),
            r == self.surprised(reported),
    {
        reported.w > 0 && reported.h > 0 && !(reported.x == self.x && reported.y == self.y
            && reported.w == self.w && reported.h == self.h)
    }
}

/// What to do about a window that is not where it was asked to be.
#[derive(Copy, Clone, Debug, PartialEq, Eq, Structural)]
pub enum Fixup {
    /// Nothing.
    Leave,
    /// Ask for the whole screen again.
    Ask,
    /// Ask for the last time, and say so.
    AskLast,
}

/// How often the window's geometry has been asked for and asked to change.
#[derive(Copy, Clone, Debug, PartialEq, Eq, Structural)]
pub struct GeometryWatch {
    pub polls: u32,
    pub fixups: u32,
}

impl GeometryWatch {
    pub fn new() -> (r: GeometryWatch)
        ensures
            r.polls == 0 && r.fixups == 0,
    {
        GeometryWatch { polls: 0, fixups: 0 }
    }

    /// Whether the geometry is asked for, and the watch after that: for a short while after
    /// start-up, and thereafter only when something is said to have changed.
    pub open spec fn polling(self, dirty: bool) -> (GeometryWatch, bool) {
        if self.polls < GEOMETRY_POLL_FRAMES || dirty {
            (
                GeometryWatch {
                    polls: if self.polls < u32::MAX {
                        (self.polls + 1) as u32
                    } else {
                        self.polls
                    },
                    ..self
                },
                true,
            )
        } else {
            (self, false)
        }
    }

    /// What to do about a window whose corner is at `origin`, and the watch after that: it
    /// is asked to move a handful of times, and then it is left where it is.
    pub open spec fn fixing(self, origin: (i32, i32)) -> (GeometryWatch, Fixup) {
        if origin != (0i32, 0i32) && self.fixups < MAX_GEOMETRY_FIXUPS {
            (
                GeometryWatch { fixups: (self.fixups + 1) as u32, ..self },
                if self.fixups + 1 == MAX_GEOMETRY_FIXUPS {
                    Fixup::AskLast
                } else {
                    Fixup::Ask
                },
            )
        } else {
            (self, Fixup::Leave)
        }
    }

    /// Whether to ask for the geometry this frame.
    pub fn poll_due(&mut self, dirty: bool) -> (r: bool)
        ensures
            (*final(self), r) == old(self).polling(dirty),
    {
        if self.polls < GEOMETRY_POLL_FRAMES || dirty {
            self.polls = self.polls.saturating_add(1);
            true
        } else {
            false
        }
    }

    /// What to do about a window whose corner is at `origin`.
    pub fn fixup(&mut self, origin: (i32, i32)) -> (r: Fixup)
        ensures
            (*final(self), r) == old(self).fixing(origin),
    {
        if (origin.0 != 0 || origin.1 != 0) && self.fixups < MAX_GEOMETRY_FIXUPS {
            self.fixups = self.fixups + 1;
            if self.fixups == MAX_GEOMETRY_FIXUPS {
                Fixup::AskLast
            } else {
                Fixup::Ask
            }
        } else {
            Fixup::Leave
        }
    }
}

/// How often the window is asked to move while it is seen at these places one after the
/// other.
pub open spec fn times_asked(w: GeometryWatch, origins: Seq<(i32, i32)>) -> nat
    decreases origins.len(),
{
    if origins.len() == 0 {
        0
    } else {
        let (next, fixup) = w.fixing(origins[0]);
        times_asked(next, origins.skip(1)) + if fixup == Fixup::Leave {
            0nat
        } else {
            1
        }
    }
}

/// The window manager is asked to move the window a handful of times in all, however long it
/// insists, and not at all while the window is where it was asked to be.
pub proof fn law_the_window_is_asked_to_move_a_handful_of_times(
    w: GeometryWatch,
    origins: Seq<(i32, i32)>,
)
    requires
        w.fixups <= MAX_GEOMETRY_FIXUPS,
    ensures
        w.fixups + times_asked(w, origins) <= MAX_GEOMETRY_FIXUPS,
        (forall|i: int| 0 <= i < origins.len() ==> origins[i] == (0i32, 0i32)) ==> times_asked(
            w,
            origins,
        ) == 0,
    decreases origins.len(),
{
    if origins.len() > 0 {
        law_the_window_is_asked_to_move_a_handful_of_times(
            w.fixing(origins[0]).0,
            origins.skip(1),
        );
    }
}

// ---------------------------------------------------------------------------
// Transparency
// ---------------------------------------------------------------------------

/// Which kind of GL context to ask for.
#[derive(Clone, Copy, Debug, PartialEq, Eq, Structural)]
pub enum CtxKind {
    /// An explicit 3.3 core context, which may not agree with a forced visual.
    Core33,
    /// No profile mask and a pre-3.0 version: built from the window's own visual, so it
    /// always agrees with a forced one.
    LegacyCompat,
}

/// One strategy for obtaining a window plus a GL context that agree with each other.
#[derive(Clone, Copy, Debug)]
pub struct GlAttempt {
    pub visual: Option<u32>,
    pub ctx: CtxKind,
    pub label: &'static str,
}

/// Whether an attempt asks for just this.
pub open spec fn asks(a: GlAttempt, visual: Option<u32>, ctx: CtxKind, label: Seq<char>) -> bool {
    a.visual == visual && a.ctx == ctx && a.label@ == label
}

/// The strategies to try, in order. Where the visual decides about transparency, the ARGB
/// visual comes first with either kind of context; what SDL picks by itself is the last
/// resort, and the only one elsewhere.
pub fn gl_attempts(visual_matters: bool, argb_visual: Option<u32>) -> (out: Vec<GlAttempt>)
    ensures
        visual_matters ==> {
            &&& out@.len() == 3
            &&& asks(
                out@[0],
                argb_visual,
                CtxKind::Core33,
                "ARGB visual + 3.3 core context"@,
            )
            &&& asks(
                out@[1],
                argb_visual,
                CtxKind::LegacyCompat,
                "ARGB visual + compatibility context"@,
            )
            &&& asks(
                out@[2],
                None,
                CtxKind::Core33,
                "SDL's own visual + 3.3 core context"@,
            )
        },
        !visual_matters ==> out@.len() == 1 && asks(
            out@[0],
            None,
            CtxKind::Core33,
            "SDL's own visual + 3.3 core context"@,
        ),
{
    let mut out: Vec<GlAttempt> = Vec::new();
    if visual_matters {
        out.push(
            GlAttempt {
                visual: argb_visual,
                ctx: CtxKind::Core33,
                label: "ARGB visual + 3.3 core context",
            },
        );
        out.push(
            GlAttempt {
                visual: argb_visual,
                ctx: CtxKind::LegacyCompat,
                label: "ARGB visual + compatibility context",
            },
        );
    }
    out.push(
        GlAttempt {
            visual: None,
            ctx: CtxKind::Core33,
            label: "SDL's own visual + 3.3 core context",
        },
    );
    out
}

/// What to do with a window that has been built.
#[derive(Clone, Copy, Debug, PartialEq, Eq, Structural)]
pub enum Fate {
    Keep,
    /// Keep it, and warn that it has no alpha channel.
    KeepOpaque,
    /// Try the next strategy.
    Discard,
}

/// What is done with a window of this depth.
pub open spec fn judged(depth: u8, is_last: bool, overlay: bool) -> Fate {
    if depth == 32 {
        Fate::Keep
    } else if !is_last {
        Fate::Discard
    } else if overlay {
        Fate::KeepOpaque
    } else {
        Fate::Keep
    }
}

/// What to do with a window of this depth. Depth 32 is the only thing that gives the
/// overlay an alpha channel; the last window there is to be had is kept in any case.
pub fn judge_window(depth: u8, is_last: bool, overlay: bool) -> (r: Fate)
    ensures
        r == judged(depth, is_last, overlay),
        r == (if depth == 32 {
            Fate::Keep
        } else if !is_last {
            Fate::Discard
        } else if overlay {
            Fate::KeepOpaque
        } else {
            Fate::Keep
        }),
{
    if depth == 32 {
        Fate::Keep
    } else if !is_last {
        Fate::Discard
    } else if overlay {
        Fate::KeepOpaque
    } else {
        Fate::Keep
    }
}

/// Whether the input region still has to be read back off the server.
#[derive(Copy, Clone, Debug, PartialEq, Eq, Structural)]
pub struct RegionCheck {
    pub due: bool,
}

impl RegionCheck {
    /// Nothing has been read back yet.
    pub fn new() -> (r: RegionCheck)
        ensures
            r.due,
    {
        RegionCheck { due: true }
    }

    /// The window has moved: what was read back says nothing any more.
    pub fn moved(&mut self)
        ensures
            final(self).due,
    {
        self.due = true;
    }

    /// A frame has been through the input region, which was sent or, as nothing had changed,
    /// was not. True if it is to be read back now: once, the first time that it is sent,
    /// rather than assuming that the request landed.
    pub fn after_update(&mut self, sent: bool) -> (r: bool)
        ensures
            r == (old(self).due && sent),
            final(self).due == (old(self).due && !sent),
    {
        let r = self.due && sent;
        if r {
            self.due = false;
        }
        r
    }
}

/// Whether the picture is to be taken on this frame, after `frames` others.
pub fn capture_due(frames: u64) -> (r: bool)
    ensures
        r == (frames >= CAPTURE_AFTER),
        r == (frames > 2),
{
    frames >= CAPTURE_AFTER
}

/// The blob's world is exactly what shows of the window: a pixel of the window is in it if
/// and only if it is on the screen, as long as that leaves 150 pixels each way, and
/// otherwise all of the window is.
pub proof fn law_the_world_is_all_that_shows(
    origin: (i32, i32),
    win: (u32, u32),
    screen: (u32, u32),
    x: int,
    y: int,
)
    requires
        win.0 < 0x8000_0000 && win.1 < 0x8000_0000,
        screen.0 < 0x8000_0000 && screen.1 < 0x8000_0000,
    ensures
        ({
            let (x0, y0, x1, y1) = visible(origin, win, screen);
            let left = if origin.0 < 0 { -origin.0 } else { 0 };
            let top = if origin.1 < 0 { -origin.1 } else { 0 };
            let right = if origin.0 + win.0 <= screen.0 { win.0 as int } else { screen.0 - origin.0 };
            let bottom = if origin.1 + win.1 <= screen.1 { win.1 as int } else {
                screen.1 - origin.1
            };
            let in_window = 0 <= x < win.0 && 0 <= y < win.1;
            let on_screen = 0 <= origin.0 + x < screen.0 && 0 <= origin.1 + y < screen.1;
            let roomy = right - left >= 150 && bottom - top >= 150;
            (x0 <= x < x1 && y0 <= y < y1) <==> in_window && (on_screen || !roomy)
        }),
{
}

/// What the window system says of a window counts, if it says that there is one; and it is
/// news if it is not what was known.
pub proof fn law_the_window_system_is_believed(own: Placement, reported: Placement)
    ensures
        own.trusting(None) == own,
        reported.w > 0 && reported.h > 0 ==> own.trusting(Some(reported)) == reported,
        reported.w == 0 || reported.h == 0 ==> own.trusting(Some(reported)) == own,
        own.surprised(reported) <==> own.trusting(Some(reported)) != own,
{
}

/// The geometry is asked for in each of the first 90 frames, and after that when something
/// is said to have changed; each time is counted, and nothing else is.
pub proof fn law_the_geometry_is_polled_at_first(w: GeometryWatch, dirty: bool)
    ensures
        w.polling(dirty).1 <==> w.polls < 90 || dirty,
        w.polling(dirty).1 && w.polls < u32::MAX ==> w.polling(dirty).0.polls == w.polls + 1,
        !w.polling(dirty).1 ==> w.polling(dirty).0.polls == w.polls,
        w.polling(dirty).0.fixups == w.fixups,
{
}

/// A window that is off the corner of the screen is asked to move ten times, the tenth time
/// being the last; one in the corner never is.
pub proof fn law_a_window_off_the_corner_is_asked_to_move(w: GeometryWatch, origin: (i32, i32))
    ensures
        ({
            let (next, fixup) = w.fixing(origin);
            let off = origin.0 != 0 || origin.1 != 0;
            &&& fixup == Fixup::Leave <==> !off || w.fixups >= 10
            &&& fixup == Fixup::AskLast <==> off && w.fixups == 9
            &&& next.fixups == w.fixups + (if fixup == Fixup::Leave { 0int } else { 1 })
            &&& next.polls == w.polls
        }),
{
}

/// A window with an alpha channel is kept, and so is the last one there is, with a warning
/// if it was to be an overlay; any other is thrown away.
pub proof fn law_a_window_with_alpha_is_kept(depth: u8, is_last: bool, overlay: bool)
    ensures
        judged(depth, is_last, overlay) == Fate::Discard <==> depth != 32 && !is_last,
        judged(depth, is_last, overlay) == Fate::KeepOpaque <==> depth != 32 && is_last && overlay,
{
}

} // verus!

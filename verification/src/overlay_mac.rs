//! The macOS overlay: what it remembers of its window and when it says what to Cocoa.
//!
//! There is no input region on macOS: a window ignores the mouse as a whole or not at all.
//! So the region is emulated. Every frame the pointer is compared against the rectangles
//! that cover the metal, and the window is switched between "swallows clicks" and
//! "invisible to the mouse" accordingly.

use crate::overlay::{
    countable, cut, cut_rects, desktop_hull, display_lines, display_views, ends_fit, hull,
    is_pointer_on, line_views, placed_size, pointer_on, push_display_lines, push_line,
    push_placed_size, DisplayInfo, DisplayView, Line,
};
use crate::desk::most;
use crate::region::rect_ints;
use crate::text::{prefixed_hex, push_prefixed_hex, quote, quoted, same_text};
use vstd::prelude::*;

verus! {

/// `NSStatusWindowLevel`. High enough to float above ordinary windows *and* the menu bar,
/// which is what makes the overlay cover the whole screen.
pub const WINDOW_LEVEL: i64 = 25;

/// `NSWindowCollectionBehaviorCanJoinAllSpaces | Stationary | FullScreenAuxiliary`.
pub const COLLECTION_BEHAVIOR: u64 = 0x111;

/// Frame budget while the blob is asleep, in milliseconds. While the window is ignoring the
/// mouse it receives no events whatsoever, so the only way to notice the pointer is to
/// look, and this is how often.
pub const IDLE_WAIT_MS: u32 = 30;

/// There is no input region, so the local hit test is not redundant here.
pub const REGION_IS_THE_HIT_TEST: bool = false;

/// Cocoa composites every window; there is no visual to choose.
pub const NEEDS_VISUAL_STRATEGY: bool = false;

/// The SDL video driver this overlay can actually work with.
pub const REQUIRED_VIDEO_DRIVER: &'static str = "cocoa";

/// Nothing to arrange before SDL starts.
pub fn prepare_process_environment() {
}

/// What is wrong with running under this video driver.
pub open spec fn wrong_driver(driver: Seq<char>) -> Seq<char> {
    "SDL chose the "@ + quoted(driver) + " video driver, but the macOS overlay needs "@ + quoted(
        "cocoa"@,
    )
        + ".\nThe overlay sends Objective-C messages to the NSWindow behind the SDL window, which only exists on the Cocoa backend."@
}

pub fn check_video_driver(driver: &str) -> (r: Result<(), String>)
    ensures
        match r {
            Ok(()) => driver@ == "cocoa"@,
            Err(e) => driver@ != "cocoa"@ && e@ == wrong_driver(driver@),
        },
{
    if same_text(driver, "cocoa") {
        return Ok(());
    }
    let mut e = String::from_str("SDL chose the ");
    e.append(quote(driver).as_str());
    e.append(" video driver, but the macOS overlay needs ");
    e.append(quote("cocoa").as_str());
    e.append(
        ".\nThe overlay sends Objective-C messages to the NSWindow behind the SDL window, which only exists on the Cocoa backend.",
    );
    Err(e)
}

/// How many of the moments at which transparency is re-asserted have come, this many
/// milliseconds after the window was shown.
///
/// The surface is not rebuilt against the new window state until the window has actually
/// been presented a few times, so transparency applied before the first frame is applied
/// to nothing. Re-asserting on a short schedule covers whatever the threshold is.
pub open spec fn reasserts_by(elapsed: nat) -> nat {
    if elapsed >= 4000 {
        5
    } else if elapsed >= 2000 {
        4
    } else if elapsed >= 1000 {
        3
    } else if elapsed >= 500 {
        2
    } else if elapsed >= 200 {
        1
    } else {
        0
    }
}

fn count_reasserts(elapsed: u64) -> (r: u32)
    ensures
        r == reasserts_by(elapsed as nat),
{
    if elapsed >= 4000 {
        5
    } else if elapsed >= 2000 {
        4
    } else if elapsed >= 1000 {
        3
    } else if elapsed >= 500 {
        2
    } else if elapsed >= 200 {
        1
    } else {
        0
    }
}

/// Whether frame number `n` after the window was shown is one on which to ask for the full
/// desktop again: the request made at creation is the one most likely to be refused.
pub open spec fn asks_again(n: nat) -> bool {
    n == 1 || n == 3 || n == 10 || n == 30
}

/// What a frame asks of Cocoa.
#[derive(Copy, Clone, Debug, PartialEq, Eq, Structural)]
pub struct FrameWork {
    /// How many times to apply the overlay properties and the surface opacity.
    pub reasserts: u32,
    /// Whether to ask for the full desktop.
    pub geometry: bool,
    /// Whether to read the window's frame and note it.
    pub read_frame: bool,
}

/// The window and what has been done to it.
#[derive(Debug)]
pub struct Mac {
    /// The `NSWindow *`; zero until there is one.
    pub ns_window: u64,
    /// The overlay's world, in SDL's global desktop coordinates: one display by default,
    /// the union of every display where the overlay spans them. The origin can be negative
    /// when a display sits left of or above the primary one.
    pub origin: (i32, i32),
    pub size: (u32, u32),
    pub displays: Vec<DisplayInfo>,
    /// Whether the window is currently ignoring the mouse.
    pub click_through: bool,
    /// Last rectangle cover the pointer was tested against.
    pub rects: Vec<(i32, i32, i32, i32)>,
    /// Set once the surface opacity has been applied.
    pub surface_made_transparent: bool,
    /// When the window was shown, in nanoseconds.
    pub shown_at: Option<u64>,
    /// How many of the scheduled re-assertions are done.
    pub reasserts_done: u32,
    /// The window's real top-left in SDL's global desktop coordinates, as last read back
    /// from Cocoa.
    pub window_origin: (i32, i32),
    /// Frames since the window was shown.
    pub geometry_frames: u32,
    /// There is no visual to choose on macOS.
    pub argb_visual: Option<u32>,
}

/// What a [`Mac`] is.
pub struct MacView {
    pub ns_window: u64,
    pub origin: (i32, i32),
    pub size: (u32, u32),
    pub displays: Seq<DisplayView>,
    pub click_through: bool,
    pub rects: Seq<(i32, i32, i32, i32)>,
    pub surface_made_transparent: bool,
    pub shown_at: Option<u64>,
    pub reasserts_done: u32,
    pub window_origin: (i32, i32),
    pub geometry_frames: u32,
    pub argb_visual: Option<u32>,
}

impl View for Mac {
    type V = MacView;

    open spec fn view(&self) -> MacView {
        MacView {
            ns_window: self.ns_window,
            origin: self.origin,
            size: self.size,
            displays: display_views(self.displays@),
            click_through: self.click_through,
            rects: self.rects@,
            surface_made_transparent: self.surface_made_transparent,
            shown_at: self.shown_at,
            reasserts_done: self.reasserts_done,
            window_origin: self.window_origin,
            geometry_frames: self.geometry_frames,
            argb_visual: self.argb_visual,
        }
    }
}

/// The first primary display from number `i` on.
pub open spec fn primary_from(list: Seq<DisplayView>, i: int) -> Option<int>
    decreases list.len() - i,
{
    if i < 0 || i >= list.len() {
        None
    } else if list[i].primary {
        Some(i)
    } else {
        primary_from(list, i + 1)
    }
}

fn find_primary(displays: &Vec<DisplayInfo>) -> (r: Option<usize>)
    ensures
        match r {
            Some(i) => i < displays@.len() && primary_from(display_views(displays@), 0) == Some(
                i as int,
            ),
            None => primary_from(display_views(displays@), 0) is None,
        },
{
    let ghost all = display_views(displays@);
    let mut i: usize = 0;
    while i < displays.len()
        invariant
            i <= displays@.len(),
            all == display_views(displays@),
            primary_from(all, 0) == primary_from(all, i as int),
        decreases displays@.len() - i,
    {
        assert(all[i as int] == displays@[i as int]@);
        if displays[i].primary {
            return Some(i);
        }
        i = i + 1;
    }
    None
}

impl MacView {
    /// Where the overlay's world is once these displays are known: around all of them where
    /// it spans them, else on the primary one.
    pub open spec fn world(displays: Seq<DisplayView>, span: bool) -> ((int, int), (int, int)) {
        if span {
            let h = hull(displays, displays.len() as int);
            ((h.x0, h.y0), (most(h.x1 - h.x0, 1), most(h.y1 - h.y0, 1)))
        } else {
            let d = match primary_from(displays, 0) {
                Some(i) => displays[i],
                None => displays[0],
            };
            ((d.x as int, d.y as int), (d.width as int, d.height as int))
        }
    }

    /// The height of the primary display, which is the one axis Cocoa and SDL disagree
    /// about: SDL measures from its top-left downwards, Cocoa from its bottom-left upwards.
    pub open spec fn height_of_primary(self) -> u32 {
        match primary_from(self.displays, 0) {
            Some(i) => self.displays[i].height,
            None => self.size.1,
        }
    }

    /// The overlay after a frame, and what the frame asks of Cocoa.
    pub open spec fn framed(self, now: u64) -> (MacView, FrameWork) {
        match self.shown_at {
            None => (self, FrameWork { reasserts: 0, geometry: false, read_frame: false }),
            Some(shown) => {
                let elapsed: nat = if now > shown {
                    ((now - shown) / 1_000_000) as nat
                } else {
                    0
                };
                let due = most(self.reasserts_done as int, reasserts_by(elapsed) as int);
                let frames: int = if self.geometry_frames < u32::MAX {
                    self.geometry_frames + 1
                } else {
                    u32::MAX as int
                };
                (
                    MacView {
                        reasserts_done: due as u32,
                        geometry_frames: frames as u32,
                        ..self
                    },
                    FrameWork {
                        reasserts: (due - self.reasserts_done) as u32,
                        geometry: asks_again(frames as nat),
                        read_frame: true,
                    },
                )
            },
        }
    }

    /// Whether the window ignores the mouse once the pointer has been looked for.
    pub open spec fn lets_through(
        self,
        rects: Seq<(i32, i32, i32, i32)>,
        cursor: Option<(i32, i32)>,
    ) -> bool {
        !pointer_on(rect_ints(rects), cursor, self.window_origin)
    }

    /// The window's place according to Cocoa, if it has been read.
    pub open spec fn frame_line(self, frame: Option<(i32, i32, u32, u32)>) -> Seq<char> {
        match frame {
            Some((x, y, w, h)) => placed_size(w, "x"@, h, x, y) + (if (w, h) == self.size && (x, y)
                == self.origin {
                " — the whole desktop, as asked"@
            } else {
                "  <-- NOT the whole desktop ("@ + placed_size(
                    self.size.0,
                    "x"@,
                    self.size.1,
                    self.origin.0,
                    self.origin.1,
                ) + "); macOS confined the overlay, so the blob is confined with it"@
            }),
            None => "not readable"@,
        }
    }

    /// The platform's half of the startup log.
    pub open spec fn lines(self, handle: u64, frame: Option<(i32, i32, u32, u32)>) -> Seq<
        (Seq<char>, Seq<char>),
    > {
        seq![
            ("NSWindow"@, prefixed_hex(handle as nat, 16)),
            (
                "desktop"@,
                placed_size(self.size.0, " x "@, self.size.1, self.origin.0, self.origin.1),
            ),
            (
                "surface opacity"@,
                if self.surface_made_transparent {
                    "0 (NSOpenGLCPSurfaceOpacity), layer-backed, window alpha 0.99, re-asserted at [200, 500, 1000, 2000, 4000] ms"@
                } else {
                    "NOT SET  <-- the overlay will be a black rectangle"@
                },
            ),
            ("window level"@, "25 (NSStatusWindowLevel)"@),
            ("window frame"@, self.frame_line(frame)),
        ] + display_lines(self.displays, self.displays.len()) + seq![
            ("click-through"@, "whole window; the cursor is tested against the blob each frame"@),
        ]
    }
}

impl Mac {
    /// An overlay with no window that knows no display yet. There is nothing to connect to.
    pub fn connect() -> (r: Result<Mac, String>)
        ensures
            r matches Ok(m) && m@ == (MacView {
                ns_window: 0,
                origin: (0, 0),
                size: (0, 0),
                displays: Seq::empty(),
                click_through: true,
                rects: Seq::empty(),
                surface_made_transparent: false,
                shown_at: None,
                reasserts_done: 0,
                window_origin: (0, 0),
                geometry_frames: 0,
                argb_visual: None,
            }),
    {
        let m = Mac {
            ns_window: 0,
            origin: (0, 0),
            size: (0, 0),
            displays: Vec::new(),
            click_through: true,
            rects: Vec::new(),
            surface_made_transparent: false,
            shown_at: None,
            reasserts_done: 0,
            window_origin: (0, 0),
            geometry_frames: 0,
            argb_visual: None,
        };
        assert(m@.displays =~= Seq::empty());
        Ok(m)
    }

    /// Takes the displays and settles where the overlay's world is.
    ///
    /// One display unless asked otherwise: with separate Spaces on every display a window
    /// is composited on one of them, whatever its frame says, so a world several screens
    /// wide would only ever be drawn on one of them.
    pub fn probe_desktop(&mut self, displays: Vec<DisplayInfo>, span: bool) -> (r: Result<
        (),
        String,
    >)
        requires
            ends_fit(display_views(displays@)),
            span ==> countable(display_views(displays@)),
        ensures
            match r {
                Ok(()) => displays@.len() > 0 && ({
                    let at = MacView::world(display_views(displays@), span);
                    &&& final(self)@ == (MacView {
                        displays: display_views(displays@),
                        origin: final(self)@.origin,
                        size: final(self)@.size,
                        window_origin: final(self)@.origin,
                        ..old(self)@
                    })
                    &&& final(self)@.origin.0 == at.0.0 && final(self)@.origin.1 == at.0.1
                    &&& final(self)@.size.0 == at.1.0 && final(self)@.size.1 == at.1.1
                }),
                Err(e) => displays@.len() == 0 && final(self)@ == old(self)@ && e@
                    == "SDL reports no displays at all"@,
            },
    {
        if displays.len() == 0 {
            return Err(String::from_str("SDL reports no displays at all"));
        }
        let ghost all = display_views(displays@);
        let (origin, size) = if span {
            desktop_hull(&displays)
        } else {
            let i: usize = match find_primary(&displays) {
                Some(i) => i,
                None => 0,
            };
            let d = &displays[i];
            assert(all[i as int] == displays@[i as int]@);
            ((d.x, d.y), (d.width, d.height))
        };
        self.origin = origin;
        self.size = size;
        // Until there is a window to ask, take it that it will be where it is asked to be.
        self.window_origin = origin;
        self.displays = displays;
        Ok(())
    }

    /// Every display's rectangle, relative to the corner of the overlay's world.
    pub fn monitor_rects(&self) -> (out: Vec<(i32, i32, u32, u32)>)
        requires
            forall|i: int|
                0 <= i < self@.displays.len() ==> {
                    &&& i32::MIN <= (#[trigger] self@.displays[i]).x - self@.origin.0 <= i32::MAX
                    &&& i32::MIN <= self@.displays[i].y - self@.origin.1 <= i32::MAX
                },
        ensures
            out@.len() == self@.displays.len(),
            forall|i: int|
                0 <= i < out@.len() ==> (#[trigger] out@[i]) == (
                    (self@.displays[i].x - self@.origin.0) as i32,
                    (self@.displays[i].y - self@.origin.1) as i32,
                    self@.displays[i].width,
                    self@.displays[i].height,
                ),
    {
        let mut out: Vec<(i32, i32, u32, u32)> = Vec::new();
        let mut i: usize = 0;
        while i < self.displays.len()
            invariant
                i <= self.displays@.len(),
                out@.len() == i,
                forall|k: int|
                    0 <= k < self@.displays.len() ==> {
                        &&& i32::MIN <= (#[trigger] self@.displays[k]).x - self@.origin.0
                            <= i32::MAX
                        &&& i32::MIN <= self@.displays[k].y - self@.origin.1 <= i32::MAX
                    },
                forall|k: int|
                    0 <= k < i ==> (#[trigger] out@[k]) == (
                        (self@.displays[k].x - self@.origin.0) as i32,
                        (self@.displays[k].y - self@.origin.1) as i32,
                        self@.displays[k].width,
                        self@.displays[k].height,
                    ),
            decreases self.displays@.len() - i,
        {
            let d = &self.displays[i];
            assert(self@.displays[i as int] == self.displays@[i as int]@);
            out.push((d.x - self.origin.0, d.y - self.origin.1, d.width, d.height));
            i = i + 1;
        }
        out
    }

    /// The size of the overlay's world.
    pub fn desktop_size(&self) -> (r: (u32, u32))
        ensures
            r == self@.size,
    {
        self.size
    }

    /// Where the overlay window belongs, in SDL's global coordinates.
    pub fn desktop_origin(&self) -> (r: (i32, i32))
        ensures
            r == self@.origin,
    {
        self.origin
    }

    /// Adopt the window SDL made.
    pub fn set_window(&mut self, handle: u64) -> (r: Result<(), String>)
        ensures
            match r {
                Ok(()) => handle != 0 && final(self)@ == (MacView {
                    ns_window: handle,
                    ..old(self)@
                }),
                Err(e) => handle == 0 && final(self)@ == old(self)@ && e@
                    == "the NSWindow handle is null"@,
            },
    {
        if handle == 0 {
            return Err(String::from_str("the NSWindow handle is null"));
        }
        self.ns_window = handle;
        Ok(())
    }

    /// The window, if there is one yet.
    pub fn win(&self) -> (r: Result<u64, String>)
        ensures
            match r {
                Ok(w) => w != 0 && w == self@.ns_window,
                Err(e) => self@.ns_window == 0 && e@ == "the overlay has no NSWindow yet"@,
            },
    {
        if self.ns_window == 0 {
            return Err(String::from_str("the overlay has no NSWindow yet"));
        }
        Ok(self.ns_window)
    }

    /// Note that the surface opacity has been applied.
    pub fn surface_ready(&mut self)
        ensures
            final(self)@ == (MacView { surface_made_transparent: true, ..old(self)@ }),
    {
        self.surface_made_transparent = true;
    }

    /// Note that the window has been shown.
    pub fn shown(&mut self, now: u64)
        ensures
            final(self)@ == (MacView { shown_at: Some(now), ..old(self)@ }),
    {
        self.shown_at = Some(now);
    }

    /// What is to be done this frame, `now` nanoseconds: each re-assertion whose moment has
    /// come and that is not done yet, and on some of the first frames the request for the
    /// full desktop.
    pub fn on_frame(&mut self, now: u64) -> (r: FrameWork)
        ensures
            (final(self)@, r) == old(self)@.framed(now),
            match old(self)@.shown_at {
                None => final(self)@ == old(self)@ && r == (FrameWork {
                    reasserts: 0,
                    geometry: false,
                    read_frame: false,
                }),
                Some(shown) => {
                    let elapsed: nat = if now > shown {
                        ((now - shown) / 1_000_000) as nat
                    } else {
                        0
                    };
                    let due = most(
                        old(self)@.reasserts_done as int,
                        reasserts_by(elapsed) as int,
                    );
                    let frames: int = if old(self)@.geometry_frames < u32::MAX {
                        old(self)@.geometry_frames + 1
                    } else {
                        u32::MAX as int
                    };
                    &&& final(self)@ == (MacView {
                        reasserts_done: due as u32,
                        geometry_frames: frames as u32,
                        ..old(self)@
                    })
                    &&& r.reasserts == due - old(self)@.reasserts_done
                    &&& r.geometry == asks_again(frames as nat)
                    &&& r.read_frame
                },
            },
    {
        let shown: u64 = match self.shown_at {
            Some(t) => t,
            None => {
                return FrameWork { reasserts: 0, geometry: false, read_frame: false };
            },
        };
        let elapsed: u64 = if now > shown {
            (now - shown) / 1_000_000
        } else {
            0
        };
        let due: u32 = count_reasserts(elapsed);
        let mut reasserts: u32 = 0;
        if due > self.reasserts_done {
            reasserts = due - self.reasserts_done;
            self.reasserts_done = due;
        }
        if self.geometry_frames < u32::MAX {
            self.geometry_frames = self.geometry_frames + 1;
        }
        let n: u32 = self.geometry_frames;
        FrameWork {
            reasserts,
            geometry: n == 1 || n == 3 || n == 10 || n == 30,
            read_frame: true,
        }
    }

    /// Note where Cocoa says the window is, if it could be read: the pointer is tested
    /// against window-relative rectangles, so the window's real corner has to be current.
    pub fn note_frame(&mut self, frame: Option<(i32, i32, u32, u32)>)
        ensures
            final(self)@ == (MacView {
                window_origin: match frame {
                    Some(f) => (f.0, f.1),
                    None => old(self)@.window_origin,
                },
                ..old(self)@
            }),
    {
        if let Some((x, y, _, _)) = frame {
            self.window_origin = (x, y);
        }
    }

    /// Fully click-through: every pixel belongs to whatever is underneath. Where there is a
    /// window, it has to be told.
    pub fn set_input_region_empty(&mut self) -> (r: Result<(), String>)
        ensures
            match r {
                Ok(()) => old(self)@.ns_window != 0 && final(self)@ == (MacView {
                    rects: Seq::empty(),
                    click_through: true,
                    ..old(self)@
                }),
                Err(e) => old(self)@.ns_window == 0 && final(self)@ == (MacView {
                    rects: Seq::empty(),
                    ..old(self)@
                }) && e@ == "the overlay has no NSWindow yet"@,
            },
    {
        self.rects = Vec::new();
        self.win()?;
        self.click_through = true;
        Ok(())
    }

    /// The blob's shape this frame, and where the pointer is. Says whether the window has to
    /// be told to ignore the mouse, or no longer to.
    pub fn set_input_rects(
        &mut self,
        rects: Vec<(i32, i32, i32, i32)>,
        cursor: Option<(i32, i32)>,
    ) -> (r: Result<bool, String>)
        ensures
            ({
                let through = old(self)@.lets_through(rects@, cursor);
                match r {
                    Ok(changed) => {
                        &&& changed == (through != old(self)@.click_through)
                        &&& changed ==> old(self)@.ns_window != 0
                        &&& final(self)@ == (MacView {
                            rects: rects@,
                            click_through: through,
                            ..old(self)@
                        })
                    },
                    Err(e) => {
                        &&& through != old(self)@.click_through && old(self)@.ns_window == 0
                        &&& final(self)@ == (MacView { rects: rects@, ..old(self)@ })
                        &&& e@ == "the overlay has no NSWindow yet"@
                    },
                }
            }),
    {
        let on_blob = is_pointer_on(&rects, cursor, self.window_origin);
        self.rects = rects;
        if self.click_through == !on_blob {
            return Ok(false);
        }
        self.win()?;
        self.click_through = !on_blob;
        Ok(true)
    }

    /// Give the mouse back to everyone else on the way out: click-through, because a
    /// desktop-sized invisible window that swallows clicks is the worse state to leave
    /// behind. Where there is a window, it has to be told.
    pub fn restore_input_region(&mut self) -> (r: Result<(), String>)
        ensures
            match r {
                Ok(()) => old(self)@.ns_window != 0 && final(self)@ == (MacView {
                    click_through: true,
                    ..old(self)@
                }),
                Err(e) => old(self)@.ns_window == 0 && final(self)@ == old(self)@ && e@
                    == "the overlay has no NSWindow yet"@,
            },
    {
        self.win()?;
        self.click_through = true;
        Ok(())
    }

    /// What the window is actually doing: nothing is clickable while it ignores the mouse.
    pub fn read_back_input_region(&self) -> (r: Result<Vec<(i16, i16, u16, u16)>, String>)
        ensures
            r matches Ok(out) && out@ == (if self@.click_through {
                Seq::empty()
            } else {
                self@.rects.map_values(|r: (i32, i32, i32, i32)| cut(r))
            }),
    {
        if self.click_through {
            return Ok(Vec::new());
        }
        Ok(cut_rects(&self.rects))
    }

    /// Nothing to hint.
    pub fn set_size_hints(&self) -> (r: Result<(), String>)
        ensures
            r is Ok,
    {
        Ok(())
    }

    /// The height of the primary display.
    pub fn primary_height(&self) -> (r: u32)
        ensures
            r == self@.height_of_primary(),
    {
        match find_primary(&self.displays) {
            Some(i) => {
                assert(self@.displays[i as int] == self.displays@[i as int]@);
                self.displays[i].height
            },
            None => self.size.1,
        }
    }

    /// Where the window really is, relative to the overlay's world, given the frame that
    /// Cocoa reports in SDL's global coordinates. With no frame to go by, where it was asked
    /// to be.
    pub fn window_rect(&self, frame: Option<(i32, i32, u32, u32)>) -> (r: Result<
        (i32, i32, u32, u32),
        String,
    >)
        requires
            frame matches Some(f) ==> i32::MIN <= f.0 - self@.origin.0 <= i32::MAX && i32::MIN
                <= f.1 - self@.origin.1 <= i32::MAX,
        ensures
            r matches Ok(p) && match frame {
                Some(f) => p == (
                    (f.0 - self@.origin.0) as i32,
                    (f.1 - self@.origin.1) as i32,
                    f.2,
                    f.3,
                ),
                None => p == (0i32, 0i32, self@.size.0, self@.size.1),
            },
    {
        match frame {
            Some((x, y, w, h)) => Ok((x - self.origin.0, y - self.origin.1, w, h)),
            None => Ok((0, 0, self.size.0, self.size.1)),
        }
    }

    /// The frame to ask Cocoa for: left, bottom measured upwards from the bottom of the
    /// primary display, width, height.
    pub fn full_screen_frame(&self) -> (r: Result<(i64, i64, u32, u32), String>)
        ensures
            match r {
                Ok(f) => {
                    &&& self@.ns_window != 0
                    &&& f.0 == self@.origin.0
                    &&& f.1 == self@.height_of_primary() - (self@.origin.1 + self@.size.1)
                    &&& f.2 == self@.size.0 && f.3 == self@.size.1
                },
                Err(e) => self@.ns_window == 0 && e@ == "the overlay has no NSWindow yet"@,
            },
    {
        self.win()?;
        let y: i64 = self.primary_height() as i64 - (self.origin.1 as i64 + self.size.1 as i64);
        Ok((self.origin.0 as i64, y, self.size.0, self.size.1))
    }

    /// Cocoa composites every window with an alpha channel: reported as 32 bits.
    pub fn depth_of(&self, _handle: u64) -> (r: Result<u8, String>)
        ensures
            r == Ok::<u8, String>(32),
    {
        Ok(32)
    }

    /// The platform-specific half of the startup diagnostics, given what Cocoa says of the
    /// window's frame.
    pub fn describe(&self, handle: u64, frame: Option<(i32, i32, u32, u32)>) -> (out: Vec<Line>)
        ensures
            line_views(out@) == self@.lines(handle, frame),
    {
        let mut out: Vec<Line> = Vec::new();
        let mut id = String::new();
        push_prefixed_hex(&mut id, handle, 16);
        assert(id@ =~= prefixed_hex(handle as nat, 16));
        push_line(&mut out, "NSWindow", id);
        let ghost asked = placed_size(
            self.size.0,
            " x "@,
            self.size.1,
            self.origin.0,
            self.origin.1,
        );
        let mut desktop = String::new();
        push_placed_size(
            &mut desktop,
            self.size.0,
            " x ",
            self.size.1,
            self.origin.0,
            self.origin.1,
        );
        assert(desktop@ =~= asked);
        push_line(&mut out, "desktop", desktop);
        let opacity = if self.surface_made_transparent {
            String::from_str(
                "0 (NSOpenGLCPSurfaceOpacity), layer-backed, window alpha 0.99, re-asserted at [200, 500, 1000, 2000, 4000] ms",
            )
        } else {
            String::from_str("NOT SET  <-- the overlay will be a black rectangle")
        };
        push_line(&mut out, "surface opacity", opacity);
        push_line(&mut out, "window level", String::from_str("25 (NSStatusWindowLevel)"));
        push_line(&mut out, "window frame", self.describe_frame(frame));
        push_display_lines(&mut out, &self.displays);
        push_line(
            &mut out,
            "click-through",
            String::from_str("whole window; the cursor is tested against the blob each frame"),
        );
        assert(line_views(out@) =~= self@.lines(handle, frame));
        out
    }

    fn describe_frame(&self, frame: Option<(i32, i32, u32, u32)>) -> (out: String)
        ensures
            out@ == self@.frame_line(frame),
    {
        match frame {
            Some((x, y, w, h)) => {
                let mut out = String::new();
                push_placed_size(&mut out, w, "x", h, x, y);
                assert(out@ =~= placed_size(w, "x"@, h, x, y));
                if w == self.size.0 && h == self.size.1 && x == self.origin.0 && y
                    == self.origin.1 {
                    out.append(" — the whole desktop, as asked");
                } else {
                    let ghost head = out@;
                    out.append("  <-- NOT the whole desktop (");
                    push_placed_size(
                        &mut out,
                        self.size.0,
                        "x",
                        self.size.1,
                        self.origin.0,
                        self.origin.1,
                    );
                    out.append("); macOS confined the overlay, so the blob is confined with it");
                    assert(out@ =~= self@.frame_line(frame));
                }
                out
            },
            None => String::from_str("not readable"),
        }
    }
}

/// The desktop keeps every click that is not meant for the metal: a pointer that cannot be
/// found is let through whatever the metal covers, and with no metal every pointer is.
pub proof fn law_clicks_beside_the_metal_pass_through(
    m: MacView,
    rects: Seq<(i32, i32, i32, i32)>,
    cursor: Option<(i32, i32)>,
)
    ensures
        m.lets_through(rects, None),
        m.lets_through(Seq::empty(), cursor),
{
    assert(rect_ints(Seq::empty()) =~= Seq::empty());
}

/// The schedule only advances, and it ends: what has come due stays due, and no more than
/// five re-assertions ever do.
pub proof fn law_the_schedule_only_advances(earlier: nat, later: nat)
    requires
        earlier <= later,
    ensures
        reasserts_by(earlier) <= reasserts_by(later) <= 5,
{
}

/// The moments of the schedule are 200, 500, 1000, 2000 and 4000 milliseconds after the
/// window was shown: as many are due as have come.
pub proof fn law_the_moments_of_the_schedule(elapsed: nat)
    ensures
        reasserts_by(elapsed) == (if elapsed < 200 { 0nat } else { 1 }) + (if elapsed < 500 {
            0nat
        } else {
            1
        }) + (if elapsed < 1000 { 0nat } else { 1 }) + (if elapsed < 2000 { 0nat } else { 1 }) + (
        if elapsed < 4000 { 0nat } else { 1 }),
{
}

/// The first display that is a primary one, the `k`th, is found; if there is none, none is.
pub proof fn law_the_primary_display_is_found(list: Seq<DisplayView>, k: int)
    ensures
        (forall|i: int| 0 <= i < list.len() ==> !(#[trigger] list[i]).primary) ==> primary_from(
            list,
            0,
        ) is None,
        0 <= k < list.len() && list[k].primary && (forall|i: int|
            0 <= i < k ==> !(#[trigger] list[i]).primary) ==> primary_from(list, 0) == Some(k),
{
    lemma_primary_from(list, 0, k);
}

proof fn lemma_primary_from(list: Seq<DisplayView>, from: int, k: int)
    requires
        0 <= from,
    ensures
        (forall|i: int| from <= i < list.len() ==> !(#[trigger] list[i]).primary) ==> primary_from(
            list,
            from,
        ) is None,
        from <= k < list.len() && list[k].primary && (forall|i: int|
            from <= i < k ==> !(#[trigger] list[i]).primary) ==> primary_from(list, from) == Some(
            k,
        ),
    decreases list.len() - from,
{
    if from < list.len() {
        lemma_primary_from(list, from + 1, k);
        if from < k && (forall|i: int| from <= i < k ==> !(#[trigger] list[i]).primary) {
            assert(!list[from].primary);
        }
    }
}

/// The overlay's world is the primary display, the `k`th, or the first of all if none is
/// primary, just where it is and as large as it is; and its height is what Cocoa measures
/// from.
pub proof fn law_the_world_is_the_primary_display(m: MacView, k: int)
    requires
        0 <= k < m.displays.len(),
        forall|i: int| 0 <= i < k ==> !(#[trigger] m.displays[i]).primary,
        m.displays[k].primary || (k == 0 && forall|i: int|
            0 <= i < m.displays.len() ==> !(#[trigger] m.displays[i]).primary),
    ensures
        ({
            let d = m.displays[k];
            let (at, size) = MacView::world(m.displays, false);
            &&& at.0 == d.x && at.1 == d.y
            &&& size.0 == d.width && size.1 == d.height
            &&& d.primary ==> m.height_of_primary() == d.height
            &&& !d.primary ==> m.height_of_primary() == m.size.1
        }),
{
    law_the_primary_display_is_found(m.displays, k);
}

/// Where it spans the displays, the overlay's world holds every one of them, the `k`th
/// among them.
pub proof fn law_a_spanning_world_holds_every_display(list: Seq<DisplayView>, k: int)
    requires
        0 <= k < list.len(),
        forall|i: int|
            0 <= i < list.len() ==> {
                &&& (#[trigger] list[i]).width < 0x8000_0000 && list[i].height < 0x8000_0000
                &&& list[i].x + list[i].width <= i32::MAX && list[i].y + list[i].height <= i32::MAX
            },
    ensures
        ({
            let d = list[k];
            let (at, size) = MacView::world(list, true);
            &&& at.0 <= d.x && d.x + d.width <= at.0 + size.0
            &&& at.1 <= d.y && d.y + d.height <= at.1 + size.1
            &&& size.0 >= 1 && size.1 >= 1
        }),
{
    crate::overlay::law_the_hull_is_the_smallest(list, list.len() as int, k);
}

/// The metal takes the mouse where the pointer is on it, as seen from the window's real
/// corner, and lets it through everywhere else.
pub proof fn law_the_metal_takes_the_mouse(
    m: MacView,
    rects: Seq<(i32, i32, i32, i32)>,
    at: (i32, i32),
)
    ensures
        !m.lets_through(rects, Some(at)) <==> exists|i: int|
            0 <= i < rects.len() && m.window_origin.0 + (#[trigger] rects[i]).0 <= at.0 && at.0
                < m.window_origin.0 + rects[i].0 + rects[i].2 && m.window_origin.1 + rects[i].1
                <= at.1 && at.1 < m.window_origin.1 + rects[i].1 + rects[i].3,
{
    crate::overlay::law_where_the_pointer_is(rects, at, m.window_origin);
}

/// The full desktop is asked for again on the first, the third, the tenth and the thirtieth
/// frame, and on no other.
pub proof fn law_the_desktop_is_asked_for_four_times(n: nat)
    ensures
        asks_again(n) ==> n == 1 || n == 3 || n == 10 || n == 30,
        n == 1 || n == 3 || n == 10 || n == 30 ==> asks_again(n),
{
}

/// A frame does what has come due since the window was shown and is not done yet, and does
/// it once; before the window is shown it does nothing. Each frame is counted, and nothing
/// else about the overlay changes.
pub proof fn law_a_frame_does_what_is_due(m: MacView, now: u64)
    requires
        m.reasserts_done <= 5,
        m.geometry_frames < u32::MAX,
    ensures
        ({
            let (after, work) = m.framed(now);
            match m.shown_at {
                None => after == m && work.reasserts == 0 && !work.geometry && !work.read_frame,
                Some(shown) => {
                    let n = m.geometry_frames + 1;
                    &&& after.reasserts_done == m.reasserts_done + work.reasserts
                    &&& after.geometry_frames == n && work.read_frame
                    &&& work.geometry <==> n == 1 || n == 3 || n == 10 || n == 30
                    &&& now - shown < 200_000_000 ==> work.reasserts == 0
                    &&& 200_000_000 <= now - shown ==> after.reasserts_done >= 1
                    &&& 500_000_000 <= now - shown ==> after.reasserts_done >= 2
                    &&& 1_000_000_000 <= now - shown ==> after.reasserts_done >= 3
                    &&& 2_000_000_000 <= now - shown ==> after.reasserts_done >= 4
                    &&& 4_000_000_000 <= now - shown ==> after.reasserts_done == 5
                    &&& m.reasserts_done == 0 && now - shown < 4_000_000_000 ==> work.reasserts < 5
                    &&& m.reasserts_done == 0 && now - shown < 2_000_000_000 ==> work.reasserts < 4
                    &&& m.reasserts_done == 0 && now - shown < 1_000_000_000 ==> work.reasserts < 3
                    &&& m.reasserts_done == 0 && now - shown < 500_000_000 ==> work.reasserts < 2
                    &&& after == (MacView {
                        reasserts_done: after.reasserts_done,
                        geometry_frames: after.geometry_frames,
                        ..m
                    })
                    &&& after.framed(now).1.reasserts == 0
                },
            }
        }),
{
}

} // verus!

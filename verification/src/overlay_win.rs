//! The Windows overlay: the extended style, DWM composition and the emulated input region.
//!
//! A region of a Win32 window clips what is drawn as well as what is clicked, so none is
//! used. Every frame the pointer is tested against the rectangles that cover the metal, and
//! `WS_EX_TRANSPARENT` is turned on or off to match. The window is not `WS_EX_LAYERED`: a
//! layered window gets its pixels from a bitmap or a uniform alpha, and here they come out
//! of an OpenGL swap chain, which DWM composites.

use crate::desk::most;
use crate::overlay::{
    countable, cut, cut_rects, desktop_hull, display_lines, display_views, hull, is_pointer_on,
    line_views, placed_size, pointer_on, push_display_lines, push_line, push_placed_size,
    DisplayInfo, DisplayView, Line,
};
use crate::region::rect_ints;
use crate::single::Single;
use crate::text::{prefixed_hex, push_prefixed_hex, quote, quoted, same_text};
use vstd::prelude::*;

verus! {

/// Extended styles applied once, and then left alone: `WS_EX_TOPMOST` floats above ordinary
/// windows, `WS_EX_TOOLWINDOW` keeps the overlay out of the taskbar and out of Alt+Tab, and
/// `WS_EX_NOACTIVATE` means that clicking the blob does not take the focus.
pub const EX_STYLE_ON: i64 = 0x0800_0088;

/// `WS_EX_TRANSPARENT`: the window receives no mouse messages.
pub const EX_TRANSPARENT: i64 = 0x20;

/// Frame budget while the blob is asleep, in milliseconds. A click-through window receives
/// no mouse messages, so the only way to notice the pointer is to look, and this is how
/// often.
pub const IDLE_WAIT_MS: u32 = 30;

/// There is no input region, so the local hit test is not redundant here.
pub const REGION_IS_THE_HIT_TEST: bool = false;

/// DWM composites every window; there is no visual to choose.
pub const NEEDS_VISUAL_STRATEGY: bool = false;

/// The SDL video driver this overlay can actually work with.
pub const REQUIRED_VIDEO_DRIVER: &'static str = "windows";

/// What is wrong with running under this video driver.
pub open spec fn wrong_driver(driver: Seq<char>) -> Seq<char> {
    "SDL chose the "@ + quoted(driver) + " video driver, but the Windows overlay needs "@ + quoted(
        "windows"@,
    )
        + ".\nThe overlay calls Win32 functions on the HWND behind the SDL window, which only exists on the Windows backend."@
}

pub fn check_video_driver(driver: &str) -> (r: Result<(), String>)
    ensures
        match r {
            Ok(()) => driver@ == "windows"@,
            Err(e) => driver@ != "windows"@ && e@ == wrong_driver(driver@),
        },
{
    if same_text(driver, "windows") {
        return Ok(());
    }
    let mut e = String::from_str("SDL chose the ");
    e.append(quote(driver).as_str());
    e.append(" video driver, but the Windows overlay needs ");
    e.append(quote("windows").as_str());
    e.append(
        ".\nThe overlay calls Win32 functions on the HWND behind the SDL window, which only exists on the Windows backend.",
    );
    Err(e)
}

/// How many of the moments at which the DWM state is re-asserted have come, this many
/// seconds after start-up: 0.2, 0.5, 1, 2 and 4 seconds.
///
/// Composition settings applied before a window has actually been presented can apply to
/// nothing, so the request is repeated on a short schedule.
pub open spec fn reasserts_by(elapsed: Single) -> nat {
    if (Single { bits: 0x4080_0000 }).at_most(elapsed) {
        5
    } else if (Single { bits: 0x4000_0000 }).at_most(elapsed) {
        4
    } else if (Single { bits: 0x3f80_0000 }).at_most(elapsed) {
        3
    } else if (Single { bits: 0x3f00_0000 }).at_most(elapsed) {
        2
    } else if (Single { bits: 0x3e4c_cccd }).at_most(elapsed) {
        1
    } else {
        0
    }
}

fn count_reasserts(elapsed: Single) -> (r: u32)
    ensures
        r == reasserts_by(elapsed),
{
    if Single::new(0x4080_0000).le(elapsed) {
        5
    } else if Single::new(0x4000_0000).le(elapsed) {
        4
    } else if Single::new(0x3f80_0000).le(elapsed) {
        3
    } else if Single::new(0x3f00_0000).le(elapsed) {
        2
    } else if Single::new(0x3e4c_cccd).le(elapsed) {
        1
    } else {
        0
    }
}

/// The window's style with the overlay's added. Whatever SDL set is kept.
pub open spec fn with_overlay_style(style: i64) -> i64 {
    style | EX_STYLE_ON
}

/// The window's style, click-through or not.
pub open spec fn with_click_through(style: i64, on: bool) -> i64 {
    if on {
        style | EX_TRANSPARENT
    } else {
        style & !EX_TRANSPARENT
    }
}

pub fn overlay_style(style: i64) -> (r: i64)
    ensures
        r == with_overlay_style(style),
{
    style | EX_STYLE_ON
}

pub fn click_through_style(style: i64, on: bool) -> (r: i64)
    ensures
        r == with_click_through(style, on),
{
    if on {
        style | EX_TRANSPARENT
    } else {
        style & !EX_TRANSPARENT
    }
}

/// What DWM answered to the request for per-pixel alpha.
pub open spec fn refusal(hr: i32) -> Seq<char> {
    "DwmEnableBlurBehindWindow failed (HRESULT "@ + prefixed_hex((hr + 0x1_0000_0000) as nat, 8)
        + "); the overlay will be an opaque rectangle. Desktop composition has to be on."@
}

/// Whether DWM took the request for per-pixel alpha: a negative result is a refusal.
pub fn dwm_answer(hr: i32) -> (r: Result<(), String>)
    ensures
        match r {
            Ok(()) => hr >= 0,
            Err(e) => hr < 0 && e@ == refusal(hr),
        },
{
    if hr >= 0 {
        return Ok(());
    }
    let mut e = String::from_str("DwmEnableBlurBehindWindow failed (HRESULT ");
    push_prefixed_hex(&mut e, (hr as i64 + 0x1_0000_0000) as u64, 8);
    e.append("); the overlay will be an opaque rectangle. Desktop composition has to be on.");
    Err(e)
}

/// The window and what has been done to it.
#[derive(Debug)]
pub struct Win {
    /// The `HWND`; zero until there is one.
    pub hwnd: u64,
    /// The union of every display, in SDL's global desktop coordinates. May be negative: a
    /// monitor left of or above the primary one starts below zero.
    pub origin: (i32, i32),
    pub size: (u32, u32),
    pub displays: Vec<DisplayInfo>,
    /// Whether the window is currently click-through.
    pub click_through: bool,
    /// Last rectangle cover the pointer was tested against.
    pub rects: Vec<(i32, i32, i32, i32)>,
    /// What DWM said to the per-pixel alpha request.
    pub composition: Result<(), String>,
    /// How many of the scheduled re-assertions are done.
    pub reasserts_done: u32,
    /// Whether the re-assert clock is running.
    pub started: bool,
    /// There is no visual to choose on Windows.
    pub argb_visual: Option<u32>,
}

/// What a [`Win`] is.
pub struct WinView {
    pub hwnd: u64,
    pub origin: (i32, i32),
    pub size: (u32, u32),
    pub displays: Seq<DisplayView>,
    pub click_through: bool,
    pub rects: Seq<(i32, i32, i32, i32)>,
    pub composition: Result<(), Seq<char>>,
    pub reasserts_done: u32,
    pub started: bool,
    pub argb_visual: Option<u32>,
}

/// What a composition result says.
pub open spec fn answer(r: Result<(), String>) -> Result<(), Seq<char>> {
    match r {
        Ok(()) => Ok(()),
        Err(e) => Err(e@),
    }
}

impl View for Win {
    type V = WinView;

    open spec fn view(&self) -> WinView {
        WinView {
            hwnd: self.hwnd,
            origin: self.origin,
            size: self.size,
            displays: display_views(self.displays@),
            click_through: self.click_through,
            rects: self.rects@,
            composition: answer(self.composition),
            reasserts_done: self.reasserts_done,
            started: self.started,
            argb_visual: self.argb_visual,
        }
    }
}

impl WinView {
    /// After asking DWM again.
    pub open spec fn asked_again(self, said: Result<(), Seq<char>>) -> WinView {
        if said is Ok {
            WinView { composition: Ok(()), ..self }
        } else {
            self
        }
    }

    /// The overlay after a frame, and how often that asks DWM again.
    pub open spec fn framed(self, elapsed: Single) -> (WinView, u32) {
        let due = if self.started && self.hwnd != 0 {
            most(self.reasserts_done as int, reasserts_by(elapsed) as int)
        } else {
            self.reasserts_done as int
        };
        (WinView { reasserts_done: due as u32, ..self }, (due - self.reasserts_done) as u32)
    }

    /// Whether the window is click-through once the pointer has been looked for.
    pub open spec fn lets_through(
        self,
        rects: Seq<(i32, i32, i32, i32)>,
        cursor: Option<(i32, i32)>,
    ) -> bool {
        !pointer_on(rect_ints(rects), cursor, self.origin)
    }

    /// The platform's half of the startup log.
    pub open spec fn lines(self, handle: u64) -> Seq<(Seq<char>, Seq<char>)> {
        seq![
            ("HWND"@, prefixed_hex(handle as nat, 16)),
            (
                "desktop"@,
                placed_size(self.size.0, " x "@, self.size.1, self.origin.0, self.origin.1),
            ),
            (
                "DWM alpha"@,
                match self.composition {
                    Ok(()) =>
                        "on (blur-behind, empty region) — the window composites with alpha"@,
                    Err(e) => "FAILED  <-- the overlay will be opaque: "@ + e,
                },
            ),
            (
                "extended style"@,
                "TOPMOST | TOOLWINDOW | NOACTIVATE (not LAYERED — see the module docs)"@,
            ),
        ] + display_lines(self.displays, self.displays.len()) + seq![
            (
                "click-through"@,
                "WS_EX_TRANSPARENT; the cursor is tested against the blob each frame"@,
            ),
        ]
    }
}

impl Win {
    /// An overlay with no window that knows no display yet. There is nothing to connect to.
    pub fn connect() -> (r: Result<Win, String>)
        ensures
            r matches Ok(w) && w@ == (WinView {
                hwnd: 0,
                origin: (0, 0),
                size: (0, 0),
                displays: Seq::empty(),
                click_through: true,
                rects: Seq::empty(),
                composition: Err("not attempted yet"@),
                reasserts_done: 0,
                started: false,
                argb_visual: None,
            }),
    {
        let w = Win {
            hwnd: 0,
            origin: (0, 0),
            size: (0, 0),
            displays: Vec::new(),
            click_through: true,
            rects: Vec::new(),
            composition: Err(String::from_str("not attempted yet")),
            reasserts_done: 0,
            started: false,
            argb_visual: None,
        };
        assert(w@.displays =~= Seq::empty());
        Ok(w)
    }

    /// Takes the displays: the overlay covers the union of them all.
    pub fn probe_desktop(&mut self, displays: Vec<DisplayInfo>) -> (r: Result<(), String>)
        requires
            countable(display_views(displays@)),
        ensures
            match r {
                Ok(()) => displays@.len() > 0 && ({
                    let h = hull(display_views(displays@), displays@.len() as int);
                    &&& final(self)@ == (WinView {
                        displays: display_views(displays@),
                        origin: final(self)@.origin,
                        size: final(self)@.size,
                        ..old(self)@
                    })
                    &&& final(self)@.origin.0 == h.x0 && final(self)@.origin.1 == h.y0
                    &&& final(self)@.size.0 == most(h.x1 - h.x0, 1)
                    &&& final(self)@.size.1 == most(h.y1 - h.y0, 1)
                }),
                Err(e) => displays@.len() == 0 && final(self)@ == old(self)@ && e@
                    == "SDL reports no displays at all"@,
            },
    {
        if displays.len() == 0 {
            return Err(String::from_str("SDL reports no displays at all"));
        }
        let (origin, size) = desktop_hull(&displays);
        self.origin = origin;
        self.size = size;
        self.displays = displays;
        Ok(())
    }

    /// The size of the desktop.
    pub fn desktop_size(&self) -> (r: (u32, u32))
        ensures
            r == self@.size,
    {
        self.size
    }

    /// Where the desktop begins, in SDL's global coordinates.
    pub fn desktop_origin(&self) -> (r: (i32, i32))
        ensures
            r == self@.origin,
    {
        self.origin
    }

    /// Adopt the window SDL made.
    pub fn set_window(&mut self, handle: u64) -> (r: Result<(), String>)
        ensures
            match r {
                Ok(()) => handle != 0 && final(self)@ == (WinView { hwnd: handle, ..old(self)@ }),
                Err(e) => handle == 0 && final(self)@ == old(self)@ && e@ == "the HWND is null"@,
            },
    {
        if handle == 0 {
            return Err(String::from_str("the HWND is null"));
        }
        self.hwnd = handle;
        Ok(())
    }

    /// The window, if there is one yet.
    pub fn win(&self) -> (r: Result<u64, String>)
        ensures
            match r {
                Ok(w) => w != 0 && w == self@.hwnd,
                Err(e) => self@.hwnd == 0 && e@ == "the overlay has no HWND yet"@,
            },
    {
        if self.hwnd == 0 {
            return Err(String::from_str("the overlay has no HWND yet"));
        }
        Ok(self.hwnd)
    }

    /// Note what DWM said when the overlay properties were applied.
    pub fn composed(&mut self, said: Result<(), String>)
        ensures
            final(self)@ == (WinView { composition: answer(said), ..old(self)@ }),
    {
        self.composition = said;
    }

    /// Start the re-assert clock.
    pub fn on_gl_context_ready(&mut self) -> (r: Result<(), String>)
        ensures
            r is Ok,
            final(self)@ == (WinView { started: true, ..old(self)@ }),
    {
        self.started = true;
        Ok(())
    }

    /// How many times to ask DWM again this frame, `elapsed` seconds after the clock
    /// started: once for each moment that has come and is not done yet.
    pub fn on_frame(&mut self, elapsed: Single) -> (r: u32)
        ensures
            (final(self)@, r) == old(self)@.framed(elapsed),
            ({
                let due = if old(self)@.started && old(self)@.hwnd != 0 {
                    most(old(self)@.reasserts_done as int, reasserts_by(elapsed) as int)
                } else {
                    old(self)@.reasserts_done as int
                };
                &&& final(self)@ == (WinView { reasserts_done: due as u32, ..old(self)@ })
                &&& r == due - old(self)@.reasserts_done
            }),
    {
        if !self.started || self.hwnd == 0 {
            return 0;
        }
        let due: u32 = count_reasserts(elapsed);
        if due <= self.reasserts_done {
            return 0;
        }
        let r: u32 = due - self.reasserts_done;
        self.reasserts_done = due;
        r
    }

    /// Note what DWM said when it was asked again. The reported state only ever improves: a
    /// later success means the overlay is transparent now, whatever happened at start-up.
    pub fn recomposed(&mut self, said: Result<(), String>)
        ensures
            final(self)@ == old(self)@.asked_again(answer(said)),
    {
        if said.is_ok() {
            self.composition = Ok(());
        }
    }

    /// Fully click-through: every pixel belongs to whatever is underneath. Where there is a
    /// window, its style has to be set.
    pub fn set_input_region_empty(&mut self) -> (r: Result<(), String>)
        ensures
            match r {
                Ok(()) => old(self)@.hwnd != 0 && final(self)@ == (WinView {
                    rects: Seq::empty(),
                    click_through: true,
                    ..old(self)@
                }),
                Err(e) => old(self)@.hwnd == 0 && final(self)@ == (WinView {
                    rects: Seq::empty(),
                    ..old(self)@
                }) && e@ == "the overlay has no HWND yet"@,
            },
    {
        self.rects = Vec::new();
        self.win()?;
        self.click_through = true;
        Ok(())
    }

    /// The blob's shape this frame, and where the pointer is. Says whether the window's style
    /// has to be changed.
    pub fn set_input_rects(
        &mut self,
        rects: Vec<(i32, i32, i32, i32)>,
        cursor: Option<(i32, i32)>,
    ) -> (r: Result<bool, String>)
        ensures
            ({
                let through = old(self)@.lets_through(rects@, cursor);
                match r {
                    Ok(changed) => {
                        &&& changed == (through != old(self)@.click_through)
                        &&& changed ==> old(self)@.hwnd != 0
                        &&& final(self)@ == (WinView {
                            rects: rects@,
                            click_through: through,
                            ..old(self)@
                        })
                    },
                    Err(e) => {
                        &&& through != old(self)@.click_through && old(self)@.hwnd == 0
                        &&& final(self)@ == (WinView { rects: rects@, ..old(self)@ })
                        &&& e@ == "the overlay has no HWND yet"@
                    },
                }
            }),
    {
        let on_blob = is_pointer_on(&rects, cursor, self.origin);
        self.rects = rects;
        if self.click_through == !on_blob {
            return Ok(false);
        }
        self.win()?;
        self.click_through = !on_blob;
        Ok(true)
    }

    /// Give the mouse back to everyone else on the way out: click-through. Where there is a
    /// window, its style has to be set.
    pub fn restore_input_region(&mut self) -> (r: Result<(), String>)
        ensures
            match r {
                Ok(()) => old(self)@.hwnd != 0 && final(self)@ == (WinView {
                    click_through: true,
                    ..old(self)@
                }),
                Err(e) => old(self)@.hwnd == 0 && final(self)@ == old(self)@ && e@
                    == "the overlay has no HWND yet"@,
            },
    {
        self.win()?;
        self.click_through = true;
        Ok(())
    }

    /// What the window is actually doing: nothing is clickable while it is click-through.
    pub fn read_back_input_region(&self) -> (r: Result<Vec<(i16, i16, u16, u16)>, String>)
        ensures
            r matches Ok(out) && out@ == (if self@.click_through {
                Seq::empty()
            } else {
                self@.rects.map_values(|r: (i32, i32, i32, i32)| cut(r))
            }),
    {
        if self.click_through {
            return Ok(Vec::new());
        }
        Ok(cut_rects(&self.rects))
    }

    /// Nothing to hint.
    pub fn set_size_hints(&self) -> (r: Result<(), String>)
        ensures
            r is Ok,
    {
        Ok(())
    }

    /// The window covers the desktop exactly, so in its own coordinates it is always at the
    /// origin.
    pub fn window_rect(&self) -> (r: Result<(i32, i32, u32, u32), String>)
        ensures
            r == Ok::<(i32, i32, u32, u32), String>((0, 0, self@.size.0, self@.size.1)),
    {
        Ok((0, 0, self.size.0, self.size.1))
    }

    /// Nothing to re-assert: nothing moved the window.
    pub fn force_full_screen_geometry(&self) -> (r: Result<(), String>)
        ensures
            r is Ok,
    {
        Ok(())
    }

    /// DWM composites every window with an alpha channel: reported as 32 bits.
    pub fn depth_of(&self, _handle: u64) -> (r: Result<u8, String>)
        ensures
            r == Ok::<u8, String>(32),
    {
        Ok(32)
    }

    /// The platform-specific half of the startup diagnostics.
    pub fn describe(&self, handle: u64) -> (out: Vec<Line>)
        ensures
            line_views(out@) == self@.lines(handle),
    {
        let mut out: Vec<Line> = Vec::new();
        let mut id = String::new();
        push_prefixed_hex(&mut id, handle, 16);
        assert(id@ =~= prefixed_hex(handle as nat, 16));
        push_line(&mut out, "HWND", id);
        let ghost place = placed_size(
            self.size.0,
            " x "@,
            self.size.1,
            self.origin.0,
            self.origin.1,
        );
        let mut desktop = String::new();
        push_placed_size(
            &mut desktop,
            self.size.0,
            " x ",
            self.size.1,
            self.origin.0,
            self.origin.1,
        );
        assert(desktop@ =~= place);
        push_line(&mut out, "desktop", desktop);
        let alpha = match &self.composition {
            Ok(()) => String::from_str(
                "on (blur-behind, empty region) — the window composites with alpha",
            ),
            Err(e) => {
                let mut s = String::from_str("FAILED  <-- the overlay will be opaque: ");
                s.append(e.as_str());
                s
            },
        };
        push_line(&mut out, "DWM alpha", alpha);
        push_line(
            &mut out,
            "extended style",
            String::from_str(
                "TOPMOST | TOOLWINDOW | NOACTIVATE (not LAYERED — see the module docs)",
            ),
        );
        push_display_lines(&mut out, &self.displays);
        push_line(
            &mut out,
            "click-through",
            String::from_str(
                "WS_EX_TRANSPARENT; the cursor is tested against the blob each frame",
            ),
        );
        assert(line_views(out@) =~= self@.lines(handle));
        out
    }
}

/// Changing the style touches no bit but its own: becoming click-through or not, and taking
/// on the overlay's styles, leave every other bit of the word as SDL set it.
pub proof fn law_styles_keep_what_was_set(style: i64, on: bool)
    ensures
        with_click_through(style, on) & !EX_TRANSPARENT == style & !EX_TRANSPARENT,
        with_click_through(style, on) & EX_TRANSPARENT == (if on {
            EX_TRANSPARENT
        } else {
            0
        }),
        with_overlay_style(style) & !EX_STYLE_ON == style & !EX_STYLE_ON,
        with_overlay_style(style) & EX_STYLE_ON == EX_STYLE_ON,
{
    assert((style | 0x20) & !0x20 == style & !0x20 && (style & !0x20) & !0x20 == style & !0x20
        && (style | 0x20) & 0x20 == 0x20 && (style & !0x20) & 0x20 == 0 && (style | 0x0800_0088)
        & !0x0800_0088 == style & !0x0800_0088 && (style | 0x0800_0088) & 0x0800_0088
        == 0x0800_0088) by (bit_vector);
}

/// Once transparent, reported transparent: asking DWM again never takes a success back, and
/// one success is enough.
pub proof fn law_the_reported_state_only_improves(
    w: WinView,
    said: Result<(), Seq<char>>,
    later: Result<(), Seq<char>>,
)
    ensures
        w.composition is Ok ==> w.asked_again(said).composition is Ok,
        said is Ok ==> w.asked_again(said).asked_again(later).composition is Ok,
        said is Err ==> w.asked_again(said).composition == w.composition,
{
}

/// The moments of the schedule are a fifth of a second, half a second, and one, two and four
/// seconds after start-up: as many are due as have come.
pub proof fn law_the_moments_of_the_schedule(elapsed: Single)
    requires
        !elapsed.nan(),
    ensures
        ({
            let t = elapsed.units();
            let fifth = (Single { bits: 0x3e4c_cccd }).units();
            let half = (Single { bits: 0x3f00_0000 }).units();
            let one = (Single { bits: 0x3f80_0000 }).units();
            let two = (Single { bits: 0x4000_0000 }).units();
            let four = (Single { bits: 0x4080_0000 }).units();
            &&& fifth < half < one < two < four
            &&& reasserts_by(elapsed) == (if t < fifth { 0nat } else { 1 }) + (if t < half {
                0nat
            } else {
                1
            }) + (if t < one { 0nat } else { 1 }) + (if t < two { 0nat } else { 1 }) + (if t
                < four { 0nat } else { 1 })
        }),
{
    let fifth = Single { bits: 0x3e4c_cccd };
    let half = Single { bits: 0x3f00_0000 };
    let one = Single { bits: 0x3f80_0000 };
    let two = Single { bits: 0x4000_0000 };
    let four = Single { bits: 0x4080_0000 };
    fifth.lemma_rank(half);
    half.lemma_rank(one);
    one.lemma_rank(two);
    two.lemma_rank(four);
}

/// The metal takes the mouse where the pointer is on it, as seen from the window's corner,
/// and lets it through everywhere else, and wherever there is no telling.
pub proof fn law_the_metal_takes_the_mouse(
    w: WinView,
    rects: Seq<(i32, i32, i32, i32)>,
    at: (i32, i32),
)
    ensures
        w.lets_through(rects, None),
        !w.lets_through(rects, Some(at)) <==> exists|i: int|
            0 <= i < rects.len() && w.origin.0 + (#[trigger] rects[i]).0 <= at.0 && at.0
                < w.origin.0 + rects[i].0 + rects[i].2 && w.origin.1 + rects[i].1 <= at.1 && at.1
                < w.origin.1 + rects[i].1 + rects[i].3,
{
    crate::overlay::law_where_the_pointer_is(rects, at, w.origin);
}

/// A frame does what has come due and is not done yet, once; before the clock runs, or
/// without a window, it does nothing.
pub proof fn law_a_frame_does_what_is_due(w: WinView, elapsed: Single)
    requires
        !elapsed.nan(),
    ensures
        ({
            let (after, asked) = w.framed(elapsed);
            let t = elapsed.units();
            let running = w.started && w.hwnd != 0;
            &&& !running ==> asked == 0 && after == w
            &&& after.reasserts_done == w.reasserts_done + asked
            &&& running && t >= (Single { bits: 0x4080_0000 }).units() && w.reasserts_done <= 5
                ==> after.reasserts_done == 5
            &&& t < (Single { bits: 0x3e4c_cccd }).units() ==> asked == 0
            &&& after == (WinView { reasserts_done: after.reasserts_done, ..w })
            &&& after.framed(elapsed).1 == 0
        }),
{
    law_the_moments_of_the_schedule(elapsed);
}

} // verus!

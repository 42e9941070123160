//! The X11 overlay: what it tells the server and what it makes of the answers.
//!
//! The interesting part is the input region, which decides which pixels of the window the
//! X server will deliver pointer events to; an empty region means the whole window is
//! click-through and the desktop underneath behaves as if we were not there.

use crate::overlay::{
    describe_screen, line_views, placed_size, push_line, push_placed_size, screen_line, Line,
};
use crate::text::{
    decimal, decimal_text, prefixed_hex, push_decimal, push_prefixed_hex, quote, quoted, same_text,
};
use vstd::prelude::*;

verus! {

/// Frame budget while the blob is asleep, in milliseconds. The input region means the X
/// server wakes us the instant the pointer touches the blob, so idling this slowly costs
/// nothing in responsiveness.
pub const IDLE_WAIT_MS: u32 = 66;

/// The input region is the hit test here: a click that reaches this process already landed
/// on the blob.
pub const REGION_IS_THE_HIT_TEST: bool = true;

/// Getting a transparent window means choosing an X visual by hand and checking what the
/// driver did with it, so the overlay has a list of strategies to try.
pub const NEEDS_VISUAL_STRATEGY: bool = true;

/// The SDL video driver this overlay can actually work with.
pub const REQUIRED_VIDEO_DRIVER: &'static str = "x11";

/// `_NET_WM_STATE` client-message action: add the listed states.
pub const NET_WM_STATE_ADD: u32 = 1;

/// `_NET_WM_STATE` client-message action: remove the listed states.
pub const NET_WM_STATE_REMOVE: u32 = 0;

/// `_NET_WM_DESKTOP` value meaning "show on every desktop".
pub const ALL_DESKTOPS: u32 = 0xFFFF_FFFF;

/// What is wrong with running under this video driver.
pub open spec fn wrong_driver(driver: Seq<char>) -> Seq<char> {
    "SDL chose the "@ + quoted(driver) + " video driver, but liquidMetal needs "@ + quoted("x11"@)
        + " here.\nThe overlay relies on X11 features (ARGB visuals, EWMH, XShape) that have no SDL-reachable equivalent on Wayland.\nCheck that an X server or XWayland is running on $DISPLAY."@
}

pub fn check_video_driver(driver: &str) -> (r: Result<(), String>)
    ensures
        match r {
            Ok(()) => driver@ == "x11"@,
            Err(e) => driver@ != "x11"@ && e@ == wrong_driver(driver@),
        },
{
    if same_text(driver, "x11") {
        return Ok(());
    }
    let mut e = String::from_str("SDL chose the ");
    e.append(quote(driver).as_str());
    e.append(" video driver, but liquidMetal needs ");
    e.append(quote("x11").as_str());
    e.append(
        " here.\nThe overlay relies on X11 features (ARGB visuals, EWMH, XShape) that have no SDL-reachable equivalent on Wayland.\nCheck that an X server or XWayland is running on $DISPLAY.",
    );
    Err(e)
}

/// One monitor, as RandR reports it.
#[derive(Debug, Clone, PartialEq, Eq)]
pub struct MonitorInfo {
    pub name: String,
    pub x: i16,
    pub y: i16,
    pub width: u16,
    pub height: u16,
    pub primary: bool,
}

/// What a [`MonitorInfo`] says.
pub struct MonitorView {
    pub name: Seq<char>,
    pub x: i16,
    pub y: i16,
    pub width: u16,
    pub height: u16,
    pub primary: bool,
}

impl View for MonitorInfo {
    type V = MonitorView;

    open spec fn view(&self) -> MonitorView {
        MonitorView {
            name: self.name@,
            x: self.x,
            y: self.y,
            width: self.width,
            height: self.height,
            primary: self.primary,
        }
    }
}

/// What each monitor of a list says.
pub open spec fn monitor_views(list: Seq<MonitorInfo>) -> Seq<MonitorView> {
    list.map_values(|m: MonitorInfo| m@)
}

/// A rectangle as the X server takes it.
#[derive(Copy, Clone, Debug, PartialEq, Eq, Structural)]
pub struct Rectangle {
    pub x: i16,
    pub y: i16,
    pub width: u16,
    pub height: u16,
}

/// What the overlay knows of the X server and has told it.
#[derive(Debug)]
pub struct X11 {
    /// The SDL window's XID, once known.
    pub win: Option<u32>,
    /// Last input region actually uploaded, so identical round-trips can be skipped.
    pub last_rects: Option<Vec<Rectangle>>,
    /// Full X virtual screen: the union of every monitor, which is what the overlay window
    /// is sized to so the blob can be dragged between displays.
    pub virtual_w: u16,
    pub virtual_h: u16,
    pub shape_version: (u16, u16),
    pub monitors: Vec<MonitorInfo>,
    /// A depth-32 TrueColor visual, if the screen has one.
    pub argb_visual: Option<u32>,
}

/// What an [`X11`] is.
pub struct X11View {
    pub win: Option<u32>,
    pub last_rects: Option<Seq<Rectangle>>,
    pub virtual_size: (u16, u16),
    pub shape_version: (u16, u16),
    pub monitors: Seq<MonitorView>,
    pub argb_visual: Option<u32>,
}

impl View for X11 {
    type V = X11View;

    open spec fn view(&self) -> X11View {
        X11View {
            win: self.win,
            last_rects: match self.last_rects {
                Some(r) => Some(r@),
                None => None,
            },
            virtual_size: (self.virtual_w, self.virtual_h),
            shape_version: self.shape_version,
            monitors: monitor_views(self.monitors@),
            argb_visual: self.argb_visual,
        }
    }
}

/// A number kept within the range of sixteen signed bits.
pub open spec fn clamp16(n: i32) -> i16 {
    if n < -0x8000 {
        -0x8000i16
    } else if n > 0x7fff {
        0x7fff
    } else {
        n as i16
    }
}

/// A size kept within sixteen bits.
pub open spec fn cap16(n: i32) -> u16 {
    if n > 0xffff {
        0xffff
    } else {
        n as u16
    }
}

/// The rectangles of an input region as the X server takes them; empty ones are left out.
pub open spec fn for_server(rects: Seq<(i32, i32, i32, i32)>) -> Seq<Rectangle>
    decreases rects.len(),
{
    if rects.len() == 0 {
        Seq::empty()
    } else {
        let before = for_server(rects.drop_last());
        let (x, y, w, h) = rects.last();
        if w <= 0 || h <= 0 {
            before
        } else {
            before.push(
                Rectangle { x: clamp16(x), y: clamp16(y), width: cap16(w), height: cap16(h) },
            )
        }
    }
}

fn within16(n: i32) -> (r: i16)
    ensures
        r == clamp16(n),
{
    if n < -0x8000 {
        -0x8000i16
    } else if n > 0x7fff {
        0x7fff
    } else {
        n as i16
    }
}

fn convert_rects(rects: &Vec<(i32, i32, i32, i32)>) -> (out: Vec<Rectangle>)
    ensures
        out@ == for_server(rects@),
{
    let mut out: Vec<Rectangle> = Vec::new();
    let mut i: usize = 0;
    assert(rects@.take(0) =~= Seq::empty());
    while i < rects.len()
        invariant
            i <= rects@.len(),
            out@ == for_server(rects@.take(i as int)),
        decreases rects@.len() - i,
    {
        assert(rects@.take(i + 1).drop_last() =~= rects@.take(i as int));
        assert(rects@.take(i + 1).last() == rects@[i as int]);
        let (x, y, w, h) = rects[i];
        if w > 0 && h > 0 {
            out.push(
                Rectangle {
                    x: within16(x),
                    y: within16(y),
                    width: if w > 0xffff {
                        0xffff
                    } else {
                        w as u16
                    },
                    height: if h > 0xffff {
                        0xffff
                    } else {
                        h as u16
                    },
                },
            );
        }
        i = i + 1;
    }
    assert(rects@.take(i as int) =~= rects@);
    out
}

/// Whether two input regions are the same, rectangle by rectangle. This is what keeps a
/// slow drag from producing one X round-trip per frame.
pub fn rects_eq(a: &[Rectangle], b: &[Rectangle]) -> (r: bool)
    ensures
        r == (a@ == b@),
{
    if a.len() != b.len() {
        return false;
    }
    let mut i: usize = 0;
    while i < a.len()
        invariant
            i <= a@.len(),
            a@.len() == b@.len(),
            forall|k: int| 0 <= k < i ==> a@[k] == b@[k],
        decreases a@.len() - i,
    {
        if a[i].x != b[i].x || a[i].y != b[i].y || a[i].width != b[i].width || a[i].height
            != b[i].height {
            assert(a@[i as int] != b@[i as int]);
            return false;
        }
        i = i + 1;
    }
    assert(a@ =~= b@);
    true
}

/// A visual that the X server offers.
#[derive(Copy, Clone, Debug, PartialEq, Eq, Structural)]
pub struct VisualInfo {
    pub id: u32,
    pub true_color: bool,
    pub red_mask: u32,
    pub green_mask: u32,
    pub blue_mask: u32,
}

/// The visuals that the X server offers at one depth.
#[derive(Debug)]
pub struct DepthInfo {
    pub depth: u8,
    pub visuals: Vec<VisualInfo>,
}

/// Whether a visual of depth 32 has a real alpha channel: its RGB masks cover 24 bits, the
/// remaining 8 are alpha.
pub open spec fn has_alpha(v: VisualInfo) -> bool {
    v.true_color && v.red_mask | v.green_mask | v.blue_mask == 0x00ff_ffff
}

/// The first visual from `j` on that has an alpha channel.
pub open spec fn alpha_visual(visuals: Seq<VisualInfo>, j: int) -> Option<u32>
    decreases visuals.len() - j,
{
    if j < 0 || j >= visuals.len() {
        None
    } else if has_alpha(visuals[j]) {
        Some(visuals[j].id)
    } else {
        alpha_visual(visuals, j + 1)
    }
}

/// The first visual with an alpha channel at depth 32, from entry `i` on.
pub open spec fn argb_visual(depths: Seq<DepthInfo>, i: int) -> Option<u32>
    decreases depths.len() - i,
{
    if i < 0 || i >= depths.len() {
        None
    } else if depths[i].depth == 32 && alpha_visual(depths[i].visuals@, 0) is Some {
        alpha_visual(depths[i].visuals@, 0)
    } else {
        argb_visual(depths, i + 1)
    }
}

/// Find a 32-bit TrueColor visual, one with a real alpha channel.
///
/// GL alpha bits alone do not make a window transparent: depth-24 visuals happily claim
/// them. So the visual is picked here and handed to SDL.
pub fn find_argb_visual(depths: &Vec<DepthInfo>) -> (r: Option<u32>)
    ensures
        r == argb_visual(depths@, 0),
{
    let mut i: usize = 0;
    while i < depths.len()
        invariant
            i <= depths@.len(),
            argb_visual(depths@, 0) == argb_visual(depths@, i as int),
        decreases depths@.len() - i,
    {
        if depths[i].depth == 32 {
            let visuals = &depths[i].visuals;
            let mut j: usize = 0;
            while j < visuals.len()
                invariant
                    j <= visuals@.len(),
                    i < depths@.len(),
                    depths@[i as int].depth == 32,
                    visuals@ == depths@[i as int].visuals@,
                    argb_visual(depths@, 0) == argb_visual(depths@, i as int),
                    alpha_visual(visuals@, 0) == alpha_visual(visuals@, j as int),
                decreases visuals@.len() - j,
            {
                let v = visuals[j];
                if v.true_color && v.red_mask | v.green_mask | v.blue_mask == 0x00ff_ffff {
                    return Some(v.id);
                }
                j = j + 1;
            }
        }
        i = i + 1;
    }
    None
}

/// The atoms that the window states are made of.
#[derive(Copy, Clone, Debug, PartialEq, Eq, Structural)]
pub struct StateAtoms {
    pub above: u32,
    pub sticky: u32,
    pub skip_taskbar: u32,
    pub skip_pager: u32,
    pub demands_attention: u32,
}

impl StateAtoms {
    /// The states the window is to be mapped with.
    pub fn initial(self) -> (r: [u32; 4])
        ensures
            r@ == seq![self.above, self.sticky, self.skip_taskbar, self.skip_pager],
    {
        let r = [self.above, self.sticky, self.skip_taskbar, self.skip_pager];
        assert(r@ =~= seq![self.above, self.sticky, self.skip_taskbar, self.skip_pager]);
        r
    }

    /// The words of message number `i` of those that re-assert the states once the window
    /// is mapped. Two states per message is the EWMH maximum.
    pub open spec fn message(self, i: int) -> Seq<u32> {
        if i == 0 {
            seq![NET_WM_STATE_ADD, self.above, self.sticky, 1, 0]
        } else if i == 1 {
            seq![NET_WM_STATE_ADD, self.skip_taskbar, self.skip_pager, 1, 0]
        } else {
            seq![NET_WM_STATE_REMOVE, self.demands_attention, 0, 1, 0]
        }
    }

    /// The messages that re-assert the states once the window is mapped.
    pub fn messages(self) -> (r: Vec<[u32; 5]>)
        ensures
            r@.len() == 3,
            forall|i: int| 0 <= i < 3 ==> (#[trigger] r@[i])@ == self.message(i),
    {
        let a = [NET_WM_STATE_ADD, self.above, self.sticky, 1, 0];
        let b = [NET_WM_STATE_ADD, self.skip_taskbar, self.skip_pager, 1, 0];
        let c = [NET_WM_STATE_REMOVE, self.demands_attention, 0, 1, 0];
        assert(a@ =~= self.message(0));
        assert(b@ =~= self.message(1));
        assert(c@ =~= self.message(2));
        let mut r: Vec<[u32; 5]> = Vec::new();
        r.push(a);
        r.push(b);
        r.push(c);
        r
    }
}

/// A window id as the X server takes it, if it is one: 32 bits.
pub fn window_id(xid: u64) -> (r: Result<u32, String>)
    ensures
        match r {
            Ok(w) => w == xid,
            Err(e) => xid > u32::MAX && e@ == "not a 32-bit X window id: "@ + prefixed_hex(
                xid as nat,
                1,
            ),
        },
{
    if xid <= u32::MAX as u64 {
        Ok(xid as u32)
    } else {
        let mut e = String::from_str("not a 32-bit X window id: ");
        push_prefixed_hex(&mut e, xid, 1);
        Err(e)
    }
}

/// What the log says about where the window is.
pub open spec fn place_line(
    place: Result<(i32, i32, u32, u32), Seq<char>>,
    virtual_size: (u16, u16),
) -> Seq<char> {
    match place {
        Ok((x, y, w, h)) => placed_size(w, " x "@, h, x, y) + (if x == 0 && y == 0 && w
            == virtual_size.0 && h == virtual_size.1 {
            "  [matches the virtual screen]"@
        } else {
            "  <-- NOT the full virtual screen"@
        }),
        Err(e) => "unknown ("@ + e + ")"@,
    }
}

/// What the log says about the window's depth. The window itself has to be depth 32: GL
/// alpha bits are not enough.
pub open spec fn depth_line(depth: Result<u8, Seq<char>>, argb: Option<u32>) -> Seq<char> {
    match depth {
        Ok(d) => if d == 32 {
            "32  <-- ARGB visual "@ + (match argb {
                Some(v) => prefixed_hex(v as nat, 1),
                None => "(SDL's choice)"@,
            }) + ", alpha channel present"@
        } else {
            decimal(d as nat) + "  <-- NO ALPHA CHANNEL: the overlay will be opaque"@
        },
        Err(e) => "unknown ("@ + e + ")"@,
    }
}

/// The lines about the first `n` monitors.
pub open spec fn monitor_lines(list: Seq<MonitorView>, n: nat) -> Seq<(Seq<char>, Seq<char>)>
    decreases n,
{
    if n == 0 {
        Seq::empty()
    } else {
        let m = list[n - 1];
        monitor_lines(list, (n - 1) as nat).push(
            (
                "monitor"@,
                screen_line(
                    m.name,
                    m.width as nat,
                    m.height as nat,
                    m.x as int,
                    m.y as int,
                    m.primary,
                ),
            ),
        )
    }
}

impl X11View {
    /// The input region to send for these rectangles: none where the server has it already.
    pub open spec fn upload(self, rects: Seq<(i32, i32, i32, i32)>) -> Option<Seq<Rectangle>> {
        if self.last_rects == Some(for_server(rects)) {
            None
        } else {
            Some(for_server(rects))
        }
    }

    /// With a region that has reached the server.
    pub open spec fn holding(self, rects: Seq<Rectangle>) -> X11View {
        X11View { last_rects: Some(rects), ..self }
    }

    /// The platform's half of the startup log.
    pub open spec fn lines(
        self,
        xid: u64,
        place: Result<(i32, i32, u32, u32), Seq<char>>,
        depth: Result<u8, Seq<char>>,
    ) -> Seq<(Seq<char>, Seq<char>)> {
        let head = seq![
            (
                "window XID"@,
                prefixed_hex(xid as nat, 8) + " ("@ + decimal(xid as nat) + ")"@,
            ),
            ("window on screen"@, place_line(place, self.virtual_size)),
            ("X window depth"@, depth_line(depth, self.argb_visual)),
            (
                "XShape version"@,
                decimal(self.shape_version.0 as nat) + "."@ + decimal(
                    self.shape_version.1 as nat,
                ),
            ),
            (
                "X virtual screen"@,
                decimal(self.virtual_size.0 as nat) + " x "@ + decimal(self.virtual_size.1 as nat)
                    + " at (0, 0)"@,
            ),
        ];
        let screens = if self.monitors.len() == 0 {
            seq![("monitors"@, "(RandR 1.5 GetMonitors unavailable)"@)]
        } else {
            monitor_lines(self.monitors, self.monitors.len())
        };
        head + screens + seq![("input region"@, "empty (whole window click-through)"@)]
    }
}

fn describe_place(place: &Result<(i32, i32, u32, u32), String>, virtual_size: (u16, u16)) -> (out:
    String)
    ensures
        out@ == place_line(
            match *place {
                Ok(p) => Ok(p),
                Err(e) => Err(e@),
            },
            virtual_size,
        ),
{
    match place {
        Ok((x, y, w, h)) => {
            let mut out = String::new();
            push_placed_size(&mut out, *w, " x ", *h, *x, *y);
            assert(out@ =~= placed_size(*w, " x "@, *h, *x, *y));
            if *x == 0 && *y == 0 && *w == virtual_size.0 as u32 && *h == virtual_size.1 as u32 {
                out.append("  [matches the virtual screen]");
            } else {
                out.append("  <-- NOT the full virtual screen");
            }
            out
        },
        Err(e) => {
            let mut out = String::from_str("unknown (");
            out.append(e.as_str());
            out.append(")");
            out
        },
    }
}

fn describe_depth(depth: &Result<u8, String>, argb: Option<u32>) -> (out: String)
    ensures
        out@ == depth_line(
            match *depth {
                Ok(d) => Ok(d),
                Err(e) => Err(e@),
            },
            argb,
        ),
{
    match depth {
        Ok(d) => {
            if *d == 32 {
                let mut out = String::from_str("32  <-- ARGB visual ");
                match argb {
                    Some(v) => push_prefixed_hex(&mut out, v as u64, 1),
                    None => out.append("(SDL's choice)"),
                }
                out.append(", alpha channel present");
                out
            } else {
                let mut out = decimal_text(*d as u64);
                out.append("  <-- NO ALPHA CHANNEL: the overlay will be opaque");
                out
            }
        },
        Err(e) => {
            let mut out = String::from_str("unknown (");
            out.append(e.as_str());
            out.append(")");
            out
        },
    }
}

impl X11 {
    /// An overlay that has no window yet, on a server that has told about itself.
    pub fn new(
        virtual_w: u16,
        virtual_h: u16,
        shape_version: (u16, u16),
        monitors: Vec<MonitorInfo>,
        argb_visual: Option<u32>,
    ) -> (r: X11)
        ensures
            r@ == (X11View {
                win: None,
                last_rects: None,
                virtual_size: (virtual_w, virtual_h),
                shape_version,
                monitors: monitor_views(monitors@),
                argb_visual,
            }),
    {
        X11 {
            win: None,
            last_rects: None,
            virtual_w,
            virtual_h,
            shape_version,
            monitors,
            argb_visual,
        }
    }

    /// The whole desktop, in logical pixels: how big the overlay window has to be.
    pub fn desktop_size(&self) -> (r: (u32, u32))
        ensures
            r.0 == self@.virtual_size.0 && r.1 == self@.virtual_size.1,
    {
        (self.virtual_w as u32, self.virtual_h as u32)
    }

    /// The X root window is the origin, always.
    pub fn desktop_origin(&self) -> (r: (i32, i32))
        ensures
            r == (0i32, 0i32),
    {
        (0, 0)
    }

    /// Adopt the window id SDL handed us. X window ids are 32-bit; the SDL type is wider,
    /// so this is where that gets checked rather than blindly truncated.
    pub fn set_window(&mut self, xid: u64) -> (r: Result<(), String>)
        ensures
            match r {
                Ok(()) => 0 < xid <= u32::MAX && final(self)@ == (X11View {
                    win: Some(xid as u32),
                    ..old(self)@
                }),
                Err(e) => final(self)@ == old(self)@ && e@ == (if xid > u32::MAX {
                    "SDL reported an X window id that is not 32-bit: "@ + prefixed_hex(
                        xid as nat,
                        1,
                    )
                } else {
                    "SDL reported a null X window id"@
                }) && (xid > u32::MAX || xid == 0),
            },
    {
        if xid > u32::MAX as u64 {
            let mut e = String::from_str("SDL reported an X window id that is not 32-bit: ");
            push_prefixed_hex(&mut e, xid, 1);
            return Err(e);
        }
        if xid == 0 {
            return Err(String::from_str("SDL reported a null X window id"));
        }
        self.win = Some(xid as u32);
        Ok(())
    }

    /// The window, if there is one yet.
    pub fn win(&self) -> (r: Result<u32, String>)
        ensures
            match r {
                Ok(w) => self@.win == Some(w),
                Err(e) => self@.win is None && e@ == "no X window has been attached yet"@,
            },
    {
        match self.win {
            Some(w) => Ok(w),
            None => Err(String::from_str("no X window has been attached yet")),
        }
    }

    /// The input region for these rectangles (top-down window-relative pixels), if it has
    /// to be sent: a region that is the same as the last one uploaded is not.
    pub fn set_input_rects(&self, rects: &Vec<(i32, i32, i32, i32)>) -> (r: Option<Vec<Rectangle>>)
        ensures
            self@.upload(rects@) == (match r {
                Some(out) => Some(out@),
                None => None,
            }),
    {
        let converted = convert_rects(rects);
        match &self.last_rects {
            Some(prev) => {
                if rects_eq(prev.as_slice(), converted.as_slice()) {
                    return None;
                }
            },
            None => {},
        }
        Some(converted)
    }

    /// The input region that makes the window take all clicks again. Used on shutdown so
    /// nothing odd is left behind if the window outlives us for a moment.
    pub fn full_region(&self) -> (r: Vec<Rectangle>)
        ensures
            r@ == seq![
                Rectangle {
                    x: 0,
                    y: 0,
                    width: self@.virtual_size.0,
                    height: self@.virtual_size.1,
                },
            ],
    {
        let mut r: Vec<Rectangle> = Vec::new();
        r.push(Rectangle { x: 0, y: 0, width: self.virtual_w, height: self.virtual_h });
        assert(r@ =~= seq![
            Rectangle { x: 0, y: 0, width: self.virtual_w, height: self.virtual_h },
        ]);
        r
    }

    /// Note that an input region has reached the server.
    pub fn uploaded(&mut self, rects: Vec<Rectangle>)
        ensures
            final(self)@ == old(self)@.holding(rects@),
    {
        self.last_rects = Some(rects);
    }

    /// ICCCM WM_SIZE_HINTS, 18 words: position and size are the user's wish, the window is
    /// exactly as large as the virtual screen, and its gravity is static. The obsolete
    /// words are kept populated because some window managers still read them.
    pub fn size_hints(&self) -> (r: [u32; 18])
        ensures
            ({
                let w = self@.virtual_size.0 as u32;
                let h = self@.virtual_size.1 as u32;
                r@ == seq![
                    0x23fu32,
                    0,
                    0,
                    w,
                    h,
                    w,
                    h,
                    w,
                    h,
                    0,
                    0,
                    0,
                    0,
                    0,
                    0,
                    0,
                    0,
                    10,
                ]
            }),
    {
        let w: u32 = self.virtual_w as u32;
        let h: u32 = self.virtual_h as u32;
        let us_position: u32 = 1;
        let us_size: u32 = 1 << 1;
        let p_position: u32 = 1 << 2;
        let p_size: u32 = 1 << 3;
        let p_min_size: u32 = 1 << 4;
        let p_max_size: u32 = 1 << 5;
        let p_win_gravity: u32 = 1 << 9;
        let static_gravity: u32 = 10;
        let flags: u32 = us_position | us_size | p_position | p_size | p_min_size | p_max_size
            | p_win_gravity;
        assert((1u32 | (1u32 << 1) | (1u32 << 2) | (1u32 << 3) | (1u32 << 4) | (1u32 << 5) | (1u32
            << 9)) == 0x23f) by (bit_vector);
        let r: [u32; 18] = [
            flags,
            0,
            0,
            w,
            h,
            w,
            h,
            w,
            h,
            0,
            0,
            0,
            0,
            0,
            0,
            0,
            0,
            static_gravity,
        ];
        assert(r@ =~= seq![0x23fu32, 0, 0, w, h, w, h, w, h, 0, 0, 0, 0, 0, 0, 0, 0, 10]);
        r
    }

    /// The platform-specific half of the startup diagnostics, as label/value pairs, given
    /// what the X server says of the window `xid`: where it is, and how deep.
    pub fn describe(
        &self,
        xid: u64,
        place: Result<(i32, i32, u32, u32), String>,
        depth: Result<u8, String>,
    ) -> (out: Vec<Line>)
        ensures
            line_views(out@) == self@.lines(
                xid,
                match place {
                    Ok(p) => Ok(p),
                    Err(e) => Err(e@),
                },
                match depth {
                    Ok(d) => Ok(d),
                    Err(e) => Err(e@),
                },
            ),
    {
        let mut out: Vec<Line> = Vec::new();
        let mut id = String::new();
        push_prefixed_hex(&mut id, xid, 8);
        id.append(" (");
        push_decimal(&mut id, xid);
        id.append(")");
        assert(id@ =~= prefixed_hex(xid as nat, 8) + " ("@ + decimal(xid as nat) + ")"@);
        push_line(&mut out, "window XID", id);
        push_line(
            &mut out,
            "window on screen",
            describe_place(&place, (self.virtual_w, self.virtual_h)),
        );
        push_line(&mut out, "X window depth", describe_depth(&depth, self.argb_visual));
        let mut version = decimal_text(self.shape_version.0 as u64);
        version.append(".");
        push_decimal(&mut version, self.shape_version.1 as u64);
        push_line(&mut out, "XShape version", version);
        let mut screen = decimal_text(self.virtual_w as u64);
        screen.append(" x ");
        push_decimal(&mut screen, self.virtual_h as u64);
        screen.append(" at (0, 0)");
        push_line(&mut out, "X virtual screen", screen);
        let ghost head = line_views(out@);
        if self.monitors.len() == 0 {
            push_line(
                &mut out,
                "monitors",
                String::from_str("(RandR 1.5 GetMonitors unavailable)"),
            );
        } else {
            let ghost all = monitor_views(self.monitors@);
            let mut i: usize = 0;
            assert(line_views(out@) =~= head + monitor_lines(all, 0));
            while i < self.monitors.len()
                invariant
                    i <= self.monitors@.len(),
                    all == monitor_views(self.monitors@),
                    line_views(out@) == head + monitor_lines(all, i as nat),
                decreases self.monitors@.len() - i,
            {
                let m = &self.monitors[i];
                assert(all[i as int] == self.monitors@[i as int]@);
                let line = describe_screen(
                    m.name.as_str(),
                    m.width as u32,
                    m.height as u32,
                    m.x as i32,
                    m.y as i32,
                    m.primary,
                );
                push_line(&mut out, "monitor", line);
                i = i + 1;
                assert(line_views(out@) =~= head + monitor_lines(all, i as nat));
            }
        }
        push_line(
            &mut out,
            "input region",
            String::from_str("empty (whole window click-through)"),
        );
        assert(line_views(out@) =~= self@.lines(
            xid,
            match place {
                Ok(p) => Ok(p),
                Err(e) => Err(e@),
            },
            match depth {
                Ok(d) => Ok(d),
                Err(e) => Err(e@),
            },
        ));
        out
    }
}

/// A region is sent once: after it has reached the server it is not sent again, whatever
/// rectangles it is made of, until it changes.
pub proof fn law_an_unchanged_region_is_not_sent_again(
    x: X11View,
    rects: Seq<(i32, i32, i32, i32)>,
    other: Seq<(i32, i32, i32, i32)>,
)
    ensures
        x.holding(for_server(rects)).upload(rects) is None,
        for_server(other) != for_server(rects) ==> x.holding(for_server(rects)).upload(other)
            == Some(for_server(other)),
{
}

/// A region for the server holds no empty rectangle, and none that its numbers cannot hold:
/// a rectangle inside the range of the numbers is sent as it is.
pub proof fn law_a_sent_region_keeps_what_fits(rects: Seq<(i32, i32, i32, i32)>, i: int)
    requires
        0 <= i < rects.len(),
        rects[i].2 > 0 && rects[i].3 > 0,
        -0x8000 <= rects[i].0 <= 0x7fff && -0x8000 <= rects[i].1 <= 0x7fff,
        rects[i].2 <= 0xffff && rects[i].3 <= 0xffff,
    ensures
        exists|k: int|
            0 <= k < for_server(rects).len() && (#[trigger] for_server(rects)[k]) == (Rectangle {
                x: rects[i].0 as i16,
                y: rects[i].1 as i16,
                width: rects[i].2 as u16,
                height: rects[i].3 as u16,
            }),
        forall|k: int|
            0 <= k < for_server(rects).len() ==> (#[trigger] for_server(rects)[k]).width > 0
                && for_server(rects)[k].height > 0,
    decreases rects.len(),
{
    lemma_no_empty_rectangle(rects);
    let before = for_server(rects.drop_last());
    if i < rects.len() - 1 {
        law_a_sent_region_keeps_what_fits(rects.drop_last(), i);
        let wanted = Rectangle {
            x: rects[i].0 as i16,
            y: rects[i].1 as i16,
            width: rects[i].2 as u16,
            height: rects[i].3 as u16,
        };
        assert(rects.drop_last()[i] == rects[i]);
        let k = choose|k: int| 0 <= k < before.len() && (#[trigger] before[k]) == wanted;
        assert(for_server(rects)[k] == wanted);
    } else {
        assert(for_server(rects)[before.len() as int].width == rects[i].2);
    }
}

proof fn lemma_no_empty_rectangle(rects: Seq<(i32, i32, i32, i32)>)
    ensures
        forall|k: int|
            0 <= k < for_server(rects).len() ==> (#[trigger] for_server(rects)[k]).width > 0
                && for_server(rects)[k].height > 0,
    decreases rects.len(),
{
    if rects.len() > 0 {
        lemma_no_empty_rectangle(rects.drop_last());
        let before = for_server(rects.drop_last());
        assert forall|k: int| 0 <= k < for_server(rects).len() implies (#[trigger] for_server(
            rects,
        )[k]).width > 0 && for_server(rects)[k].height > 0 by {
            if k < before.len() {
                assert(for_server(rects)[k] == before[k]);
            }
        }
    }
}

/// The visual for the overlay is the first of depth 32 that has a real alpha channel, that
/// is, that has true colour and leaves just eight of its bits to no colour.
pub proof fn law_the_visual_has_alpha(depths: Seq<DepthInfo>, i: int, j: int)
    ensures
        argb_visual(depths, 0) matches Some(id) ==> exists|a: int, b: int|
            #![trigger depths[a].visuals@[b]]
            0 <= a < depths.len() && depths[a].depth == 32 && 0 <= b < depths[a].visuals@.len()
                && depths[a].visuals@[b].id == id && depths[a].visuals@[b].true_color && (
            depths[a].visuals@[b].red_mask | depths[a].visuals@[b].green_mask
                | depths[a].visuals@[b].blue_mask) == 0x00ff_ffff,
        0 <= i < depths.len() && depths[i].depth == 32 && 0 <= j < depths[i].visuals@.len()
            && depths[i].visuals@[j].true_color && (depths[i].visuals@[j].red_mask
            | depths[i].visuals@[j].green_mask | depths[i].visuals@[j].blue_mask) == 0x00ff_ffff
            ==> argb_visual(depths, 0) is Some,
{
    lemma_argb_visual(depths, 0, i, j);
}

proof fn lemma_alpha_visual(v: Seq<VisualInfo>, from: int, j: int)
    requires
        0 <= from,
    ensures
        alpha_visual(v, from) matches Some(id) ==> exists|b: int|
            from <= b < v.len() && (#[trigger] v[b]).id == id && has_alpha(v[b]),
        from <= j < v.len() && has_alpha(v[j]) ==> alpha_visual(v, from) is Some,
    decreases v.len() - from,
{
    if from < v.len() && !has_alpha(v[from]) {
        lemma_alpha_visual(v, from + 1, j);
    }
}

proof fn lemma_argb_visual(depths: Seq<DepthInfo>, from: int, i: int, j: int)
    requires
        0 <= from,
    ensures
        argb_visual(depths, from) matches Some(id) ==> exists|a: int, b: int|
            #![trigger depths[a].visuals@[b]]
            from <= a < depths.len() && depths[a].depth == 32 && 0 <= b < depths[a].visuals@.len()
                && depths[a].visuals@[b].id == id && has_alpha(depths[a].visuals@[b]),
        from <= i < depths.len() && depths[i].depth == 32 && 0 <= j < depths[i].visuals@.len()
            && has_alpha(depths[i].visuals@[j]) ==> argb_visual(depths, from) is Some,
    decreases depths.len() - from,
{
    if from < depths.len() {
        let v = depths[from].visuals@;
        lemma_alpha_visual(v, 0, j);
        lemma_argb_visual(depths, from + 1, i, j);
        if depths[from].depth == 32 && alpha_visual(v, 0) is Some {
            let id = alpha_visual(v, 0)->0;
            let b = choose|b: int| 0 <= b < v.len() && (#[trigger] v[b]).id == id && has_alpha(v[b]);
            assert(depths[from].visuals@[b].id == id);
        }
    }
}

/// Where no rectangle is empty, the region for the server has each of them in its place,
/// moved into the range of the server's numbers where it lies beyond.
pub proof fn law_a_region_is_sent_in_order(rects: Seq<(i32, i32, i32, i32)>, k: int)
    requires
        forall|i: int|
            0 <= i < rects.len() ==> (#[trigger] rects[i]).2 > 0 && rects[i].3 > 0,
        0 <= k < rects.len(),
    ensures
        ({
            let (x, y, w, h) = rects[k];
            let s = for_server(rects)[k];
            &&& for_server(rects).len() == rects.len()
            &&& s.x == (if x < -32768 { -32768 } else if x > 32767 { 32767 } else { x as int })
            &&& s.y == (if y < -32768 { -32768 } else if y > 32767 { 32767 } else { y as int })
            &&& s.width == (if w > 65535 { 65535 } else { w as int })
            &&& s.height == (if h > 65535 { 65535 } else { h as int })
        }),
    decreases rects.len(),
{
    let head = rects.drop_last();
    assert forall|i: int| 0 <= i < head.len() implies (#[trigger] head[i]).2 > 0 && head[i].3
        > 0 by {
        assert(head[i] == rects[i]);
    }
    assert(rects.last().2 > 0 && rects.last().3 > 0) by {
        assert(rects[rects.len() - 1].2 > 0);
    }
    if head.len() > 0 {
        let m = if k < head.len() { k } else { 0 };
        law_a_region_is_sent_in_order(head, m);
    } else {
        assert(for_server(head).len() == 0);
    }
}

/// The window manager is asked, twice two at a time, to keep the window above the others, on
/// every desktop and out of its lists, and then to drop the state of demanding attention.
pub proof fn law_which_states_are_asked_for(a: StateAtoms)
    ensures
        a.message(0) == seq![1u32, a.above, a.sticky, 1u32, 0u32],
        a.message(1) == seq![1u32, a.skip_taskbar, a.skip_pager, 1u32, 0u32],
        a.message(2) == seq![0u32, a.demands_attention, 0u32, 1u32, 0u32],
{
}

} // verus!

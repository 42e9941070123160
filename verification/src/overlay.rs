//! What the overlays of all platforms share: displays, the pointer, the startup log.

use crate::desk::{as_signed, least, most, signed};
use crate::region::{covered, hit_test, rect_ints};
use crate::text::{
    decimal, decimal_text, left_aligned, push_decimal, push_left, push_right, push_signed,
    right_aligned, signed_decimal, signed_text,
};
use vstd::prelude::*;

verus! {

/// One display.
#[derive(Clone, Debug, PartialEq, Eq)]
pub struct DisplayInfo {
    pub name: String,
    pub x: i32,
    pub y: i32,
    pub width: u32,
    pub height: u32,
    pub primary: bool,
}

/// What a [`DisplayInfo`] says.
pub struct DisplayView {
    pub name: Seq<char>,
    pub x: i32,
    pub y: i32,
    pub width: u32,
    pub height: u32,
    pub primary: bool,
}

impl View for DisplayInfo {
    type V = DisplayView;

    open spec fn view(&self) -> DisplayView {
        DisplayView {
            name: self.name@,
            x: self.x,
            y: self.y,
            width: self.width,
            height: self.height,
            primary: self.primary,
        }
    }
}

/// What each display of a list says.
pub open spec fn display_views(list: Seq<DisplayInfo>) -> Seq<DisplayView> {
    list.map_values(|d: DisplayInfo| d@)
}

/// A rectangle around displays: left, top, right, bottom.
pub struct Hull {
    pub x0: int,
    pub y0: int,
    pub x1: int,
    pub y1: int,
}

/// The rectangle around the first `n` displays; an empty one, inside out, around none.
pub open spec fn hull(list: Seq<DisplayView>, n: int) -> Hull
    decreases n,
{
    if n <= 0 {
        Hull { x0: i32::MAX as int, y0: i32::MAX as int, x1: i32::MIN as int, y1: i32::MIN as int }
    } else {
        let h = hull(list, n - 1);
        let d = list[n - 1];
        Hull {
            x0: least(h.x0, d.x as int),
            y0: least(h.y0, d.y as int),
            x1: most(h.x1, d.x + as_signed(d.width)),
            y1: most(h.y1, d.y + as_signed(d.height)),
        }
    }
}

/// Every display ends at a pixel that can be counted.
pub open spec fn ends_fit(list: Seq<DisplayView>) -> bool {
    forall|i: int|
        0 <= i < list.len() ==> {
            &&& i32::MIN <= (#[trigger] list[i]).x + as_signed(list[i].width) <= i32::MAX
            &&& i32::MIN <= list[i].y + as_signed(list[i].height) <= i32::MAX
        }
}

/// Every display ends at a pixel that can be counted, and so does the distance across all
/// of them.
pub open spec fn countable(list: Seq<DisplayView>) -> bool {
    &&& ends_fit(list)
    &&& list.len() > 0 ==> {
        let h = hull(list, list.len() as int);
        i32::MIN <= h.x1 - h.x0 <= i32::MAX && i32::MIN <= h.y1 - h.y0 <= i32::MAX
    }
}

/// Where the rectangle around all displays begins and how large it is: at least one pixel
/// each way.
pub fn desktop_hull(displays: &Vec<DisplayInfo>) -> (r: ((i32, i32), (u32, u32)))
    requires
        displays@.len() > 0,
        countable(display_views(displays@)),
    ensures
        ({
            let h = hull(display_views(displays@), displays@.len() as int);
            &&& r.0.0 == h.x0 && r.0.1 == h.y0
            &&& r.1.0 == most(h.x1 - h.x0, 1) && r.1.1 == most(h.y1 - h.y0, 1)
        }),
{
    let ghost all = display_views(displays@);
    let mut x0: i32 = i32::MAX;
    let mut y0: i32 = i32::MAX;
    let mut x1: i32 = i32::MIN;
    let mut y1: i32 = i32::MIN;
    let mut i: usize = 0;
    while i < displays.len()
        invariant
            i <= displays@.len(),
            all == display_views(displays@),
            countable(all),
            (Hull { x0: x0 as int, y0: y0 as int, x1: x1 as int, y1: y1 as int }) == hull(
                all,
                i as int,
            ),
        decreases displays@.len() - i,
    {
        let d = &displays[i];
        assert(all[i as int] == displays@[i as int]@);
        let right: i32 = (d.x as i64 + signed(d.width)) as i32;
        let bottom: i32 = (d.y as i64 + signed(d.height)) as i32;
        if d.x < x0 {
            x0 = d.x;
        }
        if d.y < y0 {
            y0 = d.y;
        }
        if right > x1 {
            x1 = right;
        }
        if bottom > y1 {
            y1 = bottom;
        }
        i = i + 1;
    }
    let w: i64 = x1 as i64 - x0 as i64;
    let h: i64 = y1 as i64 - y0 as i64;
    let w: u32 = if w > 1 {
        w as u32
    } else {
        1
    };
    let h: u32 = if h > 1 {
        h as u32
    } else {
        1
    };
    ((x0, y0), (w, h))
}

/// Whether the pointer, given where it is on the desktop, is on one of the rectangles of a
/// window whose corner is at `origin`. A pointer that cannot be found is on none: not being
/// grabbable is the better failure than swallowing every click on the desktop.
pub open spec fn pointer_on(
    rects: Seq<(int, int, int, int)>,
    cursor: Option<(i32, i32)>,
    origin: (i32, i32),
) -> bool {
    match cursor {
        Some((x, y)) => covered(rects, x - origin.0, y - origin.1),
        None => false,
    }
}

pub fn is_pointer_on(
    rects: &Vec<(i32, i32, i32, i32)>,
    cursor: Option<(i32, i32)>,
    origin: (i32, i32),
) -> (r: bool)
    ensures
        r == pointer_on(rect_ints(rects@), cursor, origin),
{
    match cursor {
        Some((gx, gy)) => hit_test(
            rects,
            gx as i64 - origin.0 as i64,
            gy as i64 - origin.1 as i64,
        ),
        None => false,
    }
}

/// A rectangle with its numbers cut down to sixteen bits.
pub open spec fn cut(r: (i32, i32, i32, i32)) -> (i16, i16, u16, u16) {
    (r.0 as i16, r.1 as i16, r.2 as u16, r.3 as u16)
}

/// The rectangles with their numbers cut down to sixteen bits.
pub fn cut_rects(rects: &Vec<(i32, i32, i32, i32)>) -> (out: Vec<(i16, i16, u16, u16)>)
    ensures
        out@ == rects@.map_values(|r: (i32, i32, i32, i32)| cut(r)),
{
    let mut out: Vec<(i16, i16, u16, u16)> = Vec::new();
    let mut i: usize = 0;
    while i < rects.len()
        invariant
            i <= rects@.len(),
            out@.len() == i,
            forall|k: int| 0 <= k < i ==> #[trigger] out@[k] == cut(rects@[k]),
        decreases rects@.len() - i,
    {
        let (x, y, w, h) = rects[i];
        out.push(
            (
                #[verifier::truncate]
                (x as i16),
                #[verifier::truncate]
                (y as i16),
                #[verifier::truncate]
                (w as u16),
                #[verifier::truncate]
                (h as u16),
            ),
        );
        i = i + 1;
    }
    assert(out@ =~= rects@.map_values(|r: (i32, i32, i32, i32)| cut(r)));
    out
}

/// The box around the first `n` rectangles of an input region: left, top, right, bottom.
pub open spec fn region_box(rects: Seq<(i16, i16, u16, u16)>, n: int) -> Hull
    decreases n,
{
    if n <= 0 {
        Hull { x0: i32::MAX as int, y0: i32::MAX as int, x1: i32::MIN as int, y1: i32::MIN as int }
    } else {
        let h = region_box(rects, n - 1);
        let r = rects[n - 1];
        Hull {
            x0: least(h.x0, r.0 as int),
            y0: least(h.y0, r.1 as int),
            x1: most(h.x1, r.0 + r.2),
            y1: most(h.y1, r.1 + r.3),
        }
    }
}

/// The box around an input region: left, top, right, bottom.
pub fn region_bounds(rects: &Vec<(i16, i16, u16, u16)>) -> (r: (i32, i32, i32, i32))
    ensures
        (Hull { x0: r.0 as int, y0: r.1 as int, x1: r.2 as int, y1: r.3 as int }) == region_box(
            rects@,
            rects@.len() as int,
        ),
{
    let mut x0: i32 = i32::MAX;
    let mut y0: i32 = i32::MAX;
    let mut x1: i32 = i32::MIN;
    let mut y1: i32 = i32::MIN;
    let mut i: usize = 0;
    while i < rects.len()
        invariant
            i <= rects@.len(),
            (Hull { x0: x0 as int, y0: y0 as int, x1: x1 as int, y1: y1 as int }) == region_box(
                rects@,
                i as int,
            ),
        decreases rects@.len() - i,
    {
        let (x, y, w, h) = rects[i];
        let right: i32 = x as i32 + w as i32;
        let bottom: i32 = y as i32 + h as i32;
        if (x as i32) < x0 {
            x0 = x as i32;
        }
        if (y as i32) < y0 {
            y0 = y as i32;
        }
        if right > x1 {
            x1 = right;
        }
        if bottom > y1 {
            y1 = bottom;
        }
        i = i + 1;
    }
    (x0, y0, x1, y1)
}

// ---------------------------------------------------------------------------
// The startup log
// ---------------------------------------------------------------------------

/// A line of the startup log: what it is about, and what it says.
pub type Line = (&'static str, String);

/// What each line says.
pub open spec fn line_views(lines: Seq<(&'static str, String)>) -> Seq<(Seq<char>, Seq<char>)> {
    lines.map_values(|l: (&'static str, String)| (l.0@, l.1@))
}

/// A size, with `by` between the numbers, and where its corner is.
pub open spec fn placed_size(w: u32, by: Seq<char>, h: u32, x: i32, y: i32) -> Seq<char> {
    decimal(w as nat) + by + decimal(h as nat) + " at ("@ + signed_decimal(x as int) + ", "@
        + signed_decimal(y as int) + ")"@
}

pub(crate) fn push_placed_size(out: &mut String, w: u32, by: &str, h: u32, x: i32, y: i32)
    ensures
        final(out)@ == old(out)@ + placed_size(w, by@, h, x, y),
{
    let ghost before = out@;
    push_decimal(out, w as u64);
    out.append(by);
    push_decimal(out, h as u64);
    out.append(" at (");
    push_signed(out, x);
    out.append(", ");
    push_signed(out, y);
    out.append(")");
    assert(out@ =~= before + placed_size(w, by@, h, x, y));
}

/// What the startup log says of a display: its name, size and place in columns, and whether
/// it is the primary one.
pub open spec fn screen_line(
    name: Seq<char>,
    width: nat,
    height: nat,
    x: int,
    y: int,
    primary: bool,
) -> Seq<char> {
    left_aligned(name, 12) + " "@ + right_aligned(decimal(width), 5) + " x "@ + left_aligned(
        decimal(height),
        5,
    ) + " at ("@ + right_aligned(signed_decimal(x), 5) + ", "@ + right_aligned(
        signed_decimal(y),
        5,
    ) + ")"@ + (if primary {
        "  [primary]"@
    } else {
        ""@
    })
}

pub(crate) fn describe_screen(
    name: &str,
    width: u32,
    height: u32,
    x: i32,
    y: i32,
    primary: bool,
) -> (out: String)
    ensures
        out@ == screen_line(
            name@,
            width as nat,
            height as nat,
            x as int,
            y as int,
            primary,
        ),
{
    let mut out = String::new();
    push_left(&mut out, name, 12);
    assert(out@ =~= left_aligned(name@, 12));
    out.append(" ");
    push_right(&mut out, decimal_text(width as u64).as_str(), 5);
    out.append(" x ");
    push_left(&mut out, decimal_text(height as u64).as_str(), 5);
    out.append(" at (");
    push_right(&mut out, signed_text(x).as_str(), 5);
    out.append(", ");
    push_right(&mut out, signed_text(y).as_str(), 5);
    out.append(")");
    if primary {
        out.append("  [primary]");
    } else {
        out.append("");
    }
    out
}

/// The lines about the first `n` displays.
pub open spec fn display_lines(list: Seq<DisplayView>, n: nat) -> Seq<(Seq<char>, Seq<char>)>
    decreases n,
{
    if n == 0 {
        Seq::empty()
    } else {
        let d = list[n - 1];
        display_lines(list, (n - 1) as nat).push(
            (
                "display"@,
                screen_line(
                    d.name,
                    d.width as nat,
                    d.height as nat,
                    d.x as int,
                    d.y as int,
                    d.primary,
                ),
            ),
        )
    }
}

/// Adds a line to the startup log.
pub(crate) fn push_line(out: &mut Vec<Line>, label: &'static str, value: String)
    ensures
        line_views(final(out)@) == line_views(old(out)@).push((label@, value@)),
{
    let ghost before = line_views(out@);
    let ghost v = value@;
    out.push((label, value));
    assert(line_views(out@) =~= before.push((label@, v)));
}

/// Adds the lines about displays to the startup log.
pub(crate) fn push_display_lines(out: &mut Vec<Line>, displays: &Vec<DisplayInfo>)
    ensures
        line_views(final(out)@) == line_views(old(out)@) + display_lines(
            display_views(displays@),
            displays@.len(),
        ),
{
    let ghost all = display_views(displays@);
    let ghost start = line_views(out@);
    let mut i: usize = 0;
    assert(line_views(out@) =~= start + display_lines(all, 0));
    while i < displays.len()
        invariant
            i <= displays@.len(),
            all == display_views(displays@),
            line_views(out@) == start + display_lines(all, i as nat),
        decreases displays@.len() - i,
    {
        let d = &displays[i];
        assert(all[i as int] == displays@[i as int]@);
        let line = describe_screen(d.name.as_str(), d.width, d.height, d.x, d.y, d.primary);
        push_line(out, "display", line);
        i = i + 1;
        assert(line_views(out@) =~= start + display_lines(all, i as nat));
    }
}

/// The rectangle around displays holds each of them, the `k`th among them, and none of its
/// four sides could be moved inward: each is a side of some display.
pub proof fn law_the_hull_is_the_smallest(list: Seq<DisplayView>, n: int, k: int)
    requires
        1 <= n <= list.len(),
        0 <= k < n,
        forall|i: int|
            0 <= i < list.len() ==> {
                &&& (#[trigger] list[i]).width < 0x8000_0000 && list[i].height < 0x8000_0000
                &&& list[i].x + list[i].width <= i32::MAX && list[i].y + list[i].height <= i32::MAX
            },
    ensures
        ({
            let h = hull(list, n);
            let d = list[k];
            &&& h.x0 <= d.x && d.x + d.width <= h.x1
            &&& h.y0 <= d.y && d.y + d.height <= h.y1
            &&& exists|i: int| 0 <= i < n && (#[trigger] list[i]).x == h.x0
            &&& exists|i: int| 0 <= i < n && (#[trigger] list[i]).y == h.y0
            &&& exists|i: int| 0 <= i < n && (#[trigger] list[i]).x + list[i].width == h.x1
            &&& exists|i: int| 0 <= i < n && (#[trigger] list[i]).y + list[i].height == h.y1
        }),
    decreases n,
{
    let d = list[n - 1];
    if n > 1 {
        let m = if k < n - 1 { k } else { 0 };
        law_the_hull_is_the_smallest(list, n - 1, m);
    } else {
        assert(hull(list, 0).x0 == i32::MAX);
        assert(d.x == hull(list, 1).x0);
    }
    let h = hull(list, n);
    if n > 1 {
        let g = hull(list, n - 1);
        let a = choose|i: int| 0 <= i < n - 1 && (#[trigger] list[i]).x == g.x0;
        let b = choose|i: int| 0 <= i < n - 1 && (#[trigger] list[i]).y == g.y0;
        let c = choose|i: int| 0 <= i < n - 1 && (#[trigger] list[i]).x + list[i].width == g.x1;
        let e = choose|i: int| 0 <= i < n - 1 && (#[trigger] list[i]).y + list[i].height == g.y1;
        assert(list[a].x == h.x0 || list[n - 1].x == h.x0);
        assert(list[b].y == h.y0 || list[n - 1].y == h.y0);
        assert(list[c].x + list[c].width == h.x1 || list[n - 1].x + list[n - 1].width == h.x1);
        assert(list[e].y + list[e].height == h.y1 || list[n - 1].y + list[n - 1].height == h.y1);
    }
}

/// The box around an input region holds each of its rectangles, the `k`th among them, and
/// none of its four sides could be moved inward.
pub proof fn law_the_region_box_is_the_smallest(rects: Seq<(i16, i16, u16, u16)>, n: int, k: int)
    requires
        1 <= n <= rects.len(),
        0 <= k < n,
    ensures
        ({
            let h = region_box(rects, n);
            let r = rects[k];
            &&& h.x0 <= r.0 && r.0 + r.2 <= h.x1
            &&& h.y0 <= r.1 && r.1 + r.3 <= h.y1
            &&& exists|i: int| 0 <= i < n && (#[trigger] rects[i]).0 == h.x0
            &&& exists|i: int| 0 <= i < n && (#[trigger] rects[i]).1 == h.y0
            &&& exists|i: int| 0 <= i < n && (#[trigger] rects[i]).0 + rects[i].2 == h.x1
            &&& exists|i: int| 0 <= i < n && (#[trigger] rects[i]).1 + rects[i].3 == h.y1
        }),
    decreases n,
{
    let d = rects[n - 1];
    if n > 1 {
        let m = if k < n - 1 { k } else { 0 };
        law_the_region_box_is_the_smallest(rects, n - 1, m);
        let h = region_box(rects, n);
        let g = region_box(rects, n - 1);
        let a = choose|i: int| 0 <= i < n - 1 && (#[trigger] rects[i]).0 == g.x0;
        let b = choose|i: int| 0 <= i < n - 1 && (#[trigger] rects[i]).1 == g.y0;
        let c = choose|i: int| 0 <= i < n - 1 && (#[trigger] rects[i]).0 + rects[i].2 == g.x1;
        let e = choose|i: int| 0 <= i < n - 1 && (#[trigger] rects[i]).1 + rects[i].3 == g.y1;
        assert(rects[a].0 == h.x0 || rects[n - 1].0 == h.x0);
        assert(rects[b].1 == h.y0 || rects[n - 1].1 == h.y0);
        assert(rects[c].0 + rects[c].2 == h.x1 || rects[n - 1].0 + rects[n - 1].2 == h.x1);
        assert(rects[e].1 + rects[e].3 == h.y1 || rects[n - 1].1 + rects[n - 1].3 == h.y1);
    } else {
        assert(region_box(rects, 0).x0 == i32::MAX);
        assert(d.0 == region_box(rects, 1).x0);
    }
}

/// The pointer is on the metal if and only if it can be found and lies, seen from the
/// window's corner, in one of the rectangles.
pub proof fn law_where_the_pointer_is(
    rects: Seq<(i32, i32, i32, i32)>,
    at: (i32, i32),
    origin: (i32, i32),
)
    ensures
        !pointer_on(rect_ints(rects), None, origin),
        pointer_on(rect_ints(rects), Some(at), origin) <==> exists|i: int|
            0 <= i < rects.len() && origin.0 + (#[trigger] rects[i]).0 <= at.0 && at.0 < origin.0
                + rects[i].0 + rects[i].2 && origin.1 + rects[i].1 <= at.1 && at.1 < origin.1
                + rects[i].1 + rects[i].3,
{
    let all = rect_ints(rects);
    let (x, y) = (at.0 - origin.0, at.1 - origin.1);
    if covered(all, x, y) {
        let i = choose|i: int|
            0 <= i < all.len() && crate::region::inside(#[trigger] all[i], x, y);
        assert(rects[i].0 == all[i].0);
    }
    if exists|i: int|
        0 <= i < rects.len() && origin.0 + (#[trigger] rects[i]).0 <= at.0 && at.0 < origin.0
            + rects[i].0 + rects[i].2 && origin.1 + rects[i].1 <= at.1 && at.1 < origin.1
            + rects[i].1 + rects[i].3 {
        let i = choose|i: int|
            0 <= i < rects.len() && origin.0 + (#[trigger] rects[i]).0 <= at.0 && at.0 < origin.0
                + rects[i].0 + rects[i].2 && origin.1 + rects[i].1 <= at.1 && at.1 < origin.1
                + rects[i].1 + rects[i].3;
        assert(crate::region::inside(all[i], x, y));
    }
}

} // verus!

//! The grabbable region of a blob: a coarse cover of the metal with rectangles.
//!
//! The field is sampled on a grid of cells over the blob's bounding box. The cells that
//! hold metal are grown by one cell in every direction, so the grabbable area sits
//! slightly outside the visible metal, and horizontal runs of cells become one rectangle
//! each: a dozen or two of them.

use vstd::prelude::*;

verus! {

/// Cell size in pixels of the coarse grid used to build the input region.
pub const HIT_CELL: i32 = 14;

/// Extra dilation of the coarse mask, in cells. One cell of dilation plus the
/// quantisation gives a comfortable grab margin of one to two cells.
pub const HIT_DILATE: i32 = 1;

/// No grid is wider or higher than this; a blob that would need one gets no region.
pub const MAX_CELLS: usize = 4096;

/// A grid of cells: the one at its top left corner, and its size. Cell (0, 0) begins at
/// the window's origin.
#[derive(Copy, Clone, Debug, PartialEq, Eq, Structural)]
pub struct Grid {
    pub x0: i32,
    pub y0: i32,
    pub w: usize,
    pub h: usize,
}

impl Grid {
    /// All of its cells lie at pixels that can be counted.
    pub open spec fn fits(self) -> bool {
        &&& self.w <= MAX_CELLS && self.h <= MAX_CELLS
        &&& i32::MIN <= self.x0 * HIT_CELL && (self.x0 + self.w) * HIT_CELL <= i32::MAX
        &&& i32::MIN <= self.y0 * HIT_CELL && (self.y0 + self.h) * HIT_CELL <= i32::MAX
    }

    /// The grid over the cells from (`x0`, `y0`) up to (`x1`, `y1`), with a margin for the
    /// dilation. None if there is nothing to cover, or too much.
    pub fn over(x0: i32, y0: i32, x1: i32, y1: i32) -> (r: Option<Grid>)
        requires
            i32::MIN < x0 && i32::MIN < y0 && x1 < i32::MAX && y1 < i32::MAX,
            i32::MIN <= (x1 + 1) - (x0 - 1) <= i32::MAX,
            i32::MIN <= (y1 + 1) - (y0 - 1) <= i32::MAX,
        ensures
            r == gridded(x0, y0, x1, y1),
            r == ({
                let w = x1 - x0 + 2 * HIT_DILATE;
                let h = y1 - y0 + 2 * HIT_DILATE;
                if w <= 0 || h <= 0 || w > MAX_CELLS || h > MAX_CELLS {
                    None
                } else {
                    Some(
                        Grid {
                            x0: (x0 - HIT_DILATE) as i32,
                            y0: (y0 - HIT_DILATE) as i32,
                            w: w as usize,
                            h: h as usize,
                        },
                    )
                }
            }),
    {
        let gx0: i32 = x0 - HIT_DILATE;
        let gy0: i32 = y0 - HIT_DILATE;
        let w: i32 = (x1 + HIT_DILATE) - gx0;
        let h: i32 = (y1 + HIT_DILATE) - gy0;
        if w <= 0 || h <= 0 || w > MAX_CELLS as i32 || h > MAX_CELLS as i32 {
            None
        } else {
            Some(Grid { x0: gx0, y0: gy0, w: w as usize, h: h as usize })
        }
    }
}

/// The grid over the cells from (`x0`, `y0`) up to (`x1`, `y1`), with its margin.
pub open spec fn gridded(x0: i32, y0: i32, x1: i32, y1: i32) -> Option<Grid> {
    let w = x1 - x0 + 2 * HIT_DILATE;
    let h = y1 - y0 + 2 * HIT_DILATE;
    if w <= 0 || h <= 0 || w > MAX_CELLS || h > MAX_CELLS {
        None
    } else {
        Some(
            Grid {
                x0: (x0 - HIT_DILATE) as i32,
                y0: (y0 - HIT_DILATE) as i32,
                w: w as usize,
                h: h as usize,
            },
        )
    }
}

/// The cells that hold metal, row by row.
pub open spec fn rows(mask: Seq<Vec<bool>>) -> Seq<Seq<bool>> {
    mask.map_values(|r: Vec<bool>| r@)
}

/// Whether the mask has as many rows, and each row as many cells, as a grid.
pub open spec fn shaped(mask: Seq<Seq<bool>>, w: int, h: int) -> bool {
    &&& mask.len() == h
    &&& forall|y: int| 0 <= y < h ==> (#[trigger] mask[y]).len() == w
}

/// Whether there is a cell at (`x`, `y`) and it holds metal.
pub open spec fn on(mask: Seq<Seq<bool>>, x: int, y: int) -> bool {
    0 <= y < mask.len() && 0 <= x < mask[y].len() && mask[y][x]
}

/// Whether a cell, or one of the eight around it, holds metal.
pub open spec fn near(mask: Seq<Seq<bool>>, x: int, y: int) -> bool {
    ||| on(mask, x - 1, y - 1)
    ||| on(mask, x, y - 1)
    ||| on(mask, x + 1, y - 1)
    ||| on(mask, x - 1, y)
    ||| on(mask, x, y)
    ||| on(mask, x + 1, y)
    ||| on(mask, x - 1, y + 1)
    ||| on(mask, x, y + 1)
    ||| on(mask, x + 1, y + 1)
}

/// A row of the grown mask.
pub open spec fn grown_row(mask: Seq<Seq<bool>>, w: nat, y: int) -> Seq<bool> {
    Seq::new(w, |x: int| near(mask, x, y))
}

/// Where the run of set cells ends that `x` stands in.
pub open spec fn run_end(row: Seq<bool>, x: int) -> int
    decreases row.len() - x,
{
    if 0 <= x < row.len() && row[x] {
        run_end(row, x + 1)
    } else {
        x
    }
}

pub proof fn lemma_run_end(row: Seq<bool>, x: int)
    requires
        0 <= x <= row.len(),
    ensures
        x <= run_end(row, x) <= row.len(),
        forall|i: int| x <= i < run_end(row, x) ==> row[i],
        run_end(row, x) < row.len() ==> !row[run_end(row, x)],
    decreases row.len() - x,
{
    if x < row.len() && row[x] {
        lemma_run_end(row, x + 1);
    }
}

/// The runs of set cells from `x` on, each with where it starts and ends.
pub open spec fn runs(row: Seq<bool>, x: int) -> Seq<(int, int)>
    decreases row.len() - x,
{
    if x < 0 || x >= row.len() {
        Seq::empty()
    } else if !row[x] {
        runs(row, x + 1)
    } else {
        let end = run_end(row, x);
        seq![(x, end)] + if x < end <= row.len() {
            runs(row, end)
        } else {
            Seq::empty()
        }
    }
}

/// The rectangle, in pixels, of a run in row `y`: left, top, width, height.
pub open spec fn run_rect(g: Grid, y: int, run: (int, int)) -> (int, int, int, int) {
    (
        (g.x0 + run.0) * HIT_CELL,
        (g.y0 + y) * HIT_CELL,
        (run.1 - run.0) * HIT_CELL,
        HIT_CELL as int,
    )
}

/// The rectangles of row `y`, left to right.
pub open spec fn row_rects(g: Grid, mask: Seq<Seq<bool>>, y: int) -> Seq<(int, int, int, int)> {
    runs(grown_row(mask, g.w as nat, y), 0).map_values(|r: (int, int)| run_rect(g, y, r))
}

/// The rectangles of the first `n` rows, top to bottom.
pub open spec fn rows_rects(g: Grid, mask: Seq<Seq<bool>>, n: nat) -> Seq<(int, int, int, int)>
    decreases n,
{
    if n == 0 {
        Seq::empty()
    } else {
        rows_rects(g, mask, (n - 1) as nat) + row_rects(g, mask, n - 1)
    }
}

/// The rectangles as whole numbers.
pub open spec fn rect_ints(v: Seq<(i32, i32, i32, i32)>) -> Seq<(int, int, int, int)> {
    v.map_values(
        |r: (i32, i32, i32, i32)| (r.0 as int, r.1 as int, r.2 as int, r.3 as int),
    )
}

fn is_on(mask: &Vec<Vec<bool>>, x: i64, y: i64) -> (r: bool)
    ensures
        r == on(rows(mask@), x as int, y as int),
{
    if y < 0 || y as i128 >= mask.len() as i128 {
        return false;
    }
    let row = &mask[y as usize];
    if x < 0 || x as i128 >= row.len() as i128 {
        return false;
    }
    row[x as usize]
}

fn is_near(mask: &Vec<Vec<bool>>, gx: usize, gy: usize) -> (r: bool)
    requires
        gx < MAX_CELLS,
        gy < MAX_CELLS,
    ensures
        r == near(rows(mask@), gx as int, gy as int),
{
    let x: i64 = gx as i64;
    let y: i64 = gy as i64;
    is_on(mask, x - 1, y - 1) || is_on(mask, x, y - 1) || is_on(mask, x + 1, y - 1) || is_on(
        mask,
        x - 1,
        y,
    ) || is_on(mask, x, y) || is_on(mask, x + 1, y) || is_on(mask, x - 1, y + 1) || is_on(
        mask,
        x,
        y + 1,
    ) || is_on(mask, x + 1, y + 1)
}

/// Adds the rectangles of row `gy`.
fn add_row(g: &Grid, row: &Vec<bool>, gy: usize, out: &mut Vec<(i32, i32, i32, i32)>)
    requires
        g.fits(),
        gy < g.h,
        row@.len() == g.w,
    ensures
        rect_ints(final(out)@) == rect_ints(old(out)@) + runs(row@, 0).map_values(
            |r: (int, int)| run_rect(*g, gy as int, r),
        ),
{
    let ghost before = rect_ints(out@);
    let ghost to_rect = |r: (int, int)| run_rect(*g, gy as int, r);
    let mut gx: usize = 0;
    let ghost mut done = Seq::<(int, int)>::empty();
    assert(rect_ints(out@) =~= before + done.map_values(to_rect));
    assert(runs(row@, 0) =~= done + runs(row@, 0));
    while gx < g.w
        invariant
            g.fits(),
            gy < g.h,
            gx <= g.w,
            row@.len() == g.w,
            to_rect == (|r: (int, int)| run_rect(*g, gy as int, r)),
            rect_ints(out@) == before + done.map_values(to_rect),
            runs(row@, 0) == done + runs(row@, gx as int),
        decreases g.w - gx,
    {
        if !row[gx] {
            gx = gx + 1;
            continue;
        }
        let start: usize = gx;
        while gx < g.w && row[gx]
            invariant
                start <= gx <= g.w,
                row@.len() == g.w,
                run_end(row@, start as int) == run_end(row@, gx as int),
            decreases g.w - gx,
        {
            gx = gx + 1;
        }
        proof {
            lemma_run_end(row@, start as int);
        }
        assert(gx == run_end(row@, start as int));
        let ghost grown = rect_ints(out@);
        let x: i32 = (g.x0 + start as i32) * HIT_CELL;
        let y: i32 = (g.y0 + gy as i32) * HIT_CELL;
        let rw: i32 = (gx - start) as i32 * HIT_CELL;
        out.push((x, y, rw, HIT_CELL));
        proof {
            let run = (start as int, gx as int);
            assert(rect_ints(out@) =~= grown.push(to_rect(run)));
            assert((done.push(run)).map_values(to_rect) =~= done.map_values(to_rect).push(
                to_rect(run),
            ));
            assert(before + done.push(run).map_values(to_rect) =~= rect_ints(out@));
            assert(runs(row@, start as int) =~= seq![run] + runs(row@, gx as int));
            assert(done + runs(row@, start as int) =~= done.push(run) + runs(row@, gx as int));
            done = done.push(run);
        }
    }
    assert(runs(row@, gx as int) =~= Seq::empty());
    assert(done =~= runs(row@, 0));
}

/// The rectangle cover of the cells that hold metal, grown by one cell in every
/// direction: one rectangle for each horizontal run of cells, row by row.
///
/// Coordinates are relative to the window origin.
pub fn hit_rects(g: &Grid, mask: &Vec<Vec<bool>>) -> (out: Vec<(i32, i32, i32, i32)>)
    requires
        g.fits(),
        shaped(rows(mask@), g.w as int, g.h as int),
    ensures
        rect_ints(out@) == rows_rects(*g, rows(mask@), g.h as nat),
{
    let ghost m = rows(mask@);
    let mut out: Vec<(i32, i32, i32, i32)> = Vec::new();
    let mut gy: usize = 0;
    assert(rect_ints(out@) =~= Seq::empty());
    while gy < g.h
        invariant
            g.fits(),
            gy <= g.h,
            m == rows(mask@),
            shaped(m, g.w as int, g.h as int),
            rect_ints(out@) == rows_rects(*g, m, gy as nat),
        decreases g.h - gy,
    {
        let mut row: Vec<bool> = Vec::new();
        let mut gx: usize = 0;
        while gx < g.w
            invariant
                g.fits(),
                gy < g.h,
                gx <= g.w,
                m == rows(mask@),
                row@.len() == gx,
                forall|x: int| 0 <= x < gx ==> row@[x] == near(m, x, gy as int),
            decreases g.w - gx,
        {
            row.push(is_near(mask, gx, gy));
            gx = gx + 1;
        }
        assert(row@ =~= grown_row(m, g.w as nat, gy as int));
        add_row(g, &row, gy, &mut out);
        gy = gy + 1;
    }
    out
}

/// Whether a pixel lies in a rectangle given by left, top, width and height.
pub open spec fn inside(r: (int, int, int, int), x: int, y: int) -> bool {
    r.0 <= x < r.0 + r.2 && r.1 <= y < r.1 + r.3
}

/// Whether one of the rectangles holds a pixel.
pub open spec fn covered(rects: Seq<(int, int, int, int)>, x: int, y: int) -> bool {
    exists|i: int| 0 <= i < rects.len() && inside(#[trigger] rects[i], x, y)
}

/// Whether a pixel falls inside the cover.
pub fn hit_test(rects: &Vec<(i32, i32, i32, i32)>, x: i64, y: i64) -> (r: bool)
    ensures
        r == covered(rect_ints(rects@), x as int, y as int),
{
    let ghost all = rect_ints(rects@);
    let mut i: usize = 0;
    while i < rects.len()
        invariant
            i <= rects@.len(),
            all == rect_ints(rects@),
            forall|j: int| 0 <= j < i ==> !inside(#[trigger] all[j], x as int, y as int),
        decreases rects@.len() - i,
    {
        let (rx, ry, rw, rh) = rects[i];
        if x >= rx as i64 && x < rx as i64 + rw as i64 && y >= ry as i64 && y < ry as i64
            + rh as i64 {
            assert(inside(all[i as int], x as int, y as int));
            return true;
        }
        i = i + 1;
    }
    false
}

// ---------------------------------------------------------------------------
// What the cover covers
// ---------------------------------------------------------------------------

proof fn lemma_runs_cover(row: Seq<bool>, x: int, c: int)
    requires
        0 <= x <= row.len(),
    ensures
        forall|i: int|
            0 <= i < runs(row, x).len() ==> x <= (#[trigger] runs(row, x)[i]).0 < runs(row, x)[i].1
                <= row.len(),
        (x <= c < row.len() && row[c]) <==> exists|i: int|
            0 <= i < runs(row, x).len() && (#[trigger] runs(row, x)[i]).0 <= c < runs(row, x)[i].1,
    decreases row.len() - x,
{
    let all = runs(row, x);
    if x < row.len() {
        if !row[x] {
            lemma_runs_cover(row, x + 1, c);
            let tail = runs(row, x + 1);
            assert(all == tail);
            if exists|i: int| 0 <= i < all.len() && (#[trigger] all[i]).0 <= c < all[i].1 {
                let i = choose|i: int| 0 <= i < all.len() && (#[trigger] all[i]).0 <= c < all[i].1;
                assert(tail[i].0 <= c < tail[i].1);
            }
        } else {
            let e = run_end(row, x);
            lemma_run_end(row, x);
            lemma_run_end(row, x + 1);
            assert(e > x);
            lemma_runs_cover(row, e, c);
            let tail = runs(row, e);
            assert(all =~= seq![(x, e)] + tail);
            assert forall|i: int| 0 <= i < all.len() implies x <= (#[trigger] all[i]).0 < all[i].1
                <= row.len() by {
                if i > 0 {
                    assert(all[i] == tail[i - 1]);
                }
            }
            if x <= c < row.len() && row[c] {
                if c < e {
                    assert(all[0].0 <= c < all[0].1);
                } else {
                    let i = choose|i: int|
                        0 <= i < tail.len() && (#[trigger] tail[i]).0 <= c < tail[i].1;
                    assert(all[i + 1] == tail[i]);
                    assert(all[i + 1].0 <= c < all[i + 1].1);
                }
                assert(exists|i: int| 0 <= i < all.len() && (#[trigger] all[i]).0 <= c < all[i].1);
            }
            if exists|i: int| 0 <= i < all.len() && (#[trigger] all[i]).0 <= c < all[i].1 {
                let i = choose|i: int| 0 <= i < all.len() && (#[trigger] all[i]).0 <= c < all[i].1;
                if i > 0 {
                    assert(all[i] == tail[i - 1]);
                    assert(tail[i - 1].0 <= c < tail[i - 1].1);
                } else {
                    assert(row[c]);
                }
                assert(x <= c < row.len() && row[c]);
            }
        }
    }
}

/// The cell of a pixel, along one axis.
pub open spec fn cell_of(p: int) -> int {
    p / (HIT_CELL as int)
}

proof fn lemma_row_covers(g: Grid, mask: Seq<Seq<bool>>, y: int, px: int, py: int)
    requires
        0 <= y < g.h,
    ensures
        covered(row_rects(g, mask, y), px, py) <==> cell_of(py) == g.y0 + y && 0 <= cell_of(px)
            - g.x0 < g.w && near(mask, cell_of(px) - g.x0, y),
{
    let row = grown_row(mask, g.w as nat, y);
    let rs = runs(row, 0);
    let rects = row_rects(g, mask, y);
    let c = cell_of(px) - g.x0;
    lemma_runs_cover(row, 0, c);
    if covered(rects, px, py) {
        let i = choose|i: int| 0 <= i < rects.len() && inside(#[trigger] rects[i], px, py);
        assert(rects[i] == run_rect(g, y, rs[i]));
        assert(rs[i].0 <= c < rs[i].1);
    }
    if cell_of(py) == g.y0 + y && 0 <= c < g.w && near(mask, c, y) {
        assert(row[c]);
        let i = choose|i: int| 0 <= i < rs.len() && (#[trigger] rs[i]).0 <= c < rs[i].1;
        assert(inside(rects[i], px, py));
    }
}

proof fn lemma_rows_cover(g: Grid, mask: Seq<Seq<bool>>, n: nat, px: int, py: int)
    requires
        n <= g.h,
    ensures
        covered(rows_rects(g, mask, n), px, py) <==> 0 <= cell_of(py) - g.y0 < n && 0 <= cell_of(px)
            - g.x0 < g.w && near(mask, cell_of(px) - g.x0, cell_of(py) - g.y0),
    decreases n,
{
    if n > 0 {
        let m = (n - 1) as nat;
        lemma_rows_cover(g, mask, m, px, py);
        lemma_row_covers(g, mask, n - 1, px, py);
        let head = rows_rects(g, mask, m);
        let tail = row_rects(g, mask, n - 1);
        let all = rows_rects(g, mask, n);
        assert(all =~= head + tail);
        if covered(all, px, py) {
            let i = choose|i: int| 0 <= i < all.len() && inside(#[trigger] all[i], px, py);
            if i < head.len() {
                assert(inside(head[i], px, py));
            } else {
                assert(inside(tail[i - head.len()], px, py));
            }
        }
        if covered(head, px, py) {
            let i = choose|i: int| 0 <= i < head.len() && inside(#[trigger] head[i], px, py);
            assert(inside(all[i], px, py));
        }
        if covered(tail, px, py) {
            let i = choose|i: int| 0 <= i < tail.len() && inside(#[trigger] tail[i], px, py);
            assert(all[head.len() + i] == tail[i]);
        }
    }
}

/// The rectangles cover exactly the cells of the grid that hold metal or touch one that
/// does: a pixel is grabbable if and only if its cell is such a cell.
pub proof fn law_cover_is_the_grown_metal(g: Grid, mask: Seq<Seq<bool>>, px: int, py: int)
    requires
        shaped(mask, g.w as int, g.h as int),
    ensures
        covered(rows_rects(g, mask, g.h as nat), px, py) <==> 0 <= cell_of(py) - g.y0 < g.h && 0
            <= cell_of(px) - g.x0 < g.w && near(mask, cell_of(px) - g.x0, cell_of(py) - g.y0),
{
    lemma_rows_cover(g, mask, g.h as nat, px, py);
}

/// All the metal can be grabbed.
pub proof fn law_all_metal_is_covered(g: Grid, mask: Seq<Seq<bool>>, px: int, py: int)
    requires
        shaped(mask, g.w as int, g.h as int),
        on(mask, cell_of(px) - g.x0, cell_of(py) - g.y0),
    ensures
        covered(rows_rects(g, mask, g.h as nat), px, py),
{
    law_cover_is_the_grown_metal(g, mask, px, py);
}

/// A pixel can be grabbed if and only if it lies in the grid and some cell of fourteen by
/// fourteen pixels that holds metal is its own or borders on it, corners included.
pub proof fn law_what_can_be_grabbed(g: Grid, mask: Seq<Seq<bool>>, px: int, py: int)
    requires
        shaped(mask, g.w as int, g.h as int),
    ensures
        ({
            let cx = px / 14 - g.x0;
            let cy = py / 14 - g.y0;
            covered(rows_rects(g, mask, g.h as nat), px, py) <==> {
                &&& 0 <= cx < g.w && 0 <= cy < g.h
                &&& exists|x: int, y: int|
                    0 <= y < g.h && 0 <= x < g.w && cx - 1 <= x <= cx + 1 && cy - 1 <= y <= cy + 1
                        && #[trigger] mask[y][x]
            }
        }),
{
    law_cover_is_the_grown_metal(g, mask, px, py);
    let cx = px / 14 - g.x0;
    let cy = py / 14 - g.y0;
    if 0 <= cx < g.w && 0 <= cy < g.h {
        if near(mask, cx, cy) {
            if on(mask, cx - 1, cy - 1) {
                assert(mask[cy - 1][cx - 1]);
            } else if on(mask, cx, cy - 1) {
                assert(mask[cy - 1][cx]);
            } else if on(mask, cx + 1, cy - 1) {
                assert(mask[cy - 1][cx + 1]);
            } else if on(mask, cx - 1, cy) {
                assert(mask[cy][cx - 1]);
            } else if on(mask, cx, cy) {
                assert(mask[cy][cx]);
            } else if on(mask, cx + 1, cy) {
                assert(mask[cy][cx + 1]);
            } else if on(mask, cx - 1, cy + 1) {
                assert(mask[cy + 1][cx - 1]);
            } else if on(mask, cx, cy + 1) {
                assert(mask[cy + 1][cx]);
            } else {
                assert(mask[cy + 1][cx + 1]);
            }
        }
        if exists|x: int, y: int|
            0 <= y < g.h && 0 <= x < g.w && cx - 1 <= x <= cx + 1 && cy - 1 <= y <= cy + 1
                && #[trigger] mask[y][x] {
            let (x, y) = choose|x: int, y: int|
                0 <= y < g.h && 0 <= x < g.w && cx - 1 <= x <= cx + 1 && cy - 1 <= y <= cy + 1
                    && #[trigger] mask[y][x];
            assert(mask[y].len() == g.w);
            assert(on(mask, x, y));
        }
    }
}

/// The runs of a row are apart and in order: behind each there is a cell that is not set
/// before the next one begins, so no run could be joined with another.
pub proof fn law_runs_are_apart(row: Seq<bool>, x: int, k: int)
    requires
        0 <= x <= row.len(),
        0 <= k < runs(row, x).len() - 1,
    ensures
        runs(row, x)[k].1 < runs(row, x)[k + 1].0,
    decreases row.len() - x,
{
    if !row[x] {
        law_runs_are_apart(row, x + 1, k);
    } else {
        let end = run_end(row, x);
        lemma_run_end(row, x);
        lemma_run_end(row, x + 1);
        let tail = runs(row, end);
        let all = runs(row, x);
        assert(all =~= seq![(x, end)] + tail);
        assert(all[k + 1] == tail[k]);
        if k > 0 {
            assert(all[k] == tail[k - 1]);
            law_runs_are_apart(row, end, k - 1);
        } else {
            assert(end < row.len());
            assert(!row[end]);
            assert(tail == runs(row, end + 1));
            lemma_runs_cover(row, end + 1, 0);
            assert(end + 1 <= runs(row, end + 1)[0].0);
        }
    }
}

/// A grid has a margin of one cell on every side of what it is over, and there is none over
/// nothing or over more than can be afforded.
pub proof fn law_a_grid_has_a_margin(x0: i32, y0: i32, x1: i32, y1: i32)
    requires
        i32::MIN < x0 && i32::MIN < y0,
    ensures
        ({
            let fits = -2 < x1 - x0 <= 4094 && -2 < y1 - y0 <= 4094;
            match gridded(x0, y0, x1, y1) {
                Some(g) => fits && g.x0 == x0 - 1 && g.y0 == y0 - 1 && g.x0 + g.w == x1 + 1 && g.y0
                    + g.h == y1 + 1,
                None => !fits,
            }
        }),
{
}

} // verus!

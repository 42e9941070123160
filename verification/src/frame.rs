//! What goes to the graphics card and what comes back from it.

use crate::desk::{as_signed, least, most, signed};
use crate::groups::MAX_BLOBS;
use crate::physics::Ball;
use crate::single::Single;
use crate::text::{
    decimal, decimal_text, find, first, lemma_first, push_decimal, push_right, right_aligned,
};
use vstd::prelude::*;
use vstd::slice::slice_subrange;

verus! {

/// The four numbers of each ball that fits in one pass, one ball after the other.
pub open spec fn packed(balls: Seq<Ball>, n: nat) -> Seq<Single>
    decreases n,
{
    if n == 0 {
        Seq::empty()
    } else {
        let b = balls[n - 1];
        packed(balls, (n - 1) as nat) + seq![b.p.x, b.p.y, b.r, b.w]
    }
}

/// How many of the balls fit in one pass.
pub open spec fn shaded(balls: Seq<Ball>) -> nat {
    if balls.len() < MAX_BLOBS {
        balls.len()
    } else {
        MAX_BLOBS as nat
    }
}

/// The numbers to upload for a pass over these balls: position, radius and strength of as
/// many of them as fit.
pub fn pack_balls(balls: &Vec<Ball>) -> (out: Vec<Single>)
    ensures
        out@ == packed(balls@, shaded(balls@)),
        out@.len() == 4 * shaded(balls@),
{
    let count: usize = if balls.len() < MAX_BLOBS {
        balls.len()
    } else {
        MAX_BLOBS
    };
    let mut out: Vec<Single> = Vec::new();
    let mut i: usize = 0;
    while i < count
        invariant
            i <= count <= balls@.len(),
            out@ == packed(balls@, i as nat),
            out@.len() == 4 * i,
        decreases count - i,
    {
        let b = balls[i];
        let ghost before = out@;
        out.push(b.p.x);
        out.push(b.p.y);
        out.push(b.r);
        out.push(b.w);
        assert(out@ =~= before + seq![b.p.x, b.p.y, b.r, b.w]);
        i = i + 1;
    }
    out
}

/// The part of the framebuffer that a pass may touch, counted from the bottom left, for a
/// rectangle (left, top, width, height) counted from the top left. `None` if nothing of it
/// is visible.
pub fn gl_scissor(height: i32, rect: (i32, i32, i32, i32)) -> (r: Option<(i32, i32, i32, i32)>)
    requires
        rect.2 > 0 && rect.3 > 0 ==> i32::MIN <= rect.1 + rect.3 <= i32::MAX && i32::MIN <= height
            - (rect.1 + rect.3) <= i32::MAX,
    ensures
        match r {
            None => rect.2 <= 0 || rect.3 <= 0,
            Some((x, y, w, h)) => rect.2 > 0 && rect.3 > 0 && x == rect.0 && y + rect.1 + h
                == height && w == rect.2 && h == rect.3,
        },
{
    let (sx, sy, sw, sh) = rect;
    if sw <= 0 || sh <= 0 {
        None
    } else {
        Some((sx, height - (sy + sh), sw, sh))
    }
}

/// How many bytes a rectangle of pixels takes up.
pub fn pixel_bytes(w: i32, h: i32) -> (r: usize)
    requires
        w > 0 && h > 0 ==> w * h * 4 <= i32::MAX,
    ensures
        r == (if w > 0 && h > 0 {
            w * h * 4
        } else {
            0
        }),
{
    if w > 0 && h > 0 {
        assert(w * h <= w * h * 4 && 0 <= w * h) by (nonlinear_arith)
            requires
                w > 0,
                h > 0,
        ;
        (w * h * 4) as usize
    } else {
        0
    }
}

/// The last `n` rows of `stride` bytes, the last one first.
pub open spec fn flipped(s: Seq<u8>, stride: nat, n: nat) -> Seq<u8>
    decreases n,
{
    if n == 0 {
        Seq::empty()
    } else {
        s.subrange(s.len() - stride, s.len() as int) + flipped(
            s.take(s.len() - stride),
            stride,
            (n - 1) as nat,
        )
    }
}

/// Turns rows that were read bottom-up the right way round.
pub fn flip_rows(buf: &Vec<u8>, stride: usize, h: usize) -> (out: Vec<u8>)
    requires
        buf@.len() == stride * h,
    ensures
        out@ == flipped(buf@, stride as nat, h as nat),
{
    let mut out: Vec<u8> = Vec::new();
    let mut left: usize = h;
    let mut end: usize = buf.len();
    assert(buf@.take(end as int) =~= buf@);
    while left > 0
        invariant
            left <= h,
            end <= buf@.len(),
            end == stride * left,
            out@ + flipped(buf@.take(end as int), stride as nat, left as nat) == flipped(
                buf@,
                stride as nat,
                h as nat,
            ),
        decreases left,
    {
        assert(stride * left == stride * (left - 1) + stride) by (nonlinear_arith)
            requires
                left > 0,
        ;
        assert(stride * (left - 1) >= 0) by (nonlinear_arith)
            requires
                left > 0,
                stride >= 0,
        ;
        let start: usize = end - stride;
        let row = slice_subrange(buf.as_slice(), start, end);
        let ghost before = out@;
        crate::bytes::put_all(&mut out, row);
        proof {
            let part = buf@.take(end as int);
            assert(part.subrange(part.len() - stride, part.len() as int) =~= row@);
            assert(part.take(part.len() - stride) =~= buf@.take(start as int));
            let rest = flipped(buf@.take(start as int), stride as nat, (left - 1) as nat);
            assert(before + (row@ + rest) =~= (before + row@) + rest);
        }
        end = start;
        left = left - 1;
    }
    assert(out@ + Seq::<u8>::empty() =~= out@);
    out
}

/// The byte of a picture at a row and a place in it.
pub open spec fn pixel(s: Seq<u8>, stride: nat, row: int, at: int) -> u8 {
    s[row * stride + at]
}

/// Row by row the picture is the same, upside down.
pub proof fn law_flipping_turns_the_picture_over(
    s: Seq<u8>,
    stride: nat,
    h: nat,
    row: int,
    at: int,
)
    requires
        s.len() == stride * h,
        0 <= row < h,
        0 <= at < stride,
    ensures
        flipped(s, stride, h).len() == s.len(),
        pixel(flipped(s, stride, h), stride, row, at) == pixel(s, stride, h - 1 - row, at),
    decreases h,
{
    lemma_flipped_len(s, stride, h);
    let head = s.take(s.len() - stride);
    let m = (h - 1) as nat;
    assert(stride * h == stride * m + stride) by (nonlinear_arith)
        requires
            h == m + 1,
    ;
    lemma_flipped_len(head, stride, m);
    let all = flipped(s, stride, h);
    if row == 0 {
        assert((h - 1 - row) * stride == stride * m) by (nonlinear_arith)
            requires
                row == 0,
                h == m + 1,
        ;
        assert(0 * stride == 0) by (nonlinear_arith);
        assert(all[at] == s[s.len() - stride + at]);
    } else {
        law_flipping_turns_the_picture_over(head, stride, m, row - 1, at);
        assert(row * stride == (row - 1) * stride + stride) by (nonlinear_arith);
        assert(h - 1 - row == m - 1 - (row - 1));
        let k = (m - 1 - (row - 1)) * stride + at;
        assert(0 <= k < stride * m) by (nonlinear_arith)
            requires
                k == (m - 1 - (row - 1)) * stride + at,
                0 < row < m + 1,
                0 <= at < stride,
        ;
        assert(0 <= (row - 1) * stride) by (nonlinear_arith)
            requires
                row > 0,
        ;
        assert((row - 1) * stride + at < stride * m) by (nonlinear_arith)
            requires
                0 < row < m + 1,
                0 <= at < stride,
        ;
        assert(all[row * stride + at] == flipped(head, stride, m)[(row - 1) * stride + at]);
        assert(head[k] == s[k]);
    }
}

proof fn lemma_flipped_len(s: Seq<u8>, stride: nat, n: nat)
    requires
        s.len() == stride * n,
    ensures
        flipped(s, stride, n).len() == s.len(),
    decreases n,
{
    if n > 0 {
        assert(stride * n == stride * (n - 1) + stride) by (nonlinear_arith)
            requires
                n > 0,
        ;
        assert(stride * (n - 1) >= 0) by (nonlinear_arith)
            requires
                n > 0,
        ;
        lemma_flipped_len(s.take(s.len() - stride), stride, (n - 1) as nat);
    } else {
        assert(stride * 0 == 0) by (nonlinear_arith);
    }
}

/// The part of a framebuffer to read back for a rectangle that may stick out of it: left,
/// top, width, height.
pub fn capture_rect(scissor: (i32, i32, i32, i32), draw_w: u32, draw_h: u32) -> (r: (
    i32,
    i32,
    i32,
    i32,
))
    requires
        i32::MIN <= as_signed(draw_w) - most(scissor.0 as int, 0),
        i32::MIN <= as_signed(draw_h) - most(scissor.1 as int, 0),
    ensures
        r.0 == most(scissor.0 as int, 0),
        r.1 == most(scissor.1 as int, 0),
        r.2 == least(scissor.2 as int, as_signed(draw_w) - r.0),
        r.3 == least(scissor.3 as int, as_signed(draw_h) - r.1),
{
    let x: i32 = if scissor.0 > 0 {
        scissor.0
    } else {
        0
    };
    let y: i32 = if scissor.1 > 0 {
        scissor.1
    } else {
        0
    };
    let right: i32 = (signed(draw_w) - x as i64) as i32;
    let bottom: i32 = (signed(draw_h) - y as i64) as i32;
    let w: i32 = if scissor.2 <= right {
        scissor.2
    } else {
        right
    };
    let h: i32 = if scissor.3 <= bottom {
        scissor.3
    } else {
        bottom
    };
    (x, y, w, h)
}

/// The header of a NetPBM PAM file with RGBA pixels. PAM because it is the only
/// trivially-hand-writable format that carries a real alpha channel.
pub fn pam_header(w: u32, h: u32) -> (out: String)
    ensures
        out@ == "P7\nWIDTH "@ + decimal(w as nat) + "\nHEIGHT "@ + decimal(h as nat)
            + "\nDEPTH 4\nMAXVAL 255\nTUPLTYPE RGB_ALPHA\nENDHDR\n"@,
{
    let mut out = String::from_str("P7\nWIDTH ");
    push_decimal(&mut out, w as u64);
    out.append("\nHEIGHT ");
    push_decimal(&mut out, h as u64);
    out.append("\nDEPTH 4\nMAXVAL 255\nTUPLTYPE RGB_ALPHA\nENDHDR\n");
    out
}

// ---------------------------------------------------------------------------
// Numbered source
// ---------------------------------------------------------------------------

/// A line without the carriage return that belongs to its line ending.
pub open spec fn without_return(line: Seq<char>) -> Seq<char> {
    if line.len() > 0 && line.last() == '\r' {
        line.drop_last()
    } else {
        line
    }
}

/// The source with line numbers from `n` on. Lines end at a line feed, or at a carriage
/// return and a line feed; the last line may go without.
pub open spec fn numbered_from(src: Seq<char>, n: nat) -> Seq<char>
    decreases src.len(),
{
    let end = first(src, '\n');
    let prefix = right_aligned(decimal(n), 4) + " | "@;
    if src.len() == 0 {
        Seq::empty()
    } else if end >= src.len() || end < 0 {
        prefix + src
    } else if end + 1 == src.len() {
        prefix + without_return(src.take(end))
    } else {
        prefix + without_return(src.take(end)) + "\n"@ + numbered_from(src.skip(end + 1), n + 1)
    }
}

fn push_number(out: &mut String, n: u64)
    ensures
        final(out)@ == old(out)@ + (right_aligned(decimal(n as nat), 4) + " | "@),
{
    let digits = decimal_text(n);
    push_right(out, digits.as_str(), 4);
    out.append(" | ");
    assert(out@ =~= old(out)@ + (right_aligned(decimal(n as nat), 4) + " | "@));
}

/// Line-numbered source, so a driver log saying "0:117" is immediately actionable.
pub fn numbered(src: &str) -> (out: String)
    ensures
        out@ == numbered_from(src@, 1),
{
    let len: usize = src.unicode_len();
    let mut out = String::new();
    let mut at: usize = 0;
    let mut done: usize = 0;
    assert(src@.skip(0) =~= src@);
    assert(out@ + numbered_from(src@.skip(0), 1) =~= numbered_from(src@, 1));
    while at < len
        invariant
            at <= len,
            len == src@.len(),
            done <= at,
            out@ + numbered_from(src@.skip(at as int), done as nat + 1) == numbered_from(src@, 1),
        decreases len - at,
    {
        let rest = src.substring_char(at, len);
        let n: u64 = done as u64 + 1;
        let ghost before = out@;
        let ghost left = src@.skip(at as int);
        assert(rest@ =~= left);
        push_number(&mut out, n);
        match find(rest, '\n') {
            None => {
                out.append(rest);
                assert(out@ =~= before + numbered_from(left, n as nat));
                at = len;
                assert(src@.skip(at as int) =~= Seq::empty());
                assert(out@ + numbered_from(src@.skip(at as int), n as nat) =~= out@);
            },
            Some(end) => {
                let has_return = end > 0 && rest.get_char(end - 1) == '\r';
                let stop: usize = if has_return {
                    end - 1
                } else {
                    end
                };
                let line = rest.substring_char(0, stop);
                assert(line@ =~= without_return(left.take(end as int)));
                out.append(line);
                let ghost prefix = right_aligned(decimal(n as nat), 4) + " | "@;
                assert(out@ =~= before + (prefix + without_return(left.take(end as int))));
                at = at + end + 1;
                if at < len {
                    out.append("\n");
                    proof {
                        assert(left.skip(end + 1) =~= src@.skip(at as int));
                        let tail = numbered_from(src@.skip(at as int), n as nat + 1);
                        assert(out@ + tail =~= before + (prefix + without_return(
                            left.take(end as int),
                        ) + "\n"@ + tail));
                    }
                } else {
                    assert(src@.skip(at as int) =~= Seq::empty());
                    assert(out@ + numbered_from(src@.skip(at as int), n as nat + 1) =~= out@);
                }
                done = done + 1;
            },
        }
    }
    assert(src@.skip(at as int) =~= Seq::empty());
    assert(out@ + numbered_from(src@.skip(at as int), done as nat + 1) =~= out@);
    out
}

/// Each ball that fits in a pass stands there with its position, its radius and its
/// strength, in the order in which they came; sixteen fit.
pub proof fn law_balls_are_packed_by_fours(balls: Seq<Ball>, k: int)
    requires
        0 <= k < balls.len(),
        k < 16,
    ensures
        ({
            let out = packed(balls, shaded(balls));
            &&& out.len() == (if balls.len() <= 16 { 4 * balls.len() } else { 64 })
            &&& out[4 * k] == balls[k].p.x
            &&& out[4 * k + 1] == balls[k].p.y
            &&& out[4 * k + 2] == balls[k].r
            &&& out[4 * k + 3] == balls[k].w
        }),
{
    lemma_packed(balls, shaded(balls), k);
}

proof fn lemma_packed(balls: Seq<Ball>, n: nat, k: int)
    requires
        0 <= k < n <= balls.len(),
    ensures
        packed(balls, n).len() == 4 * n,
        packed(balls, n)[4 * k] == balls[k].p.x,
        packed(balls, n)[4 * k + 1] == balls[k].p.y,
        packed(balls, n)[4 * k + 2] == balls[k].r,
        packed(balls, n)[4 * k + 3] == balls[k].w,
    decreases n,
{
    let m = (n - 1) as nat;
    if m == 0 {
        assert(packed(balls, 0).len() == 0);
    } else if k < m {
        lemma_packed(balls, m, k);
    } else {
        lemma_packed(balls, m, 0);
    }
}

/// A line of source is numbered and kept: what comes first is the number, pushed to the
/// right of four places, a bar, and the text up to the line's end without a carriage return
/// there; the lines behind it follow, numbered on.
pub proof fn law_lines_are_numbered_in_turn(line: Seq<char>, rest: Seq<char>, n: nat)
    requires
        !line.contains('\n'),
        rest.len() > 0,
    ensures
        ({
            let prefix = right_aligned(decimal(n), 4) + " | "@;
            &&& line.len() == 0 || line[line.len() - 1] != '\r' ==> numbered_from(
                line + seq!['\n'] + rest,
                n,
            ) == prefix + line + "\n"@ + numbered_from(rest, n + 1)
            &&& numbered_from(line + seq!['\r', '\n'] + rest, n) == prefix + line + "\n"@
                + numbered_from(rest, n + 1)
            &&& line.len() > 0 ==> numbered_from(line, n) == prefix + line
            &&& numbered_from(Seq::empty(), n) == Seq::<char>::empty()
        }),
{
    let plain = line + seq!['\n'] + rest;
    let dos = line + seq!['\r', '\n'] + rest;
    let k = line.len() as int;
    assert forall|i: int| 0 <= i < k implies line[i] != '\n' by {
        assert(line.contains(line[i]));
    }
    lemma_first(plain, '\n', k);
    lemma_first(dos, '\n', k + 1);
    lemma_first(line, '\n', k);
    assert(plain.take(k) =~= line);
    assert(plain.skip(k + 1) =~= rest);
    assert(dos.take(k + 1) =~= line.push('\r'));
    assert(dos.take(k + 1).drop_last() =~= line);
    assert(dos.skip(k + 2) =~= rest);
}

} // verus!

//! The pixel painter behind the sprite atlas.
//!
//! A picture is a list of strokes (single dots, filled blocks and filled
//! ellipses) painted in order into one 32×32 cell of a straight-alpha RGBA
//! buffer. Cell pixel (x, y) lives at buffer pixel `(oy + y) * stride + ox +
//! x`; every stroke blends its colour "source over" onto the buffer pixel of
//! each covered cell pixel, clipped to the cell, and touches nothing else.
//! When the cell lies within one stride each covered pixel is blended exactly
//! once.
//!
//! Ellipse geometry is held in fixed point: `FIX` units make one pixel, so the
//! fractional centres and radii of the drawing are exact.

use vstd::prelude::*;
use vstd::arithmetic::div_mod::{lemma_fundamental_div_mod, lemma_fundamental_div_mod_converse};
use vstd::arithmetic::mul::lemma_mul_inequality;
use crate::animation::CELL;

verus! {

/// Fixed-point units per pixel for ellipse geometry.
pub const FIX: i64 = 100000;

/// Largest magnitude of a fixed-point centre or radius a stroke may use
/// (64 px): keeps the exact ellipse test inside 128-bit arithmetic.
pub const FIX_LIMIT: i64 = 6400000;

/// A straight-alpha colour.
#[derive(Debug, Clone, Copy, PartialEq, Eq, Structural)]
pub struct Rgba {
    pub r: u8,
    pub g: u8,
    pub b: u8,
    pub a: u8,
}

/// One painting operation, in cell-local pixel coordinates.
#[derive(Debug, Clone, Copy, PartialEq, Eq, Structural)]
pub enum Stroke {
    /// A single pixel.
    Dot { x: i32, y: i32, color: Rgba },
    /// A filled `w`×`h` block whose top-left pixel is (`x`, `y`).
    Block { x: i32, y: i32, w: i32, h: i32, color: Rgba },
    /// A filled ellipse, centre and radii in `FIX` units per pixel. Pixel
    /// (x, y) is covered when its centre (x + ½, y + ½) lies inside.
    Disc { cx: i64, cy: i64, rx: i64, ry: i64, color: Rgba },
}

pub open spec fn stroke_color(s: Stroke) -> Rgba {
    match s {
        Stroke::Dot { color, .. } => color,
        Stroke::Block { color, .. } => color,
        Stroke::Disc { color, .. } => color,
    }
}

/// Ellipse geometry stays in the range where the exact arithmetic is carried
/// out; dots and blocks of any position and size are clipped to the cell (a
/// block with no width or height paints nothing).
pub open spec fn stroke_ok(s: Stroke) -> bool {
    match s {
        Stroke::Dot { .. } => true,
        Stroke::Block { .. } => true,
        Stroke::Disc { cx, cy, rx, ry, .. } => {
            &&& -FIX_LIMIT <= cx <= FIX_LIMIT
            &&& -FIX_LIMIT <= cy <= FIX_LIMIT
            &&& 0 < rx <= FIX_LIMIT
            &&& 0 < ry <= FIX_LIMIT
        },
    }
}

/// Floor of a fixed-point value, in pixels.
pub open spec fn floor_fix(v: int) -> int {
    v / (FIX as int)
}

/// Ceiling of a fixed-point value, in pixels.
pub open spec fn ceil_fix(v: int) -> int {
    -((-v) / (FIX as int))
}

/// Pixel (x, y) lies in the ellipse's pixel bounding box and its centre lies
/// inside the ellipse.
pub open spec fn in_disc(cx: int, cy: int, rx: int, ry: int, x: int, y: int) -> bool {
    let dx = x * FIX + FIX / 2 - cx;
    let dy = y * FIX + FIX / 2 - cy;
    &&& floor_fix(cx - rx) <= x <= ceil_fix(cx + rx)
    &&& floor_fix(cy - ry) <= y <= ceil_fix(cy + ry)
    &&& dx * dx * (ry * ry) + dy * dy * (rx * rx) <= (rx * rx) * (ry * ry)
}

/// The stroke paints cell pixel (x, y).
pub open spec fn covers(s: Stroke, x: int, y: int) -> bool {
    &&& 0 <= x < CELL
    &&& 0 <= y < CELL
    &&& match s {
        Stroke::Dot { x: px, y: py, .. } => x == px && y == py,
        Stroke::Block { x: bx, y: by, w, h, .. } => bx <= x < bx + w && by <= y < by + h,
        Stroke::Disc { cx, cy, rx, ry, .. } => in_disc(cx as int, cy as int, rx as int, ry as int, x, y),
    }
}

/// Source-over blend of one channel, rounded to nearest: `src·α + dst·(1 − α)`.
pub open spec fn blend_byte(src: int, alpha: int, dst: int) -> int {
    (2 * (src * alpha + dst * (255 - alpha)) + 255) / 510
}

/// What channel `k` of an RGBA pixel blends toward: the colour for R, G, B and
/// full coverage for A.
pub open spec fn source_channel(c: Rgba, k: int) -> int {
    if k == 0 {
        c.r as int
    } else if k == 1 {
        c.g as int
    } else if k == 2 {
        c.b as int
    } else {
        255
    }
}

/// Cell-local column of byte `i` of a buffer `stride` px wide, for a cell at (ox, oy).
pub open spec fn local_x(i: int, stride: int, ox: int) -> int {
    (i / 4) % stride - ox
}

/// Cell-local row of byte `i`.
pub open spec fn local_y(i: int, stride: int, oy: int) -> int {
    (i / 4) / stride - oy
}

/// The column of the cell's row `y` that lands on buffer pixel `p` (rows
/// are `stride` pixels apart; the cell's top-left pixel is (ox, oy)).
pub open spec fn col_in_row(p: int, stride: int, ox: int, oy: int, y: int) -> int {
    p - (oy + y) * stride - ox
}

/// Row `y` of the cell paints buffer pixel `p`.
pub open spec fn row_hits(s: Stroke, p: int, stride: int, ox: int, oy: int, y: int) -> bool {
    covers(s, col_in_row(p, stride, ox, oy, y), y)
}

/// How many covered cell pixels among the cell's first `n` rows land on
/// buffer pixel `p` (at most one per row).
pub open spec fn hits(s: Stroke, p: int, stride: int, ox: int, oy: int, n: int) -> nat
    decreases n,
{
    if n <= 0 {
        0
    } else {
        hits(s, p, stride, ox, oy, n - 1) + if row_hits(s, p, stride, ox, oy, n - 1) {
            1nat
        } else {
            0nat
        }
    }
}

/// Channel byte `d` blended `k` times toward channel `ch` of `c`.
pub open spec fn blend_times(c: Rgba, k: nat, ch: int, d: int) -> int
    decreases k,
{
    if k == 0 {
        d
    } else {
        blend_byte(source_channel(c, ch), c.a as int, blend_times(c, (k - 1) as nat, ch, d))
    }
}

/// The buffer after one stroke: each byte is blended toward the stroke's
/// colour once for every covered cell pixel written at its pixel index
/// `(oy + y) * stride + ox + x` — exactly once per covered pixel when the
/// cell's rows do not overlap — and the rest is untouched.
pub open spec fn paint_stroke(buf: Seq<u8>, stride: int, ox: int, oy: int, s: Stroke) -> Seq<u8> {
    Seq::new(
        buf.len(),
        |i: int| blend_times(stroke_color(s), hits(s, i / 4, stride, ox, oy, CELL as int), i % 4, buf[i] as int) as u8,
    )
}

/// The buffer after painting all `strokes` in order.
pub open spec fn paint(buf: Seq<u8>, stride: int, ox: int, oy: int, strokes: Seq<Stroke>) -> Seq<u8>
    decreases strokes.len(),
{
    if strokes.len() == 0 {
        buf
    } else {
        paint_stroke(paint(buf, stride, ox, oy, strokes.drop_last()), stride, ox, oy, strokes.last())
    }
}

/// Every pixel index of a cell at (ox, oy) lies inside a buffer of `len`
/// bytes that is `stride` px wide.
pub open spec fn cell_fits(len: int, stride: int, ox: int, oy: int) -> bool {
    &&& 0 <= ox
    &&& 0 <= oy
    &&& ((oy + CELL - 1) * stride + ox + CELL) * 4 <= len
}

proof fn lemma_blend_byte_range(src: int, alpha: int, dst: int)
    requires
        0 <= src <= 255,
        0 <= alpha <= 255,
        0 <= dst <= 255,
    ensures
        0 <= blend_byte(src, alpha, dst) <= 255,
{
    assert(0 <= src * alpha <= 255 * alpha) by (nonlinear_arith)
        requires
            0 <= src <= 255,
            0 <= alpha,
    ;
    assert(0 <= dst * (255 - alpha) <= 255 * (255 - alpha)) by (nonlinear_arith)
        requires
            0 <= dst <= 255,
            alpha <= 255,
    ;
}

/// Byte `j` belongs to pixel (ox + x, oy + y) exactly when its cell-local
/// coordinates are (x, y).
pub proof fn lemma_pixel_of_byte(stride: int, ox: int, oy: int, x: int, y: int, j: int)
    requires
        0 <= ox,
        ox + CELL <= stride,
        0 <= oy,
        0 <= x < CELL,
        0 <= y < CELL,
        0 <= j,
    ensures
        (j / 4 == (oy + y) * stride + ox + x) <==> (local_x(j, stride, ox) == x && local_y(j, stride, oy) == y),
{
    let p = j / 4;
    if p == (oy + y) * stride + ox + x {
        lemma_fundamental_div_mod_converse(p, stride, oy + y, ox + x);
        assert(local_x(j, stride, ox) == x && local_y(j, stride, oy) == y);
    }
    if local_x(j, stride, ox) == x && local_y(j, stride, oy) == y {
        lemma_fundamental_div_mod(p, stride);
        assert(p == stride * (p / stride) + p % stride);
        assert(p / stride == oy + y);
        assert(p % stride == ox + x);
        assert(stride * (oy + y) == (oy + y) * stride) by (nonlinear_arith);
    }
}

/// Pixel-space bounds that contain every pixel a stroke can cover, clipped to the cell.
fn stroke_bounds(s: Stroke) -> (b: (i64, i64, i64, i64))
    requires
        stroke_ok(s),
    ensures
        0 <= b.0 <= 0x1_0000_0000 && b.1 < CELL && 0 <= b.2 <= 0x1_0000_0000 && b.3 < CELL,
        forall|x: int, y: int| #[trigger] covers(s, x, y) ==> b.0 <= x <= b.1 && b.2 <= y <= b.3,
{
    let (x0, x1, y0, y1): (i64, i64, i64, i64) = match s {
        Stroke::Dot { x, y, .. } => (x as i64, x as i64, y as i64, y as i64),
        Stroke::Block { x, y, w, h, .. } => (x as i64, x as i64 + w as i64 - 1, y as i64, y as i64 + h as i64 - 1),
        Stroke::Disc { cx, cy, rx, ry, .. } => {
            (floor_div_fix(cx - rx), ceil_div_fix(cx + rx), floor_div_fix(cy - ry), ceil_div_fix(cy + ry))
        },
    };
    let xl: i64 = if x0 < 0 { 0 } else { x0 };
    let xh: i64 = if x1 > 31 { 31 } else { x1 };
    let yl: i64 = if y0 < 0 { 0 } else { y0 };
    let yh: i64 = if y1 > 31 { 31 } else { y1 };
    (xl, xh, yl, yh)
}

pub fn floor_div_fix(v: i64) -> (q: i64)
    requires
        -2 * FIX_LIMIT <= v <= 2 * FIX_LIMIT,
    ensures
        q == floor_fix(v as int),
{
    if v >= 0 {
        v / FIX
    } else {
        let q = (-v + FIX - 1) / FIX;
        assert(-q == (v as int) / (FIX as int)) by {
            lemma_floor_of_negative(v as int);
        }
        -q
    }
}

proof fn lemma_floor_of_negative(v: int)
    requires
        v < 0,
    ensures
        -((-v + FIX - 1) / (FIX as int)) == v / (FIX as int),
{
    let f = FIX as int;
    let q = v / f;
    let r = v % f;
    lemma_fundamental_div_mod(v, f);
    // -v + f - 1 == f * (-q) + (f - 1 - r)
    lemma_fundamental_div_mod_converse(-v + f - 1, f, -q, f - 1 - r);
}

fn ceil_div_fix(v: i64) -> (q: i64)
    requires
        -2 * FIX_LIMIT <= v <= 2 * FIX_LIMIT,
    ensures
        q == ceil_fix(v as int),
{
    let m = floor_div_fix(-v);
    -m
}

/// Exact ellipse membership of a pixel centre, in 128-bit arithmetic.
fn disc_test(cx: i64, cy: i64, rx: i64, ry: i64, x: i64, y: i64) -> (inside: bool)
    requires
        -FIX_LIMIT <= cx <= FIX_LIMIT,
        -FIX_LIMIT <= cy <= FIX_LIMIT,
        0 < rx <= FIX_LIMIT,
        0 < ry <= FIX_LIMIT,
        0 <= x < CELL,
        0 <= y < CELL,
    ensures
        inside == ({
            let dx = x * FIX + FIX / 2 - cx;
            let dy = y * FIX + FIX / 2 - cy;
            dx * dx * (ry * ry) + dy * dy * (rx * rx) <= (rx * rx) * (ry * ry)
        }),
{
    let dx: i128 = x as i128 * 100000i128 + 50000i128 - cx as i128;
    let dy: i128 = y as i128 * 100000i128 + 50000i128 - cy as i128;
    assert(0 < rx * rx <= 6400000 * 6400000) by (nonlinear_arith)
        requires
            0 < rx <= 6400000,
    ;
    assert(0 < ry * ry <= 6400000 * 6400000) by (nonlinear_arith)
        requires
            0 < ry <= 6400000,
    ;
    let rx2: i128 = rx as i128 * rx as i128;
    let ry2: i128 = ry as i128 * ry as i128;
    assert(-10000000 <= dx <= 10000000);
    assert(-10000000 <= dy <= 10000000);
    assert(0 <= dx * dx <= 10000000 * 10000000) by (nonlinear_arith)
        requires
            -10000000 <= dx <= 10000000,
    ;
    assert(0 <= dy * dy <= 10000000 * 10000000) by (nonlinear_arith)
        requires
            -10000000 <= dy <= 10000000,
    ;
    let dx2: i128 = dx * dx;
    let dy2: i128 = dy * dy;
    assert(0 <= dx2 * ry2 <= 10000000 * 10000000 * (6400000 * 6400000)) by (nonlinear_arith)
        requires
            0 <= dx2 <= 10000000 * 10000000,
            0 < ry2 <= 6400000 * 6400000,
    ;
    assert(0 <= dy2 * rx2 <= 10000000 * 10000000 * (6400000 * 6400000)) by (nonlinear_arith)
        requires
            0 <= dy2 <= 10000000 * 10000000,
            0 < rx2 <= 6400000 * 6400000,
    ;
    assert(0 < rx2 * ry2 <= 6400000 * 6400000 * (6400000 * 6400000)) by (nonlinear_arith)
        requires
            0 < rx2 <= 6400000 * 6400000,
            0 < ry2 <= 6400000 * 6400000,
    ;
    let a: i128 = dx2 * ry2;
    let b: i128 = dy2 * rx2;
    let c: i128 = rx2 * ry2;
    a + b <= c
}

/// Does the stroke paint cell pixel (x, y)?
fn covers_exec(s: Stroke, x: i64, y: i64) -> (c: bool)
    requires
        stroke_ok(s),
        0 <= x < CELL,
        0 <= y < CELL,
    ensures
        c == covers(s, x as int, y as int),
{
    match s {
        Stroke::Dot { x: px, y: py, .. } => x == px as i64 && y == py as i64,
        Stroke::Block { x: bx, y: by, w, h, .. } => {
            bx as i64 <= x && x < bx as i64 + w as i64 && by as i64 <= y && y < by as i64 + h as i64
        },
        Stroke::Disc { cx, cy, rx, ry, .. } => {
            floor_div_fix(cx - rx) <= x && x <= ceil_div_fix(cx + rx) && floor_div_fix(cy - ry) <= y
                && y <= ceil_div_fix(cy + ry) && disc_test(cx, cy, rx, ry, x, y)
        },
    }
}

/// Blend `c` onto the four bytes starting at `i`.
fn blend_pixel(buf: &mut Vec<u8>, i: usize, c: Rgba)
    requires
        i + 4 <= old(buf)@.len(),
        i <= usize::MAX - 4,
    ensures
        final(buf)@.len() == old(buf)@.len(),
        forall|j: int|
            0 <= j < old(buf)@.len() ==> #[trigger] final(buf)@[j] == if i <= j < i + 4 {
                blend_byte(source_channel(c, j - i), c.a as int, old(buf)@[j] as int) as u8
            } else {
                old(buf)@[j]
            },
{
    let a = c.a as u32;
    let srcs: [u32; 4] = [c.r as u32, c.g as u32, c.b as u32, 255];
    let mut k: usize = 0;
    while k < 4
        invariant
            k <= 4,
            i + 4 <= buf@.len(),
            i <= usize::MAX - 4,
            a == c.a,
            srcs@ == seq![c.r as u32, c.g as u32, c.b as u32, 255u32],
            buf@.len() == old(buf)@.len(),
            forall|j: int|
                0 <= j < old(buf)@.len() ==> #[trigger] buf@[j] == if i <= j < i + k {
                    blend_byte(source_channel(c, j - i), c.a as int, old(buf)@[j] as int) as u8
                } else {
                    old(buf)@[j]
                },
        decreases 4 - k,
    {
        let src = srcs[k];
        let dst = buf[i + k] as u32;
        proof {
            lemma_blend_byte_range(src as int, a as int, dst as int);
            assert(src * a <= 255 * 255) by (nonlinear_arith)
                requires
                    src <= 255,
                    a <= 255,
            ;
            assert(dst * (255 - a) <= 255 * 255) by (nonlinear_arith)
                requires
                    dst <= 255,
                    a <= 255,
            ;
        }
        let v = (2 * (src * a + dst * (255 - a)) + 255) / 510;
        buf.set(i + k, v as u8);
        k = k + 1;
    }
}

proof fn lemma_blend_times_range(c: Rgba, k: nat, ch: int, d: int)
    requires
        0 <= d <= 255,
    ensures
        0 <= blend_times(c, k, ch, d) <= 255,
    decreases k,
{
    if k > 0 {
        lemma_blend_times_range(c, (k - 1) as nat, ch, d);
        lemma_blend_byte_range(source_channel(c, ch), c.a as int, blend_times(c, (k - 1) as nat, ch, d));
    }
}

/// Rows `[a, n)` that paint nothing leave the count unchanged.
pub(crate) proof fn lemma_hits_flat(s: Stroke, p: int, stride: int, ox: int, oy: int, a: int, n: int)
    requires
        0 <= a <= n,
        forall|y: int| a <= y < n ==> !#[trigger] row_hits(s, p, stride, ox, oy, y),
    ensures
        hits(s, p, stride, ox, oy, n) == hits(s, p, stride, ox, oy, a),
    decreases n - a,
{
    if n > a {
        lemma_hits_flat(s, p, stride, ox, oy, a, n - 1);
        assert(!row_hits(s, p, stride, ox, oy, n - 1));
    }
}

/// Source-over blending with an opaque colour gives the colour, with a clear
/// colour leaves the byte alone, and never lowers the alpha byte.
pub proof fn lemma_blend_byte_laws(src: int, alpha: int, dst: int)
    requires
        0 <= src <= 255,
        0 <= alpha <= 255,
        0 <= dst <= 255,
    ensures
        alpha == 255 ==> blend_byte(src, alpha, dst) == src,
        alpha == 0 ==> blend_byte(src, alpha, dst) == dst,
        blend_byte(255, alpha, dst) >= dst,
{
    assert(255 * alpha + dst * (255 - alpha) >= 255 * dst) by (nonlinear_arith)
        requires
            0 <= alpha <= 255,
            0 <= dst <= 255,
    ;
    if alpha == 255 {
        assert(2 * (src * alpha + dst * (255 - alpha)) + 255 == 510 * src + 255) by (nonlinear_arith)
            requires
                alpha == 255,
        ;
        lemma_fundamental_div_mod_converse(510 * src + 255, 510, src, 255);
    }
    if alpha == 0 {
        assert(2 * (src * alpha + dst * (255 - alpha)) + 255 == 510 * dst + 255) by (nonlinear_arith)
            requires
                alpha == 0,
        ;
        lemma_fundamental_div_mod_converse(510 * dst + 255, 510, dst, 255);
    }
}

/// With at most one row other than `y` able to hit, the count is that row's.
proof fn lemma_hits_single(s: Stroke, p: int, stride: int, ox: int, oy: int, y: int, n: int)
    requires
        0 <= n,
        forall|yy: int| 0 <= yy < n && yy != y ==> !#[trigger] row_hits(s, p, stride, ox, oy, yy),
    ensures
        hits(s, p, stride, ox, oy, n) == if 0 <= y < n && row_hits(s, p, stride, ox, oy, y) {
            1nat
        } else {
            0nat
        },
    decreases n,
{
    if n > 0 {
        lemma_hits_single(s, p, stride, ox, oy, y, n - 1);
    }
}

/// When the cell's rows do not overlap in the buffer (it lies within one
/// stride), a stroke blends each covered pixel of the cell exactly once, and
/// leaves every other pixel of the cell, and every byte of the buffer that is
/// no pixel of the cell, untouched.
pub proof fn lemma_stroke_pixels(buf: Seq<u8>, stride: int, ox: int, oy: int, s: Stroke, i: int)
    requires
        0 <= ox,
        0 <= oy,
        ox + CELL <= stride,
        0 <= i < buf.len(),
    ensures
        forall|x: int, y: int|
            0 <= x < CELL && 0 <= y < CELL && i / 4 == (oy + y) * stride + ox + x ==> paint_stroke(
                buf,
                stride,
                ox,
                oy,
                s,
            )[i] == if #[trigger] covers(s, x, y) {
                blend_byte(source_channel(stroke_color(s), i % 4), stroke_color(s).a as int, buf[i] as int) as u8
            } else {
                buf[i]
            },
        (forall|x: int, y: int| 0 <= x < CELL && 0 <= y < CELL ==> i / 4 != #[trigger] ((oy + y) * stride + ox + x))
            ==> paint_stroke(buf, stride, ox, oy, s)[i] == buf[i],
{
    let p = i / 4;
    assert forall|x: int, y: int|
        0 <= x < CELL && 0 <= y < CELL && i / 4 == (oy + y) * stride + ox + x implies paint_stroke(buf, stride, ox, oy, s)[i]
        == if #[trigger] covers(s, x, y) {
        blend_byte(source_channel(stroke_color(s), i % 4), stroke_color(s).a as int, buf[i] as int) as u8
    } else {
        buf[i]
    } by {
        assert forall|yy: int| 0 <= yy < CELL && yy != y implies !#[trigger] row_hits(s, p, stride, ox, oy, yy) by {
            let c = col_in_row(p, stride, ox, oy, yy);
            assert(c == (y - yy) * stride + x) by (nonlinear_arith)
                requires
                    c == p - (oy + yy) * stride - ox,
                    p == (oy + y) * stride + ox + x,
            ;
            if yy < y {
                assert((y - yy) * stride >= stride) by (nonlinear_arith)
                    requires
                        y - yy >= 1,
                        stride >= 0,
                ;
            } else {
                assert((y - yy) * stride <= -stride) by (nonlinear_arith)
                    requires
                        y - yy <= -1,
                        stride >= 0,
                ;
            }
        }
        lemma_hits_single(s, p, stride, ox, oy, y, CELL as int);
        assert(col_in_row(p, stride, ox, oy, y) == x);
        let c = stroke_color(s);
        let d = buf[i] as int;
        assert(blend_times(c, 0, i % 4, d) == d);
        assert(blend_times(c, 1, i % 4, d) == blend_byte(source_channel(c, i % 4), c.a as int, d));
        if covers(s, x, y) {
            assert(row_hits(s, p, stride, ox, oy, y));
            assert(hits(s, p, stride, ox, oy, CELL as int) == 1);
        } else {
            assert(!row_hits(s, p, stride, ox, oy, y));
            assert(hits(s, p, stride, ox, oy, CELL as int) == 0);
        }
    }
    if forall|x: int, y: int| 0 <= x < CELL && 0 <= y < CELL ==> i / 4 != #[trigger] ((oy + y) * stride + ox + x) {
        assert forall|yy: int| 0 <= yy < CELL implies !#[trigger] row_hits(s, p, stride, ox, oy, yy) by {
            let c = col_in_row(p, stride, ox, oy, yy);
            if 0 <= c < CELL {
                assert(p == (oy + yy) * stride + ox + c);
            }
        }
        lemma_hits_flat(s, p, stride, ox, oy, 0, CELL as int);
    }
}

/// Paint one stroke into the cell at (ox, oy) of a buffer `stride` px wide.
pub fn paint_stroke_into(buf: &mut Vec<u8>, stride: usize, ox: usize, oy: usize, s: Stroke)
    requires
        stroke_ok(s),
        cell_fits(old(buf)@.len() as int, stride as int, ox as int, oy as int),
        oy + CELL <= usize::MAX,
    ensures
        final(buf)@ == paint_stroke(old(buf)@, stride as int, ox as int, oy as int, s),
{
    let ghost orig = buf@;
    let len = buf.len();
    let ghost st = stride as int;
    let ghost gox = ox as int;
    let ghost goy = oy as int;
    let c = match s {
        Stroke::Dot { color, .. } => color,
        Stroke::Block { color, .. } => color,
        Stroke::Disc { color, .. } => color,
    };
    let (xl, xh, yl, yh) = stroke_bounds(s);
    proof {
        assert forall|j: int| 0 <= j < orig.len() implies #[trigger] hits(s, j / 4, st, gox, goy, yl as int) == 0 by {
            assert forall|y: int| 0 <= y < yl implies !#[trigger] row_hits(s, j / 4, st, gox, goy, y) by {
                if row_hits(s, j / 4, st, gox, goy, y) {
                    assert(covers(s, col_in_row(j / 4, st, gox, goy, y), y));
                }
            }
            lemma_hits_flat(s, j / 4, st, gox, goy, 0, yl as int);
        }
        assert forall|j: int| 0 <= j < orig.len() implies #[trigger] buf@[j] == blend_times(c, hits(s, j / 4, st, gox, goy, yl as int), j % 4, orig[j] as int) as u8 by {
            assert(hits(s, j / 4, st, gox, goy, yl as int) == 0);
        }
    }
    let mut y: i64 = yl;
    while y <= yh
        invariant
            stroke_ok(s),
            cell_fits(orig.len() as int, st, gox, goy),
            oy + CELL <= usize::MAX,
            st == stride,
            gox == ox,
            goy == oy,
            c == stroke_color(s),
            0 <= xl <= 0x1_0000_0000 && xh < CELL && 0 <= yl <= 0x1_0000_0000 && yh < CELL,
            forall|x: int, y: int| #[trigger] covers(s, x, y) ==> xl <= x <= xh && yl <= y <= yh,
            yl <= y,
            y <= yh + 1 || y == yl,
            buf@.len() == orig.len(),
            orig.len() == len,
            forall|j: int|
                0 <= j < orig.len() ==> #[trigger] buf@[j] == blend_times(c, hits(s, j / 4, st, gox, goy, y as int), j % 4, orig[j] as int) as u8,
        decreases yh + 1 - y,
    {
        let mut x: i64 = xl;
        while x <= xh
            invariant
                stroke_ok(s),
                cell_fits(orig.len() as int, st, gox, goy),
                oy + CELL <= usize::MAX,
                st == stride,
                gox == ox,
                goy == oy,
                c == stroke_color(s),
                0 <= xl <= 0x1_0000_0000 && xh < CELL && 0 <= yl <= 0x1_0000_0000 && yh < CELL,
                forall|x: int, y: int| #[trigger] covers(s, x, y) ==> xl <= x <= xh && yl <= y <= yh,
                yl <= y <= yh,
                xl <= x,
                x <= xh + 1 || x == xl,
                buf@.len() == orig.len(),
                orig.len() == len,
                forall|j: int|
                    0 <= j < orig.len() ==> #[trigger] buf@[j] == blend_times(
                        c,
                        hits(s, j / 4, st, gox, goy, y as int) + if row_hits(s, j / 4, st, gox, goy, y as int)
                            && col_in_row(j / 4, st, gox, goy, y as int) < x {
                            1nat
                        } else {
                            0nat
                        },
                        j % 4,
                        orig[j] as int,
                    ) as u8,
            decreases xh + 1 - x,
        {
            let ghost before = buf@;
            if covers_exec(s, x, y) {
                let ghost pix = (goy + y) * st + gox + x;
                proof {
                    assert(0 <= y < CELL && 0 <= x < CELL);
                    assert((goy + y) * st <= (goy + CELL - 1) * st) by {
                        lemma_mul_inequality(goy + y, goy + CELL - 1, st);
                    }
                    assert(0 <= (goy + y) * st) by (nonlinear_arith)
                        requires
                            goy + y >= 0,
                            st >= 0,
                    ;
                    assert(0 <= pix);
                    assert(pix * 4 + 4 <= orig.len());
                }
                let i = (((oy + y as usize) * stride) + ox + x as usize) * 4;
                assert(i == pix * 4);
                blend_pixel(buf, i, c);
                proof {
                    assert forall|j: int| 0 <= j < orig.len() implies #[trigger] buf@[j] == blend_times(
                        c,
                        hits(s, j / 4, st, gox, goy, y as int) + if row_hits(s, j / 4, st, gox, goy, y as int)
                            && col_in_row(j / 4, st, gox, goy, y as int) < x + 1 {
                            1nat
                        } else {
                            0nat
                        },
                        j % 4,
                        orig[j] as int,
                    ) as u8 by {
                        let k = hits(s, j / 4, st, gox, goy, y as int);
                        if i <= j < i + 4 {
                            assert(j / 4 == pix);
                            assert(j % 4 == j - i);
                            assert(col_in_row(j / 4, st, gox, goy, y as int) == x);
                            assert(row_hits(s, j / 4, st, gox, goy, y as int));
                            lemma_blend_times_range(c, k, j % 4, orig[j] as int);
                            assert(before[j] as int == blend_times(c, k, j % 4, orig[j] as int));
                            assert(k + 1nat == (k + 1) as nat);
                            assert(blend_times(c, (k + 1) as nat, j % 4, orig[j] as int) == blend_byte(
                                source_channel(c, j % 4),
                                c.a as int,
                                blend_times(c, k, j % 4, orig[j] as int),
                            ));
                        } else {
                            assert(j / 4 != pix);
                            assert(col_in_row(j / 4, st, gox, goy, y as int) != x);
                        }
                    }
                }
            } else {
                proof {
                    assert forall|j: int| 0 <= j < orig.len() implies #[trigger] buf@[j] == blend_times(
                        c,
                        hits(s, j / 4, st, gox, goy, y as int) + if row_hits(s, j / 4, st, gox, goy, y as int)
                            && col_in_row(j / 4, st, gox, goy, y as int) < x + 1 {
                            1nat
                        } else {
                            0nat
                        },
                        j % 4,
                        orig[j] as int,
                    ) as u8 by {
                        if col_in_row(j / 4, st, gox, goy, y as int) == x {
                            assert(!row_hits(s, j / 4, st, gox, goy, y as int));
                        }
                    }
                }
            }
            x = x + 1;
        }
        proof {
            assert forall|j: int| 0 <= j < orig.len() implies #[trigger] buf@[j] == blend_times(c, hits(s, j / 4, st, gox, goy, y + 1), j % 4, orig[j] as int) as u8 by {
                if row_hits(s, j / 4, st, gox, goy, y as int) {
                    assert(covers(s, col_in_row(j / 4, st, gox, goy, y as int), y as int));
                }
                assert(hits(s, j / 4, st, gox, goy, y + 1) == hits(s, j / 4, st, gox, goy, y as int) + if row_hits(s, j / 4, st, gox, goy, y as int) {
                    1nat
                } else {
                    0nat
                });
            }
        }
        y = y + 1;
    }
    proof {
        assert forall|j: int| 0 <= j < orig.len() implies #[trigger] hits(s, j / 4, st, gox, goy, y as int) == hits(s, j / 4, st, gox, goy, CELL as int) by {
            if y <= CELL {
                assert forall|yy: int| y <= yy < CELL implies !#[trigger] row_hits(s, j / 4, st, gox, goy, yy) by {
                    if row_hits(s, j / 4, st, gox, goy, yy) {
                        assert(covers(s, col_in_row(j / 4, st, gox, goy, yy), yy));
                    }
                }
                lemma_hits_flat(s, j / 4, st, gox, goy, y as int, CELL as int);
            } else {
                assert forall|yy: int| CELL <= yy < y implies !#[trigger] row_hits(s, j / 4, st, gox, goy, yy) by {}
                lemma_hits_flat(s, j / 4, st, gox, goy, CELL as int, y as int);
            }
        }
    }
    assert(buf@ =~= paint_stroke(orig, st, gox, goy, s));
}

/// Paint `strokes` in order into the cell at (ox, oy).
pub fn paint_into(buf: &mut Vec<u8>, stride: usize, ox: usize, oy: usize, strokes: &Vec<Stroke>)
    requires
        forall|k: int| 0 <= k < strokes@.len() ==> stroke_ok(#[trigger] strokes@[k]),
        cell_fits(old(buf)@.len() as int, stride as int, ox as int, oy as int),
        oy + CELL <= usize::MAX,
    ensures
        final(buf)@ == paint(old(buf)@, stride as int, ox as int, oy as int, strokes@),
{
    let ghost orig = buf@;
    let mut k: usize = 0;
    while k < strokes.len()
        invariant
            forall|k: int| 0 <= k < strokes@.len() ==> stroke_ok(#[trigger] strokes@[k]),
            cell_fits(orig.len() as int, stride as int, ox as int, oy as int),
            oy + CELL <= usize::MAX,
            k <= strokes@.len(),
            buf@.len() == orig.len(),
            buf@ == paint(orig, stride as int, ox as int, oy as int, strokes@.take(k as int)),
        decreases strokes.len() - k,
    {
        paint_stroke_into(buf, stride, ox, oy, strokes[k]);
        assert(strokes@.take(k + 1).drop_last() =~= strokes@.take(k as int));
        k = k + 1;
    }
    assert(strokes@.take(strokes@.len() as int) =~= strokes@);
}

} // verus!

//! Speech-bubble rasteriser. Renders a short line of text into a small RGBA
//! texture using the built-in 8×8 bitmap font, scaled ×2: a rounded box with
//! a border, a downward tail, and the text inked on top.

use vstd::prelude::*;
use vstd::arithmetic::div_mod::{lemma_fundamental_div_mod, lemma_fundamental_div_mod_converse};
use vstd::string::StrSliceExecFns;
use crate::font::{basic_glyph, basic_font_get};
use crate::paint::Rgba;

verus! {

/// A rasterised speech bubble (straight-alpha RGBA, row-major).
pub struct Banner {
    pub pixels: Vec<u8>,
    pub width: u32,
    pub height: u32,
}

/// At most this many characters are shown.
pub const MAX_CHARS: usize = 42;
/// Glyph scale factor.
pub const SCALE: i32 = 2;
/// Padding between the box edge and the text, px.
pub const PAD: i32 = 7;
/// Glyph side before scaling, px.
pub const GLYPH: i32 = 8;
/// Height of the downward tail, px.
pub const TAIL: i32 = 6;
/// Corner radius of the box, px.
pub const RADIUS: i32 = 5;
/// Height of the box: one scaled glyph plus padding.
pub const BOX_H: i32 = 30;
/// Height of the whole bubble: the box plus the tail.
pub const BANNER_H: u32 = 36;

pub open spec fn bg() -> Rgba {
    Rgba { r: 26, g: 28, b: 40, a: 230 }
}

pub open spec fn border() -> Rgba {
    Rgba { r: 120, g: 132, b: 165, a: 240 }
}

pub open spec fn ink() -> Rgba {
    Rgba { r: 240, g: 242, b: 255, a: 255 }
}

pub open spec fn clear() -> Rgba {
    Rgba { r: 0, g: 0, b: 0, a: 0 }
}

/// Width of the bubble for `n` characters (an empty line is one character wide).
pub open spec fn banner_width(n: int) -> int {
    (if n < 1 { 1 } else { n }) * GLYPH * SCALE + PAD * 2
}

/// Straight-alpha source-over of `c` onto `dst`, channels truncated, alpha
/// the larger of the two.
pub open spec fn over(dst: Rgba, c: Rgba) -> Rgba {
    Rgba {
        r: ((c.r * c.a + dst.r * (255 - c.a)) / 255) as u8,
        g: ((c.g * c.a + dst.g * (255 - c.a)) / 255) as u8,
        b: ((c.b * c.a + dst.b * (255 - c.a)) / 255) as u8,
        a: if dst.a >= c.a { dst.a } else { c.a },
    }
}

pub open spec fn sq_dist(x: int, y: int, cx: int, cy: int) -> int {
    (x - cx) * (x - cx) + (y - cy) * (y - cy)
}

/// (x, y) lies in one of the four cut-off corners of a `w`×`h` box: inside the
/// corner square but farther than the radius from the corner's centre.
pub open spec fn cut_corner(x: int, y: int, w: int, h: int) -> bool {
    let r = RADIUS as int;
    ||| x < r && y < r && sq_dist(x, y, r, r) > r * r
    ||| x >= w - r && y < r && sq_dist(x, y, w - r, r) > r * r
    ||| x < r && y >= h - r && sq_dist(x, y, r, h - r) > r * r
    ||| x >= w - r && y >= h - r && sq_dist(x, y, w - r, h - r) > r * r
}

/// (x, y) lies on the rounded rim of a corner: at a squared distance from a
/// corner centre between r² − 1.5·r and r² + 1.
pub open spec fn near_corner(x: int, y: int, w: int, h: int) -> bool {
    let r = RADIUS as int;
    let on = |cx: int, cy: int| 18 <= sq_dist(x, y, cx, cy) <= 26;
    on(r, r) || on(w - r, r) || on(r, h - r) || on(w - r, h - r)
}

/// The glyph of text character `i`, from the bitmap font or blank.
pub open spec fn glyph_or_blank(g: Option<Seq<u8>>) -> Seq<u8> {
    match g {
        Some(bits) => bits,
        None => seq![0u8, 0u8, 0u8, 0u8, 0u8, 0u8, 0u8, 0u8],
    }
}

/// Pixel (x, y) is inked by the text: it falls in a set bit of its
/// character's glyph, each glyph pixel drawn as a 2×2 block.
pub open spec fn inked(glyphs: Seq<Seq<u8>>, x: int, y: int) -> bool {
    let gx = x - PAD;
    let gy = y - PAD;
    &&& 0 <= gx < glyphs.len() * GLYPH * SCALE
    &&& 0 <= gy < GLYPH * SCALE
    &&& glyphs[gx / (GLYPH * SCALE) as int][gy / SCALE as int] & (1u8 << ((gx % (GLYPH * SCALE) as int) / SCALE as int) as u8) != 0
}

/// The colour at (x, y) before the text: the bordered rounded box, the tail
/// below it, or nothing.
pub open spec fn backdrop(n: int, x: int, y: int) -> Rgba {
    let w = banner_width(n);
    let h = BOX_H as int;
    if 0 <= x < w && 0 <= y < h {
        if cut_corner(x, y, w, h) {
            clear()
        } else if x == 0 || x == w - 1 || y == 0 || y == h - 1 || near_corner(x, y, w, h) {
            over(clear(), border())
        } else {
            over(clear(), bg())
        }
    } else if h <= y < h + TAIL && w / 2 - (TAIL - (y - h)) <= x < w / 2 + (TAIL - (y - h)) {
        over(clear(), bg())
    } else {
        clear()
    }
}

/// The finished bubble pixel at (x, y) for a line of `glyphs`.
pub open spec fn banner_pixel(glyphs: Seq<Seq<u8>>, x: int, y: int) -> Rgba {
    let under = backdrop(glyphs.len() as int, x, y);
    if inked(glyphs, x, y) {
        over(under, ink())
    } else {
        under
    }
}

pub open spec fn channel(c: Rgba, k: int) -> u8 {
    if k == 0 {
        c.r
    } else if k == 1 {
        c.g
    } else if k == 2 {
        c.b
    } else {
        c.a
    }
}

/// The RGBA bytes of the bubble for a line of `glyphs`.
pub open spec fn banner_bytes(glyphs: Seq<Seq<u8>>) -> Seq<u8> {
    let w = banner_width(glyphs.len() as int);
    Seq::new(
        (w * BANNER_H * 4) as nat,
        |j: int| channel(banner_pixel(glyphs, (j / 4) % w, (j / 4) / w), j % 4),
    )
}

/// The characters shown for `text`: its first 42.
pub open spec fn shown_chars(text: Seq<char>) -> Seq<char> {
    if text.len() > MAX_CHARS {
        text.take(MAX_CHARS as int)
    } else {
        text
    }
}

/// The glyphs shown for `text`.
pub open spec fn text_glyphs(text: Seq<char>) -> Seq<Seq<u8>> {
    Seq::new(shown_chars(text).len(), |i: int| glyph_or_blank(basic_glyph(shown_chars(text)[i])))
}

fn over_exec(dst: Rgba, c: Rgba) -> (r: Rgba)
    ensures
        r == over(dst, c),
{
    let a = c.a as u32;
    assert(c.r * a + dst.r * (255 - a) <= 255 * 255) by (nonlinear_arith)
        requires
            c.r <= 255,
            dst.r <= 255,
            a <= 255,
    ;
    assert(c.g * a + dst.g * (255 - a) <= 255 * 255) by (nonlinear_arith)
        requires
            c.g <= 255,
            dst.g <= 255,
            a <= 255,
    ;
    assert(c.b * a + dst.b * (255 - a) <= 255 * 255) by (nonlinear_arith)
        requires
            c.b <= 255,
            dst.b <= 255,
            a <= 255,
    ;
    Rgba {
        r: ((c.r as u32 * a + dst.r as u32 * (255 - a)) / 255) as u8,
        g: ((c.g as u32 * a + dst.g as u32 * (255 - a)) / 255) as u8,
        b: ((c.b as u32 * a + dst.b as u32 * (255 - a)) / 255) as u8,
        a: if dst.a >= c.a { dst.a } else { c.a },
    }
}

fn sq_dist_exec(x: i64, y: i64, cx: i64, cy: i64) -> (d: i64)
    requires
        -1000 <= x <= 1000,
        -1000 <= y <= 1000,
        -1000 <= cx <= 1000,
        -1000 <= cy <= 1000,
    ensures
        d == sq_dist(x as int, y as int, cx as int, cy as int),
{
    assert(0 <= (x - cx) * (x - cx) <= 2000 * 2000) by (nonlinear_arith)
        requires
            -2000 <= x - cx <= 2000,
    ;
    assert(0 <= (y - cy) * (y - cy) <= 2000 * 2000) by (nonlinear_arith)
        requires
            -2000 <= y - cy <= 2000,
    ;
    (x - cx) * (x - cx) + (y - cy) * (y - cy)
}

fn backdrop_exec(n: i64, x: i64, y: i64) -> (c: Rgba)
    requires
        1 <= n <= 42,
        0 <= x < 1000,
        0 <= y < 1000,
    ensures
        c == backdrop(n as int, x as int, y as int),
{
    let w = n * 16 + 14;
    let h: i64 = 30;
    let r: i64 = 5;
    let bg = Rgba { r: 26, g: 28, b: 40, a: 230 };
    let border = Rgba { r: 120, g: 132, b: 165, a: 240 };
    let clear = Rgba { r: 0, g: 0, b: 0, a: 0 };
    if x < w && y < h {
        let corner = (x < r && y < r && sq_dist_exec(x, y, r, r) > 25) || (x >= w - r && y < r && sq_dist_exec(
            x,
            y,
            w - r,
            r,
        ) > 25) || (x < r && y >= h - r && sq_dist_exec(x, y, r, h - r) > 25) || (x >= w - r && y >= h - r
            && sq_dist_exec(x, y, w - r, h - r) > 25);
        if corner {
            clear
        } else {
            let d1 = sq_dist_exec(x, y, r, r);
            let d2 = sq_dist_exec(x, y, w - r, r);
            let d3 = sq_dist_exec(x, y, r, h - r);
            let d4 = sq_dist_exec(x, y, w - r, h - r);
            let near = (18 <= d1 && d1 <= 26) || (18 <= d2 && d2 <= 26) || (18 <= d3 && d3 <= 26) || (18 <= d4
                && d4 <= 26);
            if x == 0 || x == w - 1 || y == 0 || y == h - 1 || near {
                over_exec(clear, border)
            } else {
                over_exec(clear, bg)
            }
        }
    } else if h <= y && y < h + 6 && w / 2 - (6 - (y - h)) <= x && x < w / 2 + (6 - (y - h)) {
        over_exec(clear, bg)
    } else {
        clear
    }
}

fn inked_exec(glyphs: &Vec<[u8; 8]>, x: i64, y: i64) -> (b: bool)
    requires
        glyphs@.len() <= 42,
        0 <= x < 1000,
        0 <= y < 1000,
    ensures
        b == inked(glyphs@.map_values(|g: [u8; 8]| g@), x as int, y as int),
{
    let ghost gs = glyphs@.map_values(|g: [u8; 8]| g@);
    let gx = x - 7;
    let gy = y - 7;
    if gx < 0 || gx >= glyphs.len() as i64 * 16 || gy < 0 || gy >= 16 {
        return false;
    }
    let gi = (gx / 16) as usize;
    let row = (gy / 2) as usize;
    let col = ((gx % 16) / 2) as u8;
    let bits = glyphs[gi][row];
    assert(gs[gi as int] == glyphs@[gi as int]@);
    bits & (1u8 << col) != 0
}

/// Render a line of glyph bitmaps (as looked up in the font) into a bubble.
pub fn render_glyphs(glyphs: &Vec<[u8; 8]>) -> (b: Banner)
    requires
        glyphs@.len() <= 42,
    ensures
        b.width == banner_width(glyphs@.len() as int),
        b.height == BANNER_H,
        b.pixels@ == banner_bytes(glyphs@.map_values(|g: [u8; 8]| g@)),
{
    let ghost gs = glyphs@.map_values(|g: [u8; 8]| g@);
    let n: i64 = if glyphs.len() < 1 { 1 } else { glyphs.len() as i64 };
    let w: i64 = n * 16 + 14;
    let h: i64 = 36;
    let mut px: Vec<u8> = Vec::new();
    let mut y: i64 = 0;
    while y < h
        invariant
            1 <= n <= 42,
            w == n * 16 + 14,
            w == banner_width(gs.len() as int),
            h == 36,
            gs == glyphs@.map_values(|g: [u8; 8]| g@),
            glyphs@.len() <= 42,
            0 <= y <= h,
            px@.len() == y * w * 4,
            forall|j: int|
                0 <= j < px@.len() ==> #[trigger] px@[j] == channel(banner_pixel(gs, (j / 4) % (w as int), (j / 4) / (w as int)), j % 4),
        decreases h - y,
    {
        let mut x: i64 = 0;
        while x < w
            invariant
                1 <= n <= 42,
                w == n * 16 + 14,
                w == banner_width(gs.len() as int),
                h == 36,
                gs == glyphs@.map_values(|g: [u8; 8]| g@),
                glyphs@.len() <= 42,
                0 <= y < h,
                0 <= x <= w,
                px@.len() == (y * w + x) * 4,
                forall|j: int|
                    0 <= j < px@.len() ==> #[trigger] px@[j] == channel(banner_pixel(gs, (j / 4) % (w as int), (j / 4) / (w as int)), j % 4),
            decreases w - x,
        {
            let under = backdrop_exec(n, x, y);
            assert(under == backdrop(gs.len() as int, x as int, y as int));
            let c = if inked_exec(glyphs, x, y) { over_exec(under, Rgba { r: 240, g: 242, b: 255, a: 255 }) } else { under };
            let ghost before = px@;
            px.push(c.r);
            px.push(c.g);
            px.push(c.b);
            px.push(c.a);
            proof {
                let p = y * w + x;
                assert((y * w + x) * 4 + 4 == (y * w + x + 1) * 4);
                assert forall|j: int| 0 <= j < px@.len() implies #[trigger] px@[j] == channel(banner_pixel(gs, (j / 4) % (w as int), (j / 4) / (w as int)), j % 4) by {
                    if j >= p * 4 {
                        assert(j / 4 == p);
                        lemma_fundamental_div_mod_converse(p, w as int, y as int, x as int);
                        assert(j % 4 == j - p * 4);
                    } else {
                        assert(px@[j] == before[j]);
                    }
                }
            }
            x = x + 1;
        }
        assert((y * w + w) * 4 == (y + 1) * w * 4) by (nonlinear_arith);
        y = y + 1;
    }
    assert(y * w * 4 == w * 36 * 4) by (nonlinear_arith)
        requires
            y == 36,
    ;
    assert(px@ =~= banner_bytes(gs));
    Banner { pixels: px, width: w as u32, height: 36 }
}

/// A bubble is 36 pixels tall and 16 pixels wide per shown character plus
/// 14, as wide as one character when the text is empty; at most the first
/// 42 characters are shown.
pub proof fn lemma_banner_size(text: Seq<char>)
    ensures
        banner_width(shown_chars(text).len() as int) == (if text.len() == 0 {
            1
        } else if text.len() > 42 {
            42
        } else {
            text.len() as int
        }) * 16 + 14,
        shown_chars(text) == text.take(if text.len() > 42 { 42 } else { text.len() as int }),
        BANNER_H == 36,
{
    assert(text.take(text.len() as int) =~= text);
}

/// What a bubble looks like, whatever the text: inked pixels are solid ink
/// (240, 242, 255, 255) over whatever lies beneath; nothing is painted
/// outside the box and its tail; the four outer corners are cut away; the
/// top and bottom edges between the rounded corners are border (alpha 240);
/// and under the box the tail narrows by one pixel on each side per row,
/// 12 pixels wide in its first row, centred on the middle of the box,
/// filled with the background (alpha 230) and clear on either side.
pub proof fn lemma_banner_look(glyphs: Seq<Seq<u8>>, x: int, y: int)
    ensures
        inked(glyphs, x, y) ==> banner_pixel(glyphs, x, y) == (Rgba { r: 240, g: 242, b: 255, a: 255 }),
        !(0 <= x < banner_width(glyphs.len() as int) && 0 <= y < 36) ==> banner_pixel(glyphs, x, y).a == 0,
        banner_pixel(glyphs, 0, 0).a == 0,
        banner_pixel(glyphs, banner_width(glyphs.len() as int) - 1, 0).a == 0,
        banner_pixel(glyphs, 0, 29).a == 0,
        banner_pixel(glyphs, banner_width(glyphs.len() as int) - 1, 29).a == 0,
        (y == 0 || y == 29) && 5 <= x < banner_width(glyphs.len() as int) - 5 ==> banner_pixel(glyphs, x, y).a
            == 240,
        30 <= y < 36 ==> banner_pixel(glyphs, x, y).a == (if banner_width(glyphs.len() as int) / 2 - (36 - y) <= x
            < banner_width(glyphs.len() as int) / 2 + (36 - y) {
            230u8
        } else {
            0u8
        }),
{
    let n = glyphs.len() as int;
    let w = banner_width(n);
    assert(w >= 30);
    assert(sq_dist(0, 0, 5, 5) == 50);
    assert(w - 1 - (w - 5) == 4);
    assert(sq_dist(w - 1, 0, w - 5, 5) == 41);
    assert(sq_dist(0, 29, 5, 25) == 41);
    assert(sq_dist(w - 1, 29, w - 5, 25) == 32);
    let u = backdrop(n, x, y);
    assert((240 * 255 + u.r * (255 - 255)) / 255 == 240);
    assert((242 * 255 + u.g * (255 - 255)) / 255 == 242);
    assert((255 * 255 + u.b * (255 - 255)) / 255 == 255);
    assert(!inked(glyphs, 0, 0));
    assert(!inked(glyphs, w - 1, 0));
    assert(!inked(glyphs, 0, 29));
    assert(!inked(glyphs, w - 1, 29));
}

impl Banner {
    /// Render `text` (its first 42 characters) into a speech bubble.
    pub fn render(text: &str) -> (b: Banner)
        ensures
            b.width == banner_width(shown_chars(text@).len() as int),
            b.height == BANNER_H,
            b.pixels@ == banner_bytes(text_glyphs(text@)),
    {
        let len = text.unicode_len();
        let n = if len > 42 { 42 } else { len };
        let mut glyphs: Vec<[u8; 8]> = Vec::new();
        let mut i: usize = 0;
        while i < n
            invariant
                n <= 42,
                n == shown_chars(text@).len(),
                len == text@.len(),
                i <= n,
                glyphs@.len() == i,
                forall|k: int|
                    0 <= k < i ==> #[trigger] glyphs@[k]@ == glyph_or_blank(basic_glyph(shown_chars(text@)[k])),
            decreases n - i,
        {
            let ch = text.get_char(i);
            let g = match basic_font_get(ch) {
                Some(bits) => bits,
                None => [0u8; 8],
            };
            assert(shown_chars(text@)[i as int] == ch);
            assert(g@ == glyph_or_blank(basic_glyph(ch)));
            glyphs.push(g);
            i = i + 1;
        }
        assert(glyphs@.map_values(|g: [u8; 8]| g@) =~= text_glyphs(text@));
        render_glyphs(&glyphs)
    }
}

} // verus!

//! The CPU frame compositor's bookkeeping: where the banner and the sprite
//! box go on the small premultiplied-BGRA canvas, the blank canvas itself,
//! and reading texels out of a source rectangle. The sampling, rotation and
//! blending (all floating point) are done by the app.

use vstd::prelude::*;

verus! {

/// A source rectangle inside a straight-alpha RGBA image.
#[derive(Clone, Copy)]
pub struct Src<'a> {
    pub pixels: &'a [u8],
    /// Width in px of the whole source image (row stride / 4).
    pub stride: u32,
    pub x: u32,
    pub y: u32,
    pub w: u32,
    pub h: u32,
}

impl<'a> Src<'a> {
    /// Byte offset of texel (`sx`, `sy`) of the rectangle in the image.
    pub open spec fn offset(self, sx: u32, sy: u32) -> int {
        ((self.y + sy) * self.stride + self.x + sx) * 4
    }

    /// The RGBA bytes of texel (`sx`, `sy`) of the rectangle.
    pub fn texel(&self, sx: u32, sy: u32) -> (p: [u8; 4])
        requires
            self.y + sy <= u32::MAX,
            self.offset(sx, sy) + 4 <= self.pixels@.len(),
            self.offset(sx, sy) <= u32::MAX,
        ensures
            forall|k: int| 0 <= k < 4 ==> p@[k] == self.pixels@[self.offset(sx, sy) + k],
    {
        let row = self.y + sy;
        assert(row * self.stride <= (row * self.stride + self.x + sx)) by (nonlinear_arith)
            requires
                row >= 0,
                self.stride >= 0,
                self.x >= 0,
                sx >= 0,
        ;
        let i = ((row * self.stride + self.x + sx) * 4) as usize;
        [self.pixels[i], self.pixels[i + 1], self.pixels[i + 2], self.pixels[i + 3]]
    }
}

/// Where everything goes on the canvas.
#[derive(Clone, Copy)]
pub struct FrameLayout {
    pub w: i32,
    pub h: i32,
    /// Top row of the sprite box.
    pub box_top: i32,
    /// Sprite centre within the canvas.
    pub center_x: i32,
    pub center_y: i32,
    /// Left column of the banner.
    pub banner_x: i32,
}

pub open spec fn max(a: int, b: int) -> int {
    if a >= b {
        a
    } else {
        b
    }
}

/// The canvas for a sprite box of side `box_side` under a banner of
/// `banner_w` by `banner_h` pixels (0 by 0 for none): as wide as the wider
/// of the two, the banner on top, 4 pixels of gap when there is a banner,
/// then the box.
pub open spec fn spec_layout(box_side: int, banner_w: int, banner_h: int) -> FrameLayout {
    let gap: int = if banner_h > 0 {
        4
    } else {
        0
    };
    let w = max(box_side, banner_w);
    let box_top = banner_h + gap;
    FrameLayout {
        w: w as i32,
        h: (banner_h + gap + box_side) as i32,
        box_top: box_top as i32,
        center_x: (w / 2) as i32,
        center_y: (box_top + box_side / 2) as i32,
        banner_x: ((w - banner_w) / 2) as i32,
    }
}

/// Lay out the canvas.
pub fn frame_layout(box_side: i32, banner_w: i32, banner_h: i32) -> (l: FrameLayout)
    requires
        0 <= box_side,
        0 <= banner_w,
        0 <= banner_h,
        banner_h + (if banner_h > 0 {
            4int
        } else {
            0int
        }) + box_side <= i32::MAX,
    ensures
        l == spec_layout(box_side as int, banner_w as int, banner_h as int),
{
    let gap: i32 = if banner_h > 0 {
        4
    } else {
        0
    };
    let w = if box_side >= banner_w {
        box_side
    } else {
        banner_w
    };
    let box_top = banner_h + gap;
    FrameLayout {
        w,
        h: banner_h + gap + box_side,
        box_top,
        center_x: w / 2,
        center_y: box_top + box_side / 2,
        banner_x: (w - banner_w) / 2,
    }
}

/// The banner sits above the sprite box and inside the canvas, and the
/// sprite box fits the canvas with its centre inside the box. The canvas is
/// exactly as wide as the wider of the two; a banner leaves 4 pixels of gap
/// above the box, no banner leaves none; the banner is centred (any odd
/// pixel of slack on its right), and the sprite centre is the middle of the
/// canvas's width and of the box's height, rounded down.
pub proof fn lemma_layout_fits(box_side: int, banner_w: int, banner_h: int)
    requires
        0 <= box_side,
        0 <= banner_w,
        0 <= banner_h,
        banner_h + (if banner_h > 0 {
            4int
        } else {
            0int
        }) + box_side <= i32::MAX,
        banner_w <= i32::MAX,
    ensures
        ({
            let l = spec_layout(box_side, banner_w, banner_h);
            &&& l.w >= banner_w && l.w >= box_side
            &&& l.box_top >= banner_h
            &&& l.h == l.box_top + box_side
            &&& 0 <= l.banner_x && l.banner_x + banner_w <= l.w
            &&& (box_side > 0 ==> l.h > banner_h)
            &&& (box_side > 0 ==> l.box_top <= l.center_y < l.box_top + box_side)
            &&& 0 <= l.center_x && (l.w > 0 ==> l.center_x < l.w)
            &&& (l.w == banner_w || l.w == box_side)
            &&& (banner_h > 0 ==> l.box_top == banner_h + 4)
            &&& (banner_h == 0 ==> l.box_top == 0)
            &&& ({
                let slack = l.w - banner_w - 2 * l.banner_x;
                slack == 0 || slack == 1
            })
            &&& (l.w == 2 * l.center_x || l.w == 2 * l.center_x + 1)
            &&& ({
                let down = l.center_y - l.box_top;
                box_side == 2 * down || box_side == 2 * down + 1
            })
        }),
{
}

/// A composed frame: premultiplied BGRA, row-major, `w * h * 4` bytes.
pub struct Frame {
    pub bgra: Vec<u8>,
    pub w: i32,
    pub h: i32,
    /// Sprite centre within the canvas — align this to the creature's
    /// global position when placing the window.
    pub center_x: i32,
    pub center_y: i32,
}

impl Frame {
    /// A fully transparent canvas of the layout's size.
    pub fn blank(l: &FrameLayout) -> (f: Frame)
        requires
            0 <= l.w,
            0 <= l.h,
            l.w * l.h * 4 <= i32::MAX,
        ensures
            f.w == l.w,
            f.h == l.h,
            f.center_x == l.center_x,
            f.center_y == l.center_y,
            f.bgra@.len() == l.w * l.h * 4,
            forall|i: int| 0 <= i < f.bgra@.len() ==> f.bgra@[i] == 0,
    {
        assert(0 <= l.w * l.h) by (nonlinear_arith)
            requires
                0 <= l.w,
                0 <= l.h,
        ;
        let n = (l.w * l.h * 4) as usize;
        let mut bgra: Vec<u8> = Vec::new();
        let mut i: usize = 0;
        while i < n
            invariant
                i <= n,
                bgra@.len() == i,
                forall|k: int| 0 <= k < i ==> bgra@[k] == 0,
            decreases n - i,
        {
            bgra.push(0);
            i += 1;
        }
        Frame { bgra, w: l.w, h: l.h, center_x: l.center_x, center_y: l.center_y }
    }
}

} // verus!

//! The avatar converter's rules: pack names, transparent-margin trimming,
//! the square bottom-anchored canvas, and the raster decoding and
//! compositing it borrows from the `image` crate.

use vstd::prelude::*;
use vstd::string::StrSliceExecFns;
use crate::raster::Raster;
use crate::animation::{round_sig24, ulp24, round_sig24_exec, lemma_round_sig24_close, lemma_ulp24_le};
use image::ImageError;

verus! {

// ----------------------------------------------------------------------------
// Pack names
// ----------------------------------------------------------------------------

pub open spec fn is_ascii_alnum(c: char) -> bool {
    ('a' <= c <= 'z') || ('A' <= c <= 'Z') || ('0' <= c <= '9')
}

pub open spec fn ascii_lower(c: char) -> char {
    if 'A' <= c <= 'Z' {
        ((c as u32) + 32) as char
    } else {
        c
    }
}

/// A name character as it may appear in a pack folder name: ASCII letters
/// (lower-cased), digits, `-` and `_` stay; anything else becomes `-`.
pub open spec fn safe_char(c: char) -> char {
    if is_ascii_alnum(c) || c == '-' || c == '_' {
        ascii_lower(c)
    } else {
        '-'
    }
}

/// The folder name for a pet called `name`; an empty name becomes "pet".
pub open spec fn sanitized(name: Seq<char>) -> Seq<char> {
    if name.len() == 0 {
        seq!['p', 'e', 't']
    } else {
        name.map_values(|c: char| safe_char(c))
    }
}

/// Characters a pack folder name consists of.
pub open spec fn is_name_char(c: char) -> bool {
    ('a' <= c <= 'z') || ('0' <= c <= '9') || c == '-' || c == '_'
}

/// Appends one character to a `String` (`String::push`). Trusted: the text
/// grows by exactly that character.
#[verifier::external_body]
fn push_char(s: &mut String, c: char)
    ensures
        final(s)@ == old(s)@.push(c),
{
    s.push(c);
}

fn safe_char_exec(c: char) -> (r: char)
    ensures
        r == safe_char(c),
{
    if c >= 'A' && c <= 'Z' {
        let lower = ((c as u8) + 32) as char;
        assert(lower == ((c as u32) + 32) as char);
        lower
    } else if (c >= 'a' && c <= 'z') || (c >= '0' && c <= '9') || c == '-' || c == '_' {
        c
    } else {
        '-'
    }
}

/// Turn a pet name into a safe folder name.
pub fn sanitize(name: &str) -> (s: String)
    ensures
        s@ == sanitized(name@),
{
    let n = name.unicode_len();
    if n == 0 {
        let s = String::from_str("pet");
        proof {
            reveal_strlit("pet");
        }
        assert(s@ =~= sanitized(name@));
        return s;
    }
    let mut s = String::new();
    let mut i: usize = 0;
    while i < n
        invariant
            n == name@.len(),
            i <= n,
            s@ == name@.take(i as int).map_values(|c: char| safe_char(c)),
        decreases n - i,
    {
        let c = name.get_char(i);
        push_char(&mut s, safe_char_exec(c));
        assert(name@.take(i + 1).map_values(|c: char| safe_char(c)) =~= name@.take(i as int).map_values(
            |c: char| safe_char(c),
        ).push(safe_char(c)));
        i = i + 1;
    }
    assert(name@.take(n as int) =~= name@);
    s
}

/// A sanitised name is non-empty and made only of name characters.
pub proof fn lemma_sanitized_chars(name: Seq<char>)
    ensures
        sanitized(name).len() > 0,
        forall|i: int| 0 <= i < sanitized(name).len() ==> is_name_char(#[trigger] sanitized(name)[i]),
        name.len() > 0 ==> sanitized(name).len() == name.len(),
{
}

/// Each character of a name maps on its own: ASCII letters become lower
/// case, digits, `-` and `_` stay, everything else becomes `-`; an empty
/// name becomes "pet".
pub proof fn lemma_sanitize_chars_map(name: Seq<char>)
    ensures
        name.len() == 0 ==> sanitized(name) == seq!['p', 'e', 't'],
        name.len() > 0 ==> sanitized(name).len() == name.len() && forall|i: int| 0 <= i < name.len() ==> {
            let c = #[trigger] name[i];
            let o = sanitized(name)[i];
            &&& ('A' <= c <= 'Z' ==> o as u32 == c as u32 + 32)
            &&& (('a' <= c <= 'z') || ('0' <= c <= '9') || c == '-' || c == '_' ==> o == c)
            &&& (!('A' <= c <= 'Z') && !('a' <= c <= 'z') && !('0' <= c <= '9') && c != '-' && c != '_'
                ==> o == '-')
        },
{
}

/// Sanitising is idempotent: a folder name passes through unchanged.
pub proof fn lemma_sanitize_idempotent(name: Seq<char>)
    ensures
        sanitized(sanitized(name)) == sanitized(name),
{
    let s = sanitized(name);
    assert(sanitized(s) =~= s);
}


// ----------------------------------------------------------------------------
// Trimming the transparent margin
// ----------------------------------------------------------------------------

/// Pixels at most this opaque count as margin.
pub const ALPHA_CUTOFF: u8 = 16;

/// Pixel (x, y) of a `w`-wide image is part of the figure.
pub open spec fn solid(px: Seq<u8>, w: int, x: int, y: int) -> bool {
    px[(y * w + x) * 4 + 3] > ALPHA_CUTOFF
}

/// Some pixel of the image is part of the figure.
pub open spec fn has_figure(img: Raster) -> bool {
    exists|x: int, y: int| 0 <= x < img.width && 0 <= y < img.height && #[trigger] solid(img.pixels@, img.width as int, x, y)
}

/// [x0, x1] × [y0, y1] lies inside the image and is the smallest box
/// holding every figure pixel.
pub open spec fn tight_box(img: Raster, x0: int, y0: int, x1: int, y1: int) -> bool {
    let px = img.pixels@;
    let w = img.width as int;
    &&& 0 <= x0 <= x1 < img.width
    &&& 0 <= y0 <= y1 < img.height
    &&& forall|x: int, y: int|
        0 <= x < img.width && 0 <= y < img.height && #[trigger] solid(px, w, x, y) ==> x0 <= x <= x1 && y0 <= y <= y1
    &&& exists|y: int| 0 <= y < img.height && #[trigger] solid(px, w, x0, y)
    &&& exists|y: int| 0 <= y < img.height && #[trigger] solid(px, w, x1, y)
    &&& exists|x: int| 0 <= x < img.width && #[trigger] solid(px, w, x, y0)
    &&& exists|x: int| 0 <= x < img.width && #[trigger] solid(px, w, x, y1)
}

/// The bytes of the `cw`×`ch` region of a `w`-wide image whose top-left is (x0, y0).
pub open spec fn crop_bytes(px: Seq<u8>, w: int, x0: int, y0: int, cw: int, ch: int) -> Seq<u8> {
    Seq::new(
        (cw * ch * 4) as nat,
        |j: int| px[((y0 + (j / 4) / cw) * w + x0 + (j / 4) % cw) * 4 + j % 4],
    )
}

proof fn lemma_index_in_image(w: int, h: int, x: int, y: int)
    requires
        0 <= x < w,
        0 <= y < h,
    ensures
        0 <= (y * w + x) * 4 + 3 < w * h * 4,
        (y * w + x) * 4 + 4 <= w * h * 4,
{
    assert(y * w + x < w * h) by (nonlinear_arith)
        requires
            0 <= x < w,
            0 <= y < h,
    ;
    assert(0 <= y * w) by (nonlinear_arith)
        requires
            0 <= y,
            0 <= w,
    ;
}

/// Crop the image to the bounding box of its figure (pixels more opaque than
/// the cutoff); `None` when it has none.
pub fn trim(img: &Raster) -> (r: Option<Raster>)
    requires
        img.wf(),
        img.width > 0 || img.height > 0,
        img.width * img.height * 4 <= usize::MAX,
    ensures
        r is None <==> !has_figure(*img),
        match r {
            None => true,
            Some(t) => exists|x0: int, y0: int, x1: int, y1: int| {
                &&& tight_box(*img, x0, y0, x1, y1)
                &&& t.width == x1 - x0 + 1
                &&& t.height == y1 - y0 + 1
                &&& t.pixels@ == crop_bytes(img.pixels@, img.width as int, x0, y0, x1 - x0 + 1, y1 - y0 + 1)
            },
        },
{
    let w = img.width;
    let h = img.height;
    let ghost px = img.pixels@;
    let mut x0: u32 = w;
    let mut y0: u32 = h;
    let mut x1: u32 = 0;
    let mut y1: u32 = 0;
    let mut found = false;
    let ghost mut wx0: int = 0;
    let ghost mut wx1: int = 0;
    let ghost mut wy0: int = 0;
    let ghost mut wy1: int = 0;
    let mut y: u32 = 0;
    while y < h
        invariant
            img.wf(),
            w == img.width,
            h == img.height,
            px == img.pixels@,
            w * h * 4 <= usize::MAX,
            y <= h,
            found ==> {
                &&& 0 <= wx0 < y && solid(px, w as int, x0 as int, wx0)
                &&& 0 <= wx1 < y && solid(px, w as int, x1 as int, wx1)
                &&& 0 <= wy0 < w && solid(px, w as int, wy0, y0 as int)
                &&& 0 <= wy1 < w && solid(px, w as int, wy1, y1 as int)
                &&& x0 < w && x1 < w && y0 < y && y1 < y
            },
            !found ==> x0 == w && y0 == h && x1 == 0 && y1 == 0,
            forall|xx: int, yy: int|
                0 <= xx < w && 0 <= yy < y && #[trigger] solid(px, w as int, xx, yy) ==> found && x0 <= xx <= x1
                    && y0 <= yy <= y1,
        decreases h - y,
    {
        let mut x: u32 = 0;
        while x < w
            invariant
                img.wf(),
                w == img.width,
                h == img.height,
                px == img.pixels@,
                w * h * 4 <= usize::MAX,
                y < h,
                x <= w,
                found ==> {
                    &&& 0 <= wx0 <= y && solid(px, w as int, x0 as int, wx0)
                    &&& 0 <= wx1 <= y && solid(px, w as int, x1 as int, wx1)
                    &&& 0 <= wy0 < w && solid(px, w as int, wy0, y0 as int)
                    &&& 0 <= wy1 < w && solid(px, w as int, wy1, y1 as int)
                    &&& x0 < w && x1 < w && y0 <= y && y1 <= y
                },
                !found ==> x0 == w && y0 == h && x1 == 0 && y1 == 0,
                forall|xx: int, yy: int|
                    0 <= xx < w && 0 <= yy < h && (yy < y || (yy == y && xx < x)) && #[trigger] solid(px, w as int, xx, yy)
                        ==> found && x0 <= xx <= x1 && y0 <= yy <= y1,
            decreases w - x,
        {
            proof {
                lemma_index_in_image(w as int, h as int, x as int, y as int);
            }
            let a = img.pixels[((y as usize) * (w as usize) + x as usize) * 4 + 3];
            if a > ALPHA_CUTOFF {
                if !found || x < x0 {
                    x0 = x;
                    proof {
                        wx0 = y as int;
                    }
                }
                if !found || y < y0 {
                    y0 = y;
                    proof {
                        wy0 = x as int;
                    }
                }
                if !found || x > x1 {
                    x1 = x;
                    proof {
                        wx1 = y as int;
                    }
                }
                if !found || y > y1 {
                    y1 = y;
                    proof {
                        wy1 = x as int;
                    }
                }
                found = true;
            }
            x = x + 1;
        }
        y = y + 1;
    }
    if !found {
        assert(!has_figure(*img));
        return None;
    }
    let cw = x1 - x0 + 1;
    let ch = y1 - y0 + 1;
    assert(tight_box(*img, x0 as int, y0 as int, x1 as int, y1 as int));
    let mut out: Vec<u8> = Vec::new();
    let mut yy: u32 = 0;
    while yy < ch
        invariant
            img.wf(),
            w == img.width,
            h == img.height,
            px == img.pixels@,
            w * h * 4 <= usize::MAX,
            x0 <= x1 < w,
            y0 <= y1 < h,
            cw == x1 - x0 + 1,
            ch == y1 - y0 + 1,
            yy <= ch,
            out@ == crop_bytes(px, w as int, x0 as int, y0 as int, cw as int, ch as int).take(yy * cw * 4),
        decreases ch - yy,
    {
        let mut xx: u32 = 0;
        while xx < cw
            invariant
                img.wf(),
                w == img.width,
                h == img.height,
                px == img.pixels@,
                w * h * 4 <= usize::MAX,
                x0 <= x1 < w,
                y0 <= y1 < h,
                cw == x1 - x0 + 1,
                ch == y1 - y0 + 1,
                yy < ch,
                xx <= cw,
                out@ == crop_bytes(px, w as int, x0 as int, y0 as int, cw as int, ch as int).take((yy * cw + xx) * 4),
            decreases cw - xx,
        {
            let ghost full = crop_bytes(px, w as int, x0 as int, y0 as int, cw as int, ch as int);
            proof {
                lemma_index_in_image(w as int, h as int, (x0 + xx) as int, (y0 + yy) as int);
                assert((yy * cw + xx) * 4 + 4 <= cw * ch * 4) by (nonlinear_arith)
                    requires
                        xx < cw,
                        yy < ch,
                ;
                lemma_crop_index(w as int, x0 as int, y0 as int, cw as int, xx as int, yy as int);
            }
            let base = (((y0 + yy) as usize) * (w as usize) + (x0 + xx) as usize) * 4;
            let mut c: usize = 0;
            while c < 4
                invariant
                    img.wf(),
                    px == img.pixels@,
                    base + 4 <= px.len(),
                    base == ((y0 + yy) * w + x0 + xx) * 4,
                    c <= 4,
                    full == crop_bytes(px, w as int, x0 as int, y0 as int, cw as int, ch as int),
                    (yy * cw + xx) * 4 + 4 <= full.len(),
                    forall|k: int| 0 <= k < 4 ==> #[trigger] full[(yy * cw + xx) * 4 + k] == px[base + k],
                    out@ == full.take((yy * cw + xx) * 4 + c),
                decreases 4 - c,
            {
                out.push(img.pixels[base + c]);
                assert(full.take((yy * cw + xx) * 4 + c + 1) =~= full.take((yy * cw + xx) * 4 + c).push(
                    full[(yy * cw + xx) * 4 + c],
                ));
                c = c + 1;
            }
            xx = xx + 1;
        }
        assert((yy * cw + cw) * 4 == (yy + 1) * cw * 4) by (nonlinear_arith);
        yy = yy + 1;
    }
    let ghost full = crop_bytes(px, w as int, x0 as int, y0 as int, cw as int, ch as int);
    assert(ch * cw * 4 == cw * ch * 4) by (nonlinear_arith);
    assert(full.take(full.len() as int) =~= full);
    Some(Raster { width: cw, height: ch, pixels: out })
}

proof fn lemma_crop_index(w: int, x0: int, y0: int, cw: int, xx: int, yy: int)
    requires
        0 <= xx < cw,
        0 <= yy,
    ensures
        forall|k: int|
            0 <= k < 4 ==> #[trigger] (((yy * cw + xx) * 4 + k) / 4) == yy * cw + xx && ((yy * cw + xx) * 4 + k) % 4 == k,
        (yy * cw + xx) / cw == yy,
        (yy * cw + xx) % cw == xx,
{
    vstd::arithmetic::div_mod::lemma_fundamental_div_mod_converse(yy * cw + xx, cw, yy, xx);
    assert forall|k: int| 0 <= k < 4 implies #[trigger] (((yy * cw + xx) * 4 + k) / 4) == yy * cw + xx && ((yy * cw + xx) * 4 + k) % 4 == k by {
        vstd::arithmetic::div_mod::lemma_fundamental_div_mod_converse((yy * cw + xx) * 4 + k, 4, yy * cw + xx, k);
    }
}


// ----------------------------------------------------------------------------
// Decoding and framing, with the `image` crate
// ----------------------------------------------------------------------------

#[verifier::external_type_specification]
#[verifier::external_body]
pub struct ExImageError(ImageError);

/// Why an avatar could not be decoded.
#[derive(Debug)]
pub enum ConvertError {
    /// The bytes are not an image the decoder understands.
    Unsupported(ImageError),
}

/// The RGBA image that `image::load_from_memory(bytes)?.to_rgba8()` produces
/// (width, height, pixel bytes), or `None` where decoding fails.
pub uninterp spec fn raster_decode(bytes: Seq<u8>) -> Option<(u32, u32, Seq<u8>)>;

/// Decodes an encoded raster image with `image::load_from_memory` (format
/// guessed from the bytes) and converts it with `DynamicImage::to_rgba8`.
/// Trusted: success and the image are the named function of the bytes, and
/// the converted buffer holds exactly 4 bytes per pixel. What the decoders
/// compute is left unstated.
#[verifier::external_body]
fn load_rgba(bytes: &[u8]) -> (r: Result<Raster, ImageError>)
    ensures
        match r {
            Ok(img) => img.wf() && raster_decode(bytes@) == Some((img.width, img.height, img.pixels@)),
            Err(_) => raster_decode(bytes@) is None,
        },
{
    let img = image::load_from_memory(bytes)?.to_rgba8();
    Ok(Raster { width: img.width(), height: img.height(), pixels: img.into_raw() })
}

/// Decode an avatar given as PNG, JPEG, GIF or WebP bytes.
pub fn decode_raster(bytes: &[u8]) -> (r: Result<Raster, ConvertError>)
    ensures
        match r {
            Ok(img) => img.wf() && raster_decode(bytes@) == Some((img.width, img.height, img.pixels@)),
            Err(ConvertError::Unsupported(_)) => raster_decode(bytes@) is None,
        },
{
    match load_rgba(bytes) {
        Ok(img) => Ok(img),
        Err(e) => Err(ConvertError::Unsupported(e)),
    }
}

/// The pixel bytes `image::imageops::overlay` leaves in the `bw`×`bh` image
/// `bottom` after blending the `tw`×`th` image `top` onto it with its
/// top-left corner at (x, y).
pub uninterp spec fn overlaid(bottom: Seq<u8>, bw: u32, bh: u32, top: Seq<u8>, tw: u32, th: u32, x: i64, y: i64) -> Seq<u8>;

/// Blends `top` onto `bottom` at (x, y) with `image::imageops::overlay`.
/// Trusted: the size is kept, the buffer keeps 4 bytes per pixel, and the
/// pixels are the named function of both images and the offset. The blend
/// arithmetic is left unstated.
#[verifier::external_body]
fn overlay(bottom: &mut Raster, top: &Raster, x: i64, y: i64)
    requires
        old(bottom).wf(),
        top.wf(),
    ensures
        final(bottom).width == old(bottom).width,
        final(bottom).height == old(bottom).height,
        final(bottom).wf(),
        final(bottom).pixels@ == overlaid(
            old(bottom).pixels@,
            old(bottom).width,
            old(bottom).height,
            top.pixels@,
            top.width,
            top.height,
            x,
            y,
        ),
{
    let raw = std::mem::take(&mut bottom.pixels);
    let mut b = image::RgbaImage::from_raw(bottom.width, bottom.height, raw).unwrap();
    let t = image::RgbaImage::from_raw(top.width, top.height, top.pixels.clone()).unwrap();
    image::imageops::overlay(&mut b, &t, x, y);
    bottom.pixels = b.into_raw();
}

/// A tenth of `maxd` as single-precision arithmetic computes it: `maxd`
/// and its product with `0.1` (13421773 / 2^27) each rounded to a 24-bit
/// significand, ties to even, then truncated.
pub open spec fn tenth_f32(maxd: int) -> int {
    round_sig24((round_sig24(maxd as nat) * 13421773) as nat) as int / 134217728
}

/// Transparent margin kept around the figure: a tenth of the trimmed
/// figure's larger side, at least 4 px.
pub open spec fn frame_pad(maxd: int) -> int {
    if tenth_f32(maxd) > 4 {
        tenth_f32(maxd)
    } else {
        4
    }
}

/// A tenth of `maxd`, computed as single-precision arithmetic does.
fn tenth_of(maxd: u32) -> (t: u32)
    ensures
        t == tenth_f32(maxd as int),
        t <= 0x8000_0000,
{
    let x = round_sig24_exec(maxd as u64);
    proof {
        lemma_round_sig24_close(maxd as nat);
        if maxd >= 1 {
            lemma_ulp24_le(maxd as nat);
        } else {
            assert(ulp24(0) == 1);
        }
    }
    assert(x <= 0x2_0000_0000);
    let prod: u64 = x * 13421773;
    let r = round_sig24_exec(prod);
    proof {
        lemma_round_sig24_close(prod as nat);
        if prod >= 1 {
            lemma_ulp24_le(prod as nat);
        } else {
            assert(ulp24(0) == 1);
        }
    }
    assert(r <= 2 * 0x2_0000_0000 * 13421773 + 1);
    (r / 134217728) as u32
}

/// Side of the square canvas for a `fw`×`fh` figure.
pub open spec fn frame_side(maxd: int, fw: int, fh: int) -> int {
    (if fw >= fh { fw } else { fh }) + 2 * frame_pad(maxd)
}

/// The side of the square canvas for a `fw`×`fh` figure whose trimmed larger
/// side was `maxd`, or `None` where it does not fit in 32 bits.
pub fn canvas_side(fw: u32, fh: u32, maxd: u32) -> (s: Option<u32>)
    ensures
        s is Some <==> frame_side(maxd as int, fw as int, fh as int) <= u32::MAX,
        s matches Some(v) ==> v == frame_side(maxd as int, fw as int, fh as int),
{
    let tenth = tenth_of(maxd);
    let pad: u64 = if tenth > 4 { tenth as u64 } else { 4 };
    let big: u64 = if fw >= fh { fw as u64 } else { fh as u64 };
    let side = big + pad * 2;
    if side <= u32::MAX as u64 {
        Some(side as u32)
    } else {
        None
    }
}

/// The square canvas holding a figure, and its geometry.
pub struct Framed {
    pub canvas: Raster,
    /// Transparent px below the figure's feet (and on every side).
    pub pad: u32,
    /// Side of the square canvas.
    pub side: u32,
}

/// The margin is a tenth of the figure's trimmed larger side, but never
/// under 4 px; the canvas is square, as wide as the figure's larger side
/// plus the margin on both sides; the figure stands exactly one margin
/// above the bottom edge with at least a margin above it, and is centred
/// horizontally with at least a margin on each side (any odd pixel of
/// slack falls to its right).
pub proof fn lemma_frame_fits(maxd: int, fw: int, fh: int)
    requires
        0 <= fw,
        0 <= fh,
    ensures
        frame_pad(maxd) >= 4,
        frame_pad(maxd) >= tenth_f32(maxd),
        (frame_pad(maxd) == 4) || (frame_pad(maxd) == tenth_f32(maxd)),
        ({
            let pad = frame_pad(maxd);
            let side = frame_side(maxd, fw, fh);
            let ox = (side - fw) / 2;
            let oy = side - pad - fh;
            &&& side == (if fw >= fh { fw } else { fh }) + 2 * pad
            &&& pad <= ox && ox + fw + pad <= side
            &&& (side - fw - 2 * ox == 0 || side - fw - 2 * ox == 1)
            &&& pad <= oy && oy + fh + pad == side
        }),
{
}

/// Place a figure on a square transparent canvas, centred horizontally and
/// standing `pad` px above the bottom, so it can tilt without clipping.
/// `maxd` is the larger side of the trimmed figure before any downscaling.
pub fn frame_figure(fig: &Raster, maxd: u32) -> (f: Framed)
    requires
        fig.wf(),
        fig.width <= maxd,
        fig.height <= maxd,
        frame_side(maxd as int, fig.width as int, fig.height as int) <= u32::MAX,
        frame_side(maxd as int, fig.width as int, fig.height as int) * frame_side(maxd as int, fig.width as int, fig.height as int) * 4 <= usize::MAX,
    ensures
        f.pad == frame_pad(maxd as int),
        f.side == frame_side(maxd as int, fig.width as int, fig.height as int),
        f.canvas.width == f.side,
        f.canvas.height == f.side,
        f.canvas.wf(),
        f.canvas.pixels@ == overlaid(
            Seq::new((f.side * f.side * 4) as nat, |i: int| 0u8),
            f.side,
            f.side,
            fig.pixels@,
            fig.width,
            fig.height,
            ((f.side - fig.width) / 2) as i64,
            (f.side - f.pad - fig.height) as i64,
        ),
{
    let tenth = tenth_of(maxd);
    let pad: u32 = if tenth > 4 { tenth } else { 4 };
    let big: u32 = if fig.width >= fig.height { fig.width } else { fig.height };
    let side: u32 = big + pad * 2;
    let n: usize = side as usize * side as usize * 4;
    let pixels = vec![0u8; n];
    let ghost zero = pixels@;
    assert(zero =~= Seq::new((side * side * 4) as nat, |i: int| 0u8)) by {
        assert forall|j: int| 0 <= j < n implies zero[j] == 0u8 by {
            assert(vstd::pervasive::cloned(0u8, zero[j]));
        }
    }
    let mut canvas = Raster { width: side, height: side, pixels };
    let ox = ((side - fig.width) / 2) as i64;
    let oy = (side - pad - fig.height) as i64;
    overlay(&mut canvas, fig, ox, oy);
    Framed { canvas, pad, side }
}

} // verus!

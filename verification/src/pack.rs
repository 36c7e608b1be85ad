//! The pet-pack sprite format (`sprite.rgba`): an 8-byte header holding the
//! width and height as little-endian `u32`, then the straight-alpha RGBA
//! pixels. The engine reads it without any image decoder.

use vstd::prelude::*;
use crate::raster::Raster;

verus! {

/// Why a `sprite.rgba` blob was refused.
#[derive(Debug, Clone, Copy, PartialEq, Eq, Structural)]
pub enum SpriteError {
    /// Shorter than the 8-byte header.
    TooSmall,
    /// The blob's length is not 8 plus 4 bytes per pixel of the header's size.
    SizeMismatch { got: usize, want: u128 },
}

/// The little-endian `u32` held in the first four bytes of `b`.
pub open spec fn le_u32(b: Seq<u8>) -> int {
    b[0] as int + 256 * (b[1] as int) + 65536 * (b[2] as int) + 16777216 * (b[3] as int)
}

/// The four little-endian bytes of `v`.
pub open spec fn le_bytes(v: u32) -> Seq<u8> {
    seq![(v % 256) as u8, ((v / 256) % 256) as u8, ((v / 65536) % 256) as u8, (v / 16777216) as u8]
}

/// The encoded blob of a `w`×`h` image with pixel bytes `px`.
pub open spec fn sprite_bytes(w: u32, h: u32, px: Seq<u8>) -> Seq<u8> {
    le_bytes(w) + le_bytes(h) + px
}

/// The length a blob with header size `w`×`h` must have.
pub open spec fn sprite_len(w: int, h: int) -> int {
    8 + w * h * 4
}

/// Decoding of a blob: its header size and pixel bytes, or why it is refused.
pub open spec fn decoded_sprite(raw: Seq<u8>) -> Result<(u32, u32, Seq<u8>), SpriteError> {
    if raw.len() < 8 {
        Err(SpriteError::TooSmall)
    } else {
        let w = le_u32(raw.subrange(0, 4));
        let h = le_u32(raw.subrange(4, 8));
        if raw.len() == sprite_len(w, h) {
            Ok((w as u32, h as u32, raw.skip(8)))
        } else {
            Err(SpriteError::SizeMismatch { got: raw.len() as usize, want: sprite_len(w, h) as u128 })
        }
    }
}

fn read_le_u32(raw: &[u8], at: usize) -> (v: u32)
    requires
        at + 4 <= raw@.len(),
    ensures
        v == le_u32(raw@.subrange(at as int, at + 4)),
{
    let v = raw[at] as u32 + 256 * raw[at + 1] as u32 + 65536 * raw[at + 2] as u32 + 16777216 * raw[at + 3] as u32;
    v
}

fn push_le_u32(out: &mut Vec<u8>, v: u32)
    ensures
        final(out)@ == old(out)@ + le_bytes(v),
{
    out.push((v % 256) as u8);
    out.push(((v / 256) % 256) as u8);
    out.push(((v / 65536) % 256) as u8);
    out.push((v / 16777216) as u8);
    assert(final(out)@ =~= old(out)@ + le_bytes(v));
}

/// Encode an image as a `sprite.rgba` blob.
pub fn encode_sprite(img: &Raster) -> (out: Vec<u8>)
    ensures
        out@ == sprite_bytes(img.width, img.height, img.pixels@),
{
    let mut out: Vec<u8> = Vec::new();
    push_le_u32(&mut out, img.width);
    push_le_u32(&mut out, img.height);
    let mut i: usize = 0;
    while i < img.pixels.len()
        invariant
            i <= img.pixels@.len(),
            out@ == le_bytes(img.width) + le_bytes(img.height) + img.pixels@.take(i as int),
        decreases img.pixels@.len() - i,
    {
        out.push(img.pixels[i]);
        assert(img.pixels@.take(i + 1) =~= img.pixels@.take(i as int).push(img.pixels@[i as int]));
        i = i + 1;
    }
    assert(img.pixels@.take(img.pixels@.len() as int) =~= img.pixels@);
    out
}

/// Decode a `sprite.rgba` blob.
pub fn decode_sprite(raw: &[u8]) -> (r: Result<Raster, SpriteError>)
    ensures
        match (r, decoded_sprite(raw@)) {
            (Ok(img), Ok((w, h, px))) => img.width == w && img.height == h && img.pixels@ == px && img.wf(),
            (Err(e), Err(f)) => e == f,
            _ => false,
        },
{
    if raw.len() < 8 {
        return Err(SpriteError::TooSmall);
    }
    let width = read_le_u32(raw, 0);
    let height = read_le_u32(raw, 4);
    assert(width as int * height as int <= 0xffff_ffff * 0xffff_ffff) by (nonlinear_arith)
        requires
            width <= 0xffff_ffff,
            height <= 0xffff_ffff,
    ;
    let want: u128 = 8 + width as u128 * height as u128 * 4;
    assert(want == sprite_len(width as int, height as int)) by (nonlinear_arith)
        requires
            want == 8 + width * height * 4,
    ;
    if raw.len() as u128 != want {
        return Err(SpriteError::SizeMismatch { got: raw.len(), want });
    }
    let mut pixels: Vec<u8> = Vec::new();
    let mut i: usize = 8;
    while i < raw.len()
        invariant
            8 <= i <= raw@.len(),
            pixels@ == raw@.subrange(8, i as int),
        decreases raw@.len() - i,
    {
        pixels.push(raw[i]);
        assert(raw@.subrange(8, i + 1) =~= raw@.subrange(8, i as int).push(raw@[i as int]));
        i = i + 1;
    }
    assert(raw@.subrange(8, raw@.len() as int) =~= raw@.skip(8));
    Ok(Raster { width, height, pixels })
}

proof fn lemma_le_u32_of_bytes(v: u32)
    ensures
        le_u32(le_bytes(v)) == v,
{
    let b0 = v % 256;
    let b1 = (v / 256) % 256;
    let b2 = (v / 65536) % 256;
    let b3 = v / 16777216;
    assert(v == b0 + 256 * b1 + 65536 * b2 + 16777216 * b3) by (bit_vector)
        requires
            b0 == v % 256,
            b1 == (v / 256) % 256,
            b2 == (v / 65536) % 256,
            b3 == v / 16777216,
    ;
}

proof fn lemma_bytes_of_le_u32(b: Seq<u8>)
    requires
        b.len() == 4,
    ensures
        0 <= le_u32(b) <= u32::MAX,
        le_bytes(le_u32(b) as u32) =~= b,
{
    let b0 = b[0];
    let b1 = b[1];
    let b2 = b[2];
    let b3 = b[3];
    let vi: int = b0 + 256 * b1 + 65536 * b2 + 16777216 * b3;
    assert(0 <= vi <= u32::MAX);
    let v: u32 = vi as u32;
    assert(v % 256 == b0 && (v / 256) % 256 == b1 && (v / 65536) % 256 == b2 && v / 16777216 == b3) by (bit_vector)
        requires
            v == b0 + 256 * b1 + 65536 * b2 + 16777216 * b3,
    ;
}

/// Encoding then decoding gives the image back: the header records exactly
/// the size, and the pixels follow unchanged.
pub proof fn lemma_sprite_roundtrip(w: u32, h: u32, px: Seq<u8>)
    requires
        px.len() == w * h * 4,
    ensures
        decoded_sprite(sprite_bytes(w, h, px)) == Ok::<(u32, u32, Seq<u8>), SpriteError>((w, h, px)),
{
    let raw = sprite_bytes(w, h, px);
    lemma_le_u32_of_bytes(w);
    lemma_le_u32_of_bytes(h);
    assert(raw.subrange(0, 4) =~= le_bytes(w));
    assert(raw.subrange(4, 8) =~= le_bytes(h));
    assert(raw.skip(8) =~= px);
}

/// A blob that decodes is exactly the encoding of what it decodes to.
pub proof fn lemma_sprite_decode_encode(raw: Seq<u8>)
    requires
        decoded_sprite(raw) is Ok,
    ensures
        ({
            let (w, h, px) = decoded_sprite(raw)->Ok_0;
            &&& px.len() == w * h * 4
            &&& sprite_bytes(w, h, px) == raw
        }),
{
    lemma_bytes_of_le_u32(raw.subrange(0, 4));
    lemma_bytes_of_le_u32(raw.subrange(4, 8));
    let (w, h, px) = decoded_sprite(raw)->Ok_0;
    assert(sprite_bytes(w, h, px) =~= raw);
}

/// A sprite blob is an 8-byte header — width, then height, each a
/// little-endian 32-bit number — followed by exactly 4 bytes per pixel;
/// anything shorter than the header is too small, and any other length is a
/// size mismatch that reports the length it got and the one it wanted.
pub proof fn lemma_sprite_layout(raw: Seq<u8>)
    ensures
        raw.len() < 8 ==> decoded_sprite(raw) == Err::<(u32, u32, Seq<u8>), SpriteError>(SpriteError::TooSmall),
        raw.len() >= 8 ==> ({
            let w = raw[0] as int + 256 * raw[1] + 65536 * raw[2] + 16777216 * raw[3];
            let h = raw[4] as int + 256 * raw[5] + 65536 * raw[6] + 16777216 * raw[7];
            &&& raw.len() == 8 + 4 * w * h ==> decoded_sprite(raw) == Ok::<(u32, u32, Seq<u8>), SpriteError>(
                (w as u32, h as u32, raw.subrange(8, raw.len() as int)),
            )
            &&& raw.len() != 8 + 4 * w * h ==> decoded_sprite(raw) == Err::<(u32, u32, Seq<u8>), SpriteError>(
                SpriteError::SizeMismatch { got: raw.len() as usize, want: (8 + 4 * w * h) as u128 },
            )
        }),
{
    if raw.len() >= 8 {
        let w = raw[0] as int + 256 * raw[1] + 65536 * raw[2] + 16777216 * raw[3];
        let h = raw[4] as int + 256 * raw[5] + 65536 * raw[6] + 16777216 * raw[7];
        assert(le_u32(raw.subrange(0, 4)) == w);
        assert(le_u32(raw.subrange(4, 8)) == h);
        assert(sprite_len(w, h) == 8 + 4 * w * h) by (nonlinear_arith);
        assert(raw.skip(8) =~= raw.subrange(8, raw.len() as int));
        assert(0 <= w <= 0xffff_ffff);
        assert(0 <= h <= 0xffff_ffff);
    }
}

/// A loaded custom pet: its texture plus the geometry needed to place it.
pub struct PetPack {
    pub pixels: Vec<u8>,
    pub width: u32,
    pub height: u32,
    /// Figure height within the square canvas (source px).
    pub fig_height: u32,
    /// Transparent px below the figure's feet (source px).
    pub bottom_margin: u32,
}

impl PetPack {
    /// Assemble a pack from its `sprite.rgba` blob and the figure geometry
    /// recorded in its `pet.toml`. A zero figure height counts as one.
    pub fn from_sprite(raw: &[u8], fig_height: u32, bottom_margin: u32) -> (r: Result<PetPack, SpriteError>)
        ensures
            match (r, decoded_sprite(raw@)) {
                (Ok(p), Ok((w, h, px))) => {
                    &&& p.width == w
                    &&& p.height == h
                    &&& p.pixels@ == px
                    &&& p.fig_height == if fig_height == 0 { 1 } else { fig_height }
                    &&& p.bottom_margin == bottom_margin
                },
                (Err(e), Err(f)) => e == f,
                _ => false,
            },
    {
        match decode_sprite(raw) {
            Ok(img) => Ok(PetPack {
                pixels: img.pixels,
                width: img.width,
                height: img.height,
                fig_height: if fig_height == 0 { 1 } else { fig_height },
                bottom_margin,
            }),
            Err(e) => Err(e),
        }
    }
}

} // verus!

//! Procedural pixel-art vocabulary: poses, emotes and the atlas layout.

use vstd::prelude::*;
use vstd::arithmetic::div_mod::{lemma_div_denominator, lemma_fundamental_div_mod};
use crate::mood::Mood;
use crate::paint::{Rgba, Stroke, FIX, floor_fix, floor_div_fix, stroke_ok, paint, paint_into, local_x, local_y, lemma_pixel_of_byte};

verus! {

/// Side of one atlas cell, in px.
pub const CELL: i32 = 32;
/// Number of pose columns (the atlas has one extra spare column).
pub const POSES: i32 = 7;
/// Number of mood rows.
pub const MOODS: i32 = 7;
/// Side of one emote icon, in px.
pub const EMOTE_PX: i32 = 16;

#[derive(Debug, Clone, Copy, PartialEq, Eq, Structural)]
pub enum Pose {
    Idle0,
    Idle1,
    Walk0,
    Walk1,
    Fly0,
    Fly1,
    Sleep,
}

/// Column of a pose in the atlas.
pub open spec fn pose_col(p: Pose) -> int {
    match p {
        Pose::Idle0 => 0,
        Pose::Idle1 => 1,
        Pose::Walk0 => 2,
        Pose::Walk1 => 3,
        Pose::Fly0 => 4,
        Pose::Fly1 => 5,
        Pose::Sleep => 6,
    }
}

impl Pose {
    pub fn index(self) -> (i: usize)
        ensures
            i == pose_col(self),
    {
        match self {
            Pose::Idle0 => 0,
            Pose::Idle1 => 1,
            Pose::Walk0 => 2,
            Pose::Walk1 => 3,
            Pose::Fly0 => 4,
            Pose::Fly1 => 5,
            Pose::Sleep => 6,
        }
    }
}

/// Small icons floated above the pet to convey mood.
#[derive(Debug, Clone, Copy, PartialEq, Eq, Structural)]
pub enum Emote {
    Zzz,
    Tear,
    Spark,
    Sweat,
    Heart,
    Exclaim,
}

/// Slot of an emote in the spare atlas column.
pub open spec fn emote_slot(e: Emote) -> int {
    match e {
        Emote::Zzz => 0,
        Emote::Tear => 1,
        Emote::Spark => 2,
        Emote::Sweat => 3,
        Emote::Heart => 4,
        Emote::Exclaim => 5,
    }
}

/// The emote that goes with a mood, if any; a sleeping creature always shows `Zzz`.
pub open spec fn mood_emote(m: Mood, sleeping: bool) -> Option<Emote> {
    if sleeping {
        Some(Emote::Zzz)
    } else {
        match m {
            Mood::Crying => Some(Emote::Tear),
            Mood::Sad => Some(Emote::Sweat),
            Mood::Energetic => Some(Emote::Spark),
            Mood::Sleepy => Some(Emote::Zzz),
            Mood::Happy => Some(Emote::Heart),
            Mood::Angry => Some(Emote::Exclaim),
            Mood::Neutral => None,
        }
    }
}

/// A sleeping creature shows the snooze icon whatever its mood; awake, every
/// mood but neutral has an icon of its own (no two moods share one): tears
/// for crying, a sweat drop for sadness, sparkles for energy, the snooze
/// icon for sleepiness, a heart for happiness and an exclamation for anger.
pub proof fn lemma_mood_emotes(m1: Mood, m2: Mood)
    ensures
        mood_emote(m1, true) == Some(Emote::Zzz),
        (mood_emote(m1, false) is None) == (m1 == Mood::Neutral),
        m1 != m2 && m1 != Mood::Neutral ==> mood_emote(m1, false) != mood_emote(m2, false),
        mood_emote(Mood::Crying, false) == Some(Emote::Tear),
        mood_emote(Mood::Sad, false) == Some(Emote::Sweat),
        mood_emote(Mood::Energetic, false) == Some(Emote::Spark),
        mood_emote(Mood::Sleepy, false) == Some(Emote::Zzz),
        mood_emote(Mood::Happy, false) == Some(Emote::Heart),
        mood_emote(Mood::Angry, false) == Some(Emote::Exclaim),
{
}

impl Emote {
    pub fn slot(self) -> (s: i32)
        ensures
            s == emote_slot(self),
    {
        match self {
            Emote::Zzz => 0,
            Emote::Tear => 1,
            Emote::Spark => 2,
            Emote::Sweat => 3,
            Emote::Heart => 4,
            Emote::Exclaim => 5,
        }
    }

    /// Map a mood to its emote, if any.
    pub fn for_mood(m: Mood, sleeping: bool) -> (e: Option<Emote>)
        ensures
            e == mood_emote(m, sleeping),
    {
        if sleeping {
            return Some(Emote::Zzz);
        }
        match m {
            Mood::Crying => Some(Emote::Tear),
            Mood::Sad => Some(Emote::Sweat),
            Mood::Energetic => Some(Emote::Spark),
            Mood::Sleepy => Some(Emote::Zzz),
            Mood::Happy => Some(Emote::Heart),
            Mood::Angry => Some(Emote::Exclaim),
            Mood::Neutral => None,
        }
    }
}

/// Row of a mood in the atlas.
pub open spec fn mood_row(m: Mood) -> int {
    match m {
        Mood::Happy => 0,
        Mood::Energetic => 1,
        Mood::Neutral => 2,
        Mood::Sleepy => 3,
        Mood::Sad => 4,
        Mood::Crying => 5,
        Mood::Angry => 6,
    }
}

pub fn mood_index(m: Mood) -> (i: usize)
    ensures
        i == mood_row(m),
{
    match m {
        Mood::Happy => 0,
        Mood::Energetic => 1,
        Mood::Neutral => 2,
        Mood::Sleepy => 3,
        Mood::Sad => 4,
        Mood::Crying => 5,
        Mood::Angry => 6,
    }
}


// ----------------------------------------------------------------------------
// Colours
// ----------------------------------------------------------------------------

/// `c` moved the fraction `num/den` of the way toward white, truncated.
pub open spec fn lighten_channel(c: int, num: int, den: int) -> int {
    c + (255 - c) * num / den
}

/// Unit in the last place when `p` is held with a 24-bit significand.
pub open spec fn ulp24(p: nat) -> nat
    decreases p,
{
    if p < 0x100_0000 {
        1
    } else {
        2 * ulp24(p / 2)
    }
}

/// `p` rounded to a 24-bit significand, ties to even (single-precision rounding).
pub open spec fn round_sig24(p: nat) -> nat {
    let u = ulp24(p);
    let q = p / u;
    let r = p % u;
    if u == 1 {
        p
    } else if r > u / 2 || (r == u / 2 && q % 2 == 1) {
        (q + 1) * u
    } else {
        q * u
    }
}

/// `c` scaled by the single-precision factor `m / den` (with `den` a power of
/// two): the product is rounded to a 24-bit significand, then truncated.
pub open spec fn darken_channel(c: int, m: int, den: int) -> int {
    round_sig24((c * m) as nat) as int / den
}

/// The factor 1 − 0.22 as a single-precision value: 3271557 / 2^22.
pub const DARK_BODY_M: u64 = 3271557;
pub const DARK_BODY_DEN: u64 = 4194304;
/// The factor 1 − 0.35 as a single-precision value: 5452595 / 2^23.
pub const DARK_FOOT_M: u64 = 5452595;
pub const DARK_FOOT_DEN: u64 = 8388608;

proof fn lemma_ulp24_pos(p: nat)
    ensures
        ulp24(p) >= 1,
    decreases p,
{
    if p >= 0x100_0000 {
        lemma_ulp24_pos(p / 2);
    }
}

/// Single-precision rounding of an integer below 2^62.
pub(crate) fn round_sig24_exec(p: u64) -> (r: u64)
    requires
        p < 0x4000_0000_0000_0000,
    ensures
        r == round_sig24(p as nat),
{
    let mut q: u64 = p;
    let mut u: u64 = 1;
    while q >= 0x100_0000
        invariant
            1 <= u,
            u > 1 ==> q >= 0x80_0000,
            q as int == p as int / (u as int),
            q * u <= p,
            p < 0x4000_0000_0000_0000,
            ulp24(p as nat) == u * ulp24(q as nat),
        decreases q,
    {
        proof {
            lemma_div_denominator(p as int, u as int, 2);
            assert(ulp24(q as nat) == 2 * ulp24((q / 2) as nat));
            assert(u * ulp24(q as nat) == (u * 2) * ulp24((q / 2) as nat)) by (nonlinear_arith)
                requires
                    ulp24(q as nat) == 2 * ulp24((q / 2) as nat),
            ;
            assert((q / 2) * (u * 2) <= q * u) by (nonlinear_arith)
                requires
                    q >= 0,
                    u >= 1,
            ;
            assert(u * 2 <= p) by (nonlinear_arith)
                requires
                    q >= 0x100_0000,
                    q * u <= p,
                    u >= 1,
            ;
        }
        q = q / 2;
        u = u * 2;
    }
    assert(ulp24(q as nat) == 1);
    assert(u * ulp24(q as nat) == u * 1);
    assert(ulp24(p as nat) == u);
    proof {
        lemma_fundamental_div_mod(p as int, u as int);
        assert(q * u == u * q) by (nonlinear_arith);
    }
    let rem = p - q * u;
    assert(rem == (p as int) % (u as int));
    if u == 1 {
        p
    } else if rem > u / 2 || (rem == u / 2 && q % 2 == 1) {
        assert(u <= p) by (nonlinear_arith)
            requires
                q >= 0x80_0000,
                q * u <= p,
                u >= 1,
        ;
        assert((q + 1) * u <= 2 * p) by (nonlinear_arith)
            requires
                q * u <= p,
                u <= p,
        ;
        (q + 1) * u
    } else {
        q * u
    }
}

proof fn lemma_darken_range(c: int, m: int, den: int)
    requires
        0 <= c <= 255,
        0 < m < den,
        den == 4194304 || den == 8388608,
    ensures
        0 <= darken_channel(c, m, den) <= 255,
{
    assert(0 <= c * m <= 255 * m) by (nonlinear_arith)
        requires
            0 <= c <= 255,
            0 < m,
    ;
    let p = (c * m) as nat;
    lemma_ulp24_small(p);
    lemma_round_sig24_close(p);
    assert(round_sig24(p) < 256 * den);
    assert((round_sig24(p) as int) / den < 256) by (nonlinear_arith)
        requires
            0 <= round_sig24(p) < 256 * den,
            den > 0,
    ;
}

/// 2^k.
pub open spec fn pow2k(k: nat) -> nat
    decreases k,
{
    if k == 0 {
        1
    } else {
        2 * pow2k((k - 1) as nat)
    }
}

/// Below 2^(24 + k) the unit is at most 2^k.
proof fn lemma_ulp24_bound(p: nat, k: nat)
    requires
        p < pow2k(k) * 0x100_0000,
    ensures
        ulp24(p) <= pow2k(k),
    decreases p,
{
    if p >= 0x100_0000 {
        if k == 0 {
            assert(false);
        } else {
            assert(pow2k(k) * 0x100_0000 == 2 * (pow2k((k - 1) as nat) * 0x100_0000));
            lemma_ulp24_bound(p / 2, (k - 1) as nat);
        }
    }
}

/// Units never exceed 2^16 below 2^40.
proof fn lemma_ulp24_small(p: nat)
    requires
        p < 0x100_0000_0000,
    ensures
        1 <= ulp24(p) <= 0x1_0000,
{
    reveal_with_fuel(pow2k, 17);
    assert(pow2k(16) == 0x1_0000);
    lemma_ulp24_bound(p, 16);
    lemma_ulp24_pos(p);
}

/// The unit never exceeds the value itself (for a positive value).
pub(crate) proof fn lemma_ulp24_le(p: nat)
    requires
        p >= 1,
    ensures
        ulp24(p) <= p,
    decreases p,
{
    if p >= 0x100_0000 {
        lemma_ulp24_le(p / 2);
    }
}

/// Rounding moves a value by at most one unit.
pub(crate) proof fn lemma_round_sig24_close(p: nat)
    ensures
        p <= round_sig24(p) + ulp24(p),
        round_sig24(p) <= p + ulp24(p),
{
    let u = ulp24(p);
    lemma_ulp24_pos(p);
    lemma_fundamental_div_mod(p as int, u as int);
    let q = p / u;
    let r = p % u;
    assert(p == u * q + r);
    assert(q * u == u * q) by (nonlinear_arith);
    assert((q + 1) * u == u * q + u) by (nonlinear_arith);
}

/// A colour `num/den` of the way from `c` toward white.
pub open spec fn lightened(c: Seq<u8>, num: int, den: int) -> Rgba {
    Rgba {
        r: lighten_channel(c[0] as int, num, den) as u8,
        g: lighten_channel(c[1] as int, num, den) as u8,
        b: lighten_channel(c[2] as int, num, den) as u8,
        a: 255,
    }
}

/// `c` scaled by the single-precision factor `m / den`.
pub open spec fn darkened(c: Seq<u8>, m: int, den: int) -> Rgba {
    Rgba {
        r: darken_channel(c[0] as int, m, den) as u8,
        g: darken_channel(c[1] as int, m, den) as u8,
        b: darken_channel(c[2] as int, m, den) as u8,
        a: 255,
    }
}

fn lighten_u8(c: u8, num: u32, den: u32) -> (r: u8)
    requires
        0 <= num <= den,
        0 < den <= 100,
    ensures
        r == lighten_channel(c as int, num as int, den as int),
{
    let d = 255 - c as u32;
    assert(d * num <= 255 * den) by (nonlinear_arith)
        requires
            d <= 255,
            num <= den,
    ;
    assert((d * num) as int / (den as int) <= d) by (nonlinear_arith)
        requires
            num <= den,
            0 < den,
            0 <= d,
    ;
    (c as u32 + d * num / den) as u8
}

/// A colour `num/den` of the way from `c` toward white, opaque.
fn lighten(c: [u8; 3], num: u32, den: u32) -> (r: Rgba)
    requires
        0 <= num <= den,
        0 < den <= 100,
    ensures
        r == lightened(c@, num as int, den as int),
{
    Rgba { r: lighten_u8(c[0], num, den), g: lighten_u8(c[1], num, den), b: lighten_u8(c[2], num, den), a: 255 }
}

fn darken_u8(c: u8, m: u64, den: u64) -> (r: u8)
    requires
        0 < m < den,
        den == 4194304 || den == 8388608,
    ensures
        r == darken_channel(c as int, m as int, den as int),
{
    assert(c as int * m as int <= 255 * 8388608) by (nonlinear_arith)
        requires
            c <= 255,
            m < 8388608,
    ;
    proof {
        lemma_darken_range(c as int, m as int, den as int);
    }
    let p = c as u64 * m;
    (round_sig24_exec(p) / den) as u8
}

/// `c` scaled by the single-precision factor `m / den`, opaque.
fn darken(c: [u8; 3], m: u64, den: u64) -> (r: Rgba)
    requires
        0 < m < den,
        den == 4194304 || den == 8388608,
    ensures
        r == darkened(c@, m as int, den as int),
{
    Rgba { r: darken_u8(c[0], m, den), g: darken_u8(c[1], m, den), b: darken_u8(c[2], m, den), a: 255 }
}


// ----------------------------------------------------------------------------
// The drawing: stroke lists for every creature cell and emote icon
// ----------------------------------------------------------------------------

/// Every stroke of a list stays in the exactly-computed range.
pub open spec fn all_ok(s: Seq<Stroke>) -> bool {
    forall|k: int| 0 <= k < s.len() ==> stroke_ok(#[trigger] s[k])
}

proof fn lemma_all_ok_add(a: Seq<Stroke>, b: Seq<Stroke>)
    requires
        all_ok(a),
        all_ok(b),
    ensures
        all_ok(a + b),
{
    assert forall|k: int| 0 <= k < (a + b).len() implies stroke_ok(#[trigger] (a + b)[k]) by {
        if k < a.len() {
            assert((a + b)[k] == a[k]);
        } else {
            assert((a + b)[k] == b[k - a.len()]);
        }
    }
}

fn append_strokes(v: &mut Vec<Stroke>, w: Vec<Stroke>)
    requires
        all_ok(old(v)@),
        all_ok(w@),
    ensures
        final(v)@ == old(v)@ + w@,
        all_ok(final(v)@),
{
    let mut w = w;
    proof {
        lemma_all_ok_add(v@, w@);
    }
    v.append(&mut w);
}

pub open spec fn dot(x: int, y: int, c: Rgba) -> Stroke {
    Stroke::Dot { x: x as i32, y: y as i32, color: c }
}

pub open spec fn block(x: int, y: int, w: int, h: int, c: Rgba) -> Stroke {
    Stroke::Block { x: x as i32, y: y as i32, w: w as i32, h: h as i32, color: c }
}

pub open spec fn disc(cx: int, cy: int, rx: int, ry: int, c: Rgba) -> Stroke {
    Stroke::Disc { cx: cx as i64, cy: cy as i64, rx: rx as i64, ry: ry as i64, color: c }
}

pub open spec fn rgba(r: u8, g: u8, b: u8, a: u8) -> Rgba {
    Rgba { r, g, b, a }
}

/// Horizontal centre of the body in every cell (16 px, fixed point).
pub const BODY_CX: i64 = 1600000;
/// Horizontal offset of each eye from the centre (3.6 px, fixed point).
pub const EYE_DX: i64 = 360000;

/// Vertical bob of a pose, px.
pub open spec fn pose_bob(p: Pose) -> int {
    match p {
        Pose::Idle0 => 0,
        Pose::Idle1 => 1,
        Pose::Walk0 => 0,
        Pose::Walk1 => -1,
        Pose::Fly0 => -1,
        Pose::Fly1 => 1,
        Pose::Sleep => 1,
    }
}

/// Squash of a pose, hundredths: widens the body by that share of its
/// radius and lowers it by six times that share of a pixel.
pub open spec fn pose_squash(p: Pose) -> int {
    match p {
        Pose::Idle0 => 0,
        Pose::Idle1 => 10,
        Pose::Walk0 => 0,
        Pose::Walk1 => 0,
        Pose::Fly0 => 5,
        Pose::Fly1 => 5,
        Pose::Sleep => 12,
    }
}

/// Vertical wing offset of a pose, px, if its wings are out.
pub open spec fn pose_wing(p: Pose) -> Option<int> {
    match p {
        Pose::Fly0 => Some(-3),
        Pose::Fly1 => Some(2),
        _ => None,
    }
}

/// Horizontal shift of the (left, right) foot, px.
pub open spec fn pose_feet(p: Pose) -> (int, int) {
    match p {
        Pose::Walk0 => (-2, 4),
        Pose::Walk1 => (4, -2),
        _ => (0, 0),
    }
}

pub open spec fn body_cy(p: Pose) -> int {
    (17 + pose_bob(p)) * FIX
}

pub open spec fn body_rx(p: Pose) -> int {
    1050000 + 10500 * pose_squash(p)
}

pub open spec fn body_ry(p: Pose) -> int {
    1050000 - 6000 * pose_squash(p)
}

pub open spec fn base_color(body: Seq<u8>) -> Rgba {
    Rgba { r: body[0], g: body[1], b: body[2], a: 255 }
}

/// The body colour with zero alpha (paints nothing).
pub open spec fn outline_of(base: Rgba) -> Rgba {
    Rgba { r: base.r, g: base.g, b: base.b, a: 0 }
}

/// Wings behind the body, when the pose has them out.
pub open spec fn wing_strokes(body: Seq<u8>, p: Pose) -> Seq<Stroke> {
    match pose_wing(p) {
        Some(w) => seq![
            disc(BODY_CX - body_rx(p) + FIX, body_cy(p) + w * FIX, 4 * FIX, 6 * FIX, lightened(body, 1, 2)),
            disc(BODY_CX + body_rx(p) - FIX, body_cy(p) + w * FIX, 4 * FIX, 6 * FIX, lightened(body, 1, 2)),
        ],
        None => seq![],
    }
}

/// The two feet.
pub open spec fn feet_strokes(body: Seq<u8>, p: Pose) -> Seq<Stroke> {
    let foot = darkened(body, DARK_FOOT_M as int, DARK_FOOT_DEN as int);
    let y = body_cy(p) + body_ry(p) - FIX;
    seq![
        disc(BODY_CX - 4 * FIX + pose_feet(p).0 * FIX, y, 3 * FIX, 220000, foot),
        disc(BODY_CX + 4 * FIX + pose_feet(p).1 * FIX, y, 3 * FIX, 220000, foot),
    ]
}

/// The body with its top highlight and bottom shadow band.
pub open spec fn torso_strokes(body: Seq<u8>, p: Pose) -> Seq<Stroke> {
    let cx = BODY_CX as int;
    let cy = body_cy(p);
    let rx = body_rx(p);
    let ry = body_ry(p);
    let base = base_color(body);
    seq![
        disc(cx, cy, rx, ry, base),
        disc(cx, cy - ry * 45 / 100, rx * 70 / 100, ry * 45 / 100, lightened(body, 3, 10)),
        disc(cx, cy + ry * 55 / 100, rx * 85 / 100, ry * 40 / 100, darkened(body, DARK_BODY_M as int, DARK_BODY_DEN as int)),
        disc(cx, cy, rx, ry, rgba(0, 0, 0, 0)),
        disc(cx, cy, rx, ry, outline_of(base)),
    ]
}

pub open spec fn eye_color() -> Rgba {
    rgba(54, 38, 50, 255)
}

pub open spec fn shine_color() -> Rgba {
    rgba(255, 255, 255, 235)
}

pub open spec fn mouth_color() -> Rgba {
    rgba(70, 40, 48, 255)
}

pub open spec fn tear_color() -> Rgba {
    rgba(130, 205, 255, 235)
}

pub open spec fn cheek_color() -> Rgba {
    rgba(255, 150, 170, 150)
}

pub open spec fn abs(v: int) -> int {
    if v < 0 {
        -v
    } else {
        v
    }
}

/// Both eyes are closed: asleep, sleepy or crying.
pub open spec fn eyes_closed(m: Mood, p: Pose) -> bool {
    p == Pose::Sleep || m == Mood::Sleepy || m == Mood::Crying
}

/// One column pair of the closed-eye arcs.
pub open spec fn closed_eye_pair(ey: int, dx: int) -> Seq<Stroke> {
    let y = floor_fix(ey + abs(dx) * FIX / 2 - FIX / 2);
    seq![
        dot(floor_fix(BODY_CX - EYE_DX) + dx, y, eye_color()),
        dot(floor_fix(BODY_CX + EYE_DX) + dx, y, eye_color()),
    ]
}

/// (vertical radius, downward look) of the open eyes, fixed point.
pub open spec fn eye_shape(m: Mood) -> (int, int) {
    match m {
        Mood::Energetic => (260000, 0),
        Mood::Sad => (160000, FIX as int),
        Mood::Angry => (170000, 0),
        _ => (220000, 0),
    }
}

/// One step of the slanted angry brows.
pub open spec fn brow_pair(ey: int, d: int) -> Seq<Stroke> {
    seq![
        dot(floor_fix(BODY_CX - EYE_DX - FIX) + d, floor_fix(ey - 4 * FIX) + d, eye_color()),
        dot(floor_fix(BODY_CX + EYE_DX + FIX) - d, floor_fix(ey - 4 * FIX) + d, eye_color()),
    ]
}

pub open spec fn eye_strokes(m: Mood, p: Pose) -> Seq<Stroke> {
    let cx = BODY_CX as int;
    let ey = body_cy(p) - 2 * FIX;
    if eyes_closed(m, p) {
        closed_eye_pair(ey, -2) + closed_eye_pair(ey, -1) + closed_eye_pair(ey, 0) + closed_eye_pair(ey, 1)
            + closed_eye_pair(ey, 2)
    } else {
        let ery = eye_shape(m).0;
        let look = eye_shape(m).1;
        seq![
            disc(cx - EYE_DX, ey + look, 190000, ery, eye_color()),
            disc(cx + EYE_DX, ey + look, 190000, ery, eye_color()),
            dot(floor_fix(cx - EYE_DX + 60000), floor_fix(ey - 60000 + look), shine_color()),
            dot(floor_fix(cx + EYE_DX + 60000), floor_fix(ey - 60000 + look), shine_color()),
        ] + (if m == Mood::Energetic {
            seq![
                dot(floor_fix(cx - EYE_DX - 2 * FIX), floor_fix(ey - 3 * FIX), shine_color()),
                dot(floor_fix(cx + EYE_DX + 2 * FIX), floor_fix(ey - 3 * FIX), shine_color()),
            ]
        } else {
            seq![]
        }) + (if m == Mood::Angry {
            brow_pair(ey, 0) + brow_pair(ey, 1) + brow_pair(ey, 2)
        } else {
            seq![]
        })
    }
}

/// One pixel of the smile arc.
pub open spec fn smile_dot(my: int, dx: int) -> Stroke {
    dot(floor_fix(BODY_CX as int) + dx, floor_fix(my + abs(dx) * 60000), mouth_color())
}

/// One pixel of the frown arc.
pub open spec fn frown_dot(my: int, dx: int) -> Stroke {
    dot(floor_fix(BODY_CX as int) + dx, floor_fix(my + FIX - abs(dx) * 60000), mouth_color())
}

pub open spec fn mouth_strokes(m: Mood, p: Pose) -> Seq<Stroke> {
    let cx = BODY_CX as int;
    let cy = body_cy(p);
    let my = cy + 350000;
    match m {
        Mood::Happy | Mood::Energetic => {
            seq![smile_dot(my, -2), smile_dot(my, -1), smile_dot(my, 0), smile_dot(my, 1), smile_dot(my, 2)]
                + (if m == Mood::Energetic {
                seq![disc(cx, my + FIX, 160000, 140000, mouth_color())]
            } else {
                seq![]
            }) + seq![
                disc(cx - 6 * FIX, cy + 150000, 160000, 120000, cheek_color()),
                disc(cx + 6 * FIX, cy + 150000, 160000, 120000, cheek_color()),
            ]
        },
        Mood::Neutral => seq![block(floor_fix(cx - 150000), floor_fix(my), 3, 1, mouth_color())],
        Mood::Sleepy => seq![disc(cx, my, 120000, 90000, mouth_color())],
        Mood::Sad => seq![frown_dot(my, -2), frown_dot(my, -1), frown_dot(my, 0), frown_dot(my, 1), frown_dot(my, 2)],
        Mood::Crying => seq![disc(cx, my + 50000, 2 * FIX, 180000, mouth_color())],
        Mood::Angry => seq![block(floor_fix(cx - 250000), floor_fix(my), 5, 2, mouth_color())],
    }
}

/// Tears under both eyes when crying.
pub open spec fn tear_strokes(m: Mood, p: Pose) -> Seq<Stroke> {
    let cx = BODY_CX as int;
    let ey = body_cy(p) - 2 * FIX;
    if m == Mood::Crying {
        seq![
            disc(cx - EYE_DX, ey + 250000, FIX as int, 140000, tear_color()),
            dot(floor_fix(cx - EYE_DX), floor_fix(ey + 450000), tear_color()),
            disc(cx + EYE_DX, ey + 250000, FIX as int, 140000, tear_color()),
            dot(floor_fix(cx + EYE_DX), floor_fix(ey + 450000), tear_color()),
        ]
    } else {
        seq![]
    }
}

/// The little "z" beside a sleeping face.
pub open spec fn snooze_strokes(p: Pose) -> Seq<Stroke> {
    let cx = BODY_CX as int;
    let cy = body_cy(p);
    let z = rgba(240, 240, 255, 230);
    if p == Pose::Sleep {
        seq![
            block(floor_fix(cx + 6 * FIX), floor_fix(cy - 9 * FIX), 3, 1, z),
            dot(floor_fix(cx + 8 * FIX), floor_fix(cy - 8 * FIX), z),
            dot(floor_fix(cx + 6 * FIX), floor_fix(cy - 7 * FIX), z),
            block(floor_fix(cx + 6 * FIX), floor_fix(cy - 6 * FIX), 3, 1, z),
        ]
    } else {
        seq![]
    }
}

pub open spec fn face_strokes(m: Mood, p: Pose) -> Seq<Stroke> {
    eye_strokes(m, p) + mouth_strokes(m, p) + tear_strokes(m, p) + snooze_strokes(p)
}

/// The full picture of the creature in one mood and pose, in painting order.
pub open spec fn creature_strokes(body: Seq<u8>, m: Mood, p: Pose) -> Seq<Stroke> {
    wing_strokes(body, p) + feet_strokes(body, p) + torso_strokes(body, p) + face_strokes(m, p)
}

/// One "Z" of the sleep emote, top-left at (zx, zy).
pub open spec fn z_glyph(zx: int, zy: int) -> Seq<Stroke> {
    let c = rgba(235, 240, 255, 235);
    seq![
        dot(zx, zy, c),
        dot(zx + 1, zy, c),
        dot(zx + 2, zy, c),
        dot(zx + 1, zy + 1, c),
        dot(zx, zy + 2, c),
        dot(zx + 1, zy + 2, c),
        dot(zx + 2, zy + 2, c),
    ]
}

/// One arm step of the sparkle: a pixel of the vertical bar, then of the horizontal one.
pub open spec fn spark_pair(d: int) -> Seq<Stroke> {
    let c = rgba(255, 235, 120, 245);
    seq![dot(8, 4 + d, c), dot(4 + d, 8, c)]
}

/// Row `r` of the heart's point: a centred run of 2·(6 − r) + 1 pixels.
pub open spec fn heart_row(r: int) -> Stroke {
    block(8 - (6 - r), 8 + r, 2 * (6 - r) + 1, 1, rgba(255, 120, 150, 245))
}

/// The picture of an emote icon, in painting order.
pub open spec fn emote_strokes(e: Emote) -> Seq<Stroke> {
    let blue = rgba(130, 205, 255, 240);
    let spark = rgba(255, 235, 120, 245);
    let pink = rgba(255, 120, 150, 245);
    let yellow = rgba(255, 220, 90, 248);
    match e {
        Emote::Zzz => z_glyph(2, 9) + z_glyph(6, 5) + z_glyph(10, 1),
        Emote::Tear => seq![
            dot(8, 4, blue),
            dot(8, 5, blue),
            disc(8 * FIX, 9 * FIX, 3 * FIX, 350000, blue),
            dot(7, 8, rgba(255, 255, 255, 200)),
        ],
        Emote::Sweat => seq![dot(9, 4, blue), disc(9 * FIX, 7 * FIX, 220000, 280000, blue)],
        Emote::Spark => spark_pair(0) + spark_pair(1) + spark_pair(2) + spark_pair(3) + spark_pair(4) + seq![
            dot(5, 5, rgba(255, 255, 255, 220)),
            dot(11, 11, rgba(255, 255, 255, 220)),
            dot(11, 5, spark),
            dot(5, 11, spark),
        ],
        Emote::Heart => seq![
            disc(550000, 650000, 3 * FIX, 3 * FIX, pink),
            disc(1050000, 650000, 3 * FIX, 3 * FIX, pink),
            heart_row(0),
            heart_row(1),
            heart_row(2),
            heart_row(3),
            heart_row(4),
            heart_row(5),
        ],
        Emote::Exclaim => seq![block(7, 2, 2, 7, yellow), block(7, 11, 2, 2, yellow)],
    }
}


fn mk_dot(x: i64, y: i64, c: Rgba) -> (s: Stroke)
    requires
        -1000 <= x <= 1000,
        -1000 <= y <= 1000,
    ensures
        s == dot(x as int, y as int, c),
        stroke_ok(s),
{
    Stroke::Dot { x: x as i32, y: y as i32, color: c }
}

fn mk_block(x: i64, y: i64, w: i64, h: i64, c: Rgba) -> (s: Stroke)
    requires
        -1000 <= x <= 1000,
        -1000 <= y <= 1000,
        0 <= w <= 64,
        0 <= h <= 64,
    ensures
        s == block(x as int, y as int, w as int, h as int, c),
        stroke_ok(s),
{
    Stroke::Block { x: x as i32, y: y as i32, w: w as i32, h: h as i32, color: c }
}

fn mk_disc(cx: i64, cy: i64, rx: i64, ry: i64, c: Rgba) -> (s: Stroke)
    requires
        -6400000 <= cx <= 6400000,
        -6400000 <= cy <= 6400000,
        0 < rx <= 6400000,
        0 < ry <= 6400000,
    ensures
        s == disc(cx as int, cy as int, rx as int, ry as int, c),
        stroke_ok(s),
{
    Stroke::Disc { cx, cy, rx, ry, color: c }
}

fn fl(v: i64) -> (r: i64)
    requires
        -12800000 <= v <= 12800000,
    ensures
        r == floor_fix(v as int),
        -129 <= r <= 128,
{
    floor_div_fix(v)
}

fn pose_params(p: Pose) -> (r: (i64, i64))
    ensures
        r.0 == pose_bob(p),
        r.1 == pose_squash(p),
{
    match p {
        Pose::Idle0 => (0, 0),
        Pose::Idle1 => (1, 10),
        Pose::Walk0 => (0, 0),
        Pose::Walk1 => (-1, 0),
        Pose::Fly0 => (-1, 5),
        Pose::Fly1 => (1, 5),
        Pose::Sleep => (1, 12),
    }
}

fn body_geometry(p: Pose) -> (r: (i64, i64, i64))
    ensures
        r.0 == body_cy(p),
        r.1 == body_rx(p),
        r.2 == body_ry(p),
        1600000 <= r.0 <= 1800000,
        1050000 <= r.1 <= 1200000,
        970000 <= r.2 <= 1050000,
{
    let (bob, squash) = pose_params(p);
    ((17 + bob) * FIX, 1050000 + 10500 * squash, 1050000 - 6000 * squash)
}

fn wing_strokes_exec(body: [u8; 3], p: Pose) -> (v: Vec<Stroke>)
    ensures
        v@ == wing_strokes(body@, p),
        all_ok(v@),
{
    let (cy, rx, _ry) = body_geometry(p);
    let w: i64 = match p {
        Pose::Fly0 => -3,
        Pose::Fly1 => 2,
        _ => {
            return Vec::new();
        },
    };
    let wc = lighten(body, 1, 2);
    let v = { let mut t = Vec::new(); t.push(mk_disc(BODY_CX - rx + FIX, cy + w * FIX, 4 * FIX, 6 * FIX, wc)); t.push(mk_disc(BODY_CX + rx - FIX, cy + w * FIX, 4 * FIX, 6 * FIX, wc)); t };
    assert(v@ =~= wing_strokes(body@, p));
    v
}

fn feet_strokes_exec(body: [u8; 3], p: Pose) -> (v: Vec<Stroke>)
    ensures
        v@ == feet_strokes(body@, p),
        all_ok(v@),
{
    let (cy, _rx, ry) = body_geometry(p);
    let (lf, rf): (i64, i64) = match p {
        Pose::Walk0 => (-2, 4),
        Pose::Walk1 => (4, -2),
        _ => (0, 0),
    };
    let foot = darken(body, DARK_FOOT_M, DARK_FOOT_DEN);
    let y = cy + ry - FIX;
    let v = { let mut t = Vec::new(); t.push(mk_disc(BODY_CX - 4 * FIX + lf * FIX, y, 3 * FIX, 220000, foot)); t.push(mk_disc(BODY_CX + 4 * FIX + rf * FIX, y, 3 * FIX, 220000, foot)); t };
    assert(v@ =~= feet_strokes(body@, p));
    v
}

fn torso_strokes_exec(body: [u8; 3], p: Pose) -> (v: Vec<Stroke>)
    ensures
        v@ == torso_strokes(body@, p),
        all_ok(v@),
{
    let (cy, rx, ry) = body_geometry(p);
    let cx = BODY_CX;
    let base = Rgba { r: body[0], g: body[1], b: body[2], a: 255 };
    let light = lighten(body, 3, 10);
    let dark = darken(body, DARK_BODY_M, DARK_BODY_DEN);
    let outline = base_outline(base);
    let v = { let mut t = Vec::new(); t.push(mk_disc(cx, cy, rx, ry, base)); t.push(mk_disc(cx, cy - ry * 45 / 100, rx * 70 / 100, ry * 45 / 100, light)); t.push(mk_disc(cx, cy + ry * 55 / 100, rx * 85 / 100, ry * 40 / 100, dark)); t.push(mk_disc(cx, cy, rx, ry, Rgba { r: 0, g: 0, b: 0, a: 0 })); t.push(mk_disc(cx, cy, rx, ry, outline)); t };
    assert(v@ =~= torso_strokes(body@, p));
    v
}

/// The body colour with zero alpha: a re-pass over the body edge that paints nothing.
fn base_outline(base: Rgba) -> (c: Rgba)
    ensures
        c == outline_of(base),
{
    Rgba { r: base.r, g: base.g, b: base.b, a: 0 }
}

fn closed_eye_pair_exec(ey: i64, dx: i64) -> (v: Vec<Stroke>)
    requires
        1400000 <= ey <= 1600000,
        -2 <= dx <= 2,
    ensures
        v@ == closed_eye_pair(ey as int, dx as int),
        all_ok(v@),
{
    let adx: i64 = if dx < 0 { -dx } else { dx };
    let y = fl(ey + adx * FIX / 2 - FIX / 2);
    let eye = Rgba { r: 54, g: 38, b: 50, a: 255 };
    let v = { let mut t = Vec::new(); t.push(mk_dot(fl(BODY_CX - EYE_DX) + dx, y, eye)); t.push(mk_dot(fl(BODY_CX + EYE_DX) + dx, y, eye)); t };
    assert(v@ =~= closed_eye_pair(ey as int, dx as int));
    v
}

fn brow_pair_exec(ey: i64, d: i64) -> (v: Vec<Stroke>)
    requires
        1400000 <= ey <= 1600000,
        0 <= d <= 2,
    ensures
        v@ == brow_pair(ey as int, d as int),
        all_ok(v@),
{
    let eye = Rgba { r: 54, g: 38, b: 50, a: 255 };
    let v = { let mut t = Vec::new(); t.push(mk_dot(fl(BODY_CX - EYE_DX - FIX) + d, fl(ey - 4 * FIX) + d, eye)); t.push(mk_dot(fl(BODY_CX + EYE_DX + FIX) - d, fl(ey - 4 * FIX) + d, eye)); t };
    assert(v@ =~= brow_pair(ey as int, d as int));
    v
}

fn eye_strokes_exec(m: Mood, p: Pose) -> (v: Vec<Stroke>)
    ensures
        v@ == eye_strokes(m, p),
        all_ok(v@),
{
    let (cy, _rx, _ry) = body_geometry(p);
    let cx = BODY_CX;
    let ey = cy - 2 * FIX;
    let closed = matches!(p, Pose::Sleep) || matches!(m, Mood::Sleepy | Mood::Crying);
    if closed {
        let mut v = closed_eye_pair_exec(ey, -2);
        append_strokes(&mut v, closed_eye_pair_exec(ey, -1));
        append_strokes(&mut v, closed_eye_pair_exec(ey, 0));
        append_strokes(&mut v, closed_eye_pair_exec(ey, 1));
        append_strokes(&mut v, closed_eye_pair_exec(ey, 2));
        v
    } else {
        let (ery, look): (i64, i64) = match m {
            Mood::Energetic => (260000, 0),
            Mood::Sad => (160000, FIX),
            Mood::Angry => (170000, 0),
            _ => (220000, 0),
        };
        let eye = Rgba { r: 54, g: 38, b: 50, a: 255 };
        let shine = Rgba { r: 255, g: 255, b: 255, a: 235 };
        let mut v = { let mut t = Vec::new(); t.push(mk_disc(cx - EYE_DX, ey + look, 190000, ery, eye)); t.push(mk_disc(cx + EYE_DX, ey + look, 190000, ery, eye)); t.push(mk_dot(fl(cx - EYE_DX + 60000), fl(ey - 60000 + look), shine)); t.push(mk_dot(fl(cx + EYE_DX + 60000), fl(ey - 60000 + look), shine)); t };
        let ghost first = v@;
        assert(all_ok(v@));
        let sparkle = if matches!(m, Mood::Energetic) {
            { let mut t = Vec::new(); t.push(mk_dot(fl(cx - EYE_DX - 2 * FIX), fl(ey - 3 * FIX), shine)); t.push(mk_dot(fl(cx + EYE_DX + 2 * FIX), fl(ey - 3 * FIX), shine)); t }
        } else {
            Vec::new()
        };
        assert(all_ok(sparkle@));
        append_strokes(&mut v, sparkle);
        let brows = if matches!(m, Mood::Angry) {
            let mut b = brow_pair_exec(ey, 0);
            append_strokes(&mut b, brow_pair_exec(ey, 1));
            append_strokes(&mut b, brow_pair_exec(ey, 2));
            b
        } else {
            Vec::new()
        };
        append_strokes(&mut v, brows);
        assert(v@ =~= eye_strokes(m, p));
        v
    }
}

fn smile_dot_exec(my: i64, dx: i64) -> (s: Stroke)
    requires
        1900000 <= my <= 2200000,
        -2 <= dx <= 2,
    ensures
        s == smile_dot(my as int, dx as int),
        stroke_ok(s),
{
    let adx: i64 = if dx < 0 { -dx } else { dx };
    mk_dot(fl(BODY_CX) + dx, fl(my + adx * 60000), Rgba { r: 70, g: 40, b: 48, a: 255 })
}

fn frown_dot_exec(my: i64, dx: i64) -> (s: Stroke)
    requires
        1900000 <= my <= 2200000,
        -2 <= dx <= 2,
    ensures
        s == frown_dot(my as int, dx as int),
        stroke_ok(s),
{
    let adx: i64 = if dx < 0 { -dx } else { dx };
    mk_dot(fl(BODY_CX) + dx, fl(my + FIX - adx * 60000), Rgba { r: 70, g: 40, b: 48, a: 255 })
}

fn mouth_strokes_exec(m: Mood, p: Pose) -> (v: Vec<Stroke>)
    ensures
        v@ == mouth_strokes(m, p),
        all_ok(v@),
{
    let (cy, _rx, _ry) = body_geometry(p);
    let cx = BODY_CX;
    let my = cy + 350000;
    let mouth = Rgba { r: 70, g: 40, b: 48, a: 255 };
    let v = match m {
        Mood::Happy | Mood::Energetic => {
            let mut v = { let mut t = Vec::new(); t.push(smile_dot_exec(my, -2)); t.push(smile_dot_exec(my, -1)); t.push(smile_dot_exec(my, 0)); t.push(smile_dot_exec(my, 1)); t.push(smile_dot_exec(my, 2)); t };
            assert(all_ok(v@));
            let open = if matches!(m, Mood::Energetic) {
                { let mut t = Vec::new(); t.push(mk_disc(cx, my + FIX, 160000, 140000, mouth)); t }
            } else {
                Vec::new()
            };
            assert(all_ok(open@));
            append_strokes(&mut v, open);
            let cheek = Rgba { r: 255, g: 150, b: 170, a: 150 };
            let cheeks = { let mut t = Vec::new(); t.push(mk_disc(cx - 6 * FIX, cy + 150000, 160000, 120000, cheek)); t.push(mk_disc(cx + 6 * FIX, cy + 150000, 160000, 120000, cheek)); t };
            assert(all_ok(cheeks@));
            append_strokes(&mut v, cheeks);
            v
        },
        Mood::Neutral => { let mut t = Vec::new(); t.push(mk_block(fl(cx - 150000), fl(my), 3, 1, mouth)); t },
        Mood::Sleepy => { let mut t = Vec::new(); t.push(mk_disc(cx, my, 120000, 90000, mouth)); t },
        Mood::Sad => { let mut t = Vec::new(); t.push(frown_dot_exec(my, -2)); t.push(frown_dot_exec(my, -1)); t.push(frown_dot_exec(my, 0)); t.push(frown_dot_exec(my, 1)); t.push(frown_dot_exec(my, 2)); t },
        Mood::Crying => { let mut t = Vec::new(); t.push(mk_disc(cx, my + 50000, 2 * FIX, 180000, mouth)); t },
        Mood::Angry => { let mut t = Vec::new(); t.push(mk_block(fl(cx - 250000), fl(my), 5, 2, mouth)); t },
    };
    assert(v@ =~= mouth_strokes(m, p));
    assert(all_ok(v@));
    v
}

fn tear_strokes_exec(m: Mood, p: Pose) -> (v: Vec<Stroke>)
    ensures
        v@ == tear_strokes(m, p),
        all_ok(v@),
{
    let (cy, _rx, _ry) = body_geometry(p);
    let cx = BODY_CX;
    let ey = cy - 2 * FIX;
    if matches!(m, Mood::Crying) {
        let tear = Rgba { r: 130, g: 205, b: 255, a: 235 };
        let v = { let mut t = Vec::new(); t.push(mk_disc(cx - EYE_DX, ey + 250000, FIX, 140000, tear)); t.push(mk_dot(fl(cx - EYE_DX), fl(ey + 450000), tear)); t.push(mk_disc(cx + EYE_DX, ey + 250000, FIX, 140000, tear)); t.push(mk_dot(fl(cx + EYE_DX), fl(ey + 450000), tear)); t };
        assert(v@ =~= tear_strokes(m, p));
        v
    } else {
        let v = Vec::new();
        assert(v@ =~= tear_strokes(m, p));
        v
    }
}

fn snooze_strokes_exec(p: Pose) -> (v: Vec<Stroke>)
    ensures
        v@ == snooze_strokes(p),
        all_ok(v@),
{
    let (cy, _rx, _ry) = body_geometry(p);
    let cx = BODY_CX;
    if matches!(p, Pose::Sleep) {
        let z = Rgba { r: 240, g: 240, b: 255, a: 230 };
        let v = { let mut t = Vec::new(); t.push(mk_block(fl(cx + 6 * FIX), fl(cy - 9 * FIX), 3, 1, z)); t.push(mk_dot(fl(cx + 8 * FIX), fl(cy - 8 * FIX), z)); t.push(mk_dot(fl(cx + 6 * FIX), fl(cy - 7 * FIX), z)); t.push(mk_block(fl(cx + 6 * FIX), fl(cy - 6 * FIX), 3, 1, z)); t };
        assert(v@ =~= snooze_strokes(p));
        v
    } else {
        let v = Vec::new();
        assert(v@ =~= snooze_strokes(p));
        v
    }
}

/// The face for a mood and pose: eyes, mouth, tears and the sleep "z".
fn face_strokes_exec(m: Mood, p: Pose) -> (v: Vec<Stroke>)
    ensures
        v@ == face_strokes(m, p),
        all_ok(v@),
{
    let mut v = eye_strokes_exec(m, p);
    append_strokes(&mut v, mouth_strokes_exec(m, p));
    append_strokes(&mut v, tear_strokes_exec(m, p));
    append_strokes(&mut v, snooze_strokes_exec(p));
    v
}

/// The full picture of the creature for one atlas cell, in painting order.
fn creature_strokes_exec(body: [u8; 3], m: Mood, p: Pose) -> (v: Vec<Stroke>)
    ensures
        v@ == creature_strokes(body@, m, p),
        all_ok(v@),
{
    let mut v = wing_strokes_exec(body, p);
    append_strokes(&mut v, feet_strokes_exec(body, p));
    append_strokes(&mut v, torso_strokes_exec(body, p));
    append_strokes(&mut v, face_strokes_exec(m, p));
    v
}


fn z_glyph_exec(zx: i64, zy: i64) -> (v: Vec<Stroke>)
    requires
        0 <= zx <= 16,
        0 <= zy <= 16,
    ensures
        v@ == z_glyph(zx as int, zy as int),
        all_ok(v@),
{
    let c = Rgba { r: 235, g: 240, b: 255, a: 235 };
    let mut t = Vec::new();
    t.push(mk_dot(zx, zy, c));
    t.push(mk_dot(zx + 1, zy, c));
    t.push(mk_dot(zx + 2, zy, c));
    t.push(mk_dot(zx + 1, zy + 1, c));
    t.push(mk_dot(zx, zy + 2, c));
    t.push(mk_dot(zx + 1, zy + 2, c));
    t.push(mk_dot(zx + 2, zy + 2, c));
    assert(t@ =~= z_glyph(zx as int, zy as int));
    t
}

fn spark_pair_exec(d: i64) -> (v: Vec<Stroke>)
    requires
        0 <= d <= 4,
    ensures
        v@ == spark_pair(d as int),
        all_ok(v@),
{
    let c = Rgba { r: 255, g: 235, b: 120, a: 245 };
    let mut t = Vec::new();
    t.push(mk_dot(8, 4 + d, c));
    t.push(mk_dot(4 + d, 8, c));
    assert(t@ =~= spark_pair(d as int));
    t
}

fn heart_row_exec(r: i64) -> (s: Stroke)
    requires
        0 <= r <= 5,
    ensures
        s == heart_row(r as int),
        stroke_ok(s),
{
    let half = 6 - r;
    mk_block(8 - half, 8 + r, 2 * half + 1, 1, Rgba { r: 255, g: 120, b: 150, a: 245 })
}

/// The picture of an emote icon, in painting order.
fn emote_strokes_exec(e: Emote) -> (v: Vec<Stroke>)
    ensures
        v@ == emote_strokes(e),
        all_ok(v@),
{
    let blue = Rgba { r: 130, g: 205, b: 255, a: 240 };
    let spark = Rgba { r: 255, g: 235, b: 120, a: 245 };
    let pink = Rgba { r: 255, g: 120, b: 150, a: 245 };
    let yellow = Rgba { r: 255, g: 220, b: 90, a: 248 };
    let white = Rgba { r: 255, g: 255, b: 255, a: 220 };
    let v = match e {
        Emote::Zzz => {
            let mut v = z_glyph_exec(2, 9);
            append_strokes(&mut v, z_glyph_exec(6, 5));
            append_strokes(&mut v, z_glyph_exec(10, 1));
            v
        },
        Emote::Tear => {
            let mut t = Vec::new();
            t.push(mk_dot(8, 4, blue));
            t.push(mk_dot(8, 5, blue));
            t.push(mk_disc(8 * FIX, 9 * FIX, 3 * FIX, 350000, blue));
            t.push(mk_dot(7, 8, Rgba { r: 255, g: 255, b: 255, a: 200 }));
            t
        },
        Emote::Sweat => {
            let mut t = Vec::new();
            t.push(mk_dot(9, 4, blue));
            t.push(mk_disc(9 * FIX, 7 * FIX, 220000, 280000, blue));
            t
        },
        Emote::Spark => {
            let mut v = spark_pair_exec(0);
            append_strokes(&mut v, spark_pair_exec(1));
            append_strokes(&mut v, spark_pair_exec(2));
            append_strokes(&mut v, spark_pair_exec(3));
            append_strokes(&mut v, spark_pair_exec(4));
            let mut t = Vec::new();
            t.push(mk_dot(5, 5, white));
            t.push(mk_dot(11, 11, white));
            t.push(mk_dot(11, 5, spark));
            t.push(mk_dot(5, 11, spark));
            assert(all_ok(t@));
            append_strokes(&mut v, t);
            v
        },
        Emote::Heart => {
            let mut t = Vec::new();
            t.push(mk_disc(550000, 650000, 3 * FIX, 3 * FIX, pink));
            t.push(mk_disc(1050000, 650000, 3 * FIX, 3 * FIX, pink));
            t.push(heart_row_exec(0));
            t.push(heart_row_exec(1));
            t.push(heart_row_exec(2));
            t.push(heart_row_exec(3));
            t.push(heart_row_exec(4));
            t.push(heart_row_exec(5));
            t
        },
        Emote::Exclaim => {
            let mut t = Vec::new();
            t.push(mk_block(7, 2, 2, 7, yellow));
            t.push(mk_block(7, 11, 2, 2, yellow));
            t
        },
    };
    assert(v@ =~= emote_strokes(e));
    assert(all_ok(v@));
    v
}

// ----------------------------------------------------------------------------
// The atlas
// ----------------------------------------------------------------------------

/// Atlas width in px: one column per pose plus a spare column.
pub const ATLAS_W: u32 = 256;
/// Atlas height in px: one row per mood.
pub const ATLAS_H: u32 = 224;

/// A procedurally drawn texture atlas (straight-alpha RGBA, row-major).
pub struct Sprites {
    pub pixels: Vec<u8>,
    pub width: u32,
    pub height: u32,
}

/// Moods in atlas-row order.
pub open spec fn mood_at(i: int) -> Mood {
    if i == 0 {
        Mood::Happy
    } else if i == 1 {
        Mood::Energetic
    } else if i == 2 {
        Mood::Neutral
    } else if i == 3 {
        Mood::Sleepy
    } else if i == 4 {
        Mood::Sad
    } else if i == 5 {
        Mood::Crying
    } else {
        Mood::Angry
    }
}

/// Poses in atlas-column order.
pub open spec fn pose_at(i: int) -> Pose {
    if i == 0 {
        Pose::Idle0
    } else if i == 1 {
        Pose::Idle1
    } else if i == 2 {
        Pose::Walk0
    } else if i == 3 {
        Pose::Walk1
    } else if i == 4 {
        Pose::Fly0
    } else if i == 5 {
        Pose::Fly1
    } else {
        Pose::Sleep
    }
}

/// Emotes in slot order.
pub open spec fn emote_at(i: int) -> Emote {
    if i == 0 {
        Emote::Zzz
    } else if i == 1 {
        Emote::Tear
    } else if i == 2 {
        Emote::Spark
    } else if i == 3 {
        Emote::Sweat
    } else if i == 4 {
        Emote::Heart
    } else {
        Emote::Exclaim
    }
}

/// Byte `i` of the atlas belongs to the 3×3 solid-white block at the top of
/// the spare column (the texel used for tinted shadow quads).
pub open spec fn in_white_texel(i: int) -> bool {
    &&& 0 <= local_x(i, ATLAS_W as int, POSES * CELL) < 3
    &&& 0 <= local_y(i, ATLAS_W as int, 0) < 3
}

/// The atlas before any drawing: transparent, except the white texel.
pub open spec fn blank_atlas() -> Seq<u8> {
    Seq::new((ATLAS_W * ATLAS_H * 4) as nat, |i: int| if in_white_texel(i) { 255u8 } else { 0u8 })
}

/// The atlas after drawing the first `n` creature cells (mood-major order).
pub open spec fn atlas_cells(body: Seq<u8>, n: nat) -> Seq<u8>
    decreases n,
{
    if n == 0 {
        blank_atlas()
    } else {
        let i = n - 1;
        let m = mood_at(i / POSES as int);
        let p = pose_at(i % POSES as int);
        paint(
            atlas_cells(body, (n - 1) as nat),
            ATLAS_W as int,
            pose_col(p) * CELL,
            mood_row(m) * CELL,
            creature_strokes(body, m, p),
        )
    }
}

/// The atlas after also drawing the first `n` emote icons (16×16 each, in the
/// spare column below the white texel).
pub open spec fn atlas_emotes(body: Seq<u8>, n: nat) -> Seq<u8>
    decreases n,
{
    if n == 0 {
        atlas_cells(body, (MOODS * POSES) as nat)
    } else {
        let e = emote_at(n - 1);
        paint(
            atlas_emotes(body, (n - 1) as nat),
            ATLAS_W as int,
            POSES * CELL,
            EMOTE_PX + emote_slot(e) * EMOTE_PX,
            emote_strokes(e),
        )
    }
}

/// The whole atlas for a body colour: every mood × pose cell and every emote.
pub open spec fn atlas(body: Seq<u8>) -> Seq<u8> {
    atlas_emotes(body, 6)
}

fn mood_at_exec(i: usize) -> (m: Mood)
    requires
        i < 7,
    ensures
        m == mood_at(i as int),
        mood_row(m) == i,
{
    if i == 0 {
        Mood::Happy
    } else if i == 1 {
        Mood::Energetic
    } else if i == 2 {
        Mood::Neutral
    } else if i == 3 {
        Mood::Sleepy
    } else if i == 4 {
        Mood::Sad
    } else if i == 5 {
        Mood::Crying
    } else {
        Mood::Angry
    }
}

fn pose_at_exec(i: usize) -> (p: Pose)
    requires
        i < 7,
    ensures
        p == pose_at(i as int),
        pose_col(p) == i,
{
    if i == 0 {
        Pose::Idle0
    } else if i == 1 {
        Pose::Idle1
    } else if i == 2 {
        Pose::Walk0
    } else if i == 3 {
        Pose::Walk1
    } else if i == 4 {
        Pose::Fly0
    } else if i == 5 {
        Pose::Fly1
    } else {
        Pose::Sleep
    }
}

fn emote_at_exec(i: usize) -> (e: Emote)
    requires
        i < 6,
    ensures
        e == emote_at(i as int),
{
    if i == 0 {
        Emote::Zzz
    } else if i == 1 {
        Emote::Tear
    } else if i == 2 {
        Emote::Spark
    } else if i == 3 {
        Emote::Sweat
    } else if i == 4 {
        Emote::Heart
    } else {
        Emote::Exclaim
    }
}

/// The transparent atlas with its white texel.
fn blank_atlas_exec() -> (px: Vec<u8>)
    ensures
        px@ == blank_atlas(),
{
    let n: usize = 256 * 224 * 4;
    let mut px = vec![0u8; n];
    let ghost zero = px@;
    assert forall|j: int| 0 <= j < n implies zero[j] == 0u8 by {
        assert(vstd::pervasive::cloned(0u8, zero[j]));
    }
    let mut y: usize = 0;
    while y < 3
        invariant
            y <= 3,
            n == 229376,
            px@.len() == n,
            forall|j: int|
                0 <= j < n ==> #[trigger] px@[j] == if 0 <= local_x(j, 256, 224) < 3 && 0 <= local_y(j, 256, 0) < y {
                    255u8
                } else {
                    0u8
                },
        decreases 3 - y,
    {
        let mut x: usize = 0;
        while x < 3
            invariant
                y < 3,
                x <= 3,
                n == 229376,
                px@.len() == n,
                forall|j: int|
                    0 <= j < n ==> #[trigger] px@[j] == if 0 <= local_x(j, 256, 224) < 3 && (0 <= local_y(j, 256, 0) < y
                        || (local_y(j, 256, 0) == y && local_x(j, 256, 224) < x)) {
                        255u8
                    } else {
                        0u8
                    },
            decreases 3 - x,
        {
            let i = (y * 256 + 224 + x) * 4;
            let ghost before = px@;
            px.set(i, 255);
            px.set(i + 1, 255);
            px.set(i + 2, 255);
            px.set(i + 3, 255);
            proof {
                assert forall|j: int| 0 <= j < n implies #[trigger] px@[j] == if 0 <= local_x(j, 256, 224) < 3 && (0 <= local_y(j, 256, 0) < y
                    || (local_y(j, 256, 0) == y && local_x(j, 256, 224) < x + 1)) {
                    255u8
                } else {
                    0u8
                } by {
                    lemma_pixel_of_byte(256, 224, 0, x as int, y as int, j);
                    if i <= j < i + 4 {
                        assert(j / 4 == i / 4);
                    } else {
                        assert(px@[j] == before[j]);
                        assert(j / 4 != (0 + y) * 256 + 224 + x);
                    }
                }
            }
            x = x + 1;
        }
        y = y + 1;
    }
    assert(px@ =~= blank_atlas());
    px
}

/// Build the full atlas for a given body colour.
pub fn generate(body: [u8; 3]) -> (s: Sprites)
    ensures
        s.width == ATLAS_W,
        s.height == ATLAS_H,
        s.pixels@ == atlas(body@),
{
    let mut pixels = blank_atlas_exec();
    let mut mi: usize = 0;
    while mi < 7
        invariant
            mi <= 7,
            pixels@.len() == 256 * 224 * 4,
            pixels@ == atlas_cells(body@, (mi * 7) as nat),
        decreases 7 - mi,
    {
        let mood = mood_at_exec(mi);
        let mut pi: usize = 0;
        while pi < 7
            invariant
                mi < 7,
                pi <= 7,
                mood == mood_at(mi as int),
                mood_row(mood) == mi,
                pixels@.len() == 256 * 224 * 4,
                pixels@ == atlas_cells(body@, (mi * 7 + pi) as nat),
            decreases 7 - pi,
        {
            let pose = pose_at_exec(pi);
            let strokes = creature_strokes_exec(body, mood, pose);
            let ghost before = pixels@;
            paint_into(&mut pixels, 256, pi * 32, mi * 32, &strokes);
            proof {
                lemma_atlas_cells_step(body@, mi as int, pi as int);
                lemma_paint_len(before, 256, pi * 32, mi * 32, strokes@);
            }
            pi = pi + 1;
        }
        mi = mi + 1;
    }
    let mut ei: usize = 0;
    while ei < 6
        invariant
            ei <= 6,
            pixels@.len() == 256 * 224 * 4,
            pixels@ == atlas_emotes(body@, ei as nat),
        decreases 6 - ei,
    {
        let e = emote_at_exec(ei);
        let strokes = emote_strokes_exec(e);
        let oy = (16 + e.slot() * 16) as usize;
        paint_into(&mut pixels, 256, 224, oy, &strokes);
        proof {
            lemma_paint_len(atlas_emotes(body@, ei as nat), 256, 224, oy as int, strokes@);
        }
        ei = ei + 1;
    }
    Sprites { pixels, width: 256, height: 224 }
}

proof fn lemma_atlas_cells_step(body: Seq<u8>, mi: int, pi: int)
    requires
        0 <= mi < 7,
        0 <= pi < 7,
    ensures
        atlas_cells(body, (mi * 7 + pi + 1) as nat) == paint(
            atlas_cells(body, (mi * 7 + pi) as nat),
            256,
            pi * 32,
            mi * 32,
            creature_strokes(body, mood_at(mi), pose_at(pi)),
        ),
{
    let n = mi * 7 + pi;
    assert(n / 7 == mi && n % 7 == pi) by (nonlinear_arith)
        requires
            n == mi * 7 + pi,
            0 <= pi < 7,
            0 <= mi,
    ;
    assert(pose_col(pose_at(pi)) == pi);
    assert(mood_row(mood_at(mi)) == mi);
}

proof fn lemma_paint_len(buf: Seq<u8>, stride: int, ox: int, oy: int, strokes: Seq<crate::paint::Stroke>)
    ensures
        paint(buf, stride, ox, oy, strokes).len() == buf.len(),
    decreases strokes.len(),
{
    if strokes.len() > 0 {
        lemma_paint_len(buf, stride, ox, oy, strokes.drop_last());
    }
}

/// An emote icon never spills out of its 16×16 slot: every stroke of it
/// covers only pixels of the slot.
pub proof fn lemma_emote_in_slot(e: Emote, k: int, x: int, y: int)
    requires
        0 <= k < emote_strokes(e).len(),
        crate::paint::covers(emote_strokes(e)[k], x, y),
    ensures
        0 <= x < EMOTE_PX,
        0 <= y < EMOTE_PX,
{
    let st = emote_strokes(e);
    assert(crate::paint::ceil_fix(1100000) == 11);
    assert(crate::paint::ceil_fix(1250000) == 13);
    assert(crate::paint::ceil_fix(1120000) == 12);
    assert(crate::paint::ceil_fix(980000) == 10);
    assert(crate::paint::ceil_fix(850000) == 9);
    assert(crate::paint::ceil_fix(950000) == 10);
    assert(crate::paint::ceil_fix(1350000) == 14);
    match e {
        Emote::Zzz => {
            let a = z_glyph(2, 9);
            let b = z_glyph(6, 5);
            let c = z_glyph(10, 1);
            if k < 7 {
                assert(st[k] == a[k]);
            } else if k < 14 {
                assert(st[k] == b[k - 7]);
            } else {
                assert(st[k] == c[k - 14]);
            }
        },
        Emote::Spark => {
            let tail = seq![
                dot(5, 5, rgba(255, 255, 255, 220)),
                dot(11, 11, rgba(255, 255, 255, 220)),
                dot(11, 5, rgba(255, 235, 120, 245)),
                dot(5, 11, rgba(255, 235, 120, 245)),
            ];
            if k < 2 {
                assert(st[k] == spark_pair(0)[k]);
            } else if k < 4 {
                assert(st[k] == spark_pair(1)[k - 2]);
            } else if k < 6 {
                assert(st[k] == spark_pair(2)[k - 4]);
            } else if k < 8 {
                assert(st[k] == spark_pair(3)[k - 6]);
            } else if k < 10 {
                assert(st[k] == spark_pair(4)[k - 8]);
            } else {
                assert(st[k] == tail[k - 10]);
            }
        },
        _ => {},
    }
}

/// Painting leaves every byte that no cell pixel lands on as it was.
proof fn lemma_paint_outside(buf: Seq<u8>, stride: int, ox: int, oy: int, strokes: Seq<crate::paint::Stroke>, i: int)
    requires
        0 <= i < buf.len(),
        forall|y: int| 0 <= y < CELL ==> !(0 <= #[trigger] crate::paint::col_in_row(i / 4, stride, ox, oy, y) < CELL),
    ensures
        paint(buf, stride, ox, oy, strokes)[i] == buf[i],
    decreases strokes.len(),
{
    if strokes.len() > 0 {
        let rest = strokes.drop_last();
        lemma_paint_outside(buf, stride, ox, oy, rest, i);
        lemma_paint_len(buf, stride, ox, oy, rest);
        let s = strokes.last();
        assert forall|y: int| 0 <= y < CELL implies !#[trigger] crate::paint::row_hits(s, i / 4, stride, ox, oy, y) by {
            assert(!(0 <= crate::paint::col_in_row(i / 4, stride, ox, oy, y) < CELL));
        }
        crate::paint::lemma_hits_flat(s, i / 4, stride, ox, oy, 0, CELL as int);
    }
}

/// A painted byte depends only on the same byte before painting.
proof fn lemma_paint_pointwise(b1: Seq<u8>, b2: Seq<u8>, stride: int, ox: int, oy: int, strokes: Seq<crate::paint::Stroke>, i: int)
    requires
        b1.len() == b2.len(),
        0 <= i < b1.len(),
        b1[i] == b2[i],
    ensures
        paint(b1, stride, ox, oy, strokes)[i] == paint(b2, stride, ox, oy, strokes)[i],
    decreases strokes.len(),
{
    if strokes.len() > 0 {
        lemma_paint_pointwise(b1, b2, stride, ox, oy, strokes.drop_last(), i);
        lemma_paint_len(b1, stride, ox, oy, strokes.drop_last());
        lemma_paint_len(b2, stride, ox, oy, strokes.drop_last());
    }
}

proof fn lemma_cells_spare(body: Seq<u8>, n: nat, i: int)
    requires
        n <= MOODS * POSES,
        0 <= i < ATLAS_W * ATLAS_H * 4,
        (i / 4) % (ATLAS_W as int) >= POSES * CELL,
    ensures
        atlas_cells(body, n).len() == ATLAS_W * ATLAS_H * 4,
        atlas_cells(body, n)[i] == blank_atlas()[i],
    decreases n,
{
    if n > 0 {
        let k = n - 1;
        let m = mood_at(k / POSES as int);
        let p = pose_at(k % POSES as int);
        lemma_cells_spare(body, (n - 1) as nat, i);
        let prev = atlas_cells(body, (n - 1) as nat);
        lemma_paint_len(prev, ATLAS_W as int, pose_col(p) * CELL, mood_row(m) * CELL, creature_strokes(body, m, p));
        assert(0 <= pose_col(p) < POSES);
        assert(0 <= mood_row(m) < MOODS);
        let ox = pose_col(p) * CELL;
        let oy = mood_row(m) * CELL;
        assert forall|y: int| 0 <= y < CELL implies !(0 <= #[trigger] crate::paint::col_in_row(i / 4, ATLAS_W as int, ox, oy, y) < CELL) by {
            let c = crate::paint::col_in_row(i / 4, ATLAS_W as int, ox, oy, y);
            if 0 <= c < CELL {
                assert(i / 4 == (oy + y) * 256 + (ox + c));
                assert(0 <= ox + c < 256);
                vstd::arithmetic::div_mod::lemma_fundamental_div_mod_converse(i / 4, 256, oy + y, ox + c);
            }
        }
        lemma_paint_outside(prev, ATLAS_W as int, ox, oy, creature_strokes(body, m, p), i);
    }
}

proof fn lemma_emotes_spare(b1: Seq<u8>, b2: Seq<u8>, n: nat, i: int)
    requires
        0 <= i < ATLAS_W * ATLAS_H * 4,
        (i / 4) % (ATLAS_W as int) >= POSES * CELL,
    ensures
        atlas_emotes(b1, n).len() == ATLAS_W * ATLAS_H * 4,
        atlas_emotes(b2, n).len() == ATLAS_W * ATLAS_H * 4,
        atlas_emotes(b1, n)[i] == atlas_emotes(b2, n)[i],
    decreases n,
{
    if n == 0 {
        lemma_cells_spare(b1, (MOODS * POSES) as nat, i);
        lemma_cells_spare(b2, (MOODS * POSES) as nat, i);
    } else {
        lemma_emotes_spare(b1, b2, (n - 1) as nat, i);
        let e = emote_at(n - 1);
        let p1 = atlas_emotes(b1, (n - 1) as nat);
        let p2 = atlas_emotes(b2, (n - 1) as nat);
        let oy = EMOTE_PX + emote_slot(e) * EMOTE_PX;
        lemma_paint_len(p1, ATLAS_W as int, POSES * CELL, oy, emote_strokes(e));
        lemma_paint_len(p2, ATLAS_W as int, POSES * CELL, oy, emote_strokes(e));
        lemma_paint_pointwise(p1, p2, ATLAS_W as int, POSES * CELL, oy, emote_strokes(e), i);
    }
}

/// A stroke's geometry and opacity, with its colour channels cleared.
pub open spec fn alpha_shape(s: Stroke) -> Stroke {
    match s {
        Stroke::Dot { x, y, color } => Stroke::Dot { x, y, color: rgba(0, 0, 0, color.a) },
        Stroke::Block { x, y, w, h, color } => Stroke::Block { x, y, w, h, color: rgba(0, 0, 0, color.a) },
        Stroke::Disc { cx, cy, rx, ry, color } => Stroke::Disc { cx, cy, rx, ry, color: rgba(0, 0, 0, color.a) },
    }
}

/// Two stroke lists that differ in colour channels only.
pub open spec fn same_shapes(a: Seq<Stroke>, b: Seq<Stroke>) -> bool {
    &&& a.len() == b.len()
    &&& forall|k: int| 0 <= k < a.len() ==> alpha_shape(#[trigger] a[k]) == alpha_shape(b[k])
}

proof fn lemma_shape_concat(a1: Seq<Stroke>, a2: Seq<Stroke>, b1: Seq<Stroke>, b2: Seq<Stroke>)
    requires
        same_shapes(a1, b1),
        same_shapes(a2, b2),
    ensures
        same_shapes(a1 + a2, b1 + b2),
{
    assert forall|k: int| 0 <= k < (a1 + a2).len() implies alpha_shape(#[trigger] (a1 + a2)[k]) == alpha_shape((b1 + b2)[k]) by {
        if k < a1.len() {
            assert((a1 + a2)[k] == a1[k] && (b1 + b2)[k] == b1[k]);
        } else {
            assert((a1 + a2)[k] == a2[k - a1.len()] && (b1 + b2)[k] == b2[k - a1.len()]);
        }
    }
}

/// The creature's picture has the same shapes and opacities in every body
/// colour.
proof fn lemma_creature_shapes(b1: Seq<u8>, b2: Seq<u8>, m: Mood, p: Pose)
    ensures
        same_shapes(creature_strokes(b1, m, p), creature_strokes(b2, m, p)),
{
    let w1 = wing_strokes(b1, p);
    let w2 = wing_strokes(b2, p);
    let f1 = feet_strokes(b1, p);
    let f2 = feet_strokes(b2, p);
    let t1 = torso_strokes(b1, p);
    let t2 = torso_strokes(b2, p);
    let fa = face_strokes(m, p);
    assert(same_shapes(w1, w2)) by {
        assert forall|k: int| 0 <= k < w1.len() implies alpha_shape(#[trigger] w1[k]) == alpha_shape(w2[k]) by {}
    }
    assert(same_shapes(f1, f2)) by {
        assert forall|k: int| 0 <= k < f1.len() implies alpha_shape(#[trigger] f1[k]) == alpha_shape(f2[k]) by {}
    }
    assert(same_shapes(t1, t2)) by {
        assert forall|k: int| 0 <= k < t1.len() implies alpha_shape(#[trigger] t1[k]) == alpha_shape(t2[k]) by {}
    }
    assert(same_shapes(fa, fa));
    lemma_shape_concat(w1, f1, w2, f2);
    lemma_shape_concat(w1 + f1, t1, w2 + f2, t2);
    lemma_shape_concat(w1 + f1 + t1, fa, w2 + f2 + t2, fa);
}

proof fn lemma_covers_shape(s1: Stroke, s2: Stroke, x: int, y: int)
    requires
        alpha_shape(s1) == alpha_shape(s2),
    ensures
        crate::paint::covers(s1, x, y) == crate::paint::covers(s2, x, y),
        crate::paint::stroke_color(s1).a == crate::paint::stroke_color(s2).a,
{
}

proof fn lemma_hits_shape(s1: Stroke, s2: Stroke, q: int, stride: int, ox: int, oy: int, n: int)
    requires
        alpha_shape(s1) == alpha_shape(s2),
    ensures
        crate::paint::hits(s1, q, stride, ox, oy, n) == crate::paint::hits(s2, q, stride, ox, oy, n),
    decreases n,
{
    if n > 0 {
        lemma_hits_shape(s1, s2, q, stride, ox, oy, n - 1);
        lemma_covers_shape(s1, s2, crate::paint::col_in_row(q, stride, ox, oy, n - 1), n - 1);
    }
}

proof fn lemma_alpha_times(c1: Rgba, c2: Rgba, k: nat, d: int)
    requires
        c1.a == c2.a,
    ensures
        crate::paint::blend_times(c1, k, 3, d) == crate::paint::blend_times(c2, k, 3, d),
    decreases k,
{
    if k > 0 {
        lemma_alpha_times(c1, c2, (k - 1) as nat, d);
    }
}

/// The alpha bytes after painting depend on the strokes' shapes and
/// opacities and the alpha bytes before, never on colour channels.
proof fn lemma_paint_alpha(b1: Seq<u8>, b2: Seq<u8>, stride: int, ox: int, oy: int, s1: Seq<Stroke>, s2: Seq<Stroke>, i: int)
    requires
        b1.len() == b2.len(),
        0 <= i < b1.len(),
        i % 4 == 3,
        b1[i] == b2[i],
        same_shapes(s1, s2),
    ensures
        paint(b1, stride, ox, oy, s1)[i] == paint(b2, stride, ox, oy, s2)[i],
    decreases s1.len(),
{
    if s1.len() > 0 {
        let r1 = s1.drop_last();
        let r2 = s2.drop_last();
        assert(same_shapes(r1, r2)) by {
            assert forall|k: int| 0 <= k < r1.len() implies alpha_shape(#[trigger] r1[k]) == alpha_shape(r2[k]) by {
                assert(r1[k] == s1[k] && r2[k] == s2[k]);
            }
        }
        lemma_paint_alpha(b1, b2, stride, ox, oy, r1, r2, i);
        lemma_paint_len(b1, stride, ox, oy, r1);
        lemma_paint_len(b2, stride, ox, oy, r2);
        let l1 = s1.last();
        let l2 = s2.last();
        assert(alpha_shape(s1[s1.len() - 1]) == alpha_shape(s2[s1.len() - 1]));
        lemma_hits_shape(l1, l2, i / 4, stride, ox, oy, CELL as int);
        lemma_covers_shape(l1, l2, 0, 0);
        let d = paint(b1, stride, ox, oy, r1)[i] as int;
        lemma_alpha_times(
            crate::paint::stroke_color(l1),
            crate::paint::stroke_color(l2),
            crate::paint::hits(s1.last(), i / 4, stride, ox, oy, CELL as int),
            d,
        );
    }
}

proof fn lemma_cells_alpha(b1: Seq<u8>, b2: Seq<u8>, n: nat, i: int)
    requires
        n <= MOODS * POSES,
        0 <= i < ATLAS_W * ATLAS_H * 4,
        i % 4 == 3,
    ensures
        atlas_cells(b1, n).len() == ATLAS_W * ATLAS_H * 4,
        atlas_cells(b2, n).len() == ATLAS_W * ATLAS_H * 4,
        atlas_cells(b1, n)[i] == atlas_cells(b2, n)[i],
    decreases n,
{
    if n > 0 {
        let k = n - 1;
        let m = mood_at(k / POSES as int);
        let p = pose_at(k % POSES as int);
        lemma_cells_alpha(b1, b2, (n - 1) as nat, i);
        let ox = pose_col(p) * CELL;
        let oy = mood_row(m) * CELL;
        let p1 = atlas_cells(b1, (n - 1) as nat);
        let p2 = atlas_cells(b2, (n - 1) as nat);
        lemma_paint_len(p1, ATLAS_W as int, ox, oy, creature_strokes(b1, m, p));
        lemma_paint_len(p2, ATLAS_W as int, ox, oy, creature_strokes(b2, m, p));
        lemma_creature_shapes(b1, b2, m, p);
        lemma_paint_alpha(p1, p2, ATLAS_W as int, ox, oy, creature_strokes(b1, m, p), creature_strokes(b2, m, p), i);
    }
}

/// Recolouring never changes the creature's shape: every alpha byte of the
/// atlas is the same for every body colour.
pub proof fn lemma_recolour_keeps_alpha(b1: Seq<u8>, b2: Seq<u8>, i: int)
    requires
        0 <= i < ATLAS_W * ATLAS_H * 4,
        i % 4 == 3,
    ensures
        atlas(b1)[i] == atlas(b2)[i],
{
    lemma_recolour_emotes_alpha(b1, b2, 6, i);
}

proof fn lemma_recolour_emotes_alpha(b1: Seq<u8>, b2: Seq<u8>, n: nat, i: int)
    requires
        0 <= i < ATLAS_W * ATLAS_H * 4,
        i % 4 == 3,
    ensures
        atlas_emotes(b1, n).len() == ATLAS_W * ATLAS_H * 4,
        atlas_emotes(b2, n).len() == ATLAS_W * ATLAS_H * 4,
        atlas_emotes(b1, n)[i] == atlas_emotes(b2, n)[i],
    decreases n,
{
    if n == 0 {
        lemma_cells_alpha(b1, b2, (MOODS * POSES) as nat, i);
    } else {
        lemma_recolour_emotes_alpha(b1, b2, (n - 1) as nat, i);
        let e = emote_at(n - 1);
        let p1 = atlas_emotes(b1, (n - 1) as nat);
        let p2 = atlas_emotes(b2, (n - 1) as nat);
        let oy = EMOTE_PX + emote_slot(e) * EMOTE_PX;
        lemma_paint_len(p1, ATLAS_W as int, POSES * CELL, oy, emote_strokes(e));
        lemma_paint_len(p2, ATLAS_W as int, POSES * CELL, oy, emote_strokes(e));
        lemma_paint_pointwise(p1, p2, ATLAS_W as int, POSES * CELL, oy, emote_strokes(e), i);
    }
}

/// Recolouring changes only the creature cells: the spare column (the white
/// texel block and the emote icons) is the same for every body colour.
pub proof fn lemma_recolour_keeps_spare_column(b1: Seq<u8>, b2: Seq<u8>, i: int)
    requires
        0 <= i < ATLAS_W * ATLAS_H * 4,
        (i / 4) % (ATLAS_W as int) >= POSES * CELL,
    ensures
        atlas(b1)[i] == atlas(b2)[i],
{
    lemma_emotes_spare(b1, b2, 6, i);
}

/// The atlas layout: every mood/pose cell lies inside the pose columns of
/// the atlas and different cells never share a grid square; every emote
/// icon lies in the spare column, below the white texel block, inside the
/// atlas, and different emotes never share a slot.
pub proof fn lemma_atlas_layout(m1: Mood, p1: Pose, m2: Mood, p2: Pose, e1: Emote, e2: Emote)
    ensures
        0 <= pose_col(p1) * CELL && pose_col(p1) * CELL + CELL <= POSES * CELL,
        0 <= mood_row(m1) * CELL && mood_row(m1) * CELL + CELL <= ATLAS_H,
        (m1 != m2 || p1 != p2) ==> (pose_col(p1) != pose_col(p2) || mood_row(m1) != mood_row(m2)),
        POSES * CELL + EMOTE_PX <= ATLAS_W,
        3 <= EMOTE_PX + emote_slot(e1) * EMOTE_PX,
        EMOTE_PX + emote_slot(e1) * EMOTE_PX + EMOTE_PX <= ATLAS_H,
        e1 != e2 ==> emote_slot(e1) != emote_slot(e2),
{
}

impl Sprites {
    /// Pixel rect (x, y, w, h) of a mood/pose cell.
    pub fn cell_rect(&self, mood: Mood, pose: Pose) -> (r: (u32, u32, u32, u32))
        ensures
            r == ((pose_col(pose) * CELL) as u32, (mood_row(mood) * CELL) as u32, CELL as u32, CELL as u32),
    {
        let col = pose.index() as u32;
        let row = mood_index(mood) as u32;
        (col * 32, row * 32, 32, 32)
    }

    /// Pixel rect (x, y, w, h) of an emote icon (16×16 in the spare column).
    pub fn emote_rect(&self, e: Emote) -> (r: (u32, u32, u32, u32))
        ensures
            r == ((POSES * CELL) as u32, (EMOTE_PX + emote_slot(e) * EMOTE_PX) as u32, EMOTE_PX as u32, EMOTE_PX as u32),
    {
        let y = (16 + e.slot() * 16) as u32;
        (224, y, 16, 16)
    }
}

} // verus!

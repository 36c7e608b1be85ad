//! The desktop scout's geometry. The platform layer reads, for the topmost
//! windows in stacking order, their types, states, desktop, geometry and
//! client-side-decoration margins; everything it then decides — which
//! windows the pet may stand on, which parts of their top edges are not
//! covered by a higher window, which of those are wide enough to walk, the
//! active window's perch and the notification popups — happens here, on
//! whole pixels.

use vstd::prelude::*;

verus! {

/// Coordinates stay within this magnitude: window positions are 16-bit and
/// decoration margins 32-bit, so every derived edge is far below it.
pub open spec fn in_range(v: int) -> bool {
    -0x100_0000_0000 <= v <= 0x100_0000_0000
}

// ----------------------------------------------------------------------------
// Horizontal segments
// ----------------------------------------------------------------------------

/// Is pixel column `p` inside one of the half-open segments `[a, b)`?
pub open spec fn covered(segs: Seq<(i64, i64)>, p: int) -> bool {
    exists|k: int| 0 <= k < segs.len() && segs[k].0 <= p < #[trigger] segs[k].1
}

/// What is left of one segment once the columns `[c0, c1)` are taken away.
pub open spec fn pieces(s: (i64, i64), c0: i64, c1: i64) -> Seq<(i64, i64)> {
    if c1 <= s.0 || c0 >= s.1 {
        seq![s]
    } else {
        (if c0 > s.0 { seq![(s.0, c0)] } else { Seq::empty() }) + (if c1 < s.1 {
            seq![(c1, s.1)]
        } else {
            Seq::empty()
        })
    }
}

/// Every segment with the columns `[c0, c1)` taken away, in order.
pub open spec fn cut(segs: Seq<(i64, i64)>, c0: i64, c1: i64) -> Seq<(i64, i64)>
    decreases segs.len(),
{
    if segs.len() == 0 {
        Seq::empty()
    } else {
        cut(segs.drop_last(), c0, c1) + pieces(segs.last(), c0, c1)
    }
}

pub open spec fn segs_in_range(segs: Seq<(i64, i64)>) -> bool {
    forall|k: int|
        0 <= k < segs.len() ==> in_range((#[trigger] segs[k]).0 as int) && in_range(segs[k].1 as int)
}

proof fn lemma_covered_concat(a: Seq<(i64, i64)>, b: Seq<(i64, i64)>, p: int)
    ensures
        covered(a + b, p) == (covered(a, p) || covered(b, p)),
{
    let ab = a + b;
    if covered(ab, p) {
        let k = choose|k: int| 0 <= k < ab.len() && ab[k].0 <= p < #[trigger] ab[k].1;
        if k < a.len() {
            assert(a[k] == ab[k]);
        } else {
            assert(b[k - a.len()] == ab[k]);
        }
    }
    if covered(a, p) {
        let k = choose|k: int| 0 <= k < a.len() && a[k].0 <= p < #[trigger] a[k].1;
        assert(ab[k] == a[k]);
    }
    if covered(b, p) {
        let k = choose|k: int| 0 <= k < b.len() && b[k].0 <= p < #[trigger] b[k].1;
        assert(ab[k + a.len()] == b[k]);
    }
}

proof fn lemma_covered_last(segs: Seq<(i64, i64)>, p: int)
    requires
        segs.len() > 0,
    ensures
        covered(segs, p) == (covered(segs.drop_last(), p) || (segs.last().0 <= p
            < segs.last().1)),
{
    assert(segs =~= segs.drop_last() + seq![segs.last()]);
    lemma_covered_concat(segs.drop_last(), seq![segs.last()], p);
    let one = seq![segs.last()];
    if one[0].0 <= p < one[0].1 {
        assert(covered(one, p));
    }
}

proof fn lemma_pieces_points(s: (i64, i64), c0: i64, c1: i64, p: int)
    ensures
        covered(pieces(s, c0, c1), p) == ((s.0 <= p < s.1) && !(c0 <= p < c1)),
{
    let ps = pieces(s, c0, c1);
    if c1 <= s.0 || c0 >= s.1 {
        assert(ps.len() == 1 && ps[0] == s);
        if covered(ps, p) {
            let k = choose|k: int| 0 <= k < ps.len() && ps[k].0 <= p < #[trigger] ps[k].1;
            assert(k == 0);
        }
        if s.0 <= p < s.1 && !(c0 <= p < c1) {
            assert(ps[0].0 <= p < ps[0].1);
        }
    } else {
        let left: Seq<(i64, i64)> = if c0 > s.0 { seq![(s.0, c0)] } else { Seq::empty() };
        let right: Seq<(i64, i64)> = if c1 < s.1 { seq![(c1, s.1)] } else { Seq::empty() };
        lemma_covered_concat(left, right, p);
        assert(ps == left + right);
        if covered(left, p) {
            let k = choose|k: int| 0 <= k < left.len() && left[k].0 <= p < #[trigger] left[k].1;
            assert(k == 0 && left[0] == (s.0, c0));
        }
        if covered(right, p) {
            let k = choose|k: int| 0 <= k < right.len() && right[k].0 <= p < #[trigger] right[k].1;
            assert(k == 0 && right[0] == (c1, s.1));
        }
        if s.0 <= p < c0 {
            assert(left[0].0 <= p < left[0].1);
        }
        if c1 <= p < s.1 {
            assert(right[0].0 <= p < right[0].1);
        }
    }
}

/// Taking `[c0, c1)` away from a list of segments leaves exactly the columns
/// that were covered before and lie outside `[c0, c1)`.
pub proof fn lemma_cut_points(segs: Seq<(i64, i64)>, c0: i64, c1: i64, p: int)
    ensures
        covered(cut(segs, c0, c1), p) == (covered(segs, p) && !(c0 <= p < c1)),
    decreases segs.len(),
{
    if segs.len() == 0 {
    } else {
        lemma_cut_points(segs.drop_last(), c0, c1, p);
        lemma_covered_concat(cut(segs.drop_last(), c0, c1), pieces(segs.last(), c0, c1), p);
        lemma_pieces_points(segs.last(), c0, c1, p);
        lemma_covered_last(segs, p);
    }
}

/// Subtract a covering column range from a list of segments.
pub fn subtract(segs: &Vec<(i64, i64)>, cover: (i64, i64)) -> (out: Vec<(i64, i64)>)
    ensures
        out@ == cut(segs@, cover.0, cover.1),
        segs_in_range(segs@) && in_range(cover.0 as int) && in_range(cover.1 as int)
            ==> segs_in_range(out@),
{
    let (c0, c1) = cover;
    let mut out: Vec<(i64, i64)> = Vec::new();
    let mut i: usize = 0;
    while i < segs.len()
        invariant
            i <= segs.len(),
            out@ == cut(segs@.take(i as int), c0, c1),
            segs_in_range(segs@) && in_range(c0 as int) && in_range(c1 as int)
                ==> segs_in_range(out@),
        decreases segs.len() - i,
    {
        let (a, b) = segs[i];
        if c1 <= a || c0 >= b {
            out.push((a, b));
        } else {
            if c0 > a {
                out.push((a, c0));
            }
            if c1 < b {
                out.push((c1, b));
            }
        }
        proof {
            assert(segs@.take(i + 1).drop_last() =~= segs@.take(i as int));
            assert(segs@.take(i + 1).last() == segs@[i as int]);
        }
        i += 1;
    }
    proof {
        assert(segs@.take(segs.len() as int) =~= segs@);
    }
    out
}

// ----------------------------------------------------------------------------
// Windows
// ----------------------------------------------------------------------------

/// The window-type and window-state atoms the scout compares against.
pub struct WindowAtoms {
    pub normal: u32,
    pub dialog: u32,
    pub notification: u32,
    pub dock: u32,
    pub desktop: u32,
    pub menu: u32,
    pub toolbar: u32,
    pub splash: u32,
    pub utility: u32,
    pub hidden: u32,
    pub fullscreen: u32,
}

/// Position (root coordinates of the top-left corner) and size of a window.
#[derive(Clone, Copy)]
pub struct Geometry {
    pub x: i16,
    pub y: i16,
    pub width: u16,
    pub height: u16,
}

/// What the platform layer learned about one window.
pub struct WindowProbe {
    pub id: u32,
    /// Its window-type atoms (empty when it has none).
    pub types: Vec<u32>,
    /// Its state atoms.
    pub states: Vec<u32>,
    /// The first value of its desktop property, if it has one.
    pub desktop: Option<u32>,
    /// `None` when its geometry could not be read.
    pub geometry: Option<Geometry>,
    /// Its client-side-decoration margins (left, right, top, bottom), if set.
    pub frame_extents: Option<Vec<u32>>,
}

/// A window's visible box in root coordinates, shadow margins stripped.
#[derive(Clone, Copy)]
pub struct WinBox {
    pub id: u32,
    pub x0: i64,
    pub y0: i64,
    pub x1: i64,
    pub y1: i64,
}

/// A walkable stretch of a window's top edge, in whole pixels.
#[derive(Clone, Copy)]
pub struct Ledge {
    pub x0: i64,
    pub x1: i64,
    pub y: i64,
}

/// Everything the scout reports for one look at the desktop.
pub struct Survey {
    /// Walkable top-edge stretches, bottom-to-top stacking order, at most 32.
    pub platforms: Vec<Ledge>,
    /// Widest walkable stretch of the focused window.
    pub active_top: Option<Ledge>,
    /// Notification popups currently on screen.
    pub notifications: Vec<WinBox>,
}

pub open spec fn has_margins(w: WindowProbe) -> bool {
    w.frame_extents is Some && w.frame_extents.unwrap()@.len() >= 4
}

pub open spec fn margin(w: WindowProbe, k: int) -> int {
    if has_margins(w) {
        w.frame_extents.unwrap()@[k] as int
    } else {
        0
    }
}

/// The box of a window whose geometry is known: its geometry shrunk by its
/// decoration margins.
pub open spec fn frame_box(w: WindowProbe) -> WinBox {
    let g = w.geometry.unwrap();
    WinBox {
        id: w.id,
        x0: (g.x + margin(w, 0)) as i64,
        y0: (g.y + margin(w, 2)) as i64,
        x1: (g.x + g.width - margin(w, 1)) as i64,
        y1: (g.y + g.height - margin(w, 3)) as i64,
    }
}

pub open spec fn on_desktop(desk: Option<u32>, current: Option<u32>) -> bool {
    match (current, desk) {
        (Some(cd), Some(d)) => d == cd || d == u32::MAX,
        _ => true,
    }
}

/// Not minimised, on the current desktop (or on all of them), and measured.
pub open spec fn shown(w: WindowProbe, a: WindowAtoms, current: Option<u32>) -> bool {
    &&& !w.states@.contains(a.hidden)
    &&& on_desktop(w.desktop, current)
    &&& w.geometry is Some
}

pub open spec fn is_popup(w: WindowProbe, a: WindowAtoms) -> bool {
    w.types@.contains(a.notification)
}

pub open spec fn excluded_type(w: WindowProbe, a: WindowAtoms) -> bool {
    let t = w.types@;
    t.contains(a.dock) || t.contains(a.desktop) || t.contains(a.menu) || t.contains(a.toolbar)
        || t.contains(a.splash) || t.contains(a.utility)
}

/// A shown window the pet may stand on: an ordinary application window or
/// dialog, not fullscreen, at least 140 by 90 pixels.
pub open spec fn standable(w: WindowProbe, a: WindowAtoms) -> bool {
    let b = frame_box(w);
    &&& !excluded_type(w, a)
    &&& !w.states@.contains(a.fullscreen)
    &&& (w.types@.len() == 0 || w.types@.contains(a.normal) || w.types@.contains(a.dialog))
    &&& b.x1 - b.x0 >= 140
    &&& b.y1 - b.y0 >= 90
}

/// The boxes of the windows the pet may stand on, in stacking order.
pub open spec fn stand_boxes(ws: Seq<WindowProbe>, a: WindowAtoms, current: Option<u32>) -> Seq<
    WinBox,
>
    decreases ws.len(),
{
    if ws.len() == 0 {
        Seq::empty()
    } else {
        let w = ws.last();
        stand_boxes(ws.drop_last(), a, current) + if shown(w, a, current) && !is_popup(w, a)
            && standable(w, a) {
            seq![frame_box(w)]
        } else {
            Seq::empty()
        }
    }
}

/// The boxes of the notification popups on screen, in stacking order.
pub open spec fn popup_boxes(ws: Seq<WindowProbe>, a: WindowAtoms, current: Option<u32>) -> Seq<
    WinBox,
>
    decreases ws.len(),
{
    if ws.len() == 0 {
        Seq::empty()
    } else {
        let w = ws.last();
        popup_boxes(ws.drop_last(), a, current) + if shown(w, a, current) && is_popup(w, a) {
            seq![frame_box(w)]
        } else {
            Seq::empty()
        }
    }
}

pub open spec fn box_in_range(b: WinBox) -> bool {
    in_range(b.x0 as int) && in_range(b.y0 as int) && in_range(b.x1 as int) && in_range(
        b.y1 as int,
    )
}

pub open spec fn boxes_in_range(bs: Seq<WinBox>) -> bool {
    forall|k: int| 0 <= k < bs.len() ==> box_in_range(#[trigger] bs[k])
}

// ----------------------------------------------------------------------------
// Occlusion and walkable stretches
// ----------------------------------------------------------------------------

/// Does `c` cross the horizontal line of `r`'s top edge?
pub open spec fn crosses_top(c: WinBox, r: WinBox) -> bool {
    c.y0 < r.y0 && c.y1 > r.y0
}

/// The parts of `r`'s top edge that none of the windows `above` covers.
pub open spec fn visible(r: WinBox, above: Seq<WinBox>) -> Seq<(i64, i64)>
    decreases above.len(),
{
    if above.len() == 0 {
        seq![(r.x0, r.x1)]
    } else {
        let c = above.last();
        let prev = visible(r, above.drop_last());
        if crosses_top(c, r) {
            cut(prev, c.x0, c.x1)
        } else {
            prev
        }
    }
}

/// A column of `r`'s top edge is visible exactly when it lies on that edge
/// and no higher window that starts above the edge's line and reaches below
/// it spans that column. A higher window whose top is at or below the line,
/// or whose bottom is at or above it, removes nothing.
pub proof fn lemma_visible_points(r: WinBox, above: Seq<WinBox>, p: int)
    ensures
        covered(visible(r, above), p) == ((r.x0 <= p < r.x1) && forall|j: int|
            0 <= j < above.len() && (#[trigger] above[j]).y0 < r.y0 && above[j].y1 > r.y0 ==> !(above[j].x0 <= p
                < above[j].x1)),
    decreases above.len(),
{
    if above.len() == 0 {
        let v = visible(r, above);
        if covered(v, p) {
            let k = choose|k: int| 0 <= k < v.len() && v[k].0 <= p < #[trigger] v[k].1;
            assert(k == 0);
        }
        if r.x0 <= p < r.x1 {
            assert(v[0].0 <= p < v[0].1);
        }
    } else {
        let rest = above.drop_last();
        let c = above.last();
        lemma_visible_points(r, rest, p);
        if crosses_top(c, r) {
            lemma_cut_points(visible(r, rest), c.x0, c.x1, p);
        }
        assert forall|j: int| 0 <= j < rest.len() implies rest[j] == above[j] by {}
        let all_clear = forall|j: int|
            0 <= j < above.len() && (#[trigger] above[j]).y0 < r.y0 && above[j].y1 > r.y0 ==> !(above[j].x0 <= p
                < above[j].x1);
        let rest_clear = forall|j: int|
            0 <= j < rest.len() && (#[trigger] rest[j]).y0 < r.y0 && rest[j].y1 > r.y0 ==> !(rest[j].x0 <= p
                < rest[j].x1);
        if all_clear {
            assert(rest_clear);
        }
        assert(above[above.len() - 1] == c);
    }
}

/// The stretches of one window's top edge at height `y` that are at least
/// 90 pixels long, pulled in by 6 pixels at each end.
pub open spec fn ledges_of(y: i64, segs: Seq<(i64, i64)>) -> Seq<Ledge>
    decreases segs.len(),
{
    if segs.len() == 0 {
        Seq::empty()
    } else {
        let s = segs.last();
        ledges_of(y, segs.drop_last()) + if s.1 - s.0 >= 90 {
            seq![Ledge { x0: (s.0 + 6) as i64, x1: (s.1 - 6) as i64, y }]
        } else {
            Seq::empty()
        }
    }
}

/// The walkable stretches of the i-th window.
pub open spec fn window_ledges(rs: Seq<WinBox>, i: int) -> Seq<Ledge> {
    ledges_of(rs[i].y0, visible(rs[i], rs.subrange(i + 1, rs.len() as int)))
}

/// All walkable stretches of the first `n` windows, in order.
pub open spec fn ledges_upto(rs: Seq<WinBox>, n: int) -> Seq<Ledge>
    decreases n,
{
    if n <= 0 {
        Seq::empty()
    } else {
        ledges_upto(rs, n - 1) + window_ledges(rs, n - 1)
    }
}

/// The walkable stretches, among the first `n` windows, of window `id`.
pub open spec fn own_ledges_upto(rs: Seq<WinBox>, n: int, id: u32) -> Seq<Ledge>
    decreases n,
{
    if n <= 0 {
        Seq::empty()
    } else {
        own_ledges_upto(rs, n - 1, id) + if rs[n - 1].id == id {
            window_ledges(rs, n - 1)
        } else {
            Seq::empty()
        }
    }
}

pub open spec fn ledge_width(l: Ledge) -> int {
    l.x1 - l.x0
}

/// The first of the widest stretches.
pub open spec fn widest(ls: Seq<Ledge>) -> Option<Ledge>
    decreases ls.len(),
{
    if ls.len() == 0 {
        None
    } else {
        let l = ls.last();
        match widest(ls.drop_last()) {
            None => Some(l),
            Some(q) => if ledge_width(l) > ledge_width(q) {
                Some(l)
            } else {
                Some(q)
            },
        }
    }
}

/// The widest stretch is one of the stretches, none is wider, and there is
/// one whenever there are any.
pub proof fn lemma_widest(ls: Seq<Ledge>)
    ensures
        widest(ls) is Some <==> ls.len() > 0,
        widest(ls) matches Some(q) ==> ls.contains(q) && forall|k: int|
            0 <= k < ls.len() ==> ledge_width(#[trigger] ls[k]) <= ledge_width(q),
    decreases ls.len(),
{
    if ls.len() > 0 {
        let rest = ls.drop_last();
        lemma_widest(rest);
        assert forall|k: int| 0 <= k < rest.len() implies rest[k] == ls[k] by {}
        if let Some(q) = widest(rest) {
            let j = choose|j: int| 0 <= j < rest.len() && rest[j] == q;
            assert(ls[j] == q);
        }
        assert(ls[ls.len() - 1] == ls.last());
    }
}

/// Every reported stretch sits on its window's top line and is at least 78
/// pixels long.
pub proof fn lemma_ledges_wide(y: i64, segs: Seq<(i64, i64)>)
    requires
        segs_in_range(segs),
    ensures
        forall|k: int|
            0 <= k < ledges_of(y, segs).len() ==> (#[trigger] ledges_of(y, segs)[k]).y == y
                && ledges_of(y, segs)[k].x1 - ledges_of(y, segs)[k].x0 >= 78,
    decreases segs.len(),
{
    if segs.len() > 0 {
        let rest = segs.drop_last();
        assert forall|k: int| 0 <= k < rest.len() implies #[trigger] rest[k] == segs[k] by {}
        lemma_ledges_wide(y, rest);
        let s = segs.last();
        assert(segs[segs.len() - 1] == s);
        let prev = ledges_of(y, rest);
        assert forall|k: int| 0 <= k < ledges_of(y, segs).len() implies (#[trigger] ledges_of(
            y,
            segs,
        )[k]).y == y && ledge_width(ledges_of(y, segs)[k]) >= 78 by {
            if k < prev.len() {
                assert(ledges_of(y, segs)[k] == prev[k]);
            }
        }
    }
}

/// Of several stretches the first one of the greatest width is chosen.
pub proof fn lemma_widest_first(ls: Seq<Ledge>)
    ensures
        widest(ls) matches Some(q) ==> exists|k: int|
            0 <= k < ls.len() && ls[k] == q && (forall|j: int|
                0 <= j < ls.len() ==> (#[trigger] ls[j]).x1 - ls[j].x0 <= q.x1 - q.x0) && (forall|j: int|
                0 <= j < k ==> (#[trigger] ls[j]).x1 - ls[j].x0 < q.x1 - q.x0),
        widest(ls) is None ==> ls.len() == 0,
    decreases ls.len(),
{
    if ls.len() > 0 {
        let rest = ls.drop_last();
        lemma_widest_first(rest);
        assert forall|k: int| 0 <= k < rest.len() implies rest[k] == ls[k] by {}
        let l = ls.last();
        assert(ls[ls.len() - 1] == l);
        match widest(rest) {
            None => {
                assert(rest.len() == 0);
                assert(ls[0] == l);
            },
            Some(q) => {
                let k = choose|k: int|
                    0 <= k < rest.len() && rest[k] == q && (forall|j: int|
                        0 <= j < rest.len() ==> (#[trigger] rest[j]).x1 - rest[j].x0 <= q.x1 - q.x0) && (
                    forall|j: int| 0 <= j < k ==> (#[trigger] rest[j]).x1 - rest[j].x0 < q.x1 - q.x0);
                if l.x1 - l.x0 > q.x1 - q.x0 {
                    let kk = ls.len() - 1;
                    assert forall|j: int| 0 <= j < kk implies (#[trigger] ls[j]).x1 - ls[j].x0 < l.x1 - l.x0 by {
                        assert(ls[j] == rest[j]);
                    }
                } else {
                    assert(ls[k] == q);
                    assert forall|j: int| 0 <= j < ls.len() implies (#[trigger] ls[j]).x1 - ls[j].x0 <= q.x1 - q.x0 by {
                        if j < rest.len() {
                            assert(ls[j] == rest[j]);
                        }
                    }
                    assert forall|j: int| 0 <= j < k implies (#[trigger] ls[j]).x1 - ls[j].x0 < q.x1 - q.x0 by {
                        assert(ls[j] == rest[j]);
                    }
                }
            },
        }
    }
}

/// One more visible stretch adds a ledge exactly when it is at least 90
/// pixels long; the ledge is the stretch pulled in by 6 pixels at each end,
/// on the window's top line.
pub proof fn lemma_ledges_step(y: i64, segs: Seq<(i64, i64)>, s: (i64, i64))
    ensures
        ledges_of(y, segs.push(s)) == ledges_of(y, segs) + if s.1 - s.0 >= 90 {
            seq![Ledge { x0: (s.0 + 6) as i64, x1: (s.1 - 6) as i64, y }]
        } else {
            Seq::<Ledge>::empty()
        },
{
    assert(segs.push(s).drop_last() =~= segs);
    assert(segs.push(s).last() == s);
}

/// At most 32 stretches are reported: the first ones, in stacking order.
pub proof fn lemma_reported_prefix(rs: Seq<WinBox>)
    ensures
        reported_ledges(rs).len() == if ledges_upto(rs, rs.len() as int).len() <= 32 {
            ledges_upto(rs, rs.len() as int).len()
        } else {
            32
        },
        forall|k: int| 0 <= k < reported_ledges(rs).len() ==> #[trigger] reported_ledges(rs)[k] == ledges_upto(rs, rs.len() as int)[k],
{
}

/// A window's margins as the scout reads them: the four decoration margins
/// when at least four are set, none otherwise.
pub open spec fn margin_at(w: WindowProbe, k: int) -> int {
    if w.frame_extents is Some && w.frame_extents.unwrap()@.len() >= 4 {
        w.frame_extents.unwrap()@[k] as int
    } else {
        0
    }
}

/// Looking at one more window adds its box to the windows to stand on
/// exactly when it is not minimised, is on the current desktop (or on all),
/// was measured, is no notification popup, is no dock, desktop, menu,
/// toolbar, splash or utility window, is not fullscreen, is an ordinary
/// window or dialog (or untyped), and its box, its geometry shrunk by its
/// margins, is at least 140 by 90 pixels; it adds the box to the popups
/// exactly when it is a shown notification popup.
pub proof fn lemma_window_step(ws: Seq<WindowProbe>, w: WindowProbe, a: WindowAtoms, current: Option<u32>)
    ensures
        ({
            let t = w.types@;
            let g = w.geometry.unwrap();
            let x0 = g.x + margin_at(w, 0);
            let x1 = g.x + g.width - margin_at(w, 1);
            let y0 = g.y + margin_at(w, 2);
            let y1 = g.y + g.height - margin_at(w, 3);
            let seen = !w.states@.contains(a.hidden) && (match (current, w.desktop) {
                (Some(cd), Some(d)) => d == cd || d == u32::MAX,
                _ => true,
            }) && w.geometry is Some;
            let popup = t.contains(a.notification);
            let stands = seen && !popup && !(t.contains(a.dock) || t.contains(a.desktop) || t.contains(a.menu)
                || t.contains(a.toolbar) || t.contains(a.splash) || t.contains(a.utility)) && !w.states@.contains(
                a.fullscreen) && (t.len() == 0 || t.contains(a.normal) || t.contains(a.dialog)) && x1 - x0 >= 140
                && y1 - y0 >= 90;
            let b = WinBox { id: w.id, x0: x0 as i64, y0: y0 as i64, x1: x1 as i64, y1: y1 as i64 };
            &&& stand_boxes(ws.push(w), a, current) == stand_boxes(ws, a, current) + if stands {
                seq![b]
            } else {
                Seq::<WinBox>::empty()
            }
            &&& popup_boxes(ws.push(w), a, current) == popup_boxes(ws, a, current) + if seen && popup {
                seq![b]
            } else {
                Seq::<WinBox>::empty()
            }
        }),
{
    assert(ws.push(w).drop_last() =~= ws);
    assert(ws.push(w).last() == w);
}

pub open spec fn ledge_in_range(l: Ledge) -> bool {
    -0x200_0000_0000 <= l.x0 <= 0x200_0000_0000 && -0x200_0000_0000 <= l.x1 <= 0x200_0000_0000
}

/// The walkable stretches the scout reports: those of every standable
/// window, in stacking order, at most 32 of them.
pub open spec fn reported_ledges(rs: Seq<WinBox>) -> Seq<Ledge> {
    let all = ledges_upto(rs, rs.len() as int);
    if all.len() <= 32 {
        all
    } else {
        all.take(32)
    }
}

// ----------------------------------------------------------------------------
// Executable scout
// ----------------------------------------------------------------------------

fn has_atom(v: &Vec<u32>, a: u32) -> (b: bool)
    ensures
        b == v@.contains(a),
{
    let mut i: usize = 0;
    while i < v.len()
        invariant
            i <= v.len(),
            forall|k: int| 0 <= k < i ==> v@[k] != a,
        decreases v.len() - i,
    {
        if v[i] == a {
            assert(v@[i as int] == a);
            return true;
        }
        i += 1;
    }
    false
}

fn window_box(w: &WindowProbe) -> (b: WinBox)
    requires
        w.geometry is Some,
    ensures
        b == frame_box(*w),
        box_in_range(b),
{
    let g = w.geometry.unwrap();
    let (l, r, t, bt): (i64, i64, i64, i64) = match &w.frame_extents {
        Some(e) => {
            if e.len() >= 4 {
                (e[0] as i64, e[1] as i64, e[2] as i64, e[3] as i64)
            } else {
                (0, 0, 0, 0)
            }
        },
        None => (0, 0, 0, 0),
    };
    WinBox {
        id: w.id,
        x0: g.x as i64 + l,
        y0: g.y as i64 + t,
        x1: g.x as i64 + g.width as i64 - r,
        y1: g.y as i64 + g.height as i64 - bt,
    }
}

/// The part of a bottom-to-top stacking list the scout looks at: its
/// topmost thirty windows.
pub fn scouted_windows(stacking: &Vec<u32>) -> (top: Vec<u32>)
    ensures
        top@ == stacking@.subrange(
            if stacking.len() > 30 {
                stacking.len() - 30
            } else {
                0
            },
            stacking.len() as int,
        ),
{
    let start: usize = if stacking.len() > 30 {
        stacking.len() - 30
    } else {
        0
    };
    let mut top: Vec<u32> = Vec::new();
    let mut i: usize = start;
    while i < stacking.len()
        invariant
            start <= i <= stacking.len(),
            top@ == stacking@.subrange(start as int, i as int),
        decreases stacking.len() - i,
    {
        top.push(stacking[i]);
        proof {
            assert(stacking@.subrange(start as int, i + 1) =~= stacking@.subrange(
                start as int,
                i as int,
            ).push(stacking@[i as int]));
        }
        i += 1;
    }
    top
}

/// Sort the probed windows into boxes the pet may stand on and notification
/// popups.
fn classify(windows: &Vec<WindowProbe>, atoms: &WindowAtoms, current: Option<u32>) -> (res: (
    Vec<WinBox>,
    Vec<WinBox>,
))
    ensures
        res.0@ == stand_boxes(windows@, *atoms, current),
        res.1@ == popup_boxes(windows@, *atoms, current),
        boxes_in_range(res.0@),
{
    let mut rects: Vec<WinBox> = Vec::new();
    let mut popups: Vec<WinBox> = Vec::new();
    let mut i: usize = 0;
    while i < windows.len()
        invariant
            i <= windows.len(),
            rects@ == stand_boxes(windows@.take(i as int), *atoms, current),
            popups@ == popup_boxes(windows@.take(i as int), *atoms, current),
            boxes_in_range(rects@),
        decreases windows.len() - i,
    {
        let w = &windows[i];
        let hidden = has_atom(&w.states, atoms.hidden);
        let desk_ok = match (current, w.desktop) {
            (Some(cd), Some(d)) => d == cd || d == u32::MAX,
            _ => true,
        };
        if !hidden && desk_ok && w.geometry.is_some() {
            let b = window_box(w);
            if has_atom(&w.types, atoms.notification) {
                popups.push(b);
            } else {
                let excluded = has_atom(&w.types, atoms.dock) || has_atom(&w.types, atoms.desktop)
                    || has_atom(&w.types, atoms.menu) || has_atom(&w.types, atoms.toolbar)
                    || has_atom(&w.types, atoms.splash) || has_atom(&w.types, atoms.utility);
                let full = has_atom(&w.states, atoms.fullscreen);
                let kind_ok = w.types.len() == 0 || has_atom(&w.types, atoms.normal) || has_atom(
                    &w.types,
                    atoms.dialog,
                );
                if !excluded && !full && kind_ok && b.x1 - b.x0 >= 140 && b.y1 - b.y0 >= 90 {
                    rects.push(b);
                }
            }
        }
        proof {
            assert(windows@.take(i + 1).drop_last() =~= windows@.take(i as int));
            assert(windows@.take(i + 1).last() == windows@[i as int]);
        }
        i += 1;
    }
    proof {
        assert(windows@.take(windows.len() as int) =~= windows@);
    }
    (rects, popups)
}

/// The parts of the i-th window's top edge no later window covers.
fn visible_segments(rects: &Vec<WinBox>, i: usize) -> (segs: Vec<(i64, i64)>)
    requires
        i < rects.len(),
        boxes_in_range(rects@),
    ensures
        segs@ == visible(rects@[i as int], rects@.subrange(i + 1, rects.len() as int)),
        segs_in_range(segs@),
{
    let r = rects[i];
    let mut segs: Vec<(i64, i64)> = Vec::new();
    segs.push((r.x0, r.x1));
    proof {
        assert(box_in_range(rects@[i as int]));
        assert(rects@.subrange(i + 1, i + 1) =~= Seq::<WinBox>::empty());
        assert(segs@ =~= seq![(r.x0, r.x1)]);
    }
    let mut j: usize = i + 1;
    while j < rects.len()
        invariant
            i < j <= rects.len(),
            r == rects@[i as int],
            boxes_in_range(rects@),
            segs@ == visible(r, rects@.subrange(i + 1, j as int)),
            segs_in_range(segs@),
        decreases rects.len() - j,
    {
        let c = rects[j];
        proof {
            assert(box_in_range(rects@[j as int]));
        }
        if c.y0 < r.y0 && c.y1 > r.y0 {
            segs = subtract(&segs, (c.x0, c.x1));
        }
        proof {
            assert(rects@.subrange(i + 1, j + 1).drop_last() =~= rects@.subrange(
                i + 1,
                j as int,
            ));
            assert(rects@.subrange(i + 1, j + 1).last() == c);
        }
        j += 1;
    }
    segs
}

/// Every walkable stretch of every standable window, in order, together with
/// the widest one of the window `active`.
fn walkable_ledges(rects: &Vec<WinBox>, active: u32) -> (res: (Vec<Ledge>, Option<Ledge>))
    requires
        boxes_in_range(rects@),
    ensures
        res.0@ == ledges_upto(rects@, rects.len() as int),
        res.1 == widest(own_ledges_upto(rects@, rects.len() as int, active)),
{
    let n = rects.len();
    let mut platforms: Vec<Ledge> = Vec::new();
    let mut active_top: Option<Ledge> = None;
    let mut i: usize = 0;
    while i < n
        invariant
            i <= n,
            n == rects.len(),
            boxes_in_range(rects@),
            platforms@ == ledges_upto(rects@, i as int),
            active_top == widest(own_ledges_upto(rects@, i as int, active)),
            active_top matches Some(q) ==> ledge_in_range(q),
        decreases n - i,
    {
        let r = rects[i];
        let segs = visible_segments(rects, i);
        let ghost done = ledges_upto(rects@, i as int);
        let ghost own = own_ledges_upto(rects@, i as int, active);
        let mut k: usize = 0;
        while k < segs.len()
            invariant
                k <= segs.len(),
                segs_in_range(segs@),
                platforms@ == done + ledges_of(r.y0, segs@.take(k as int)),
                active_top == widest(
                    own + if r.id == active {
                        ledges_of(r.y0, segs@.take(k as int))
                    } else {
                        Seq::empty()
                    },
                ),
                active_top matches Some(q) ==> ledge_in_range(q),
            decreases segs.len() - k,
        {
            let (s0, s1) = segs[k];
            proof {
                assert(in_range(segs@[k as int].0 as int) && in_range(segs@[k as int].1 as int));
            }
            let ghost before = ledges_of(r.y0, segs@.take(k as int));
            proof {
                assert(segs@.take(k + 1).drop_last() =~= segs@.take(k as int));
                assert(segs@.take(k + 1).last() == (s0, s1));
            }
            if s1 - s0 >= 90 {
                let p = Ledge { x0: s0 + 6, x1: s1 - 6, y: r.y0 };
                proof {
                    assert(ledges_of(r.y0, segs@.take(k + 1)) == before + seq![p]);
                }
                if r.id == active {
                    let wider = match active_top {
                        None => true,
                        Some(q) => p.x1 - p.x0 > q.x1 - q.x0,
                    };
                    proof {
                        assert((own + before) + seq![p] =~= own + (before + seq![p]));
                        assert(((own + before) + seq![p]).drop_last() =~= own + before);
                        assert(((own + before) + seq![p]).last() == p);
                    }
                    if wider {
                        active_top = Some(p);
                    }
                } else {
                    assert(before + seq![p] == ledges_of(r.y0, segs@.take(k + 1)));
                }
                proof {
                    assert((done + before) + seq![p] =~= done + (before + seq![p]));
                }
                platforms.push(p);
            } else {
                proof {
                    assert(ledges_of(r.y0, segs@.take(k + 1)) =~= before);
                }
            }
            k += 1;
        }
        proof {
            assert(segs@.take(segs.len() as int) =~= segs@);
            assert(ledges_upto(rects@, i + 1) == done + window_ledges(rects@, i as int));
            assert(own_ledges_upto(rects@, i + 1, active) == own + if rects@[i as int].id
                == active {
                window_ledges(rects@, i as int)
            } else {
                Seq::empty()
            });
            if r.id != active {
                assert(own + Seq::<Ledge>::empty() =~= own);
            }
        }
        i += 1;
    }
    (platforms, active_top)
}

/// One look at the desktop: the walkable window tops (at most 32), the
/// focused window's widest one, and the notification popups.
pub fn survey(windows: &Vec<WindowProbe>, atoms: &WindowAtoms, active: u32, current: Option<u32>) -> (s:
    Survey)
    ensures
        s.platforms@ == reported_ledges(stand_boxes(windows@, *atoms, current)),
        s.active_top == widest(
            own_ledges_upto(
                stand_boxes(windows@, *atoms, current),
                stand_boxes(windows@, *atoms, current).len() as int,
                active,
            ),
        ),
        s.notifications@ == popup_boxes(windows@, *atoms, current),
{
    let (rects, notifications) = classify(windows, atoms, current);
    let (mut platforms, active_top) = walkable_ledges(&rects, active);
    platforms.truncate(32);
    Survey { platforms, active_top, notifications }
}

} // verus!

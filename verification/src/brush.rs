use crate::color::Rgba8;
use crate::gfx::Point2;
use crate::view::{ViewCoords, ViewExtent};
use crate::session::{paint_target_of, Blending, PaintTarget};
use vstd::prelude::*;

verus! {

/// Coordinates are kept within this bound so that line arithmetic cannot
/// overflow.
pub const COORD_BOUND: i32 = 0x0400_0000;

pub open spec fn absdiff(a: int, b: int) -> int {
    if a <= b {
        b - a
    } else {
        a - b
    }
}

/// The direction of a step from `a` towards `b`.
pub open spec fn dir(a: int, b: int) -> int {
    if a < b {
        1
    } else {
        -1
    }
}

pub open spec fn along(v0: int, s: int, n: int) -> int {
    if s == 1 {
        v0 + n
    } else {
        v0 - n
    }
}

pub open spec fn max(a: int, b: int) -> int {
    if a >= b {
        a
    } else {
        b
    }
}

/// `q` follows `p` by one step towards `(sx, sy)`: each coordinate moves by
/// at most one in its direction, and at least one moves.
pub open spec fn is_step(p: Point2<i32>, q: Point2<i32>, sx: int, sy: int) -> bool {
    &&& (q.x == p.x || q.x == p.x + sx)
    &&& (q.y == p.y || q.y == p.y + sy)
    &&& (q.x != p.x || q.y != p.y)
}

/// `pts` is a connected line of pixels from `p0` to `p1`, with one pixel
/// per step along the longer axis.
pub open spec fn is_line(pts: Seq<Point2<i32>>, p0: Point2<i32>, p1: Point2<i32>) -> bool {
    let a = absdiff(p0.x as int, p1.x as int);
    let b = absdiff(p0.y as int, p1.y as int);
    &&& pts.len() == max(a, b) + 1
    &&& pts[0] == p0
    &&& pts.last() == p1
    &&& forall|k: int|
        0 <= k < pts.len() - 1 ==> is_step(
            #[trigger] pts[k],
            pts[k + 1],
            dir(p0.x as int, p1.x as int),
            dir(p0.y as int, p1.y as int),
        )
}

pub open spec fn in_bounds(p: Point2<i32>) -> bool {
    -COORD_BOUND <= p.x <= COORD_BOUND && -COORD_BOUND <= p.y <= COORD_BOUND
}

/// The error term invariant of the line drawing loop, given the step counts.
spec fn err_ok(a: int, b: int, e: int) -> bool {
    if a > b {
        0 <= e < a
    } else {
        -b < e <= 0 || (a == 0 && b == 0)
    }
}

/// One step of the line drawing loop keeps its invariant: the step counts
/// never pass the distances, and the longer axis reaches its end exactly
/// when the shorter one does.
proof fn lemma_line_step(a: int, b: int, e0: int, ix: int, iy: int, e: int)
    requires
        0 <= a,
        0 <= b,
        a > b ==> 0 <= e0 < a,
        a <= b ==> -b < e0 <= 0 || (a == 0 && b == 0),
        0 <= ix <= a,
        0 <= iy <= b,
        a > b ==> (ix == a ==> iy == b),
        a <= b ==> (iy == b ==> ix == a),
        e == e0 - ix * b + iy * a,
        err_ok(a, b, e),
        ix < a || iy < b,
    ensures
        ({
            let mx = e > -a;
            let my = e < b;
            let ix2 = if mx { ix + 1 } else { ix };
            let iy2 = if my { iy + 1 } else { iy };
            let e2 = e - (if mx { b } else { 0 }) + (if my { a } else { 0 });
            &&& mx || my
            &&& a > b ==> mx
            &&& a <= b ==> my
            &&& 0 <= ix2 <= a
            &&& 0 <= iy2 <= b
            &&& a > b ==> (ix2 == a ==> iy2 == b)
            &&& a <= b ==> (iy2 == b ==> ix2 == a)
            &&& e2 == e0 - ix2 * b + iy2 * a
            &&& err_ok(a, b, e2)
        }),
{
    let mx = e > -a;
    let my = e < b;
    let ix2 = if mx { ix + 1 } else { ix };
    let iy2 = if my { iy + 1 } else { iy };
    let e2 = e - (if mx { b } else { 0 }) + (if my { a } else { 0 });
    assert(e2 == e0 - ix2 * b + iy2 * a) by (nonlinear_arith)
        requires
            e == e0 - ix * b + iy * a,
            ix2 == (if mx { ix + 1 } else { ix }),
            iy2 == (if my { iy + 1 } else { iy }),
            e2 == e - (if mx { b } else { 0 }) + (if my { a } else { 0 }),
    ;
    if a > b {
        assert(ix < a);
        assert(iy2 * a < a * (1 + b)) by (nonlinear_arith)
            requires
                e2 == e0 - ix2 * b + iy2 * a,
                e2 < a,
                e0 >= 0,
                ix2 <= a,
                b >= 0,
        ;
        assert(iy2 < 1 + b) by (nonlinear_arith)
            requires
                iy2 * a < a * (1 + b),
                a > 0,
        ;
        if ix2 == a {
            assert(iy2 * a > a * (b - 1)) by (nonlinear_arith)
                requires
                    e2 == e0 - ix2 * b + iy2 * a,
                    e2 >= 0,
                    e0 < a,
                    ix2 == a,
            ;
            assert(iy2 > b - 1) by (nonlinear_arith)
                requires
                    iy2 * a > a * (b - 1),
                    a > 0,
            ;
        }
    } else {
        assert(b > 0);
        assert(iy < b);
        assert(ix2 * b < b * (a + 1)) by (nonlinear_arith)
            requires
                e2 == e0 - ix2 * b + iy2 * a,
                e2 > -b,
                e0 <= 0,
                iy2 <= b,
                a >= 0,
        ;
        assert(ix2 < a + 1) by (nonlinear_arith)
            requires
                ix2 * b < b * (a + 1),
                b > 0,
        ;
        if iy2 == b {
            assert(ix2 * b > b * (a - 1)) by (nonlinear_arith)
                requires
                    e2 == e0 - ix2 * b + iy2 * a,
                    e2 <= 0,
                    e0 > -b,
                    iy2 == b,
            ;
            assert(ix2 > a - 1) by (nonlinear_arith)
                requires
                    ix2 * b > b * (a - 1),
                    b > 0,
            ;
        }
    }
}

/// Draw a line between two points, appending its pixels to `canvas`.
/// Uses Bresenham's line algorithm.
#[verifier::rlimit(40)]
pub fn line(p0: Point2<i32>, p1: Point2<i32>, canvas: &mut Vec<Point2<i32>>)
    requires
        in_bounds(p0),
        in_bounds(p1),
    ensures
        final(canvas)@.len() > old(canvas)@.len(),
        final(canvas)@.subrange(0, old(canvas)@.len() as int) == old(canvas)@,
        is_line(final(canvas)@.subrange(old(canvas)@.len() as int, final(canvas)@.len() as int), p0, p1),
{
    let ghost start = canvas@.len();
    let ghost old_canvas = canvas@;
    let dx = if p1.x >= p0.x { p1.x - p0.x } else { p0.x - p1.x };
    let dy = if p1.y >= p0.y { p1.y - p0.y } else { p0.y - p1.y };
    let sx: i32 = if p0.x < p1.x { 1 } else { -1 };
    let sy: i32 = if p0.y < p1.y { 1 } else { -1 };
    let ghost a = dx as int;
    let ghost b = dy as int;
    let mut err1: i32 = (if dx > dy { dx } else { -dy }) / 2;
    let ghost e0 = err1 as int;
    let mut p = p0;
    let ghost mut ix: int = 0;
    let ghost mut iy: int = 0;
    let mut err2: i32;
    loop
        invariant_except_break
            canvas@.len() >= start,
            canvas@.subrange(0, start as int) == old_canvas,
            a == absdiff(p0.x as int, p1.x as int),
            b == absdiff(p0.y as int, p1.y as int),
            sx == dir(p0.x as int, p1.x as int),
            sy == dir(p0.y as int, p1.y as int),
            dx == a,
            dy == b,
            0 <= a <= 2 * COORD_BOUND,
            0 <= b <= 2 * COORD_BOUND,
            a > b ==> 0 <= e0 < a,
            a <= b ==> -b < e0 <= 0 || (a == 0 && b == 0),
            0 <= ix <= a,
            0 <= iy <= b,
            a > b ==> (ix == a ==> iy == b),
            a <= b ==> (iy == b ==> ix == a),
            err1 == e0 - ix * b + iy * a,
            err_ok(a, b, err1 as int),
            p.x == along(p0.x as int, sx as int, ix),
            p.y == along(p0.y as int, sy as int, iy),
            canvas@.len() - start == (if a > b { ix } else { iy }),
            canvas@.len() > start ==> is_step(canvas@.last(), p, sx as int, sy as int),
            canvas@.len() > start ==> canvas@[start as int] == p0,
            canvas@.len() == start ==> p == p0,
            forall|k: int|
                start <= k < canvas@.len() - 1 ==> is_step(#[trigger] canvas@[k], canvas@[k + 1], sx as int, sy as int),
        ensures
            canvas@.len() > start,
            canvas@.subrange(0, start as int) == old_canvas,
            canvas@.last() == p1,
            canvas@[start as int] == p0,
            canvas@.len() - start == max(a, b) + 1,
            forall|k: int|
                start <= k < canvas@.len() - 1 ==> is_step(#[trigger] canvas@[k], canvas@[k + 1], sx as int, sy as int),
        decreases (a - ix) + (b - iy),
    {
        let ghost prev = canvas@;
        canvas.push(p);
        proof {
            assert(canvas@.subrange(0, start as int) =~= old_canvas);
            assert forall|k: int|
                start <= k < canvas@.len() - 1 implies is_step(#[trigger] canvas@[k], canvas@[k + 1], sx as int, sy as int) by {
                if k < canvas@.len() - 2 {
                    assert(canvas@[k] == prev[k] && canvas@[k + 1] == prev[k + 1]);
                } else {
                    assert(canvas@[k] == prev.last());
                }
            }
        }
        if p.x == p1.x && p.y == p1.y {
            proof {
                assert(ix == a && iy == b);
            }
            break;
        }
        proof {
            assert(ix < a || iy < b);
            lemma_line_step(a, b, e0, ix, iy, err1 as int);
        }
        err2 = err1;
        let ghost q = p;
        if err2 > -dx {
            err1 = err1 - dy;
            p.x = p.x + sx;
            proof {
                ix = ix + 1;
            }
        }
        if err2 < dy {
            err1 = err1 + dx;
            p.y = p.y + sy;
            proof {
                iy = iy + 1;
            }
        }
    }
    proof {
        let pts = canvas@.subrange(start as int, canvas@.len() as int);
        assert(canvas@.subrange(0, start as int) == old_canvas);
        assert forall|k: int| 0 <= k < pts.len() - 1 implies is_step(
            #[trigger] pts[k],
            pts[k + 1],
            dir(p0.x as int, p1.x as int),
            dir(p0.y as int, p1.y as int),
        ) by {
            assert(pts[k] == canvas@[start + k]);
            assert(pts[k + 1] == canvas@[start + k + 1]);
        }
    }
}

/// Input state of the brush.
#[derive(Clone, Copy, Debug, PartialEq, Eq, Structural)]
pub enum BrushState {
    /// Not currently drawing.
    NotDrawing,
    /// Drawing has just started.
    DrawStarted(ViewExtent),
    /// Drawing.
    Drawing(ViewExtent),
    /// Drawing has just ended.
    DrawEnded(ViewExtent),
}

/// Brush mode. Any number of these modes can be active at once.
#[derive(Clone, Copy, Debug, PartialEq, Eq, Structural, PartialOrd, Ord, Hash)]
pub enum BrushMode {
    /// Erase pixels.
    Erase,
    /// Draw on all frames at once.
    Multi,
    /// Pixel-perfect mode.
    Perfect,
    /// X-Symmetry mode.
    XSym,
    /// Y-Symmetry mode.
    YSym,
    /// X-Ray mode.
    XRay,
}

/// How a brush mode is written.
pub open spec fn brush_mode_name(m: BrushMode) -> Seq<char> {
    match m {
        BrushMode::Erase => "erase"@,
        BrushMode::Multi => "multi"@,
        BrushMode::Perfect => "perfect"@,
        BrushMode::XSym => "xsym"@,
        BrushMode::YSym => "ysym"@,
        BrushMode::XRay => "xray"@,
    }
}

impl BrushMode {
    /// How the mode is written, eg. `xsym`.
    pub fn name(&self) -> (s: &'static str)
        ensures
            s@ == brush_mode_name(*self),
    {
        match self {
            BrushMode::Erase => "erase",
            BrushMode::Multi => "multi",
            BrushMode::Perfect => "perfect",
            BrushMode::XSym => "xsym",
            BrushMode::YSym => "ysym",
            BrushMode::XRay => "xray",
        }
    }
}

/// Where a brush shape is anchored.
#[derive(Clone, Copy, Debug, PartialEq, Eq, Structural)]
pub enum Align {
    Center,
    BottomLeft,
}

/// Remove consecutive duplicates.
pub open spec fn dedup(s: Seq<Point2<i32>>) -> Seq<Point2<i32>>
    decreases s.len(),
{
    if s.len() <= 1 {
        s
    } else {
        let d = dedup(s.drop_last());
        if s.last() == s[s.len() - 2] {
            d
        } else {
            d.push(s.last())
        }
    }
}

proof fn lemma_dedup_last(s: Seq<Point2<i32>>)
    requires
        s.len() > 0,
    ensures
        dedup(s).len() > 0,
        dedup(s).last() == s.last(),
    decreases s.len(),
{
    if s.len() > 1 {
        lemma_dedup_last(s.drop_last());
    }
}

/// Remove consecutive duplicate points.
pub fn dedup_points(v: &mut Vec<Point2<i32>>)
    ensures
        final(v)@ == dedup(old(v)@),
{
    let mut out: Vec<Point2<i32>> = Vec::new();
    let mut i: usize = 0;
    while i < v.len()
        invariant
            i <= v@.len(),
            out@ == dedup(v@.subrange(0, i as int)),
            i > 0 ==> out@.len() > 0 && out@.last() == v@[i - 1],
        decreases v@.len() - i,
    {
        let x = v[i];
        let ghost pre = v@.subrange(0, i + 1);
        assert(pre.drop_last() =~= v@.subrange(0, i as int));
        if i == 0 {
            out.push(x);
            assert(out@ =~= pre);
        } else {
            let last = out[out.len() - 1];
            assert(pre[pre.len() - 2] == v@[i - 1]);
            if last != x {
                out.push(x);
            }
        }
        i = i + 1;
    }
    assert(v@.subrange(0, v@.len() as int) =~= v@);
    *v = out;
}

/// Whether three points form an 'L'.
pub open spec fn is_l_shape(prev: Point2<i32>, curr: Point2<i32>, next: Point2<i32>) -> bool {
    (prev.y == curr.y && next.x == curr.x) || (prev.x == curr.x && next.y == curr.y)
}

/// The middle points kept by the pixel-perfect filter, scanning the
/// windows of three points from index `i`: at an 'L' the corner is dropped
/// and the window after the next one is scanned.
pub open spec fn filter_windows(s: Seq<Point2<i32>>, i: int) -> Seq<Point2<i32>>
    decreases s.len() - i,
{
    if i < 0 || i + 3 > s.len() {
        Seq::empty()
    } else if is_l_shape(s[i], s[i + 1], s[i + 2]) {
        seq![s[i + 2]] + filter_windows(s, i + 2)
    } else {
        seq![s[i + 1]] + filter_windows(s, i + 1)
    }
}

/// The pixel-perfect filter of a stroke.
pub open spec fn perfect(s: Seq<Point2<i32>>) -> Seq<Point2<i32>> {
    if s.len() == 0 {
        Seq::empty()
    } else {
        seq![s[0]] + filter_windows(s, 0) + seq![s.last()]
    }
}

/// A stroke with `x` and `y` swapped at every point.
pub open spec fn swap_xy(s: Seq<Point2<i32>>) -> Seq<Point2<i32>> {
    s.map_values(|p: Point2<i32>| Point2 { x: p.y, y: p.x })
}

/// Scanning the windows of a stroke with `x` and `y` swapped gives the
/// points kept from the stroke, swapped.
proof fn lemma_windows_swap(s: Seq<Point2<i32>>, i: int)
    requires
        0 <= i,
    ensures
        filter_windows(swap_xy(s), i) == swap_xy(filter_windows(s, i)),
    decreases s.len() - i,
{
    let t = swap_xy(s);
    if i + 3 <= s.len() {
        assert(t[i] == (Point2 { x: s[i].y, y: s[i].x }));
        assert(t[i + 1] == (Point2 { x: s[i + 1].y, y: s[i + 1].x }));
        assert(t[i + 2] == (Point2 { x: s[i + 2].y, y: s[i + 2].x }));
        lemma_windows_swap(s, i + 1);
        lemma_windows_swap(s, i + 2);
        if (s[i].y == s[i + 1].y && s[i + 2].x == s[i + 1].x) || (s[i].x == s[i + 1].x && s[i + 2].y == s[i + 1].y) {
            assert(swap_xy(seq![s[i + 2]] + filter_windows(s, i + 2)) =~= seq![t[i + 2]] + swap_xy(filter_windows(s, i + 2)));
        } else {
            assert(swap_xy(seq![s[i + 1]] + filter_windows(s, i + 1)) =~= seq![t[i + 1]] + swap_xy(filter_windows(s, i + 1)));
        }
    } else {
        assert(swap_xy(filter_windows(s, i)) =~= Seq::<Point2<i32>>::empty());
    }
}

/// The pixel-perfect filter treats the two axes alike: filtering a stroke
/// with `x` and `y` swapped gives the filtered stroke, swapped. An 'L' that
/// goes up then right is dropped just as one that goes right then up.
pub proof fn law_perfect_symmetric(s: Seq<Point2<i32>>)
    ensures
        perfect(swap_xy(s)) == swap_xy(perfect(s)),
{
    lemma_windows_swap(s, 0);
    let t = swap_xy(s);
    if s.len() > 0 {
        assert(t[0] == (Point2 { x: s[0].y, y: s[0].x }));
        assert(t.last() == (Point2 { x: s.last().y, y: s.last().x }));
        assert(swap_xy(seq![s[0]] + filter_windows(s, 0) + seq![s.last()]) =~= seq![t[0]] + swap_xy(
            filter_windows(s, 0),
        ) + seq![t.last()]);
    } else {
        assert(swap_xy(perfect(s)) =~= Seq::<Point2<i32>>::empty());
    }
}

/// Where the first three points of a stroke make an 'L', in either
/// direction (across then along, or along then across), the filter drops
/// the corner: the point after the first is the third.
pub proof fn law_perfect_drops_corner(s: Seq<Point2<i32>>)
    requires
        s.len() >= 3,
        (s[0].y == s[1].y && s[2].x == s[1].x) || (s[0].x == s[1].x && s[2].y == s[1].y),
    ensures
        perfect(s)[0] == s[0],
        perfect(s)[1] == s[2],
{
    let w = filter_windows(s, 0);
    assert(w[0] == s[2]);
    assert((seq![s[0]] + w + seq![s.last()])[1] == w[0]);
}

/// Where the first three points of a stroke make no 'L', the filter keeps
/// the middle one.
pub proof fn law_perfect_keeps_straight(s: Seq<Point2<i32>>)
    requires
        s.len() >= 3,
        !((s[0].y == s[1].y && s[2].x == s[1].x) || (s[0].x == s[1].x && s[2].y == s[1].y)),
    ensures
        perfect(s)[0] == s[0],
        perfect(s)[1] == s[1],
{
    let w = filter_windows(s, 0);
    assert(w[0] == s[1]);
    assert((seq![s[0]] + w + seq![s.last()])[1] == w[0]);
}

/// Scanning the windows of a stroke from `k + j` on is scanning those of
/// the stroke without its first `k` points from `j` on.
proof fn lemma_windows_skip(s: Seq<Point2<i32>>, k: int, j: int)
    requires
        0 <= k <= s.len(),
        0 <= j,
    ensures
        filter_windows(s, k + j) == filter_windows(s.skip(k), j),
    decreases s.len() - j,
{
    let t = s.skip(k);
    if k + j + 3 <= s.len() {
        assert(t[j] == s[k + j] && t[j + 1] == s[k + j + 1] && t[j + 2] == s[k + j + 2]);
        lemma_windows_skip(s, k, j + 1);
        lemma_windows_skip(s, k, j + 2);
        assert(k + (j + 1) == k + j + 1);
        assert(k + (j + 2) == k + j + 2);
    }
}

/// What the pixel-perfect filter gives, step by step: nothing for no
/// points; the first point twice for one; both points for two. For more,
/// the first point comes first, followed by the filter of the rest of the
/// stroke from the second point where the first three make no 'L', or from
/// the third, skipping the corner, where they make one (across then along,
/// or along then across).
pub proof fn law_perfect_steps(s: Seq<Point2<i32>>)
    ensures
        s.len() == 0 ==> perfect(s) == Seq::<Point2<i32>>::empty(),
        s.len() == 1 ==> perfect(s) == seq![s[0], s[0]],
        s.len() == 2 ==> perfect(s) == seq![s[0], s[1]],
        s.len() >= 3 ==> perfect(s) == seq![s[0]] + perfect(
            s.skip(
                if (s[0].y == s[1].y && s[2].x == s[1].x) || (s[0].x == s[1].x && s[2].y == s[1].y) {
                    2
                } else {
                    1
                },
            ),
        ),
{
    if s.len() == 1 {
        assert(perfect(s) =~= seq![s[0], s[0]]);
    } else if s.len() == 2 {
        assert(perfect(s) =~= seq![s[0], s[1]]);
    } else if s.len() >= 3 {
        let l = (s[0].y == s[1].y && s[2].x == s[1].x) || (s[0].x == s[1].x && s[2].y == s[1].y);
        let k: int = if l { 2 } else { 1 };
        lemma_windows_skip(s, k, 0);
        let t = s.skip(k);
        assert(t[0] == s[k]);
        assert(t.last() == s.last());
        assert(perfect(s) =~= seq![s[0]] + perfect(t));
    } else {
        assert(perfect(s) =~= Seq::<Point2<i32>>::empty());
    }
}

/// Filter a brush stroke to remove 'L' shapes. This is often called
/// *pixel perfect* mode.
pub fn filter(stroke: &[Point2<i32>]) -> (out: Vec<Point2<i32>>)
    ensures
        out@ == perfect(stroke@),
{
    let mut filtered: Vec<Point2<i32>> = Vec::new();
    let n = stroke.len();
    if n == 0 {
        return filtered;
    }
    filtered.push(stroke[0]);
    let mut i: usize = 0;
    while n >= 3 && i <= n - 3
        invariant
            i <= n,
            n == stroke@.len(),
            n > 0,
            filtered@ + filter_windows(stroke@, i as int) == seq![stroke@[0]] + filter_windows(stroke@, 0),
        decreases n - i,
    {
        let prev = stroke[i];
        let curr = stroke[i + 1];
        let next = stroke[i + 2];
        if (prev.y == curr.y && next.x == curr.x) || (prev.x == curr.x && next.y == curr.y) {
            filtered.push(next);
            proof {
                assert(filtered@ + filter_windows(stroke@, i + 2) =~= filtered@.drop_last() + filter_windows(stroke@, i as int));
            }
            i = i + 2;
        } else {
            filtered.push(curr);
            proof {
                assert(filtered@ + filter_windows(stroke@, i + 1) =~= filtered@.drop_last() + filter_windows(stroke@, i as int));
            }
            i = i + 1;
        }
    }
    assert(filter_windows(stroke@, i as int) =~= Seq::<Point2<i32>>::empty());
    filtered.push(stroke[n - 1]);
    assert(filtered@ =~= perfect(stroke@));
    filtered
}

/// Division rounding towards zero, for a positive divisor.
pub open spec fn trunc_div(x: int, d: int) -> int {
    if x >= 0 {
        x / d
    } else {
        -((-x) / d)
    }
}

/// The point mirrored within its frame, along the x axis.
pub open spec fn mirror_x(p: ViewCoords<i32>, fw: int) -> (int, int) {
    let fi = trunc_div(p.x as int, fw);
    ((fi + 1) * fw - (p.x - fi * fw) - 1, p.y as int)
}

/// The point mirrored along the y axis.
pub open spec fn mirror_y(p: ViewCoords<i32>, fh: int) -> (int, int) {
    (p.x as int, fh - p.y - 1)
}

pub open spec fn coords(c: (int, int)) -> ViewCoords<i32> {
    ViewCoords { x: c.0 as i32, y: c.1 as i32 }
}

/// The point repeated at the same place in its frame and every frame after.
pub open spec fn frames_from(p: ViewCoords<i32>, fw: int, nframes: int) -> Seq<ViewCoords<i32>> {
    let fi = trunc_div(p.x as int, fw);
    let n = if nframes - fi > 0 { nframes - fi } else { 0 };
    Seq::new(n as nat, |i: int| coords((p.x + i * fw, p.y as int)))
}

pub open spec fn all_frames(qs: Seq<ViewCoords<i32>>, fw: int, nframes: int) -> Seq<ViewCoords<i32>>
    decreases qs.len(),
{
    if qs.len() == 0 {
        Seq::empty()
    } else {
        all_frames(qs.drop_last(), fw, nframes) + frames_from(qs.last(), fw, nframes)
    }
}

/// Whether a point is small enough for the brush expansion arithmetic.
pub open spec fn small(p: ViewCoords<i32>, bound: int) -> bool {
    -bound <= p.x <= bound && -bound <= p.y <= bound
}

/// All brush heads for a point: the point, its mirror images in the
/// symmetry modes, and its copies in the following frames in multi mode.
pub open spec fn expanded(
    p: ViewCoords<i32>,
    xsym: bool,
    ysym: bool,
    multi: bool,
    fw: int,
    fh: int,
    nframes: int,
) -> Seq<ViewCoords<i32>> {
    let s1 = seq![p];
    let s2 = if xsym {
        s1 + s1.map_values(|q: ViewCoords<i32>| coords(mirror_x(q, fw)))
    } else {
        s1
    };
    let s3 = if ysym {
        s2 + s2.map_values(|q: ViewCoords<i32>| coords(mirror_y(q, fh)))
    } else {
        s2
    };
    if multi {
        s3 + all_frames(s3, fw, nframes)
    } else {
        s3
    }
}

fn trunc_div_i32(x: i32, d: i32) -> (q: i32)
    requires
        d > 0,
        x > i32::MIN,
    ensures
        q == trunc_div(x as int, d as int),
        -(x as int) <= q * d <= x || x <= q * d <= -(x as int),
{
    if x >= 0 {
        proof {
            vstd::arithmetic::div_mod::lemma_fundamental_div_mod(x as int, d as int);
            vstd::arithmetic::div_mod::lemma_mod_bound(x as int, d as int);
            assert((x / d) * d <= x) by (nonlinear_arith)
                requires
                    x == d * (x / d) + x % d,
                    x % d >= 0,
            ;
            assert((x / d) * d >= 0) by (nonlinear_arith)
                requires
                    x >= 0,
                    d > 0,
            {
                vstd::arithmetic::div_mod::lemma_div_pos_is_pos(x as int, d as int);
            }
        }
        x / d
    } else {
        let nx = -x;
        proof {
            vstd::arithmetic::div_mod::lemma_fundamental_div_mod(nx as int, d as int);
            vstd::arithmetic::div_mod::lemma_mod_bound(nx as int, d as int);
            vstd::arithmetic::div_mod::lemma_div_pos_is_pos(nx as int, d as int);
            assert((nx / d) * d <= nx) by (nonlinear_arith)
                requires
                    nx == d * (nx / d) + nx % d,
                    nx % d >= 0,
            ;
            assert((nx / d) * d >= 0) by (nonlinear_arith)
                requires
                    nx / d >= 0,
                    d > 0,
            ;
            assert((-(nx / d)) * d == -((nx / d) * d)) by (nonlinear_arith);
        }
        -(nx / d)
    }
}

/// Mirror a point within its frame along the x axis.
fn mirror_x_exec(q: ViewCoords<i32>, fw: i32) -> (m: ViewCoords<i32>)
    requires
        0 < fw <= COORD_BOUND,
        small(q, COORD_BOUND as int),
    ensures
        m == coords(mirror_x(q, fw as int)),
        small(m, 5 * COORD_BOUND),
{
    let fi = trunc_div_i32(q.x, fw);
    proof {
        assert(-(COORD_BOUND as int) <= fi * fw <= COORD_BOUND);
        assert((fi + 1) * fw == fi * fw + fw) by (nonlinear_arith);
        assert(-(fw as int) < q.x - fi * fw < fw) by {
            if q.x >= 0 {
                vstd::arithmetic::div_mod::lemma_fundamental_div_mod(q.x as int, fw as int);
                vstd::arithmetic::div_mod::lemma_mod_bound(q.x as int, fw as int);
                assert(fi * fw == fw * (q.x / fw)) by (nonlinear_arith)
                    requires
                        fi == q.x / fw,
                ;
            } else {
                let nx: int = -(q.x as int);
                let fwi: int = fw as int;
                vstd::arithmetic::div_mod::lemma_fundamental_div_mod(nx, fwi);
                vstd::arithmetic::div_mod::lemma_mod_bound(nx, fwi);
                assert(fi * fwi == -(fwi * (nx / fwi))) by (nonlinear_arith)
                    requires
                        fi == -(nx / fwi),
                ;
            }
        }
    }
    let m = ViewCoords::new((fi + 1) * fw - (q.x - fi * fw) - 1, q.y);
    m
}

/// Expand a point into all brush heads, given the active modes.
pub fn expand_point(
    p: ViewCoords<i32>,
    xsym: bool,
    ysym: bool,
    multi: bool,
    extent: ViewExtent,
) -> (out: Vec<ViewCoords<i32>>)
    requires
        small(p, COORD_BOUND as int),
        0 < extent.fw <= COORD_BOUND,
        extent.fh <= COORD_BOUND,
        extent.fw * extent.nframes <= COORD_BOUND,
    ensures
        out@ == expanded(
            p,
            xsym,
            ysym,
            multi,
            extent.fw as int,
            extent.fh as int,
            extent.nframes as int,
        ),
{
    let fw = extent.fw as i32;
    let fh = extent.fh as i32;
    proof {
        assert(extent.nframes <= COORD_BOUND) by (nonlinear_arith)
            requires
                extent.fw * extent.nframes <= COORD_BOUND,
                extent.fw > 0,
        ;
    }
    let nframes = extent.nframes as i32;
    let mut pixels: Vec<ViewCoords<i32>> = vec![p];
    let ghost s1 = pixels@;
    assert(s1 =~= seq![p]);
    if xsym {
        let q = pixels[0];
        let m = mirror_x_exec(q, fw);
        pixels.push(m);
        assert(pixels@ =~= s1 + s1.map_values(|q: ViewCoords<i32>| coords(mirror_x(q, fw as int))));
    }
    let ghost s2 = pixels@;
    assert(forall|j: int| 0 <= j < s2.len() ==> small(#[trigger] s2[j], 5 * COORD_BOUND));
    if ysym {
        let n = pixels.len();
        let mut k: usize = 0;
        while k < n
            invariant
                fh == extent.fh,
                0 <= fh <= COORD_BOUND,
                n == s2.len(),
                k <= n,
                forall|j: int| 0 <= j < n ==> small(#[trigger] s2[j], 5 * COORD_BOUND),
                pixels@ == s2 + s2.subrange(0, k as int).map_values(
                    |q: ViewCoords<i32>| coords(mirror_y(q, fh as int)),
                ),
            decreases n - k,
        {
            let q = pixels[k];
            assert(q == s2[k as int]);
            pixels.push(ViewCoords::new(q.x, fh - q.y - 1));
            proof {
                assert(pixels@ =~= s2 + s2.subrange(0, k + 1).map_values(
                    |q: ViewCoords<i32>| coords(mirror_y(q, fh as int)),
                ));
            }
            k = k + 1;
        }
        assert(s2.subrange(0, n as int) =~= s2);
    }
    let ghost s3 = pixels@;
    assert(forall|j: int| 0 <= j < s3.len() ==> small(#[trigger] s3[j], 5 * COORD_BOUND));
    if multi {
        let n = pixels.len();
        let mut k: usize = 0;
        assert(s3.subrange(0, 0) =~= Seq::<ViewCoords<i32>>::empty());
        while k < n
            invariant
                fw == extent.fw,
                0 < fw <= COORD_BOUND,
                nframes == extent.nframes,
                0 <= nframes <= COORD_BOUND,
                fw * nframes <= COORD_BOUND,
                n == s3.len(),
                k <= n,
                forall|j: int| 0 <= j < n ==> small(#[trigger] s3[j], 5 * COORD_BOUND),
                pixels@ == s3 + all_frames(s3.subrange(0, k as int), fw as int, nframes as int),
            decreases n - k,
        {
            let q = pixels[k];
            assert(q == s3[k as int]);
            let fi = trunc_div_i32(q.x, fw);
            let count = nframes - fi;
            let ghost before = pixels@;
            let ghost fr = frames_from(q, fw as int, nframes as int);
            proof {
                assert(-(5 * COORD_BOUND) <= fi * fw <= 5 * COORD_BOUND);
                assert(count * fw <= 6 * COORD_BOUND) by (nonlinear_arith)
                    requires
                        count == nframes - fi,
                        fw * nframes <= COORD_BOUND,
                        fi * fw >= -(5 * COORD_BOUND),
                ;
            }
            let mut i: i32 = 0;
            while i < count
                invariant
                    0 <= i,
                    count == nframes - fi,
                    fi == trunc_div(q.x as int, fw as int),
                    count > 0 ==> i <= count,
                    count <= 0 ==> i == 0,
                    0 < fw <= COORD_BOUND,
                    count * fw <= 6 * COORD_BOUND,
                    small(q, 5 * COORD_BOUND),
                    fr == frames_from(q, fw as int, nframes as int),
                    pixels@ == before + fr.subrange(0, i as int),
                decreases count - i,
            {
                proof {
                    assert(0 <= i * fw < count * fw) by (nonlinear_arith)
                        requires
                            0 <= i < count,
                            fw > 0,
                    ;
                }
                pixels.push(ViewCoords::new(q.x + i * fw, q.y));
                proof {
                    assert(pixels@ =~= before + fr.subrange(0, i + 1));
                }
                i = i + 1;
            }
            proof {
                if count > 0 {
                    assert(i == count);
                    assert(fr.len() == count as int);
                    assert(i as int == fr.len());
                    assert(fr.subrange(0, fr.len() as int) =~= fr);
                } else {
                    assert(fr =~= Seq::<ViewCoords<i32>>::empty());
                    assert(fr.subrange(0, i as int) =~= fr);
                }
                let t = s3.subrange(0, k + 1);
                assert(t.drop_last() =~= s3.subrange(0, k as int));
                assert(pixels@ =~= s3 + all_frames(s3.subrange(0, k + 1), fw as int, nframes as int));
            }
            k = k + 1;
        }
        assert(s3.subrange(0, n as int) =~= s3);
    }
    pixels
}

/// The abstract state of a brush.
pub struct BrushView {
    pub size: usize,
    pub state: BrushState,
    pub stroke: Seq<Point2<i32>>,
    pub color: Rgba8,
    pub modes: Set<BrushMode>,
    pub curr: Point2<i32>,
    pub prev: Point2<i32>,
}

/// Brush context.
#[derive(Clone, Debug, PartialEq)]
pub struct Brush {
    /// Brush size in pixels.
    pub size: usize,
    /// Current brush state.
    pub state: BrushState,
    /// Current brush stroke.
    pub stroke: Vec<Point2<i32>>,
    /// Current stroke color.
    pub color: Rgba8,
    /// Currently active brush modes, each once.
    modes: Vec<BrushMode>,
    /// Current brush position.
    curr: Point2<i32>,
    /// Previous brush position.
    prev: Point2<i32>,
}

impl View for Brush {
    type V = BrushView;

    closed spec fn view(&self) -> BrushView {
        BrushView {
            size: self.size,
            state: self.state,
            stroke: self.stroke@,
            color: self.color,
            modes: self.modes@.to_set(),
            curr: self.curr,
            prev: self.prev,
        }
    }
}

/// How the stroke grows when the brush moves from `prev` to `curr`: a line
/// is appended, duplicates are removed, and in pixel-perfect mode corners
/// are filtered out.
pub open spec fn extended_stroke(
    stroke: Seq<Point2<i32>>,
    line: Seq<Point2<i32>>,
    perfect_mode: bool,
) -> Seq<Point2<i32>> {
    let d = dedup(stroke + line);
    if perfect_mode {
        perfect(d)
    } else {
        d
    }
}

proof fn lemma_push_no_duplicates(s: Seq<BrushMode>, x: BrushMode)
    requires
        s.no_duplicates(),
        !s.to_set().contains(x),
    ensures
        s.push(x).no_duplicates(),
{
    assert forall|i: int, j: int|
        0 <= i < s.push(x).len() && 0 <= j < s.push(x).len() && i != j implies s.push(x)[i] != s.push(x)[j] by {
        if i < s.len() && j < s.len() {
        } else if i < s.len() {
            assert(s.to_set().contains(s[i]));
        } else if j < s.len() {
            assert(s.to_set().contains(s[j]));
        }
    }
}

impl Brush {
    pub closed spec fn wf(&self) -> bool {
        &&& self.modes@.no_duplicates()
        &&& in_bounds(self.curr)
        &&& in_bounds(self.prev)
    }

    /// Whether the brush is well formed: its modes are each set once, and
    /// its positions lie within the coordinates a brush takes.
    pub fn is_well_formed(&self) -> (b: bool)
        ensures
            b == self.wf(),
    {
        let within = -COORD_BOUND <= self.curr.x && self.curr.x <= COORD_BOUND && -COORD_BOUND <= self.curr.y
            && self.curr.y <= COORD_BOUND && -COORD_BOUND <= self.prev.x && self.prev.x <= COORD_BOUND
            && -COORD_BOUND <= self.prev.y && self.prev.y <= COORD_BOUND;
        if !within {
            return false;
        }
        let n = self.modes.len();
        let mut i: usize = 0;
        while i < n
            invariant
                n == self.modes@.len(),
                i <= n,
                forall|a: int, b: int| 0 <= a < b < n && a < i ==> self.modes@[a] != self.modes@[b],
            decreases n - i,
        {
            let mut j: usize = i + 1;
            while j < n
                invariant
                    n == self.modes@.len(),
                    i < n,
                    i + 1 <= j <= n,
                    forall|a: int, b: int| 0 <= a < b < n && a < i ==> self.modes@[a] != self.modes@[b],
                    forall|b: int| i < b < j ==> self.modes@[i as int] != self.modes@[b],
                decreases n - j,
            {
                if self.modes[i] == self.modes[j] {
                    assert(!self.modes@.no_duplicates());
                    return false;
                }
                j = j + 1;
            }
            i = i + 1;
        }
        true
    }

    /// The default brush: size one, not drawing, no modes.
    pub fn default() -> (b: Self)
        ensures
            b.wf(),
            b@.size == 1,
            b@.state == BrushState::NotDrawing,
            b@.stroke == Seq::<Point2<i32>>::empty(),
            b@.color == (Rgba8 { r: 0, g: 0, b: 0, a: 0 }),
            b@.modes == Set::<BrushMode>::empty(),
            b@.curr == (Point2 { x: 0i32, y: 0i32 }),
            b@.prev == (Point2 { x: 0i32, y: 0i32 }),
    {
        let b = Self {
            size: 1,
            state: BrushState::NotDrawing,
            stroke: Vec::new(),
            color: Rgba8::transparent(),
            modes: Vec::new(),
            curr: Point2::new(0, 0),
            prev: Point2::new(0, 0),
        };
        assert(b.modes@.to_set() =~= Set::<BrushMode>::empty());
        b
    }

    /// Check whether the given mode is active.
    pub fn is_set(&self, m: BrushMode) -> (b: bool)
        ensures
            b == self@.modes.contains(m),
    {
        let mut i: usize = 0;
        while i < self.modes.len()
            invariant
                i <= self.modes@.len(),
                forall|j: int| 0 <= j < i ==> self.modes@[j] != m,
            decreases self.modes@.len() - i,
        {
            if self.modes[i] == m {
                assert(self.modes@.to_set().contains(self.modes@[i as int]));
                return true;
            }
            i = i + 1;
        }
        assert(!self.modes@.to_set().contains(m)) by {
            if self.modes@.to_set().contains(m) {
                let j = choose|j: int| 0 <= j < self.modes@.len() && self.modes@[j] == m;
            }
        }
        false
    }

    /// Activate the given brush mode. Returns whether it was inactive.
    pub fn set(&mut self, m: BrushMode) -> (added: bool)
        requires
            old(self).wf(),
        ensures
            final(self).wf(),
            added == !old(self)@.modes.contains(m),
            final(self)@ == (BrushView { modes: old(self)@.modes.insert(m), ..old(self)@ }),
    {
        if self.is_set(m) {
            assert(self.modes@.to_set().insert(m) =~= self.modes@.to_set());
            return false;
        }
        let ghost old_modes = self.modes@;
        self.modes.push(m);
        proof {
            old_modes.lemma_push_to_set_commute(m);
            lemma_push_no_duplicates(old_modes, m);
        }
        true
    }

    /// De-activate the given brush mode. Returns whether it was active.
    pub fn unset(&mut self, m: BrushMode) -> (removed: bool)
        requires
            old(self).wf(),
        ensures
            final(self).wf(),
            removed == old(self)@.modes.contains(m),
            final(self)@ == (BrushView { modes: old(self)@.modes.remove(m), ..old(self)@ }),
    {
        let ghost old_modes = self.modes@;
        let mut kept: Vec<BrushMode> = Vec::new();
        let mut found = false;
        let mut i: usize = 0;
        while i < self.modes.len()
            invariant
                i <= self.modes@.len(),
                self.modes@ == old_modes,
                old_modes.no_duplicates(),
                kept@.no_duplicates(),
                kept@.to_set() == old_modes.subrange(0, i as int).to_set().remove(m),
                found == old_modes.subrange(0, i as int).to_set().contains(m),
            decreases self.modes@.len() - i,
        {
            let x = self.modes[i];
            let ghost pre = old_modes.subrange(0, i as int);
            proof {
                assert(old_modes.subrange(0, i + 1) =~= pre.push(x));
                pre.lemma_push_to_set_commute(x);
                if pre.to_set().contains(x) {
                    let j = choose|j: int| 0 <= j < pre.len() && pre[j] == x;
                    assert(old_modes[j] == old_modes[i as int]);
                }
            }
            if x == m {
                found = true;
                proof {
                    assert(pre.to_set().insert(x).remove(m) =~= pre.to_set().remove(m));
                }
            } else {
                let ghost k0 = kept@;
                kept.push(x);
                proof {
                    k0.lemma_push_to_set_commute(x);
                    lemma_push_no_duplicates(k0, x);
                    assert(pre.to_set().insert(x).remove(m) =~= pre.to_set().remove(m).insert(x));
                }
            }
            i = i + 1;
        }
        assert(old_modes.subrange(0, old_modes.len() as int) =~= old_modes);
        self.modes = kept;
        found
    }

    /// Toggle the given brush mode.
    pub fn toggle(&mut self, m: BrushMode)
        requires
            old(self).wf(),
        ensures
            final(self).wf(),
            final(self)@ == (BrushView {
                modes: if old(self)@.modes.contains(m) {
                    old(self)@.modes.remove(m)
                } else {
                    old(self)@.modes.insert(m)
                },
                ..old(self)@
            }),
    {
        if self.is_set(m) {
            self.unset(m);
        } else {
            self.set(m);
        }
    }

    /// The brush size.
    pub fn size(&self) -> (n: usize)
        ensures
            n == self@.size,
    {
        self.size
    }

    /// Set the brush size.
    pub fn set_size(&mut self, size: usize)
        requires
            old(self).wf(),
        ensures
            final(self).wf(),
            final(self)@ == (BrushView { size, ..old(self)@ }),
    {
        self.size = size;
    }

    /// Check whether the brush is currently drawing.
    pub fn is_drawing(&self) -> (b: bool)
        ensures
            b == (self@.state != BrushState::NotDrawing),
    {
        match self.state {
            BrushState::NotDrawing => false,
            _ => true,
        }
    }

    /// Whether a stroke is under way: drawing has started or goes on.
    pub fn is_drawing_now(&self) -> (b: bool)
        ensures
            b == (self@.state is DrawStarted || self@.state is Drawing),
    {
        match self.state {
            BrushState::DrawStarted(_) | BrushState::Drawing(_) => true,
            _ => false,
        }
    }

    /// De-activate all modes.
    pub fn reset(&mut self)
        requires
            old(self).wf(),
        ensures
            final(self).wf(),
            final(self)@ == (BrushView { modes: Set::<BrushMode>::empty(), ..old(self)@ }),
    {
        self.modes = Vec::new();
        assert(self.modes@.to_set() =~= Set::<BrushMode>::empty());
    }

    /// Run every frame by the session: a stroke that has ended is cleared.
    pub fn update(&mut self)
        requires
            old(self).wf(),
        ensures
            final(self).wf(),
            old(self)@.state is DrawEnded ==> final(self)@ == (BrushView {
                state: BrushState::NotDrawing,
                stroke: Seq::<Point2<i32>>::empty(),
                ..old(self)@
            }),
            !(old(self)@.state is DrawEnded) ==> final(self)@ == old(self)@,
    {
        if let BrushState::DrawEnded(_) = self.state {
            self.state = BrushState::NotDrawing;
            self.stroke.clear();
        }
    }

    /// Start drawing. Called when input is first pressed.
    pub fn start_drawing(&mut self, p: Point2<i32>, color: Rgba8, extent: ViewExtent)
        requires
            old(self).wf(),
            in_bounds(p),
        ensures
            final(self).wf(),
            final(self)@.state == BrushState::Drawing(extent),
            final(self)@.color == color,
            final(self)@.curr == p,
            final(self)@.prev == p,
            final(self)@.modes == old(self)@.modes,
            final(self)@.size == old(self)@.size,
            exists|l: Seq<Point2<i32>>|
                is_line(l, p, p) && final(self)@.stroke == extended_stroke(
                    Seq::empty(),
                    l,
                    old(self)@.modes.contains(BrushMode::Perfect),
                ),
    {
        self.state = BrushState::DrawStarted(extent);
        self.color = color;
        self.stroke = Vec::new();
        self.draw(p);
    }

    /// Draw. Called while input is pressed.
    pub fn draw(&mut self, p: Point2<i32>)
        requires
            old(self).wf(),
            in_bounds(p),
            old(self)@.state is DrawStarted || old(self)@.state is Drawing,
        ensures
            final(self).wf(),
            final(self)@.curr == p,
            final(self)@.prev == (if old(self)@.state is DrawStarted { p } else { old(self)@.curr }),
            exists|l: Seq<Point2<i32>>|
                is_line(l, final(self)@.prev, p) && final(self)@.stroke == extended_stroke(
                    old(self)@.stroke,
                    l,
                    old(self)@.modes.contains(BrushMode::Perfect),
                ),
            final(self)@.state == (match old(self)@.state {
                BrushState::DrawStarted(e) => BrushState::Drawing(e),
                s => s,
            }),
            final(self)@.color == old(self)@.color,
            final(self)@.modes == old(self)@.modes,
            final(self)@.size == old(self)@.size,
    {
        self.prev = if let BrushState::DrawStarted(_) = self.state {
            p
        } else {
            self.curr
        };
        self.curr = p;
        let ghost before = self.stroke@;
        line(self.prev, self.curr, &mut self.stroke);
        let ghost l = self.stroke@.subrange(before.len() as int, self.stroke@.len() as int);
        assert(self.stroke@ =~= before + l);
        dedup_points(&mut self.stroke);
        if self.is_set(BrushMode::Perfect) {
            self.stroke = filter(self.stroke.as_slice());
        }
        match self.state {
            BrushState::DrawStarted(extent) => {
                self.state = BrushState::Drawing(extent);
            },
            _ => {},
        }
        assert(is_line(l, self.prev, p));
    }

    /// Stop drawing. Called when input is released.
    pub fn stop_drawing(&mut self)
        requires
            old(self)@.state is DrawStarted || old(self)@.state is Drawing,
        ensures
            old(self).wf() ==> final(self).wf(),
            final(self)@ == (BrushView {
                state: match old(self)@.state {
                    BrushState::DrawStarted(e) => BrushState::DrawEnded(e),
                    BrushState::Drawing(e) => BrushState::DrawEnded(e),
                    s => s,
                },
                ..old(self)@
            }),
    {
        match self.state {
            BrushState::DrawStarted(ex) | BrushState::Drawing(ex) => {
                self.state = BrushState::DrawEnded(ex);
            },
            _ => {},
        }
    }

    /// Expand a point into all brush heads.
    pub fn expand(&self, p: ViewCoords<i32>, extent: ViewExtent) -> (out: Vec<ViewCoords<i32>>)
        requires
            small(p, COORD_BOUND as int),
            0 < extent.fw <= COORD_BOUND,
            extent.fh <= COORD_BOUND,
            extent.fw * extent.nframes <= COORD_BOUND,
        ensures
            out@ == expanded(
                p,
                self@.modes.contains(BrushMode::XSym),
                self@.modes.contains(BrushMode::YSym),
                self@.modes.contains(BrushMode::Multi),
                extent.fw as int,
                extent.fh as int,
                extent.nframes as int,
            ),
    {
        let xsym = self.is_set(BrushMode::XSym);
        let ysym = self.is_set(BrushMode::YSym);
        let multi = self.is_set(BrushMode::Multi);
        expand_point(p, xsym, ysym, multi, extent)
    }
}

pub(crate) fn copy_vec<T: Copy>(v: &Vec<T>) -> (r: Vec<T>)
    ensures
        r@ == v@,
{
    let mut r: Vec<T> = Vec::new();
    let mut i: usize = 0;
    while i < v.len()
        invariant
            i <= v@.len(),
            r@ == v@.take(i as int),
        decreases v@.len() - i,
    {
        r.push(v[i]);
        assert(r@ =~= v@.take(i + 1));
        i = i + 1;
    }
    assert(v@.take(i as int) =~= v@);
    r
}

impl Brush {
    /// A copy of the brush.
    pub fn duplicate(&self) -> (b: Self)
        ensures
            b@ == self@,
            self.wf() ==> b.wf(),
    {
        Brush {
            size: self.size,
            state: self.state,
            stroke: copy_vec(&self.stroke),
            color: self.color,
            modes: copy_vec(&self.modes),
            curr: self.curr,
            prev: self.prev,
        }
    }

    /// Where the output of the brush is painted in this frame.
    pub fn paint_target(&self) -> (t: Option<PaintTarget>)
        ensures
            t == paint_target_of(self@.state, self@.modes.contains(BrushMode::Erase)),
    {
        match self.state {
            BrushState::NotDrawing => None,
            _ => if self.is_set(BrushMode::Erase) {
                Some(PaintTarget::Final(Blending::Constant))
            } else {
                match self.state {
                    BrushState::DrawEnded(_) => Some(PaintTarget::Final(Blending::Alpha)),
                    _ => Some(PaintTarget::Draft),
                }
            },
        }
    }
}

} // verus!

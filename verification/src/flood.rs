use crate::color::Rgba8;
use crate::gfx::Point2;
use crate::rect::Rect;
use vstd::prelude::*;

verus! {

/// Index of the pixel at column `x` of row `y`, rows counted from the top.
pub open spec fn idx(x: int, y: int, w: int) -> int {
    x + y * w
}

/// Number of pixels of `s` that have the color `c`.
pub open spec fn count_color(s: Seq<Rgba8>, c: Rgba8) -> nat
    decreases s.len(),
{
    if s.len() == 0 {
        0
    } else {
        count_color(s.drop_last(), c) + if s.last() == c {
            1nat
        } else {
            0nat
        }
    }
}

proof fn lemma_count_update(s: Seq<Rgba8>, i: int, v: Rgba8, c: Rgba8)
    requires
        0 <= i < s.len(),
        s[i] == c,
        v != c,
    ensures
        count_color(s.update(i, v), c) + 1 == count_color(s, c),
    decreases s.len(),
{
    if i < s.len() - 1 {
        assert(s.update(i, v).drop_last() =~= s.drop_last().update(i, v));
        lemma_count_update(s.drop_last(), i, v, c);
    } else {
        assert(s.update(i, v).drop_last() =~= s.drop_last());
    }
}

/// Whether `cur` is `orig` with some pixels of color `t` changed to `r`.
pub open spec fn fill_of(orig: Seq<Rgba8>, cur: Seq<Rgba8>, t: Rgba8, r: Rgba8) -> bool {
    &&& cur.len() == orig.len()
    &&& forall|i: int| 0 <= i < cur.len() ==> #[trigger] cur[i] == orig[i] || (orig[i] == t && cur[i] == r)
}

/// Whether the horizontal span `rect`, in a grid of height `h` whose rows are
/// counted from the bottom, holds the pixel at column `x` of row `y`, rows
/// counted from the top.
pub open spec fn in_span(rect: Rect<usize>, h: int, x: int, y: int) -> bool {
    rect.x1 <= x < rect.x2 && y == h - 1 - rect.y1
}

/// Whether some span of `rects` holds the pixel at `(x, y)`.
pub open spec fn covered(rects: Seq<(Rect<usize>, Rgba8)>, h: int, x: int, y: int) -> bool {
    exists|k: int| 0 <= k < rects.len() && #[trigger] in_span(rects[k].0, h, x, y)
}

/// Whether `rect` is a span of one row, within a grid of `w` by `h` pixels.
pub open spec fn span_within(rect: Rect<usize>, w: int, h: int) -> bool {
    rect.x1 <= rect.x2 <= w && rect.y1 < h && rect.y2 == rect.y1 + 1
}

/// Fills the area around a starting point that has the starting point's
/// color with another color.
pub struct FloodFiller {
    pixels: Vec<Rgba8>,
    width: usize,
    height: usize,
    replacement_color: Rgba8,
    target_color: Rgba8,
    start: Point2<usize>,
}

impl FloodFiller {
    /// The pixels, rows from the top.
    pub closed spec fn grid(&self) -> Seq<Rgba8> {
        self.pixels@
    }

    pub closed spec fn grid_width(&self) -> int {
        self.width as int
    }

    pub closed spec fn grid_height(&self) -> int {
        self.height as int
    }

    /// The starting point, row counted from the top.
    pub closed spec fn start_point(&self) -> (int, int) {
        (self.start.x as int, self.start.y as int)
    }

    /// The color being replaced: that of the starting point.
    pub closed spec fn target(&self) -> Rgba8 {
        self.target_color
    }

    pub closed spec fn replacement(&self) -> Rgba8 {
        self.replacement_color
    }

    pub closed spec fn wf(&self) -> bool {
        &&& self.pixels@.len() == self.width * self.height
        &&& self.start.x < self.width
        &&& self.start.y < self.height
        &&& self.pixels@[idx(self.start.x as int, self.start.y as int, self.width as int)]
            == self.target_color
    }

    /// A flood filler for a grid of `width` by `height` pixels stored from
    /// the top row, starting at `(x, y)` with `y` counted from the bottom.
    /// There is none when the point lies outside the grid.
    pub fn new(pixels: Vec<Rgba8>, width: usize, height: usize, x: usize, y: usize, replacement_color: Rgba8) -> (r: Option<FloodFiller>)
        requires
            pixels@.len() == width * height,
        ensures
            (r is Some) == (x < width && y < height),
            r matches Some(f) ==> {
                &&& f.wf()
                &&& f.grid() == pixels@
                &&& f.grid_width() == width
                &&& f.grid_height() == height
                &&& f.start_point() == (x as int, height - y - 1)
                &&& f.target() == pixels@[idx(x as int, height - y - 1, width as int)]
                &&& f.replacement() == replacement_color
            },
    {
        if y >= height || x >= width {
            return None;
        }
        let sy = height - y - 1;
        let n = pixels.len();
        proof {
            lemma_idx_bounds(x as int, sy as int, width as int, height as int);
            assert(x + sy * width < width * height) by (nonlinear_arith)
                requires
                    x < width,
                    sy < height,
            ;
        }
        let target_color = pixels[x + sy * width];
        Some(FloodFiller {
            pixels,
            width,
            height,
            replacement_color,
            target_color,
            start: Point2::new(x, sy),
        })
    }
}

proof fn lemma_idx_bounds(x: int, y: int, w: int, h: int)
    requires
        0 <= x < w,
        0 <= y < h,
    ensures
        0 <= idx(x, y, w) < w * h,
        0 <= y * w <= idx(x, y, w),
{
    assert(0 <= y * w) by (nonlinear_arith)
        requires
            0 <= y,
            0 <= w,
    ;
    assert(0 <= x + y * w < w * h) by (nonlinear_arith)
        requires
            0 <= x < w,
            0 <= y < h,
    ;
}

proof fn lemma_idx_unique(x1: int, y1: int, x2: int, y2: int, w: int)
    requires
        0 <= x1 < w,
        0 <= x2 < w,
        0 <= y1,
        0 <= y2,
        idx(x1, y1, w) == idx(x2, y2, w),
    ensures
        x1 == x2 && y1 == y2,
{
    assert(y1 == y2) by (nonlinear_arith)
        requires
            0 <= x1 < w,
            0 <= x2 < w,
            0 <= y1,
            0 <= y2,
            x1 + y1 * w == x2 + y2 * w,
    ;
}

/// Sets the pixel at `(x, y)` to `r` if it lies in the grid and has color `t`.
fn try_set_at(pixels: &mut Vec<Rgba8>, w: usize, h: usize, x: usize, y: usize, t: Rgba8, r: Rgba8) -> (set: bool)
    requires
        old(pixels)@.len() == w * h,
    ensures
        set == (x < w && y < h && old(pixels)@[idx(x as int, y as int, w as int)] == t),
        set ==> final(pixels)@ == old(pixels)@.update(idx(x as int, y as int, w as int), r),
        !set ==> final(pixels)@ == old(pixels)@,
{
    if x < w && y < h {
        let n = pixels.len();
        proof {
            lemma_idx_bounds(x as int, y as int, w as int, h as int);
        }
        let i = x + y * w;
        if pixels[i] != t {
            false
        } else {
            pixels.set(i, r);
            true
        }
    } else {
        false
    }
}

/// What looking at `(x, y)` does to the stack `s` and the edge flag: a
/// point in the grid of color `t` is pushed where it follows an edge, which
/// it then closes; a point of another color opens an edge; a point outside
/// the grid changes nothing.
pub open spec fn pushed(
    pixels: Seq<Rgba8>,
    w: int,
    h: int,
    x: int,
    y: int,
    t: Rgba8,
    edge: bool,
    s: Seq<Point2<usize>>,
) -> (Seq<Point2<usize>>, bool) {
    if x < w && y < h {
        if pixels[x + y * w] == t {
            if edge {
                (s.push(Point2 { x: x as usize, y: y as usize }), false)
            } else {
                (s, edge)
            }
        } else {
            (s, true)
        }
    } else {
        (s, edge)
    }
}

/// What looking at the rows above and below `(x, y)` does to the stack `s`
/// and the flags of the edges above and below.
pub open spec fn pushed_above_below(
    pixels: Seq<Rgba8>,
    w: int,
    h: int,
    x: int,
    y: int,
    t: Rgba8,
    up: bool,
    down: bool,
    s: Seq<Point2<usize>>,
) -> (Seq<Point2<usize>>, bool, bool) {
    let (s1, up1) = if y > 0 {
        pushed(pixels, w, h, x, y - 1, t, up, s)
    } else {
        (s, up)
    };
    let (s2, down1) = if y < h - 1 {
        pushed(pixels, w, h, x, y + 1, t, down, s1)
    } else {
        (s1, down)
    };
    (s2, up1, down1)
}

/// Pushes `(x, y)` when it has color `t` and follows an edge.
fn push_on_change(
    pixels: &Vec<Rgba8>,
    w: usize,
    h: usize,
    x: usize,
    y: usize,
    t: Rgba8,
    edge: &mut bool,
    stack: &mut Vec<Point2<usize>>,
)
    requires
        pixels@.len() == w * h,
    ensures
        (final(stack)@, *final(edge)) == pushed(pixels@, w as int, h as int, x as int, y as int, t, *old(edge), old(stack)@),
        final(stack)@ == old(stack)@ || (x < w && y < h && final(stack)@ == old(stack)@.push(
            Point2 { x, y },
        )),
{
    if x < w && y < h {
        let n = pixels.len();
        proof {
            lemma_idx_bounds(x as int, y as int, w as int, h as int);
        }
        if pixels[x + y * w] == t {
            if *edge {
                // An edge: a new horizontal span starts here.
                stack.push(Point2::new(x, y));
                *edge = false;
            }
        } else {
            *edge = true;
        }
    }
}

/// Looks for edges in the rows above and below `(x, y)`.
fn look_above_below(
    pixels: &Vec<Rgba8>,
    w: usize,
    h: usize,
    x: usize,
    y: usize,
    t: Rgba8,
    up: &mut bool,
    down: &mut bool,
    stack: &mut Vec<Point2<usize>>,
)
    requires
        pixels@.len() == w * h,
        y < h,
    ensures
        (final(stack)@, *final(up), *final(down)) == pushed_above_below(
            pixels@,
            w as int,
            h as int,
            x as int,
            y as int,
            t,
            *old(up),
            *old(down),
            old(stack)@,
        ),
        old(stack)@.len() <= final(stack)@.len() <= old(stack)@.len() + 2,
        forall|k: int| 0 <= k < old(stack)@.len() ==> #[trigger] final(stack)@[k] == old(stack)@[k],
        forall|k: int|
            old(stack)@.len() <= k < final(stack)@.len() ==> (#[trigger] final(stack)@[k]).x < w
                && final(stack)@[k].y < h,
{
    let ghost s0 = stack@;
    if y > 0 {
        push_on_change(pixels, w, h, x, y - 1, t, up, stack);
    }
    let ghost s1 = stack@;
    if y < h - 1 {
        push_on_change(pixels, w, h, x, y + 1, t, down, stack);
    }
}

/// The invariant of a fill in progress: `cur` is `orig` with some pixels of
/// color `t` set to `r`, exactly those that the spans of `rects` or the span
/// `[lo, hi)` of row `y` hold; the spans are disjoint rows of the grid.
pub open spec fn progress(
    orig: Seq<Rgba8>,
    cur: Seq<Rgba8>,
    rects: Seq<(Rect<usize>, Rgba8)>,
    w: int,
    h: int,
    t: Rgba8,
    r: Rgba8,
    y: int,
    lo: int,
    hi: int,
) -> bool {
    &&& fill_of(orig, cur, t, r)
    &&& forall|k: int| 0 <= k < rects.len() ==> span_within(#[trigger] rects[k].0, w, h) && rects[k].1 == r
    &&& forall|px: int, py: int|
        #![trigger covered(rects, h, px, py)]
        #![trigger cur[idx(px, py, w)]]
        0 <= px < w && 0 <= py < h ==> (cur[idx(px, py, w)] != orig[idx(px, py, w)] <==> (covered(
            rects,
            h,
            px,
            py,
        ) || (py == y && lo <= px < hi)))
    &&& forall|px: int| lo <= px < hi ==> !#[trigger] covered(rects, h, px, y)
    &&& forall|k: int, l: int, px: int, py: int|
        0 <= k < l < rects.len() && #[trigger] in_span(rects[k].0, h, px, py) ==> !#[trigger] in_span(
            rects[l].0,
            h,
            px,
            py,
        )
}

/// Setting the pixel just past either end of the span of row `y` keeps the
/// fill in progress, with the span grown by that pixel.
proof fn lemma_set_pixel(
    orig: Seq<Rgba8>,
    before: Seq<Rgba8>,
    rects: Seq<(Rect<usize>, Rgba8)>,
    w: int,
    h: int,
    t: Rgba8,
    r: Rgba8,
    y: int,
    lo: int,
    hi: int,
    x: int,
)
    requires
        progress(orig, before, rects, w, h, t, r, y, lo, hi),
        orig.len() == w * h,
        t != r,
        0 <= x < w,
        0 <= y < h,
        lo <= hi,
        x == hi || x == lo - 1,
        before[idx(x, y, w)] == t,
    ensures
        progress(
            orig,
            before.update(idx(x, y, w), r),
            rects,
            w,
            h,
            t,
            r,
            y,
            if x == lo - 1 { x } else { lo },
            if x == hi { hi + 1 } else { hi },
        ),
        count_color(before.update(idx(x, y, w), r), t) + 1 == count_color(before, t),
{
    let i = idx(x, y, w);
    let cur = before.update(i, r);
    let nlo = if x == lo - 1 { x } else { lo };
    let nhi = if x == hi { hi + 1 } else { hi };
    lemma_idx_bounds(x, y, w, h);
    lemma_count_update(before, i, r, t);
    assert(before[i] == orig[i]);
    assert forall|j: int| 0 <= j < cur.len() implies #[trigger] cur[j] == orig[j] || (orig[j] == t
        && cur[j] == r) by {
        assert(before[j] == orig[j] || (orig[j] == t && before[j] == r));
    }
    assert(!covered(rects, h, x, y));
    assert forall|px: int, py: int| 0 <= px < w && 0 <= py < h implies (cur[idx(px, py, w)]
        != orig[idx(px, py, w)] <==> (#[trigger] covered(rects, h, px, py) || (py == y && nlo <= px
        < nhi))) by {
        lemma_idx_bounds(px, py, w, h);
        if idx(px, py, w) == i {
            lemma_idx_unique(px, py, x, y, w);
        } else {
            assert(cur[idx(px, py, w)] == before[idx(px, py, w)]);
            assert(before[idx(px, py, w)] != orig[idx(px, py, w)] <==> (covered(rects, h, px, py) || (
            py == y && lo <= px < hi)));
        }
    }
}

/// Whether `(x, y)` lies in a grid of `w` by `h` pixels.
pub open spec fn in_grid(x: int, y: int, w: int, h: int) -> bool {
    0 <= x < w && 0 <= y < h
}

/// Whether two pixels are side by side or one above the other.
pub open spec fn adjacent(x1: int, y1: int, x2: int, y2: int) -> bool {
    ||| x1 == x2 && (y2 == y1 + 1 || y1 == y2 + 1)
    ||| y1 == y2 && (x2 == x1 + 1 || x1 == x2 + 1)
}

/// Whether `p` is a path of adjacent pixels of color `t` in the grid `g`.
pub open spec fn is_path(g: Seq<Rgba8>, w: int, h: int, t: Rgba8, p: Seq<(int, int)>) -> bool {
    &&& p.len() >= 1
    &&& forall|i: int|
        0 <= i < p.len() ==> in_grid((#[trigger] p[i]).0, p[i].1, w, h) && g[idx(p[i].0, p[i].1, w)] == t
    &&& forall|i: int| 0 <= i < p.len() - 1 ==> adjacent((#[trigger] p[i]).0, p[i].1, p[i + 1].0, p[i + 1].1)
}

/// Whether `q` can be reached from `s` through adjacent pixels of color `t`
/// of the grid `g`.
pub open spec fn reachable(g: Seq<Rgba8>, w: int, h: int, t: Rgba8, s: (int, int), q: (int, int)) -> bool {
    exists|p: Seq<(int, int)>| #[trigger] is_path(g, w, h, t, p) && p[0] == s && p.last() == q
}

proof fn lemma_reach_start(g: Seq<Rgba8>, w: int, h: int, t: Rgba8, s: (int, int))
    requires
        in_grid(s.0, s.1, w, h),
        g[idx(s.0, s.1, w)] == t,
    ensures
        reachable(g, w, h, t, s, s),
{
    let p = seq![s];
    assert(is_path(g, w, h, t, p));
}

proof fn lemma_reach_step(g: Seq<Rgba8>, w: int, h: int, t: Rgba8, s: (int, int), q: (int, int), n: (int, int))
    requires
        reachable(g, w, h, t, s, q),
        adjacent(q.0, q.1, n.0, n.1),
        in_grid(n.0, n.1, w, h),
        g[idx(n.0, n.1, w)] == t,
    ensures
        reachable(g, w, h, t, s, n),
{
    let p = choose|p: Seq<(int, int)>| #[trigger] is_path(g, w, h, t, p) && p[0] == s && p.last() == q;
    let p2 = p.push(n);
    assert forall|i: int| 0 <= i < p2.len() implies in_grid((#[trigger] p2[i]).0, p2[i].1, w, h) && g[idx(
        p2[i].0,
        p2[i].1,
        w,
    )] == t by {
        if i < p.len() {
            assert(p2[i] == p[i]);
        }
    }
    assert forall|i: int| 0 <= i < p2.len() - 1 implies adjacent(
        (#[trigger] p2[i]).0,
        p2[i].1,
        p2[i + 1].0,
        p2[i + 1].1,
    ) by {
        assert(p2[i] == p[i]);
        if i < p.len() - 1 {
            assert(p2[i + 1] == p[i + 1]);
        }
    }
    assert(is_path(g, w, h, t, p2));
    assert(p2[0] == s);
}

/// Whether the pixels of row `y` from column `a` to column `b`, both
/// included, all have color `t`.
pub open spec fn run_of(g: Seq<Rgba8>, w: int, t: Rgba8, y: int, a: int, b: int) -> bool {
    forall|z: int| (a <= z <= b || b <= z <= a) ==> #[trigger] g[idx(z, y, w)] == t
}

/// Whether some point of `stack` leads to `(x, y)` along its row, through
/// pixels of color `t`: the fill from that point reaches `(x, y)`.
pub open spec fn witnessed(g: Seq<Rgba8>, stack: Seq<Point2<usize>>, w: int, t: Rgba8, x: int, y: int) -> bool {
    exists|k: int| 0 <= k < stack.len() && (#[trigger] stack[k]).y == y && run_of(g, w, t, y, stack[k].x as int, x)
}

/// Whether every pixel of color `t` next to a filled pixel is still to be
/// reached from a point of the stack.
pub open spec fn closed(
    g: Seq<Rgba8>,
    rects: Seq<(Rect<usize>, Rgba8)>,
    stack: Seq<Point2<usize>>,
    w: int,
    h: int,
    t: Rgba8,
) -> bool {
    forall|px: int, py: int, nx: int, ny: int|
        #![trigger covered(rects, h, px, py), adjacent(px, py, nx, ny)]
        covered(rects, h, px, py) && in_grid(px, py, w, h) && in_grid(nx, ny, w, h) && adjacent(px, py, nx, ny)
            && g[idx(nx, ny, w)] == t ==> witnessed(g, stack, w, t, nx, ny)
}

/// A witness along a row stays one when the next pixel along has color `t`.
proof fn lemma_witness_extend(g: Seq<Rgba8>, stack: Seq<Point2<usize>>, w: int, t: Rgba8, x: int, x2: int, y: int)
    requires
        witnessed(g, stack, w, t, x, y),
        x2 == x + 1 || x2 == x - 1,
        g[idx(x2, y, w)] == t,
    ensures
        witnessed(g, stack, w, t, x2, y),
{
    let k = choose|k: int| 0 <= k < stack.len() && (#[trigger] stack[k]).y == y && run_of(g, w, t, y, stack[k].x as int, x);
    let sx = stack[k].x as int;
    assert forall|z: int| (sx <= z <= x2 || x2 <= z <= sx) implies #[trigger] g[idx(z, y, w)] == t by {
        if z != x2 {
            assert(sx <= z <= x || x <= z <= sx);
        }
    }
}

/// A witness stays one when the stack grows and its row keeps its colors.
proof fn lemma_witness_frame(
    g1: Seq<Rgba8>,
    g2: Seq<Rgba8>,
    s1: Seq<Point2<usize>>,
    s2: Seq<Point2<usize>>,
    w: int,
    t: Rgba8,
    x: int,
    y: int,
)
    requires
        witnessed(g1, s1, w, t, x, y),
        0 <= x < w,
        forall|k: int| 0 <= k < s1.len() ==> (#[trigger] s1[k]).x < w,
        s1.len() <= s2.len(),
        forall|k: int| 0 <= k < s1.len() ==> #[trigger] s2[k] == s1[k],
        forall|z: int| 0 <= z < w ==> #[trigger] g2[idx(z, y, w)] == g1[idx(z, y, w)],
    ensures
        witnessed(g2, s2, w, t, x, y),
{
    let k = choose|k: int| 0 <= k < s1.len() && (#[trigger] s1[k]).y == y && run_of(g1, w, t, y, s1[k].x as int, x);
    let sx = s1[k].x as int;
    assert(s2[k] == s1[k]);
    assert forall|z: int| (sx <= z <= x || x <= z <= sx) implies #[trigger] g2[idx(z, y, w)] == t by {
        assert(g1[idx(z, y, w)] == t);
        assert(g2[idx(z, y, w)] == g1[idx(z, y, w)]);
    }
}

/// What looking above and below `(z, y)` does: the stack grows by points
/// of color `t` next to `(z, y)`; a flag tells whether the pixel it looks at
/// lacks color `t`; and where it had been set, a pixel of color `t` is
/// pushed.
proof fn lemma_look(
    g: Seq<Rgba8>,
    w: int,
    h: int,
    t: Rgba8,
    z: int,
    y: int,
    up: bool,
    down: bool,
    s: Seq<Point2<usize>>,
    s2: Seq<Point2<usize>>,
    up2: bool,
    down2: bool,
)
    requires
        (s2, up2, down2) == pushed_above_below(g, w, h, z, y, t, up, down, s),
        in_grid(z, y, w, h),
        w <= usize::MAX,
        h <= usize::MAX,
    ensures
        s.len() <= s2.len(),
        forall|k: int| 0 <= k < s.len() ==> #[trigger] s2[k] == s[k],
        forall|k: int|
            s.len() <= k < s2.len() ==> (#[trigger] s2[k]).x == z && (s2[k].y == y - 1 || s2[k].y == y + 1)
                && in_grid(s2[k].x as int, s2[k].y as int, w, h) && g[idx(s2[k].x as int, s2[k].y as int, w)] == t,
        y > 0 ==> up2 == (g[idx(z, y - 1, w)] != t),
        y == 0 ==> up2 == up,
        y > 0 && g[idx(z, y - 1, w)] == t && up ==> witnessed(g, s2, w, t, z, y - 1),
        y + 1 < h ==> down2 == (g[idx(z, y + 1, w)] != t),
        y + 1 >= h ==> down2 == down,
        y + 1 < h && g[idx(z, y + 1, w)] == t && down ==> witnessed(g, s2, w, t, z, y + 1),
{
    let (s1, up1) = if y > 0 {
        pushed(g, w, h, z, y - 1, t, up, s)
    } else {
        (s, up)
    };
    let above = Point2 { x: z as usize, y: (y - 1) as usize };
    let below = Point2 { x: z as usize, y: (y + 1) as usize };
    let push_above = y > 0 && g[idx(z, y - 1, w)] == t && up;
    let push_below = y + 1 < h && g[idx(z, y + 1, w)] == t && down;
    assert(s1 == if push_above { s.push(above) } else { s });
    assert(s2 == if push_below { s1.push(below) } else { s1 });
    assert forall|k: int| 0 <= k < s.len() implies #[trigger] s2[k] == s[k] by {
        assert(s1[k] == s[k]);
    }
    assert forall|k: int|
        s.len() <= k < s2.len() implies (#[trigger] s2[k]).x == z && (s2[k].y == y - 1 || s2[k].y == y + 1)
            && in_grid(s2[k].x as int, s2[k].y as int, w, h) && g[idx(s2[k].x as int, s2[k].y as int, w)] == t by {
        if k < s1.len() {
            assert(s2[k] == s1[k]);
            assert(s1[k] == above);
        } else {
            assert(s2[k] == below);
        }
    }
    if push_above {
        assert(s2[s.len() as int] == above);
        assert(run_of(g, w, t, y - 1, z, z));
        assert(witnessed(g, s2, w, t, z, y - 1));
    }
    if push_below {
        assert(s2[s1.len() as int] == below);
        assert(run_of(g, w, t, y + 1, z, z));
        assert(witnessed(g, s2, w, t, z, y + 1));
    }
}

/// Whether `cur` is `pix0` with the span `[lo, hi)` of row `y`, all of
/// color `t` in `pix0`, set to `r`.
pub open spec fn agrees_except(
    cur: Seq<Rgba8>,
    pix0: Seq<Rgba8>,
    w: int,
    h: int,
    y: int,
    lo: int,
    hi: int,
    t: Rgba8,
    r: Rgba8,
) -> bool {
    forall|px: int, py: int|
        #![trigger cur[idx(px, py, w)]]
        #![trigger pix0[idx(px, py, w)]]
        in_grid(px, py, w, h) ==> if py == y && lo <= px < hi {
            pix0[idx(px, py, w)] == t && cur[idx(px, py, w)] == r
        } else {
            cur[idx(px, py, w)] == pix0[idx(px, py, w)]
        }
}

/// Whether every pixel of the span `[lo, hi)` of row `y` that has a
/// neighbor of color `t` above or below has that neighbor witnessed by a
/// point of `stack`.
pub open spec fn span_witnessed(cur: Seq<Rgba8>, stack: Seq<Point2<usize>>, w: int, h: int, t: Rgba8, y: int, lo: int, hi: int) -> bool {
    forall|z: int|
        #![trigger cur[idx(z, y - 1, w)]]
        #![trigger cur[idx(z, y + 1, w)]]
        lo <= z < hi ==> (y > 0 && cur[idx(z, y - 1, w)] == t ==> witnessed(cur, stack, w, t, z, y - 1)) && (y + 1
            < h && cur[idx(z, y + 1, w)] == t ==> witnessed(cur, stack, w, t, z, y + 1))
}

/// Filling a maximal span of color `t` from the point popped off the stack,
/// with the neighbors of the span witnessed, keeps every pixel of color `t`
/// next to a filled one witnessed.
#[verifier::rlimit(40)]
proof fn lemma_closed_step(
    pix0: Seq<Rgba8>,
    cur: Seq<Rgba8>,
    rects0: Seq<(Rect<usize>, Rgba8)>,
    rects: Seq<(Rect<usize>, Rgba8)>,
    s0: Seq<Point2<usize>>,
    st: Seq<Point2<usize>>,
    w: int,
    h: int,
    t: Rgba8,
    r: Rgba8,
    y: int,
    lo: int,
    hi: int,
    p: Point2<usize>,
)
    requires
        pix0.len() == w * h,
        t != r,
        0 <= y < h,
        0 <= lo <= hi <= w,
        closed(pix0, rects0, s0, w, h, t),
        s0.len() >= 1,
        s0.last() == p,
        p.y == y,
        p.x < w,
        pix0[idx(p.x as int, y, w)] == t ==> lo <= p.x < hi,
        forall|k: int| 0 <= k < s0.len() ==> (#[trigger] s0[k]).x < w,
        s0.len() - 1 <= st.len(),
        forall|k: int| 0 <= k < s0.len() - 1 ==> #[trigger] st[k] == s0[k],
        agrees_except(cur, pix0, w, h, y, lo, hi, t, r),
        lo == 0 || cur[idx(lo - 1, y, w)] != t,
        hi == w || cur[idx(hi, y, w)] != t,
        span_witnessed(cur, st, w, h, t, y, lo, hi),
        rects.len() == rects0.len() + 1,
        forall|k: int| 0 <= k < rects0.len() ==> #[trigger] rects[k] == rects0[k],
        forall|px: int, py: int| #[trigger] in_span(rects[rects0.len() as int].0, h, px, py) <==> (py == y && lo <= px < hi),
    ensures
        closed(cur, rects, st, w, h, t),
{
    assert forall|px: int, py: int, nx: int, ny: int|
        covered(rects, h, px, py) && in_grid(px, py, w, h) && in_grid(nx, ny, w, h) && adjacent(px, py, nx, ny)
            && cur[idx(nx, ny, w)] == t implies witnessed(cur, st, w, t, nx, ny) by {
        let last = rects0.len() as int;
        if py == y && lo <= px < hi {
            if ny == py {
                if lo <= nx < hi {
                    assert(cur[idx(nx, ny, w)] == r);
                }
            } else if ny == y - 1 {
                assert(cur[idx(px, y - 1, w)] == t);
            } else {
                assert(cur[idx(px, y + 1, w)] == t);
            }
        } else {
            let j = choose|j: int| 0 <= j < rects.len() && #[trigger] in_span(rects[j].0, h, px, py);
            if j == last {
                assert(in_span(rects[last].0, h, px, py));
            }
            assert(j < last);
            assert(rects[j] == rects0[j]);
            assert(covered(rects0, h, px, py));
            if ny == y && lo <= nx < hi {
                assert(cur[idx(nx, ny, w)] == r);
            }
            assert(pix0[idx(nx, ny, w)] == cur[idx(nx, ny, w)]);
            assert(witnessed(pix0, s0, w, t, nx, ny));
            let k = choose|k: int|
                0 <= k < s0.len() && (#[trigger] s0[k]).y == ny && run_of(pix0, w, t, ny, s0[k].x as int, nx);
            let sx = s0[k].x as int;
            if ny == y {
                assert forall|z: int| (sx <= z <= nx || nx <= z <= sx) implies #[trigger] cur[idx(z, ny, w)]
                    == pix0[idx(z, ny, w)] by {
                    if lo <= z < hi {
                        if nx < lo {
                            assert(nx <= lo - 1 <= z);
                            assert(pix0[idx(lo - 1, y, w)] == t);
                            assert(cur[idx(lo - 1, y, w)] == pix0[idx(lo - 1, y, w)]);
                        } else {
                            assert(nx >= hi);
                            assert(z <= hi <= nx);
                            assert(pix0[idx(hi, y, w)] == t);
                            assert(cur[idx(hi, y, w)] == pix0[idx(hi, y, w)]);
                        }
                    }
                    assert(0 <= z < w);
                }
                if k == s0.len() - 1 {
                    assert(s0[k] == p);
                    assert(pix0[idx(p.x as int, y, w)] == t);
                }
            } else {
                if k == s0.len() - 1 {
                    assert(s0[k] == p);
                }
            }
            assert(k < s0.len() - 1);
            assert(st[k] == s0[k]);
            assert forall|z: int| (sx <= z <= nx || nx <= z <= sx) implies #[trigger] cur[idx(z, ny, w)] == t by {
                assert(pix0[idx(z, ny, w)] == t);
                assert(0 <= z < w);
                if ny == y {
                    assert(cur[idx(z, ny, w)] == pix0[idx(z, ny, w)]);
                }
            }
            assert(run_of(cur, w, t, ny, st[k].x as int, nx));
        }
    }
}

/// What a scan of row `y` keeps while it fills the span `[lo, hi)` of the
/// pixels `pix0` found at its start: the rest of the grid is as it was,
/// the stack grows from `st0`, and every point of the stack and of the
/// span, and the point `p` the scan started from, is reached from `sp`.
pub open spec fn scan_state(
    orig: Seq<Rgba8>,
    pix0: Seq<Rgba8>,
    cur: Seq<Rgba8>,
    st0: Seq<Point2<usize>>,
    stack: Seq<Point2<usize>>,
    w: int,
    h: int,
    t: Rgba8,
    r: Rgba8,
    y: int,
    lo: int,
    hi: int,
    sp: (int, int),
    p: (int, int),
) -> bool {
    &&& agrees_except(cur, pix0, w, h, y, lo, hi, t, r)
    &&& fill_of(orig, cur, t, r)
    &&& st0.len() <= stack.len()
    &&& forall|k: int| 0 <= k < st0.len() ==> #[trigger] stack[k] == st0[k]
    &&& forall|k: int|
        0 <= k < stack.len() ==> (#[trigger] stack[k]).x < w && stack[k].y < h && reachable(
            orig,
            w,
            h,
            t,
            sp,
            (stack[k].x as int, stack[k].y as int),
        )
    &&& reachable(orig, w, h, t, sp, p)
    &&& forall|z: int| lo <= z < hi ==> #[trigger] reachable(orig, w, h, t, sp, (z, y))
    &&& span_witnessed(cur, stack, w, h, t, y, lo, hi)
}

/// The edge flags of the scan to the right: a flag is unset only after a
/// pixel of color `t` next to the last pixel filled.
pub open spec fn right_flags(cur: Seq<Rgba8>, w: int, h: int, t: Rgba8, y: int, lo: int, hi: int, up: bool, down: bool) -> bool {
    &&& !up ==> y > 0 && hi > lo && cur[idx(hi - 1, y - 1, w)] == t
    &&& !down ==> y + 1 < h && hi > lo && cur[idx(hi - 1, y + 1, w)] == t
}

/// The edge flags of the scan to the left: a flag is unset only where the
/// pixel next to the leftmost pixel has color `t` and is witnessed.
pub open spec fn left_flags(cur: Seq<Rgba8>, stack: Seq<Point2<usize>>, w: int, h: int, t: Rgba8, y: int, lo: int, up: bool, down: bool) -> bool {
    &&& !up && y > 0 ==> cur[idx(lo, y - 1, w)] == t && witnessed(cur, stack, w, t, lo, y - 1)
    &&& !down && y + 1 < h ==> cur[idx(lo, y + 1, w)] == t && witnessed(cur, stack, w, t, lo, y + 1)
}

/// Witnesses along the rows next to row `y` stay when only row `y` changes
/// and the stack grows.
proof fn lemma_span_witnessed_frame(
    cur1: Seq<Rgba8>,
    cur2: Seq<Rgba8>,
    s1: Seq<Point2<usize>>,
    s2: Seq<Point2<usize>>,
    w: int,
    h: int,
    t: Rgba8,
    y: int,
    lo: int,
    hi: int,
)
    requires
        span_witnessed(cur1, s1, w, h, t, y, lo, hi),
        0 <= lo,
        hi <= w,
        forall|k: int| 0 <= k < s1.len() ==> (#[trigger] s1[k]).x < w,
        s1.len() <= s2.len(),
        forall|k: int| 0 <= k < s1.len() ==> #[trigger] s2[k] == s1[k],
        y > 0 ==> forall|z: int| 0 <= z < w ==> #[trigger] cur2[idx(z, y - 1, w)] == cur1[idx(z, y - 1, w)],
        y + 1 < h ==> forall|z: int| 0 <= z < w ==> #[trigger] cur2[idx(z, y + 1, w)] == cur1[idx(z, y + 1, w)],
    ensures
        span_witnessed(cur2, s2, w, h, t, y, lo, hi),
{
    assert forall|z: int|
        #![trigger cur2[idx(z, y - 1, w)]]
        #![trigger cur2[idx(z, y + 1, w)]]
        lo <= z < hi implies (y > 0 && cur2[idx(z, y - 1, w)] == t ==> witnessed(cur2, s2, w, t, z, y - 1))
        && (y + 1 < h && cur2[idx(z, y + 1, w)] == t ==> witnessed(cur2, s2, w, t, z, y + 1)) by {
        if y > 0 && cur2[idx(z, y - 1, w)] == t {
            assert(cur1[idx(z, y - 1, w)] == t);
            lemma_witness_frame(cur1, cur2, s1, s2, w, t, z, y - 1);
        }
        if y + 1 < h && cur2[idx(z, y + 1, w)] == t {
            assert(cur1[idx(z, y + 1, w)] == t);
            lemma_witness_frame(cur1, cur2, s1, s2, w, t, z, y + 1);
        }
    }
}

/// A pixel reached through pixels of color `t` has that color.
proof fn lemma_reach_color(g: Seq<Rgba8>, w: int, h: int, t: Rgba8, s: (int, int), q: (int, int))
    requires
        reachable(g, w, h, t, s, q),
    ensures
        in_grid(q.0, q.1, w, h),
        g[idx(q.0, q.1, w)] == t,
{
    let p = choose|p: Seq<(int, int)>| #[trigger] is_path(g, w, h, t, p) && p[0] == s && p.last() == q;
    assert(p[p.len() - 1] == q);
}

/// Setting a pixel of color `t` at one end of the span grows the span.
proof fn lemma_agrees_grow(
    cur: Seq<Rgba8>,
    pix0: Seq<Rgba8>,
    w: int,
    h: int,
    y: int,
    lo: int,
    hi: int,
    x: int,
    t: Rgba8,
    r: Rgba8,
)
    requires
        agrees_except(cur, pix0, w, h, y, lo, hi, t, r),
        cur.len() == w * h,
        in_grid(x, y, w, h),
        x == hi || x == lo - 1,
        lo <= hi,
        cur[idx(x, y, w)] == t,
    ensures
        agrees_except(
            cur.update(idx(x, y, w), r),
            pix0,
            w,
            h,
            y,
            if x == lo - 1 { x } else { lo },
            if x == hi { hi + 1 } else { hi },
            t,
            r,
        ),
        pix0[idx(x, y, w)] == t,
        y > 0 ==> forall|z: int| 0 <= z < w ==> #[trigger] cur.update(idx(x, y, w), r)[idx(z, y - 1, w)] == cur[idx(z, y - 1, w)],
        y + 1 < h ==> forall|z: int| 0 <= z < w ==> #[trigger] cur.update(idx(x, y, w), r)[idx(z, y + 1, w)] == cur[idx(z, y + 1, w)],
{
    let i = idx(x, y, w);
    let cur2 = cur.update(i, r);
    lemma_idx_bounds(x, y, w, h);
    assert(pix0[i] == cur[i]);
    let nlo = if x == lo - 1 { x } else { lo };
    let nhi = if x == hi { hi + 1 } else { hi };
    assert forall|px: int, py: int| in_grid(px, py, w, h) implies if py == y && nlo <= px < nhi {
        pix0[idx(px, py, w)] == t && #[trigger] cur2[idx(px, py, w)] == r
    } else {
        cur2[idx(px, py, w)] == pix0[idx(px, py, w)]
    } by {
        lemma_idx_bounds(px, py, w, h);
        if idx(px, py, w) == i {
            lemma_idx_unique(px, py, x, y, w);
        }
    }
    if y > 0 {
        assert forall|z: int| 0 <= z < w implies #[trigger] cur2[idx(z, y - 1, w)] == cur[idx(z, y - 1, w)] by {
            lemma_idx_bounds(z, y - 1, w, h);
            if idx(z, y - 1, w) == i {
                lemma_idx_unique(z, y - 1, x, y, w);
            }
        }
    }
    if y + 1 < h {
        assert forall|z: int| 0 <= z < w implies #[trigger] cur2[idx(z, y + 1, w)] == cur[idx(z, y + 1, w)] by {
            lemma_idx_bounds(z, y + 1, w, h);
            if idx(z, y + 1, w) == i {
                lemma_idx_unique(z, y + 1, x, y, w);
            }
        }
    }
}

/// Filling the pixel `(z, y)` of color `t` next to the span, and looking
/// above and below it, extends what the scan keeps; the neighbors of `z`
/// of color `t` are witnessed where the flag for them is set or where the
/// neighbor `(zn, y ± 1)` of the span's pixel `zn` next to `z` is.
proof fn lemma_fill_pixel(
    orig: Seq<Rgba8>,
    pix0: Seq<Rgba8>,
    cur: Seq<Rgba8>,
    st0: Seq<Point2<usize>>,
    sb: Seq<Point2<usize>>,
    sa: Seq<Point2<usize>>,
    w: int,
    h: int,
    t: Rgba8,
    r: Rgba8,
    y: int,
    lo: int,
    hi: int,
    sp: (int, int),
    p: (int, int),
    z: int,
    zn: int,
    up: bool,
    down: bool,
    up2: bool,
    down2: bool,
)
    requires
        scan_state(orig, pix0, cur, st0, sb, w, h, t, r, y, lo, hi, sp, p),
        orig.len() == w * h,
        cur.len() == w * h,
        t != r,
        w <= usize::MAX,
        h <= usize::MAX,
        0 <= lo <= hi <= w,
        in_grid(z, y, w, h),
        z == hi || z == lo - 1,
        zn == if z == hi { z - 1 } else { z + 1 },
        p.1 == y,
        lo <= p.0 <= hi,
        lo == hi ==> z == p.0 || zn == p.0,
        cur[idx(z, y, w)] == t,
        (sa, up2, down2) == pushed_above_below(cur.update(idx(z, y, w), r), w, h, z, y, t, up, down, sb),
        !up && y > 0 && z == hi ==> lo < hi && cur[idx(zn, y - 1, w)] == t,
        !down && y + 1 < h && z == hi ==> lo < hi && cur[idx(zn, y + 1, w)] == t,
        !up && y > 0 && z == lo - 1 ==> cur[idx(zn, y - 1, w)] == t && witnessed(cur, sb, w, t, zn, y - 1),
        !down && y + 1 < h && z == lo - 1 ==> cur[idx(zn, y + 1, w)] == t && witnessed(cur, sb, w, t, zn, y + 1),
    ensures
        scan_state(
            orig,
            pix0,
            cur.update(idx(z, y, w), r),
            st0,
            sa,
            w,
            h,
            t,
            r,
            y,
            if z == lo - 1 { z } else { lo },
            if z == hi { hi + 1 } else { hi },
            sp,
            p,
        ),
        y > 0 ==> up2 == (cur[idx(z, y - 1, w)] != t),
        y == 0 ==> up2 == up,
        y + 1 < h ==> down2 == (cur[idx(z, y + 1, w)] != t),
        y + 1 >= h ==> down2 == down,
        y > 0 && cur[idx(z, y - 1, w)] == t ==> witnessed(cur.update(idx(z, y, w), r), sa, w, t, z, y - 1),
        y + 1 < h && cur[idx(z, y + 1, w)] == t ==> witnessed(cur.update(idx(z, y, w), r), sa, w, t, z, y + 1),
{
    let i = idx(z, y, w);
    let cur2 = cur.update(i, r);
    let nlo = if z == lo - 1 { z } else { lo };
    let nhi = if z == hi { hi + 1 } else { hi };
    lemma_idx_bounds(z, y, w, h);
    lemma_agrees_grow(cur, pix0, w, h, y, lo, hi, z, t, r);
    assert(cur[i] == orig[i]);
    assert forall|j: int| 0 <= j < cur2.len() implies #[trigger] cur2[j] == orig[j] || (orig[j] == t && cur2[j] == r) by {
        assert(cur[j] == orig[j] || (orig[j] == t && cur[j] == r));
    }
    // The new pixel is reached from its neighbor in the span, or from `p`.
    if lo < hi {
        assert(lo <= zn < hi);
        assert(reachable(orig, w, h, t, sp, (zn, y)));
        lemma_reach_step(orig, w, h, t, sp, (zn, y), (z, y));
    } else if zn == p.0 {
        lemma_reach_step(orig, w, h, t, sp, (zn, y), (z, y));
    } else {
        assert(z == p.0);
    }
    lemma_look(cur2, w, h, t, z, y, up, down, sb, sa, up2, down2);
    assert forall|k: int|
        0 <= k < sa.len() implies (#[trigger] sa[k]).x < w && sa[k].y < h && reachable(
        orig,
        w,
        h,
        t,
        sp,
        (sa[k].x as int, sa[k].y as int),
    ) by {
        if k < sb.len() {
            assert(sa[k] == sb[k]);
        } else {
            let q = (sa[k].x as int, sa[k].y as int);
            assert(cur2[idx(q.0, q.1, w)] == t);
            lemma_idx_bounds(q.0, q.1, w, h);
            assert(orig[idx(q.0, q.1, w)] == t);
            lemma_reach_step(orig, w, h, t, sp, (z, y), q);
        }
    }
    assert forall|k: int| 0 <= k < st0.len() implies #[trigger] sa[k] == st0[k] by {
        assert(sb[k] == st0[k]);
    }
    assert forall|zz: int| nlo <= zz < nhi implies #[trigger] reachable(orig, w, h, t, sp, (zz, y)) by {
        if zz != z {
            assert(lo <= zz < hi);
        }
    }
    assert forall|k: int| 0 <= k < sb.len() implies (#[trigger] sb[k]).x < w by {}
    lemma_span_witnessed_frame(cur, cur2, sb, sa, w, h, t, y, lo, hi);
    // The neighbors of the new pixel.
    if y > 0 && cur[idx(z, y - 1, w)] == t {
        assert(cur2[idx(z, y - 1, w)] == t);
        if !up {
            assert(cur2[idx(zn, y - 1, w)] == cur[idx(zn, y - 1, w)]);
            if z == hi {
                assert(lo <= zn < hi);
                assert(witnessed(cur2, sa, w, t, zn, y - 1));
            } else {
                lemma_witness_frame(cur, cur2, sb, sa, w, t, zn, y - 1);
            }
            lemma_witness_extend(cur2, sa, w, t, zn, z, y - 1);
        }
    }
    if y + 1 < h && cur[idx(z, y + 1, w)] == t {
        assert(cur2[idx(z, y + 1, w)] == t);
        if !down {
            assert(cur2[idx(zn, y + 1, w)] == cur[idx(zn, y + 1, w)]);
            if z == hi {
                assert(lo <= zn < hi);
                assert(witnessed(cur2, sa, w, t, zn, y + 1));
            } else {
                lemma_witness_frame(cur, cur2, sb, sa, w, t, zn, y + 1);
            }
            lemma_witness_extend(cur2, sa, w, t, zn, z, y + 1);
        }
    }
    assert forall|zz: int|
        #![trigger cur2[idx(zz, y - 1, w)]]
        #![trigger cur2[idx(zz, y + 1, w)]]
        nlo <= zz < nhi implies (y > 0 && cur2[idx(zz, y - 1, w)] == t ==> witnessed(cur2, sa, w, t, zz, y - 1))
        && (y + 1 < h && cur2[idx(zz, y + 1, w)] == t ==> witnessed(cur2, sa, w, t, zz, y + 1)) by {
        if zz != z {
            assert(lo <= zz < hi);
        } else {
            if y > 0 {
                assert(cur2[idx(z, y - 1, w)] == cur[idx(z, y - 1, w)]);
            }
            if y + 1 < h {
                assert(cur2[idx(z, y + 1, w)] == cur[idx(z, y + 1, w)]);
            }
        }
    }
}

/// Along a path from a filled pixel, where every pixel of color `t` next
/// to a filled one is witnessed by a point of an empty stack, every pixel
/// is filled.
proof fn lemma_path_covered(
    orig: Seq<Rgba8>,
    cur: Seq<Rgba8>,
    rects: Seq<(Rect<usize>, Rgba8)>,
    w: int,
    h: int,
    t: Rgba8,
    r: Rgba8,
    p: Seq<(int, int)>,
    i: int,
)
    requires
        is_path(orig, w, h, t, p),
        covered(rects, h, p[0].0, p[0].1),
        closed(cur, rects, Seq::<Point2<usize>>::empty(), w, h, t),
        progress(orig, cur, rects, w, h, t, r, 0, 0, 0),
        orig.len() == w * h,
        t != r,
        0 <= i < p.len(),
    ensures
        covered(rects, h, p[i].0, p[i].1),
    decreases i,
{
    if i > 0 {
        lemma_path_covered(orig, cur, rects, w, h, t, r, p, i - 1);
        let q = p[i - 1];
        let n = p[i];
        assert(adjacent(q.0, q.1, n.0, n.1));
        assert(in_grid(q.0, q.1, w, h));
        assert(in_grid(n.0, n.1, w, h) && orig[idx(n.0, n.1, w)] == t);
        lemma_idx_bounds(n.0, n.1, w, h);
        if cur[idx(n.0, n.1, w)] == t {
            assert(witnessed(cur, Seq::<Point2<usize>>::empty(), w, t, n.0, n.1));
        }
        assert(cur[idx(n.0, n.1, w)] != orig[idx(n.0, n.1, w)]);
        assert(covered(rects, h, n.0, n.1));
    }
}

impl FloodFiller {
    /// Fill, and return the filled area as spans of one row each, rows
    /// counted from the bottom, with the replacement color. There is nothing
    /// to fill when the replacement color is the color being replaced.
    ///
    /// The spans are disjoint, the first one holds the starting point, every
    /// pixel they hold had the color being replaced, and they hold exactly
    /// the pixels reached from the starting point through pixels of that
    /// color, side by side or one above the other.
    #[verifier::rlimit(100)]
    pub fn run(self) -> (out: Option<Vec<(Rect<usize>, Rgba8)>>)
        requires
            self.wf(),
        ensures
            (out is None) == (self.target() == self.replacement()),
            out matches Some(rects) ==> {
                &&& rects@.len() >= 1
                &&& in_span(rects@[0].0, self.grid_height(), self.start_point().0, self.start_point().1)
                &&& forall|k: int|
                    0 <= k < rects@.len() ==> span_within(#[trigger] rects@[k].0, self.grid_width(), self.grid_height())
                        && rects@[k].1 == self.replacement()
                &&& forall|k: int, px: int, py: int|
                    0 <= k < rects@.len() && #[trigger] in_span(rects@[k].0, self.grid_height(), px, py)
                        ==> self.grid()[idx(px, py, self.grid_width())] == self.target()
                &&& forall|k: int, l: int, px: int, py: int|
                    0 <= k < l < rects@.len() && #[trigger] in_span(rects@[k].0, self.grid_height(), px, py)
                        ==> !#[trigger] in_span(rects@[l].0, self.grid_height(), px, py)
                &&& forall|px: int, py: int|
                    in_grid(px, py, self.grid_width(), self.grid_height()) ==> (#[trigger] covered(
                        rects@,
                        self.grid_height(),
                        px,
                        py,
                    ) <==> reachable(
                        self.grid(),
                        self.grid_width(),
                        self.grid_height(),
                        self.target(),
                        self.start_point(),
                        (px, py),
                    ))
            },
    {
        if self.target_color == self.replacement_color {
            return None;
        }
        let FloodFiller { mut pixels, width: w, height: h, replacement_color: r, target_color: t, start } =
            self;
        let ghost orig = pixels@;
        let ghost sp = (start.x as int, start.y as int);
        let mut rects: Vec<(Rect<usize>, Rgba8)> = Vec::new();
        let mut stack: Vec<Point2<usize>> = Vec::new();
        stack.push(start);
        proof {
            assert forall|px: int, py: int| 0 <= px < w && 0 <= py < h implies (pixels@[idx(px, py, w as int)]
                != orig[idx(px, py, w as int)] <==> (#[trigger] covered(rects@, h as int, px, py) || (py
                == 0 && 0 <= px < 0))) by {}
            lemma_reach_start(orig, w as int, h as int, t, sp);
            assert(stack@[0] == start);
        }
        while stack.len() > 0
            invariant
                orig.len() == w * h,
                t != r,
                start.x < w,
                start.y < h,
                sp == (start.x as int, start.y as int),
                orig[idx(start.x as int, start.y as int, w as int)] == t,
                progress(orig, pixels@, rects@, w as int, h as int, t, r, 0, 0, 0),
                forall|k: int| 0 <= k < stack@.len() ==> (#[trigger] stack@[k]).x < w && stack@[k].y < h,
                rects@.len() == 0 ==> stack@ == seq![start] && pixels@ == orig,
                rects@.len() > 0 ==> in_span(rects@[0].0, h as int, start.x as int, start.y as int),
                closed(pixels@, rects@, stack@, w as int, h as int, t),
                forall|k: int|
                    0 <= k < stack@.len() ==> reachable(
                        orig,
                        w as int,
                        h as int,
                        t,
                        sp,
                        ((#[trigger] stack@[k]).x as int, stack@[k].y as int),
                    ),
                forall|px: int, py: int|
                    in_grid(px, py, w as int, h as int) && #[trigger] covered(rects@, h as int, px, py) ==> reachable(
                        orig,
                        w as int,
                        h as int,
                        t,
                        sp,
                        (px, py),
                    ),
            decreases 3 * count_color(pixels@, t) + stack@.len(),
        {
            let ghost pot = 3 * count_color(pixels@, t) + stack@.len();
            let ghost first = rects@.len() == 0;
            let ghost s0 = stack@;
            let ghost pix0 = pixels@;
            let ghost rects_start = rects@;
            let p = stack.pop().unwrap();
            let ghost st0 = stack@;
            let ghost pp = (p.x as int, p.y as int);
            proof {
                assert(p == s0[s0.len() - 1]);
                assert forall|k: int| 0 <= k < stack@.len() implies (#[trigger] stack@[k]).x < w && stack@[k].y < h
                    && reachable(orig, w as int, h as int, t, sp, (stack@[k].x as int, stack@[k].y as int)) by {
                    assert(stack@[k] == s0[k]);
                }
                assert(reachable(orig, w as int, h as int, t, sp, pp));
                assert forall|px: int, py: int|
                    #![trigger pixels@[idx(px, py, w as int)]]
                    #![trigger pix0[idx(px, py, w as int)]]
                    in_grid(px, py, w as int, h as int) implies (if py == p.y && p.x <= px < p.x {
                    pix0[idx(px, py, w as int)] == t && pixels@[idx(px, py, w as int)] == r
                } else {
                    pixels@[idx(px, py, w as int)] == pix0[idx(px, py, w as int)]
                }) by {}
                assert(scan_state(orig, pix0, pixels@, st0, stack@, w as int, h as int, t, r, p.y as int, p.x as int, p.x as int, sp, pp));
            }
            let y = p.y;
            let mut min_x = p.x;
            let mut max_x = p.x;
            let mut up_edge = true;
            let mut down_edge = true;

            // Scan right.
            let mut x = p.x;
            loop
                invariant
                    orig.len() == w * h,
                    t != r,
                    p.x < w,
                    y < h,
                    y == p.y,
                    pp == (p.x as int, p.y as int),
                    p.x <= x <= w,
                    pix0.len() == w * h,
                    progress(orig, pixels@, rects@, w as int, h as int, t, r, y as int, p.x as int, x as int),
                    forall|k: int| 0 <= k < stack@.len() ==> (#[trigger] stack@[k]).x < w && stack@[k].y < h,
                    3 * count_color(pixels@, t) + stack@.len() < pot,
                    first ==> p == start,
                    first && x == p.x ==> pixels@[idx(start.x as int, start.y as int, w as int)] == t,
                    scan_state(orig, pix0, pixels@, st0, stack@, w as int, h as int, t, r, y as int, p.x as int, x as int, sp, pp),
                    right_flags(pixels@, w as int, h as int, t, y as int, p.x as int, x as int, up_edge, down_edge),
                ensures
                    first ==> max_x > p.x,
                    p.x <= max_x <= w,
                    progress(orig, pixels@, rects@, w as int, h as int, t, r, y as int, p.x as int, max_x as int),
                    forall|k: int| 0 <= k < stack@.len() ==> (#[trigger] stack@[k]).x < w && stack@[k].y < h,
                    3 * count_color(pixels@, t) + stack@.len() < pot,
                    scan_state(orig, pix0, pixels@, st0, stack@, w as int, h as int, t, r, y as int, p.x as int, max_x as int, sp, pp),
                    max_x == w || pix0[idx(max_x as int, y as int, w as int)] != t,
                    pix0[idx(p.x as int, y as int, w as int)] == t ==> max_x > p.x,
                decreases w - x,
            {
                max_x = x;
                let ghost before = pixels@;
                let ghost sbefore = stack@;
                let ghost (up0, down0) = (up_edge, down_edge);
                if !try_set_at(&mut pixels, w, h, x, y, t, r) {
                    proof {
                        if x < w {
                            lemma_idx_bounds(x as int, y as int, w as int, h as int);
                            assert(before[idx(x as int, y as int, w as int)] == pix0[idx(x as int, y as int, w as int)]);
                        }
                    }
                    break;
                }
                proof {
                    lemma_set_pixel(orig, before, rects@, w as int, h as int, t, r, y as int, p.x as int, x as int, x as int);
                }
                look_above_below(&pixels, w, h, x, y, t, &mut up_edge, &mut down_edge, &mut stack);
                proof {
                    lemma_fill_pixel(
                        orig, pix0, before, st0, sbefore, stack@, w as int, h as int, t, r, y as int,
                        p.x as int, x as int, sp, pp, x as int, x - 1, up0, down0, up_edge, down_edge,
                    );
                    assert forall|k: int| 0 <= k < stack@.len() implies (#[trigger] stack@[k]).x < w
                        && stack@[k].y < h by {
                        if k < sbefore.len() {
                            assert(stack@[k] == sbefore[k]);
                        }
                    }
                }
                x = x + 1;
            }
            let ghost right_end = pixels@;

            up_edge = if y > 0 {
                let n = pixels.len();
                proof {
                    lemma_idx_bounds(p.x as int, y - 1, w as int, h as int);
                }
                pixels[p.x + (y - 1) * w] != t
            } else {
                false
            };
            down_edge = if y < h - 1 {
                let n = pixels.len();
                proof {
                    lemma_idx_bounds(p.x as int, y + 1, w as int, h as int);
                }
                pixels[p.x + (y + 1) * w] != t
            } else {
                false
            };
            proof {
                // The neighbors of `p` are witnessed: by the scan to the right,
                // or, where `p` was filled before, by what the stack held.
                if max_x == p.x {
                    assert(pix0[idx(p.x as int, y as int, w as int)] != t);
                    lemma_reach_color(orig, w as int, h as int, t, sp, pp);
                    lemma_idx_bounds(p.x as int, y as int, w as int, h as int);
                    assert(pix0[idx(p.x as int, y as int, w as int)] != orig[idx(p.x as int, y as int, w as int)]);
                    assert(covered(rects@, h as int, p.x as int, y as int));
                    assert forall|k: int| 0 <= k < st0.len() implies (#[trigger] st0[k]).x < w by {
                        assert(st0[k] == s0[k]);
                    }
                    if !up_edge && y > 0 {
                        assert(adjacent(p.x as int, y as int, p.x as int, y - 1));
                        lemma_idx_bounds(p.x as int, y - 1, w as int, h as int);
                        assert(pixels@[idx(p.x as int, y - 1, w as int)] == pix0[idx(p.x as int, y - 1, w as int)]);
                        assert(witnessed(pix0, s0, w as int, t, p.x as int, y - 1));
                        let k = choose|k: int|
                            0 <= k < s0.len() && (#[trigger] s0[k]).y == y - 1 && run_of(pix0, w as int, t, y - 1, s0[k].x as int, p.x as int);
                        assert(k != s0.len() - 1);
                        assert(st0[k] == s0[k]);
                        assert(witnessed(pix0, st0, w as int, t, p.x as int, y - 1));
                        assert forall|z: int| 0 <= z < w implies #[trigger] pixels@[idx(z, y - 1, w as int)] == pix0[idx(z, y - 1, w as int)] by {
                            lemma_idx_bounds(z, y - 1, w as int, h as int);
                        }
                        lemma_witness_frame(pix0, pixels@, st0, stack@, w as int, t, p.x as int, y - 1);
                    }
                    if !down_edge && y + 1 < h {
                        assert(adjacent(p.x as int, y as int, p.x as int, y + 1));
                        lemma_idx_bounds(p.x as int, y + 1, w as int, h as int);
                        assert(pixels@[idx(p.x as int, y + 1, w as int)] == pix0[idx(p.x as int, y + 1, w as int)]);
                        assert(witnessed(pix0, s0, w as int, t, p.x as int, y + 1));
                        let k = choose|k: int|
                            0 <= k < s0.len() && (#[trigger] s0[k]).y == y + 1 && run_of(pix0, w as int, t, y + 1, s0[k].x as int, p.x as int);
                        assert(k != s0.len() - 1);
                        assert(st0[k] == s0[k]);
                        assert(witnessed(pix0, st0, w as int, t, p.x as int, y + 1));
                        assert forall|z: int| 0 <= z < w implies #[trigger] pixels@[idx(z, y + 1, w as int)] == pix0[idx(z, y + 1, w as int)] by {
                            lemma_idx_bounds(z, y + 1, w as int, h as int);
                        }
                        lemma_witness_frame(pix0, pixels@, st0, stack@, w as int, t, p.x as int, y + 1);
                    }
                } else {
                    if y > 0 {
                        lemma_idx_bounds(p.x as int, y - 1, w as int, h as int);
                        assert(pixels@[idx(p.x as int, y - 1, w as int)] == t ==> witnessed(pixels@, stack@, w as int, t, p.x as int, y - 1));
                    }
                    if y + 1 < h {
                        lemma_idx_bounds(p.x as int, y + 1, w as int, h as int);
                        assert(pixels@[idx(p.x as int, y + 1, w as int)] == t ==> witnessed(pixels@, stack@, w as int, t, p.x as int, y + 1));
                    }
                }
                assert(left_flags(pixels@, stack@, w as int, h as int, t, y as int, p.x as int, up_edge, down_edge));
            }

            // Scan left.
            let mut x = p.x;
            min_x = p.x;
            while x > 0
                invariant
                    orig.len() == w * h,
                    t != r,
                    p.x < w,
                    y < h,
                    y == p.y,
                    pp == (p.x as int, p.y as int),
                    pix0.len() == w * h,
                    x <= p.x,
                    min_x == x,
                    p.x <= max_x <= w,
                    progress(orig, pixels@, rects@, w as int, h as int, t, r, y as int, x as int, max_x as int),
                    forall|k: int| 0 <= k < stack@.len() ==> (#[trigger] stack@[k]).x < w && stack@[k].y < h,
                    3 * count_color(pixels@, t) + stack@.len() < pot,
                    first ==> max_x > p.x,
                    scan_state(orig, pix0, pixels@, st0, stack@, w as int, h as int, t, r, y as int, x as int, max_x as int, sp, pp),
                    left_flags(pixels@, stack@, w as int, h as int, t, y as int, x as int, up_edge, down_edge),
                    max_x == w || pix0[idx(max_x as int, y as int, w as int)] != t,
                    pix0[idx(p.x as int, y as int, w as int)] == t ==> max_x > p.x,
                ensures
                    min_x == 0 || pix0[idx(min_x - 1, y as int, w as int)] != t,
                decreases x,
            {
                let nx = x - 1;
                let ghost before = pixels@;
                let ghost sbefore = stack@;
                let ghost (up0, down0) = (up_edge, down_edge);
                if !try_set_at(&mut pixels, w, h, nx, y, t, r) {
                    proof {
                        lemma_idx_bounds(nx as int, y as int, w as int, h as int);
                        assert(before[idx(nx as int, y as int, w as int)] == pix0[idx(nx as int, y as int, w as int)]);
                    }
                    break;
                }
                proof {
                    lemma_set_pixel(orig, before, rects@, w as int, h as int, t, r, y as int, x as int, max_x as int, nx as int);
                }
                look_above_below(&pixels, w, h, nx, y, t, &mut up_edge, &mut down_edge, &mut stack);
                proof {
                    lemma_fill_pixel(
                        orig, pix0, before, st0, sbefore, stack@, w as int, h as int, t, r, y as int,
                        x as int, max_x as int, sp, pp, nx as int, x as int, up0, down0, up_edge, down_edge,
                    );
                    assert forall|k: int| 0 <= k < stack@.len() implies (#[trigger] stack@[k]).x < w
                        && stack@[k].y < h by {
                        if k < sbefore.len() {
                            assert(stack@[k] == sbefore[k]);
                        }
                    }
                    let cur2 = pixels@;
                    if y > 0 {
                        lemma_idx_bounds(nx as int, y - 1, w as int, h as int);
                        assert(cur2[idx(nx as int, y - 1, w as int)] == before[idx(nx as int, y - 1, w as int)]);
                    }
                    if y + 1 < h {
                        lemma_idx_bounds(nx as int, y + 1, w as int, h as int);
                        assert(cur2[idx(nx as int, y + 1, w as int)] == before[idx(nx as int, y + 1, w as int)]);
                    }
                    assert(left_flags(pixels@, stack@, w as int, h as int, t, y as int, nx as int, up_edge, down_edge));
                }
                x = nx;
                min_x = x;
            }

            let rect = Rect::new(min_x, h - y - 1, min_x + (max_x - min_x), h - y - 1 + 1);
            let ghost rects0 = rects@;
            rects.push((rect, r));
            proof {
                assert(rects@ == rects0.push((rect, r)));
                assert forall|px: int| #[trigger] in_span(rect, h as int, px, y as int) <==> min_x <= px
                    < max_x by {}
                assert forall|px: int, py: int| #[trigger] in_span(rects@[rects0.len() as int].0, h as int, px, py) <==> (py == y && min_x <= px < max_x) by {}
                assert forall|px: int, py: int| 0 <= px < w && 0 <= py < h implies (pixels@[idx(
                    px,
                    py,
                    w as int,
                )] != orig[idx(px, py, w as int)] <==> (#[trigger] covered(rects@, h as int, px, py) || (
                py == 0 && 0 <= px < 0))) by {
                    if covered(rects0, h as int, px, py) {
                        let k = choose|k: int| 0 <= k < rects0.len() && #[trigger] in_span(rects0[k].0, h as int, px, py);
                        assert(rects@[k] == rects0[k]);
                    }
                    if py == y && min_x <= px < max_x {
                        assert(in_span(rects@[rects0.len() as int].0, h as int, px, py));
                    }
                    if covered(rects@, h as int, px, py) {
                        let k = choose|k: int| 0 <= k < rects@.len() && #[trigger] in_span(rects@[k].0, h as int, px, py);
                        if k < rects0.len() {
                            assert(rects0[k] == rects@[k]);
                        }
                    }
                }
                assert forall|k: int, l: int, px: int, py: int|
                    0 <= k < l < rects@.len() && #[trigger] in_span(rects@[k].0, h as int, px, py) implies !#[trigger] in_span(
                    rects@[l].0,
                    h as int,
                    px,
                    py,
                ) by {
                    if l < rects0.len() {
                        assert(rects@[k] == rects0[k] && rects@[l] == rects0[l]);
                    } else {
                        assert(rects@[k] == rects0[k]);
                        if in_span(rects@[l].0, h as int, px, py) {
                            assert(covered(rects0, h as int, px, py));
                        }
                    }
                }
                assert forall|k: int| 0 <= k < rects@.len() implies span_within(#[trigger] rects@[k].0, w as int, h as int)
                    && rects@[k].1 == r by {
                    if k < rects0.len() {
                        assert(rects@[k] == rects0[k]);
                        assert(span_within(rects0[k].0, w as int, h as int));
                    } else {
                        assert(rects@[k] == (rect, r));
                        assert(span_within(rect, w as int, h as int));
                    }
                }
                if first {
                    assert(in_span(rects@[0].0, h as int, start.x as int, start.y as int));
                } else {
                    assert(rects@[0] == rects0[0]);
                }
                assert(fill_of(orig, pixels@, t, r));
                assert(forall|px: int| 0 <= px < 0 ==> !#[trigger] covered(rects@, h as int, px, 0));
                assert(progress(orig, pixels@, rects@, w as int, h as int, t, r, 0, 0, 0));
                // Every pixel of color `t` next to a filled one is still witnessed.
                assert forall|k: int| 0 <= k < s0.len() implies (#[trigger] s0[k]).x < w by {}
                assert forall|k: int| 0 <= k < s0.len() - 1 implies #[trigger] stack@[k] == s0[k] by {
                    assert(stack@[k] == st0[k]);
                }
                assert forall|k: int| 0 <= k < rects0.len() implies #[trigger] rects@[k] == rects0[k] by {}
                if min_x > 0 {
                    lemma_idx_bounds(min_x - 1, y as int, w as int, h as int);
                    assert(pixels@[idx(min_x - 1, y as int, w as int)] == pix0[idx(min_x - 1, y as int, w as int)]);
                }
                if max_x < w {
                    lemma_idx_bounds(max_x as int, y as int, w as int, h as int);
                    assert(pixels@[idx(max_x as int, y as int, w as int)] == pix0[idx(max_x as int, y as int, w as int)]);
                }
                lemma_closed_step(
                    pix0, pixels@, rects0, rects@, s0, stack@, w as int, h as int, t, r, y as int,
                    min_x as int, max_x as int, p,
                );
                // Every filled pixel is reached from the start.
                assert forall|px: int, py: int|
                    in_grid(px, py, w as int, h as int) && #[trigger] covered(rects@, h as int, px, py) implies reachable(
                    orig,
                    w as int,
                    h as int,
                    t,
                    sp,
                    (px, py),
                ) by {
                    let k = choose|k: int| 0 <= k < rects@.len() && #[trigger] in_span(rects@[k].0, h as int, px, py);
                    if k < rects0.len() {
                        assert(rects@[k] == rects0[k]);
                        assert(covered(rects0, h as int, px, py));
                    } else {
                        assert(py == y && min_x <= px < max_x);
                        assert(reachable(orig, w as int, h as int, t, sp, (px, y as int)));
                    }
                }
                assert forall|k: int|
                    0 <= k < stack@.len() implies reachable(
                    orig,
                    w as int,
                    h as int,
                    t,
                    sp,
                    ((#[trigger] stack@[k]).x as int, stack@[k].y as int),
                ) by {}
            }
        }
        proof {
            assert(rects@.len() > 0);
            assert forall|k: int, px: int, py: int|
                0 <= k < rects@.len() && #[trigger] in_span(rects@[k].0, h as int, px, py) implies orig[idx(
                px,
                py,
                w as int,
            )] == t by {
                assert(covered(rects@, h as int, px, py));
                assert(span_within(rects@[k].0, w as int, h as int));
                lemma_idx_bounds(px, py, w as int, h as int);
            }
            assert(stack@ =~= Seq::<Point2<usize>>::empty());
            assert(covered(rects@, h as int, start.x as int, start.y as int));
            assert forall|px: int, py: int|
                in_grid(px, py, w as int, h as int) implies (#[trigger] covered(rects@, h as int, px, py) <==> reachable(
                orig,
                w as int,
                h as int,
                t,
                sp,
                (px, py),
            )) by {
                if reachable(orig, w as int, h as int, t, sp, (px, py)) {
                    let path = choose|path: Seq<(int, int)>|
                        #[trigger] is_path(orig, w as int, h as int, t, path) && path[0] == sp && path.last() == (px, py);
                    lemma_path_covered(orig, pixels@, rects@, w as int, h as int, t, r, path, path.len() - 1);
                }
            }
        }
        Some(rects)
    }
}

} // verus!

use crate::color::Rgba8;
use vstd::prelude::*;

verus! {

/// A color palette, shown as a grid of cells that is `height` cells tall and
/// fills column after column.
pub struct Palette {
    pub colors: Vec<Rgba8>,
    pub hover: Option<Rgba8>,
    pub height: usize,
}

/// Whether no color occurs twice.
pub open spec fn distinct(s: Seq<Rgba8>) -> bool {
    forall|i: int, j: int| 0 <= i < j < s.len() ==> s[i] != s[j]
}

/// The number of columns a palette of `size` colors takes when it is
/// `height` cells tall; with no height, as many as an `i32` holds.
pub open spec fn palette_columns(size: int, height: int) -> int {
    if height == 0 {
        if size == 0 {
            0
        } else {
            i32::MAX as int
        }
    } else {
        (size + height - 1) / height
    }
}

/// The width in pixels of a palette of `size` colors, `height` cells tall.
pub open spec fn palette_width(size: int, height: int, cellsize: int) -> int {
    if size > height {
        cellsize * palette_columns(size, height)
    } else {
        cellsize
    }
}

/// The height in pixels of a palette of `size` colors, `height` cells tall.
pub open spec fn palette_height(size: int, height: int, cellsize: int) -> int {
    (if size < height {
        size
    } else {
        height
    }) * cellsize
}

/// Whether the sizes of a palette fit the integers they are computed in.
pub open spec fn palette_fits(size: int, height: int, cellsize: int) -> bool {
    &&& size <= i32::MAX
    &&& height <= i32::MAX
    &&& i32::MIN <= palette_width(size, height, cellsize) <= i32::MAX
    &&& i32::MIN <= palette_height(size, height, cellsize) <= i32::MAX
}

/// The color under the point `(x, y)`, in pixels from the palette's corner,
/// with cells `cellsize` pixels wide. Cells are numbered down each column,
/// and the colors are laid out from the last one.
pub open spec fn hovered(colors: Seq<Rgba8>, height: int, x: int, y: int, cellsize: int) -> Option<
    Rgba8,
> {
    let size = colors.len() as int;
    let width = palette_width(size, height, cellsize);
    let h = palette_height(size, height, cellsize);
    if x >= width || y >= h || x < 0 || y < 0 {
        None
    } else {
        let index = y / cellsize + (x / cellsize) * (h / cellsize);
        if index < size {
            Some(colors[size - index - 1])
        } else {
            None
        }
    }
}

impl Palette {
    pub fn new(height: usize) -> (p: Self)
        ensures
            p.colors@ == Seq::<Rgba8>::empty(),
            p.hover is None,
            p.height == height,
    {
        Palette { colors: Vec::new(), hover: None, height }
    }

    /// Add a color, unless the palette has it already.
    pub fn add(&mut self, color: Rgba8)
        ensures
            final(self).colors@ == if old(self).colors@.contains(color) {
                old(self).colors@
            } else {
                old(self).colors@.push(color)
            },
            final(self).hover == old(self).hover,
            final(self).height == old(self).height,
    {
        let mut i: usize = 0;
        while i < self.colors.len()
            invariant
                i <= self.colors@.len(),
                forall|j: int| 0 <= j < i ==> self.colors@[j] != color,
            decreases self.colors@.len() - i,
        {
            if self.colors[i] == color {
                assert(self.colors@[i as int] == color);
                return;
            }
            i = i + 1;
        }
        self.colors.push(color);
    }

    pub fn clear(&mut self)
        ensures
            final(self).colors@ == Seq::<Rgba8>::empty(),
            final(self).hover == old(self).hover,
            final(self).height == old(self).height,
    {
        self.colors.clear();
    }

    pub fn size(&self) -> (n: usize)
        ensures
            n == self.colors@.len(),
    {
        self.colors.len()
    }

    /// Update the color under the cursor, at `(x, y)` pixels from the
    /// palette's corner, with cells `cellsize` pixels wide.
    pub fn handle_cursor_moved(&mut self, x: i32, y: i32, cellsize: i32)
        requires
            palette_fits(old(self).colors@.len() as int, old(self).height as int, cellsize as int),
        ensures
            final(self).hover == hovered(
                old(self).colors@,
                old(self).height as int,
                x as int,
                y as int,
                cellsize as int,
            ),
            final(self).colors@ == old(self).colors@,
            final(self).height == old(self).height,
    {
        let size = self.colors.len() as i32;
        let height = self.height as i32;
        let columns: i32 = if height == 0 {
            if size == 0 {
                0
            } else {
                i32::MAX
            }
        } else {
            let q = (size as i64 + height as i64 - 1) / height as i64;
            assert(0 <= q <= size) by (nonlinear_arith)
                requires
                    q == (size + height - 1) / (height as int),
                    size >= 0,
                    height >= 1,
            ;
            q as i32
        };
        assert(columns == palette_columns(size as int, height as int));
        let width = if size > height {
            cellsize * columns
        } else {
            cellsize
        };
        let h = if size < height {
            size
        } else {
            height
        } * cellsize;
        if x >= width || y >= h || x < 0 || y < 0 {
            self.hover = None;
            return;
        }
        proof {
            if size > height && cellsize <= 0 {
                assert(columns >= 1) by (nonlinear_arith)
                    requires
                        height >= 1 ==> columns == (size + height - 1) / (height as int),
                        height == 0 ==> columns == i32::MAX,
                        size > height,
                        height >= 0,
                ;
                assert(cellsize * columns <= 0) by (nonlinear_arith)
                    requires
                        cellsize <= 0,
                        columns >= 1,
                ;
            }
        }
        assert(cellsize > 0);
        let cx = x / cellsize;
        let cy = y / cellsize;
        let cells = h / cellsize;
        proof {
            assert(0 <= cx <= x) by (nonlinear_arith)
                requires
                    cx == x / cellsize,
                    x >= 0,
                    cellsize > 0,
            ;
            assert(0 <= cy <= y) by (nonlinear_arith)
                requires
                    cy == y / cellsize,
                    y >= 0,
                    cellsize > 0,
            ;
            assert(0 <= cells * cellsize <= h) by (nonlinear_arith)
                requires
                    cells == h / cellsize,
                    h >= 0,
                    cellsize > 0,
            ;
            assert(0 <= cx * cells <= 0x7fff_ffff * 0x7fff_ffff) by (nonlinear_arith)
                requires
                    0 <= cx <= 0x7fff_ffff,
                    0 <= cells <= 0x7fff_ffff,
            ;
        }
        let index = cy as i64 + cx as i64 * cells as i64;
        if index < size as i64 {
            self.hover = Some(self.colors[(size as i64 - index - 1) as usize]);
        } else {
            self.hover = None;
        }
    }
}

/// Adding colors to a palette without repeated colors never repeats one.
pub proof fn law_add_keeps_distinct(before: Seq<Rgba8>, color: Rgba8)
    requires
        distinct(before),
    ensures
        distinct(if before.contains(color) {
            before
        } else {
            before.push(color)
        }),
{
}

/// The total of a color's red, green and blue: how light it is.
pub open spec fn luminosity(c: Rgba8) -> int {
    c.r + c.g + c.b
}

/// How many colors at the front of a sorted sequence are no lighter than
/// `c`: where `c` goes so that it comes after them.
pub open spec fn insert_pos(s: Seq<Rgba8>, c: Rgba8) -> int
    decreases s.len(),
{
    if s.len() == 0 {
        0
    } else if luminosity(s.last()) <= luminosity(c) {
        s.len() as int
    } else {
        insert_pos(s.drop_last(), c)
    }
}

/// The colors sorted by luminosity, colors of equal luminosity staying in
/// the order they were in.
pub open spec fn sorted_by_luminosity(s: Seq<Rgba8>) -> Seq<Rgba8>
    decreases s.len(),
{
    if s.len() == 0 {
        s
    } else {
        let t = sorted_by_luminosity(s.drop_last());
        t.insert(insert_pos(t, s.last()), s.last())
    }
}

/// Whether colors go from darker to lighter.
pub open spec fn is_sorted(s: Seq<Rgba8>) -> bool {
    forall|i: int, j: int| 0 <= i < j < s.len() ==> luminosity(s[i]) <= luminosity(s[j])
}

proof fn lemma_insert_pos(s: Seq<Rgba8>, c: Rgba8)
    requires
        is_sorted(s),
    ensures
        0 <= insert_pos(s, c) <= s.len(),
        forall|i: int| 0 <= i < insert_pos(s, c) ==> luminosity(#[trigger] s[i]) <= luminosity(c),
        forall|i: int| insert_pos(s, c) <= i < s.len() ==> luminosity(c) < luminosity(#[trigger] s[i]),
    decreases s.len(),
{
    if s.len() > 0 {
        if luminosity(s.last()) > luminosity(c) {
            let d = s.drop_last();
            assert forall|i: int, j: int| 0 <= i < j < d.len() implies luminosity(d[i]) <= luminosity(d[j]) by {
                assert(d[i] == s[i] && d[j] == s[j]);
            }
            lemma_insert_pos(d, c);
            assert forall|i: int| 0 <= i < insert_pos(s, c) implies luminosity(#[trigger] s[i]) <= luminosity(c) by {
                assert(s[i] == d[i]);
            }
            assert forall|i: int| insert_pos(s, c) <= i < s.len() implies luminosity(c) < luminosity(#[trigger] s[i]) by {
                if i < d.len() {
                    assert(s[i] == d[i]);
                }
            }
        } else {
            assert forall|i: int| 0 <= i < insert_pos(s, c) implies luminosity(#[trigger] s[i]) <= luminosity(c) by {
                if i < s.len() - 1 {
                    assert(luminosity(s[i]) <= luminosity(s[s.len() - 1]));
                }
            }
        }
    }
}

/// Whether a color's red, green and blue channels add up to `v`.
pub open spec fn channels_sum_to(v: int) -> spec_fn(Rgba8) -> bool {
    |c: Rgba8| c.r + c.g + c.b == v
}

/// Filtering out every element leaves nothing.
proof fn lemma_filter_none(s: Seq<Rgba8>, p: spec_fn(Rgba8) -> bool)
    requires
        forall|i: int| 0 <= i < s.len() ==> !p(#[trigger] s[i]),
    ensures
        s.filter(p) == Seq::<Rgba8>::empty(),
    decreases s.len(),
{
    if s.len() > 0 {
        let d = s.drop_last();
        assert forall|i: int| 0 <= i < d.len() implies !p(#[trigger] d[i]) by {
            assert(d[i] == s[i]);
        }
        lemma_filter_none(d, p);
        assert(s == d.push(s.last()));
        d.lemma_filter_push(s.last(), p);
        assert(!p(s[s.len() - 1]));
    } else {
        reveal(Seq::filter);
        assert(s.filter(p) =~= Seq::<Rgba8>::empty());
    }
}

/// Inserting a color where sorting puts it, among sorted colors, puts it
/// after every color whose channels add up to the same sum.
proof fn lemma_filter_insert(t: Seq<Rgba8>, x: Rgba8, v: int)
    requires
        is_sorted(t),
    ensures
        t.insert(insert_pos(t, x), x).filter(channels_sum_to(v)) == if x.r + x.g + x.b == v {
            t.filter(channels_sum_to(v)).push(x)
        } else {
            t.filter(channels_sum_to(v))
        },
{
    let f = channels_sum_to(v);
    lemma_insert_pos(t, x);
    let p = insert_pos(t, x);
    let a = t.take(p);
    let b = t.skip(p);
    assert(t =~= a + b);
    assert(t.insert(p, x) =~= a.push(x) + b);
    Seq::filter_distributes_over_add(a, b, f);
    Seq::filter_distributes_over_add(a.push(x), b, f);
    a.lemma_filter_push(x, f);
    if x.r + x.g + x.b == v {
        assert forall|i: int| 0 <= i < b.len() implies !f(#[trigger] b[i]) by {
            assert(b[i] == t[p + i]);
            assert(luminosity(x) < luminosity(t[p + i]));
        }
        lemma_filter_none(b, f);
        assert(a.filter(f) + Seq::<Rgba8>::empty() =~= a.filter(f));
        assert(a.filter(f).push(x) + Seq::<Rgba8>::empty() =~= a.filter(f).push(x));
    }
}

/// Sorting keeps colors whose channels add up to the same sum in the order
/// they were in: for every sum, the colors with that sum come out in the
/// order they went in.
pub proof fn law_sort_is_stable(s: Seq<Rgba8>, v: int)
    ensures
        sorted_by_luminosity(s).filter(channels_sum_to(v)) == s.filter(channels_sum_to(v)),
    decreases s.len(),
{
    if s.len() > 0 {
        let d = s.drop_last();
        law_sort_is_stable(d, v);
        law_sorted_by_luminosity(d);
        lemma_filter_insert(sorted_by_luminosity(d), s.last(), v);
        assert(s == d.push(s.last()));
        d.lemma_filter_push(s.last(), channels_sum_to(v));
    }
}

/// Sorting the palette orders its colors by the sum of their red, green and
/// blue channels, darkest first, and keeps every color.
pub proof fn law_sort_orders_channel_sums(s: Seq<Rgba8>)
    ensures
        forall|i: int, j: int|
            0 <= i < j < sorted_by_luminosity(s).len() ==> (#[trigger] sorted_by_luminosity(s)[i]).r
                + sorted_by_luminosity(s)[i].g + sorted_by_luminosity(s)[i].b <= (
            #[trigger] sorted_by_luminosity(s)[j]).r + sorted_by_luminosity(s)[j].g + sorted_by_luminosity(s)[j].b,
        sorted_by_luminosity(s).to_multiset() == s.to_multiset(),
{
    law_sorted_by_luminosity(s);
}

/// Sorting by luminosity sorts the colors, and keeps each of them.
pub proof fn law_sorted_by_luminosity(s: Seq<Rgba8>)
    ensures
        is_sorted(sorted_by_luminosity(s)),
        sorted_by_luminosity(s).to_multiset() == s.to_multiset(),
    decreases s.len(),
{
    broadcast use vstd::seq_lib::group_to_multiset_ensures;
    if s.len() > 0 {
        let t = sorted_by_luminosity(s.drop_last());
        law_sorted_by_luminosity(s.drop_last());
        lemma_insert_pos(t, s.last());
        let p = insert_pos(t, s.last());
        let r = t.insert(p, s.last());
        assert forall|i: int, j: int| 0 <= i < j < r.len() implies luminosity(r[i]) <= luminosity(r[j]) by {
            if j < p {
            } else if j == p {
            } else if i < p {
                assert(r[j] == t[j - 1]);
            } else if i == p {
                assert(r[j] == t[j - 1]);
            } else {
                assert(r[i] == t[i - 1] && r[j] == t[j - 1]);
            }
        }
        assert(s =~= s.drop_last().push(s.last()));
        assert(r.to_multiset() =~= t.to_multiset().insert(s.last())) by {
            vstd::seq_lib::to_multiset_insert(t, p, s.last());
        }
    }
}

impl Palette {
    /// Sort the colors by luminosity, keeping colors of equal luminosity in
    /// the order they were in.
    pub fn sort(&mut self)
        ensures
            final(self).colors@ == sorted_by_luminosity(old(self).colors@),
            final(self).colors@.to_multiset() == old(self).colors@.to_multiset(),
            forall|i: int, j: int|
                0 <= i < j < final(self).colors@.len() ==> (#[trigger] final(self).colors@[i]).r
                    + final(self).colors@[i].g + final(self).colors@[i].b <= (#[trigger] final(self).colors@[j]).r
                    + final(self).colors@[j].g + final(self).colors@[j].b,
            forall|v: int|
                #[trigger] final(self).colors@.filter(channels_sum_to(v)) == old(self).colors@.filter(channels_sum_to(v)),
            final(self).hover == old(self).hover,
            final(self).height == old(self).height,
    {
        let ghost s = self.colors@;
        let mut out: Vec<Rgba8> = Vec::new();
        let mut i: usize = 0;
        assert(s.take(0) =~= Seq::<Rgba8>::empty());
        while i < self.colors.len()
            invariant
                s == self.colors@,
                i <= s.len(),
                out@ == sorted_by_luminosity(s.take(i as int)),
            decreases s.len() - i,
        {
            let c = self.colors[i];
            proof {
                law_sorted_by_luminosity(s.take(i as int));
                assert(s.take(i + 1).drop_last() =~= s.take(i as int));
                assert(s.take(i + 1).last() == c);
            }
            let mut p: usize = out.len();
            assert(out@.take(p as int) =~= out@);
            while p > 0 && (out[p - 1].r as u32 + out[p - 1].g as u32 + out[p - 1].b as u32) > (c.r as u32
                + c.g as u32 + c.b as u32)
                invariant
                    p <= out@.len(),
                    insert_pos(out@, c) == insert_pos(out@.take(p as int), c),
                decreases p,
            {
                assert(out@.take(p as int).drop_last() =~= out@.take(p - 1));
                assert(out@.take(p as int).last() == out@[p - 1]);
                p = p - 1;
            }
            proof {
                if p > 0 {
                    assert(out@.take(p as int).last() == out@[p - 1]);
                }
            }
            out.insert(p, c);
            i = i + 1;
        }
        assert(s.take(i as int) =~= s);
        self.colors = out;
        proof {
            law_sort_orders_channel_sums(s);
            assert forall|v: int| #[trigger] self.colors@.filter(channels_sum_to(v)) == s.filter(channels_sum_to(v)) by {
                law_sort_is_stable(s, v);
            }
        }
    }
}

} // verus!

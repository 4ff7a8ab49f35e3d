use vstd::arithmetic::div_mod::{lemma_mod_bound, lemma_multiply_divide_lt};
use vstd::prelude::*;

verus! {

/// A view into a pixel buffer.
pub struct Pixels<'a, T> {
    width: usize,
    height: usize,
    pixels: &'a [T],
}

impl<'a, T: Copy> Pixels<'a, T> {
    pub closed spec fn width_view(&self) -> nat {
        self.width as nat
    }

    pub closed spec fn buffer(&self) -> Seq<T> {
        self.pixels@
    }

    pub fn new(pixels: &'a [T], width: usize, height: usize) -> (p: Self)
        ensures
            p.width_view() == width,
            p.buffer() == pixels@,
    {
        Self { width, height, pixels }
    }

    /// The pixel at column `x` of row `y`, if within the buffer.
    pub fn get(&self, x: usize, y: usize) -> (r: Option<&T>)
        requires
            self.width_view() * y + x <= usize::MAX,
        ensures
            ({
                let i = self.width_view() * y + x;
                &&& i < self.buffer().len() ==> r is Some && *r.unwrap() == self.buffer()[i]
                &&& i >= self.buffer().len() ==> r is None
            }),
    {
        let i = self.width * y + x;
        if i < self.pixels.len() {
            Some(&self.pixels[i])
        } else {
            None
        }
    }
}

/// A mutable pixel buffer.
pub struct PixelsMut<T> {
    width: usize,
    height: usize,
    pixels: Vec<T>,
}

impl<T: Copy> PixelsMut<T> {
    pub closed spec fn width_view(&self) -> nat {
        self.width as nat
    }

    pub closed spec fn height_view(&self) -> nat {
        self.height as nat
    }

    pub closed spec fn buffer(&self) -> Seq<T> {
        self.pixels@
    }

    /// Wrap a buffer of `width * height` pixels.
    pub fn new(pixels: Vec<T>, width: usize, height: usize) -> (p: Self)
        requires
            pixels@.len() == width * height,
        ensures
            p.width_view() == width,
            p.height_view() == height,
            p.buffer() == pixels@,
    {
        Self { width, height, pixels }
    }

    /// Every pixel with its column and row, in buffer order. The `i`-th item
    /// stands for buffer index `i`, which `set` writes.
    pub fn iter_mut(&self) -> (r: Vec<(usize, usize, T)>)
        requires
            self.buffer().len() == self.width_view() * self.height_view(),
        ensures
            r@.len() == self.buffer().len(),
            forall|i: int|
                0 <= i < r@.len() ==> #[trigger] r@[i] == (
                    (i % self.width_view() as int) as usize,
                    (i / self.width_view() as int) as usize,
                    self.buffer()[i],
                ),
    {
        let mut r: Vec<(usize, usize, T)> = Vec::new();
        let n = self.pixels.len();
        let mut i: usize = 0;
        while i < n
            invariant
                n == self.buffer().len(),
                n == self.width_view() * self.height_view(),
                i <= n,
                r@.len() == i,
                forall|j: int|
                    0 <= j < i ==> #[trigger] r@[j] == (
                        (j % self.width_view() as int) as usize,
                        (j / self.width_view() as int) as usize,
                        self.buffer()[j],
                    ),
            decreases n - i,
        {
            proof {
                assert(self.width > 0) by (nonlinear_arith)
                    requires
                        i < self.width * self.height,
                ;
                lemma_mod_bound(i as int, self.width as int);
                assert(i / self.width <= i) by (nonlinear_arith)
                    requires
                        self.width > 0,
                ;
            }
            r.push((i % self.width, i / self.width, self.pixels[i]));
            i = i + 1;
        }
        r
    }

    /// Set the pixel at buffer index `i`.
    pub fn set(&mut self, i: usize, value: T)
        requires
            i < old(self).buffer().len(),
        ensures
            final(self).buffer() == old(self).buffer().update(i as int, value),
            final(self).width_view() == old(self).width_view(),
            final(self).height_view() == old(self).height_view(),
    {
        self.pixels.set(i, value);
    }

    /// The underlying buffer.
    pub fn into_inner(self) -> (v: Vec<T>)
        ensures
            v@ == self.buffer(),
    {
        self.pixels
    }
}

/// Nearest-neighbor scaling: the source pixel of output pixel `i` of an
/// image `w` pixels wide scaled by `f`.
pub open spec fn scaled_source(i: int, w: int, f: int) -> int {
    ((i / (w * f)) / f) * w + (i % (w * f)) / f
}

/// The output pixel at column `x` and row `y` of an image `w` pixels wide
/// scaled by `f` comes from the source pixel at column `x / f` of row
/// `y / f`.
pub proof fn law_scaled_source(x: int, y: int, w: int, f: int)
    requires
        w > 0,
        f > 0,
        0 <= x < w * f,
        0 <= y,
    ensures
        scaled_source(y * (w * f) + x, w, f) == (y / f) * w + x / f,
{
    let ow = w * f;
    assert(w * f > 0) by (nonlinear_arith)
        requires
            w > 0,
            f > 0,
    ;
    vstd::arithmetic::div_mod::lemma_fundamental_div_mod_converse(y * ow + x, ow, y, x);
}

/// Scale an image using the nearest-neighbor algorithm, by a given factor.
pub fn scale<T: Default + Clone + Copy>(image: &[T], width: u32, height: u32, factor: u32) -> (out:
    Vec<T>)
    requires
        width * height <= u32::MAX,
        image@.len() == width * height,
        width * factor <= u32::MAX,
        height * factor <= u32::MAX,
        (width * factor) * (height * factor) <= usize::MAX,
    ensures
        out@.len() == (width * factor) * (height * factor),
        forall|i: int|
            0 <= i < out@.len() ==> #[trigger] out@[i] == image@[scaled_source(
                i,
                width as int,
                factor as int,
            )],
{
    let w = width as usize;
    let h = height as usize;
    let f = factor as usize;
    let ow = (width * factor) as usize;
    let oh = (height * factor) as usize;
    let n = ow * oh;
    let ilen = image.len();
    let input = Pixels::new(image, w, h);
    let mut out: Vec<T> = Vec::new();
    let mut i: usize = 0;
    while i < n
        invariant
            n == ow * oh,
            ow == w * f,
            oh == h * f,
            image@.len() == w * h,
            ilen == image@.len(),
            input.buffer() == image@,
            input.width_view() == w,
            i <= n,
            out@.len() == i,
            forall|j: int|
                0 <= j < i ==> #[trigger] out@[j] == image@[scaled_source(j, w as int, f as int)],
        decreases n - i,
    {
        proof {
            assert(ow > 0 && oh > 0) by (nonlinear_arith)
                requires
                    i < ow * oh,
            ;
            assert(f > 0 && w > 0 && h > 0) by (nonlinear_arith)
                requires
                    ow == w * f,
                    oh == h * f,
                    ow > 0,
                    oh > 0,
            ;
        }
        let x = i % ow;
        let y = i / ow;
        proof {
            lemma_mod_bound(i as int, ow as int);
            lemma_multiply_divide_lt(i as int, ow as int, oh as int);
            assert(x < f * w) by (nonlinear_arith)
                requires
                    x < ow,
                    ow == w * f,
            ;
            assert(y < f * h) by (nonlinear_arith)
                requires
                    y < oh,
                    oh == h * f,
            ;
            lemma_multiply_divide_lt(x as int, f as int, w as int);
            lemma_multiply_divide_lt(y as int, f as int, h as int);
        }
        let sx = x / f;
        let sy = y / f;
        proof {
            assert(sy * w + sx < w * h) by (nonlinear_arith)
                requires
                    sy < h,
                    sx < w,
            ;
            assert(w * sy + sx < w * h) by (nonlinear_arith)
                requires
                    sy < h,
                    sx < w,
            ;
        }
        let p = *input.get(sx, sy).unwrap();
        out.push(p);
        proof {
            assert(scaled_source(i as int, w as int, f as int) == sy * w + sx);
        }
        i = i + 1;
    }
    out
}

} // verus!

use crate::color::{Bgra8, Rgba8};
use std::ops::Range;
use vstd::prelude::*;

verus! {

/// The order of the channels of stored pixels.
#[derive(Clone, Copy, Debug, PartialEq, Eq, Structural)]
pub enum PixelFormat {
    Rgba8,
    Bgra8,
}

/// Four bytes of a stored pixel, in memory order.
pub type Quad = (u8, u8, u8, u8);

pub open spec fn bgra_to_rgba(c: Bgra8) -> Rgba8 {
    Rgba8 { r: c.r, g: c.g, b: c.b, a: c.a }
}

pub open spec fn rgba_to_bgra(c: Rgba8) -> Bgra8 {
    Bgra8 { b: c.b, g: c.g, r: c.r, a: c.a }
}

/// The color stored in a quad of the given format.
pub open spec fn decode(format: PixelFormat, q: Quad) -> Rgba8 {
    match format {
        PixelFormat::Rgba8 => Rgba8 { r: q.0, g: q.1, b: q.2, a: q.3 },
        PixelFormat::Bgra8 => Rgba8 { r: q.2, g: q.1, b: q.0, a: q.3 },
    }
}

/// A pixel buffer in either channel order.
#[derive(Clone, Debug)]
pub struct Pixels {
    format: PixelFormat,
    buf: Vec<Quad>,
}

impl Pixels {
    pub closed spec fn format_view(&self) -> PixelFormat {
        self.format
    }

    /// The stored quads, in memory order.
    pub closed spec fn raw(&self) -> Seq<Quad> {
        self.buf@
    }

    /// The colors of the pixels.
    pub closed spec fn colors(&self) -> Seq<Rgba8> {
        Seq::new(self.buf@.len(), |i: int| decode(self.format, self.buf@[i]))
    }

    pub fn format(&self) -> (f: PixelFormat)
        ensures
            f == self.format_view(),
    {
        self.format
    }

    /// A transparent buffer of `w * h` pixels.
    pub fn blank(w: usize, h: usize) -> (p: Self)
        requires
            w * h <= usize::MAX,
        ensures
            p.format_view() == PixelFormat::Rgba8,
            p.colors() == Seq::new((w * h) as nat, |i: int| Rgba8 { r: 0, g: 0, b: 0, a: 0 }),
    {
        let n = w * h;
        let mut buf: Vec<Quad> = Vec::new();
        let mut i: usize = 0;
        while i < n
            invariant
                i <= n,
                buf@.len() == i,
                forall|j: int| 0 <= j < i ==> #[trigger] buf@[j] == (0u8, 0u8, 0u8, 0u8),
            decreases n - i,
        {
            buf.push((0, 0, 0, 0));
            i = i + 1;
        }
        let p = Pixels { format: PixelFormat::Rgba8, buf };
        assert(p.colors() =~= Seq::new((w * h) as nat, |i: int| Rgba8 { r: 0, g: 0, b: 0, a: 0 }));
        p
    }

    pub fn is_empty(&self) -> (b: bool)
        ensures
            b == (self.colors().len() == 0),
    {
        self.len() == 0
    }

    pub fn len(&self) -> (n: usize)
        ensures
            n == self.colors().len(),
    {
        self.buf.len()
    }

    /// Wrap RGBA pixels.
    pub fn from_rgba8(buf: Vec<Rgba8>) -> (p: Self)
        ensures
            p.format_view() == PixelFormat::Rgba8,
            p.colors() == buf@,
    {
        let mut raw: Vec<Quad> = Vec::new();
        let mut i: usize = 0;
        while i < buf.len()
            invariant
                i <= buf@.len(),
                raw@.len() == i,
                forall|j: int| 0 <= j < i ==> decode(PixelFormat::Rgba8, #[trigger] raw@[j]) == buf@[j],
            decreases buf@.len() - i,
        {
            let c = buf[i];
            raw.push((c.r, c.g, c.b, c.a));
            i = i + 1;
        }
        let p = Pixels { format: PixelFormat::Rgba8, buf: raw };
        assert(p.colors() =~= buf@);
        p
    }

    /// Wrap BGRA pixels.
    pub fn from_bgra8(buf: Vec<Bgra8>) -> (p: Self)
        ensures
            p.format_view() == PixelFormat::Bgra8,
            p.colors() == buf@.map_values(|c: Bgra8| bgra_to_rgba(c)),
    {
        let mut raw: Vec<Quad> = Vec::new();
        let mut i: usize = 0;
        while i < buf.len()
            invariant
                i <= buf@.len(),
                raw@.len() == i,
                forall|j: int| 0 <= j < i ==> decode(PixelFormat::Bgra8, #[trigger] raw@[j]) == bgra_to_rgba(buf@[j]),
            decreases buf@.len() - i,
        {
            let c = buf[i];
            raw.push((c.b, c.g, c.r, c.a));
            i = i + 1;
        }
        let p = Pixels { format: PixelFormat::Bgra8, buf: raw };
        assert(p.colors() =~= buf@.map_values(|c: Bgra8| bgra_to_rgba(c)));
        p
    }

    /// The colors of the pixels in the given range.
    pub fn slice(&self, r: Range<usize>) -> (v: Vec<Rgba8>)
        requires
            r.start <= r.end <= self.colors().len(),
        ensures
            v@ == self.colors().subrange(r.start as int, r.end as int),
    {
        let mut v: Vec<Rgba8> = Vec::new();
        let mut i: usize = r.start;
        while i < r.end
            invariant
                r.start <= i <= r.end,
                r.end <= self.buf@.len(),
                v@ == self.colors().subrange(r.start as int, i as int),
            decreases r.end - i,
        {
            v.push(self.color_at(i));
            proof {
                assert(v@ =~= self.colors().subrange(r.start as int, i + 1));
            }
            i = i + 1;
        }
        v
    }

    fn color_at(&self, i: usize) -> (c: Rgba8)
        requires
            i < self.buf@.len(),
        ensures
            c == self.colors()[i as int],
    {
        let q = self.buf[i];
        match self.format {
            PixelFormat::Rgba8 => Rgba8 { r: q.0, g: q.1, b: q.2, a: q.3 },
            PixelFormat::Bgra8 => Rgba8 { r: q.2, g: q.1, b: q.0, a: q.3 },
        }
    }

    /// The color of pixel `idx`, if any.
    pub fn get(&self, idx: usize) -> (c: Option<Rgba8>)
        ensures
            idx < self.colors().len() ==> c == Some(self.colors()[idx as int]),
            idx >= self.colors().len() ==> c is None,
    {
        if idx < self.buf.len() {
            Some(self.color_at(idx))
        } else {
            None
        }
    }

    /// The colors of all pixels.
    pub fn iter(&self) -> (v: Vec<Rgba8>)
        ensures
            v@ == self.colors(),
    {
        let v = self.slice(0..self.buf.len());
        assert(self.colors().subrange(0, self.colors().len() as int) =~= self.colors());
        v
    }

    /// The colors of all pixels, as RGBA.
    pub fn into_rgba8(self) -> (v: Vec<Rgba8>)
        ensures
            v@ == self.colors(),
    {
        self.iter()
    }

    /// The colors of all pixels, as BGRA.
    pub fn into_bgra8(self) -> (v: Vec<Bgra8>)
        ensures
            v@ == self.colors().map_values(|c: Rgba8| rgba_to_bgra(c)),
    {
        let mut v: Vec<Bgra8> = Vec::new();
        let mut i: usize = 0;
        while i < self.buf.len()
            invariant
                i <= self.buf@.len(),
                v@.len() == i,
                forall|j: int| 0 <= j < i ==> #[trigger] v@[j] == rgba_to_bgra(self.colors()[j]),
            decreases self.buf@.len() - i,
        {
            let c = self.color_at(i);
            v.push(c.to_bgra8());
            i = i + 1;
        }
        assert(v@ =~= self.colors().map_values(|c: Rgba8| rgba_to_bgra(c)));
        v
    }

    /// The stored bytes, in memory order.
    pub fn as_bytes(&self) -> (v: Vec<u8>)
        requires
            self.raw().len() * 4 <= usize::MAX,
        ensures
            v@.len() == 4 * self.raw().len(),
            forall|i: int|
                0 <= i < self.raw().len() ==> v@[4 * i] == #[trigger] self.raw()[i].0 && v@[4 * i + 1]
                    == self.raw()[i].1 && v@[4 * i + 2] == self.raw()[i].2 && v@[4 * i + 3]
                    == self.raw()[i].3,
    {
        let mut v: Vec<u8> = Vec::new();
        let mut i: usize = 0;
        while i < self.buf.len()
            invariant
                i <= self.buf@.len(),
                v@.len() == 4 * i,
                forall|j: int|
                    0 <= j < i ==> v@[4 * j] == #[trigger] self.buf@[j].0 && v@[4 * j + 1]
                        == self.buf@[j].1 && v@[4 * j + 2] == self.buf@[j].2 && v@[4 * j + 3]
                        == self.buf@[j].3,
            decreases self.buf@.len() - i,
        {
            let q = self.buf[i];
            v.push(q.0);
            v.push(q.1);
            v.push(q.2);
            v.push(q.3);
            i = i + 1;
        }
        v
    }

    /// The pixels as RGBA colors, if they are stored in that order.
    pub fn as_rgba8(&self) -> (r: Option<Vec<Rgba8>>)
        ensures
            self.format_view() == PixelFormat::Rgba8 ==> (r matches Some(v) && v@ == self.colors()),
            self.format_view() == PixelFormat::Bgra8 ==> r is None,
    {
        match self.format {
            PixelFormat::Rgba8 => Some(self.iter()),
            PixelFormat::Bgra8 => None,
        }
    }
}

/// Storing BGRA pixels and reading them back as BGRA gives them back.
pub proof fn law_bgra_roundtrip(v: Seq<Bgra8>)
    ensures
        v.map_values(|c: Bgra8| bgra_to_rgba(c)).map_values(|c: Rgba8| rgba_to_bgra(c)) == v,
{
    assert(v.map_values(|c: Bgra8| bgra_to_rgba(c)).map_values(|c: Rgba8| rgba_to_bgra(c)) =~= v);
}

} // verus!

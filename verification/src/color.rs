use vstd::prelude::*;

verus! {

/// An RGBA color with 8 bits per channel.
#[derive(Clone, Copy, Debug, PartialEq, Eq, Structural, PartialOrd, Ord, Hash)]
pub struct Rgba8 {
    pub r: u8,
    pub g: u8,
    pub b: u8,
    pub a: u8,
}

/// A BGRA color with 8 bits per channel, as laid out by some framebuffers.
#[derive(Clone, Copy, Debug, PartialEq, Eq, Structural, Hash)]
pub struct Bgra8 {
    pub b: u8,
    pub g: u8,
    pub r: u8,
    pub a: u8,
}

/// An RGB color with 8 bits per channel.
#[derive(Clone, Copy, Debug, PartialEq, Eq, Structural, Hash)]
pub struct Rgb8 {
    pub r: u8,
    pub g: u8,
    pub b: u8,
}

impl Rgba8 {
    pub fn transparent() -> (c: Rgba8)
        ensures
            c == (Rgba8 { r: 0, g: 0, b: 0, a: 0 }),
    {
        Rgba8 { r: 0, g: 0, b: 0, a: 0 }
    }

    pub fn white() -> (c: Rgba8)
        ensures
            c == (Rgba8 { r: 0xff, g: 0xff, b: 0xff, a: 0xff }),
    {
        Rgba8 { r: 0xff, g: 0xff, b: 0xff, a: 0xff }
    }

    pub fn black() -> (c: Rgba8)
        ensures
            c == (Rgba8 { r: 0, g: 0, b: 0, a: 0xff }),
    {
        Rgba8 { r: 0, g: 0, b: 0, a: 0xff }
    }

    pub fn red() -> (c: Rgba8)
        ensures
            c == (Rgba8 { r: 0xff, g: 0, b: 0, a: 0xff }),
    {
        Rgba8 { r: 0xff, g: 0, b: 0, a: 0xff }
    }

    pub fn green() -> (c: Rgba8)
        ensures
            c == (Rgba8 { r: 0, g: 0xff, b: 0, a: 0xff }),
    {
        Rgba8 { r: 0, g: 0xff, b: 0, a: 0xff }
    }

    pub fn blue() -> (c: Rgba8)
        ensures
            c == (Rgba8 { r: 0, g: 0, b: 0xff, a: 0xff }),
    {
        Rgba8 { r: 0, g: 0, b: 0xff, a: 0xff }
    }


    pub fn new(r: u8, g: u8, b: u8, a: u8) -> (c: Rgba8)
        ensures
            c == (Rgba8 { r, g, b, a }),
    {
        Rgba8 { r, g, b, a }
    }

    /// The same color with the given alpha.
    pub fn alpha(self, a: u8) -> (c: Rgba8)
        ensures
            c == (Rgba8 { a, ..self }),
    {
        Rgba8 { r: self.r, g: self.g, b: self.b, a }
    }

    pub fn to_bgra8(self) -> (c: Bgra8)
        ensures
            c == (Bgra8 { b: self.b, g: self.g, r: self.r, a: self.a }),
    {
        Bgra8 { b: self.b, g: self.g, r: self.r, a: self.a }
    }

    /// Drop the alpha channel.
    pub fn to_rgb8(self) -> (c: Rgb8)
        ensures
            c == (Rgb8 { r: self.r, g: self.g, b: self.b }),
    {
        Rgb8 { r: self.r, g: self.g, b: self.b }
    }
}

impl Bgra8 {
    pub fn transparent() -> (c: Bgra8)
        ensures
            c == (Bgra8 { r: 0, g: 0, b: 0, a: 0 }),
    {
        Bgra8 { r: 0, g: 0, b: 0, a: 0 }
    }


    pub fn to_rgba8(self) -> (c: Rgba8)
        ensures
            c == (Rgba8 { r: self.r, g: self.g, b: self.b, a: self.a }),
    {
        Rgba8 { r: self.r, g: self.g, b: self.b, a: self.a }
    }
}

/// The channel `k` (0 = red, 1 = green, 2 = blue, 3 = alpha) of a color.
pub open spec fn channel(c: Rgba8, k: int) -> u8 {
    if k == 0 {
        c.r
    } else if k == 1 {
        c.g
    } else if k == 2 {
        c.b
    } else {
        c.a
    }
}

/// The bytes of a pixel buffer in memory order: red, green, blue, alpha.
pub open spec fn rgba_bytes(p: Seq<Rgba8>) -> Seq<u8>
    decreases p.len(),
{
    if p.len() == 0 {
        Seq::empty()
    } else {
        let c = p.last();
        rgba_bytes(p.drop_last()) + seq![c.r, c.g, c.b, c.a]
    }
}

pub proof fn lemma_rgba_bytes(p: Seq<Rgba8>)
    ensures
        rgba_bytes(p).len() == 4 * p.len(),
        forall|j: int, k: int|
            0 <= j < p.len() && 0 <= k < 4 ==> #[trigger] rgba_bytes(p)[4 * j + k] == channel(
                p[j],
                k,
            ),
    decreases p.len(),
{
    if p.len() > 0 {
        let q = p.drop_last();
        lemma_rgba_bytes(q);
        assert forall|j: int, k: int|
            0 <= j < p.len() && 0 <= k < 4 implies #[trigger] rgba_bytes(p)[4 * j + k] == channel(
            p[j],
            k,
        ) by {
            if j < q.len() {
                assert(rgba_bytes(q)[4 * j + k] == channel(q[j], k));
            }
        }
    }
}

/// Serialize pixels into bytes.
pub fn rgba8_to_bytes(pixels: &[Rgba8]) -> (out: Vec<u8>)
    requires
        pixels@.len() * 4 <= usize::MAX,
    ensures
        out@ == rgba_bytes(pixels@),
{
    let mut out: Vec<u8> = Vec::new();
    let mut i: usize = 0;
    while i < pixels.len()
        invariant
            i <= pixels@.len(),
            out@ == rgba_bytes(pixels@.subrange(0, i as int)),
        decreases pixels@.len() - i,
    {
        let c = pixels[i];
        out.push(c.r);
        out.push(c.g);
        out.push(c.b);
        out.push(c.a);
        proof {
            assert(pixels@.subrange(0, i + 1).drop_last() =~= pixels@.subrange(0, i as int));
        }
        i = i + 1;
    }
    assert(pixels@.subrange(0, pixels@.len() as int) =~= pixels@);
    out
}

/// Deserialize bytes written by `rgba8_to_bytes`.
pub fn rgba8_from_bytes(bytes: &[u8], Ghost(expected): Ghost<Seq<Rgba8>>) -> (out: Vec<Rgba8>)
    requires
        bytes@ == rgba_bytes(expected),
    ensures
        out@ == expected,
{
    proof {
        lemma_rgba_bytes(expected);
    }
    let blen = bytes.len();
    let n = blen / 4;
    let mut out: Vec<Rgba8> = Vec::new();
    let mut j: usize = 0;
    while j < n
        invariant
            n == expected.len(),
            blen == bytes@.len(),
            bytes@.len() == 4 * expected.len(),
            bytes@ == rgba_bytes(expected),
            forall|jj: int, k: int|
                0 <= jj < expected.len() && 0 <= k < 4 ==> #[trigger] rgba_bytes(expected)[4 * jj
                    + k] == channel(expected[jj], k),
            j <= n,
            out@ == expected.subrange(0, j as int),
        decreases n - j,
    {
        proof {
            assert(rgba_bytes(expected)[4 * j + 0] == channel(expected[j as int], 0));
            assert(rgba_bytes(expected)[4 * j + 1] == channel(expected[j as int], 1));
            assert(rgba_bytes(expected)[4 * j + 2] == channel(expected[j as int], 2));
            assert(rgba_bytes(expected)[4 * j + 3] == channel(expected[j as int], 3));
        }
        let c = Rgba8 { r: bytes[4 * j], g: bytes[4 * j + 1], b: bytes[4 * j + 2], a: bytes[4 * j + 3] };
        out.push(c);
        proof {
            assert(out@ =~= expected.subrange(0, j + 1));
        }
        j = j + 1;
    }
    assert(expected.subrange(0, n as int) =~= expected);
    out
}

impl Rgba8 {
    /// Read pixels from their bytes, four per pixel: red, green, blue, alpha.
    pub fn align(bytes: &[u8]) -> (out: Vec<Rgba8>)
        requires
            bytes@.len() % 4 == 0,
        ensures
            rgba_bytes(out@) == bytes@,
            out@.len() * 4 == bytes@.len(),
    {
        let blen = bytes.len();
        let n = blen / 4;
        let mut out: Vec<Rgba8> = Vec::new();
        let mut j: usize = 0;
        while j < n
            invariant
                n * 4 == bytes@.len(),
                blen == bytes@.len(),
                j <= n,
                out@.len() == j,
                rgba_bytes(out@) == bytes@.subrange(0, 4 * j),
            decreases n - j,
        {
            let c = Rgba8 { r: bytes[4 * j], g: bytes[4 * j + 1], b: bytes[4 * j + 2], a: bytes[4 * j + 3] };
            let ghost prev = out@;
            out.push(c);
            proof {
                assert(out@.drop_last() =~= prev);
                assert(bytes@.subrange(0, 4 * (j + 1)) =~= bytes@.subrange(0, 4 * j) + seq![c.r, c.g, c.b, c.a]);
            }
            j = j + 1;
        }
        assert(bytes@.subrange(0, 4 * n) =~= bytes@);
        out
    }
}

} // verus!

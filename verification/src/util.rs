use crate::gfx::Point2;
use crate::rect::Rect;
use vstd::arithmetic::div_mod::lemma_fundamental_div_mod_converse;
use vstd::prelude::*;

verus! {

pub open spec fn clamp_int(v: int, lo: int, hi: int) -> int {
    let v = if v < lo { lo } else { v };
    if v > hi { hi } else { v }
}

/// Clamp a point to a rectangle; the upper corner wins where the rectangle
/// is inverted.
pub fn clamp(p: &mut Point2<i32>, rect: Rect<i32>)
    ensures
        final(p).x == clamp_int(old(p).x as int, rect.x1 as int, rect.x2 as int),
        final(p).y == clamp_int(old(p).y as int, rect.y1 as int, rect.y2 as int),
{
    if p.x < rect.x1 {
        p.x = rect.x1;
    }
    if p.y < rect.y1 {
        p.y = rect.y1;
    }
    if p.x > rect.x2 {
        p.x = rect.x2;
    }
    if p.y > rect.y2 {
        p.y = rect.y2;
    }
}

/// The pixel at buffer index `k` of `n` frames of `fw` by `fh` pixels laid
/// out side by side: it comes from frame `(k % (fw * n)) / fw`.
pub open spec fn stitched_pixel<T>(frames: Seq<Seq<T>>, fw: int, k: int) -> T {
    let width = fw * frames.len();
    let col = k % width;
    frames[col / fw][(k / width) * fw + col % fw]
}

/// Lay out frames side by side in one buffer, row by row.
pub fn stitch_frames<T: Copy>(frames: Vec<Vec<T>>, fw: usize, fh: usize, val: T) -> (out: Vec<T>)
    requires
        frames@.len() >= 2 ==> forall|i: int|
            0 <= i < frames@.len() ==> #[trigger] frames@[i]@.len() >= fw * fh,
        frames@.len() >= 2 ==> fw * fh * frames@.len() <= usize::MAX,
        frames@.len() >= 2 ==> fw * frames@.len() <= usize::MAX,
    ensures
        frames@.len() == 0 ==> out@.len() == 0,
        frames@.len() == 1 ==> out@ == frames@[0]@,
        frames@.len() >= 2 ==> {
            &&& out@.len() == fw * fh * frames@.len()
            &&& forall|k: int|
                0 <= k < out@.len() ==> #[trigger] out@[k] == stitched_pixel(
                    frames@.map_values(|f: Vec<T>| f@),
                    fw as int,
                    k,
                )
        },
{
    let mut frames = frames;
    let nframes = frames.len();
    if nframes == 0 {
        return Vec::with_capacity(0);
    } else if nframes == 1 {
        return frames.remove(0);
    }
    let ghost fs = frames@.map_values(|f: Vec<T>| f@);
    proof {
        assert(fw * fh <= usize::MAX) by (nonlinear_arith)
            requires
                fw * fh * nframes <= usize::MAX,
                nframes >= 2,
        ;
    }
    let width = fw * nframes;
    let mut buffer: Vec<T> = Vec::new();
    let mut y: usize = 0;
    while y < fh
        invariant
            nframes == frames@.len(),
            nframes >= 2,
            fs == frames@.map_values(|f: Vec<T>| f@),
            forall|i: int| 0 <= i < nframes ==> #[trigger] frames@[i]@.len() >= fw * fh,
            width == fw * nframes,
            fw * fh * nframes <= usize::MAX,
            fw * fh <= usize::MAX,
            y <= fh,
            buffer@.len() == y * width,
            forall|k: int| 0 <= k < buffer@.len() ==> #[trigger] buffer@[k] == stitched_pixel(fs, fw as int, k),
        decreases fh - y,
    {
        let mut i: usize = 0;
        while i < nframes
            invariant
                nframes == frames@.len(),
                nframes >= 2,
                fs == frames@.map_values(|f: Vec<T>| f@),
                forall|i: int| 0 <= i < nframes ==> #[trigger] frames@[i]@.len() >= fw * fh,
                width == fw * nframes,
                fw * fh * nframes <= usize::MAX,
                fw * fh <= usize::MAX,
                y < fh,
                i <= nframes,
                buffer@.len() == y * width + i * fw,
                forall|k: int| 0 <= k < buffer@.len() ==> #[trigger] buffer@[k] == stitched_pixel(fs, fw as int, k),
            decreases nframes - i,
        {
            proof {
                assert(y * fw + fw <= fw * fh) by (nonlinear_arith)
                    requires
                        y < fh,
                ;
                assert(y * width + i * fw + fw <= fw * fh * nframes) by (nonlinear_arith)
                    requires
                        y < fh,
                        i < nframes,
                        width == fw * nframes,
                ;
            }
            let mut x: usize = 0;
            while x < fw
                invariant
                    nframes == frames@.len(),
                    fs == frames@.map_values(|f: Vec<T>| f@),
                    frames@[i as int]@.len() >= fw * fh,
                    width == fw * nframes,
                    y < fh,
                    i < nframes,
                    x <= fw,
                    y * fw + fw <= fw * fh,
                    fw * fh <= usize::MAX,
                    y * width + i * fw + fw <= usize::MAX,
                    buffer@.len() == y * width + i * fw + x,
                    forall|k: int| 0 <= k < buffer@.len() ==> #[trigger] buffer@[k] == stitched_pixel(fs, fw as int, k),
                decreases fw - x,
            {
                let v = frames[i][y * fw + x];
                proof {
                    let k = y * width + i * fw + x;
                    assert(i * fw + x < width) by (nonlinear_arith)
                        requires
                            i < nframes,
                            x < fw,
                            width == fw * nframes,
                    ;
                    lemma_fundamental_div_mod_converse(k, width as int, y as int, (i * fw + x) as int);
                    lemma_fundamental_div_mod_converse((i * fw + x) as int, fw as int, i as int, x as int);
                    assert(fs[i as int] == frames@[i as int]@);
                }
                buffer.push(v);
                x = x + 1;
            }
            assert(buffer@.len() == y * width + (i + 1) * fw) by (nonlinear_arith)
                requires
                    buffer@.len() == y * width + i * fw + fw,
            ;
            i = i + 1;
        }
        proof {
            assert(buffer@.len() == (y + 1) * width) by (nonlinear_arith)
                requires
                    buffer@.len() == y * width + nframes * fw,
                    width == fw * nframes,
            ;
        }
        y = y + 1;
    }
    proof {
        assert(buffer@.len() == fw * fh * nframes) by (nonlinear_arith)
            requires
                buffer@.len() == fh * width,
                width == fw * nframes,
        ;
    }
    buffer
}

} // verus!

//! The output raster: a flat RGB byte buffer that tile results are merged
//! into. Rows are stored top-down while tile samples count rows bottom-up,
//! so writing a sample flips its row.

use vstd::prelude::*;
use crate::render::ScreenPixel;

verus! {

/// The all-black buffer of a `w` by `h` image.
pub open spec fn szeros(w: int, h: int) -> Seq<u8> {
    Seq::new((w * 3 * h) as nat, |i: int| 0u8)
}

/// Byte index of the red channel of image pixel `(x, y)`, with the row
/// flip: sample row 0 is the bottom of the image, buffer row 0 the top.
pub open spec fn pidx(w: int, h: int, x: int, y: int) -> int {
    ((h - 1 - y) * w + x) * 3
}

/// The three channel bytes of pixel `(x, y)`.
pub open spec fn spixel_at(data: Seq<u8>, w: int, h: int, x: int, y: int) -> (u8, u8, u8) {
    (data[pidx(w, h, x, y)], data[pidx(w, h, x, y) + 1], data[pidx(w, h, x, y) + 2])
}

/// Value of writing one sample into the buffer.
pub open spec fn supdate(data: Seq<u8>, w: int, h: int, s: ScreenPixel) -> Seq<u8> {
    data.update(pidx(w, h, s.x as int, s.y as int), s.r).update(
        pidx(w, h, s.x as int, s.y as int) + 1,
        s.g,
    ).update(pidx(w, h, s.x as int, s.y as int) + 2, s.b)
}

/// Value of writing a list of samples in order.
pub open spec fn sapply(data: Seq<u8>, ps: Seq<ScreenPixel>, w: int, h: int) -> Seq<u8>
    decreases ps.len(),
{
    if ps.len() == 0 {
        data
    } else {
        supdate(sapply(data, ps.drop_last(), w, h), w, h, ps.last())
    }
}

/// Whether some sample of `ps` addresses pixel `(x, y)`.
pub open spec fn covers_px(ps: Seq<ScreenPixel>, x: int, y: int) -> bool {
    exists|k: int| 0 <= k < ps.len() && ps[k].x == x && ps[k].y == y
}

/// Distinct pixels within the image occupy distinct channel bytes.
proof fn lemma_pidx_inj(w: int, h: int, x1: int, y1: int, x2: int, y2: int, d1: int, d2: int)
    requires
        0 < w,
        0 < h,
        0 <= x1 < w,
        0 <= y1 < h,
        0 <= x2 < w,
        0 <= y2 < h,
        !(x1 == x2 && y1 == y2),
        0 <= d1 < 3,
        0 <= d2 < 3,
    ensures
        pidx(w, h, x1, y1) + d1 != pidx(w, h, x2, y2) + d2,
{
    let r1 = h - 1 - y1;
    let r2 = h - 1 - y2;
    assert(r1 != r2 || x1 != x2);
    assert(r1 * w + x1 != r2 * w + x2) by (nonlinear_arith)
        requires
            0 <= x1 < w,
            0 <= x2 < w,
            0 <= r1,
            0 <= r2,
            r1 != r2 || x1 != x2,
    ;
    assert((r1 * w + x1) * 3 + d1 != (r2 * w + x2) * 3 + d2) by (nonlinear_arith)
        requires
            r1 * w + x1 != r2 * w + x2,
            0 <= d1 < 3,
            0 <= d2 < 3,
    ;
}

/// Channel bytes of an in-range pixel lie within the buffer.
pub proof fn lemma_pidx_range(w: int, h: int, x: int, y: int)
    requires
        0 < w,
        0 < h,
        0 <= x < w,
        0 <= y < h,
    ensures
        0 <= pidx(w, h, x, y),
        pidx(w, h, x, y) + 2 < w * 3 * h,
{
    let r = h - 1 - y;
    assert(0 <= r * w + x && (r * w + x) * 3 + 2 < w * 3 * h) by (nonlinear_arith)
        requires
            0 <= r < h,
            0 <= x < w,
    ;
}

/// Writing in-range samples never changes the buffer's length.
pub proof fn lemma_sapply_len(data: Seq<u8>, ps: Seq<ScreenPixel>, w: int, h: int)
    requires
        0 < w,
        0 < h,
        data.len() == w * 3 * h,
        forall|k: int| 0 <= k < ps.len() ==> #[trigger] ps[k].x < w && ps[k].y < h,
    ensures
        sapply(data, ps, w, h).len() == data.len(),
    decreases ps.len(),
{
    if ps.len() > 0 {
        assert(forall|k: int|
            0 <= k < ps.drop_last().len() ==> #[trigger] ps.drop_last()[k].x < w
                && ps.drop_last()[k].y < h) by {
            assert(forall|k: int|
                0 <= k < ps.drop_last().len() ==> ps.drop_last()[k] == #[trigger] ps[k]);
        }
        lemma_sapply_len(data, ps.drop_last(), w, h);
        let s = ps.last();
        assert(ps[ps.len() - 1] == s);
        lemma_pidx_range(w, h, s.x as int, s.y as int);
    }
}

/// A pixel none of the samples address keeps its bytes across `sapply`.
pub proof fn lemma_sapply_untouched(
    data: Seq<u8>,
    ps: Seq<ScreenPixel>,
    w: int,
    h: int,
    x: int,
    y: int,
)
    requires
        0 < w,
        0 < h,
        data.len() == w * 3 * h,
        forall|k: int| 0 <= k < ps.len() ==> #[trigger] ps[k].x < w && ps[k].y < h,
        0 <= x < w,
        0 <= y < h,
        !covers_px(ps, x, y),
    ensures
        sapply(data, ps, w, h)[pidx(w, h, x, y)] == data[pidx(w, h, x, y)],
        sapply(data, ps, w, h)[pidx(w, h, x, y) + 1] == data[pidx(w, h, x, y) + 1],
        sapply(data, ps, w, h)[pidx(w, h, x, y) + 2] == data[pidx(w, h, x, y) + 2],
    decreases ps.len(),
{
    if ps.len() > 0 {
        assert(forall|k: int|
            0 <= k < ps.drop_last().len() ==> #[trigger] ps.drop_last()[k].x < w
                && ps.drop_last()[k].y < h) by {
            assert(forall|k: int|
                0 <= k < ps.drop_last().len() ==> ps.drop_last()[k] == #[trigger] ps[k]);
        }
        assert(!covers_px(ps.drop_last(), x, y)) by {
            if covers_px(ps.drop_last(), x, y) {
                let k = choose|k: int|
                    0 <= k < ps.drop_last().len() && ps.drop_last()[k].x == x
                        && ps.drop_last()[k].y == y;
                assert(ps[k].x == x && ps[k].y == y);
            }
        }
        lemma_sapply_untouched(data, ps.drop_last(), w, h, x, y);
        lemma_sapply_len(data, ps.drop_last(), w, h);
        lemma_pidx_range(w, h, x, y);
        let s = ps.last();
        lemma_pidx_range(w, h, s.x as int, s.y as int);
        assert(ps[ps.len() - 1] == s);
        assert(!(s.x == x && s.y == y));
        lemma_pidx_inj(w, h, x, y, s.x as int, s.y as int, 0, 0);
        lemma_pidx_inj(w, h, x, y, s.x as int, s.y as int, 0, 1);
        lemma_pidx_inj(w, h, x, y, s.x as int, s.y as int, 0, 2);
        lemma_pidx_inj(w, h, x, y, s.x as int, s.y as int, 1, 0);
        lemma_pidx_inj(w, h, x, y, s.x as int, s.y as int, 1, 1);
        lemma_pidx_inj(w, h, x, y, s.x as int, s.y as int, 1, 2);
        lemma_pidx_inj(w, h, x, y, s.x as int, s.y as int, 2, 0);
        lemma_pidx_inj(w, h, x, y, s.x as int, s.y as int, 2, 1);
        lemma_pidx_inj(w, h, x, y, s.x as int, s.y as int, 2, 2);
    }
}

/// At a pixel some sample addresses, the bytes `sapply` leaves depend on
/// the samples alone, not on the buffer they are written over.
pub proof fn lemma_sapply_covered_base_independent(
    d1: Seq<u8>,
    d2: Seq<u8>,
    ps: Seq<ScreenPixel>,
    w: int,
    h: int,
    x: int,
    y: int,
)
    requires
        0 < w,
        0 < h,
        d1.len() == w * 3 * h,
        d2.len() == w * 3 * h,
        forall|k: int| 0 <= k < ps.len() ==> #[trigger] ps[k].x < w && ps[k].y < h,
        0 <= x < w,
        0 <= y < h,
        covers_px(ps, x, y),
    ensures
        spixel_at(sapply(d1, ps, w, h), w, h, x, y) == spixel_at(sapply(d2, ps, w, h), w, h, x, y),
    decreases ps.len(),
{
    let kw = choose|k: int| 0 <= k < ps.len() && ps[k].x == x && ps[k].y == y;
    assert(ps.len() > 0);
    assert(forall|k: int|
        0 <= k < ps.drop_last().len() ==> #[trigger] ps.drop_last()[k].x < w && ps.drop_last()[k].y
            < h) by {
        assert(forall|k: int|
            0 <= k < ps.drop_last().len() ==> ps.drop_last()[k] == #[trigger] ps[k]);
    }
    lemma_sapply_len(d1, ps.drop_last(), w, h);
    lemma_sapply_len(d2, ps.drop_last(), w, h);
    lemma_pidx_range(w, h, x, y);
    let s = ps.last();
    assert(ps[ps.len() - 1] == s);
    lemma_pidx_range(w, h, s.x as int, s.y as int);
    if s.x == x && s.y == y {
        assert(spixel_at(sapply(d1, ps, w, h), w, h, x, y) == (s.r, s.g, s.b));
        assert(spixel_at(sapply(d2, ps, w, h), w, h, x, y) == (s.r, s.g, s.b));
    } else {
        assert(covers_px(ps.drop_last(), x, y)) by {
            assert(kw < ps.len() - 1);
            assert(ps.drop_last()[kw] == ps[kw]);
        }
        lemma_sapply_covered_base_independent(d1, d2, ps.drop_last(), w, h, x, y);
        lemma_pidx_inj(w, h, x, y, s.x as int, s.y as int, 0, 0);
        lemma_pidx_inj(w, h, x, y, s.x as int, s.y as int, 0, 1);
        lemma_pidx_inj(w, h, x, y, s.x as int, s.y as int, 0, 2);
        lemma_pidx_inj(w, h, x, y, s.x as int, s.y as int, 1, 0);
        lemma_pidx_inj(w, h, x, y, s.x as int, s.y as int, 1, 1);
        lemma_pidx_inj(w, h, x, y, s.x as int, s.y as int, 1, 2);
        lemma_pidx_inj(w, h, x, y, s.x as int, s.y as int, 2, 0);
        lemma_pidx_inj(w, h, x, y, s.x as int, s.y as int, 2, 1);
        lemma_pidx_inj(w, h, x, y, s.x as int, s.y as int, 2, 2);
    }
}

/// The output image: a `width` by `height` RGB raster, rows top-down.
#[derive(Clone, Debug)]
pub struct ImageBuf {
    pub width: usize,
    pub height: usize,
    pub data: Vec<u8>,
}

impl ImageBuf {
    /// Dimensions in range and a buffer of exactly one RGB triple per
    /// pixel.
    pub open spec fn wf(self) -> bool {
        1 <= self.width <= 4096 && 1 <= self.height <= 4096 && self.data.len() == self.width * 3
            * self.height
    }

    /// A black image of the given dimensions; tiles that never arrive
    /// leave their pixels at this default.
    pub fn new(width: usize, height: usize) -> (img: ImageBuf)
        requires
            1 <= width <= 4096,
            1 <= height <= 4096,
        ensures
            img.wf(),
            img.width == width,
            img.height == height,
            forall|i: int| 0 <= i < img.data.len() ==> img.data[i] == 0u8,
            img.data@ == szeros(width as int, height as int),
    {
        proof {
            assert(width * 3 * height <= 4096 * 3 * 4096) by (nonlinear_arith)
                requires
                    1 <= width <= 4096,
                    1 <= height <= 4096,
            ;
        }
        let n = width * 3 * height;
        let mut data: Vec<u8> = Vec::new();
        let mut i: usize = 0;
        while i < n
            invariant
                0 <= i <= n,
                data.len() == i,
                forall|j: int| 0 <= j < i ==> data[j] == 0u8,
            decreases n - i,
        {
            data.push(0u8);
            i = i + 1;
        }
        proof {
            assert(data@ =~= szeros(width as int, height as int));
        }
        ImageBuf { width, height, data }
    }

    /// Write one sample, flipping its row into the buffer's top-down
    /// order.
    pub fn put_sample(&mut self, s: &ScreenPixel)
        requires
            old(self).wf(),
            s.x < old(self).width,
            s.y < old(self).height,
        ensures
            final(self).wf(),
            final(self).width == old(self).width,
            final(self).height == old(self).height,
            final(self).data@ == supdate(
                old(self).data@,
                old(self).width as int,
                old(self).height as int,
                *s,
            ),
    {
        let row = self.height - 1 - s.y;
        proof {
            assert(row * self.width + s.x < self.height * self.width) by (nonlinear_arith)
                requires
                    row < self.height,
                    s.x < self.width,
                    0 <= row,
                    0 <= s.x,
            ;
            assert((row * self.width + s.x) * 3 + 2 < self.width * 3 * self.height)
                by (nonlinear_arith)
                requires
                    row * self.width + s.x < self.height * self.width,
                    0 <= row * self.width + s.x,
            ;
            assert(0 <= row * self.width + s.x) by (nonlinear_arith)
                requires
                    0 <= row,
                    0 <= s.x,
                    0 < self.width,
            ;
        }
        let base = (row * self.width + s.x) * 3;
        self.data[base] = s.r;
        self.data[base + 1] = s.g;
        self.data[base + 2] = s.b;
    }

    /// Write every sample of one tile, in order.
    pub fn apply_tile(&mut self, pixels: &Vec<ScreenPixel>)
        requires
            old(self).wf(),
            forall|k: int|
                0 <= k < pixels.len() ==> #[trigger] pixels[k].x < old(self).width && pixels[k].y
                    < old(self).height,
        ensures
            final(self).wf(),
            final(self).width == old(self).width,
            final(self).height == old(self).height,
            final(self).data@ == sapply(
                old(self).data@,
                pixels@,
                old(self).width as int,
                old(self).height as int,
            ),
    {
        let n = pixels.len();
        let mut k: usize = 0;
        while k < n
            invariant
                0 <= k <= n,
                n == pixels.len(),
                self.wf(),
                self.width == old(self).width,
                self.height == old(self).height,
                forall|j: int|
                    0 <= j < pixels.len() ==> #[trigger] pixels[j].x < self.width && pixels[j].y
                        < self.height,
                self.data@ == sapply(
                    old(self).data@,
                    pixels@.take(k as int),
                    self.width as int,
                    self.height as int,
                ),
            decreases n - k,
        {
            proof {
                assert(pixels@.take(k as int + 1).drop_last() == pixels@.take(k as int));
                assert(pixels@.take(k as int + 1).last() == pixels@[k as int]);
            }
            self.put_sample(&pixels[k]);
            k = k + 1;
        }
        proof {
            assert(pixels@.take(n as int) == pixels@);
        }
    }
}

} // verus!

//! Pixel-value normalization and pure coordinate transforms shared by the
//! in-process and out-of-process paths, plus the `Frame` type whose raw
//! bytes travel verbatim on the frame channel.
//!
//! All quantities are fixed-point integers in thousandths (see the crate
//! root), so every transform here is exact integer arithmetic.

use vstd::prelude::*;

verus! {

/// A pixel buffer that does not match its declared geometry.
#[derive(Clone, Copy, PartialEq, Eq, Structural, Debug)]
pub enum FrameError {
    /// The buffer length is not `width * height * 3`.
    GeometryMismatch,
}

/// One captured image: fixed geometry, `height * width * 3` packed 8-bit
/// samples in row-major order, channel order as delivered by the source
/// device. Immutable once built; owned by the current cycle.
#[derive(Clone, Debug)]
pub struct Frame {
    pub width: usize,
    pub height: usize,
    pub pixels: Vec<u8>,
}

impl Frame {
    /// Geometry consistency: the pixel buffer holds exactly
    /// `width * height * 3` bytes.
    pub open spec fn well_formed(&self) -> bool {
        self.pixels@.len() == self.width * self.height * 3
    }

    /// Build a frame, rejecting a pixel buffer that does not match the
    /// declared geometry: shape mismatches are fatal, never coerced.
    pub fn new(width: usize, height: usize, pixels: Vec<u8>) -> (r: Result<Frame, FrameError>)
        ensures
            match r {
                Ok(f) => {
                    &&& f.well_formed()
                    &&& f.width == width
                    &&& f.height == height
                    &&& f.pixels@ == pixels@
                },
                Err(e) => {
                    &&& e == FrameError::GeometryMismatch
                    &&& pixels@.len() != width * height * 3
                },
            },
    {
        let plen: usize = pixels.len();
        let wh: usize = match width.checked_mul(height) {
            Some(v) => v,
            None => {
                proof {
                    assert(width * height * 3 >= width * height) by (nonlinear_arith);
                }
                return Err(FrameError::GeometryMismatch);
            },
        };
        proof {
            assert(width * height * 3 == wh * 3) by (nonlinear_arith)
                requires
                    wh == width * height,
            ;
        }
        let expected: usize = match wh.checked_mul(3) {
            Some(v) => v,
            None => {
                return Err(FrameError::GeometryMismatch);
            },
        };
        if plen != expected {
            return Err(FrameError::GeometryMismatch);
        }
        Ok(Frame { width, height, pixels })
    }

    /// The bytes written verbatim on the frame channel: the raw pixel
    /// buffer, no header and no length prefix (geometry is agreed
    /// out-of-band and identical on both ends).
    pub fn channel_bytes(&self) -> (r: &[u8])
        ensures
            r@ == self.pixels@,
    {
        self.pixels.as_slice()
    }
}

/// Normalize packed 8-bit samples to fixed-point [0, 1] units: 0 maps to 0
/// and 255 to one full unit (`UNIT_SCALE`), the integer image of the usual
/// [0, 255] to [0, 1] scaling.
pub fn normalize_pixels(pixels: &[u8]) -> (r: Vec<i64>)
    ensures
        r@.len() == pixels@.len(),
        forall|j: int|
            0 <= j < pixels@.len() ==> #[trigger] r@[j] == pixels@[j] * crate::UNIT_SCALE / 255,
{
    let mut out: Vec<i64> = Vec::new();
    let n: usize = pixels.len();
    let mut i: usize = 0;
    while i < n
        invariant
            n == pixels@.len(),
            i <= n,
            out@.len() == i,
            forall|j: int|
                0 <= j < i ==> #[trigger] out@[j] == pixels@[j] * crate::UNIT_SCALE / 255,
        decreases n - i,
    {
        let p: u8 = *vstd::slice::slice_index_get(pixels, i);
        let v: u64 = (p as u64) * 1000 / 255;
        proof {
            assert(crate::UNIT_SCALE == 1000);
        }
        out.push(v as i64);
        i = i + 1;
    }
    out
}

/// Pure linear rescale of one fixed-point coordinate from a source dimension
/// to a destination dimension, truncating toward zero:
/// the exact image of `v * (to / from)`.
pub open spec fn spec_rescale(v: int, from: int, to: int) -> int {
    if v >= 0 {
        v * to / from
    } else {
        -((-v) * to / from)
    }
}

/// Rescale one signed fixed-point coordinate.
fn scale_coord(v: i64, from: i64, to: i64) -> (r: i64)
    requires
        1 <= from,
        0 <= to <= i64::MAX,
        i64::MIN < v,
        -(i64::MAX as int) <= spec_rescale(v as int, from as int, to as int) <= i64::MAX as int,
    ensures
        r == spec_rescale(v as int, from as int, to as int),
{
    let a: u64 = if v >= 0 {
        v as u64
    } else {
        (-v) as u64
    };
    proof {
        assert((a as int) * (to as int) <= (i64::MAX as int) * (i64::MAX as int))
            by (nonlinear_arith)
            requires
                0 <= a <= i64::MAX,
                0 <= to <= i64::MAX,
        ;
        assert((i64::MAX as int) * (i64::MAX as int) <= u128::MAX as int);
    }
    let prod: u128 = (a as u128) * (to as u128);
    let q: u128 = prod / (from as u128);
    proof {
        vstd::arithmetic::div_mod::lemma_div_nonincreasing(prod as int, from as int);
        if v >= 0 {
            assert(q as int == spec_rescale(v as int, from as int, to as int));
        } else {
            assert(q as int == (-(v as int)) * (to as int) / (from as int));
        }
    }
    if v >= 0 {
        q as i64
    } else {
        -(q as i64)
    }
}

/// Pure linear coordinate transform between two spaces, applied to both
/// coordinates: `x' = x * (toW / fromW)`, `y' = y * (toH / fromH)`, exact in
/// fixed-point with truncation toward zero. No side effects.
pub fn rescale(x: i64, y: i64, from_w: i64, from_h: i64, to_w: i64, to_h: i64) -> (r: (i64, i64))
    requires
        1 <= from_w,
        1 <= from_h,
        0 <= to_w,
        0 <= to_h,
        i64::MIN < x,
        i64::MIN < y,
        -(i64::MAX as int) <= spec_rescale(x as int, from_w as int, to_w as int) <= i64::MAX
            as int,
        -(i64::MAX as int) <= spec_rescale(y as int, from_h as int, to_h as int) <= i64::MAX
            as int,
    ensures
        r.0 == spec_rescale(x as int, from_w as int, to_w as int),
        r.1 == spec_rescale(y as int, from_h as int, to_h as int),
{
    let nx = scale_coord(x, from_w, to_w);
    let ny = scale_coord(y, from_h, to_h);
    (nx, ny)
}

/// Whether a display-space point lies inside the destination bounds.
/// Out-of-bounds points are excluded from rendering.
pub fn point_in_bounds(x: i64, y: i64, width: i64, height: i64) -> (r: bool)
    ensures
        r == (0 <= x < width && 0 <= y < height),
{
    x >= 0 && x < width && y >= 0 && y < height
}

/// The display-space image of a keypoint list: each position rescaled from
/// the source space to the destination space, keeping only the points that
/// land inside the destination bounds.
pub open spec fn projected(kps: Seq<crate::decoder::Keypoint>, fw: int, fh: int, tw: int, th: int) -> Seq<crate::decoder::Keypoint>
    decreases kps.len(),
{
    if kps.len() == 0 {
        Seq::<crate::decoder::Keypoint>::empty()
    } else {
        let kp = kps[0];
        let nx = spec_rescale(kp.x as int, fw, tw);
        let ny = spec_rescale(kp.y as int, fh, th);
        let rest = projected(kps.skip(1), fw, fh, tw, th);
        if 0 <= nx < tw && 0 <= ny < th {
            seq![
                crate::decoder::Keypoint {
                    id: kp.id,
                    x: nx as i64,
                    y: ny as i64,
                    confidence: kp.confidence,
                    z: kp.z,
                },
            ] + rest
        } else {
            rest
        }
    }
}

/// Rescale each keypoint from input-tensor space to a display space and
/// keep only the points inside the display bounds; out-of-bounds points are
/// excluded from rendering. Identities, confidences and depths are carried
/// through unchanged.
pub fn project_keypoints(
    kps: &Vec<crate::decoder::Keypoint>,
    from_w: i64,
    from_h: i64,
    to_w: i64,
    to_h: i64,
) -> (r: Vec<crate::decoder::Keypoint>)
    requires
        1 <= from_w,
        1 <= from_h,
        0 <= to_w,
        0 <= to_h,
        forall|j: int|
            0 <= j < kps@.len() ==> i64::MIN < (#[trigger] kps@[j]).x && i64::MIN < kps@[j].y,
        forall|j: int|
            0 <= j < kps@.len() ==> -(i64::MAX as int) <= spec_rescale(
                (#[trigger] kps@[j]).x as int,
                from_w as int,
                to_w as int,
            ) <= i64::MAX as int && -(i64::MAX as int) <= spec_rescale(
                kps@[j].y as int,
                from_h as int,
                to_h as int,
            ) <= i64::MAX as int,
    ensures
        r@ == projected(kps@, from_w as int, from_h as int, to_w as int, to_h as int),
{
    let ghost fw = from_w as int;
    let ghost fh = from_h as int;
    let ghost tw = to_w as int;
    let ghost th = to_h as int;
    let n: usize = kps.len();
    let mut out: Vec<crate::decoder::Keypoint> = Vec::new();
    proof {
        assert(kps@.skip(0) =~= kps@);
        assert(Seq::<crate::decoder::Keypoint>::empty() + projected(kps@, fw, fh, tw, th)
            =~= projected(kps@, fw, fh, tw, th));
    }
    let mut i: usize = 0;
    while i < n
        invariant
            n == kps@.len(),
            i <= n,
            1 <= from_w,
            1 <= from_h,
            0 <= to_w,
            0 <= to_h,
            fw == from_w as int,
            fh == from_h as int,
            tw == to_w as int,
            th == to_h as int,
            forall|j: int|
                0 <= j < kps@.len() ==> i64::MIN < (#[trigger] kps@[j]).x && i64::MIN < kps@[j].y,
            forall|j: int|
                0 <= j < kps@.len() ==> -(i64::MAX as int) <= spec_rescale(
                    (#[trigger] kps@[j]).x as int,
                    fw,
                    tw,
                ) <= i64::MAX as int && -(i64::MAX as int) <= spec_rescale(
                    kps@[j].y as int,
                    fh,
                    th,
                ) <= i64::MAX as int,
            out@ + projected(kps@.skip(i as int), fw, fh, tw, th) == projected(
                kps@,
                fw,
                fh,
                tw,
                th,
            ),
        decreases n - i,
    {
        let kp = *vstd::slice::slice_index_get(kps.as_slice(), i);
        let scaled = rescale(kp.x, kp.y, from_w, from_h, to_w, to_h);
        let nx = scaled.0;
        let ny = scaled.1;
        let keep = point_in_bounds(nx, ny, to_w, to_h);
        let ghost pre = out@;
        if keep {
            out.push(
                crate::decoder::Keypoint { id: kp.id, x: nx, y: ny, confidence: kp.confidence, z: kp.z },
            );
        }
        proof {
            let tail = kps@.skip(i as int);
            assert(tail[0] == kps@[i as int]);
            assert(tail.skip(1) =~= kps@.skip(i + 1));
            if keep {
                let skp = crate::decoder::Keypoint {
                    id: kp.id,
                    x: nx,
                    y: ny,
                    confidence: kp.confidence,
                    z: kp.z,
                };
                assert(projected(tail, fw, fh, tw, th) == seq![skp] + projected(
                    kps@.skip(i + 1),
                    fw,
                    fh,
                    tw,
                    th,
                ));
                assert(out@ =~= pre + seq![skp]);
                assert(pre + (seq![skp] + projected(kps@.skip(i + 1), fw, fh, tw, th)) =~= out@
                    + projected(kps@.skip(i + 1), fw, fh, tw, th));
            } else {
                assert(projected(tail, fw, fh, tw, th) == projected(
                    kps@.skip(i + 1),
                    fw,
                    fh,
                    tw,
                    th,
                ));
            }
        }
        i = i + 1;
    }
    proof {
        assert(kps@.skip(n as int).len() == 0);
        assert(out@ + projected(kps@.skip(n as int), fw, fh, tw, th) =~= out@);
    }
    out
}

} // verus!

//! Keypoint decoding: turning raw heatmap and offset tensors into a
//! confidence-filtered list of keypoints.
//!
//! A heatmap tensor holds `k` channels of `hh * ww` raw scores, one channel
//! per keypoint identity; an offset tensor holds `2 * k` channels of the same
//! spatial shape, where channels `2 * i` and `2 * i + 1` carry the (y, x)
//! sub-cell displacements for identity `i`. All scores and displacements are
//! fixed-point integers (see the crate root).

use vstd::prelude::*;

verus! {

/// One detected landmark: identity, fixed-point position in input-tensor
/// pixel units, raw confidence score, and a pseudo-depth.
///
/// The pseudo-depth `z` reuses the confidence score by convention: the model
/// produces no true depth channel.
#[derive(Clone, Copy, PartialEq, Eq, Structural, Debug)]
pub struct Keypoint {
    pub id: usize,
    pub x: i64,
    pub y: i64,
    pub confidence: i64,
    pub z: i64,
}

/// A tensor whose dimensions do not match the decoder's expectations.
/// Shape mismatches indicate a model/configuration mismatch and are fatal,
/// never silently coerced.
#[derive(Clone, Copy, PartialEq, Eq, Structural, Debug)]
pub enum ShapeError {
    /// The heatmap grid has a zero dimension.
    EmptyGrid,
    /// The heatmap buffer length is not `k * hh * ww`.
    HeatmapSize,
    /// The offset buffer length is not `2 * k * hh * ww`.
    OffsetSize,
}

/// `m` is the first position of the maximum of `s`: every score is at most
/// `s[m]`, and every score before `m` is strictly below it.
pub open spec fn is_first_max(s: Seq<i64>, m: int) -> bool {
    &&& 0 <= m < s.len()
    &&& forall|j: int| 0 <= j < s.len() ==> s[j] <= s[m]
    &&& forall|j: int| 0 <= j < m ==> s[j] < s[m]
}

/// The first position of the maximum of `s` (0 on an empty sequence).
pub open spec fn first_argmax(s: Seq<i64>) -> int
    decreases s.len(),
{
    if s.len() <= 1 {
        0
    } else {
        let m = first_argmax(s.drop_last());
        if s.last() > s[m] {
            s.len() - 1
        } else {
            m
        }
    }
}

/// `first_argmax` indeed points at the first maximum.
pub proof fn lemma_first_argmax_correct(s: Seq<i64>)
    requires
        s.len() > 0,
    ensures
        is_first_max(s, first_argmax(s)),
    decreases s.len(),
{
    if s.len() > 1 {
        lemma_first_argmax_correct(s.drop_last());
        let m = first_argmax(s.drop_last());
        assert(forall|j: int| 0 <= j < s.len() - 1 ==> s[j] == s.drop_last()[j]);
        assert(s.last() == s[s.len() - 1]);
    }
}

/// Two first-maximum positions of the same sequence coincide.
pub proof fn lemma_first_max_unique(s: Seq<i64>, a: int, b: int)
    requires
        is_first_max(s, a),
        is_first_max(s, b),
    ensures
        a == b,
{
    if a < b {
        assert(s[a] < s[b]);
        assert(s[b] <= s[a]);
    }
    if b < a {
        assert(s[b] < s[a]);
        assert(s[a] <= s[b]);
    }
}

/// A sequence whose scores are all equal resolves its arg-max to position 0:
/// the first index encountered in scan order wins every tie.
pub proof fn lemma_uniform_scores_argmax_zero(s: Seq<i64>, v: i64)
    requires
        s.len() > 0,
        forall|j: int| 0 <= j < s.len() ==> s[j] == v,
    ensures
        first_argmax(s) == 0,
{
    lemma_first_argmax_correct(s);
    assert(is_first_max(s, 0));
    lemma_first_max_unique(s, first_argmax(s), 0);
}

/// First index of the maximum score of a non-empty slice. Ties are broken
/// toward the lowest index, so the result is deterministic.
pub fn argmax(s: &[i64]) -> (m: usize)
    requires
        s@.len() > 0,
    ensures
        m < s@.len(),
        is_first_max(s@, m as int),
        m as int == first_argmax(s@),
{
    let mut best: usize = 0;
    let n: usize = s.len();
    let mut i: usize = 1;
    while i < n
        invariant
            n == s@.len(),
            1 <= i <= n,
            best < i,
            forall|j: int| 0 <= j < i ==> s@[j] <= s@[best as int],
            forall|j: int| 0 <= j < best ==> s@[j] < s@[best as int],
        decreases n - i,
    {
        if s[i] > s[best] {
            best = i;
        }
        i = i + 1;
    }
    proof {
        lemma_first_argmax_correct(s@);
        lemma_first_max_unique(s@, best as int, first_argmax(s@));
    }
    best
}

/// The `i`-th channel of a channel-major tensor whose channels hold `cells`
/// contiguous values each.
pub open spec fn channel(data: Seq<i64>, i: int, cells: int) -> Seq<i64> {
    data.subrange(i * cells, i * cells + cells)
}

/// Fixed-point projection of a grid cell to input-tensor pixel units:
/// the base projection `cell * input_units / grid` plus the sub-cell offset.
pub open spec fn spec_coord(cell: int, grid: int, input_units: int, off: int) -> int {
    cell * input_units / grid + off
}

/// The keypoint decoded for identity `i`: the channel's first arg-max cell,
/// projected to input-tensor pixel units and refined by the matching offset
/// pair (channel `2i` holds y displacements, channel `2i + 1` x
/// displacements).
pub open spec fn spec_keypoint(
    heat: Seq<i64>,
    off: Seq<i64>,
    i: int,
    hh: int,
    ww: int,
    iw: int,
    ih: int,
) -> Keypoint {
    let cells = hh * ww;
    let c = channel(heat, i, cells);
    let m = first_argmax(c);
    let conf = c[m];
    Keypoint {
        id: i as usize,
        x: spec_coord(m % ww, ww, iw, off[2 * i * cells + cells + m] as int) as i64,
        y: spec_coord(m / ww, hh, ih, off[2 * i * cells + m] as int) as i64,
        confidence: conf,
        z: conf,
    }
}

/// Identity `i` produces a keypoint exactly when its best score clears the
/// threshold.
pub open spec fn emitted(heat: Seq<i64>, i: int, cells: int, threshold: int) -> bool {
    let c = channel(heat, i, cells);
    c[first_argmax(c)] > threshold
}

/// The full decoded keypoint list for identities `0 .. k`, in identity order,
/// with below-threshold identities skipped (not emitted as zero entries).
pub open spec fn decoded_keypoints(
    heat: Seq<i64>,
    off: Seq<i64>,
    k: int,
    hh: int,
    ww: int,
    iw: int,
    ih: int,
    threshold: int,
) -> Seq<Keypoint>
    decreases k,
{
    if k <= 0 {
        Seq::<Keypoint>::empty()
    } else if emitted(heat, k - 1, hh * ww, threshold) {
        decoded_keypoints(heat, off, k - 1, hh, ww, iw, ih, threshold).push(
            spec_keypoint(heat, off, k - 1, hh, ww, iw, ih),
        )
    } else {
        decoded_keypoints(heat, off, k - 1, hh, ww, iw, ih, threshold)
    }
}

/// Law: decoding never yields a keypoint whose confidence is at or below the
/// threshold — identities that do not clear it are skipped, never emitted as
/// zero-confidence entries.
pub proof fn lemma_decoded_above_threshold(
    heat: Seq<i64>,
    off: Seq<i64>,
    k: int,
    hh: int,
    ww: int,
    iw: int,
    ih: int,
    th: int,
)
    ensures
        forall|j: int|
            0 <= j < decoded_keypoints(heat, off, k, hh, ww, iw, ih, th).len()
                ==> (#[trigger] decoded_keypoints(heat, off, k, hh, ww, iw, ih, th)[j]).confidence
                > th,
    decreases k,
{
    if k > 0 {
        lemma_decoded_above_threshold(heat, off, k - 1, hh, ww, iw, ih, th);
        let prev = decoded_keypoints(heat, off, k - 1, hh, ww, iw, ih, th);
        let cur = decoded_keypoints(heat, off, k, hh, ww, iw, ih, th);
        if emitted(heat, k - 1, hh * ww, th) {
            let kp = spec_keypoint(heat, off, k - 1, hh, ww, iw, ih);
            assert(cur == prev.push(kp));
            assert(kp.confidence > th);
            assert(forall|j: int| 0 <= j < prev.len() ==> cur[j] == prev[j]);
            assert(cur[cur.len() - 1] == kp);
        } else {
            assert(cur == prev);
        }
    }
}

/// Law: decoding yields at most `k` keypoints, in strictly increasing
/// identity order — so each identity in `0 .. k` appears at most once.
pub proof fn lemma_decoded_identities(
    heat: Seq<i64>,
    off: Seq<i64>,
    k: int,
    hh: int,
    ww: int,
    iw: int,
    ih: int,
    th: int,
)
    requires
        0 <= k <= usize::MAX,
    ensures
        decoded_keypoints(heat, off, k, hh, ww, iw, ih, th).len() <= k,
        forall|j: int|
            0 <= j < decoded_keypoints(heat, off, k, hh, ww, iw, ih, th).len()
                ==> (#[trigger] decoded_keypoints(heat, off, k, hh, ww, iw, ih, th)[j]).id < k,
        forall|a: int, b: int|
            0 <= a < b < decoded_keypoints(heat, off, k, hh, ww, iw, ih, th).len()
                ==> (#[trigger] decoded_keypoints(heat, off, k, hh, ww, iw, ih, th)[a]).id < (
            #[trigger] decoded_keypoints(heat, off, k, hh, ww, iw, ih, th)[b]).id,
    decreases k,
{
    if k > 0 {
        lemma_decoded_identities(heat, off, k - 1, hh, ww, iw, ih, th);
        let prev = decoded_keypoints(heat, off, k - 1, hh, ww, iw, ih, th);
        let cur = decoded_keypoints(heat, off, k, hh, ww, iw, ih, th);
        if emitted(heat, k - 1, hh * ww, th) {
            let kp = spec_keypoint(heat, off, k - 1, hh, ww, iw, ih);
            assert(cur == prev.push(kp));
            assert(kp.id == k - 1);
            assert(forall|j: int| 0 <= j < prev.len() ==> cur[j] == prev[j]);
            assert(cur[cur.len() - 1] == kp);
        } else {
            assert(cur == prev);
        }
    }
}

/// Decode raw heatmap and offset tensors into a confidence-filtered keypoint
/// list.
///
/// The result is a function of the arguments alone — the `ensures` equates it
/// with `decoded_keypoints`, so two calls on identical buffers return
/// identical output. Shape mismatches are rejected, never coerced.
pub fn decode(
    heatmaps: &[i64],
    offsets: &[i64],
    k: usize,
    hh: usize,
    ww: usize,
    input_w_units: i64,
    input_h_units: i64,
    threshold: i64,
) -> (r: Result<Vec<Keypoint>, ShapeError>)
    requires
        hh <= crate::MAX_GRID_DIM,
        ww <= crate::MAX_GRID_DIM,
        0 <= input_w_units <= crate::MAX_INPUT_UNITS,
        0 <= input_h_units <= crate::MAX_INPUT_UNITS,
        forall|j: int|
            0 <= j < offsets@.len() ==> -crate::MAX_OFFSET_UNITS <= #[trigger] offsets@[j]
                <= crate::MAX_OFFSET_UNITS,
    ensures
        match r {
            Ok(kps) => {
                &&& hh > 0
                &&& ww > 0
                &&& heatmaps@.len() == k * hh * ww
                &&& offsets@.len() == 2 * (k * hh * ww)
                &&& kps@ == decoded_keypoints(
                    heatmaps@,
                    offsets@,
                    k as int,
                    hh as int,
                    ww as int,
                    input_w_units as int,
                    input_h_units as int,
                    threshold as int,
                )
            },
            Err(ShapeError::EmptyGrid) => hh == 0 || ww == 0,
            Err(ShapeError::HeatmapSize) => {
                &&& hh > 0
                &&& ww > 0
                &&& heatmaps@.len() != k * hh * ww
            },
            Err(ShapeError::OffsetSize) => {
                &&& hh > 0
                &&& ww > 0
                &&& heatmaps@.len() == k * hh * ww
                &&& offsets@.len() != 2 * (k * hh * ww)
            },
        },
{
    let hm_len: usize = heatmaps.len();
    let off_len: usize = offsets.len();
    if hh == 0 || ww == 0 {
        return Err(ShapeError::EmptyGrid);
    }
    // A grid larger than the address space cannot match any real buffer.
    let cells: usize = match hh.checked_mul(ww) {
        Some(c) => c,
        None => {
            if k == 0 {
                proof {
                    assert(k * hh * ww == 0) by (nonlinear_arith)
                        requires
                            k == 0,
                    ;
                }
                if hm_len != 0 {
                    return Err(ShapeError::HeatmapSize);
                }
                if off_len != 0 {
                    return Err(ShapeError::OffsetSize);
                }
                let v: Vec<Keypoint> = Vec::new();
                return Ok(v);
            }
            proof {
                assert(k * hh * ww >= hh * ww) by (nonlinear_arith)
                    requires
                        k >= 1,
                        hh > 0,
                        ww > 0,
                ;
            }
            return Err(ShapeError::HeatmapSize);
        },
    };
    proof {
        assert(k * hh * ww == k * cells && cells > 0) by (nonlinear_arith)
            requires
                cells == hh * ww,
                hh > 0,
                ww > 0,
        ;
    }
    let total: usize = match k.checked_mul(cells) {
        Some(t) => t,
        None => {
            return Err(ShapeError::HeatmapSize);
        },
    };
    if hm_len != total {
        return Err(ShapeError::HeatmapSize);
    }
    let off_total: usize = match total.checked_mul(2) {
        Some(t) => t,
        None => {
            return Err(ShapeError::OffsetSize);
        },
    };
    if off_len != off_total {
        return Err(ShapeError::OffsetSize);
    }
    let ghost iw = input_w_units as int;
    let ghost ih = input_h_units as int;
    let ghost th = threshold as int;
    let mut kps: Vec<Keypoint> = Vec::new();
    let mut i: usize = 0;
    while i < k
        invariant
            hh > 0,
            ww > 0,
            hh <= crate::MAX_GRID_DIM,
            ww <= crate::MAX_GRID_DIM,
            0 <= input_w_units <= crate::MAX_INPUT_UNITS,
            0 <= input_h_units <= crate::MAX_INPUT_UNITS,
            forall|j: int|
                0 <= j < offsets@.len() ==> -crate::MAX_OFFSET_UNITS <= #[trigger] offsets@[j]
                    <= crate::MAX_OFFSET_UNITS,
            cells == hh * ww,
            cells > 0,
            total == k * cells,
            2 * total <= usize::MAX,
            heatmaps@.len() == total,
            offsets@.len() == 2 * total,
            i <= k,
            iw == input_w_units as int,
            ih == input_h_units as int,
            th == threshold as int,
            kps@ == decoded_keypoints(
                heatmaps@,
                offsets@,
                i as int,
                hh as int,
                ww as int,
                iw,
                ih,
                th,
            ),
        decreases k - i,
    {
        proof {
            assert(i * cells + cells <= k * cells && 2 * (i * cells) + 2 * cells <= 2 * (k
                * cells)) by (nonlinear_arith)
                requires
                    i < k,
                    cells > 0,
            ;
        }
        let base: usize = i * cells;
        let ch = vstd::slice::slice_subrange(heatmaps, base, base + cells);
        let m: usize = argmax(ch);
        let conf: i64 = *vstd::slice::slice_index_get(ch, m);
        proof {
            assert(ch@ =~= channel(heatmaps@, i as int, cells as int));
        }
        if conf > threshold {
            let cell_y: usize = m / ww;
            let cell_x: usize = m % ww;
            let off_base: usize = 2 * base;
            let off_y: i64 = *vstd::slice::slice_index_get(offsets, off_base + m);
            let off_x: i64 = *vstd::slice::slice_index_get(offsets, off_base + cells + m);
            proof {
                assert(cell_x < ww && cell_y < hh) by (nonlinear_arith)
                    requires
                        m < cells,
                        cells == hh * ww,
                        hh > 0,
                        ww > 0,
                        cell_x == m % ww,
                        cell_y == m / ww,
                ;
                assert((cell_x as int) * iw <= (crate::MAX_GRID_DIM as int)
                    * (crate::MAX_INPUT_UNITS as int) && (cell_x as int) * iw >= 0)
                    by (nonlinear_arith)
                    requires
                        0 <= cell_x < crate::MAX_GRID_DIM as int,
                        0 <= iw <= crate::MAX_INPUT_UNITS as int,
                ;
                assert((cell_y as int) * ih <= (crate::MAX_GRID_DIM as int)
                    * (crate::MAX_INPUT_UNITS as int) && (cell_y as int) * ih >= 0)
                    by (nonlinear_arith)
                    requires
                        0 <= cell_y < crate::MAX_GRID_DIM as int,
                        0 <= ih <= crate::MAX_INPUT_UNITS as int,
                ;
            }
            let x_base: u64 = (cell_x as u64) * (input_w_units as u64) / (ww as u64);
            let y_base: u64 = (cell_y as u64) * (input_h_units as u64) / (hh as u64);
            proof {
                vstd::arithmetic::div_mod::lemma_div_nonincreasing(
                    (cell_x as int) * (input_w_units as int),
                    ww as int,
                );
                vstd::arithmetic::div_mod::lemma_div_nonincreasing(
                    (cell_y as int) * (input_h_units as int),
                    hh as int,
                );
            }
            let x: i64 = (x_base as i64) + off_x;
            let y: i64 = (y_base as i64) + off_y;
            let kp = Keypoint { id: i, x, y, confidence: conf, z: conf };
            proof {
                let cs = cells as int;
                let c = channel(heatmaps@, i as int, cs);
                assert(m as int == first_argmax(c));
                assert(2 * (i as int) * cs == 2 * ((i as int) * cs)) by (nonlinear_arith);
                assert(off_y == offsets@[2 * (i as int) * cs + m as int]);
                assert(off_x == offsets@[2 * (i as int) * cs + cs + m as int]);
                assert(x_base as int == (cell_x as int) * iw / (ww as int));
                assert(y_base as int == (cell_y as int) * ih / (hh as int));
                assert(kp == spec_keypoint(heatmaps@, offsets@, i as int, hh as int, ww as int,
                    iw, ih));
                assert(emitted(heatmaps@, i as int, cs, th));
            }
            kps.push(kp);
        } else {
            proof {
                assert(!emitted(heatmaps@, i as int, cells as int, th));
            }
        }
        proof {
            assert(decoded_keypoints(heatmaps@, offsets@, i + 1, hh as int, ww as int, iw, ih, th)
                == if emitted(heatmaps@, i as int, (hh as int) * (ww as int), th) {
                decoded_keypoints(heatmaps@, offsets@, i as int, hh as int, ww as int, iw, ih,
                    th).push(spec_keypoint(heatmaps@, offsets@, i as int, hh as int, ww as int, iw,
                    ih))
            } else {
                decoded_keypoints(heatmaps@, offsets@, i as int, hh as int, ww as int, iw, ih, th)
            });
        }
        i = i + 1;
    }
    Ok(kps)
}

/// True when index `j` appears among the index components of `r`.
pub open spec fn index_taken(r: Seq<(usize, i64)>, j: int) -> bool {
    exists|a: int| 0 <= a < r.len() && (#[trigger] r[a]).0 == j
}

/// Whether `r` already holds a pair for data index `j`.
fn contains_index(r: &Vec<(usize, i64)>, j: usize) -> (present: bool)
    ensures
        present == index_taken(r@, j as int),
{
    let mut a: usize = 0;
    while a < r.len()
        invariant
            a <= r@.len(),
            forall|t: int| 0 <= t < a ==> (#[trigger] r@[t]).0 != j,
        decreases r@.len() - a,
    {
        if r[a].0 == j {
            proof {
                assert((r@[a as int]).0 == j);
            }
            return true;
        }
        a = a + 1;
    }
    false
}

/// The `k` highest scores of `data` as `(index, score)` pairs, highest score
/// first. An equal score is ordered by ascending index, so the result is the
/// first `k` entries of the stable descending sort of the indexed scores.
pub fn find_top_k(data: &[i64], k: usize) -> (r: Vec<(usize, i64)>)
    ensures
        r@.len() == if k <= data@.len() {
            k as int
        } else {
            data@.len() as int
        },
        forall|a: int|
            0 <= a < r@.len() ==> (#[trigger] r@[a]).0 < data@.len() && r@[a].1 == data@[r@[
                a].0 as int],
        forall|a: int, b: int|
            0 <= a < b < r@.len() ==> ((#[trigger] r@[a]).1 > (#[trigger] r@[b]).1 || (r@[a].1
                == r@[b].1 && r@[a].0 < r@[b].0)),
        forall|j: int|
            0 <= j < data@.len() && !(#[trigger] index_taken(r@, j)) && r@.len() > 0 ==> (data@[j]
                < r@[r@.len() - 1].1 || (data@[j] == r@[r@.len() - 1].1 && j > r@[r@.len()
                - 1].0)),
{
    let n: usize = data.len();
    let lim: usize = if k <= n {
        k
    } else {
        n
    };
    let mut r: Vec<(usize, i64)> = Vec::new();
    let ghost mut taken: Set<int> = Set::empty();
    let mut count: usize = 0;
    while count < lim
        invariant
            n == data@.len(),
            lim <= n,
            lim == if k <= n {
                k as int
            } else {
                n as int
            },
            count == r@.len(),
            count <= lim,
            taken.finite(),
            taken.len() == r@.len(),
            forall|j: int| #[trigger] taken.contains(j) <==> index_taken(r@, j),
            forall|j: int| taken.contains(j) ==> 0 <= j < n,
            forall|a: int|
                0 <= a < r@.len() ==> (#[trigger] r@[a]).0 < n && r@[a].1 == data@[r@[a].0 as int],
            forall|a: int, b: int|
                0 <= a < b < r@.len() ==> ((#[trigger] r@[a]).1 > (#[trigger] r@[b]).1 || (r@[a].1
                    == r@[b].1 && r@[a].0 < r@[b].0)),
            forall|j: int|
                0 <= j < n && !(#[trigger] index_taken(r@, j)) && r@.len() > 0 ==> (data@[j]
                    < r@[r@.len() - 1].1 || (data@[j] == r@[r@.len() - 1].1 && j > r@[r@.len()
                    - 1].0)),
        decreases lim - count,
    {
        let mut best: usize = 0;
        let mut found: bool = false;
        let mut j: usize = 0;
        while j < n
            invariant
                n == data@.len(),
                j <= n,
                found ==> best < j && !index_taken(r@, best as int),
                found ==> forall|t: int|
                    0 <= t < j && !(#[trigger] index_taken(r@, t)) ==> data@[t] <= data@[
                        best as int],
                found ==> forall|t: int|
                    0 <= t < best && !(#[trigger] index_taken(r@, t)) ==> data@[t] < data@[
                        best as int],
                !found ==> forall|t: int| 0 <= t < j ==> #[trigger] index_taken(r@, t),
            decreases n - j,
        {
            if !contains_index(&r, j) {
                if !found {
                    best = j;
                    found = true;
                } else if *vstd::slice::slice_index_get(data, j) > *vstd::slice::slice_index_get(
                    data,
                    best,
                ) {
                    best = j;
                }
            }
            j = j + 1;
        }
        if !found {
            proof {
                assert forall|t: int| vstd::set_lib::set_int_range(0, n as int).contains(t)
                    implies taken.contains(t) by {
                    assert(index_taken(r@, t));
                }
                vstd::set_lib::lemma_int_range(0, n as int);
                vstd::set_lib::lemma_len_subset(
                    vstd::set_lib::set_int_range(0, n as int),
                    taken,
                );
                assert(false);
            }
            return r;
        }
        let score: i64 = *vstd::slice::slice_index_get(data, best);
        let ghost old_r = r@;
        r.push((best, score));
        proof {
            taken = taken.insert(best as int);
            assert(forall|t: int| 0 <= t < old_r.len() ==> r@[t] == old_r[t]);
            assert(r@[r@.len() - 1] == (best, score));
            assert forall|j2: int| #[trigger] taken.contains(j2) implies index_taken(r@, j2) by {
                if j2 == best as int {
                    assert((r@[r@.len() - 1]).0 == best);
                } else {
                    let a = choose|a: int| 0 <= a < old_r.len() && (#[trigger] old_r[a]).0 == j2;
                    assert((r@[a]).0 == j2);
                }
            }
            assert forall|j2: int| index_taken(r@, j2) implies taken.contains(j2) by {
                let a = choose|a: int| 0 <= a < r@.len() && (#[trigger] r@[a]).0 == j2;
                if a < old_r.len() {
                    assert((old_r[a]).0 == j2);
                }
            }
            assert forall|j2: int|
                0 <= j2 < n && !(#[trigger] index_taken(r@, j2)) implies (data@[j2] < score || (
            data@[j2] == score && j2 > best)) by {
                assert(!index_taken(old_r, j2)) by {
                    if index_taken(old_r, j2) {
                        let a = choose|a: int|
                            0 <= a < old_r.len() && (#[trigger] old_r[a]).0 == j2;
                        assert((r@[a]).0 == j2);
                    }
                }
                assert(data@[j2] <= data@[best as int]);
                if j2 < best {
                    assert(data@[j2] < data@[best as int]);
                }
            }
        }
        count = count + 1;
    }
    r
}

} // verus!

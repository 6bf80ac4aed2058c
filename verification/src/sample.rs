//! Rasterization: sampling the noise field over a square pixel grid,
//! tracking the observed extremes, and normalizing the raw scalars into
//! 8-bit intensities.

use vstd::prelude::*;
use vstd::arithmetic::div_mod::{
    lemma_div_is_ordered, lemma_fundamental_div_mod, lemma_mod_bound,
};
use crate::field::{NoiseField, COORD_LIMIT, AMP_LIMIT, OCTAVE_LIMIT};

verus! {

/// Magnitude bound on raw samples the buffer accepts; covers both single
/// evaluations and fractal sums with room to spare.
pub const SAMPLE_LIMIT: i64 = 0x1000_0000;

/// The byte emitted for every pixel of a degenerate (constant) field.
pub const MID_GRAY: u8 = 128;

/// Rounded normalization of `s` from `[lo, hi]` onto `[0, 255]`:
/// `round(255 (s - lo) / (hi - lo))`, written over integers with the
/// half-up rounding folded into the numerator.
pub open spec fn spec_normalize(s: int, lo: int, hi: int) -> int
    recommends
        lo < hi,
{
    (510 * (s - lo) + (hi - lo)) / (2 * (hi - lo))
}

/// A filled sample grid together with its observed extremes.
pub struct SampleBuffer {
    samples: Vec<i64>,
    min: i64,
    max: i64,
}

impl SampleBuffer {
    /// The raw samples, row-major, top row first.
    pub closed spec fn samples(self) -> Seq<i64> {
        self.samples@
    }

    /// The smallest sample.
    pub closed spec fn min_spec(self) -> int {
        self.min as int
    }

    /// The largest sample.
    pub closed spec fn max_spec(self) -> int {
        self.max as int
    }

    /// Well-formedness: non-empty, extremes genuine (bounding every sample
    /// and both attained), all samples within the fixed magnitude limit.
    pub open spec fn wf(self) -> bool {
        &&& self.samples().len() >= 1
        &&& forall|i: int|
            0 <= i < self.samples().len()
                ==> self.min_spec() <= #[trigger] self.samples()[i] <= self.max_spec()
        &&& exists|i: int|
            0 <= i < self.samples().len() && #[trigger] self.samples()[i] == self.min_spec()
        &&& exists|i: int|
            0 <= i < self.samples().len() && #[trigger] self.samples()[i] == self.max_spec()
        &&& forall|i: int|
            0 <= i < self.samples().len()
                ==> -SAMPLE_LIMIT <= #[trigger] self.samples()[i] <= SAMPLE_LIMIT
    }

    /// Wraps raw samples, computing the running minimum and maximum in one
    /// pass, as the rasterizer fills the grid.
    pub fn from_samples(samples: Vec<i64>) -> (b: SampleBuffer)
        requires
            1 <= samples@.len(),
            forall|i: int|
                0 <= i < samples@.len()
                    ==> -SAMPLE_LIMIT <= #[trigger] samples@[i] <= SAMPLE_LIMIT,
        ensures
            b.wf(),
            b.samples() == samples@,
    {
        let n: usize = samples.len();
        let mut mn: i64 = samples[0];
        let mut mx: i64 = samples[0];
        let mut i: usize = 1;
        while i < n
            invariant
                1 <= i <= n,
                n == samples@.len(),
                forall|j: int| 0 <= j < i ==> mn <= #[trigger] samples@[j] <= mx,
                exists|j: int| 0 <= j < i && #[trigger] samples@[j] == mn,
                exists|j: int| 0 <= j < i && #[trigger] samples@[j] == mx,
            decreases n - i,
        {
            let v: i64 = samples[i];
            if v < mn {
                mn = v;
            }
            if mx < v {
                mx = v;
            }
            i = i + 1;
        }
        let b = SampleBuffer { samples, min: mn, max: mx };
        proof {
            assert(b.samples().len() >= 1);
            assert(forall|j: int|
                0 <= j < b.samples().len()
                    ==> b.min_spec() <= #[trigger] b.samples()[j] <= b.max_spec());
            assert(exists|j: int|
                0 <= j < b.samples().len() && #[trigger] b.samples()[j] == b.min_spec());
            assert(exists|j: int|
                0 <= j < b.samples().len() && #[trigger] b.samples()[j] == b.max_spec());
            assert(forall|j: int|
                0 <= j < b.samples().len()
                    ==> -SAMPLE_LIMIT <= #[trigger] b.samples()[j] <= SAMPLE_LIMIT);
        }
        b
    }

    /// The smallest sample, executable.
    pub fn min_value(&self) -> (v: i64)
        ensures
            v as int == self.min_spec(),
    {
        self.min
    }

    /// The largest sample, executable.
    pub fn max_value(&self) -> (v: i64)
        ensures
            v as int == self.max_spec(),
    {
        self.max
    }

    /// Number of samples held.
    pub fn len(&self) -> (n: usize)
        ensures
            n == self.samples().len(),
    {
        self.samples.len()
    }

    /// Normalizes every sample onto `[0, 255]` against the observed range;
    /// a degenerate all-constant grid becomes uniform mid-gray rather than
    /// a division by zero.
    pub fn normalize(&self) -> (p: Vec<u8>)
        requires
            self.wf(),
        ensures
            p@.len() == self.samples().len(),
            self.min_spec() == self.max_spec()
                ==> forall|i: int| 0 <= i < p@.len() ==> #[trigger] p@[i] == MID_GRAY,
            self.min_spec() < self.max_spec()
                ==> forall|i: int|
                    0 <= i < p@.len()
                        ==> #[trigger] p@[i] as int
                            == spec_normalize(self.samples()[i] as int, self.min_spec(), self.max_spec()),
    {
        let n: usize = self.samples.len();
        let mut p: Vec<u8> = Vec::new();
        if self.min == self.max {
            let mut i: usize = 0;
            while i < n
                invariant
                    i <= n,
                    p@.len() == i as int,
                    forall|j: int| 0 <= j < i ==> #[trigger] p@[j] == MID_GRAY,
                decreases n - i,
            {
                p.push(MID_GRAY);
                i = i + 1;
            }
            p
        } else {
            let range: i64 = self.max - self.min;
            let mut i: usize = 0;
            while i < n
                invariant
                    i <= n,
                    n == self.samples().len(),
                    self.wf(),
                    self.min_spec() < self.max_spec(),
                    range == self.max_spec() - self.min_spec(),
                    p@.len() == i as int,
                    forall|j: int|
                        0 <= j < i
                            ==> #[trigger] p@[j] as int
                                == spec_normalize(self.samples()[j] as int, self.min_spec(), self.max_spec()),
                decreases n - i,
            {
                let d: i64 = self.samples[i] - self.min;
                proof {
                    lemma_normalize_in_range(
                        self.samples()[i as int] as int,
                        self.min_spec(),
                        self.max_spec(),
                    );
                }
                let num: u64 = 510 * (d as u64) + (range as u64);
                let den: u64 = 2 * (range as u64);
                let q: u64 = num / den;
                p.push(q as u8);
                i = i + 1;
            }
            p
        }
    }
}

/// A sample between the extremes normalizes into `[0, 255]`: the rounded
/// byte can neither underflow nor overflow.
pub proof fn lemma_normalize_in_range(s: int, lo: int, hi: int)
    requires
        lo <= s <= hi,
        lo < hi,
    ensures
        0 <= spec_normalize(s, lo, hi) <= 255,
{
    let r = hi - lo;
    let num = 510 * (s - lo) + r;
    lemma_div_is_ordered(0, num, 2 * r);
    lemma_fundamental_div_mod(num, 2 * r);
    lemma_mod_bound(num, 2 * r);
    let q = num / (2 * r);
    if q > 255 {
        assert((2 * r) * q >= (2 * r) * 256) by (nonlinear_arith)
            requires q >= 256 && r >= 1;
        assert(num >= 512 * r);
        assert(num <= 511 * r);
    }
}

/// Samples the field at `(px * step, py * step)` for every pixel of a
/// `size x size` grid, row-major with the top row first.
pub fn rasterize(field: &NoiseField, size: usize, step: i64) -> (b: SampleBuffer)
    requires
        field.wf(),
        1 <= size,
        size <= 0x1000,
        0 <= step,
        (size - 1) * step <= COORD_LIMIT,
    ensures
        b.wf(),
        b.samples().len() == size * size,
        forall|py: int, px: int|
            0 <= py < size && 0 <= px < size
                ==> #[trigger] b.samples()[py * size + px]
                    == field.spec_evaluate(px * step, py * step),
{
    let mut samples: Vec<i64> = Vec::new();
    let mut py: usize = 0;
    while py < size
        invariant
            field.wf(),
            1 <= size,
            size <= 0x1000,
            0 <= step,
            (size - 1) * step <= COORD_LIMIT,
            py <= size,
            samples@.len() == py * size,
            forall|r: int, c: int|
                0 <= r < py && 0 <= c < size
                    ==> #[trigger] samples@[r * size + c] == field.spec_evaluate(c * step, r * step),
            forall|k: int|
                0 <= k < samples@.len()
                    ==> -SAMPLE_LIMIT <= #[trigger] samples@[k] <= SAMPLE_LIMIT,
        decreases size - py,
    {
        let mut px: usize = 0;
        while px < size
            invariant
                field.wf(),
                1 <= size,
                size <= 0x1000,
                0 <= step,
                (size - 1) * step <= COORD_LIMIT,
                py < size,
                px <= size,
                samples@.len() == py * size + px,
                forall|r: int, c: int|
                    0 <= r < py && 0 <= c < size
                        ==> #[trigger] samples@[r * size + c] == field.spec_evaluate(c * step, r * step),
                forall|c: int|
                    0 <= c < px
                        ==> #[trigger] samples@[py * size + c] == field.spec_evaluate(c * step, py * step),
                forall|k: int|
                    0 <= k < samples@.len()
                        ==> -SAMPLE_LIMIT <= #[trigger] samples@[k] <= SAMPLE_LIMIT,
            decreases size - px,
        {
            proof {
                lemma_pixel_coordinate_bound(px as int, size as int, step as int);
                lemma_pixel_coordinate_bound(py as int, size as int, step as int);
            }
            let xc: i64 = (px as i64) * step;
            let yc: i64 = (py as i64) * step;
            let v: i64 = field.evaluate(xc, yc);
            proof {
                lemma_row_major_prefix(py as int, px as int, size as int);
            }
            samples.push(v);
            px = px + 1;
        }
        proof {
            assert((py + 1) * size == py * size + size) by (nonlinear_arith);
        }
        py = py + 1;
    }
    proof {
        assert(size * size >= 1) by (nonlinear_arith)
            requires size >= 1;
    }
    SampleBuffer::from_samples(samples)
}

/// Every cell of a finished row, and of the finished part of the current
/// row, lies below the row-major index about to be filled.
proof fn lemma_row_major_prefix(py: int, px: int, size: int)
    requires
        0 <= py,
        0 <= px < size,
    ensures
        forall|r: int, c: int|
            0 <= r < py && 0 <= c < size ==> 0 <= #[trigger] (r * size + c) < py * size + px,
        forall|c: int| 0 <= c < px ==> #[trigger] (py * size + c) < py * size + px,
        0 <= py * size + px,
{
    assert forall|r: int, c: int|
        0 <= r < py && 0 <= c < size implies 0 <= #[trigger] (r * size + c) < py * size + px by {
        vstd::arithmetic::mul::lemma_mul_inequality(r + 1, py, size);
        assert((r + 1) * size == r * size + size) by (nonlinear_arith);
        vstd::arithmetic::mul::lemma_mul_nonnegative(r, size);
    }
    vstd::arithmetic::mul::lemma_mul_nonnegative(py, size);
}

/// A pixel coordinate scaled by a non-negative step stays within the
/// coordinate bound set by the last pixel of the row.
proof fn lemma_pixel_coordinate_bound(p: int, size: int, step: int)
    requires
        0 <= p < size,
        0 <= step,
        (size - 1) * step <= COORD_LIMIT,
    ensures
        0 <= p * step <= COORD_LIMIT,
{
    assert(0 <= p * step && p * step <= (size - 1) * step) by (nonlinear_arith)
        requires 0 <= p <= size - 1 && 0 <= step;
}

/// Samples the fractal sum of the field at `(px * step, py * step)` for
/// every pixel of a `size x size` grid, row-major with the top row first.
pub fn rasterize_fractal(
    field: &NoiseField,
    size: usize,
    step: i64,
    octaves: usize,
    freq: i64,
    amp: i64,
) -> (b: SampleBuffer)
    requires
        field.wf(),
        1 <= size,
        size <= 0x1000,
        0 <= step,
        (size - 1) * step <= COORD_LIMIT,
        1 <= octaves <= OCTAVE_LIMIT,
        1 <= freq,
        0 <= amp <= AMP_LIMIT,
        (size - 1) * step * freq * (octaves - 1) <= COORD_LIMIT,
    ensures
        b.wf(),
        b.samples().len() == size * size,
        forall|py: int, px: int|
            0 <= py < size && 0 <= px < size
                ==> #[trigger] b.samples()[py * size + px]
                    == field.spec_fractal(
                        px * step, py * step, octaves as int, freq as int, amp as int),
{
    let mut samples: Vec<i64> = Vec::new();
    let mut py: usize = 0;
    while py < size
        invariant
            field.wf(),
            1 <= size,
            size <= 0x1000,
            0 <= step,
            (size - 1) * step <= COORD_LIMIT,
            1 <= octaves <= OCTAVE_LIMIT,
            1 <= freq,
            0 <= amp <= AMP_LIMIT,
            (size - 1) * step * freq * (octaves - 1) <= COORD_LIMIT,
            py <= size,
            samples@.len() == py * size,
            forall|r: int, c: int|
                0 <= r < py && 0 <= c < size
                    ==> #[trigger] samples@[r * size + c]
                        == field.spec_fractal(
                            c * step, r * step, octaves as int, freq as int, amp as int),
            forall|k: int|
                0 <= k < samples@.len()
                    ==> -SAMPLE_LIMIT <= #[trigger] samples@[k] <= SAMPLE_LIMIT,
        decreases size - py,
    {
        let mut px: usize = 0;
        while px < size
            invariant
                field.wf(),
                1 <= size,
                size <= 0x1000,
                0 <= step,
                (size - 1) * step <= COORD_LIMIT,
                1 <= octaves <= OCTAVE_LIMIT,
                1 <= freq,
                0 <= amp <= AMP_LIMIT,
                (size - 1) * step * freq * (octaves - 1) <= COORD_LIMIT,
                py < size,
                px <= size,
                samples@.len() == py * size + px,
                forall|r: int, c: int|
                    0 <= r < py && 0 <= c < size
                        ==> #[trigger] samples@[r * size + c]
                            == field.spec_fractal(
                                c * step, r * step, octaves as int, freq as int, amp as int),
                forall|c: int|
                    0 <= c < px
                        ==> #[trigger] samples@[py * size + c]
                            == field.spec_fractal(
                                c * step, py * step, octaves as int, freq as int, amp as int),
                forall|k: int|
                    0 <= k < samples@.len()
                        ==> -SAMPLE_LIMIT <= #[trigger] samples@[k] <= SAMPLE_LIMIT,
            decreases size - px,
        {
            proof {
                lemma_pixel_coordinate_bound(px as int, size as int, step as int);
                lemma_pixel_coordinate_bound(py as int, size as int, step as int);
                lemma_fractal_coordinate_bound(
                    px as int, size as int, step as int, freq as int, octaves as int);
                lemma_fractal_coordinate_bound(
                    py as int, size as int, step as int, freq as int, octaves as int);
            }
            let xc: i64 = (px as i64) * step;
            let yc: i64 = (py as i64) * step;
            let v: i64 = field.fractal(xc, yc, octaves, freq, amp);
            proof {
                lemma_row_major_prefix(py as int, px as int, size as int);
            }
            samples.push(v);
            px = px + 1;
        }
        proof {
            assert((py + 1) * size == py * size + size) by (nonlinear_arith);
        }
        py = py + 1;
    }
    proof {
        assert(size * size >= 1) by (nonlinear_arith)
            requires size >= 1;
    }
    SampleBuffer::from_samples(samples)
}

/// A pixel coordinate scaled by the step stays within the coordinate
/// bound of the highest octave of the last pixel.
proof fn lemma_fractal_coordinate_bound(p: int, size: int, step: int, freq: int, octaves: int)
    requires
        0 <= p < size,
        0 <= step,
        1 <= freq,
        1 <= octaves,
        (size - 1) * step * freq * (octaves - 1) <= COORD_LIMIT,
    ensures
        0 <= p * step,
        p * step * freq * (octaves - 1) <= COORD_LIMIT,
{
    assert(0 <= p * step && p * step * freq * (octaves - 1)
        <= (size - 1) * step * freq * (octaves - 1)) by (nonlinear_arith)
        requires 0 <= p <= size - 1 && 0 <= step && 1 <= freq && 1 <= octaves;
}

} // verus!

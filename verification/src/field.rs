//! The noise field: a permutation-hashed gradient lattice evaluated by
//! bilinear, eased interpolation, with optional fractal summation over
//! octaves.

use vstd::prelude::*;
use vstd::arithmetic::div_mod::{
    lemma_div_is_ordered, lemma_fundamental_div_mod, lemma_mod_bound,
};
use vstd::arithmetic::power2::{pow2, lemma_pow2_pos};
use vstd::bits::{low_bits_mask, lemma_usize_low_bits_mask_is_mod};
use crate::fixed::{
    SCALE, spec_div_trunc, spec_lerp, spec_ease_cubic, spec_ease_quintic,
    div_trunc, lerp, ease_cubic, ease_quintic, lemma_lerp_zero_weight,
};
use crate::rng::{new_rng, rand_below};

verus! {

/// Largest coordinate the evaluator accepts, in 1/SCALE units.
pub const COORD_LIMIT: i64 = 0x3FFF_FFFF;

/// Magnitude bound on a single noise evaluation: four corner weights of
/// magnitude at most `2 * SCALE`, interpolated without leaving their range.
pub const EVAL_LIMIT: i64 = 2 * SCALE;

/// Largest fractal amplitude constant the summation accepts.
pub const AMP_LIMIT: i64 = 0x10_0000;

/// Largest octave count the summation accepts.
pub const OCTAVE_LIMIT: usize = 64;

/// Magnitude bound on one fractal octave term: `2 * AMP_LIMIT`.
pub const TERM_LIMIT: i64 = 2 * AMP_LIMIT;

/// Magnitude bound on a whole fractal sum: one term per octave below
/// `OCTAVE_LIMIT`.
pub const FRACTAL_LIMIT: i64 = TERM_LIMIT * 63;

/// A lattice gradient; both components are fixed-point values in
/// `[-SCALE, SCALE]`, standing for a unit vector.
#[derive(Clone, Copy, PartialEq, Eq, Structural)]
pub struct GradientVector {
    pub x: i64,
    pub y: i64,
}

/// How an integer lattice coordinate wraps into the tables: bitwise mask
/// (lattice size a power of two) or plain modulo.
#[derive(Clone, Copy, PartialEq, Eq, Structural)]
pub enum IndexMode {
    Bitmask,
    Modulo,
}

/// Which easing curve smooths the fractional coordinates before
/// interpolation.
#[derive(Clone, Copy, PartialEq, Eq, Structural)]
pub enum EaseMode {
    Cubic,
    Quintic,
}

/// Both gradient components lie within the fixed-point unit range.
pub open spec fn unit_bounded(g: GradientVector) -> bool {
    &&& -SCALE <= g.x <= SCALE
    &&& -SCALE <= g.y <= SCALE
}

/// `s` is a permutation of `0 .. n - 1`: every entry in range, no entry
/// repeated.
pub open spec fn is_permutation(s: Seq<usize>, n: int) -> bool {
    &&& s.len() == n
    &&& forall|i: int| 0 <= i < n ==> (#[trigger] s[i]) < n
    &&& forall|i: int, j: int| 0 <= i < n && 0 <= j < n && i != j ==> s[i] != s[j]
}

/// `n` is a power of two representable as a usize.
pub open spec fn is_pow2_size(n: nat) -> bool {
    exists|k: nat| k < usize::BITS && n == pow2(k)
}

/// The noise field: `n` gradients, a permutation of `0 .. n - 1` hashing
/// lattice points to gradients, and the two configuration choices.
/// Immutable once constructed.
pub struct NoiseField {
    gradients: Vec<GradientVector>,
    permutation: Vec<usize>,
    index_mode: IndexMode,
    ease_mode: EaseMode,
}

impl NoiseField {
    /// The gradient table.
    pub closed spec fn grads(self) -> Seq<GradientVector> {
        self.gradients@
    }

    /// The permutation table.
    pub closed spec fn perm(self) -> Seq<usize> {
        self.permutation@
    }

    /// The configured wrap convention.
    pub closed spec fn imode(self) -> IndexMode {
        self.index_mode
    }

    /// The configured easing curve.
    pub closed spec fn emode(self) -> EaseMode {
        self.ease_mode
    }

    /// Well-formedness: tables of one equal size, the permutation a
    /// bijection, gradients unit-bounded, and a power-of-two size whenever
    /// the bitmask wrap is chosen.
    pub open spec fn wf(self) -> bool {
        &&& 1 <= self.grads().len() <= 0x100_0000
        &&& self.perm().len() == self.grads().len()
        &&& is_permutation(self.perm(), self.grads().len() as int)
        &&& forall|i: int|
            0 <= i < self.grads().len() ==> unit_bounded(#[trigger] self.grads()[i])
        &&& self.imode() == IndexMode::Bitmask ==> is_pow2_size(self.grads().len() as nat)
    }

    /// The permutation hash of an integer lattice point:
    /// `(perm[x mod n] + perm[y mod n]) mod n`.
    pub open spec fn spec_gradient_index(self, cx: int, cy: int) -> int
        recommends
            self.wf(),
            0 <= cx,
            0 <= cy,
    {
        let n = self.grads().len() as int;
        (self.perm()[cx % n] + self.perm()[cy % n]) % n
    }

    /// The weight a corner contributes: the dot product of its hashed
    /// gradient with the offset from the corner to the sample point,
    /// scaled back down to fixed point.
    pub open spec fn spec_corner_weight(self, cx: int, cy: int, dx: int, dy: int) -> int
        recommends
            self.wf(),
            0 <= cx,
            0 <= cy,
    {
        let g = self.grads()[self.spec_gradient_index(cx, cy)];
        spec_div_trunc(dx * g.x + dy * g.y, SCALE as int)
    }

    /// Scalar noise at a continuous point: the four surrounding corner
    /// weights, bilinearly interpolated with eased fractional coordinates.
    pub open spec fn spec_evaluate(self, x: int, y: int) -> int
        recommends
            self.wf(),
            0 <= x,
            0 <= y,
    {
        let s = SCALE as int;
        let x0 = x / s;
        let y0 = y / s;
        let fx = x % s;
        let fy = y % s;
        let w00 = self.spec_corner_weight(x0, y0, fx, fy);
        let w10 = self.spec_corner_weight(x0 + 1, y0, fx - s, fy);
        let w01 = self.spec_corner_weight(x0, y0 + 1, fx, fy - s);
        let w11 = self.spec_corner_weight(x0 + 1, y0 + 1, fx - s, fy - s);
        let sx = spec_ease(self.emode(), fx);
        let sy = spec_ease(self.emode(), fy);
        spec_lerp(spec_lerp(w00, w10, sx), spec_lerp(w01, w11, sx), sy)
    }
}

/// The chosen easing curve applied to a fractional coordinate.
pub open spec fn spec_ease(mode: EaseMode, t: int) -> int {
    match mode {
        EaseMode::Cubic => spec_ease_cubic(t),
        EaseMode::Quintic => spec_ease_quintic(t),
    }
}

/// The chosen easing curve, executable.
pub fn ease(mode: EaseMode, t: i64) -> (r: i64)
    requires
        0 <= t <= SCALE,
    ensures
        r == spec_ease(mode, t as int),
        0 <= r <= SCALE,
{
    match mode {
        EaseMode::Cubic => ease_cubic(t),
        EaseMode::Quintic => ease_quintic(t),
    }
}

/// Wrapping with the low bitmask of a power of two equals wrapping by
/// modulo: the two historical index conventions agree on such lattices.
pub proof fn lemma_bitmask_wrap(x: usize, n: usize)
    requires
        1 <= n,
        is_pow2_size(n as nat),
    ensures
        (x & ((n - 1) as usize)) == (x as int) % (n as int),
{
    let k = choose|k: nat| k < usize::BITS && n as nat == pow2(k);
    lemma_pow2_pos(k);
    assert(low_bits_mask(k) == (n - 1) as nat);
    lemma_usize_low_bits_mask_is_mod(x, k);
    assert((pow2(k) as usize) == n);
    assert((low_bits_mask(k) as usize) == (n - 1) as usize);
}

impl NoiseField {
    /// Number of lattice gradients.
    pub fn size(&self) -> (n: usize)
        ensures
            n == self.grads().len(),
    {
        self.gradients.len()
    }

    /// The gradient stored at a table slot.
    pub fn gradient(&self, i: usize) -> (g: GradientVector)
        requires
            i < self.grads().len(),
        ensures
            g == self.grads()[i as int],
    {
        self.gradients[i]
    }

    /// A copy of the permutation table.
    pub fn permutation_table(&self) -> (p: Vec<usize>)
        ensures
            p@ == self.perm(),
    {
        let mut p: Vec<usize> = Vec::new();
        let mut i: usize = 0;
        let n: usize = self.permutation.len();
        while i < n
            invariant
                i <= n,
                n == self.perm().len(),
                p@.len() == i as int,
                forall|j: int| 0 <= j < i ==> p@[j] == self.perm()[j],
            decreases n - i,
        {
            p.push(self.permutation[i]);
            i = i + 1;
        }
        proof {
            assert(p@ =~= self.perm());
        }
        p
    }

    /// Builds a field from explicit tables; the construction-time contract
    /// of matching sizes and a genuine permutation is the caller's.
    pub fn with_tables(
        gradients: Vec<GradientVector>,
        permutation: Vec<usize>,
        index_mode: IndexMode,
        ease_mode: EaseMode,
    ) -> (r: NoiseField)
        requires
            1 <= gradients@.len() <= 0x100_0000,
            forall|i: int|
                0 <= i < gradients@.len() ==> unit_bounded(#[trigger] gradients@[i]),
            is_permutation(permutation@, gradients@.len() as int),
            index_mode == IndexMode::Bitmask ==> is_pow2_size(gradients@.len() as nat),
        ensures
            r.wf(),
            r.grads() == gradients@,
            r.perm() == permutation@,
            r.imode() == index_mode,
            r.emode() == ease_mode,
    {
        NoiseField { gradients, permutation, index_mode, ease_mode }
    }

    /// Builds a field from the given gradients and a fresh uniformly
    /// shuffled permutation of `0 .. n - 1`.
    pub fn new(
        gradients: Vec<GradientVector>,
        index_mode: IndexMode,
        ease_mode: EaseMode,
    ) -> (r: NoiseField)
        requires
            1 <= gradients@.len() <= 0x100_0000,
            forall|i: int|
                0 <= i < gradients@.len() ==> unit_bounded(#[trigger] gradients@[i]),
            index_mode == IndexMode::Bitmask ==> is_pow2_size(gradients@.len() as nat),
        ensures
            r.wf(),
            r.grads() == gradients@,
            r.imode() == index_mode,
            r.emode() == ease_mode,
    {
        let n: usize = gradients.len();
        let mut permutation: Vec<usize> = Vec::new();
        let mut i: usize = 0;
        while i < n
            invariant
                i <= n,
                permutation@.len() == i as int,
                forall|j: int| 0 <= j < i ==> (#[trigger] permutation@[j]) == j,
            decreases n - i,
        {
            permutation.push(i);
            i = i + 1;
        }
        assert(is_permutation(permutation@, n as int));
        let mut rng = new_rng();
        let mut k: usize = n;
        while k > 1
            invariant
                k <= n,
                permutation@.len() == n as int,
                is_permutation(permutation@, n as int),
            decreases k,
        {
            let j: usize = rand_below(&mut rng, k);
            let ghost before = permutation@;
            let a: usize = permutation[k - 1];
            let b: usize = permutation[j];
            permutation.set(k - 1, b);
            permutation.set(j, a);
            proof {
                lemma_swap_keeps_permutation(before, permutation@, n as int, (k - 1) as int, j as int);
            }
            k = k - 1;
        }
        NoiseField { gradients, permutation, index_mode, ease_mode }
    }

    /// The permutation hash of an integer lattice point, wrapped by the
    /// configured convention.
    pub fn gradient_index(&self, cx: usize, cy: usize) -> (r: usize)
        requires
            self.wf(),
        ensures
            r as int == self.spec_gradient_index(cx as int, cy as int),
            r < self.grads().len(),
    {
        let n: usize = self.gradients.len();
        proof {
            lemma_mod_bound(cx as int, n as int);
            lemma_mod_bound(cy as int, n as int);
        }
        match self.index_mode {
            IndexMode::Modulo => {
                let ix: usize = cx % n;
                let iy: usize = cy % n;
                let s: usize = self.permutation[ix] + self.permutation[iy];
                proof {
                    lemma_mod_bound(s as int, n as int);
                }
                s % n
            },
            IndexMode::Bitmask => {
                let mask: usize = n - 1;
                proof {
                    lemma_bitmask_wrap(cx, n);
                    lemma_bitmask_wrap(cy, n);
                }
                let ix: usize = cx & mask;
                let iy: usize = cy & mask;
                let s: usize = self.permutation[ix] + self.permutation[iy];
                proof {
                    lemma_bitmask_wrap(s, n);
                    lemma_mod_bound(s as int, n as int);
                }
                s & mask
            },
        }
    }

    /// The weight one lattice corner contributes at offset `(dx, dy)`.
    pub fn corner_weight(&self, cx: usize, cy: usize, dx: i64, dy: i64) -> (r: i64)
        requires
            self.wf(),
            -SCALE <= dx <= SCALE,
            -SCALE <= dy <= SCALE,
        ensures
            r == self.spec_corner_weight(cx as int, cy as int, dx as int, dy as int),
            -EVAL_LIMIT <= r <= EVAL_LIMIT,
    {
        let gi: usize = self.gradient_index(cx, cy);
        let g: GradientVector = self.gradients[gi];
        proof {
            assert(-0x10_0000 <= dx * g.x <= 0x10_0000) by (nonlinear_arith)
                requires -1024 <= dx <= 1024 && -1024 <= g.x <= 1024;
            assert(-0x10_0000 <= dy * g.y <= 0x10_0000) by (nonlinear_arith)
                requires -1024 <= dy <= 1024 && -1024 <= g.y <= 1024;
        }
        let dot: i64 = dx * g.x + dy * g.y;
        let r: i64 = div_trunc(dot, SCALE);
        proof {
            lemma_div_is_ordered(dot as int, 0x20_0000, 1024);
            lemma_div_is_ordered(-(dot as int), 0x20_0000, 1024);
        }
        r
    }

    /// Scalar noise at a continuous point.
    pub fn evaluate(&self, x: i64, y: i64) -> (r: i64)
        requires
            self.wf(),
            0 <= x <= COORD_LIMIT,
            0 <= y <= COORD_LIMIT,
        ensures
            r == self.spec_evaluate(x as int, y as int),
            -EVAL_LIMIT <= r <= EVAL_LIMIT,
    {
        let x0: i64 = div_trunc(x, SCALE);
        let y0: i64 = div_trunc(y, SCALE);
        proof {
            lemma_div_is_ordered(x as int, COORD_LIMIT as int, SCALE as int);
            lemma_div_is_ordered(y as int, COORD_LIMIT as int, SCALE as int);
            lemma_fundamental_div_mod(x as int, SCALE as int);
            lemma_fundamental_div_mod(y as int, SCALE as int);
            lemma_mod_bound(x as int, SCALE as int);
            lemma_mod_bound(y as int, SCALE as int);
        }
        let fx: i64 = x - x0 * SCALE;
        let fy: i64 = y - y0 * SCALE;
        let cx0: usize = x0 as usize;
        let cy0: usize = y0 as usize;
        let cx1: usize = cx0 + 1;
        let cy1: usize = cy0 + 1;
        let w00: i64 = self.corner_weight(cx0, cy0, fx, fy);
        let w10: i64 = self.corner_weight(cx1, cy0, fx - SCALE, fy);
        let w01: i64 = self.corner_weight(cx0, cy1, fx, fy - SCALE);
        let w11: i64 = self.corner_weight(cx1, cy1, fx - SCALE, fy - SCALE);
        let sx: i64 = ease(self.ease_mode, fx);
        let sy: i64 = ease(self.ease_mode, fy);
        let lo: i64 = lerp(w00, w10, sx);
        let hi: i64 = lerp(w01, w11, sx);
        lerp(lo, hi, sy)
    }
}

impl NoiseField {
    /// One fractal octave: the field evaluated at frequency `freq * t`,
    /// scaled by the amplitude constant and damped by `1 / t^2`.
    pub open spec fn spec_octave_term(self, x: int, y: int, t: int, freq: int, amp: int) -> int
        recommends
            self.wf(),
            1 <= t,
    {
        let v = self.spec_evaluate(x * freq * t, y * freq * t);
        spec_div_trunc(spec_div_trunc(v * amp, SCALE as int), t * t)
    }

    /// Fractal noise: the octave terms for `t = 1 .. octaves - 1` summed.
    pub open spec fn spec_fractal(self, x: int, y: int, octaves: int, freq: int, amp: int) -> int
        recommends
            self.wf(),
        decreases octaves,
    {
        if octaves <= 1 {
            0
        } else {
            self.spec_fractal(x, y, octaves - 1, freq, amp)
                + self.spec_octave_term(x, y, octaves - 1, freq, amp)
        }
    }

    /// Fractal noise, executable: sums `octaves - 1` damped evaluations of
    /// the field at rising frequencies.
    pub fn fractal(&self, x: i64, y: i64, octaves: usize, freq: i64, amp: i64) -> (r: i64)
        requires
            self.wf(),
            1 <= octaves <= OCTAVE_LIMIT,
            1 <= freq,
            0 <= amp <= AMP_LIMIT,
            0 <= x,
            0 <= y,
            x * freq * (octaves - 1) <= COORD_LIMIT,
            y * freq * (octaves - 1) <= COORD_LIMIT,
        ensures
            r == self.spec_fractal(x as int, y as int, octaves as int, freq as int, amp as int),
            -FRACTAL_LIMIT <= r <= FRACTAL_LIMIT,
    {
        let mut acc: i64 = 0;
        let mut t: usize = 1;
        while t < octaves
            invariant
                self.wf(),
                1 <= t <= octaves <= OCTAVE_LIMIT,
                1 <= freq,
                0 <= amp <= AMP_LIMIT,
                0 <= x,
                0 <= y,
                x * freq * (octaves - 1) <= COORD_LIMIT,
                y * freq * (octaves - 1) <= COORD_LIMIT,
                acc == self.spec_fractal(x as int, y as int, t as int, freq as int, amp as int),
                -0x20_0000 * (t - 1) <= acc <= 0x20_0000 * (t - 1),
            decreases octaves - t,
        {
            proof {
                lemma_octave_coordinate_bound(x as int, freq as int, t as int, octaves as int);
                lemma_octave_coordinate_bound(y as int, freq as int, t as int, octaves as int);
            }
            let cx: i64 = x * freq * (t as i64);
            let cy: i64 = y * freq * (t as i64);
            let v: i64 = self.evaluate(cx, cy);
            proof {
                assert(-0x8000_0000 <= (v as int) * (amp as int) <= 0x8000_0000)
                    by (nonlinear_arith)
                    requires -2048 <= v <= 2048 && 0 <= amp <= 0x10_0000;
            }
            let scaled: i64 = div_trunc(v * amp, SCALE);
            proof {
                lemma_div_is_ordered((v * amp) as int, 0x8000_0000, 1024);
                lemma_div_is_ordered(-((v * amp) as int), 0x8000_0000, 1024);
                assert(0x8000_0000int / 1024 == TERM_LIMIT);
                assert(-TERM_LIMIT <= scaled <= TERM_LIMIT);
            }
            proof {
                assert(1 <= t * t <= 0x1000) by (nonlinear_arith)
                    requires 1 <= t < 64;
            }
            let term: i64 = div_trunc(scaled, (t * t) as i64);
            acc = acc + term;
            t = t + 1;
        }
        proof {
            assert(FRACTAL_LIMIT == 0x20_0000 * 63);
        }
        acc
    }
}

/// For a non-negative coordinate and a positive frequency, every octave
/// below the last stays within the coordinate bound of the last.
proof fn lemma_octave_coordinate_bound(x: int, freq: int, t: int, octaves: int)
    requires
        0 <= x,
        1 <= freq,
        1 <= t <= octaves - 1,
        x * freq * (octaves - 1) <= COORD_LIMIT,
    ensures
        0 <= x * freq <= COORD_LIMIT,
        0 <= x * freq * t <= COORD_LIMIT,
{
    assert(0 <= x * freq && 0 <= x * freq * t
        && x * freq <= x * freq * t
        && x * freq * t <= x * freq * (octaves - 1)) by (nonlinear_arith)
        requires 0 <= x && 1 <= freq && 1 <= t <= octaves - 1;
}

/// At an exact lattice corner the noise is the dot product of that
/// corner's gradient with the zero offset: exactly zero, independent of
/// the other three corners.
pub proof fn lemma_evaluate_at_corner(f: NoiseField, x: int, y: int)
    requires
        f.wf(),
        0 <= x,
        0 <= y,
        x % (SCALE as int) == 0,
        y % (SCALE as int) == 0,
    ensures
        f.spec_evaluate(x, y) == 0,
{
    let s = SCALE as int;
    let x0 = x / s;
    let y0 = y / s;
    let w00 = f.spec_corner_weight(x0, y0, 0, 0);
    let g = f.grads()[f.spec_gradient_index(x0, y0)];
    assert(0 * g.x == 0) by (nonlinear_arith);
    assert(0 * g.y == 0) by (nonlinear_arith);
    assert(0int / s == 0);
    assert(w00 == 0);
    crate::fixed::lemma_ease_endpoints();
    assert(spec_ease(f.emode(), 0) == 0);
    lemma_lerp_zero_weight(w00, f.spec_corner_weight(x0 + 1, y0, 0 - s, 0));
    lemma_lerp_zero_weight(
        f.spec_corner_weight(x0, y0 + 1, 0, 0 - s),
        f.spec_corner_weight(x0 + 1, y0 + 1, 0 - s, 0 - s),
    );
    lemma_lerp_zero_weight(w00, f.spec_corner_weight(x0, y0 + 1, 0, 0 - s));
}

/// With two octaves the fractal sum is a single scaled evaluation: the
/// field at frequency `freq`, multiplied by the fixed-point amplitude.
pub proof fn lemma_fractal_two_octaves(f: NoiseField, x: int, y: int, freq: int, amp: int)
    requires
        f.wf(),
    ensures
        f.spec_fractal(x, y, 2, freq, amp)
            == spec_div_trunc(f.spec_evaluate(x * freq, y * freq) * amp, SCALE as int),
{
    assert(f.spec_fractal(x, y, 1, freq, amp) == 0);
    assert(x * freq * 1 == x * freq) by (nonlinear_arith);
    assert(y * freq * 1 == y * freq) by (nonlinear_arith);
    let v = f.spec_evaluate(x * freq, y * freq);
    let w = spec_div_trunc(v * amp, SCALE as int);
    assert(spec_div_trunc(w, (1 * 1) as int) == w) by {
        assert(w / 1 == w);
        assert((-w) / 1 == -w);
    }
}

/// Swapping two in-range slots of a permutation leaves a permutation.
proof fn lemma_swap_keeps_permutation(before: Seq<usize>, after: Seq<usize>, n: int, p: int, q: int)
    requires
        is_permutation(before, n),
        0 <= p < n,
        0 <= q < n,
        after == before.update(p, before[q]).update(q, before[p]),
    ensures
        is_permutation(after, n),
{
    assert(after.len() == n);
    assert(forall|i: int| 0 <= i < n ==> (#[trigger] after[i]) < n);
    assert(forall|i: int, j: int|
        0 <= i < n && 0 <= j < n && i != j ==> after[i] != after[j]);
}

} // verus!

//! Precomputed fixed-point sine/cosine for integer degrees 0-359.
//!
//! All rotation math indexes this table instead of calling transcendental
//! functions per pixel. Values are scaled by [`crate::math::FP_ONE`] and
//! follow a rational approximation of the sine that is exact at 0, 90, 180
//! and 270 degrees and stays within the fixed-point unit everywhere.

use vstd::prelude::*;
use crate::math::FP_ONE;

verus! {

/// Fixed-point sine for a degree in `[0, 180]`: the rational approximation
/// `4 d (180 - d) / (40500 - d (180 - d))`, scaled by `FP_ONE`.
pub open spec fn spec_sin_half(d: int) -> int {
    let q = d * (180 - d);
    (4 * q * (FP_ONE as int)) / (40500 - q)
}

/// Fixed-point sine for a degree in `[0, 360)`.
pub open spec fn spec_sin_fp(d: int) -> int {
    if d < 180 {
        spec_sin_half(d)
    } else {
        -spec_sin_half(d - 180)
    }
}

/// Fixed-point cosine for a degree in `[0, 360)`: the sine shifted a quarter
/// turn.
pub open spec fn spec_cos_fp(d: int) -> int {
    spec_sin_fp((d + 90) % 360)
}

pub proof fn lemma_sin_half_bounds(d: int)
    requires
        0 <= d <= 180,
    ensures
        0 <= spec_sin_half(d) <= FP_ONE,
{
    let q = d * (180 - d);
    assert(0 <= q <= 8100) by (nonlinear_arith)
        requires
            0 <= d <= 180,
            q == d * (180 - d),
    ;
    let num = 4 * q * (FP_ONE as int);
    let den = 40500 - q;
    vstd::arithmetic::div_mod::lemma_div_pos_is_pos(num, den);
    vstd::arithmetic::div_mod::lemma_div_is_ordered(num, 1024 * den, den);
    vstd::arithmetic::div_mod::lemma_div_multiples_vanish(1024, den);
}

/// The fixed-point sine never leaves the unit range.
pub proof fn lemma_sin_fp_bounds(d: int)
    requires
        0 <= d < 360,
    ensures
        -FP_ONE <= spec_sin_fp(d) <= FP_ONE,
{
    if d < 180 {
        lemma_sin_half_bounds(d);
    } else {
        lemma_sin_half_bounds(d - 180);
    }
}

/// The fixed-point cosine never leaves the unit range.
pub proof fn lemma_cos_fp_bounds(d: int)
    requires
        0 <= d < 360,
    ensures
        -FP_ONE <= spec_cos_fp(d) <= FP_ONE,
{
    lemma_sin_fp_bounds((d + 90) % 360);
}

/// The rational sine approximation for a degree in `[0, 180]`.
fn sin_half(d: u32) -> (r: i32)
    requires
        d <= 180,
    ensures
        r == spec_sin_half(d as int),
        0 <= r <= FP_ONE,
{
    proof {
        crate::math::lemma_mul_abs_bound((d as u64) as int, ((180 - d) as u64) as int, 180, 180);
    }
    let q: u64 = (d as u64) * ((180 - d) as u64);
    proof {
        crate::math::lemma_mul_congruence(
            (d as u64) as int,
            ((180 - d) as u64) as int,
            d as int,
            180 - (d as int),
        );
        assert(0 <= (d as int) * (180 - (d as int)) <= 8100) by (nonlinear_arith)
            requires
                0 <= (d as int) <= 180,
        ;
        lemma_sin_half_bounds(d as int);
    }
    let num: u64 = 4 * q * 1024;
    let den: u64 = 40500 - q;
    let r = num / den;
    r as i32
}

/// Fixed-point sine for a degree in `[0, 360)`.
pub fn sin_fp(deg: u32) -> (r: i32)
    requires
        deg < 360,
    ensures
        r == spec_sin_fp(deg as int),
        -FP_ONE <= r <= FP_ONE,
{
    if deg < 180 {
        sin_half(deg)
    } else {
        let v = sin_half(deg - 180);
        -v
    }
}

/// The sine/cosine table for integer degrees, filled once before rendering
/// and never mutated afterwards.
pub struct TrigTable {
    pub sin: Vec<i32>,
    pub cos: Vec<i32>,
}

impl TrigTable {
    /// Both columns hold the fixed-point sine/cosine of their index.
    pub open spec fn wf(self) -> bool {
        &&& self.sin.len() == 360
        &&& self.cos.len() == 360
        &&& forall|i: int| 0 <= i < 360 ==> self.sin[i] == spec_sin_fp(i)
        &&& forall|i: int| 0 <= i < 360 ==> self.cos[i] == spec_cos_fp(i)
    }

    pub fn new() -> (t: TrigTable)
        ensures
            t.wf(),
    {
        let mut sin: Vec<i32> = Vec::new();
        let mut i: u32 = 0;
        while i < 360
            invariant
                i <= 360,
                sin.len() == i,
                forall|j: int| 0 <= j < i ==> sin[j] == spec_sin_fp(j),
            decreases 360 - i,
        {
            let v = sin_fp(i);
            sin.push(v);
            i = i + 1;
        }
        let mut cos: Vec<i32> = Vec::new();
        let mut i: u32 = 0;
        while i < 360
            invariant
                i <= 360,
                sin.len() == 360,
                forall|j: int| 0 <= j < 360 ==> sin[j] == spec_sin_fp(j),
                cos.len() == i,
                forall|j: int| 0 <= j < i ==> cos[j] == spec_cos_fp(j),
            decreases 360 - i,
        {
            let shifted: u32 = (i + 90) % 360;
            let v = sin[shifted as usize];
            cos.push(v);
            i = i + 1;
        }
        TrigTable { sin, cos }
    }

    /// The fixed-point sine of `deg` degrees.
    pub fn sin_deg(&self, deg: i32) -> (r: i32)
        requires
            self.wf(),
            0 <= deg < 360,
        ensures
            r == spec_sin_fp(deg as int),
            -FP_ONE <= r <= FP_ONE,
    {
        proof {
            lemma_sin_fp_bounds(deg as int);
        }
        self.sin[deg as usize]
    }

    /// The fixed-point cosine of `deg` degrees.
    pub fn cos_deg(&self, deg: i32) -> (r: i32)
        requires
            self.wf(),
            0 <= deg < 360,
        ensures
            r == spec_cos_fp(deg as int),
            -FP_ONE <= r <= FP_ONE,
    {
        proof {
            lemma_cos_fp_bounds(deg as int);
        }
        self.cos[deg as usize]
    }
}

} // verus!

//! Integer vector primitives and small arithmetic helpers.
//!
//! All geometry in the renderer is integer-valued: positions and wall
//! endpoints are `i32`, and the few places that need fractions (rotation,
//! normalization) work in fixed point with the scale [`FP_ONE`].

use vstd::prelude::*;

verus! {

/// Fixed-point scale: a unit vector component, a sine or a cosine is
/// represented as a value in `[-FP_ONE, FP_ONE]`.
pub const FP_ONE: i32 = 1024;

/// Bounded factors give a bounded product.
pub proof fn lemma_mul_abs_bound(a: int, b: int, am: int, bm: int)
    by (nonlinear_arith)
    requires
        -am <= a <= am,
        -bm <= b <= bm,
    ensures
        -(am * bm) <= a * b <= am * bm,
{
}

/// A square is never negative.
pub proof fn lemma_square_nonneg(a: int)
    by (nonlinear_arith)
    ensures
        a * a >= 0,
{
}

/// Equal factors give equal products.
pub proof fn lemma_mul_congruence(a: int, b: int, c: int, d: int)
    by (nonlinear_arith)
    requires
        a == c,
        b == d,
    ensures
        a * b == c * d,
{
}

/// Squaring commutes with the absolute value.
pub proof fn lemma_abs_square(a: int)
    by (nonlinear_arith)
    ensures
        vstd::math::abs(a) * vstd::math::abs(a) == a * a,
{
}

/// Truncating (round-toward-zero) division, the semantics of `/` on Rust's
/// signed integers, defined for specs over mathematical integers.
pub open spec fn div_tz(a: int, b: int) -> int {
    let q = (vstd::math::abs(a) / vstd::math::abs(b)) as int;
    if (a < 0) != (b < 0) {
        -q
    } else {
        q
    }
}

/// The magnitude of a truncating quotient never exceeds the magnitude of the
/// dividend, and a divisor larger than the dividend gives zero.
pub proof fn lemma_div_tz_bounds(a: int, b: int)
    requires
        b != 0,
    ensures
        vstd::math::abs(div_tz(a, b)) <= vstd::math::abs(a),
        vstd::math::abs(b) > vstd::math::abs(a) ==> div_tz(a, b) == 0,
        a >= 0 && b > 0 ==> div_tz(a, b) == a / b,
{
    let am = vstd::math::abs(a);
    let bm = vstd::math::abs(b);
    vstd::arithmetic::div_mod::lemma_div_nonincreasing(am as int, bm as int);
    vstd::arithmetic::div_mod::lemma_div_pos_is_pos(am as int, bm as int);
    if bm > am {
        vstd::arithmetic::div_mod::lemma_basic_div(am as int, bm as int);
    }
}

/// Truncating division on `i64`; mirrors `div_tz`.
pub fn div_i64(a: i64, b: i64) -> (r: i64)
    requires
        b != 0,
        a > i64::MIN,
    ensures
        r == div_tz(a as int, b as int),
{
    proof {
        lemma_div_tz_bounds(a as int, b as int);
    }
    match a.checked_div(b) {
        Some(q) => q,
        None => 0,
    }
}

/// Truncating division on `i128`; mirrors `div_tz`.
pub fn div_i128(a: i128, b: i128) -> (r: i128)
    requires
        b != 0,
        a > i128::MIN,
    ensures
        r == div_tz(a as int, b as int),
{
    proof {
        lemma_div_tz_bounds(a as int, b as int);
    }
    match a.checked_div(b) {
        Some(q) => q,
        None => 0,
    }
}

/// Truncating division by a positive divisor is monotonic.
pub proof fn lemma_div_tz_ordered(a: int, b: int, c: int)
    requires
        a <= b,
        c > 0,
    ensures
        div_tz(a, c) <= div_tz(b, c),
{
    if a >= 0 {
        vstd::arithmetic::div_mod::lemma_div_is_ordered(a, b, c);
    } else if b < 0 {
        vstd::arithmetic::div_mod::lemma_div_is_ordered(-b, -a, c);
    } else {
        vstd::arithmetic::div_mod::lemma_div_pos_is_pos(-a, c);
        vstd::arithmetic::div_mod::lemma_div_pos_is_pos(b, c);
    }
}

/// An exact multiple divides back to its factor.
pub proof fn lemma_div_tz_exact(p: int, c: int)
    requires
        c > 0,
    ensures
        div_tz(p * c, c) == p,
{
    let am = vstd::math::abs(p);
    assert(vstd::math::abs(p * c) == am * c) by (nonlinear_arith)
        requires
            c > 0,
            am == vstd::math::abs(p),
    ;
    assert((p > 0 ==> p * c > 0) && (p < 0 ==> p * c < 0)) by (nonlinear_arith)
        requires
            c > 0,
    ;
    vstd::arithmetic::div_mod::lemma_div_multiples_vanish(am as int, c);
    assert(am * c == c * am) by (nonlinear_arith);
}

/// The absolute value distributes over products.
pub proof fn lemma_abs_mul(a: int, b: int)
    ensures
        vstd::math::abs(a * b) == vstd::math::abs(a) * vstd::math::abs(b),
{
    let am = vstd::math::abs(a) as int;
    let bm = vstd::math::abs(b) as int;
    let pm = vstd::math::abs(a * b) as int;
    assert(pm == am * bm) by (nonlinear_arith)
        requires
            am == if a < 0 { -a } else { a },
            bm == if b < 0 { -b } else { b },
            pm == if a * b < 0 { -(a * b) } else { a * b },
    ;
}

/// A factorable bound on the numerator bounds the quotient.
pub proof fn lemma_div_tz_quotient_bound(num: int, den: int, k: int)
    requires
        den != 0,
        k >= 0,
        vstd::math::abs(num) <= k * vstd::math::abs(den),
    ensures
        vstd::math::abs(div_tz(num, den)) <= k,
{
    let nm = vstd::math::abs(num) as int;
    let dm = vstd::math::abs(den) as int;
    vstd::arithmetic::div_mod::lemma_div_is_ordered(nm, k * dm, dm);
    vstd::arithmetic::div_mod::lemma_div_multiples_vanish(k, dm);
    assert(k * dm == dm * k) by (nonlinear_arith);
}

/// Mathematical floor of the square root.
pub open spec fn sqrt_floor(n: nat) -> nat
    decreases n,
{
    if n == 0 {
        0
    } else {
        let r = sqrt_floor((n - 1) as nat);
        if (r + 1) * (r + 1) <= n {
            r + 1
        } else {
            r
        }
    }
}

/// `sqrt_floor(n)` lies between the two enclosing perfect squares.
pub proof fn lemma_sqrt_floor_bounds(n: nat)
    ensures
        sqrt_floor(n) * sqrt_floor(n) <= n,
        n < (sqrt_floor(n) + 1) * (sqrt_floor(n) + 1),
    decreases n,
{
    if n > 0 {
        lemma_sqrt_floor_bounds((n - 1) as nat);
        let r0 = sqrt_floor((n - 1) as nat);
        if (r0 + 1) * (r0 + 1) <= n {
            assert(sqrt_floor(n) == r0 + 1);
            assert(sqrt_floor(n) * sqrt_floor(n) <= n && n < (sqrt_floor(n) + 1) * (sqrt_floor(n)
                + 1)) by (nonlinear_arith)
                requires
                    sqrt_floor(n) == r0 + 1,
                    (r0 + 1) * (r0 + 1) <= n,
                    n <= (r0 + 1) * (r0 + 1),
            ;
        } else {
            assert(sqrt_floor(n) == r0);
            assert(sqrt_floor(n) * sqrt_floor(n) <= n && n < (sqrt_floor(n) + 1) * (sqrt_floor(n)
                + 1)) by (nonlinear_arith)
                requires
                    sqrt_floor(n) == r0,
                    r0 * r0 <= n - 1,
                    !((r0 + 1) * (r0 + 1) <= n),
            ;
        }
    } else {
        assert(sqrt_floor(n) * sqrt_floor(n) <= n && n < (sqrt_floor(n) + 1) * (sqrt_floor(n)
            + 1)) by (nonlinear_arith)
            requires
                n == 0,
                sqrt_floor(n) == 0,
        ;
    }
}

/// Any `a` whose successor square exceeds `n` bounds `sqrt_floor(n)`.
pub proof fn lemma_sqrt_floor_le(n: nat, a: nat)
    requires
        n < (a + 1) * (a + 1),
    ensures
        sqrt_floor(n) <= a,
{
    lemma_sqrt_floor_bounds(n);
    let r = sqrt_floor(n);
    if r > a {
        assert(false) by (nonlinear_arith)
            requires
                r * r <= n,
                n < (a + 1) * (a + 1),
                r > a,
        ;
    }
}

/// Square roots are monotonic.
pub proof fn lemma_sqrt_floor_monotonic(m: nat, n: nat)
    requires
        m <= n,
    ensures
        sqrt_floor(m) <= sqrt_floor(n),
    decreases n,
{
    if m < n {
        lemma_sqrt_floor_monotonic(m, (n - 1) as nat);
    }
}

/// `sqrt_floor(a * a) == a`.
pub proof fn lemma_sqrt_floor_square(a: nat)
    ensures
        sqrt_floor((a * a) as nat) == a,
{
    lemma_sqrt_floor_bounds((a * a) as nat);
    let r = sqrt_floor((a * a) as nat);
    if r != a {
        assert(false) by (nonlinear_arith)
            requires
                r * r <= a * a,
                a * a < (r + 1) * (r + 1),
                r != a,
        ;
    }
}

/// Binary-search integer square root.
pub fn isqrt_u128(n: u128) -> (r: u64)
    ensures
        r == sqrt_floor(n as nat),
{
    proof {
        assert((u64::MAX as int + 1) * (u64::MAX as int + 1) > u128::MAX as int)
            by (nonlinear_arith);
        lemma_sqrt_floor_le(n as nat, u64::MAX as nat);
    }
    let mut lo: u64 = 0;
    let mut hi: u64 = u64::MAX;
    while lo < hi
        invariant
            lo <= sqrt_floor(n as nat) <= hi,
        decreases hi - lo,
    {
        let mid: u64 = lo + (hi - lo) / 2 + 1;
        proof {
            assert((mid as int) * (mid as int) <= u128::MAX as int) by (nonlinear_arith)
                requires
                    0 <= mid <= u64::MAX,
            ;
        }
        let ghost s = sqrt_floor(n as nat);
        if (mid as u128) * (mid as u128) <= n {
            proof {
                lemma_sqrt_floor_bounds(n as nat);
                if s < mid {
                    assert(false) by (nonlinear_arith)
                        requires
                            (mid as u128) * (mid as u128) <= n,
                            n < (s + 1) * (s + 1),
                            s < mid,
                    ;
                }
            }
            lo = mid;
        } else {
            proof {
                lemma_sqrt_floor_bounds(n as nat);
                if s >= mid {
                    assert(false) by (nonlinear_arith)
                        requires
                            !((mid as u128) * (mid as u128) <= n),
                            s * s <= n,
                            s >= mid,
                    ;
                }
            }
            hi = mid - 1;
        }
    }
    lo
}

/// A 2D integer vector.
#[derive(Debug, Clone, Copy, PartialEq, Eq, Structural)]
pub struct Vec2 {
    pub x: i32,
    pub y: i32,
}

impl Vec2 {
    pub fn new(x: i32, y: i32) -> (v: Self)
        ensures
            v.x == x,
            v.y == y,
    {
        Vec2 { x, y }
    }

    pub fn new_x(x: i32) -> (v: Self)
        ensures
            v.x == x,
            v.y == 0,
    {
        Vec2 { x, y: 0 }
    }

    pub fn new_y(y: i32) -> (v: Self)
        ensures
            v.x == 0,
            v.y == y,
    {
        Vec2 { x: 0, y }
    }

    pub fn zeros() -> (v: Self)
        ensures
            v.x == 0,
            v.y == 0,
    {
        Vec2 { x: 0, y: 0 }
    }

    pub fn yx(&self) -> (v: Vec2)
        ensures
            v.x == self.y,
            v.y == self.x,
    {
        Vec2 { x: self.y, y: self.x }
    }

    /// Squared Euclidean length of `self - right`, as a spec value.
    pub open spec fn spec_dist_sq(self, right: Vec2) -> int {
        (self.x - right.x) * (self.x - right.x) + (self.y - right.y) * (self.y - right.y)
    }

    pub fn dot(&self, right: &Vec2) -> (r: i32)
        requires
            i32::MIN <= self.x * right.x + self.y * right.y <= i32::MAX,
        ensures
            r == self.x * right.x + self.y * right.y,
    {
        proof {
            lemma_mul_abs_bound(self.x as int, right.x as int, 0x8000_0000, 0x8000_0000);
            lemma_mul_abs_bound(self.y as int, right.y as int, 0x8000_0000, 0x8000_0000);
        }
        let p = (self.x as i128) * (right.x as i128) + (self.y as i128) * (right.y as i128);
        p as i32
    }

    pub fn cross(&self, right: &Vec2) -> (r: i32)
        requires
            i32::MIN <= self.x * right.y - self.y * right.x <= i32::MAX,
        ensures
            r == self.x * right.y - self.y * right.x,
    {
        proof {
            lemma_mul_abs_bound(self.x as int, right.y as int, 0x8000_0000, 0x8000_0000);
            lemma_mul_abs_bound(self.y as int, right.x as int, 0x8000_0000, 0x8000_0000);
        }
        let p = (self.x as i128) * (right.y as i128) - (self.y as i128) * (right.x as i128);
        p as i32
    }

    /// Euclidean distance between the endpoints, rounded down.
    pub fn distance(&self, right: &Vec2) -> (r: i32)
        requires
            self.spec_dist_sq(*right) <= i32::MAX * i32::MAX,
        ensures
            r == sqrt_floor(self.spec_dist_sq(*right) as nat),
    {
        let dx = (self.x as i64) - (right.x as i64);
        let dy = (self.y as i64) - (right.y as i64);
        proof {
            lemma_mul_abs_bound(dx as int, dx as int, 0x1_0000_0000, 0x1_0000_0000);
            lemma_mul_abs_bound(dy as int, dy as int, 0x1_0000_0000, 0x1_0000_0000);
            lemma_square_nonneg(dx as int);
            lemma_square_nonneg(dy as int);
        }
        let sq = ((dx as i128) * (dx as i128) + (dy as i128) * (dy as i128)) as u128;
        let r = isqrt_u128(sq);
        proof {
            lemma_sqrt_floor_monotonic(sq as nat, (i32::MAX * i32::MAX) as nat);
            lemma_sqrt_floor_square(i32::MAX as nat);
        }
        r as i32
    }

    /// Scales `self` to (fixed-point) unit length: each component becomes
    /// `c * FP_ONE / |self|`, or zero for the zero vector.
    pub fn normalize(&self) -> (v: Vec2)
        ensures
            ({
                let len = sqrt_floor(self.spec_dist_sq(Vec2 { x: 0, y: 0 }) as nat) as int;
                if len == 0 {
                    v.x == 0 && v.y == 0
                } else {
                    v.x == div_tz(self.x * FP_ONE, len) && v.y == div_tz(self.y * FP_ONE, len)
                }
            }),
    {
        let dx = self.x as i64;
        let dy = self.y as i64;
        proof {
            lemma_mul_abs_bound(dx as int, dx as int, 0x8000_0000, 0x8000_0000);
            lemma_mul_abs_bound(dy as int, dy as int, 0x8000_0000, 0x8000_0000);
            lemma_square_nonneg(dx as int);
            lemma_square_nonneg(dy as int);
        }
        let sq = ((dx as i128) * (dx as i128) + (dy as i128) * (dy as i128)) as u128;
        let len = isqrt_u128(sq);
        proof {
            assert((0x1_0000_0000int + 1) * (0x1_0000_0000int + 1) > 0x8000_0000_0000_0000int)
                by (nonlinear_arith);
            lemma_sqrt_floor_le(sq as nat, 0x1_0000_0000 as nat);
        }
        if len == 0 {
            Vec2 { x: 0, y: 0 }
        } else {
            proof {
                lemma_abs_square(dx as int);
                lemma_abs_square(dy as int);
                lemma_sqrt_floor_square(vstd::math::abs(dx as int));
                lemma_sqrt_floor_square(vstd::math::abs(dy as int));
                lemma_sqrt_floor_monotonic((dx * dx) as nat, sq as nat);
                lemma_sqrt_floor_monotonic((dy * dy) as nat, sq as nat);
                lemma_mul_abs_bound(dx as int, FP_ONE as int, 0x8000_0000, 0x400);
                lemma_mul_abs_bound(dy as int, FP_ONE as int, 0x8000_0000, 0x400);
                lemma_div_tz_scaled_bound(self.x as int, FP_ONE as int, len as int);
                lemma_div_tz_scaled_bound(self.y as int, FP_ONE as int, len as int);
            }
            let nx = div_i64(dx * (FP_ONE as i64), len as i64);
            let ny = div_i64(dy * (FP_ONE as i64), len as i64);
            Vec2 { x: nx as i32, y: ny as i32 }
        }
    }
}

/// If `|a| <= len` then `|a * s / len| <= s` (for `s, len > 0`).
pub proof fn lemma_div_tz_scaled_bound(a: int, s: int, len: int)
    requires
        s > 0,
        len > 0,
        vstd::math::abs(a) <= len,
    ensures
        vstd::math::abs(div_tz(a * s, len)) <= s,
{
    let am = vstd::math::abs(a);
    assert(vstd::math::abs(a * s) == am * s) by (nonlinear_arith)
        requires
            s > 0,
            am == vstd::math::abs(a),
    ;
    assert((am * s) / len <= s) by (nonlinear_arith)
        requires
            s > 0,
            len > 0,
            am <= len,
    ;
}

/// A 3D integer vector.
#[derive(Debug, Clone, Copy, PartialEq, Eq, Structural)]
pub struct Vec3 {
    pub x: i32,
    pub y: i32,
    pub z: i32,
}

impl Vec3 {
    pub fn new(x: i32, y: i32, z: i32) -> (v: Self)
        ensures
            v.x == x,
            v.y == y,
            v.z == z,
    {
        Vec3 { x, y, z }
    }

    pub fn new_vec2_z(xy: &Vec2, z: i32) -> (v: Self)
        ensures
            v.x == xy.x,
            v.y == xy.y,
            v.z == z,
    {
        Vec3 { x: xy.x, y: xy.y, z }
    }

    pub fn new_x(x: i32) -> (v: Self)
        ensures
            v == (Vec3 { x: x, y: 0, z: 0 }),
    {
        Vec3 { x, y: 0, z: 0 }
    }

    pub fn new_y(y: i32) -> (v: Self)
        ensures
            v == (Vec3 { x: 0, y: y, z: 0 }),
    {
        Vec3 { x: 0, y, z: 0 }
    }

    pub fn new_z(z: i32) -> (v: Self)
        ensures
            v == (Vec3 { x: 0, y: 0, z: z }),
    {
        Vec3 { x: 0, y: 0, z }
    }

    pub fn zeros() -> (v: Self)
        ensures
            v == (Vec3 { x: 0, y: 0, z: 0 }),
    {
        Vec3 { x: 0, y: 0, z: 0 }
    }

    pub fn xy(&self) -> (v: Vec2)
        ensures
            v.x == self.x,
            v.y == self.y,
    {
        Vec2 { x: self.x, y: self.y }
    }

    pub fn xz(&self) -> (v: Vec2)
        ensures
            v.x == self.x,
            v.y == self.z,
    {
        Vec2 { x: self.x, y: self.z }
    }

    pub fn yx(&self) -> (v: Vec2)
        ensures
            v.x == self.y,
            v.y == self.x,
    {
        Vec2 { x: self.y, y: self.x }
    }

    pub fn yz(&self) -> (v: Vec2)
        ensures
            v.x == self.y,
            v.y == self.z,
    {
        Vec2 { x: self.y, y: self.z }
    }

    pub fn zx(&self) -> (v: Vec2)
        ensures
            v.x == self.z,
            v.y == self.x,
    {
        Vec2 { x: self.z, y: self.x }
    }

    pub fn zy(&self) -> (v: Vec2)
        ensures
            v.x == self.z,
            v.y == self.y,
    {
        Vec2 { x: self.z, y: self.y }
    }

    /// Squared Euclidean length of `self - right`, as a spec value.
    pub open spec fn spec_dist_sq(self, right: Vec3) -> int {
        (self.x - right.x) * (self.x - right.x) + (self.y - right.y) * (self.y - right.y) + (
        self.z - right.z) * (self.z - right.z)
    }

    pub fn dot(&self, right: &Vec3) -> (r: i32)
        requires
            i32::MIN <= self.x * right.x + self.y * right.y + self.z * right.z <= i32::MAX,
        ensures
            r == self.x * right.x + self.y * right.y + self.z * right.z,
    {
        proof {
            lemma_mul_abs_bound(self.x as int, right.x as int, 0x8000_0000, 0x8000_0000);
            lemma_mul_abs_bound(self.y as int, right.y as int, 0x8000_0000, 0x8000_0000);
            lemma_mul_abs_bound(self.z as int, right.z as int, 0x8000_0000, 0x8000_0000);
        }
        let p = (self.x as i128) * (right.x as i128) + (self.y as i128) * (right.y as i128) + (
        self.z as i128) * (right.z as i128);
        p as i32
    }

    pub fn cross(&self, right: &Vec3) -> (v: Vec3)
        requires
            i32::MIN <= self.y * right.z - self.z * right.y <= i32::MAX,
            i32::MIN <= self.z * right.x - self.x * right.z <= i32::MAX,
            i32::MIN <= self.x * right.y - self.y * right.x <= i32::MAX,
        ensures
            v.x == self.y * right.z - self.z * right.y,
            v.y == self.z * right.x - self.x * right.z,
            v.z == self.x * right.y - self.y * right.x,
    {
        proof {
            lemma_mul_abs_bound(self.y as int, right.z as int, 0x8000_0000, 0x8000_0000);
            lemma_mul_abs_bound(self.z as int, right.y as int, 0x8000_0000, 0x8000_0000);
            lemma_mul_abs_bound(self.z as int, right.x as int, 0x8000_0000, 0x8000_0000);
            lemma_mul_abs_bound(self.x as int, right.z as int, 0x8000_0000, 0x8000_0000);
            lemma_mul_abs_bound(self.x as int, right.y as int, 0x8000_0000, 0x8000_0000);
            lemma_mul_abs_bound(self.y as int, right.x as int, 0x8000_0000, 0x8000_0000);
        }
        let cx = (self.y as i128) * (right.z as i128) - (self.z as i128) * (right.y as i128);
        let cy = (self.z as i128) * (right.x as i128) - (self.x as i128) * (right.z as i128);
        let cz = (self.x as i128) * (right.y as i128) - (self.y as i128) * (right.x as i128);
        Vec3 { x: cx as i32, y: cy as i32, z: cz as i32 }
    }

    /// Euclidean distance between the endpoints, rounded down.
    pub fn distance(&self, right: &Vec3) -> (r: i32)
        requires
            self.spec_dist_sq(*right) <= i32::MAX * i32::MAX,
        ensures
            r == sqrt_floor(self.spec_dist_sq(*right) as nat),
    {
        let dx = (self.x as i64) - (right.x as i64);
        let dy = (self.y as i64) - (right.y as i64);
        let dz = (self.z as i64) - (right.z as i64);
        proof {
            lemma_mul_abs_bound(dx as int, dx as int, 0x1_0000_0000, 0x1_0000_0000);
            lemma_mul_abs_bound(dy as int, dy as int, 0x1_0000_0000, 0x1_0000_0000);
            lemma_mul_abs_bound(dz as int, dz as int, 0x1_0000_0000, 0x1_0000_0000);
            lemma_square_nonneg(dx as int);
            lemma_square_nonneg(dy as int);
            lemma_square_nonneg(dz as int);
        }
        let sq = ((dx as i128) * (dx as i128) + (dy as i128) * (dy as i128) + (dz as i128) * (dz
            as i128)) as u128;
        let r = isqrt_u128(sq);
        proof {
            lemma_sqrt_floor_monotonic(sq as nat, (i32::MAX * i32::MAX) as nat);
            lemma_sqrt_floor_square(i32::MAX as nat);
        }
        r as i32
    }

    /// Scales `self` to (fixed-point) unit length: each component becomes
    /// `c * FP_ONE / |self|`, or zero for the zero vector.
    pub fn normalize(&self) -> (v: Vec3)
        ensures
            ({
                let len = sqrt_floor(self.spec_dist_sq(Vec3 { x: 0, y: 0, z: 0 }) as nat) as int;
                if len == 0 {
                    v == (Vec3 { x: 0, y: 0, z: 0 })
                } else {
                    v.x == div_tz(self.x * FP_ONE, len) && v.y == div_tz(self.y * FP_ONE, len)
                        && v.z == div_tz(self.z * FP_ONE, len)
                }
            }),
    {
        let dx = self.x as i64;
        let dy = self.y as i64;
        let dz = self.z as i64;
        proof {
            lemma_mul_abs_bound(dx as int, dx as int, 0x8000_0000, 0x8000_0000);
            lemma_mul_abs_bound(dy as int, dy as int, 0x8000_0000, 0x8000_0000);
            lemma_mul_abs_bound(dz as int, dz as int, 0x8000_0000, 0x8000_0000);
            lemma_square_nonneg(dx as int);
            lemma_square_nonneg(dy as int);
            lemma_square_nonneg(dz as int);
        }
        let sq = ((dx as i128) * (dx as i128) + (dy as i128) * (dy as i128) + (dz as i128) * (dz
            as i128)) as u128;
        let len = isqrt_u128(sq);
        proof {
            assert((0x1_0000_0000int + 1) * (0x1_0000_0000int + 1) > 0xC000_0000_0000_0000int)
                by (nonlinear_arith);
            lemma_sqrt_floor_le(sq as nat, 0x1_0000_0000 as nat);
        }
        if len == 0 {
            Vec3 { x: 0, y: 0, z: 0 }
        } else {
            proof {
                lemma_abs_square(dx as int);
                lemma_abs_square(dy as int);
                lemma_abs_square(dz as int);
                lemma_sqrt_floor_square(vstd::math::abs(dx as int));
                lemma_sqrt_floor_square(vstd::math::abs(dy as int));
                lemma_sqrt_floor_square(vstd::math::abs(dz as int));
                lemma_sqrt_floor_monotonic((dx * dx) as nat, sq as nat);
                lemma_sqrt_floor_monotonic((dy * dy) as nat, sq as nat);
                lemma_sqrt_floor_monotonic((dz * dz) as nat, sq as nat);
                lemma_mul_abs_bound(dx as int, FP_ONE as int, 0x8000_0000, 0x400);
                lemma_mul_abs_bound(dy as int, FP_ONE as int, 0x8000_0000, 0x400);
                lemma_mul_abs_bound(dz as int, FP_ONE as int, 0x8000_0000, 0x400);
                lemma_div_tz_scaled_bound(self.x as int, FP_ONE as int, len as int);
                lemma_div_tz_scaled_bound(self.y as int, FP_ONE as int, len as int);
                lemma_div_tz_scaled_bound(self.z as int, FP_ONE as int, len as int);
            }
            let nx = div_i64(dx * (FP_ONE as i64), len as i64);
            let ny = div_i64(dy * (FP_ONE as i64), len as i64);
            let nz = div_i64(dz * (FP_ONE as i64), len as i64);
            Vec3 { x: nx as i32, y: ny as i32, z: nz as i32 }
        }
    }
}

/// The larger of two values.
pub fn max(value1: i32, value2: i32) -> (r: i32)
    ensures
        r == if value1 < value2 {
            value2
        } else {
            value1
        },
{
    if value1 < value2 {
        return value2;
    }
    return value1;
}

/// The smaller of two values.
pub fn min(value1: i32, value2: i32) -> (r: i32)
    ensures
        r == if value2 < value1 {
            value2
        } else {
            value1
        },
{
    if value2 < value1 {
        return value2;
    }
    return value1;
}

/// `value` forced into `[low, high]` (first against the lower bound, then the
/// upper one, as the argument order `value, min, max` suggests).
pub fn clamp(value: i32, low: i32, high: i32) -> (r: i32)
    ensures
        r == if value < low {
            low
        } else if value > high {
            high
        } else {
            value
        },
{
    if value < low {
        return low;
    } else if value > high {
        return high;
    }
    return value;
}

/// `value`, but never below zero.
pub fn no_negative(value: i32) -> (r: i32)
    ensures
        r == if value < 0 {
            0
        } else {
            value
        },
{
    if value < 0 {
        return 0;
    }
    return value;
}

} // verus!

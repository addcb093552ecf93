//! Saturating 64-bit fixed-point arithmetic.
//!
//! A [`Scalar`] carries a real quantity as a signed 64-bit count of
//! `1 / SCALE` units (`SCALE` is `2^32`, so there are 32 fractional bits).
//! Every operation computes the mathematically exact result in wide
//! integers, truncates the fractional part toward zero, and clamps the
//! outcome to the representable range.  Saturation stands in for the
//! infinities that floating-point arithmetic would produce: an overflow or
//! a division by zero yields the nearest representable extreme and the
//! simulation keeps running, which is the documented policy for numerical
//! degeneracy (for example two bodies at the same position).
use vstd::prelude::*;

verus! {

/// Number of raw units in 1.0: `2^32`.
pub const SCALE: i64 = 4294967296;

/// Clamp an unbounded integer to the `i64` range.
pub open spec fn sat_i64(x: int) -> int {
    if x > i64::MAX {
        i64::MAX as int
    } else if x < i64::MIN {
        i64::MIN as int
    } else {
        x
    }
}

/// Division truncating toward zero (the `/` of machine integers), written
/// in terms of the Euclidean `/` of specifications.
pub open spec fn trunc_div(a: int, b: int) -> int {
    if a == 0 {
        0
    } else if a > 0 && b > 0 {
        a / b
    } else if a < 0 && b < 0 {
        (a * -1) / (b * -1)
    } else if a < 0 {
        ((a * -1) / b) * -1
    } else {
        (a / (b * -1)) * -1
    }
}

/// Raw-level sum of two fixed-point values.
pub open spec fn fx_add(a: int, b: int) -> int {
    sat_i64(a + b)
}

/// Raw-level difference of two fixed-point values.
pub open spec fn fx_sub(a: int, b: int) -> int {
    sat_i64(a - b)
}

/// Raw-level negation of a fixed-point value.
pub open spec fn fx_neg(a: int) -> int {
    sat_i64(-a)
}

/// Raw-level product of two fixed-point values: the exact product carries
/// `2 * 32` fractional bits, so it is scaled back down by `SCALE`.
pub open spec fn fx_mul(a: int, b: int) -> int {
    sat_i64(trunc_div(a * b, SCALE as int))
}

/// Raw-level quotient of two fixed-point values.  Division by zero
/// saturates by the sign of the dividend (zero for a zero dividend),
/// standing in for the infinities of real arithmetic.
pub open spec fn fx_div(a: int, b: int) -> int {
    if b == 0 {
        if a > 0 {
            i64::MAX as int
        } else if a < 0 {
            i64::MIN as int
        } else {
            0
        }
    } else {
        sat_i64(trunc_div(a * SCALE, b))
    }
}

/// The integer square root: the largest `r` with `r * r <= n`.
pub open spec fn floor_sqrt(n: nat) -> nat
    decreases n,
{
    if n == 0 {
        0
    } else {
        let r = floor_sqrt((n - 1) as nat);
        if (r + 1) * (r + 1) <= n {
            r + 1
        } else {
            r
        }
    }
}

/// Raw-level square root of a nonnegative fixed-point value: the exact
/// root of `a / SCALE` is `sqrt(a * SCALE) / SCALE`, so the raw result is
/// the integer root of `a * SCALE`.
pub open spec fn fx_sqrt(a: int) -> int {
    floor_sqrt((a * SCALE) as nat) as int
}

/// Raw-level integer power; `fx_pow_nat(a, 0)` is one (`SCALE`).
pub open spec fn fx_pow_nat(a: int, n: nat) -> int
    decreases n,
{
    if n == 0 {
        SCALE as int
    } else {
        fx_mul(fx_pow_nat(a, (n - 1) as nat), a)
    }
}

/// Raw-level power with an arbitrary integer exponent; a negative exponent
/// is the reciprocal of the positive power.
pub open spec fn fx_pow(a: int, e: int) -> int {
    if e >= 0 {
        fx_pow_nat(a, e as nat)
    } else {
        fx_div(SCALE as int, fx_pow_nat(a, (-e) as nat))
    }
}

/// `floor_sqrt` deserves its name.
pub proof fn lemma_floor_sqrt_props(n: nat)
    ensures
        floor_sqrt(n) * floor_sqrt(n) <= n,
        n < (floor_sqrt(n) + 1) * (floor_sqrt(n) + 1),
    decreases n,
{
    if n > 0 {
        lemma_floor_sqrt_props((n - 1) as nat);
        let r = floor_sqrt((n - 1) as nat);
        assert(floor_sqrt(n) == if (r + 1) * (r + 1) <= n {
            r + 1
        } else {
            r
        });
        if (r + 1) * (r + 1) <= n {
            assert((r + 1) * (r + 1) < ((r + 1) + 1) * ((r + 1) + 1)) by (nonlinear_arith);
        }
    } else {
        assert(floor_sqrt(0) == 0);
        assert(n < (floor_sqrt(n) + 1) * (floor_sqrt(n) + 1)) by (nonlinear_arith)
            requires
                n == 0,
                floor_sqrt(n) == 0,
        ;
    }
}

/// Any `r` with `r * r <= n < (r + 1) * (r + 1)` is the integer root.
pub proof fn lemma_floor_sqrt_unique(n: nat, r: nat)
    requires
        r * r <= n,
        n < (r + 1) * (r + 1),
    ensures
        r == floor_sqrt(n),
{
    let f = floor_sqrt(n);
    lemma_floor_sqrt_props(n);
    if r < f {
        assert((r + 1) * (r + 1) <= f * f) by (nonlinear_arith)
            requires
                r + 1 <= f,
        ;
    } else if f < r {
        assert((f + 1) * (f + 1) <= r * r) by (nonlinear_arith)
            requires
                f + 1 <= r,
        ;
    }
}

/// The integer root is monotone.
pub proof fn lemma_floor_sqrt_monotone(a: nat, b: nat)
    requires
        a <= b,
    ensures
        floor_sqrt(a) <= floor_sqrt(b),
{
    let fa = floor_sqrt(a);
    let fb = floor_sqrt(b);
    lemma_floor_sqrt_props(a);
    lemma_floor_sqrt_props(b);
    if fb < fa {
        assert((fb + 1) * (fb + 1) <= fa * fa) by (nonlinear_arith)
            requires
                fb + 1 <= fa,
        ;
    }
}

/// The product of two `u64` values fits in a `u128`.
proof fn lemma_u64_product_fits(a: int, b: int)
    requires
        0 <= a <= u64::MAX,
        0 <= b <= u64::MAX,
    ensures
        0 <= a * b <= u128::MAX,
{
    assert(0 <= a * b <= u128::MAX) by (nonlinear_arith)
        requires
            0 <= a <= u64::MAX,
            0 <= b <= u64::MAX,
    ;
}

/// The largest `r: u64` with `r * r <= n`, by binary search.
pub fn isqrt_u128(n: u128) -> (r: u64)
    ensures
        r * r <= n,
        n < (r + 1) * (r + 1),
        r == floor_sqrt(n as nat),
{
    proof {
        lemma_u64_product_fits(u64::MAX as int, u64::MAX as int);
    }
    let top: u128 = (u64::MAX as u128) * (u64::MAX as u128);
    if n >= top {
        proof {
            assert((u64::MAX + 1) * (u64::MAX + 1) == u128::MAX + 1) by (nonlinear_arith);
            lemma_floor_sqrt_unique(n as nat, u64::MAX as nat);
        }
        return u64::MAX;
    }
    let mut lo: u64 = 0;
    let mut hi: u64 = u64::MAX - 1;
    while lo < hi
        invariant
            lo <= hi,
            hi < u64::MAX,
            lo * lo <= n,
            n < (hi + 1) * (hi + 1),
        decreases hi - lo,
    {
        let mid: u64 = lo + (hi - lo + 1) / 2;
        proof {
            assert(lo < mid <= hi);
            lemma_u64_product_fits(mid as int, mid as int);
        }
        let sq: u128 = (mid as u128) * (mid as u128);
        if sq <= n {
            lo = mid;
        } else {
            hi = mid - 1;
        }
    }
    proof {
        lemma_floor_sqrt_unique(n as nat, lo as nat);
    }
    lo
}

/// Raw-level Euclidean norm of a two-component vector: the value norm of
/// `(dx / SCALE, dy / SCALE)` is `sqrt(dx^2 + dy^2) / SCALE`, so the raw
/// result is the integer root of the raw sum of squares, clamped.
pub open spec fn fx_norm(dx: int, dy: int) -> int {
    sat_i64(floor_sqrt((dx * dx + dy * dy) as nat) as int)
}

/// A fixed-point number: `raw / SCALE` in real terms.
///
/// The raw range is the `i64`'s and therefore asymmetric: the smallest
/// raw value has no negation of its own magnitude, so negating it
/// saturates to the largest.  Every other value negates exactly
/// ([`lemma_fx_neg_exact`]), and no arithmetic here ever produces that
/// extreme except by saturation.
#[derive(Clone, Copy, PartialEq, Eq, Structural, Debug)]
pub struct Scalar {
    pub raw: i64,
}

impl View for Scalar {
    type V = int;

    open spec fn view(&self) -> int {
        self.raw as int
    }
}

/// The product of two `i64` values stays well inside the `i128` range.
proof fn lemma_i64_product_fits(a: int, b: int)
    requires
        i64::MIN <= a <= i64::MAX,
        i64::MIN <= b <= i64::MAX,
    ensures
        i128::MIN < a * b < i128::MAX,
{
    assert(i128::MIN < a * b < i128::MAX) by (nonlinear_arith)
        requires
            i64::MIN <= a <= i64::MAX,
            i64::MIN <= b <= i64::MAX,
    ;
}

/// Euclidean division of a nonnegative value by a positive one never grows.
pub proof fn lemma_euclid_div_bounds(a: int, b: int)
    requires
        a >= 0,
        b >= 1,
    ensures
        0 <= a / b <= a,
{
    assert(0 <= a / b <= a) by (nonlinear_arith)
        requires
            a >= 0,
            b >= 1,
    ;
}

/// Truncating division never grows in magnitude.
proof fn lemma_trunc_div_bounds(a: int, b: int)
    requires
        b != 0,
    ensures
        a >= 0 ==> -a <= trunc_div(a, b) <= a,
        a < 0 ==> a <= trunc_div(a, b) <= -a,
{
    if a > 0 && b > 0 {
        lemma_euclid_div_bounds(a, b);
    } else if a < 0 && b < 0 {
        lemma_euclid_div_bounds(a * -1, b * -1);
    } else if a < 0 {
        lemma_euclid_div_bounds(a * -1, b);
    } else if a > 0 {
        lemma_euclid_div_bounds(a, b * -1);
    }
}

/// Truncating division of an exact multiple recovers the factor.
pub proof fn lemma_trunc_div_multiple(x: int, b: int)
    requires
        b >= 1,
    ensures
        trunc_div(b * x, b) == x,
{
    if x > 0 {
        vstd::arithmetic::div_mod::lemma_div_multiples_vanish(x, b);
    } else if x < 0 {
        vstd::arithmetic::div_mod::lemma_div_multiples_vanish(-x, b);
        assert(b * x * -1 == b * (-x)) by (nonlinear_arith);
    }
}

/// Negation is exact on every value but the one asymmetric extreme of
/// the two's-complement range: for any other value it round-trips and
/// cancels exactly.
pub proof fn lemma_fx_neg_exact(a: int)
    requires
        i64::MIN < a <= i64::MAX,
    ensures
        fx_neg(a) == -a,
        fx_neg(fx_neg(a)) == a,
        fx_add(a, fx_neg(a)) == 0,
{
}

/// Subtraction is addition of the negation, as long as the subtrahend is
/// not the one raw value whose negation saturates.
pub proof fn lemma_fx_sub_is_add_neg(a: int, b: int)
    requires
        i64::MIN <= a <= i64::MAX,
        i64::MIN < b <= i64::MAX,
    ensures
        fx_sub(a, b) == fx_add(a, fx_neg(b)),
{
}

/// A product with a nonnegative left factor keeps the right factor's
/// sign through truncation and saturation.
pub proof fn lemma_fx_mul_sign(a: int, b: int)
    requires
        a >= 0,
    ensures
        b >= 0 ==> fx_mul(a, b) >= 0,
        b <= 0 ==> fx_mul(a, b) <= 0,
{
    let s = SCALE as int;
    if b >= 0 {
        assert(a * b >= 0) by (nonlinear_arith)
            requires
                a >= 0,
                b >= 0,
        ;
        if a * b > 0 {
            lemma_euclid_div_bounds(a * b, s);
        }
    }
    if b <= 0 {
        assert(a * b <= 0) by (nonlinear_arith)
            requires
                a >= 0,
                b <= 0,
        ;
        if a * b < 0 {
            assert((a * b) * -1 > 0) by (nonlinear_arith)
                requires
                    a * b < 0,
            ;
            lemma_euclid_div_bounds((a * b) * -1, s);
        }
    }
}

/// A quotient with a nonnegative divisor keeps the dividend's sign,
/// through truncation, saturation and the division-by-zero policy alike.
pub proof fn lemma_fx_div_sign(a: int, b: int)
    requires
        b >= 0,
    ensures
        a >= 0 ==> fx_div(a, b) >= 0,
        a <= 0 ==> fx_div(a, b) <= 0,
{
    if b > 0 {
        if a > 0 {
            lemma_euclid_div_bounds(a * SCALE, b);
        }
        if a < 0 {
            assert((a * SCALE) * -1 > 0) by (nonlinear_arith)
                requires
                    a < 0,
                    SCALE > 0,
            ;
            lemma_euclid_div_bounds((a * SCALE) * -1, b);
        }
    }
}

/// A power of a nonnegative base is nonnegative, whatever the exponent.
pub proof fn lemma_fx_pow_nonneg(a: int, e: int)
    requires
        a >= 0,
    ensures
        fx_pow(a, e) >= 0,
{
    if e >= 0 {
        lemma_fx_pow_nat_nonneg(a, e as nat);
    } else {
        lemma_fx_pow_nat_nonneg(a, (-e) as nat);
        lemma_fx_div_sign(SCALE as int, fx_pow_nat(a, (-e) as nat));
    }
}

/// The natural-power helper of [`lemma_fx_pow_nonneg`].
proof fn lemma_fx_pow_nat_nonneg(a: int, n: nat)
    requires
        a >= 0,
    ensures
        fx_pow_nat(a, n) >= 0,
    decreases n,
{
    if n > 0 {
        lemma_fx_pow_nat_nonneg(a, (n - 1) as nat);
        lemma_fx_mul_sign(fx_pow_nat(a, (n - 1) as nat), a);
    }
}

/// Truncating division misses the dividend by less than the divisor, on
/// the dividend's own side of zero.
pub proof fn lemma_trunc_div_error(a: int, b: int)
    requires
        b >= 1,
    ensures
        a >= 0 ==> 0 <= a - b * trunc_div(a, b) < b,
        a < 0 ==> -b < a - b * trunc_div(a, b) <= 0,
{
    if a > 0 {
        vstd::arithmetic::div_mod::lemma_fundamental_div_mod(a, b);
    } else if a < 0 {
        let x = a * -1;
        vstd::arithmetic::div_mod::lemma_fundamental_div_mod(x, b);
        assert(x == b * (x / b) + x % b);
        assert(trunc_div(a, b) == (x / b) * -1);
        assert(b * ((x / b) * -1) == (b * (x / b)) * -1) by (nonlinear_arith);
    }
}

/// When the exact product stays well inside the wide range, the
/// fixed-point product does not saturate and lands within one grid unit
/// of the exact value, on its own side.
pub proof fn lemma_fx_mul_error(a: int, b: int)
    requires
        -19807040628566084398385987584 <= a * b <= 19807040628566084398385987584,
    ensures
        fx_mul(a, b) == trunc_div(a * b, SCALE as int),
        -(SCALE as int) < (SCALE as int) * fx_mul(a, b) - a * b,
        (SCALE as int) * fx_mul(a, b) - a * b < SCALE as int,
        -4611686018427387905 <= fx_mul(a, b) <= 4611686018427387905,
{
    let s = SCALE as int;
    let q = trunc_div(a * b, s);
    lemma_trunc_div_error(a * b, s);
    assert(-4611686018427387905 <= q <= 4611686018427387905) by (nonlinear_arith)
        requires
            -19807040628566084398385987584 <= a * b <= 19807040628566084398385987584,
            s == 4294967296,
            a * b >= 0 ==> 0 <= a * b - s * q < s,
            a * b < 0 ==> -s < a * b - s * q <= 0,
    ;
}

/// The square of an `i64` value is nonnegative and fits in both wide types.
pub proof fn lemma_square_fits(a: int)
    requires
        i64::MIN <= a <= i64::MAX,
    ensures
        0 <= a * a,
        a * a < i128::MAX,
        a * a < u128::MAX,
{
    assert(0 <= a * a && a * a < i128::MAX && a * a < u128::MAX) by (nonlinear_arith)
        requires
            i64::MIN <= a <= i64::MAX,
    ;
}

/// Clamp a wide intermediate result back into the `i64` range.
pub fn clamp_i128(q: i128) -> (r: i64)
    ensures
        r as int == sat_i64(q as int),
{
    if q > i64::MAX as i128 {
        i64::MAX
    } else if q < i64::MIN as i128 {
        i64::MIN
    } else {
        q as i64
    }
}

impl Scalar {
    /// The additive identity.
    pub fn zero() -> (r: Scalar)
        ensures
            r@ == 0,
    {
        Scalar { raw: 0 }
    }

    /// The multiplicative identity.
    pub fn one() -> (r: Scalar)
        ensures
            r@ == SCALE as int,
    {
        Scalar { raw: SCALE }
    }

    /// The fixed-point value of a small integer.
    pub fn from_int(n: i32) -> (r: Scalar)
        ensures
            r@ == n * (SCALE as int),
    {
        proof {
            assert(i64::MIN <= n * (SCALE as int) <= i64::MAX) by (nonlinear_arith)
                requires
                    i32::MIN <= n <= i32::MAX,
            ;
        }
        Scalar { raw: (n as i64) * SCALE }
    }

    /// The fixed-point value closest to `n / d` from below in magnitude.
    pub fn from_ratio(n: i32, d: i32) -> (r: Scalar)
        ensures
            r@ == fx_div(n * (SCALE as int), d * (SCALE as int)),
    {
        Scalar::from_int(n).div(Scalar::from_int(d))
    }

    /// Saturating sum.
    pub fn add(self, other: Scalar) -> (r: Scalar)
        ensures
            r@ == fx_add(self@, other@),
    {
        let q: i128 = self.raw as i128 + other.raw as i128;
        Scalar { raw: clamp_i128(q) }
    }

    /// Saturating difference.
    pub fn sub(self, other: Scalar) -> (r: Scalar)
        ensures
            r@ == fx_sub(self@, other@),
    {
        let q: i128 = self.raw as i128 - other.raw as i128;
        Scalar { raw: clamp_i128(q) }
    }

    /// Saturating negation.
    pub fn neg(self) -> (r: Scalar)
        ensures
            r@ == fx_neg(self@),
    {
        let q: i128 = -(self.raw as i128);
        Scalar { raw: clamp_i128(q) }
    }

    /// Saturating product.
    pub fn mul(self, other: Scalar) -> (r: Scalar)
        ensures
            r@ == fx_mul(self@, other@),
    {
        proof {
            lemma_i64_product_fits(self@, other@);
        }
        let p: i128 = (self.raw as i128) * (other.raw as i128);
        proof {
            lemma_trunc_div_bounds(p as int, SCALE as int);
        }
        let q: i128 = p.checked_div(SCALE as i128).unwrap();
        Scalar { raw: clamp_i128(q) }
    }

    /// Square root of a nonnegative value, truncated to the grid.
    pub fn sqrt(self) -> (r: Scalar)
        requires
            self@ >= 0,
        ensures
            r@ == fx_sqrt(self@),
    {
        proof {
            lemma_i64_product_fits(self@, SCALE as int);
        }
        let n: u128 = (self.raw as u128) * (SCALE as u128);
        let root: u64 = isqrt_u128(n);
        proof {
            assert(root < 281474976710656) by (nonlinear_arith)
                requires
                    root * root <= n,
                    n < 79228162514264337593543950336,
                    root >= 0,
            ;
        }
        Scalar { raw: root as i64 }
    }

    /// The norm of the two-component vector `(self, other)`.
    pub fn hypot(self, other: Scalar) -> (r: Scalar)
        ensures
            r@ == fx_norm(self@, other@),
    {
        proof {
            lemma_i64_product_fits(self@, self@);
            lemma_i64_product_fits(other@, other@);
            assert(self@ * self@ >= 0) by (nonlinear_arith);
            assert(other@ * other@ >= 0) by (nonlinear_arith);
            assert(self@ * self@ <= 85070591730234615865843651857942052864
                && other@ * other@ <= 85070591730234615865843651857942052864) by (nonlinear_arith)
                requires
                    i64::MIN <= self@ <= i64::MAX,
                    i64::MIN <= other@ <= i64::MAX,
            ;
        }
        let dx2: u128 = ((self.raw as i128) * (self.raw as i128)) as u128;
        let dy2: u128 = ((other.raw as i128) * (other.raw as i128)) as u128;
        let root: u64 = isqrt_u128(dx2 + dy2);
        Scalar { raw: clamp_i128(root as i128) }
    }

    /// Integer power; a negative exponent is the reciprocal of the
    /// positive power.  The machine cannot negate the smallest exponent,
    /// which is far beyond any physical use.
    pub fn pow(self, e: i64) -> (r: Scalar)
        requires
            e > i64::MIN,
        ensures
            r@ == fx_pow(self@, e as int),
    {
        let n: i64 = if e < 0 {
            -e
        } else {
            e
        };
        let mut acc = Scalar::one();
        let mut i: i64 = 0;
        while i < n
            invariant
                0 <= i <= n,
                acc@ == fx_pow_nat(self@, i as nat),
            decreases n - i,
        {
            acc = acc.mul(self);
            i = i + 1;
        }
        if e < 0 {
            Scalar::one().div(acc)
        } else {
            acc
        }
    }

    /// Saturating quotient; division by zero saturates by the sign of the
    /// dividend.
    pub fn div(self, other: Scalar) -> (r: Scalar)
        ensures
            r@ == fx_div(self@, other@),
    {
        if other.raw == 0 {
            if self.raw > 0 {
                Scalar { raw: i64::MAX }
            } else if self.raw < 0 {
                Scalar { raw: i64::MIN }
            } else {
                Scalar { raw: 0 }
            }
        } else {
            proof {
                lemma_i64_product_fits(self@, SCALE as int);
            }
            let p: i128 = (self.raw as i128) * (SCALE as i128);
            let q: i128 = p.checked_div(other.raw as i128).unwrap();
            Scalar { raw: clamp_i128(q) }
        }
    }
}

} // verus!

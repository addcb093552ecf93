//! The generic integration layer.
//!
//! An integrator advances any state that offers the small capability
//! contract below: the state exposes its integrated coordinates as a flat
//! sequence of fixed-point components, a derivative rule over those
//! coordinates, and a single mutation — shift every coordinate by the
//! matching derivative component times a scalar.  A derivative is a flat
//! vector supporting saturating vector-space algebra and a magnitude.
//! The integrator knows nothing about bodies or gravity.
use vstd::prelude::*;

use crate::scalar::{fx_add, fx_div, fx_mul, fx_neg, fx_sub, floor_sqrt, sat_i64, Scalar, SCALE};

verus! {

/// Component-wise saturating sum of two equally long component vectors.
pub open spec fn seq_fx_add(a: Seq<int>, b: Seq<int>) -> Seq<int> {
    Seq::new(a.len(), |k: int| fx_add(a[k], b[k]))
}

/// Component-wise saturating difference.
pub open spec fn seq_fx_sub(a: Seq<int>, b: Seq<int>) -> Seq<int> {
    Seq::new(a.len(), |k: int| fx_sub(a[k], b[k]))
}

/// Component-wise saturating negation.
pub open spec fn seq_fx_neg(a: Seq<int>) -> Seq<int> {
    Seq::new(a.len(), |k: int| fx_neg(a[k]))
}

/// Every component scaled by a fixed-point factor.
pub open spec fn seq_fx_scale(a: Seq<int>, m: int) -> Seq<int> {
    Seq::new(a.len(), |k: int| fx_mul(a[k], m))
}

/// Every component divided by a fixed-point factor.
pub open spec fn seq_fx_div(a: Seq<int>, m: int) -> Seq<int> {
    Seq::new(a.len(), |k: int| fx_div(a[k], m))
}

/// The exact sum of the squares of all components.
pub open spec fn sum_sq(s: Seq<int>) -> int
    decreases s.len(),
{
    if s.len() == 0 {
        0
    } else {
        sum_sq(s.drop_last()) + s.last() * s.last()
    }
}

/// The Euclidean magnitude of a component vector, truncated to the grid
/// and clamped to the representable range.
pub open spec fn seq_fx_abs(s: Seq<int>) -> int {
    sat_i64(floor_sqrt(sum_sq(s) as nat) as int)
}

/// A sum of squares of nothing but zeroes is zero.
proof fn lemma_sum_sq_zero(s: Seq<int>)
    requires
        forall|k: int| 0 <= k < s.len() ==> #[trigger] s[k] == 0,
    ensures
        sum_sq(s) == 0,
    decreases s.len(),
{
    if s.len() > 0 {
        lemma_sum_sq_zero(s.drop_last());
    }
}

/// Negation of a derivative vector is an involution, and a vector minus
/// itself has magnitude zero — for every vector whose components avoid
/// the one asymmetric extreme of the raw range, where saturation must
/// bend the arithmetic.
pub proof fn lemma_derivative_neg_involution(d: Seq<int>)
    requires
        forall|k: int| 0 <= k < d.len() ==> i64::MIN < #[trigger] d[k] <= i64::MAX,
    ensures
        seq_fx_neg(seq_fx_neg(d)) == d,
        seq_fx_abs(seq_fx_add(d, seq_fx_neg(d))) == 0,
{
    assert(seq_fx_neg(seq_fx_neg(d)) =~= d);
    lemma_sum_sq_zero(seq_fx_add(d, seq_fx_neg(d)));
    assert(floor_sqrt(0) == 0);
}

/// Subtracting a derivative vector is adding its negation, component for
/// component, under the same exclusion of the asymmetric extreme.
pub proof fn lemma_derivative_sub_is_add_neg(a: Seq<int>, b: Seq<int>)
    requires
        a.len() == b.len(),
        forall|k: int| 0 <= k < a.len() ==> i64::MIN <= #[trigger] a[k] <= i64::MAX,
        forall|k: int| 0 <= k < b.len() ==> i64::MIN < #[trigger] b[k] <= i64::MAX,
    ensures
        seq_fx_sub(a, b) == seq_fx_add(a, seq_fx_neg(b)),
{
    assert(seq_fx_sub(a, b) =~= seq_fx_add(a, seq_fx_neg(b)));
}

/// Coordinates shifted by a derivative times a scalar: the sole mutation
/// an integrator may apply to a state.
pub open spec fn seq_shift(c: Seq<int>, d: Seq<int>, amount: int) -> Seq<int> {
    Seq::new(c.len(), |k: int| fx_add(c[k], fx_mul(d[k], amount)))
}

/// A flat derivative vector with saturating vector-space algebra.
pub trait Derivative: Sized {
    /// The mathematical content: one unbounded integer per raw component.
    spec fn comps(&self) -> Seq<int>;

    /// Component-wise saturating sum.
    fn add(self, other: Self) -> (r: Self)
        requires
            self.comps().len() == other.comps().len(),
        ensures
            r.comps() == seq_fx_add(self.comps(), other.comps()),
    ;

    /// Component-wise saturating difference.
    fn sub(self, other: Self) -> (r: Self)
        requires
            self.comps().len() == other.comps().len(),
        ensures
            r.comps() == seq_fx_sub(self.comps(), other.comps()),
    ;

    /// Every component scaled by a fixed-point factor.
    fn mul(self, k: Scalar) -> (r: Self)
        ensures
            r.comps() == seq_fx_scale(self.comps(), k@),
    ;

    /// Every component divided by a fixed-point factor.
    fn div(self, k: Scalar) -> (r: Self)
        ensures
            r.comps() == seq_fx_div(self.comps(), k@),
    ;

    /// Component-wise saturating negation.
    fn neg(self) -> (r: Self)
        ensures
            r.comps() == seq_fx_neg(self.comps()),
    ;

    /// The Euclidean magnitude of the whole vector.
    fn abs(&self) -> (r: Scalar)
        ensures
            r@ == seq_fx_abs(self.comps()),
    ;
}

/// A state an integrator can advance.  The integrator sees only the flat
/// coordinate sequence, the derivative rule, and the shift mutation.
pub trait Integrable: Sized {
    /// The derivative vectors this state produces.
    type Deriv: Derivative;

    /// The mathematical content an integrator must leave alone:
    /// everything about the state except the integrated coordinates.
    type Frozen;

    /// The integrated coordinates, as flat fixed-point components.
    spec fn coords(&self) -> Seq<int>;

    /// The non-integrated content: together with the coordinates it
    /// makes up the whole state.
    spec fn frozen(&self) -> Self::Frozen;

    /// The derivative rule: what the derivative of any coordinate vector
    /// would be, all non-integrated data (masses, constants) held fixed.
    spec fn field(&self) -> spec_fn(Seq<int>) -> Seq<int>;

    /// The current derivative, by the state's own rule.
    fn derivative(&self) -> (d: Self::Deriv)
        ensures
            d.comps() == (self.field())(self.coords()),
            d.comps().len() == self.coords().len(),
    ;

    /// Shift every coordinate by the matching derivative component times
    /// `amount`.  The derivative rule itself is untouched.
    fn shift_in_place(&mut self, dir: &Self::Deriv, amount: Scalar)
        requires
            dir.comps().len() == old(self).coords().len(),
        ensures
            final(self).coords() == seq_shift(old(self).coords(), dir.comps(), amount@),
            final(self).field() == old(self).field(),
            final(self).frozen() == old(self).frozen(),
    ;

    /// An independent copy with the same coordinates and the same rule.
    fn duplicate(&self) -> (r: Self)
        ensures
            r.coords() == self.coords(),
            r.field() == self.field(),
            r.frozen() == self.frozen(),
    ;
}

/// How many equal sub-steps a requested step of `h` is divided into
/// under a maximum sub-step size `h_max`: the ceiling of `h / h_max`, and
/// always at least one.
pub open spec fn substep_count(h: int, h_max: int) -> int {
    if h <= 0 || h_max <= 0 {
        1
    } else {
        let q = (h + h_max - 1) / h_max;
        if q < 1 {
            1
        } else {
            q
        }
    }
}

/// The size of each sub-step: the requested step divided evenly, rounded
/// down to the grid.
pub open spec fn substep_size(h: int, h_max: int) -> int {
    if h <= 0 || h_max <= 0 {
        h
    } else {
        h / substep_count(h, h_max)
    }
}

/// One classic fourth-order Runge-Kutta sub-step of size `h` on the
/// coordinates `c` under the derivative rule `f`:
/// the four staged derivatives are combined as
/// `(k1 + 2 k2 + 2 k3 + k4) * (h / 6)` and applied as a single shift.
pub open spec fn rk4_substep(f: spec_fn(Seq<int>) -> Seq<int>, c: Seq<int>, h: int) -> Seq<int> {
    let two = 2 * SCALE as int;
    let six = 6 * SCALE as int;
    let h2 = fx_div(h, two);
    let k1 = f(c);
    let k2 = f(seq_shift(c, k1, h2));
    let k3 = f(seq_shift(c, k2, h2));
    let k4 = f(seq_shift(c, k3, h));
    let combo = seq_fx_add(
        seq_fx_add(seq_fx_add(k1, seq_fx_scale(k2, two)), seq_fx_scale(k3, two)),
        k4,
    );
    seq_shift(c, combo, fx_div(h, six))
}

/// `m` consecutive sub-steps of size `h_sub`.
pub open spec fn rk4_steps(
    f: spec_fn(Seq<int>) -> Seq<int>,
    c: Seq<int>,
    h_sub: int,
    m: nat,
) -> Seq<int>
    decreases m,
{
    if m == 0 {
        c
    } else {
        rk4_steps(f, rk4_substep(f, c, h_sub), h_sub, (m - 1) as nat)
    }
}

/// A whole requested step: the sub-step division applied to `rk4_steps`.
pub open spec fn rk4_advance(
    f: spec_fn(Seq<int>) -> Seq<int>,
    c: Seq<int>,
    h: int,
    h_max: int,
) -> Seq<int> {
    rk4_steps(f, c, substep_size(h, h_max), substep_count(h, h_max) as nat)
}

/// A sub-step never changes how many coordinates there are.
pub proof fn lemma_rk4_steps_len(f: spec_fn(Seq<int>) -> Seq<int>, c: Seq<int>, h_sub: int, m: nat)
    ensures
        rk4_steps(f, c, h_sub, m).len() == c.len(),
    decreases m,
{
    if m > 0 {
        lemma_rk4_steps_len(f, rk4_substep(f, c, h_sub), h_sub, (m - 1) as nat);
    }
}

/// A whole advance never changes how many coordinates there are.
pub proof fn lemma_rk4_advance_len(f: spec_fn(Seq<int>) -> Seq<int>, c: Seq<int>, h: int, h_max: int)
    ensures
        rk4_advance(f, c, h, h_max).len() == c.len(),
{
    lemma_rk4_steps_len(f, c, substep_size(h, h_max), substep_count(h, h_max) as nat);
}

/// `m` direct shifts by a fixed derivative, each of size `h`.
pub open spec fn shift_iter(c: Seq<int>, d: Seq<int>, h: int, m: nat) -> Seq<int>
    decreases m,
{
    if m == 0 {
        c
    } else {
        shift_iter(seq_shift(c, d, h), d, h, (m - 1) as nat)
    }
}

/// On a constant derivative rule, one Runge-Kutta sub-step lands exactly
/// where the single direct shift `initial + derivative * h` does.  The
/// step must sit on the sixths of the grid (`h` divisible by six, so
/// `h / 6` is exact) and the derivative must be small enough that its
/// six-fold combination does not saturate; on the fixed-point grid the
/// result is then bit-identical, whatever the sub-stepping granularity
/// did to `h`.
pub proof fn lemma_rk4_constant_exact(
    f: spec_fn(Seq<int>) -> Seq<int>,
    d: Seq<int>,
    c: Seq<int>,
    h: int,
)
    requires
        forall|x: Seq<int>| #[trigger] f(x) == d,
        d.len() == c.len(),
        h % 6 == 0,
        i64::MIN <= h <= i64::MAX,
        forall|k: int| 0 <= k < d.len() ==> i64::MIN <= 6 * #[trigger] d[k] <= i64::MAX,
    ensures
        rk4_substep(f, c, h) == seq_shift(c, d, h),
{
    lemma_rk4_pointwise_constant_exact(f, d, c, h);
}

/// The core of the constant-rule exactness, asking only that the rule
/// return `d` at the three distinct points one sub-step stages: the
/// start, the half-step, and the full step.
pub proof fn lemma_rk4_pointwise_constant_exact(
    f: spec_fn(Seq<int>) -> Seq<int>,
    d: Seq<int>,
    c: Seq<int>,
    h: int,
)
    requires
        f(c) == d,
        f(seq_shift(c, d, fx_div(h, 2 * SCALE as int))) == d,
        f(seq_shift(c, d, h)) == d,
        d.len() == c.len(),
        h % 6 == 0,
        i64::MIN <= h <= i64::MAX,
        forall|k: int| 0 <= k < d.len() ==> i64::MIN <= 6 * #[trigger] d[k] <= i64::MAX,
    ensures
        rk4_substep(f, c, h) == seq_shift(c, d, h),
{
    let s = SCALE as int;
    let two = 2 * s;
    let six = 6 * s;
    vstd::arithmetic::div_mod::lemma_fundamental_div_mod(h, 6);
    let t = h / 6;
    assert(h == 6 * t);
    let k1 = f(c);
    let k2 = f(seq_shift(c, k1, fx_div(h, two)));
    let k3 = f(seq_shift(c, k2, fx_div(h, two)));
    let k4 = f(seq_shift(c, k3, h));
    let combo = seq_fx_add(
        seq_fx_add(seq_fx_add(k1, seq_fx_scale(k2, two)), seq_fx_scale(k3, two)),
        k4,
    );
    assert forall|k: int| 0 <= k < d.len() implies combo[k] == 6 * d[k] by {
        crate::scalar::lemma_trunc_div_multiple(2 * d[k], s);
        assert(d[k] * two == s * (2 * d[k])) by (nonlinear_arith)
            requires
                two == 2 * s,
        ;
        assert(fx_mul(d[k], two) == sat_i64(2 * d[k]));
        assert(sat_i64(2 * d[k]) == 2 * d[k]);
    }
    let h6 = fx_div(h, six);
    crate::scalar::lemma_trunc_div_multiple(t, six);
    assert(h * s == six * t) by (nonlinear_arith)
        requires
            h == 6 * t,
            s == SCALE as int,
            six == 6 * s,
    ;
    assert(h6 == sat_i64(t));
    assert(h6 == t);
    assert forall|k: int| 0 <= k < c.len() implies rk4_substep(f, c, h)[k] == seq_shift(
        c,
        d,
        h,
    )[k] by {
        assert(combo[k] == 6 * d[k]);
        assert(combo[k] * t == d[k] * h) by (nonlinear_arith)
            requires
                combo[k] == 6 * d[k],
                h == 6 * t,
        ;
        assert(fx_mul(combo[k], h6) == fx_mul(d[k], h));
        assert(rk4_substep(f, c, h)[k] == fx_add(c[k], fx_mul(combo[k], h6)));
        assert(seq_shift(c, d, h)[k] == fx_add(c[k], fx_mul(d[k], h)));
    }
    assert(rk4_substep(f, c, h) =~= seq_shift(c, d, h));
}

/// On a constant derivative rule, any number of consecutive sub-steps is
/// exactly the same number of direct shifts: the integrator degrades to
/// exact Euler stepping, as it must when nothing varies.
pub proof fn lemma_rk4_steps_constant(
    f: spec_fn(Seq<int>) -> Seq<int>,
    d: Seq<int>,
    c: Seq<int>,
    h: int,
    m: nat,
)
    requires
        forall|x: Seq<int>| #[trigger] f(x) == d,
        d.len() == c.len(),
        h % 6 == 0,
        i64::MIN <= h <= i64::MAX,
        forall|k: int| 0 <= k < d.len() ==> i64::MIN <= 6 * #[trigger] d[k] <= i64::MAX,
    ensures
        rk4_steps(f, c, h, m) == shift_iter(c, d, h, m),
    decreases m,
{
    if m > 0 {
        lemma_rk4_constant_exact(f, d, c, h);
        lemma_rk4_steps_constant(f, d, seq_shift(c, d, h), h, (m - 1) as nat);
    }
}

/// The exact per-component increment of one shift of size `h`:
/// `d[k] * h / SCALE`, truncated as the algebra truncates.
pub open spec fn shift_inc(d: Seq<int>, h: int) -> Seq<int> {
    Seq::new(d.len(), |k: int| crate::scalar::trunc_div(d[k] * h, SCALE as int))
}

/// When the grid divides every per-sub-step increment exactly and
/// neither an intermediate coordinate nor the total increment saturates,
/// the count of shifts drops out: `m` shifts of size `h` land exactly
/// where one shift of size `m * h` does.
pub proof fn lemma_shift_iter_collapses(c: Seq<int>, d: Seq<int>, h: int, m: nat)
    requires
        d.len() == c.len(),
        forall|k: int| 0 <= k < c.len() ==> i64::MIN <= #[trigger] c[k] <= i64::MAX,
        forall|k: int|
            0 <= k < d.len() ==> #[trigger] shift_inc(d, h)[k] * (SCALE as int) == d[k] * h,
        forall|k: int| 0 <= k < d.len() ==> i64::MIN <= #[trigger] shift_inc(d, h)[k] <= i64::MAX,
        forall|k: int|
            0 <= k < d.len() ==> i64::MIN <= m * #[trigger] shift_inc(d, h)[k] <= i64::MAX,
        forall|k: int|
            0 <= k < c.len() ==> i64::MIN <= #[trigger] c[k] + m * shift_inc(d, h)[k] <= i64::MAX,
    ensures
        shift_iter(c, d, h, m) == seq_shift(c, d, m * h),
    decreases m,
{
    let s = SCALE as int;
    let inc = shift_inc(d, h);
    if m == 0 {
        assert forall|k: int| 0 <= k < c.len() implies seq_shift(c, d, 0)[k] == c[k] by {
            assert(d[k] * 0 == 0) by (nonlinear_arith);
        }
        assert(seq_shift(c, d, m * h) =~= c);
    } else {
        let c2 = seq_shift(c, d, h);
        assert forall|k: int| 0 <= k < c.len() implies c2[k] == c[k] + inc[k] && i64::MIN <= c[k]
            + inc[k] <= i64::MAX by {
            crate::scalar::lemma_trunc_div_multiple(inc[k], s);
            assert(fx_mul(d[k], h) == inc[k]);
            assert(i64::MIN <= c[k] + inc[k] <= i64::MAX) by (nonlinear_arith)
                requires
                    m >= 1,
                    i64::MIN <= c[k] <= i64::MAX,
                    i64::MIN <= inc[k] <= i64::MAX,
                    i64::MIN <= c[k] + m * inc[k] <= i64::MAX,
            ;
        }
        assert forall|k: int|
            0 <= k < d.len() implies (i64::MIN <= (m - 1) * #[trigger] inc[k] <= i64::MAX
            && c2[k] + (m - 1) * inc[k] == c[k] + m * inc[k]) by {
            assert(i64::MIN <= (m - 1) * inc[k] <= i64::MAX && (m as int) * inc[k] - inc[k] == (m
                - 1) * inc[k]) by (nonlinear_arith)
                requires
                    m >= 1,
                    i64::MIN <= inc[k] <= i64::MAX,
                    i64::MIN <= m * inc[k] <= i64::MAX,
            ;
        }
        assert(shift_inc(d, h) == inc);
        lemma_shift_iter_collapses(c2, d, h, (m - 1) as nat);
        assert forall|k: int| 0 <= k < c.len() implies #[trigger] seq_shift(c2, d, (m - 1) * h)[k]
            == seq_shift(c, d, m * h)[k] by {
            assert(d[k] * ((m - 1) * h) == s * ((m - 1) * inc[k]) && d[k] * (m * h) == s * (m
                * inc[k])) by (nonlinear_arith)
                requires
                    inc[k] * s == d[k] * h,
            ;
            crate::scalar::lemma_trunc_div_multiple((m - 1) * inc[k], s);
            crate::scalar::lemma_trunc_div_multiple(m * inc[k], s);
            assert(fx_mul(d[k], (m - 1) * h) == (m - 1) * inc[k]);
            assert(fx_mul(d[k], m * h) == m * inc[k]);
        }
        assert(seq_shift(c2, d, (m - 1) * h) =~= seq_shift(c, d, m * h));
    }
}

/// On a constant derivative rule the sub-stepping granularity drops out
/// entirely: `m` Runge-Kutta sub-steps of size `h` are bit-identical to
/// the one direct shift by the whole `m * h`, whenever the grid divides
/// every quantity involved and nothing saturates.
pub proof fn lemma_rk4_substep_count_free(
    f: spec_fn(Seq<int>) -> Seq<int>,
    d: Seq<int>,
    c: Seq<int>,
    h: int,
    m: nat,
)
    requires
        forall|x: Seq<int>| #[trigger] f(x) == d,
        d.len() == c.len(),
        h % 6 == 0,
        i64::MIN <= h <= i64::MAX,
        forall|k: int| 0 <= k < d.len() ==> i64::MIN <= 6 * #[trigger] d[k] <= i64::MAX,
        forall|k: int| 0 <= k < c.len() ==> i64::MIN <= #[trigger] c[k] <= i64::MAX,
        forall|k: int|
            0 <= k < d.len() ==> #[trigger] shift_inc(d, h)[k] * (SCALE as int) == d[k] * h,
        forall|k: int| 0 <= k < d.len() ==> i64::MIN <= #[trigger] shift_inc(d, h)[k] <= i64::MAX,
        forall|k: int|
            0 <= k < d.len() ==> i64::MIN <= m * #[trigger] shift_inc(d, h)[k] <= i64::MAX,
        forall|k: int|
            0 <= k < c.len() ==> i64::MIN <= #[trigger] c[k] + m * shift_inc(d, h)[k] <= i64::MAX,
    ensures
        rk4_steps(f, c, h, m) == seq_shift(c, d, m * h),
{
    lemma_rk4_steps_constant(f, d, c, h, m);
    lemma_shift_iter_collapses(c, d, h, m);
}

/// The classic fourth-order Runge-Kutta integrator, with an internal
/// maximum sub-step size.  It advances any [`Integrable`] state and knows
/// nothing about what the coordinates mean.
#[derive(Clone, Copy, PartialEq, Eq, Structural, Debug)]
pub struct RK4Integrator {
    pub h_max: Scalar,
}

impl RK4Integrator {
    /// An integrator that splits every requested step into sub-steps of
    /// at most `h_max`.
    pub fn new(h_max: Scalar) -> (r: RK4Integrator)
        ensures
            r.h_max == h_max,
    {
        RK4Integrator { h_max }
    }

    /// One RK4 sub-step of size `h` applied to `state` in place.
    fn substep<S: Integrable>(state: &mut S, h: Scalar)
        ensures
            final(state).coords() == rk4_substep(old(state).field(), old(state).coords(), h@),
            final(state).field() == old(state).field(),
            final(state).frozen() == old(state).frozen(),
    {
        let h2 = h.div(Scalar::from_int(2));
        let k1 = state.derivative();
        let mut s2 = state.duplicate();
        s2.shift_in_place(&k1, h2);
        let k2 = s2.derivative();
        let mut s3 = state.duplicate();
        s3.shift_in_place(&k2, h2);
        let k3 = s3.derivative();
        let mut s4 = state.duplicate();
        s4.shift_in_place(&k3, h);
        let k4 = s4.derivative();
        let two = Scalar::from_int(2);
        let combo = k1.add(k2.mul(two)).add(k3.mul(two)).add(k4);
        let h6 = h.div(Scalar::from_int(6));
        state.shift_in_place(&combo, h6);
    }

    /// Advance `state` by the requested step, dividing it into equal
    /// sub-steps no larger than the integrator's maximum.
    pub fn propagate_in_place<S: Integrable>(&self, state: &mut S, step: Scalar)
        ensures
            final(state).coords() == rk4_advance(
                old(state).field(),
                old(state).coords(),
                step@,
                self.h_max@,
            ),
            final(state).field() == old(state).field(),
            final(state).frozen() == old(state).frozen(),
    {
        let (m, h_sub): (u64, Scalar) = if step.raw <= 0 || self.h_max.raw <= 0 {
            (1u64, step)
        } else {
            let num: i128 = step.raw as i128 + self.h_max.raw as i128 - 1;
            proof {
                crate::scalar::lemma_euclid_div_bounds(num as int, self.h_max.raw as int);
            }
            let q: i128 = num.checked_div(self.h_max.raw as i128).unwrap();
            let q: i128 = if q < 1 {
                1
            } else {
                q
            };
            proof {
                crate::scalar::lemma_euclid_div_bounds(step.raw as int, q as int);
            }
            let hs: u64 = (step.raw as u64) / (q as u64);
            (q as u64, Scalar { raw: hs as i64 })
        };
        proof {
            assert(m as int == substep_count(step@, self.h_max@));
            assert(h_sub@ == substep_size(step@, self.h_max@));
        }
        let ghost f = state.field();
        let ghost c0 = state.coords();
        let mut t: u64 = 0;
        while t < m
            invariant
                t <= m,
                state.field() == f,
                state.frozen() == old(state).frozen(),
                rk4_steps(f, c0, h_sub@, m as nat) == rk4_steps(
                    f,
                    state.coords(),
                    h_sub@,
                    (m - t) as nat,
                ),
            decreases m - t,
        {
            Self::substep(state, h_sub);
            t += 1;
        }
        proof {
            assert(rk4_steps(f, state.coords(), h_sub@, 0) == state.coords());
        }
    }
}

} // verus!

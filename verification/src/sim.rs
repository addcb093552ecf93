//! The physical state model: bodies under a power-law interaction.
use vstd::prelude::*;

use crate::body::{Body, BodyView, Vec2};
use crate::integrator::{
    seq_fx_add, seq_fx_div, seq_fx_neg, seq_fx_scale, seq_fx_sub, seq_shift, sum_sq, Derivative,
    Integrable,
};
use crate::scalar::{
    clamp_i128, fx_add, fx_div, fx_mul, fx_neg, fx_norm, fx_pow, fx_sub, sat_i64, Scalar, SCALE,
};
use vstd::arithmetic::div_mod::{lemma_fundamental_div_mod, lemma_fundamental_div_mod_converse};

verus! {

/// The unbounded-integer content of a raw component buffer.
pub open spec fn raw_comps(s: Seq<i64>) -> Seq<int> {
    s.map(|k: int, x: i64| x as int)
}

/// The derivative of a [`crate::sim::SimState`]: a flat buffer holding,
/// for each body in order, a two-component velocity contribution followed
/// by a two-component acceleration contribution.
#[derive(Debug)]
pub struct SimDerivative {
    pub buf: Vec<i64>,
}

/// A sum of squares is never negative.
proof fn lemma_sum_sq_nonneg(s: Seq<int>)
    ensures
        sum_sq(s) >= 0,
    decreases s.len(),
{
    if s.len() > 0 {
        lemma_sum_sq_nonneg(s.drop_last());
        assert(s.last() * s.last() >= 0) by (nonlinear_arith);
    }
}

impl Derivative for SimDerivative {
    open spec fn comps(&self) -> Seq<int> {
        raw_comps(self.buf@)
    }

    fn add(self, other: Self) -> (r: Self) {
        let n = self.buf.len();
        let mut out: Vec<i64> = Vec::new();
        let mut k: usize = 0;
        while k < n
            invariant
                n == self.buf@.len(),
                other.buf@.len() == n,
                out@.len() == k,
                k <= n,
                forall|t: int|
                    0 <= t < k ==> out@[t] as int == fx_add(
                        self.buf@[t] as int,
                        other.buf@[t] as int,
                    ),
            decreases n - k,
        {
            let v = Scalar { raw: self.buf[k] }.add(Scalar { raw: other.buf[k] });
            out.push(v.raw);
            k += 1;
        }
        let r = SimDerivative { buf: out };
        proof {
            assert(r.comps() =~= seq_fx_add(self.comps(), other.comps()));
        }
        r
    }

    fn sub(self, other: Self) -> (r: Self) {
        let n = self.buf.len();
        let mut out: Vec<i64> = Vec::new();
        let mut k: usize = 0;
        while k < n
            invariant
                n == self.buf@.len(),
                other.buf@.len() == n,
                out@.len() == k,
                k <= n,
                forall|t: int|
                    0 <= t < k ==> out@[t] as int == fx_sub(
                        self.buf@[t] as int,
                        other.buf@[t] as int,
                    ),
            decreases n - k,
        {
            let v = Scalar { raw: self.buf[k] }.sub(Scalar { raw: other.buf[k] });
            out.push(v.raw);
            k += 1;
        }
        let r = SimDerivative { buf: out };
        proof {
            assert(r.comps() =~= seq_fx_sub(self.comps(), other.comps()));
        }
        r
    }

    fn mul(self, factor: Scalar) -> (r: Self) {
        let n = self.buf.len();
        let mut out: Vec<i64> = Vec::new();
        let mut k: usize = 0;
        while k < n
            invariant
                n == self.buf@.len(),
                out@.len() == k,
                k <= n,
                forall|t: int|
                    0 <= t < k ==> out@[t] as int == fx_mul(self.buf@[t] as int, factor@),
            decreases n - k,
        {
            let v = Scalar { raw: self.buf[k] }.mul(factor);
            out.push(v.raw);
            k += 1;
        }
        let r = SimDerivative { buf: out };
        proof {
            assert(r.comps() =~= seq_fx_scale(self.comps(), factor@));
        }
        r
    }

    fn div(self, factor: Scalar) -> (r: Self) {
        let n = self.buf.len();
        let mut out: Vec<i64> = Vec::new();
        let mut k: usize = 0;
        while k < n
            invariant
                n == self.buf@.len(),
                out@.len() == k,
                k <= n,
                forall|t: int|
                    0 <= t < k ==> out@[t] as int == fx_div(self.buf@[t] as int, factor@),
            decreases n - k,
        {
            let v = Scalar { raw: self.buf[k] }.div(factor);
            out.push(v.raw);
            k += 1;
        }
        let r = SimDerivative { buf: out };
        proof {
            assert(r.comps() =~= seq_fx_div(self.comps(), factor@));
        }
        r
    }

    fn neg(self) -> (r: Self) {
        let n = self.buf.len();
        let mut out: Vec<i64> = Vec::new();
        let mut k: usize = 0;
        while k < n
            invariant
                n == self.buf@.len(),
                out@.len() == k,
                k <= n,
                forall|t: int| 0 <= t < k ==> out@[t] as int == fx_neg(self.buf@[t] as int),
            decreases n - k,
        {
            let v = Scalar { raw: self.buf[k] }.neg();
            out.push(v.raw);
            k += 1;
        }
        let r = SimDerivative { buf: out };
        proof {
            assert(r.comps() =~= seq_fx_neg(self.comps()));
        }
        r
    }

    fn abs(&self) -> (r: Scalar) {
        let n = self.buf.len();
        let mut acc: u128 = 0;
        let mut k: usize = 0;
        proof {
            assert(self.comps().take(0) =~= Seq::<int>::empty());
        }
        while k < n
            invariant
                n == self.buf@.len(),
                k <= n,
                acc as int == if sum_sq(self.comps().take(k as int)) > u128::MAX as int {
                    u128::MAX as int
                } else {
                    sum_sq(self.comps().take(k as int))
                },
            decreases n - k,
        {
            let c = self.buf[k];
            proof {
                crate::scalar::lemma_square_fits(c as int);
                lemma_sum_sq_nonneg(self.comps().take(k as int));
                assert(self.comps().take(k as int + 1).drop_last() =~= self.comps().take(k as int));
                assert(self.comps().take(k as int + 1).last() == c as int);
            }
            let sq: u128 = ((c as i128) * (c as i128)) as u128;
            if acc > u128::MAX - sq {
                acc = u128::MAX;
            } else {
                acc = acc + sq;
            }
            k += 1;
        }
        proof {
            assert(self.comps().take(n as int) =~= self.comps());
            lemma_sum_sq_nonneg(self.comps());
        }
        let root: u64 = crate::scalar::isqrt_u128(acc);
        proof {
            if sum_sq(self.comps()) > u128::MAX as int {
                crate::scalar::lemma_floor_sqrt_monotone(
                    u128::MAX as nat,
                    sum_sq(self.comps()) as nat,
                );
                assert((u64::MAX as int) * (u64::MAX as int) <= u128::MAX as int
                    && (u128::MAX as int) < (u64::MAX as int + 1) * (u64::MAX as int + 1))
                    by (nonlinear_arith);
                crate::scalar::lemma_floor_sqrt_unique(u128::MAX as nat, u64::MAX as nat);
            }
        }
        Scalar { raw: crate::scalar::clamp_i128(root as i128) }
    }
}

/// The flat index `4 * i + r` decomposes back into body `i` and slot `r`.
proof fn lemma_slot_index(i: int, r: int)
    requires
        0 <= r < 4,
    ensures
        (4 * i + r) / 4 == i,
        (4 * i + r) % 4 == r,
{
    lemma_fundamental_div_mod_converse(4 * i + r, 4, i, r);
}

/// What the coordinate sequence holds at each of body `i`'s four slots.
pub proof fn lemma_coords_index(bodies: Seq<BodyView>, i: int)
    requires
        0 <= i < bodies.len(),
    ensures
        sim_coords(bodies)[4 * i] == bodies[i].pos.0,
        sim_coords(bodies)[4 * i + 1] == bodies[i].pos.1,
        sim_coords(bodies)[4 * i + 2] == bodies[i].vel.0,
        sim_coords(bodies)[4 * i + 3] == bodies[i].vel.1,
{
    lemma_slot_index(i, 0);
    lemma_slot_index(i, 1);
    lemma_slot_index(i, 2);
    lemma_slot_index(i, 3);
}

/// The mathematical content of a [`SimState`].
#[verifier::ext_equal]
pub struct SimView {
    pub grav: int,
    pub exponent: int,
    pub time_scale: int,
    pub dist_factor: int,
    pub bodies: Seq<BodyView>,
    pub off: Seq<(int, int)>,
}

/// The data the derivative rule closes over: everything of a state except
/// the integrated coordinates.
#[verifier::ext_equal]
pub struct SimParams {
    pub grav: int,
    pub exponent: int,
    pub time_scale: int,
    pub dist_factor: int,
    pub masses: Seq<int>,
    pub off: Seq<(int, int)>,
}

/// The non-integrated part of a state.
pub open spec fn params_of(v: SimView) -> SimParams {
    SimParams {
        grav: v.grav,
        exponent: v.exponent,
        time_scale: v.time_scale,
        dist_factor: v.dist_factor,
        masses: v.bodies.map(|i: int, b: BodyView| b.mass),
        off: v.off,
    }
}

/// Whether the unordered pair `{i, j}` is suppressed: stored order does
/// not matter.
pub open spec fn pair_off(off: Seq<(int, int)>, i: int, j: int) -> bool {
    exists|k: int| 0 <= k < off.len() && (off[k] == (i, j) || off[k] == (j, i))
}

/// Suppression is a fact about the unordered pair: it does not matter in
/// which order a pair was stored, nor in which order it is asked for.
pub proof fn lemma_pair_off_symmetric(off: Seq<(int, int)>, i: int, j: int)
    ensures
        pair_off(off, i, j) == pair_off(off, j, i),
{
    if pair_off(off, i, j) {
        let k = choose|k: int| 0 <= k < off.len() && (off[k] == (i, j) || off[k] == (j, i));
        assert(off[k] == (j, i) || off[k] == (i, j));
        assert(pair_off(off, j, i));
    }
    if pair_off(off, j, i) {
        let k = choose|k: int| 0 <= k < off.len() && (off[k] == (j, i) || off[k] == (i, j));
        assert(off[k] == (i, j) || off[k] == (j, i));
        assert(pair_off(off, i, j));
    }
}

/// The integrated coordinates of a body sequence, flattened four to a
/// body: position x, position y, velocity x, velocity y.
pub open spec fn sim_coords(bodies: Seq<BodyView>) -> Seq<int> {
    Seq::new(
        4 * bodies.len(),
        |k: int|
            {
                let i = k / 4;
                if k % 4 == 0 {
                    bodies[i].pos.0
                } else if k % 4 == 1 {
                    bodies[i].pos.1
                } else if k % 4 == 2 {
                    bodies[i].vel.0
                } else {
                    bodies[i].vel.1
                }
            },
    )
}

/// The acceleration body `j` induces on body `i`: the magnitude
/// `grav * mass_j * (dist * dist_factor)^exponent` directed from `i`
/// toward `j`, every step in saturating fixed point exactly as the
/// executable code computes it.
pub open spec fn accel_term(p: SimParams, c: Seq<int>, i: int, j: int) -> (int, int) {
    let ddx = fx_sub(c[4 * i], c[4 * j]);
    let ddy = fx_sub(c[4 * i + 1], c[4 * j + 1]);
    let dist = fx_norm(ddx, ddy);
    let dx = fx_sub(c[4 * j], c[4 * i]);
    let dy = fx_sub(c[4 * j + 1], c[4 * i + 1]);
    let part = fx_mul(fx_mul(p.grav, p.masses[j]), fx_pow(fx_mul(dist, p.dist_factor), p.exponent));
    (fx_div(fx_mul(part, dx), dist), fx_div(fx_mul(part, dy), dist))
}

/// The exact (unsaturated) sum of the acceleration terms on body `i` from
/// bodies `0 .. upto`, skipping `i` itself and every suppressed pair.
pub open spec fn accel_sum(p: SimParams, c: Seq<int>, i: int, upto: int) -> (int, int)
    decreases upto,
{
    if upto <= 0 {
        (0int, 0int)
    } else {
        let prev = accel_sum(p, c, i, upto - 1);
        let j = upto - 1;
        if j == i || pair_off(p.off, i, j) {
            prev
        } else {
            let t = accel_term(p, c, i, j);
            (prev.0 + t.0, prev.1 + t.1)
        }
    }
}

/// The derivative of coordinate vector `c` under parameters `p`: per
/// body, the velocity scaled by the time scale, then the accumulated
/// acceleration scaled by the time scale and corrected back into the
/// position unit.
pub open spec fn sim_deriv(p: SimParams, c: Seq<int>) -> Seq<int> {
    Seq::new(
        c.len(),
        |k: int|
            {
                let i = k / 4;
                if k % 4 == 0 {
                    fx_mul(c[4 * i + 2], p.time_scale)
                } else if k % 4 == 1 {
                    fx_mul(c[4 * i + 3], p.time_scale)
                } else {
                    let s = accel_sum(p, c, i, p.masses.len() as int);
                    let a = if k % 4 == 2 {
                        s.0
                    } else {
                        s.1
                    };
                    fx_div(fx_mul(sat_i64(a), p.time_scale), p.dist_factor)
                }
            },
    )
}

/// The derivative rule with its parameters fixed.
pub open spec fn sim_field(p: SimParams) -> spec_fn(Seq<int>) -> Seq<int> {
    |c: Seq<int>| sim_deriv(p, c)
}

/// The view of a stored body sequence.
pub open spec fn bodies_view(s: Seq<Body>) -> Seq<BodyView> {
    s.map(|i: int, b: Body| b@)
}

/// The view of a stored pair list.
pub open spec fn off_view(s: Seq<(usize, usize)>) -> Seq<(int, int)> {
    s.map(|i: int, p: (usize, usize)| (p.0 as int, p.1 as int))
}

/// Appending a body appends its view.
proof fn lemma_bodies_view_push(s: Seq<Body>, b: Body)
    ensures
        bodies_view(s.push(b)) =~= bodies_view(s).push(b@),
{
}

/// Appending a pair appends its view.
proof fn lemma_off_view_push(s: Seq<(usize, usize)>, p: (usize, usize))
    ensures
        off_view(s.push(p)) =~= off_view(s).push((p.0 as int, p.1 as int)),
{
}

/// The first index whose body carries `name`, scanning from `k`.
pub open spec fn first_index_from(bodies: Seq<BodyView>, name: Seq<char>, k: int) -> Option<int>
    decreases bodies.len() - k,
{
    if k < 0 || k >= bodies.len() {
        None::<int>
    } else if bodies[k].name == Some(name) {
        Some(k)
    } else {
        first_index_from(bodies, name, k + 1)
    }
}

/// The first index whose body carries `name`.
pub open spec fn first_index_named(bodies: Seq<BodyView>, name: Seq<char>) -> Option<int> {
    first_index_from(bodies, name, 0)
}

/// The total momentum of bodies `0 .. upto`: the never-saturated sum of
/// the fixed-point products `velocity * mass`.
pub open spec fn momentum_sum(bodies: Seq<BodyView>, upto: int) -> (int, int)
    decreases upto,
{
    if upto <= 0 {
        (0int, 0int)
    } else {
        let p = momentum_sum(bodies, upto - 1);
        let b = bodies[upto - 1];
        (p.0 + fx_mul(b.vel.0, b.mass), p.1 + fx_mul(b.vel.1, b.mass))
    }
}

/// The never-saturated total mass of bodies `0 .. upto`.
pub open spec fn mass_sum(bodies: Seq<BodyView>, upto: int) -> int
    decreases upto,
{
    if upto <= 0 {
        0int
    } else {
        mass_sum(bodies, upto - 1) + bodies[upto - 1].mass
    }
}

/// The total momentum with no rounding at all: the exact sum of
/// `velocity * mass`, carrying twice the usual fractional bits.
pub open spec fn exact_mom(bodies: Seq<BodyView>, upto: int) -> (int, int)
    decreases upto,
{
    if upto <= 0 {
        (0int, 0int)
    } else {
        let p = exact_mom(bodies, upto - 1);
        let b = bodies[upto - 1];
        (p.0 + b.vel.0 * b.mass, p.1 + b.vel.1 * b.mass)
    }
}

/// The total momentum after every velocity has been lowered by `(qx, qy)`.
pub open spec fn adj_mom(bodies: Seq<BodyView>, qx: int, qy: int, upto: int) -> (int, int)
    decreases upto,
{
    if upto <= 0 {
        (0int, 0int)
    } else {
        let p = adj_mom(bodies, qx, qy, upto - 1);
        let b = bodies[upto - 1];
        (
            p.0 + fx_mul(fx_sub(b.vel.0, qx), b.mass),
            p.1 + fx_mul(fx_sub(b.vel.1, qy), b.mass),
        )
    }
}

/// The mass-weighted mean velocity of the whole system: total momentum
/// over total mass.
pub open spec fn momentum_correction(bodies: Seq<BodyView>) -> (int, int) {
    let n = bodies.len() as int;
    let m = sat_i64(mass_sum(bodies, n));
    (
        fx_div(sat_i64(momentum_sum(bodies, n).0), m),
        fx_div(sat_i64(momentum_sum(bodies, n).1), m),
    )
}

/// Every body with the mean velocity subtracted; positions, masses and
/// names are untouched.
pub open spec fn adjusted_bodies(bodies: Seq<BodyView>) -> Seq<BodyView> {
    let q = momentum_correction(bodies);
    Seq::new(
        bodies.len(),
        |i: int|
            BodyView {
                vel: (fx_sub(bodies[i].vel.0, q.0), fx_sub(bodies[i].vel.1, q.1)),
                ..bodies[i]
            },
    )
}

/// The aggregate state of the simulation: the bodies, the constants of
/// the interaction law, and the suppressed pairs.
///
/// Units are the caller's choice: positions fix a length unit L and
/// velocities are L per time unit T.  By default the gravitational
/// constant is taken as calibrated in the same units, with
/// `dist_factor` one; when the constant was calibrated in a different
/// length unit (the classic case: positions in kilometres, a constant in
/// metres), `set_unit_correction` installs the multiplicative factor
/// between the two, which is applied to distances before the power law
/// and divided back out of the resulting acceleration.
///
/// The force exponent is an integer: integer powers are exact on the
/// fixed-point grid, where a fractional exponent would need a
/// transcendental this library does not carry.  The canonical
/// inverse-square law is exponent `-2`.
#[derive(Debug)]
pub struct SimState {
    pub exponent: i32,
    pub grav_const: Scalar,
    pub time_scale: Scalar,
    pub dist_factor: Scalar,
    pub bodies: Vec<Body>,
    pub turn_off: Vec<(usize, usize)>,
}

impl View for SimState {
    type V = SimView;

    open spec fn view(&self) -> SimView {
        SimView {
            grav: self.grav_const@,
            exponent: self.exponent as int,
            time_scale: self.time_scale@,
            dist_factor: self.dist_factor@,
            bodies: bodies_view(self.bodies@),
            off: off_view(self.turn_off@),
        }
    }
}

impl SimState {
    /// An empty state under the given constant, force exponent and time
    /// scale, with no unit correction.
    pub fn new(grav_const: Scalar, exponent: i32, time_scale: Scalar) -> (r: SimState)
        ensures
            r@ == (SimView {
                grav: grav_const@,
                exponent: exponent as int,
                time_scale: time_scale@,
                dist_factor: SCALE as int,
                bodies: Seq::<BodyView>::empty(),
                off: Seq::<(int, int)>::empty(),
            }),
    {
        let r = SimState {
            exponent,
            grav_const,
            time_scale,
            dist_factor: Scalar::one(),
            bodies: Vec::new(),
            turn_off: Vec::new(),
        };
        proof {
            assert(r@.bodies =~= Seq::<BodyView>::empty());
            assert(r@.off =~= Seq::<(int, int)>::empty());
        }
        r
    }

    /// Install the unit-correction factor between the position unit and
    /// the unit the constant and exponent were calibrated in.
    pub fn set_unit_correction(&mut self, factor: Scalar)
        ensures
            final(self)@ == (SimView { dist_factor: factor@, ..old(self)@ }),
    {
        self.dist_factor = factor;
    }

    /// Append a body; its index is its identity for the whole run.
    pub fn add_body(&mut self, body: Body)
        ensures
            final(self)@ == (SimView { bodies: old(self)@.bodies.push(body@), ..old(self)@ }),
    {
        proof {
            lemma_bodies_view_push(self.bodies@, body);
        }
        self.bodies.push(body);
    }

    /// The index of the first body with the given name, if any.
    pub fn body_by_name(&self, name: &str) -> (r: Option<usize>)
        ensures
            match r {
                Some(u) => first_index_named(self@.bodies, name@) == Some(u as int),
                None => first_index_named(self@.bodies, name@) is None,
            },
    {
        let wanted: String = name.to_owned();
        let n = self.bodies.len();
        let mut k: usize = 0;
        while k < n
            invariant
                k <= n,
                n == self.bodies@.len(),
                wanted@ == name@,
                first_index_named(self@.bodies, name@) == first_index_from(
                    self@.bodies,
                    name@,
                    k as int,
                ),
            decreases n - k,
        {
            let found = match &self.bodies[k].name {
                Some(s) => s.eq(&wanted),
                None => false,
            };
            if found {
                return Some(k);
            }
            k += 1;
        }
        None
    }

    /// Suppress the unordered pair `{i, j}`: later derivatives skip the
    /// mutual interaction of those two bodies in both directions.  The
    /// suppressed pairs form a set: suppressing a pair that is already
    /// suppressed, in either order, changes nothing.
    pub fn suppress(&mut self, i: usize, j: usize)
        ensures
            pair_off(old(self)@.off, i as int, j as int) ==> final(self)@ == old(self)@,
            !pair_off(old(self)@.off, i as int, j as int) ==> final(self)@ == (SimView {
                off: old(self)@.off.push((i as int, j as int)),
                ..old(self)@
            }),
    {
        if !self.is_off(i, j) {
            proof {
                lemma_off_view_push(self.turn_off@, (i, j));
            }
            self.turn_off.push((i, j));
        }
    }

    /// Suppress the pair named by two body names; with an unknown name,
    /// or a pair already suppressed, nothing changes.
    pub fn turn_off(&mut self, name1: &str, name2: &str)
        ensures
            ({
                let i1 = first_index_named(old(self)@.bodies, name1@);
                let i2 = first_index_named(old(self)@.bodies, name2@);
                match (i1, i2) {
                    (Some(a), Some(b)) => if pair_off(old(self)@.off, a, b) {
                        final(self)@ == old(self)@
                    } else {
                        final(self)@ == (SimView { off: old(self)@.off.push((a, b)), ..old(self)@ })
                    },
                    _ => final(self)@ == old(self)@,
                }
            }),
    {
        let i1 = self.body_by_name(name1);
        let i2 = self.body_by_name(name2);
        match (i1, i2) {
            (Some(a), Some(b)) => {
                self.suppress(a, b);
            },
            _ => {},
        }
    }

    /// Whether the unordered pair `{i, j}` is suppressed.
    pub fn is_off(&self, i: usize, j: usize) -> (r: bool)
        ensures
            r == pair_off(self@.off, i as int, j as int),
    {
        let n = self.turn_off.len();
        let mut k: usize = 0;
        while k < n
            invariant
                k <= n,
                n == self.turn_off@.len(),
                forall|t: int|
                    0 <= t < k ==> !(#[trigger] off_view(self.turn_off@)[t] == (i as int, j as int)
                        || off_view(self.turn_off@)[t] == (j as int, i as int)),
            decreases n - k,
        {
            let p = self.turn_off[k];
            if (p.0 == i && p.1 == j) || (p.0 == j && p.1 == i) {
                proof {
                    assert(off_view(self.turn_off@)[k as int] == (p.0 as int, p.1 as int));
                    assert(pair_off(self@.off, i as int, j as int));
                }
                return true;
            }
            k += 1;
        }
        false
    }

    /// The stored bodies, in index order.
    pub fn bodies(&self) -> (r: &Vec<Body>)
        ensures
            r@.len() == self@.bodies.len(),
            forall|i: int| 0 <= i < r@.len() ==> #[trigger] r@[i]@ == self@.bodies[i],
    {
        &self.bodies
    }

    /// The body at a given index.
    pub fn get_body(&self, idx: usize) -> (r: &Body)
        requires
            idx < self@.bodies.len(),
        ensures
            r@ == self@.bodies[idx as int],
    {
        &self.bodies[idx]
    }

    /// Subtract the mean velocity of the system, weighted by mass, from
    /// every body, so that the total momentum becomes (nearly) zero and
    /// the system as a whole stops drifting.  Invoked once at setup.
    pub fn adjust_for_center_of_mass(&mut self)
        ensures
            final(self)@ == (SimView {
                bodies: adjusted_bodies(old(self)@.bodies),
                ..old(self)@
            }),
    {
        let n = self.bodies.len();
        let mut mx: i128 = 0;
        let mut my: i128 = 0;
        let mut ms: i128 = 0;
        let mut k: usize = 0;
        while k < n
            invariant
                n == self.bodies@.len(),
                k <= n,
                mx as int == momentum_sum(self@.bodies, k as int).0,
                my as int == momentum_sum(self@.bodies, k as int).1,
                ms as int == mass_sum(self@.bodies, k as int),
                -((k as int) * 9223372036854775808) <= mx <= (k as int) * 9223372036854775808,
                -((k as int) * 9223372036854775808) <= my <= (k as int) * 9223372036854775808,
                -((k as int) * 9223372036854775808) <= ms <= (k as int) * 9223372036854775808,
            decreases n - k,
        {
            let b = &self.bodies[k];
            let px = b.vel.x.mul(b.mass);
            let py = b.vel.y.mul(b.mass);
            mx = mx + px.raw as i128;
            my = my + py.raw as i128;
            ms = ms + b.mass.raw as i128;
            k += 1;
        }
        let total_mass = Scalar { raw: clamp_i128(ms) };
        let qx = Scalar { raw: clamp_i128(mx) }.div(total_mass);
        let qy = Scalar { raw: clamp_i128(my) }.div(total_mass);
        proof {
            assert(qx@ == momentum_correction(old(self)@.bodies).0);
            assert(qy@ == momentum_correction(old(self)@.bodies).1);
        }
        let mut i: usize = 0;
        while i < n
            invariant
                n == self.bodies@.len(),
                n == old(self).bodies@.len(),
                i <= n,
                qx@ == momentum_correction(old(self)@.bodies).0,
                qy@ == momentum_correction(old(self)@.bodies).1,
                self.exponent == old(self).exponent,
                self.grav_const == old(self).grav_const,
                self.time_scale == old(self).time_scale,
                self.dist_factor == old(self).dist_factor,
                self.turn_off@ == old(self).turn_off@,
                forall|t: int| i <= t < n ==> self.bodies@[t] == old(self).bodies@[t],
                forall|t: int|
                    0 <= t < i ==> #[trigger] self.bodies@[t]@ == adjusted_bodies(
                        old(self)@.bodies,
                    )[t],
            decreases n - i,
        {
            proof {
                assert(old(self)@.bodies[i as int] == old(self).bodies@[i as int]@);
            }
            let new_vel = self.bodies[i].vel.sub(Vec2 { x: qx, y: qy });
            let b = &mut self.bodies[i];
            b.vel = new_vel;
            i += 1;
        }
        proof {
            assert(self@.bodies =~= adjusted_bodies(old(self)@.bodies));
            assert(self@ =~= (SimView { bodies: adjusted_bodies(old(self)@.bodies), ..old(self)@ }));
        }
    }

    /// An independent deep copy: the snapshot a consumer receives.
    pub fn snapshot(&self) -> (r: SimState)
        ensures
            r@ == self@,
    {
        let n = self.bodies.len();
        let mut bodies: Vec<Body> = Vec::new();
        let mut k: usize = 0;
        while k < n
            invariant
                k <= n,
                n == self.bodies@.len(),
                bodies@.len() == k,
                forall|t: int| 0 <= t < k ==> #[trigger] bodies@[t]@ == self.bodies@[t]@,
            decreases n - k,
        {
            bodies.push(self.bodies[k].duplicate());
            k += 1;
        }
        let m = self.turn_off.len();
        let mut off: Vec<(usize, usize)> = Vec::new();
        let mut t: usize = 0;
        while t < m
            invariant
                t <= m,
                m == self.turn_off@.len(),
                off@.len() == t,
                forall|u: int| 0 <= u < t ==> off@[u] == self.turn_off@[u],
            decreases m - t,
        {
            off.push(self.turn_off[t]);
            t += 1;
        }
        let r = SimState {
            exponent: self.exponent,
            grav_const: self.grav_const,
            time_scale: self.time_scale,
            dist_factor: self.dist_factor,
            bodies,
            turn_off: off,
        };
        proof {
            assert(off_view(r.turn_off@) =~= off_view(self.turn_off@));
            assert(bodies_view(r.bodies@) =~= bodies_view(self.bodies@));
            assert(r@ =~= self@);
        }
        r
    }
}

/// Physically sensible bodies: positive masses, per-body speeds of at
/// most `2^29` units and per-body momenta (mass times speed) of at most
/// `512` units -- bounds far beyond any orbital configuration, needed
/// only so that no running sum saturates the grid.
pub open spec fn moderate_bodies(bodies: Seq<BodyView>) -> bool {
    forall|i: int|
        0 <= i < bodies.len() ==> {
            let b = #[trigger] bodies[i];
            &&& 0 < b.mass <= i64::MAX
            &&& -2305843009213693952 <= b.vel.0 <= 2305843009213693952
            &&& -2305843009213693952 <= b.vel.1 <= 2305843009213693952
            &&& -9444732965739290427392 <= b.mass * b.vel.0 <= 9444732965739290427392
            &&& -9444732965739290427392 <= b.mass * b.vel.1 <= 9444732965739290427392
        }
}

/// No mass is negative, so the running total never is.
proof fn lemma_mass_sum_nonneg(bodies: Seq<BodyView>, upto: int)
    requires
        forall|i: int| 0 <= i < bodies.len() ==> 0 < (#[trigger] bodies[i]).mass,
        upto <= bodies.len(),
    ensures
        mass_sum(bodies, upto) >= 0,
    decreases upto,
{
    if upto > 0 {
        lemma_mass_sum_nonneg(bodies, upto - 1);
    }
}

/// Every single mass is at most the total.
proof fn lemma_mass_le_total(bodies: Seq<BodyView>, i: int, upto: int)
    requires
        forall|t: int| 0 <= t < bodies.len() ==> 0 < (#[trigger] bodies[t]).mass,
        0 <= i < upto <= bodies.len(),
    ensures
        bodies[i].mass <= mass_sum(bodies, upto),
    decreases upto,
{
    if i == upto - 1 {
        lemma_mass_sum_nonneg(bodies, upto - 1);
    } else {
        lemma_mass_le_total(bodies, i, upto - 1);
    }
}

/// Bounds and rounding errors of the running sums behind the momentum
/// correction, by induction over the prefix length: each fixed-point
/// term sits within one grid unit of the exact product, so each sum
/// drifts from its exact value by at most one unit per body.
proof fn lemma_momentum_rounding(bodies: Seq<BodyView>, qx: int, qy: int, upto: int)
    requires
        0 <= upto <= bodies.len(),
        bodies.len() <= 1048576,
        moderate_bodies(bodies),
        -2305843009213693952 <= qx <= 2305843009213693952,
        -2305843009213693952 <= qy <= 2305843009213693952,
        forall|i: int|
            0 <= i < bodies.len() ==> -9903520323510917835675140096 <= (#[trigger] bodies[i]).mass
                * qx <= 9903520323510917835675140096,
        forall|i: int|
            0 <= i < bodies.len() ==> -9903520323510917835675140096 <= (#[trigger] bodies[i]).mass
                * qy <= 9903520323510917835675140096,
    ensures
        -(upto * 2199023255553) <= momentum_sum(bodies, upto).0 <= upto * 2199023255553,
        -(upto * 2199023255553) <= momentum_sum(bodies, upto).1 <= upto * 2199023255553,
        -(upto * (SCALE as int)) <= (SCALE as int) * momentum_sum(bodies, upto).0 - exact_mom(
            bodies,
            upto,
        ).0 <= upto * (SCALE as int),
        -(upto * (SCALE as int)) <= (SCALE as int) * momentum_sum(bodies, upto).1 - exact_mom(
            bodies,
            upto,
        ).1 <= upto * (SCALE as int),
        -(upto * (SCALE as int)) <= (SCALE as int) * adj_mom(bodies, qx, qy, upto).0 - (exact_mom(
            bodies,
            upto,
        ).0 - mass_sum(bodies, upto) * qx) <= upto * (SCALE as int),
        -(upto * (SCALE as int)) <= (SCALE as int) * adj_mom(bodies, qx, qy, upto).1 - (exact_mom(
            bodies,
            upto,
        ).1 - mass_sum(bodies, upto) * qy) <= upto * (SCALE as int),
    decreases upto,
{
    let s = SCALE as int;
    if upto > 0 {
        lemma_momentum_rounding(bodies, qx, qy, upto - 1);
        let b = bodies[upto - 1];
        assert(b.mass * b.vel.0 == b.vel.0 * b.mass && b.mass * b.vel.1 == b.vel.1
            * b.mass) by (nonlinear_arith);
        crate::scalar::lemma_fx_mul_error(b.vel.0, b.mass);
        crate::scalar::lemma_fx_mul_error(b.vel.1, b.mass);
        assert(-2199023255553 <= fx_mul(b.vel.0, b.mass) <= 2199023255553
            && -2199023255553 <= fx_mul(b.vel.1, b.mass) <= 2199023255553) by (nonlinear_arith)
            requires
                -s < s * fx_mul(b.vel.0, b.mass) - b.vel.0 * b.mass < s,
                -s < s * fx_mul(b.vel.1, b.mass) - b.vel.1 * b.mass < s,
                -9444732965739290427392 <= b.vel.0 * b.mass <= 9444732965739290427392,
                -9444732965739290427392 <= b.vel.1 * b.mass <= 9444732965739290427392,
                s == 4294967296,
        ;
        let wx = fx_sub(b.vel.0, qx);
        let wy = fx_sub(b.vel.1, qy);
        assert(wx == b.vel.0 - qx && wy == b.vel.1 - qy);
        assert((b.vel.0 - qx) * b.mass == b.vel.0 * b.mass - b.mass * qx) by (nonlinear_arith);
        assert((b.vel.1 - qy) * b.mass == b.vel.1 * b.mass - b.mass * qy) by (nonlinear_arith);
        assert(-19807040628566084398385987584 <= wx * b.mass <= 19807040628566084398385987584
            && -19807040628566084398385987584 <= wy * b.mass <= 19807040628566084398385987584);
        crate::scalar::lemma_fx_mul_error(wx, b.mass);
        crate::scalar::lemma_fx_mul_error(wy, b.mass);
        assert((mass_sum(bodies, upto - 1) + b.mass) * qx == mass_sum(bodies, upto - 1) * qx
            + b.mass * qx) by (nonlinear_arith);
        assert((mass_sum(bodies, upto - 1) + b.mass) * qy == mass_sum(bodies, upto - 1) * qy
            + b.mass * qy) by (nonlinear_arith);
    }
}

/// The adjusted bodies' momentum is the symbolic adjusted sum at the
/// system's own correction.
proof fn lemma_adj_mom_eq(bodies: Seq<BodyView>, upto: int)
    requires
        0 <= upto <= bodies.len(),
    ensures
        momentum_sum(adjusted_bodies(bodies), upto) == adj_mom(
            bodies,
            momentum_correction(bodies).0,
            momentum_correction(bodies).1,
            upto,
        ),
    decreases upto,
{
    if upto > 0 {
        lemma_adj_mom_eq(bodies, upto - 1);
        assert(adjusted_bodies(bodies)[upto - 1].mass == bodies[upto - 1].mass);
    }
}

/// After the momentum correction, the total momentum of the system is
/// zero to within rounding: at most `2 n + total_mass / SCALE` grid units
/// in each component, for any physically sensible system whose average
/// mass is at least one unit and whose total mass fits the grid --
/// vanishing next to the velocities themselves.
pub proof fn lemma_momentum_correction(bodies: Seq<BodyView>)
    requires
        1 <= bodies.len() <= 1048576,
        moderate_bodies(bodies),
        bodies.len() * (SCALE as int) <= mass_sum(bodies, bodies.len() as int) <= i64::MAX,
    ensures
        ({
            let n = bodies.len() as int;
            let adj = adjusted_bodies(bodies);
            let bound = 2 * n * (SCALE as int) + mass_sum(bodies, n);
            &&& -bound <= (SCALE as int) * momentum_sum(adj, n).0 <= bound
            &&& -bound <= (SCALE as int) * momentum_sum(adj, n).1 <= bound
        }),
{
    let s = SCALE as int;
    let n = bodies.len() as int;
    assert forall|i: int| 0 <= i < n implies -9903520323510917835675140096 <= (
    #[trigger] bodies[i]).mass * 0 <= 9903520323510917835675140096 by {
        assert(bodies[i].mass * 0 == 0) by (nonlinear_arith);
    }
    lemma_momentum_rounding(bodies, 0, 0, n);
    let px = momentum_sum(bodies, n).0;
    let py = momentum_sum(bodies, n).1;
    let m = mass_sum(bodies, n);
    assert(-2305843009214742528 <= px <= 2305843009214742528 && -2305843009214742528 <= py
        <= 2305843009214742528);
    assert(sat_i64(px) == px && sat_i64(py) == py && sat_i64(m) == m);
    let qx = momentum_correction(bodies).0;
    let qy = momentum_correction(bodies).1;
    let tx = crate::scalar::trunc_div(px * s, m);
    let ty = crate::scalar::trunc_div(py * s, m);
    crate::scalar::lemma_trunc_div_error(px * s, m);
    crate::scalar::lemma_trunc_div_error(py * s, m);
    assert(-2199023255554 <= tx <= 2199023255554 && -2199023255554 <= ty
        <= 2199023255554) by (nonlinear_arith)
        requires
            -(n * 2199023255553) <= px <= n * 2199023255553,
            -(n * 2199023255553) <= py <= n * 2199023255553,
            n * s <= m,
            1 <= n <= 1048576,
            s == 4294967296,
            px * s >= 0 ==> 0 <= px * s - m * tx < m,
            px * s < 0 ==> -m < px * s - m * tx <= 0,
            py * s >= 0 ==> 0 <= py * s - m * ty < m,
            py * s < 0 ==> -m < py * s - m * ty <= 0,
    ;
    assert(qx == tx && qy == ty);
    assert(-m < px * s - m * qx < m && -m < py * s - m * qy < m) by (nonlinear_arith)
        requires
            px * s >= 0 ==> 0 <= px * s - m * tx < m,
            px * s < 0 ==> -m < px * s - m * tx <= 0,
            py * s >= 0 ==> 0 <= py * s - m * ty < m,
            py * s < 0 ==> -m < py * s - m * ty <= 0,
            qx == tx && qy == ty,
            m >= 1,
    ;
    assert(-9903520314287545798820364288 <= px * s <= 9903520314287545798820364288 && (
    -9903520314287545798820364288 <= py * s <= 9903520314287545798820364288));
    assert(-9903520323510917835675140096 <= m * qx <= 9903520323510917835675140096 && (
    -9903520323510917835675140096 <= m * qy <= 9903520323510917835675140096));
    assert forall|i: int|
        0 <= i < n implies (-9903520323510917835675140096 <= (#[trigger] bodies[i]).mass * qx
        <= 9903520323510917835675140096 && -9903520323510917835675140096 <= bodies[i].mass * qy
        <= 9903520323510917835675140096) by {
        lemma_mass_le_total(bodies, i, n);
        assert(-9903520323510917835675140096 <= bodies[i].mass * qx
            <= 9903520323510917835675140096 && -9903520323510917835675140096 <= bodies[i].mass * qy
            <= 9903520323510917835675140096) by (nonlinear_arith)
            requires
                0 < bodies[i].mass <= m,
                -9903520323510917835675140096 <= m * qx <= 9903520323510917835675140096,
                -9903520323510917835675140096 <= m * qy <= 9903520323510917835675140096,
    ;
    }
    lemma_momentum_rounding(bodies, qx, qy, n);
    lemma_adj_mom_eq(bodies, n);
    assert(px * s == s * px && py * s == s * py) by (nonlinear_arith);
}

/// The velocity slots of the derivative hold the body's own velocity
/// scaled by the time scale; the formula mentions nothing of any other
/// body, so the slots are independent of all of them.
pub proof fn lemma_velocity_slot(p: SimParams, c: Seq<int>, i: int)
    requires
        0 <= i,
        4 * i + 3 < c.len(),
    ensures
        sim_deriv(p, c)[4 * i] == fx_mul(c[4 * i + 2], p.time_scale),
        sim_deriv(p, c)[4 * i + 1] == fx_mul(c[4 * i + 3], p.time_scale),
{
    lemma_slot_index(i, 0);
    lemma_slot_index(i, 1);
}

/// Two states agreeing on body `i`'s velocity get identical velocity
/// slots for `i`, whatever every other body does.
pub proof fn lemma_velocity_slot_local(p: SimParams, c1: Seq<int>, c2: Seq<int>, i: int)
    requires
        0 <= i,
        4 * i + 3 < c1.len(),
        4 * i + 3 < c2.len(),
        c1[4 * i + 2] == c2[4 * i + 2],
        c1[4 * i + 3] == c2[4 * i + 3],
    ensures
        sim_deriv(p, c1)[4 * i] == sim_deriv(p, c2)[4 * i],
        sim_deriv(p, c1)[4 * i + 1] == sim_deriv(p, c2)[4 * i + 1],
{
    lemma_velocity_slot(p, c1, i);
    lemma_velocity_slot(p, c2, i);
}

/// With the interaction switched off, nothing accelerates: every
/// pairwise term, and so every accumulated sum, is zero.
proof fn lemma_accel_sum_unforced(p: SimParams, c: Seq<int>, i: int, upto: int)
    requires
        p.grav == 0,
    ensures
        accel_sum(p, c, i, upto) == (0int, 0int),
    decreases upto,
{
    if upto > 0 {
        lemma_accel_sum_unforced(p, c, i, upto - 1);
        let j = upto - 1;
        if j != i && !pair_off(p.off, i, j) {
            let t = accel_term(p, c, i, j);
            assert(0 * p.masses[j] == 0) by (nonlinear_arith);
            let dist = fx_norm(fx_sub(c[4 * i], c[4 * j]), fx_sub(c[4 * i + 1], c[4 * j + 1]));
            let pw = fx_pow(fx_mul(dist, p.dist_factor), p.exponent);
            assert(0 * pw == 0) by (nonlinear_arith);
            assert(0 * fx_sub(c[4 * j], c[4 * i]) == 0) by (nonlinear_arith);
            assert(0 * fx_sub(c[4 * j + 1], c[4 * i + 1]) == 0) by (nonlinear_arith);
            assert(t == (0int, 0int));
        }
    }
}

/// With the interaction switched off, the derivative has zero in every
/// acceleration slot.
proof fn lemma_unforced_accel_slots(p: SimParams, c: Seq<int>, i: int)
    requires
        p.grav == 0,
        0 <= i,
        4 * i + 3 < c.len(),
    ensures
        sim_deriv(p, c)[4 * i + 2] == 0,
        sim_deriv(p, c)[4 * i + 3] == 0,
{
    lemma_slot_index(i, 2);
    lemma_slot_index(i, 3);
    lemma_accel_sum_unforced(p, c, i, p.masses.len() as int);
    assert(0 * p.time_scale == 0) by (nonlinear_arith);
    assert(fx_mul(sat_i64(0), p.time_scale) == 0);
}

/// With the interaction switched off the derivative rule is constant
/// along its own flow: shifting the coordinates by the derivative leaves
/// the derivative unchanged, because only positions move and only
/// velocities feed the derivative.
pub proof fn lemma_unforced_deriv_constant(p: SimParams, c: Seq<int>, n: int, amount: int)
    requires
        p.grav == 0,
        c.len() == 4 * n,
        forall|k: int| 0 <= k < c.len() ==> i64::MIN <= #[trigger] c[k] <= i64::MAX,
    ensures
        sim_deriv(p, seq_shift(c, sim_deriv(p, c), amount)) == sim_deriv(p, c),
{
    let d = sim_deriv(p, c);
    let c2 = seq_shift(c, d, amount);
    assert forall|k: int| 0 <= k < c.len() implies #[trigger] sim_deriv(p, c2)[k] == sim_deriv(
        p,
        c,
    )[k] by {
        lemma_fundamental_div_mod(k, 4);
        let i = k / 4;
        let r = k % 4;
        assert(0 <= i < n);
        lemma_unforced_accel_slots(p, c, i);
        lemma_unforced_accel_slots(p, c2, i);
        if r == 0 || r == 1 {
            let v = 4 * i + 2 + r;
            assert(d[v] == 0);
            assert(0 * amount == 0) by (nonlinear_arith);
            assert(fx_mul(d[v], amount) == 0);
            assert(c2[v] == fx_add(c[v], 0));
            assert(c2[v] == c[v]);
            lemma_velocity_slot(p, c, i);
            lemma_velocity_slot(p, c2, i);
        }
    }
    assert(sim_deriv(p, c2) =~= sim_deriv(p, c));
}

/// With the interaction switched off -- the driver-level constant-
/// derivative system: every body coasts -- one Runge-Kutta sub-step of
/// the state's own rule is bit-identical to the single direct shift
/// `initial + derivative * h`: positions move by velocity times time
/// scale times `h`, velocities stay put.  The step must sit on the
/// sixths of the grid and the sixfold derivative must not saturate.
pub proof fn lemma_free_motion_substep(p: SimParams, c: Seq<int>, n: int, h: int)
    requires
        p.grav == 0,
        c.len() == 4 * n,
        forall|k: int| 0 <= k < c.len() ==> i64::MIN <= #[trigger] c[k] <= i64::MAX,
        h % 6 == 0,
        i64::MIN <= h <= i64::MAX,
        forall|k: int|
            0 <= k < c.len() ==> i64::MIN <= 6 * #[trigger] sim_deriv(p, c)[k] <= i64::MAX,
    ensures
        crate::integrator::rk4_substep(sim_field(p), c, h) == seq_shift(c, sim_deriv(p, c), h),
{
    let f = sim_field(p);
    let d = sim_deriv(p, c);
    lemma_unforced_deriv_constant(p, c, n, fx_div(h, 2 * SCALE as int));
    lemma_unforced_deriv_constant(p, c, n, h);
    crate::integrator::lemma_rk4_pointwise_constant_exact(f, d, c, h);
}

/// The same, for any number of consecutive sub-steps: the unforced state
/// coasts through exact Euler steps.
pub proof fn lemma_free_motion_steps(p: SimParams, c: Seq<int>, n: int, h: int, m: nat)
    requires
        p.grav == 0,
        c.len() == 4 * n,
        forall|k: int| 0 <= k < c.len() ==> i64::MIN <= #[trigger] c[k] <= i64::MAX,
        h % 6 == 0,
        i64::MIN <= h <= i64::MAX,
        forall|k: int|
            0 <= k < c.len() ==> i64::MIN <= 6 * #[trigger] sim_deriv(p, c)[k] <= i64::MAX,
    ensures
        crate::integrator::rk4_steps(sim_field(p), c, h, m) == crate::integrator::shift_iter(
            c,
            sim_deriv(p, c),
            h,
            m,
        ),
    decreases m,
{
    if m > 0 {
        let d = sim_deriv(p, c);
        lemma_free_motion_substep(p, c, n, h);
        let c2 = seq_shift(c, d, h);
        lemma_unforced_deriv_constant(p, c, n, h);
        assert(forall|k: int| 0 <= k < c2.len() ==> i64::MIN <= #[trigger] c2[k] <= i64::MAX);
        lemma_free_motion_steps(p, c2, n, h, (m - 1) as nat);
    }
}

/// The pairwise pull points from `i` toward `j`: with a nonnegative
/// constant, mass and unit correction, each component of the
/// acceleration term carries the sign of the displacement toward `j`,
/// or vanishes on the grid.
pub proof fn lemma_term_direction(p: SimParams, c: Seq<int>, i: int, j: int)
    requires
        p.grav >= 0,
        0 <= j < p.masses.len(),
        p.masses[j] >= 0,
        p.dist_factor >= 0,
    ensures
        ({
            let dx = fx_sub(c[4 * j], c[4 * i]);
            let dy = fx_sub(c[4 * j + 1], c[4 * i + 1]);
            let t = accel_term(p, c, i, j);
            &&& dx >= 0 ==> t.0 >= 0
            &&& dx <= 0 ==> t.0 <= 0
            &&& dy >= 0 ==> t.1 >= 0
            &&& dy <= 0 ==> t.1 <= 0
        }),
{
    let dx = fx_sub(c[4 * j], c[4 * i]);
    let dy = fx_sub(c[4 * j + 1], c[4 * i + 1]);
    let dist = fx_norm(fx_sub(c[4 * i], c[4 * j]), fx_sub(c[4 * i + 1], c[4 * j + 1]));
    assert(dist >= 0);
    crate::scalar::lemma_fx_mul_sign(p.grav, p.masses[j]);
    crate::scalar::lemma_fx_mul_sign(dist, p.dist_factor);
    crate::scalar::lemma_fx_pow_nonneg(fx_mul(dist, p.dist_factor), p.exponent);
    let gm = fx_mul(p.grav, p.masses[j]);
    let pw = fx_pow(fx_mul(dist, p.dist_factor), p.exponent);
    crate::scalar::lemma_fx_mul_sign(gm, pw);
    let part = fx_mul(gm, pw);
    crate::scalar::lemma_fx_mul_sign(part, dx);
    crate::scalar::lemma_fx_mul_sign(part, dy);
    crate::scalar::lemma_fx_div_sign(fx_mul(part, dx), dist);
    crate::scalar::lemma_fx_div_sign(fx_mul(part, dy), dist);
}

/// Membership in a pair list with one more pair.
proof fn lemma_pair_off_push(off: Seq<(int, int)>, q: (int, int), a: int, b: int)
    ensures
        pair_off(off.push(q), a, b) <==> (pair_off(off, a, b) || q == (a, b) || q == (b, a)),
{
    let off2 = off.push(q);
    if pair_off(off2, a, b) {
        let k = choose|k: int|
            0 <= k < off2.len() && (off2[k] == (a, b) || off2[k] == (b, a));
        if k < off.len() {
            assert(off[k] == off2[k]);
            assert(pair_off(off, a, b));
        } else {
            assert(off2[k] == q);
        }
    }
    if pair_off(off, a, b) {
        let k = choose|k: int| 0 <= k < off.len() && (off[k] == (a, b) || off[k] == (b, a));
        assert(off2[k] == off[k]);
        assert(pair_off(off2, a, b));
    }
    if q == (a, b) || q == (b, a) {
        assert(off2[off.len() as int] == q);
        assert(pair_off(off2, a, b));
    }
}

/// With a pair list that suppresses for body `a` exactly one more
/// partner `o`, the acceleration sum of `a` loses exactly the term of
/// `o` — an exact identity of the unsaturated sums.
proof fn lemma_accel_sum_one_more(p: SimParams, p2: SimParams, c: Seq<int>, a: int, o: int, upto: int)
    requires
        p2.grav == p.grav,
        p2.exponent == p.exponent,
        p2.time_scale == p.time_scale,
        p2.dist_factor == p.dist_factor,
        p2.masses == p.masses,
        forall|j2: int| pair_off(p2.off, a, j2) <==> (pair_off(p.off, a, j2) || j2 == o),
        !pair_off(p.off, a, o),
        a != o,
    ensures
        0 <= o < upto ==> accel_sum(p, c, a, upto).0 == accel_sum(p2, c, a, upto).0 + accel_term(
            p,
            c,
            a,
            o,
        ).0 && accel_sum(p, c, a, upto).1 == accel_sum(p2, c, a, upto).1 + accel_term(
            p,
            c,
            a,
            o,
        ).1,
        upto <= o ==> accel_sum(p, c, a, upto) == accel_sum(p2, c, a, upto),
    decreases upto,
{
    if upto > 0 {
        lemma_accel_sum_one_more(p, p2, c, a, o, upto - 1);
        let j = upto - 1;
        if j != a && !pair_off(p.off, a, j) && j != o {
            assert(accel_term(p2, c, a, j) == accel_term(p, c, a, j));
        }
        if j == o {
            assert(pair_off(p2.off, a, j));
            assert(accel_term(p2, c, a, o) == accel_term(p, c, a, o));
        }
    }
}

/// With a pair list whose additions never touch body `a`, the
/// acceleration sum of `a` is unchanged.
proof fn lemma_accel_sum_same(p: SimParams, p2: SimParams, c: Seq<int>, a: int, upto: int)
    requires
        p2.grav == p.grav,
        p2.exponent == p.exponent,
        p2.time_scale == p.time_scale,
        p2.dist_factor == p.dist_factor,
        p2.masses == p.masses,
        forall|j2: int| pair_off(p2.off, a, j2) <==> pair_off(p.off, a, j2),
    ensures
        accel_sum(p, c, a, upto) == accel_sum(p2, c, a, upto),
    decreases upto,
{
    if upto > 0 {
        lemma_accel_sum_same(p, p2, c, a, upto - 1);
        let j = upto - 1;
        if j != a && !pair_off(p.off, a, j) {
            assert(accel_term(p2, c, a, j) == accel_term(p, c, a, j));
        }
    }
}

/// Suppressing the pair `{i, j}` removes exactly their mutual
/// contribution: every slot of every other body's derivative is
/// unchanged, the velocity slots of `i` and `j` are unchanged, and the
/// accumulated acceleration of each of the two differs from before by
/// exactly the single term the other contributed.
pub proof fn lemma_suppression_exact(p: SimParams, c: Seq<int>, i: int, j: int)
    requires
        0 <= i < p.masses.len(),
        0 <= j < p.masses.len(),
        i != j,
        !pair_off(p.off, i, j),
        c.len() == 4 * p.masses.len(),
    ensures
        ({
            let p2 = SimParams { off: p.off.push((i, j)), ..p };
            let n = p.masses.len() as int;
            &&& forall|k: int|
                0 <= k < c.len() && k / 4 != i && k / 4 != j ==> #[trigger] sim_deriv(p2, c)[k]
                    == sim_deriv(p, c)[k]
            &&& sim_deriv(p2, c)[4 * i] == sim_deriv(p, c)[4 * i]
            &&& sim_deriv(p2, c)[4 * i + 1] == sim_deriv(p, c)[4 * i + 1]
            &&& sim_deriv(p2, c)[4 * j] == sim_deriv(p, c)[4 * j]
            &&& sim_deriv(p2, c)[4 * j + 1] == sim_deriv(p, c)[4 * j + 1]
            &&& accel_sum(p, c, i, n).0 == accel_sum(p2, c, i, n).0 + accel_term(p, c, i, j).0
            &&& accel_sum(p, c, i, n).1 == accel_sum(p2, c, i, n).1 + accel_term(p, c, i, j).1
            &&& accel_sum(p, c, j, n).0 == accel_sum(p2, c, j, n).0 + accel_term(p, c, j, i).0
            &&& accel_sum(p, c, j, n).1 == accel_sum(p2, c, j, n).1 + accel_term(p, c, j, i).1
        }),
{
    let p2 = SimParams { off: p.off.push((i, j)), ..p };
    let n = p.masses.len() as int;
    assert forall|j2: int| pair_off(p2.off, i, j2) <==> (pair_off(p.off, i, j2) || j2 == j) by {
        lemma_pair_off_push(p.off, (i, j), i, j2);
    }
    assert forall|j2: int| pair_off(p2.off, j, j2) <==> (pair_off(p.off, j, j2) || j2 == i) by {
        lemma_pair_off_push(p.off, (i, j), j, j2);
        assert(pair_off(p.off, j, i) <==> pair_off(p.off, i, j));
    }
    assert(!pair_off(p.off, j, i));
    lemma_accel_sum_one_more(p, p2, c, i, j, n);
    lemma_accel_sum_one_more(p, p2, c, j, i, n);
    assert forall|k: int|
        0 <= k < c.len() && k / 4 != i && k / 4 != j implies #[trigger] sim_deriv(p2, c)[k]
        == sim_deriv(p, c)[k] by {
        lemma_fundamental_div_mod(k, 4);
        let b = k / 4;
        if k % 4 == 2 || k % 4 == 3 {
            assert forall|j2: int| pair_off(p2.off, b, j2) <==> pair_off(p.off, b, j2) by {
                lemma_pair_off_push(p.off, (i, j), b, j2);
            }
            lemma_accel_sum_same(p, p2, c, b, n);
        }
    }
    lemma_slot_index(i, 0);
    lemma_slot_index(i, 1);
    lemma_slot_index(j, 0);
    lemma_slot_index(j, 1);
}

/// Everything about a state an integrator must not change: the
/// interaction parameters and the bodies' names.
#[verifier::ext_equal]
pub struct SimFrozen {
    pub params: SimParams,
    pub names: Seq<Option<Seq<char>>>,
}

/// The names of a body sequence, in order.
pub open spec fn names_of(bodies: Seq<BodyView>) -> Seq<Option<Seq<char>>> {
    bodies.map(|i: int, b: BodyView| b.name)
}

/// A state's view is determined by its coordinates and its frozen part.
pub proof fn lemma_view_determined(a: SimView, b: SimView)
    requires
        params_of(a) == params_of(b),
        names_of(a.bodies) == names_of(b.bodies),
        sim_coords(a.bodies) == sim_coords(b.bodies),
    ensures
        a == b,
{
    assert(a.bodies.len() == params_of(a).masses.len());
    assert(b.bodies.len() == params_of(b).masses.len());
    assert forall|i: int| 0 <= i < a.bodies.len() implies a.bodies[i] == b.bodies[i] by {
        lemma_coords_index(a.bodies, i);
        lemma_coords_index(b.bodies, i);
        assert(params_of(a).masses[i] == a.bodies[i].mass);
        assert(params_of(b).masses[i] == b.bodies[i].mass);
        assert(names_of(a.bodies)[i] == a.bodies[i].name);
        assert(names_of(b.bodies)[i] == b.bodies[i].name);
    }
    assert(a.bodies =~= b.bodies);
    assert(a =~= b);
}

impl Integrable for SimState {
    type Deriv = SimDerivative;

    type Frozen = SimFrozen;

    open spec fn coords(&self) -> Seq<int> {
        sim_coords(self@.bodies)
    }

    open spec fn frozen(&self) -> SimFrozen {
        SimFrozen { params: params_of(self@), names: names_of(self@.bodies) }
    }

    open spec fn field(&self) -> spec_fn(Seq<int>) -> Seq<int> {
        sim_field(params_of(self@))
    }

    fn derivative(&self) -> (d: SimDerivative) {
        let ghost p = params_of(self@);
        let ghost c = sim_coords(self@.bodies);
        let n = self.bodies.len();
        let mut buf: Vec<i64> = Vec::new();
        let mut i: usize = 0;
        while i < n
            invariant
                n == self.bodies@.len(),
                i <= n,
                p == params_of(self@),
                c == sim_coords(self@.bodies),
                buf@.len() == 4 * i,
                forall|t: int| 0 <= t < 4 * i ==> buf@[t] as int == #[trigger] sim_deriv(p, c)[t],
            decreases n - i,
        {
            let bi = &self.bodies[i];
            let mut ax: i128 = 0;
            let mut ay: i128 = 0;
            let mut j: usize = 0;
            while j < n
                invariant
                    n == self.bodies@.len(),
                    i < n,
                    j <= n,
                    p == params_of(self@),
                    c == sim_coords(self@.bodies),
                    bi == &self.bodies@[i as int],
                    (ax as int, ay as int) == accel_sum(p, c, i as int, j as int),
                    -((j as int) * 9223372036854775808) <= ax
                        <= (j as int) * 9223372036854775808,
                    -((j as int) * 9223372036854775808) <= ay
                        <= (j as int) * 9223372036854775808,
                decreases n - j,
            {
                if j != i && !self.is_off(i, j) {
                    let bj = &self.bodies[j];
                    let dist = bi.distance_from(bj);
                    let diff = bj.pos.sub(bi.pos);
                    let part = self.grav_const.mul(bj.mass).mul(
                        dist.mul(self.dist_factor).pow(self.exponent as i64),
                    );
                    let tx = part.mul(diff.x).div(dist);
                    let ty = part.mul(diff.y).div(dist);
                    proof {
                        lemma_coords_index(self@.bodies, i as int);
                        lemma_coords_index(self@.bodies, j as int);
                        assert(p.masses[j as int] == self@.bodies[j as int].mass);
                        assert((tx@, ty@) == accel_term(p, c, i as int, j as int));
                    }
                    ax = ax + tx.raw as i128;
                    ay = ay + ty.raw as i128;
                } else {
                    proof {
                        assert(accel_sum(p, c, i as int, j as int + 1) == accel_sum(
                            p,
                            c,
                            i as int,
                            j as int,
                        ));
                    }
                }
                j += 1;
            }
            let vslot_x = self.bodies[i].vel.x.mul(self.time_scale);
            let vslot_y = self.bodies[i].vel.y.mul(self.time_scale);
            let aslot_x = Scalar { raw: clamp_i128(ax) }.mul(self.time_scale).div(
                self.dist_factor,
            );
            let aslot_y = Scalar { raw: clamp_i128(ay) }.mul(self.time_scale).div(
                self.dist_factor,
            );
            buf.push(vslot_x.raw);
            buf.push(vslot_y.raw);
            buf.push(aslot_x.raw);
            buf.push(aslot_y.raw);
            proof {
                lemma_coords_index(self@.bodies, i as int);
                lemma_slot_index(i as int, 0);
                lemma_slot_index(i as int, 1);
                lemma_slot_index(i as int, 2);
                lemma_slot_index(i as int, 3);
                assert(p.masses.len() == n);
                assert(buf@[4 * i as int] as int == sim_deriv(p, c)[4 * i as int]);
                assert(buf@[4 * i as int + 1] as int == sim_deriv(p, c)[4 * i as int + 1]);
                assert(buf@[4 * i as int + 2] as int == sim_deriv(p, c)[4 * i as int + 2]);
                assert(buf@[4 * i as int + 3] as int == sim_deriv(p, c)[4 * i as int + 3]);
            }
            i += 1;
        }
        let d = SimDerivative { buf };
        proof {
            assert(d.comps() =~= sim_deriv(p, c));
            assert((self.field())(self.coords()) == sim_deriv(p, c));
        }
        d
    }

    fn shift_in_place(&mut self, dir: &SimDerivative, amount: Scalar) {
        let n = self.bodies.len();
        let dn = dir.buf.len();
        proof {
            assert(dn == 4 * n);
        }
        let mut i: usize = 0;
        while i < n
            invariant
                n == self.bodies@.len(),
                n == old(self).bodies@.len(),
                i <= n,
                dn == dir.buf@.len(),
                dn == 4 * n,
                dir.comps().len() == 4 * n,
                self.exponent == old(self).exponent,
                self.grav_const == old(self).grav_const,
                self.time_scale == old(self).time_scale,
                self.dist_factor == old(self).dist_factor,
                self.turn_off@ == old(self).turn_off@,
                forall|t: int| i <= t < n ==> self.bodies@[t] == old(self).bodies@[t],
                forall|t: int|
                    0 <= t < i ==> #[trigger] self.bodies@[t]@ == (BodyView {
                        pos: (
                            fx_add(
                                old(self).bodies@[t]@.pos.0,
                                fx_mul(dir.comps()[4 * t], amount@),
                            ),
                            fx_add(
                                old(self).bodies@[t]@.pos.1,
                                fx_mul(dir.comps()[4 * t + 1], amount@),
                            ),
                        ),
                        vel: (
                            fx_add(
                                old(self).bodies@[t]@.vel.0,
                                fx_mul(dir.comps()[4 * t + 2], amount@),
                            ),
                            fx_add(
                                old(self).bodies@[t]@.vel.1,
                                fx_mul(dir.comps()[4 * t + 3], amount@),
                            ),
                        ),
                        ..old(self).bodies@[t]@
                    }),
            decreases n - i,
        {
            let d_pos = Vec2 { x: Scalar { raw: dir.buf[4 * i] }, y: Scalar { raw: dir.buf[4 * i + 1] } };
            let d_vel = Vec2 { x: Scalar { raw: dir.buf[4 * i + 2] }, y: Scalar { raw: dir.buf[4 * i + 3] } };
            let new_pos = self.bodies[i].pos.add(d_pos.scale(amount));
            let new_vel = self.bodies[i].vel.add(d_vel.scale(amount));
            let b = &mut self.bodies[i];
            b.pos = new_pos;
            b.vel = new_vel;
            i += 1;
        }
        proof {
            let oldb = old(self)@.bodies;
            let oldc = sim_coords(oldb);
            assert forall|k: int| 0 <= k < 4 * n implies sim_coords(self@.bodies)[k] == seq_shift(
                oldc,
                dir.comps(),
                amount@,
            )[k] by {
                lemma_fundamental_div_mod(k, 4);
                let t = k / 4;
                let r = k % 4;
                assert(4 * t + r == k);
                assert(0 <= t < n);
                lemma_coords_index(self@.bodies, t);
                lemma_coords_index(oldb, t);
            }
            assert(sim_coords(self@.bodies) =~= seq_shift(oldc, dir.comps(), amount@));
            assert(params_of(self@) =~= params_of(old(self)@));
            assert(names_of(self@.bodies) =~= names_of(old(self)@.bodies));
            assert(self.field() == old(self).field());
            assert(self.frozen() =~= old(self).frozen());
        }
    }

    fn duplicate(&self) -> (r: Self) {
        let r = self.snapshot();
        proof {
            assert(r.coords() == self.coords());
            assert(r.field() == self.field());
        }
        r
    }
}

} // verus!

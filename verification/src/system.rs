//! A ready-made scenario: the Sun, the Earth, the Moon, and a light test
//! body, each started at its pericenter speed.
//!
//! Units: lengths in units of a million kilometres, masses in units of
//! `10^24` kg, time in units of a million seconds.  In those units the
//! gravitational constant is about `6.674e-2`, so no unit correction is
//! needed and every quantity sits comfortably on the fixed-point grid.
use vstd::prelude::*;

use crate::body::{Body, BodyView, Vec2};
use crate::scalar::{fx_add, fx_div, fx_mul, fx_neg, fx_sqrt, fx_sub, Scalar, SCALE};
use crate::sim::{adjusted_bodies, SimState, SimView};

verus! {

/// The pericenter distance of an orbit: `a * (1 - ecc^2)`, on the grid.
pub open spec fn peri(a: int, ecc: int) -> int {
    fx_mul(a, fx_sub(SCALE as int, fx_mul(ecc, ecc)))
}

/// The vis-viva speed at distance `r` of an orbit with semi-major axis
/// `a` around mass `m`: `sqrt(grav * m * (2 / r - 1 / a))`, on the grid;
/// zero where a degenerate orbit drives the radicand negative.
pub open spec fn vis_viva(grav: int, m: int, a: int, r: int) -> int {
    let radicand = fx_mul(
        fx_mul(grav, m),
        fx_sub(fx_div(2 * SCALE as int, r), fx_div(SCALE as int, a)),
    );
    if radicand >= 0 {
        fx_sqrt(radicand)
    } else {
        0int
    }
}

/// The gravitational constant in the scenario's units.
pub open spec fn solar_grav() -> int {
    fx_div(6674 * (SCALE as int), 100000 * (SCALE as int))
}

/// The four bodies of the demonstration system as constructed, before
/// the momentum correction: Sun at the origin recoiling against the
/// others, Earth and Moon at their pericenters at their vis-viva speeds,
/// and a light test body 50 length units out.  The test body's speed is
/// not a recorded datum like the others: it is derived from the same
/// vis-viva relation, for a circular orbit at its distance.
pub open spec fn solar_setup() -> Seq<BodyView> {
    let s = SCALE as int;
    let grav = solar_grav();
    let m_sun = 1989000 * s;
    let m_earth = fx_div(5975 * s, 1000 * s);
    let m_moon = fx_div(7348 * s, 100000 * s);
    let m_test = fx_div(1 * s, 100 * s);
    let p_earth = peri(fx_div(1496 * s, 10 * s), fx_div(167 * s, 10000 * s));
    let p_moon = peri(fx_div(3844 * s, 10000 * s), fx_div(55 * s, 1000 * s));
    let v_earth = vis_viva(grav, m_sun, fx_div(1496 * s, 10 * s), p_earth);
    let v_moon = vis_viva(grav, m_earth, fx_div(3844 * s, 10000 * s), p_moon);
    let v_sun = fx_div(fx_add(fx_mul(m_earth, v_earth), fx_mul(m_moon, v_moon)), m_sun);
    let v_test = vis_viva(grav, m_sun, 50 * s, 50 * s);
    seq![
        BodyView { mass: m_sun, pos: (0int, 0int), vel: (0int, fx_neg(v_sun)), name: Some("Sun"@) },
        BodyView {
            mass: m_earth,
            pos: (p_earth, 0int),
            vel: (0int, v_earth),
            name: Some("Earth"@),
        },
        BodyView {
            mass: m_moon,
            pos: (fx_add(p_earth, p_moon), 0int),
            vel: (0int, fx_add(v_earth, v_moon)),
            name: Some("Moon"@),
        },
        BodyView {
            mass: m_test,
            pos: (50 * s, 0int),
            vel: (0int, v_test),
            name: Some("Test body"@),
        },
    ]
}

/// The distance of closest approach of an orbit with semi-major axis `a`
/// and eccentricity `ecc`.
pub fn pericenter(a: Scalar, ecc: Scalar) -> (r: Scalar)
    ensures
        r@ == peri(a@, ecc@),
{
    a.mul(Scalar::one().sub(ecc.mul(ecc)))
}

/// The orbital speed at distance `r` of an orbit with semi-major axis
/// `a` around a central mass `m_center`, by the vis-viva relation; zero
/// where rounding or a degenerate orbit drives the radicand negative.
pub fn vel_at_r(grav: Scalar, m_center: Scalar, a: Scalar, r: Scalar) -> (v: Scalar)
    ensures
        v@ == vis_viva(grav@, m_center@, a@, r@),
{
    let two_over_r = Scalar::from_int(2).div(r);
    let one_over_a = Scalar::one().div(a);
    let radicand = grav.mul(m_center).mul(two_over_r.sub(one_over_a));
    if radicand.raw >= 0 {
        radicand.sqrt()
    } else {
        Scalar::zero()
    }
}

/// Build the demonstration system: exactly the bodies of
/// [`solar_setup`], momentum-corrected so the whole system stays put.
pub fn create_solar_system() -> (r: SimState)
    ensures
        r@ == (SimView {
            grav: solar_grav(),
            exponent: -2,
            time_scale: SCALE as int,
            dist_factor: SCALE as int,
            bodies: adjusted_bodies(solar_setup()),
            off: Seq::<(int, int)>::empty(),
        }),
        r@.bodies.len() == 4,
{
    let grav = Scalar::from_ratio(6674, 100000);
    let mut sim = SimState::new(grav, -2i32, Scalar::one());

    let m_sun = Scalar::from_int(1989000);
    let m_earth = Scalar::from_ratio(5975, 1000);
    let m_moon = Scalar::from_ratio(7348, 100000);

    let a_earth = Scalar::from_ratio(1496, 10);
    let ecc_earth = Scalar::from_ratio(167, 10000);

    let a_moon = Scalar::from_ratio(3844, 10000);
    let ecc_moon = Scalar::from_ratio(55, 1000);

    let p_earth = pericenter(a_earth, ecc_earth);
    let p_moon = pericenter(a_moon, ecc_moon);

    let v_earth = vel_at_r(grav, m_sun, a_earth, p_earth);
    let v_moon = vel_at_r(grav, m_earth, a_moon, p_moon);

    let v_sun = m_earth.mul(v_earth).add(m_moon.mul(v_moon)).div(m_sun);

    let r_test = Scalar::from_int(50);
    let v_test = vel_at_r(grav, m_sun, r_test, r_test);

    let sun = Body::new(
        m_sun,
        Vec2::zero(),
        Vec2::new(Scalar::zero(), v_sun.neg()),
        Some("Sun".to_owned()),
    );
    let earth = Body::new(
        m_earth,
        Vec2::new(p_earth, Scalar::zero()),
        Vec2::new(Scalar::zero(), v_earth),
        Some("Earth".to_owned()),
    );
    let moon = Body::new(
        m_moon,
        Vec2::new(p_earth.add(p_moon), Scalar::zero()),
        Vec2::new(Scalar::zero(), v_earth.add(v_moon)),
        Some("Moon".to_owned()),
    );
    let test = Body::new(
        Scalar::from_ratio(1, 100),
        Vec2::new(r_test, Scalar::zero()),
        Vec2::new(Scalar::zero(), v_test),
        Some("Test body".to_owned()),
    );

    sim.add_body(sun);
    sim.add_body(earth);
    sim.add_body(moon);
    sim.add_body(test);

    proof {
        assert(sim@.bodies.len() == 4);
        assert(sim@.bodies =~= solar_setup());
    }

    sim.adjust_for_center_of_mass();

    proof {
        assert(sim@ =~= (SimView {
            grav: solar_grav(),
            exponent: -2,
            time_scale: SCALE as int,
            dist_factor: SCALE as int,
            bodies: adjusted_bodies(solar_setup()),
            off: Seq::<(int, int)>::empty(),
        }));
    }

    sim
}

} // verus!

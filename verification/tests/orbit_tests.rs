use gravity::integrator::{Integrable, RK4Integrator};
use gravity::scalar::{Scalar, SCALE};
use gravity::sim::SimState;
use gravity::system::{create_solar_system, pericenter, vel_at_r};
use gravity::body::{Body, Vec2};

fn val(s: Scalar) -> f64 {
    s.raw as f64 / SCALE as f64
}

fn from_f64(x: f64) -> Scalar {
    Scalar { raw: (x * SCALE as f64) as i64 }
}

/// Two bodies of masses 10 and 1 at distance 10 under constant 1 and
/// exponent -2, on the circular orbit of the pair, barycentric.
fn circular_pair() -> SimState {
    let mut sim = SimState::new(Scalar::from_int(1), -2, Scalar::one());
    let v_rel = Scalar::from_ratio(11, 10).sqrt();
    sim.add_body(Body::new(
        Scalar::from_int(10),
        Vec2::zero(),
        Vec2::zero(),
        Some("Heavy".to_string()),
    ));
    sim.add_body(Body::new(
        Scalar::from_int(1),
        Vec2::new(Scalar::from_int(10), Scalar::zero()),
        Vec2::new(Scalar::zero(), v_rel),
        Some("Light".to_string()),
    ));
    sim.adjust_for_center_of_mass();
    sim
}

fn energy_and_angular_momentum(sim: &SimState) -> (f64, f64) {
    let grav = 1.0;
    let mut energy = 0.0;
    let mut ang = 0.0;
    let bodies = sim.bodies();
    for b in bodies.iter() {
        let m = val(b.mass);
        let (vx, vy) = (val(b.vel.x), val(b.vel.y));
        energy += 0.5 * m * (vx * vx + vy * vy);
        ang += m * (val(b.pos.x) * vy - val(b.pos.y) * vx);
    }
    for i in 0..bodies.len() {
        for j in (i + 1)..bodies.len() {
            let bi = &bodies[i];
            let bj = &bodies[j];
            let dx = val(bi.pos.x) - val(bj.pos.x);
            let dy = val(bi.pos.y) - val(bj.pos.y);
            let r = (dx * dx + dy * dy).sqrt();
            energy -= grav * val(bi.mass) * val(bj.mass) / r;
        }
    }
    (energy, ang)
}

#[test]
fn circular_orbit_returns_to_start() {
    let mut sim = circular_pair();
    let period = 2.0 * std::f64::consts::PI * 10.0 / 1.1f64.sqrt();
    let n_steps = 600;
    let step = from_f64(period / n_steps as f64);
    let integrator = RK4Integrator::new(Scalar::from_ratio(1, 100));
    for _ in 0..n_steps {
        integrator.propagate_in_place(&mut sim, step);
    }
    let light = sim.get_body(1);
    let x = val(light.pos.x);
    let y = val(light.pos.y);
    assert!((x - 10.0).abs() < 0.05, "x = {x}");
    assert!(y.abs() < 0.05, "y = {y}");
}

#[test]
fn circular_orbit_conserves_energy_and_angular_momentum() {
    let mut sim = circular_pair();
    let (e0, l0) = energy_and_angular_momentum(&sim);
    let period = 2.0 * std::f64::consts::PI * 10.0 / 1.1f64.sqrt();
    let n_steps = 600;
    let step = from_f64(period / n_steps as f64);
    let integrator = RK4Integrator::new(Scalar::from_ratio(1, 100));
    for _ in 0..n_steps {
        integrator.propagate_in_place(&mut sim, step);
    }
    let (e1, l1) = energy_and_angular_momentum(&sim);
    assert!(((e1 - e0) / e0).abs() < 0.001, "energy {e0} -> {e1}");
    assert!(((l1 - l0) / l0).abs() < 0.001, "angular momentum {l0} -> {l1}");
}

#[test]
fn solar_system_shape() {
    let sim = create_solar_system();
    assert_eq!(sim.bodies().len(), 4);
    assert_eq!(sim.body_by_name("Sun"), Some(0));
    assert_eq!(sim.body_by_name("Earth"), Some(1));
    assert_eq!(sim.body_by_name("Moon"), Some(2));
    assert_eq!(sim.body_by_name("Test body"), Some(3));
    assert_eq!(sim.body_by_name("Mars"), None);
    // Earth starts at its pericenter, about 149.35 million kilometres
    // out, moving upward at very nearly its real orbital speed of about
    // 30 kilometres per second (units: 10^6 km, 10^6 s).
    let earth = sim.get_body(1);
    let x = val(earth.pos.x);
    let vy = val(earth.vel.y);
    assert!((x - 149.35).abs() < 0.5, "x = {x}");
    assert!(29.0 < vy && vy < 30.5, "vy = {vy}");
    // The test body sits 50 million kilometres out at its circular
    // vis-viva speed, sqrt(grav * m_sun / 50).
    let test_body = sim.get_body(3);
    assert!((val(test_body.pos.x) - 50.0).abs() < 1e-6);
    let expected_v = (0.06674f64 * 1989000.0 / 50.0).sqrt();
    let tv = val(test_body.vel.y);
    assert!((tv - expected_v).abs() < 0.01, "tv = {tv}, expected {expected_v}");
    // The Sun recoils slowly downward; the whole system has been
    // momentum-corrected.
    let sun = sim.get_body(0);
    assert!(val(sun.vel.y) < 0.0);
    let mut py = 0.0;
    for b in sim.bodies() {
        py += val(b.mass) * val(b.vel.y);
    }
    assert!(py.abs() < 1e-3, "py = {py}");
}

#[test]
fn orbital_elements_helpers() {
    // pericenter(a, 0) is a itself; eccentricity shrinks it.
    assert_eq!(pericenter(Scalar::from_int(8), Scalar::zero()), Scalar::from_int(8));
    let p = pericenter(Scalar::from_int(100), Scalar::from_ratio(1, 10));
    assert!((val(p) - 99.0).abs() < 1e-6);
    // On a circular orbit (r == a) the vis-viva speed is sqrt(g * m / r).
    let v = vel_at_r(
        Scalar::from_int(1),
        Scalar::from_int(10),
        Scalar::from_int(10),
        Scalar::from_int(10),
    );
    assert!((val(v) - 1.0).abs() < 1e-6, "v = {}", val(v));
    // A hyperbolic request (negative radicand) is clamped to zero.
    let w = vel_at_r(
        Scalar::from_int(1).neg(),
        Scalar::from_int(10),
        Scalar::from_int(10),
        Scalar::from_int(10),
    );
    assert_eq!(w, Scalar::zero());
}

#[test]
fn unit_correction_scales_the_law() {
    // Positions in one unit, constant calibrated in a unit a thousand
    // times smaller: with the correction installed, a constant a
    // thousand squared times a thousand larger gives the same pull.
    let mut sim = SimState::new(Scalar::from_int(1000000000), -2, Scalar::one());
    sim.set_unit_correction(Scalar::from_int(1000));
    sim.add_body(Body::new(
        Scalar::from_int(10),
        Vec2::zero(),
        Vec2::zero(),
        Some("A".to_string()),
    ));
    sim.add_body(Body::new(
        Scalar::from_int(1),
        Vec2::new(Scalar::from_int(10), Scalar::zero()),
        Vec2::zero(),
        Some("B".to_string()),
    ));
    let d = sim.derivative();
    let ax = d.buf[2] as f64 / SCALE as f64;
    assert!((ax - 0.01).abs() < 5e-4, "ax = {ax}");
}

use gravity::body::{Body, Vec2};
use gravity::driver::{seconds, Driver};
use gravity::integrator::{Derivative, Integrable, RK4Integrator};
use gravity::scalar::{Scalar, SCALE};
use gravity::sim::SimState;

fn fx(s: Scalar) -> f64 {
    s.raw as f64 / SCALE as f64
}

fn raw_f64(raw: i64) -> f64 {
    raw as f64 / SCALE as f64
}

fn body_at(mass: f64, px: f64, py: f64, vx: f64, vy: f64, name: &str) -> Body {
    Body::new(
        Scalar { raw: (mass * SCALE as f64) as i64 },
        Vec2::new(
            Scalar { raw: (px * SCALE as f64) as i64 },
            Scalar { raw: (py * SCALE as f64) as i64 },
        ),
        Vec2::new(
            Scalar { raw: (vx * SCALE as f64) as i64 },
            Scalar { raw: (vy * SCALE as f64) as i64 },
        ),
        Some(name.to_string()),
    )
}

fn two_body_state() -> SimState {
    let mut sim = SimState::new(Scalar::from_int(1), -2, Scalar::one());
    sim.add_body(body_at(10.0, 0.0, 0.0, 0.0, 0.0, "Heavy"));
    sim.add_body(body_at(1.0, 10.0, 0.0, 0.0, 0.0, "Light"));
    sim
}

#[test]
fn velocity_slot_is_scaled_velocity() {
    // The velocity slot of each body's derivative is its own velocity
    // times the time scale, untouched by the other bodies.
    let mut sim = SimState::new(Scalar::from_int(1), -2, Scalar::from_int(2));
    sim.add_body(body_at(1.0, 0.0, 0.0, 3.0, -1.5, "A"));
    sim.add_body(body_at(50.0, 4.0, 4.0, 0.25, 0.0, "B"));
    let d = sim.derivative();
    assert_eq!(d.buf[0], 6 * SCALE);
    assert_eq!(d.buf[1], -3 * SCALE);
    assert_eq!(d.buf[4], SCALE / 2);
    assert_eq!(d.buf[5], 0);
}

#[test]
fn two_body_acceleration_magnitude() {
    // grav * m2 / d^2 with grav 1, m2 1, d 10: 0.01, directed from the
    // heavy body toward the light one.
    let sim = two_body_state();
    let d = sim.derivative();
    let ax = raw_f64(d.buf[2]);
    let ay = raw_f64(d.buf[3]);
    assert!((ax - 0.01).abs() < 1e-6, "ax = {ax}");
    assert!(ay.abs() < 1e-9);
    // And the reaction on the light body: 0.1 toward the heavy one.
    let bx = raw_f64(d.buf[6]);
    assert!((bx + 0.1).abs() < 1e-6, "bx = {bx}");
}

#[test]
fn suppression_removes_exactly_the_pair_term() {
    let mut sim = SimState::new(Scalar::from_int(1), -2, Scalar::one());
    sim.add_body(body_at(10.0, 0.0, 0.0, 0.0, 0.5, "A"));
    sim.add_body(body_at(1.0, 10.0, 0.0, 0.0, -0.25, "B"));
    sim.add_body(body_at(2.0, 0.0, 7.0, 0.125, 0.0, "C"));
    let before = sim.derivative();
    sim.suppress(0, 1);
    assert!(sim.is_off(0, 1));
    assert!(sim.is_off(1, 0));
    assert!(!sim.is_off(0, 2));
    let after = sim.derivative();
    // Body C is untouched, bit for bit.
    for k in 8..12 {
        assert_eq!(before.buf[k], after.buf[k]);
    }
    // Velocity slots of A and B are untouched.
    for k in [0, 1, 4, 5] {
        assert_eq!(before.buf[k], after.buf[k]);
    }
    // The accelerations of A and B lost the mutual pull: A lost +0.01
    // toward B, B lost -0.1 toward A (within the grid's rounding).
    let da = raw_f64(before.buf[2]) - raw_f64(after.buf[2]);
    let db = raw_f64(before.buf[6]) - raw_f64(after.buf[6]);
    assert!((da - 0.01).abs() < 1e-6, "da = {da}");
    assert!((db + 0.1).abs() < 1e-6, "db = {db}");
}

#[test]
fn suppression_is_a_set() {
    let mut sim = SimState::new(Scalar::from_int(1), -2, Scalar::one());
    sim.add_body(body_at(10.0, 0.0, 0.0, 0.0, 0.0, "Heavy"));
    sim.add_body(body_at(1.0, 10.0, 0.0, 0.0, 0.0, "Light"));
    sim.add_body(body_at(1.0, 0.0, 10.0, 0.0, 0.0, "Third"));
    sim.suppress(0, 1);
    assert_eq!(sim.turn_off.len(), 1);
    // Repeating the pair, in either order and under either name, is a
    // set insertion: nothing changes.
    sim.suppress(0, 1);
    assert_eq!(sim.turn_off.len(), 1);
    sim.suppress(1, 0);
    assert_eq!(sim.turn_off.len(), 1);
    sim.turn_off("Heavy", "Light");
    assert_eq!(sim.turn_off.len(), 1);
    sim.turn_off("Light", "Heavy");
    assert_eq!(sim.turn_off.len(), 1);
    // A new pair still gets through.
    sim.suppress(0, 2);
    assert_eq!(sim.turn_off.len(), 2);
    assert!(sim.is_off(0, 1) && sim.is_off(0, 2) && !sim.is_off(1, 2));
}

#[test]
fn turn_off_by_name() {
    let mut sim = two_body_state();
    sim.turn_off("Heavy", "Light");
    assert!(sim.is_off(0, 1));
    let mut sim2 = two_body_state();
    sim2.turn_off("Heavy", "NoSuchBody");
    assert!(!sim2.is_off(0, 1));
}

#[test]
fn body_lookup_by_name() {
    let sim = two_body_state();
    assert_eq!(sim.body_by_name("Heavy"), Some(0));
    assert_eq!(sim.body_by_name("Light"), Some(1));
    assert_eq!(sim.body_by_name("heavy"), None);
    assert_eq!(sim.body_by_name(""), None);
}

#[test]
fn momentum_correction_zeroes_total_momentum() {
    let mut sim = SimState::new(Scalar::from_int(1), -2, Scalar::one());
    sim.add_body(body_at(3.0, 0.0, 0.0, 2.0, -1.0, "A"));
    sim.add_body(body_at(5.0, 4.0, 1.0, -0.5, 0.75, "B"));
    sim.add_body(body_at(1.5, -2.0, 3.0, 1.25, 4.0, "C"));
    sim.adjust_for_center_of_mass();
    let mut px = 0.0;
    let mut py = 0.0;
    for b in sim.bodies() {
        px += fx(b.mass) * fx(b.vel.x);
        py += fx(b.mass) * fx(b.vel.y);
    }
    assert!(px.abs() < 1e-6, "px = {px}");
    assert!(py.abs() < 1e-6, "py = {py}");
}

#[test]
fn integrator_is_exact_on_constant_derivative() {
    // With no gravity the derivative never changes: one step of size 6
    // must move the body by exactly velocity * 6 on the grid.
    let mut sim = SimState::new(Scalar::zero(), -2, Scalar::one());
    sim.add_body(body_at(1.0, 0.0, 0.0, 1.0, -2.0, "A"));
    let integrator = RK4Integrator::new(Scalar::from_int(10));
    integrator.propagate_in_place(&mut sim, Scalar::from_int(6));
    let b = sim.get_body(0);
    assert_eq!(b.pos.x, Scalar::from_int(6));
    assert_eq!(b.pos.y, Scalar::from_int(-12));
    assert_eq!(b.vel.x, Scalar::from_int(1));
    assert_eq!(b.vel.y, Scalar::from_int(-2));
}

#[test]
fn integrator_substepping_on_constant_derivative() {
    // The same move cut into four sub-steps of 1.5 lands on the same
    // point: the derivative is constant and, with each sub-step's raw
    // size divisible by six, every division is exact on the grid.
    let mut sim = SimState::new(Scalar::zero(), -2, Scalar::one());
    sim.add_body(body_at(1.0, 0.0, 0.0, 1.0, -2.0, "A"));
    let integrator = RK4Integrator::new(Scalar::from_ratio(3, 2));
    integrator.propagate_in_place(&mut sim, Scalar::from_int(6));
    let b = sim.get_body(0);
    assert_eq!(b.pos.x, Scalar::from_int(6));
    assert_eq!(b.pos.y, Scalar::from_int(-12));
}

#[test]
fn derivative_vector_algebra() {
    let sim = two_body_state();
    let d1 = sim.derivative();
    let d2 = sim.derivative();
    let sum = d1.add(d2);
    let d3 = sim.derivative();
    for k in 0..8 {
        assert_eq!(sum.buf[k], 2 * d3.buf[k]);
    }
    let halved = sum.div(Scalar::from_int(2));
    for k in 0..8 {
        assert_eq!(halved.buf[k], d3.buf[k]);
    }
    let negated = sim.derivative().neg();
    for k in 0..8 {
        assert_eq!(negated.buf[k], -d3.buf[k]);
    }
    let diff = sim.derivative().sub(sim.derivative());
    let mag = diff.abs();
    assert_eq!(mag, Scalar::zero());
    let mag3 = sim.derivative().abs();
    assert!(fx(mag3) > 0.0);
}

#[test]
fn coincident_bodies_stay_finite() {
    // Two bodies at the same point: the division-by-zero policy clamps
    // instead of crashing, and the derivative stays representable.
    let mut sim = SimState::new(Scalar::from_int(1), -2, Scalar::one());
    sim.add_body(body_at(1.0, 2.0, 2.0, 0.0, 0.0, "A"));
    sim.add_body(body_at(1.0, 2.0, 2.0, 0.0, 0.0, "B"));
    let d = sim.derivative();
    assert_eq!(d.buf.len(), 8);
}

#[test]
fn empty_system() {
    let mut sim = SimState::new(Scalar::from_int(1), -2, Scalar::one());
    let d = sim.derivative();
    assert_eq!(d.buf.len(), 0);
    sim.adjust_for_center_of_mass();
    assert_eq!(sim.bodies().len(), 0);
}

#[test]
fn snapshot_is_independent_and_equal() {
    let sim = two_body_state();
    let snap = sim.snapshot();
    assert_eq!(snap.bodies().len(), 2);
    for k in 0..2 {
        let a = sim.get_body(k);
        let b = snap.get_body(k);
        assert_eq!(a.mass, b.mass);
        assert_eq!(a.pos, b.pos);
        assert_eq!(a.vel, b.vel);
        assert_eq!(a.name, b.name);
    }
}

#[test]
fn driver_throttles_by_wall_clock() {
    let sim = two_body_state();
    // Frame interval 1: steps of 0.4 emit on every third iteration.
    let mut driver = Driver::new(sim, Scalar::from_int(1), Scalar::from_int(1));
    let step = Scalar::from_ratio(2, 5);
    let mut emitted = Vec::new();
    for _ in 0..9 {
        emitted.push(driver.step(step).is_some());
    }
    assert_eq!(
        emitted,
        vec![false, false, true, false, false, true, false, false, true]
    );
}

#[test]
fn driver_run_is_deterministic() {
    let steps: Vec<Scalar> = vec![
        Scalar::from_ratio(1, 10),
        Scalar::from_ratio(7, 10),
        Scalar::from_ratio(2, 10),
        Scalar::from_ratio(9, 10),
    ];
    let mut d1 = Driver::new(two_body_state(), Scalar::from_ratio(1, 10), Scalar::from_ratio(1, 2));
    let mut d2 = Driver::new(two_body_state(), Scalar::from_ratio(1, 10), Scalar::from_ratio(1, 2));
    let s1 = d1.run(&steps);
    let s2 = d2.run(&steps);
    assert_eq!(s1.len(), s2.len());
    assert!(!s1.is_empty());
    for (a, b) in s1.iter().zip(s2.iter()) {
        for k in 0..a.bodies().len() {
            assert_eq!(a.get_body(k).pos, b.get_body(k).pos);
            assert_eq!(a.get_body(k).vel, b.get_body(k).vel);
        }
    }
    for k in 0..2 {
        assert_eq!(d1.sim.get_body(k).pos, d2.sim.get_body(k).pos);
        assert_eq!(d1.sim.get_body(k).vel, d2.sim.get_body(k).vel);
    }
}

#[test]
fn seconds_conversion() {
    assert_eq!(seconds(1, 500_000_000).raw, SCALE + SCALE / 2);
    assert_eq!(seconds(0, 0).raw, 0);
    assert_eq!(seconds(2, 0).raw, 2 * SCALE);
}

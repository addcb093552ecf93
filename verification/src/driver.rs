//! The simulation driver.
//!
//! The driver owns the state and advances it in soft real time: each
//! iteration is told how much wall-clock time passed, hands that to the
//! integrator as the step size, and decides — by a wall-clock throttle
//! with a configurable frame interval — whether to emit an independent
//! snapshot of the state for a consumer.  Everything here is a pure
//! function of the state and the elapsed-time sequence; the clock, the
//! thread and the channel live outside the library.
use vstd::prelude::*;

use crate::body::BodyView;
use crate::integrator::{rk4_advance, Integrable, RK4Integrator};
use crate::scalar::{fx_add, sat_i64, Scalar, SCALE};
use crate::sim::{
    lemma_view_determined, names_of, params_of, sim_coords, sim_field, SimState, SimView,
};

verus! {

/// `v` with its integrated coordinates replaced by `c`; masses, names and
/// constants kept.
pub open spec fn with_coords(v: SimView, c: Seq<int>) -> SimView {
    SimView {
        bodies: Seq::new(
            v.bodies.len(),
            |i: int|
                BodyView {
                    mass: v.bodies[i].mass,
                    pos: (c[4 * i], c[4 * i + 1]),
                    vel: (c[4 * i + 2], c[4 * i + 3]),
                    name: v.bodies[i].name,
                },
        ),
        ..v
    }
}

/// Rebuilding a view from replacement coordinates of the right length
/// keeps the frozen content and installs exactly those coordinates.
pub proof fn lemma_with_coords(v: SimView, c: Seq<int>)
    requires
        c.len() == 4 * v.bodies.len(),
    ensures
        params_of(with_coords(v, c)) == params_of(v),
        names_of(with_coords(v, c).bodies) == names_of(v.bodies),
        sim_coords(with_coords(v, c).bodies) == c,
{
    let w = with_coords(v, c);
    assert(params_of(w).masses =~= params_of(v).masses);
    assert(params_of(w) =~= params_of(v));
    assert(names_of(w.bodies) =~= names_of(v.bodies));
    assert forall|k: int| 0 <= k < 4 * v.bodies.len() implies sim_coords(w.bodies)[k] == c[k] by {
        vstd::arithmetic::div_mod::lemma_fundamental_div_mod(k, 4);
        let t = k / 4;
        crate::sim::lemma_coords_index(w.bodies, t);
    }
    assert(sim_coords(w.bodies) =~= c);
}

/// The state after one driver iteration of elapsed time `h`: the
/// Runge-Kutta advance of the coordinates under the state's own rule.
pub open spec fn sim_after_step(v: SimView, h: int, h_max: int) -> SimView {
    with_coords(v, rk4_advance(sim_field(params_of(v)), sim_coords(v.bodies), h, h_max))
}

/// Whether an iteration emits a snapshot: the wall-clock time accumulated
/// since the last emission exceeds the frame interval.
pub open spec fn emits(since: int, frame: int, h: int) -> bool {
    fx_add(since, h) > frame
}

/// The result of running the driver over a whole sequence of elapsed
/// times: final state, final throttle accumulator, emitted snapshots in
/// order.
pub open spec fn driver_run(
    v: SimView,
    h_max: int,
    frame: int,
    since: int,
    steps: Seq<int>,
) -> (SimView, int, Seq<SimView>)
    decreases steps.len(),
{
    if steps.len() == 0 {
        (v, since, Seq::<SimView>::empty())
    } else {
        let h = steps[0];
        let v2 = sim_after_step(v, h, h_max);
        let acc = fx_add(since, h);
        if acc > frame {
            let rest = driver_run(v2, h_max, frame, 0, steps.drop_first());
            (rest.0, rest.1, seq![v2] + rest.2)
        } else {
            let rest = driver_run(v2, h_max, frame, acc, steps.drop_first());
            (rest.0, rest.1, rest.2)
        }
    }
}

/// The views of a sequence of elapsed times.
pub open spec fn scalars_view(s: Seq<Scalar>) -> Seq<int> {
    s.map(|i: int, x: Scalar| x@)
}

/// The views of a sequence of snapshots.
pub open spec fn states_view(s: Seq<SimState>) -> Seq<SimView> {
    s.map(|i: int, x: SimState| x@)
}

/// The driver: the owned state, the integrator, and the wall-clock
/// snapshot throttle.
pub struct Driver {
    pub sim: SimState,
    pub integrator: RK4Integrator,
    pub frame_interval: Scalar,
    pub since_frame: Scalar,
}

impl Driver {
    /// A driver over `sim`, splitting steps at `h_max` and emitting at
    /// most one snapshot per `frame_interval` of elapsed time.
    pub fn new(sim: SimState, h_max: Scalar, frame_interval: Scalar) -> (r: Driver)
        ensures
            r.sim == sim,
            r.integrator.h_max == h_max,
            r.frame_interval == frame_interval,
            r.since_frame@ == 0,
    {
        Driver {
            sim,
            integrator: RK4Integrator::new(h_max),
            frame_interval,
            since_frame: Scalar::zero(),
        }
    }

    /// One driver iteration: advance by the elapsed time, then emit a
    /// snapshot if the throttle allows.
    pub fn step(&mut self, elapsed: Scalar) -> (snap: Option<SimState>)
        ensures
            final(self).sim@ == sim_after_step(
                old(self).sim@,
                elapsed@,
                old(self).integrator.h_max@,
            ),
            final(self).integrator == old(self).integrator,
            final(self).frame_interval == old(self).frame_interval,
            emits(old(self).since_frame@, old(self).frame_interval@, elapsed@) ==> (snap matches Some(
                s,
            ) && s@ == final(self).sim@ && final(self).since_frame@ == 0),
            !emits(old(self).since_frame@, old(self).frame_interval@, elapsed@) ==> (snap is None
                && final(self).since_frame@ == fx_add(old(self).since_frame@, elapsed@)),
    {
        self.integrator.propagate_in_place(&mut self.sim, elapsed);
        proof {
            let oldv = old(self).sim@;
            let c2 = rk4_advance(
                sim_field(params_of(oldv)),
                sim_coords(oldv.bodies),
                elapsed@,
                old(self).integrator.h_max@,
            );
            crate::integrator::lemma_rk4_advance_len(
                sim_field(params_of(oldv)),
                sim_coords(oldv.bodies),
                elapsed@,
                old(self).integrator.h_max@,
            );
            lemma_with_coords(oldv, c2);
            lemma_view_determined(self.sim@, sim_after_step(
                oldv,
                elapsed@,
                old(self).integrator.h_max@,
            ));
        }
        let acc = self.since_frame.add(elapsed);
        if acc.raw > self.frame_interval.raw {
            self.since_frame = Scalar { raw: 0 };
            Some(self.sim.snapshot())
        } else {
            self.since_frame = acc;
            None
        }
    }

    /// Run the driver over a whole sequence of elapsed times, collecting
    /// the snapshots it emits.  The result — final state and snapshots —
    /// is a pure function of the starting state and the step sequence.
    pub fn run(&mut self, steps: &Vec<Scalar>) -> (snaps: Vec<SimState>)
        ensures
            ({
                let r = driver_run(
                    old(self).sim@,
                    old(self).integrator.h_max@,
                    old(self).frame_interval@,
                    old(self).since_frame@,
                    scalars_view(steps@),
                );
                &&& final(self).sim@ == r.0
                &&& final(self).since_frame@ == r.1
                &&& states_view(snaps@) == r.2
                &&& final(self).integrator == old(self).integrator
                &&& final(self).frame_interval == old(self).frame_interval
            }),
    {
        let ghost full = driver_run(
            old(self).sim@,
            old(self).integrator.h_max@,
            old(self).frame_interval@,
            old(self).since_frame@,
            scalars_view(steps@),
        );
        let n = steps.len();
        let mut snaps: Vec<SimState> = Vec::new();
        let mut t: usize = 0;
        proof {
            assert(scalars_view(steps@).skip(0) =~= scalars_view(steps@));
            assert(states_view(snaps@) =~= Seq::<SimView>::empty());
        }
        while t < n
            invariant
                t <= n,
                n == steps@.len(),
                self.integrator == old(self).integrator,
                self.frame_interval == old(self).frame_interval,
                ({
                    let tail = driver_run(
                        self.sim@,
                        old(self).integrator.h_max@,
                        old(self).frame_interval@,
                        self.since_frame@,
                        scalars_view(steps@).skip(t as int),
                    );
                    full.0 == tail.0 && full.1 == tail.1 && full.2 == states_view(snaps@) + tail.2
                }),
            decreases n - t,
        {
            let ghost pre_steps = scalars_view(steps@).skip(t as int);
            proof {
                assert(pre_steps.len() > 0);
                assert(pre_steps[0] == steps@[t as int]@);
                assert(pre_steps.drop_first() =~= scalars_view(steps@).skip(t as int + 1));
            }
            let ghost pre_snaps = snaps@;
            let s = self.step(steps[t]);
            match s {
                Some(x) => {
                    snaps.push(x);
                    proof {
                        assert(states_view(snaps@) =~= states_view(pre_snaps).push(x@));
                        assert(states_view(pre_snaps).push(x@) + driver_run(
                            self.sim@,
                            old(self).integrator.h_max@,
                            old(self).frame_interval@,
                            self.since_frame@,
                            scalars_view(steps@).skip(t as int + 1),
                        ).2 =~= states_view(pre_snaps) + (seq![x@] + driver_run(
                            self.sim@,
                            old(self).integrator.h_max@,
                            old(self).frame_interval@,
                            self.since_frame@,
                            scalars_view(steps@).skip(t as int + 1),
                        ).2));
                    }
                },
                None => {},
            }
            t += 1;
        }
        proof {
            assert(scalars_view(steps@).skip(n as int) =~= Seq::<int>::empty());
            assert(full.2 =~= states_view(snaps@));
        }
        snaps
    }
}

/// The driver is deterministic: two runs from equal starting states over
/// equal elapsed-time sequences yield identical state sequences — the
/// same snapshots, the same final state, the same throttle accumulator.
pub proof fn lemma_run_deterministic(
    v1: SimView,
    v2: SimView,
    h_max: int,
    frame: int,
    since: int,
    steps1: Seq<int>,
    steps2: Seq<int>,
)
    requires
        v1 == v2,
        steps1 == steps2,
    ensures
        driver_run(v1, h_max, frame, since, steps1) == driver_run(v2, h_max, frame, since, steps2),
{
}

/// A wall-clock duration, given as whole seconds and nanoseconds, as a
/// fixed-point count of seconds.
pub fn seconds(secs: u64, nanos: u32) -> (r: Scalar)
    ensures
        r@ == sat_i64(secs * (SCALE as int) + (nanos * (SCALE as int)) / 1000000000),
{
    proof {
        assert(0 <= (secs as int) * (SCALE as int)
            <= 79228162514264337589248983040) by (nonlinear_arith)
            requires
                0 <= secs <= u64::MAX,
        ;
        assert(0 <= (nanos as int) * (SCALE as int) <= 18446744069414584320) by (nonlinear_arith)
            requires
                0 <= nanos <= u32::MAX,
        ;
        crate::scalar::lemma_euclid_div_bounds((nanos as int) * (SCALE as int), 1000000000);
    }
    let whole: i128 = (secs as i128) * (SCALE as i128);
    let frac: u128 = ((nanos as u128) * (SCALE as u128)) / 1000000000;
    Scalar { raw: crate::scalar::clamp_i128(whole + frac as i128) }
}

} // verus!

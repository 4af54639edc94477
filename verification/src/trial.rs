//! Scoring a recovery trajectory.
//!
//! One trial drops the robot on its back, runs a trajectory for a while and
//! reports what it did. The simulation itself happens elsewhere: [`Trial`]
//! holds everything that is carried from one step to the next, and turns
//! sensor readings into joint targets and, at the end, an [`Outcome`].
use crate::fixed::{
    cap, fmul, isqrt, law_product_is_near, law_root, lemma_isqrt_mono, lemma_round_div_exact,
    length_sq, norm_sq, pile, plus, root, sat, saturate, scaled, spec_max, spec_min, square,
    square_gap, ONE,
};
use crate::self_righting::{
    angles_in_limits, latch_mirror, law_hold_is_unbroken, law_slew, law_slew_step,
    law_targets_in_limits, leg_limit, lemma_upright_run, spec_latch, spec_slew, spec_swaps,
    spec_upright, spec_upright_after, upright_for, upright_run, Drive, LegTargets, Outcome,
    RecoveryParams, Slew, TiltEstimator, ARM_LIMIT, HOLD_S, STANCE, UPRIGHT_UP,
};
use crate::text::{chars_of, ends_with, put, spec_ends_with, text_of};
use vstd::prelude::*;

verus! {

/// What the simulation says about one joint.
#[derive(Clone, Copy, Debug, PartialEq, Eq, Structural)]
pub enum JointReading {
    /// The model has no such joint.
    Absent,
    /// The joint exists and has no reading.
    Silent,
    /// Its angle and its speed.
    At { q: i64, qd: i64 },
}

/// Readings in the order of [`LegTargets`].
pub type LegReadings = [[JointReading; 3]; 4];

/// Where the attitude of one step comes from.
#[derive(Clone, Copy, Debug)]
pub enum Attitude {
    /// The simulator's own pose: trunk +z in the world and gravity's y
    /// component in the trunk frame.
    Pose { up: i64, g_body_y: i64 },
    /// The accelerometer, when it has a reading.
    Imu { accel: Option<[i64; 3]> },
}

/// What one step asks of the joints.
#[derive(Clone, Copy, Debug)]
pub struct TrialCmd {
    /// Trunk +z as the controller believes it.
    pub up: i64,
    pub arm: i64,
    pub legs: LegTargets,
    pub handed_back: bool,
}

/// One row of a replay trace: time, root pose as `[x, y, z, qw, qx, qy, qz]`,
/// the twelve leg joints followed by the arm, the trunk +z the controller
/// believes, and whether the recovery has handed back to a normal stance.
pub type TraceRow = (i64, [i64; 7], [i64; 13], i64, bool);

impl JointReading {
    /// The angle, or `fallback` where there is none.
    pub open spec fn spec_q_or(self, fallback: int) -> int {
        match self {
            JointReading::At { q, .. } => q as int,
            _ => fallback,
        }
    }

    /// The speed, or 0 where there is none.
    pub open spec fn spec_qd(self) -> int {
        match self {
            JointReading::At { qd, .. } => qd as int,
            _ => 0,
        }
    }

    /// The square of the speed.
    pub open spec fn spec_qd_sq(self) -> int {
        self.spec_qd() * self.spec_qd()
    }

    pub fn q_or(&self, fallback: i64) -> (r: i64)
        ensures
            r == self.spec_q_or(fallback as int),
    {
        match self {
            JointReading::At { q, .. } => *q,
            _ => fallback,
        }
    }

    pub fn speed(&self) -> (r: i64)
        ensures
            r == self.spec_qd(),
    {
        match self {
            JointReading::At { qd, .. } => *qd,
            _ => 0,
        }
    }
}

/// A joint torque: a spring toward `q_star`, damping and a feedforward.
pub open spec fn spec_pd(kp: int, kd: int, q_star: int, q: int, qd: int, ff: int) -> int {
    sat(fmul(kp, q_star - q) - fmul(kd, qd) + ff)
}

pub fn pd_torque(kp: i64, kd: i64, q_star: i64, q: i64, qd: i64, ff: i64) -> (r: i64)
    ensures
        r == spec_pd(kp as int, kd as int, q_star as int, q as int, qd as int, ff as int),
{
    let spring: i128 = scaled(kp, q_star as i128 - q as i128);
    let damper: i128 = scaled(kd, qd as i128);
    saturate(spring - damper + ff as i128)
}

/// The legs, in order.
pub open spec fn spec_leg_name(leg: int) -> Seq<char> {
    if leg == 0 {
        "FL"@
    } else if leg == 1 {
        "FR"@
    } else if leg == 2 {
        "RL"@
    } else {
        "RR"@
    }
}

/// What the names of a leg's joints end in, in order.
pub open spec fn spec_joint_suffix(k: int) -> Seq<char> {
    if k == 0 {
        "_hip_joint"@
    } else if k == 1 {
        "_thigh_joint"@
    } else {
        "_calf_joint"@
    }
}

/// The name of joint `k` of leg `leg`.
pub fn leg_joint_name(leg: usize, k: usize) -> (r: String)
    requires
        leg < 4,
        k < 3,
    ensures
        r@ == spec_leg_name(leg as int) + spec_joint_suffix(k as int),
{
    let mut out = chars_of(
        if leg == 0 {
            "FL"
        } else if leg == 1 {
            "FR"
        } else if leg == 2 {
            "RL"
        } else {
            "RR"
        },
    );
    put(
        &mut out,
        if k == 0 {
            "_hip_joint"
        } else if k == 1 {
            "_thigh_joint"
        } else {
            "_calf_joint"
        },
    );
    text_of(&out)
}

/// Whether a joint is one of a leg's.
pub fn is_leg_joint(name: &str) -> (r: bool)
    ensures
        r == (exists|k: int| 0 <= k < 3 && spec_ends_with(name@, #[trigger] spec_joint_suffix(k))),
{
    let n = chars_of(name);
    let r = ends_with(&n, "_hip_joint") || ends_with(&n, "_thigh_joint") || ends_with(
        &n,
        "_calf_joint",
    );
    assert(spec_joint_suffix(0) == "_hip_joint"@);
    assert(spec_joint_suffix(1) == "_thigh_joint"@);
    assert(spec_joint_suffix(2) == "_calf_joint"@);
    r
}

/// How many whole steps of `dt` fit into half a second.
pub open spec fn spec_settle_steps(dt: int) -> int {
    500_000_000int / dt
}

/// How many steps half a second of settling takes. The robot is dropped
/// before anything is driven, so that a trajectory is scored on its own
/// motion and not on the landing.
pub fn settle_steps(dt: i64) -> (r: u32)
    ensures
        dt > 0 ==> r == spec_settle_steps(dt as int),
        dt == 0 ==> r == u32::MAX,
        dt < 0 ==> r == 0,
{
    if dt < 0 {
        0
    } else if dt == 0 {
        u32::MAX
    } else {
        let n: i64 = 500_000_000 / dt;
        proof {
            assert(0 <= n <= 500_000_000) by (nonlinear_arith)
                requires
                    n == 500_000_000int / dt as int,
                    dt >= 1,
            ;
        }
        n as u32
    }
}

/// The angle a joint starts a trial at.
pub open spec fn spec_spawn(reading: JointReading, k: int) -> int {
    match reading {
        JointReading::Absent => 0,
        JointReading::Silent => STANCE[k] as int,
        JointReading::At { q, .. } => q as int,
    }
}

fn spawn_angle(reading: &JointReading, stance: i64) -> (r: i64)
    ensures
        r == (match *reading {
            JointReading::Absent => 0,
            JointReading::Silent => stance,
            JointReading::At { q, .. } => q,
        }),
{
    match reading {
        JointReading::Absent => 0,
        JointReading::Silent => stance,
        JointReading::At { q, .. } => *q,
    }
}

fn spawn_leg(leg: &[JointReading; 3]) -> (r: [i64; 3])
    ensures
        forall|k: int| 0 <= k < 3 ==> #[trigger] r[k] == spec_spawn(leg[k], k),
{
    [
        spawn_angle(&leg[0], STANCE[0]),
        spawn_angle(&leg[1], STANCE[1]),
        spawn_angle(&leg[2], STANCE[2]),
    ]
}

/// The squared speeds of one leg's joints, summed.
pub open spec fn leg_qd_sq(leg: [JointReading; 3]) -> int {
    leg[0].spec_qd_sq() + leg[1].spec_qd_sq() + leg[2].spec_qd_sq()
}

/// The squared speeds of all twelve leg joints, summed.
pub open spec fn total_qd_sq(legs: LegReadings) -> int {
    leg_qd_sq(legs[0]) + leg_qd_sq(legs[1]) + leg_qd_sq(legs[2]) + leg_qd_sq(legs[3])
}

fn leg_speeds(leg: &[JointReading; 3], peak_sq: u128) -> (r: (u128, u128))
    ensures
        r.0 == leg_qd_sq(*leg),
        r.1 >= peak_sq,
        r.0 <= 3 * r.1,
        forall|k: int| 0 <= k < 3 ==> r.1 >= #[trigger] leg[k].spec_qd_sq(),
        r.1 == peak_sq || exists|k: int|
            0 <= k < 3 && r.1 == #[trigger] leg[k].spec_qd_sq(),
{
    let a: u128 = square(leg[0].speed());
    let b: u128 = square(leg[1].speed());
    let c: u128 = square(leg[2].speed());
    let mut peak: u128 = peak_sq;
    if a > peak {
        peak = a;
    }
    if b > peak {
        peak = b;
    }
    if c > peak {
        peak = c;
    }
    assert(a == leg[0].spec_qd_sq());
    assert(b == leg[1].spec_qd_sq());
    assert(c == leg[2].spec_qd_sq());
    (a + b + c, peak)
}

/// A mean of terms no larger than `peak` is no larger than `peak`.
proof fn lemma_mean(sum: int, n: int, peak: int)
    requires
        0 <= sum <= n * peak,
        n >= 0,
        peak >= 0,
    ensures
        0 <= sum / spec_max(n, 1) <= peak,
{
    let d = spec_max(n, 1);
    assert(0 <= sum / d <= peak) by (nonlinear_arith)
        requires
            0 <= sum <= d * peak,
            d >= 1,
    ;
}

/// One trial in progress.
#[derive(Clone, Copy, Debug)]
pub struct Trial {
    pub params: RecoveryParams,
    /// The attitude filter, where the drive is entitled to nothing better.
    pub tilt: Option<TiltEstimator>,
    pub slew: Slew,
    /// How long the trunk has been upright without a break.
    pub upright_s: i64,
    /// Whether the robot has been handed back to a normal stance.
    pub handed_back: bool,
    /// Which side is down, decided once and held.
    pub mirror: Option<bool>,
    /// Time into the trial.
    pub t: i64,
    pub peak_up: i64,
    pub t_right_s: Option<i64>,
    /// Squared peak of the trunk's angular speed.
    pub peak_omega_sq: u128,
    /// Squared peak of the joint speeds.
    pub peak_qd_sq: u128,
    /// Squared trunk angular speeds, summed over the steps.
    pub sum_omega_sq: u128,
    /// Squared joint speeds, summed over the steps and the twelve joints.
    pub sum_qd_sq: u128,
    pub n_samp: u64,
}

impl Trial {
    /// The sums are made of terms no larger than the peaks, and there is a
    /// first time upright exactly where the peak was upright.
    pub open spec fn wf(self) -> bool {
        &&& self.t_right_s is None <==> self.peak_up <= UPRIGHT_UP
        &&& self.tilt is Some ==> self.tilt->0.wf()
        &&& self.n_samp < u64::MAX ==> self.sum_omega_sq <= self.n_samp * self.peak_omega_sq
        &&& self.n_samp < u64::MAX ==> self.sum_qd_sq <= 12 * self.n_samp * self.peak_qd_sq
    }

    /// Nothing has happened yet.
    pub open spec fn fresh(self) -> bool {
        &&& self.upright_s == 0
        &&& !self.handed_back
        &&& self.mirror is None
        &&& self.t == 0
        &&& self.peak_up == -1_000_000_000
        &&& self.t_right_s is None
        &&& self.peak_omega_sq == 0
        &&& self.peak_qd_sq == 0
        &&& self.sum_omega_sq == 0
        &&& self.sum_qd_sq == 0
        &&& self.n_samp == 0
    }

    /// A trial of `params` for a robot whose joints read `legs` and `arm`.
    /// Targets start from where the joints are, so the first command
    /// continues the current pose.
    pub fn new(params: RecoveryParams, drive: Drive, legs: &LegReadings, arm: JointReading) -> (r:
        Self)
        ensures
            r.wf(),
            r.fresh(),
            r.params == params,
            r.slew.max_rate_rad_s == params.max_rate_rad_s,
            r.slew.arm == arm.spec_q_or(ARM_LIMIT.1 as int),
            forall|l: int, k: int|
                0 <= l < 4 && 0 <= k < 3 ==> #[trigger] r.slew.legs[l][k] == spec_spawn(
                    legs[l][k],
                    k,
                ),
            drive is Position <==> r.tilt is None,
            r.tilt is Some ==> r.tilt->0 == TiltEstimator::spec_new(drive->tilt_tau_s),
    {
        let tilt = match drive {
            Drive::Position => None,
            Drive::TorqueAhrs { tilt_tau_s, .. } => Some(TiltEstimator::new(tilt_tau_s)),
        };
        let spawn: LegTargets = [
            spawn_leg(&legs[0]),
            spawn_leg(&legs[1]),
            spawn_leg(&legs[2]),
            spawn_leg(&legs[3]),
        ];
        Trial {
            params,
            tilt,
            slew: Slew::new(params.max_rate_rad_s, arm.q_or(ARM_LIMIT.1), spawn),
            upright_s: 0,
            handed_back: false,
            mirror: None,
            t: 0,
            peak_up: -1_000_000_000,
            t_right_s: None,
            peak_omega_sq: 0,
            peak_qd_sq: 0,
            sum_omega_sq: 0,
            sum_qd_sq: 0,
            n_samp: 0,
        }
    }

    /// Whether the trial has time left.
    pub fn running(&self, horizon_s: i64) -> (r: bool)
        ensures
            r == (self.t < horizon_s),
    {
        self.t < horizon_s
    }

    /// The attitude filter after this step's reading.
    pub open spec fn spec_tilt(self, att: Attitude, dt: int) -> Option<TiltEstimator> {
        match (self.tilt, att) {
            (Some(f), Attitude::Imu { accel: Some(a) }) => Some(f.spec_update(a, dt)),
            _ => self.tilt,
        }
    }

    /// Trunk +z as the controller sees it. A trial with a filter believes
    /// the filter; one without believes the pose it is given.
    pub open spec fn spec_up(self, att: Attitude, dt: int) -> int {
        match (self.spec_tilt(att, dt), att) {
            (Some(f), _) => f.spec_up(),
            (None, Attitude::Pose { up, .. }) => up as int,
            _ => 0,
        }
    }

    /// Gravity's y component as the controller sees it.
    pub open spec fn spec_g_body_y(self, att: Attitude, dt: int) -> int {
        match (self.spec_tilt(att, dt), att) {
            (Some(f), _) => f.g[1] as int,
            (None, Attitude::Pose { g_body_y, .. }) => g_body_y as int,
            _ => 0,
        }
    }

    /// Whether the robot is handed back by this step.
    pub open spec fn spec_handed_back(self, att: Attitude, dt: int) -> bool {
        self.handed_back || spec_upright(self.upright_s as int, self.spec_up(att, dt), dt) > HOLD_S
    }

    /// The ceiling on how fast angles move in this step.
    pub open spec fn spec_rate(self, att: Attitude, dt: int) -> i64 {
        if self.spec_handed_back(att, dt) && !self.handed_back {
            self.params.stand_rate_rad_s
        } else {
            self.slew.max_rate_rad_s
        }
    }

    /// How far any angle moves at most in this step.
    pub open spec fn spec_step(self, att: Attitude, dt: int) -> int {
        spec_max(sat(fmul(self.spec_rate(att, dt) as int, dt)), 0)
    }

    /// Where this step wants the arm.
    pub open spec fn spec_want_arm(self, att: Attitude, dt: int) -> int {
        if self.spec_handed_back(att, dt) {
            ARM_LIMIT.1 as int
        } else {
            self.params.spec_arm(self.t as int, self.spec_up(att, dt))
        }
    }

    /// Where this step wants joint `k` of leg `l`.
    pub open spec fn spec_want_leg(self, att: Attitude, dt: int, l: int, k: int) -> int {
        if self.spec_handed_back(att, dt) {
            STANCE[k] as int
        } else {
            let g = self.spec_g_body_y(att, dt);
            self.params.facing(spec_swaps(spec_latch(self.mirror, g))).spec_leg(
                self.t as int,
                self.spec_up(att, dt),
                g,
                l,
                k,
            )
        }
    }

    /// Take one attitude reading and decide where the joints should go.
    ///
    /// After one second of unbroken upright attitude the recovery is over
    /// and the robot is handed back to a normal stance, at that stance's own
    /// rate. Scoring without the hand-back would let a trajectory win by
    /// parking in whatever crouch happens to be stable.
    pub fn tick(&mut self, att: Attitude, dt: i64) -> (r: TrialCmd)
        requires
            old(self).wf(),
            old(self).tilt is None ==> att is Pose,
        ensures
            final(self).wf(),
            final(self).tilt == old(self).spec_tilt(att, dt as int),
            final(self).upright_s == spec_upright(
                old(self).upright_s as int,
                old(self).spec_up(att, dt as int),
                dt as int,
            ),
            final(self).handed_back == old(self).spec_handed_back(att, dt as int),
            final(self).mirror == spec_latch(
                old(self).mirror,
                old(self).spec_g_body_y(att, dt as int),
            ),
            final(self).slew.max_rate_rad_s == old(self).spec_rate(att, dt as int),
            final(self).slew.arm == spec_slew(
                old(self).slew.arm as int,
                old(self).spec_want_arm(att, dt as int),
                old(self).spec_step(att, dt as int),
            ),
            forall|l: int, k: int|
                0 <= l < 4 && 0 <= k < 3 ==> #[trigger] final(self).slew.legs[l][k] == spec_slew(
                    old(self).slew.legs[l][k] as int,
                    old(self).spec_want_leg(att, dt as int, l, k),
                    old(self).spec_step(att, dt as int),
                ),
            r.up == old(self).spec_up(att, dt as int),
            r.arm == final(self).slew.arm,
            r.legs == final(self).slew.legs,
            r.handed_back == final(self).handed_back,
            final(self).same_record(*old(self)),
    {
        let (up, g): (i64, i64) = match self.tilt {
            Some(f0) => {
                let mut f = f0;
                if let Attitude::Imu { accel: Some(a) } = att {
                    f.update(&a, dt);
                }
                self.tilt = Some(f);
                (f.up(), f.g_body_y())
            },
            None => match att {
                Attitude::Pose { up, g_body_y } => (up, g_body_y),
                Attitude::Imu { .. } => (0, 0),
            },
        };
        self.upright_s = upright_for(self.upright_s, up, dt);
        if !self.handed_back && self.upright_s > HOLD_S {
            self.handed_back = true;
            self.slew.max_rate_rad_s = self.params.stand_rate_rad_s;
        }
        self.mirror = latch_mirror(self.mirror, g);
        let (want_arm, want_legs): (i64, LegTargets) = if self.handed_back {
            (ARM_LIMIT.1, [STANCE, STANCE, STANCE, STANCE])
        } else {
            let swap = match self.mirror {
                Some(m) => m,
                None => false,
            };
            self.params.targets_mirrored(self.t, up, g, swap)
        };
        assert forall|l: int, k: int| 0 <= l < 4 && 0 <= k < 3 implies #[trigger] want_legs[l][k]
            == old(self).spec_want_leg(att, dt as int, l, k) by {}
        let (arm, legs) = self.slew.apply(dt, want_arm, &want_legs);
        TrialCmd { up, arm, legs, handed_back: self.handed_back }
    }

    /// What has been measured so far is the same.
    pub open spec fn same_record(self, o: Self) -> bool {
        &&& self.params == o.params
        &&& self.t == o.t
        &&& self.peak_up == o.peak_up
        &&& self.t_right_s == o.t_right_s
        &&& self.peak_omega_sq == o.peak_omega_sq
        &&& self.peak_qd_sq == o.peak_qd_sq
        &&& self.sum_omega_sq == o.sum_omega_sq
        &&& self.sum_qd_sq == o.sum_qd_sq
        &&& self.n_samp == o.n_samp
    }

    /// What steers the joints is the same.
    pub open spec fn same_control(self, o: Self) -> bool {
        &&& self.params == o.params
        &&& self.tilt == o.tilt
        &&& self.slew == o.slew
        &&& self.upright_s == o.upright_s
        &&& self.handed_back == o.handed_back
        &&& self.mirror == o.mirror
    }

    /// The time after a step of `dt`.
    pub open spec fn spec_t(self, dt: int) -> int {
        sat(self.t + dt)
    }

    /// The squared peak of the trunk's angular speed after a reading.
    pub open spec fn spec_peak_omega(self, omega: Option<[i64; 3]>) -> int {
        match omega {
            Some(w) => spec_max(self.peak_omega_sq as int, norm_sq(w)),
            None => self.peak_omega_sq as int,
        }
    }

    /// The squared angular speeds summed, after a reading.
    pub open spec fn spec_sum_omega(self, omega: Option<[i64; 3]>) -> int {
        match omega {
            Some(w) => cap(self.sum_omega_sq + norm_sq(w)),
            None => self.sum_omega_sq as int,
        }
    }

    /// The squared joint speeds summed, after these readings.
    pub open spec fn spec_sum_qd(self, legs: LegReadings) -> int {
        cap(self.sum_qd_sq + total_qd_sq(legs))
    }

    /// The highest the trunk's +z has been.
    pub open spec fn spec_peak_up(self, up: i64) -> int {
        spec_max(self.peak_up as int, up as int)
    }

    /// The first time upright, after a step of `dt` that ends at `up`.
    pub open spec fn spec_t_right(self, dt: int, up: i64) -> Option<i64> {
        if self.t_right_s is None && up > UPRIGHT_UP {
            Some(self.spec_t(dt) as i64)
        } else {
            self.t_right_s
        }
    }

    /// Record what the simulation did with a step of `dt`: the trunk's
    /// angular velocity, the joint speeds, and its true +z.
    pub fn observe(&mut self, dt: i64, omega: Option<[i64; 3]>, legs: &LegReadings, up: i64)
        requires
            old(self).wf(),
        ensures
            final(self).wf(),
            final(self).same_control(*old(self)),
            final(self).t == old(self).spec_t(dt as int),
            final(self).n_samp == spec_min(old(self).n_samp + 1, u64::MAX as int),
            final(self).peak_omega_sq == old(self).spec_peak_omega(omega),
            final(self).sum_omega_sq == old(self).spec_sum_omega(omega),
            final(self).sum_qd_sq == old(self).spec_sum_qd(*legs),
            final(self).peak_qd_sq >= old(self).peak_qd_sq,
            forall|l: int, k: int|
                0 <= l < 4 && 0 <= k < 3 ==> final(self).peak_qd_sq >= #[trigger] legs[l][k].spec_qd_sq(),
            final(self).peak_qd_sq == old(self).peak_qd_sq || exists|l: int, k: int|
                0 <= l < 4 && 0 <= k < 3 && final(self).peak_qd_sq
                    == #[trigger] legs[l][k].spec_qd_sq(),
            final(self).peak_up == old(self).spec_peak_up(up),
            final(self).t_right_s == old(self).spec_t_right(dt as int, up),
    {
        self.t = plus(self.t, dt);
        let ghost n0 = self.n_samp as int;
        let ghost p0 = self.peak_omega_sq as int;
        if let Some(w) = omega {
            let w2: u128 = length_sq(&w);
            if w2 > self.peak_omega_sq {
                self.peak_omega_sq = w2;
            }
            self.sum_omega_sq = pile(self.sum_omega_sq, w2);
        }
        let (s0, k0): (u128, u128) = leg_speeds(&legs[0], self.peak_qd_sq);
        let (s1, k1): (u128, u128) = leg_speeds(&legs[1], k0);
        let (s2, k2): (u128, u128) = leg_speeds(&legs[2], k1);
        let (s3, k3): (u128, u128) = leg_speeds(&legs[3], k2);
        proof {
            let q0 = self.peak_qd_sq as int;
            assert((n0 + 1) * self.peak_omega_sq >= n0 * p0 + self.peak_omega_sq)
                by (nonlinear_arith)
                requires
                    n0 >= 0,
                    self.peak_omega_sq >= p0,
            ;
            assert(12 * (n0 + 1) * k3 >= 12 * n0 * q0 + 12 * k3) by (nonlinear_arith)
                requires
                    n0 >= 0,
                    k3 >= q0,
            ;
            assert((n0 + 1) * self.peak_omega_sq >= 0) by (nonlinear_arith)
                requires
                    n0 >= 0,
                    self.peak_omega_sq >= 0,
            ;
            assert(s0 <= 3 * k3 && s1 <= 3 * k3 && s2 <= 3 * k3 && s3 <= 3 * k3);
        }
        self.peak_qd_sq = k3;
        self.sum_qd_sq = pile(pile(pile(pile(self.sum_qd_sq, s0), s1), s2), s3);
        if self.n_samp < u64::MAX {
            self.n_samp = self.n_samp + 1;
        }
        if up > self.peak_up {
            self.peak_up = up;
        }
        if up > UPRIGHT_UP && self.t_right_s.is_none() {
            self.t_right_s = Some(self.t);
        }
    }

    /// How far the robot travelled in xy, from `start` to `end`.
    pub open spec fn spec_travel(start: [i64; 2], end: [i64; 2]) -> int {
        sat(
            isqrt(
                cap(
                    (end[0] - start[0]) * (end[0] - start[0]) + (end[1] - start[1]) * (end[1]
                        - start[1]),
                ),
            ),
        )
    }

    /// The root mean square of the trunk's angular speed.
    pub open spec fn spec_rms_omega(self) -> int {
        sat(isqrt(self.sum_omega_sq as int / spec_max(self.n_samp as int, 1)))
    }

    /// The root mean square of the joint speeds, over the steps and the
    /// twelve joints.
    pub open spec fn spec_rms_joint(self) -> int {
        sat(isqrt(self.sum_qd_sq as int / (12 * spec_max(self.n_samp as int, 1))))
    }

    /// What the trial did, for a robot that ends it at `end` with its trunk
    /// +z at `final_up`.
    pub fn outcome(&self, final_up: i64, start: &[i64; 2], end: &[i64; 2]) -> (r: Outcome)
        ensures
            r.peak_up == self.peak_up,
            r.final_up == final_up,
            r.t_right_s == self.t_right_s,
            r.travel_m == Self::spec_travel(*start, *end),
            r.peak_omega_rad_s == sat(isqrt(self.peak_omega_sq as int)),
            r.peak_joint_rad_s == sat(isqrt(self.peak_qd_sq as int)),
            r.rms_omega_rad_s == self.spec_rms_omega(),
            r.rms_joint_rad_s == self.spec_rms_joint(),
            self.wf() ==> (r.t_right_s is None <==> r.peak_up <= UPRIGHT_UP),
            self.wf() && self.n_samp < u64::MAX ==> {
                &&& r.rms_omega_rad_s <= r.peak_omega_rad_s
                &&& r.rms_joint_rad_s <= r.peak_joint_rad_s
            },
    {
        let n: u128 = if self.n_samp == 0 {
            1
        } else {
            self.n_samp as u128
        };
        let mean_omega: u128 = self.sum_omega_sq / n;
        let mean_qd: u128 = self.sum_qd_sq / (12 * n);
        let travel_sq: u128 = pile(square_gap(end[0], start[0]), square_gap(end[1], start[1]));
        proof {
            if self.wf() && self.n_samp < u64::MAX {
                lemma_mean(self.sum_omega_sq as int, self.n_samp as int, self.peak_omega_sq as int);
                lemma_mean(self.sum_qd_sq as int, 12 * self.n_samp, self.peak_qd_sq as int);
                lemma_isqrt_mono(mean_omega as int, self.peak_omega_sq as int);
                lemma_isqrt_mono(mean_qd as int, self.peak_qd_sq as int);
            }
        }
        Outcome {
            peak_up: self.peak_up,
            final_up,
            t_right_s: self.t_right_s,
            travel_m: root(travel_sq),
            peak_omega_rad_s: root(self.peak_omega_sq),
            peak_joint_rad_s: root(self.peak_qd_sq),
            rms_omega_rad_s: root(mean_omega),
            rms_joint_rad_s: root(mean_qd),
        }
    }
}

/// A row is due `every` after the last.
pub open spec fn spec_trace_due(t_last: Option<i64>, t: i64, every: i64) -> bool {
    match t_last {
        Some(last) => t - last >= every - 1,
        None => true,
    }
}

/// Whether the next row of a replay trace is due, `every` after the last.
pub fn trace_due(t_last: Option<i64>, t: i64, every: i64) -> (r: bool)
    ensures
        r == spec_trace_due(t_last, t, every),
{
    match t_last {
        Some(last) => t as i128 - last as i128 >= every as i128 - 1,
        None => true,
    }
}

/// The trace row for a trial at this moment. Joints without a reading are
/// recorded at 0.
pub fn trace_row(
    trial: &Trial,
    root: [i64; 7],
    legs: &LegReadings,
    arm: &JointReading,
    cmd: &TrialCmd,
) -> (r: TraceRow)
    ensures
        r.0 == trial.t,
        r.1 == root,
        forall|l: int, k: int|
            0 <= l < 4 && 0 <= k < 3 ==> r.2[3 * l + k] == #[trigger] legs[l][k].spec_q_or(0),
        r.2[12] == arm.spec_q_or(0),
        r.3 == cmd.up,
        r.4 == cmd.handed_back,
{
    let qs: [i64; 13] = [
        legs[0][0].q_or(0),
        legs[0][1].q_or(0),
        legs[0][2].q_or(0),
        legs[1][0].q_or(0),
        legs[1][1].q_or(0),
        legs[1][2].q_or(0),
        legs[2][0].q_or(0),
        legs[2][1].q_or(0),
        legs[2][2].q_or(0),
        legs[3][0].q_or(0),
        legs[3][1].q_or(0),
        legs[3][2].q_or(0),
        arm.q_or(0),
    ];
    (trial.t, root, qs, cmd.up, cmd.handed_back)
}

/// The torque for one joint under [`Drive::TorqueAhrs`], or nothing for a
/// joint the model does not have. A joint without a reading is taken to be
/// where it should be and at rest.
pub open spec fn spec_joint_torque(
    kp: int,
    kd: int,
    q_star: int,
    reading: JointReading,
    grav: int,
) -> Option<int> {
    match reading {
        JointReading::Absent => None,
        _ => Some(spec_pd(kp, kd, q_star, reading.spec_q_or(q_star), reading.spec_qd(), grav)),
    }
}

pub fn joint_torque(kp: i64, kd: i64, q_star: i64, reading: &JointReading, grav: i64) -> (r: Option<
    i64,
>)
    ensures
        match spec_joint_torque(kp as int, kd as int, q_star as int, *reading, grav as int) {
            Some(tau) => r is Some && r->0 == tau,
            None => r is None,
        },
{
    match reading {
        JointReading::Absent => None,
        _ => Some(pd_torque(kp, kd, q_star, reading.q_or(q_star), reading.speed(), grav)),
    }
}

/// A joint without a reading is given exactly its gravity torque.
pub proof fn law_silent_joint_gets_gravity(kp: int, kd: int, q_star: int, grav: i64)
    ensures
        spec_joint_torque(kp, kd, q_star, JointReading::Silent, grav as int) == Some(grav as int),
{
    assert(kp * (q_star - q_star) == 0 && kd * 0 == 0) by (nonlinear_arith);
    lemma_round_div_exact(0, ONE as int);
}

/// Handing back is final, and so is the side the robot was found lying on.
pub proof fn law_decisions_are_latched(s: Trial, att: Attitude, dt: int, side: bool)
    ensures
        s.handed_back ==> s.spec_handed_back(att, dt),
        s.mirror == Some(side) ==> spec_latch(s.mirror, s.spec_g_body_y(att, dt)) == Some(side),
{
}

/// One reading that is not upright restarts the wait, so a robot tumbling
/// through upright is not handed back.
pub proof fn law_tumbling_is_not_upright(s: Trial, att: Attitude, dt: int)
    requires
        s.spec_up(att, dt) <= UPRIGHT_UP,
        !s.handed_back,
    ensures
        spec_upright(s.upright_s as int, s.spec_up(att, dt), dt) == 0,
        !s.spec_handed_back(att, dt),
{
}

/// Once handed back, every joint heads for the normal stance whatever the
/// attitude, and no faster than the rate it was handed back at.
pub proof fn law_handed_back_stands(s: Trial, att: Attitude, dt: int, l: int, k: int)
    requires
        s.handed_back,
        0 <= k < 3,
    ensures
        s.spec_want_arm(att, dt) == ARM_LIMIT.1,
        s.spec_want_leg(att, dt, l, k) == STANCE[k],
        s.spec_rate(att, dt) == s.slew.max_rate_rad_s,
{
}

/// From inside the joint limits, a trajectory whose angles are inside them
/// never commands a joint to leave them: not while it rocks, not while it
/// finishes, and not while the robot is handed back.
pub proof fn law_trial_keeps_to_the_limits(s: Trial, att: Attitude, dt: int, l: int, k: int)
    requires
        angles_in_limits(s.params),
        0 <= l < 4,
        0 <= k < 3,
        ARM_LIMIT.0 <= s.slew.arm <= ARM_LIMIT.1,
        leg_limit(l, k).0 <= s.slew.legs[l][k] <= leg_limit(l, k).1,
    ensures
        ARM_LIMIT.0 <= spec_slew(
            s.slew.arm as int,
            s.spec_want_arm(att, dt),
            s.spec_step(att, dt),
        ) <= ARM_LIMIT.1,
        leg_limit(l, k).0 <= spec_slew(
            s.slew.legs[l][k] as int,
            s.spec_want_leg(att, dt, l, k),
            s.spec_step(att, dt),
        ) <= leg_limit(l, k).1,
{
    let g = s.spec_g_body_y(att, dt);
    let up = s.spec_up(att, dt);
    let mirror = spec_swaps(spec_latch(s.mirror, g));
    law_targets_in_limits(s.params, s.t as int, up, g, mirror, l, k);
    law_slew(s.slew.arm as int, s.spec_want_arm(att, dt), s.spec_step(att, dt));
    law_slew(
        s.slew.legs[l][k] as int,
        s.spec_want_leg(att, dt, l, k),
        s.spec_step(att, dt),
    );
}

/// The states of one trial, each as it is before a step of `dt`: what a step
/// decides is what [`Trial::tick`] decides, and nothing in between changes it.
pub open spec fn is_trial(states: Seq<Trial>, atts: Seq<Attitude>, dt: int) -> bool {
    &&& states.len() == atts.len() + 1
    &&& states[0].fresh()
    &&& forall|i: int|
        0 <= i < atts.len() ==> {
            let s = #[trigger] states[i];
            &&& states[i + 1].upright_s == spec_upright(
                s.upright_s as int,
                s.spec_up(atts[i], dt),
                dt,
            )
            &&& states[i + 1].handed_back == s.spec_handed_back(atts[i], dt)
        }
}

/// What the controller of a trial believes of the trunk's +z, step by step.
pub open spec fn believed(states: Seq<Trial>, atts: Seq<Attitude>, dt: int) -> Seq<int> {
    Seq::new(atts.len(), |i: int| states[i].spec_up(atts[i], dt))
}

proof fn lemma_upright_is_counted(states: Seq<Trial>, atts: Seq<Attitude>, dt: int, n: nat)
    requires
        is_trial(states, atts, dt),
        n <= atts.len(),
    ensures
        states[n as int].upright_s == spec_upright_after(believed(states, atts, dt), dt, n),
    decreases n,
{
    if n > 0 {
        lemma_upright_is_counted(states, atts, dt, (n - 1) as nat);
        let s = states[n - 1];
        assert(states[n - 1 + 1].upright_s == spec_upright(
            s.upright_s as int,
            s.spec_up(atts[n - 1], dt),
            dt,
        ));
    }
}

/// Over a whole trial the hand-back never goes away.
pub proof fn law_hand_back_stays(
    states: Seq<Trial>,
    atts: Seq<Attitude>,
    dt: int,
    i: int,
    j: int,
)
    requires
        is_trial(states, atts, dt),
        0 <= i <= j < states.len(),
        states[i].handed_back,
    ensures
        states[j].handed_back,
    decreases j - i,
{
    if i < j {
        law_hand_back_stays(states, atts, dt, i, j - 1);
        assert(states[j - 1 + 1].handed_back == states[j - 1].spec_handed_back(atts[j - 1], dt));
    }
}

/// The step of a trial that hands the robot back closes an unbroken run of
/// upright steps longer than the hold: it is upright itself, and so is every
/// step up to the length of the hold before it. One upright step mid-tumble is
/// not enough.
pub proof fn law_hand_back_needs_the_hold(
    states: Seq<Trial>,
    atts: Seq<Attitude>,
    dt: int,
    j: int,
)
    requires
        is_trial(states, atts, dt),
        dt >= 0,
        0 <= j < atts.len(),
        !states[j].handed_back,
        states[j + 1].handed_back,
    ensures
        (j + 1) * dt > HOLD_S,
        forall|i: int|
            0 <= i <= j && (j - i) * dt <= HOLD_S ==> (#[trigger] states[i]).spec_up(atts[i], dt)
                > UPRIGHT_UP,
{
    let ups = believed(states, atts, dt);
    let n = (j + 1) as nat;
    let s = states[j];
    assert(states[j + 1].handed_back == s.spec_handed_back(atts[j], dt));
    lemma_upright_is_counted(states, atts, dt, n);
    law_hold_is_unbroken(ups, dt, n);
    let run = upright_run(ups, n);
    lemma_upright_run(ups, n);
    assert(run * dt > HOLD_S);
    assert((j + 1) * dt >= run * dt) by (nonlinear_arith)
        requires
            run <= j + 1,
            dt >= 0,
    ;
    assert forall|i: int| 0 <= i <= j && (j - i) * dt <= HOLD_S implies (
    #[trigger] states[i]).spec_up(atts[i], dt) > UPRIGHT_UP by {
        assert(j - i < run) by (nonlinear_arith)
            requires
                (j - i) * dt < run * dt,
                dt >= 0,
        ;
        assert(ups[i] > UPRIGHT_UP);
    }
}

/// The rows of a trace that records every step of a trial.
pub open spec fn is_trace(
    rows: Seq<TraceRow>,
    states: Seq<Trial>,
    atts: Seq<Attitude>,
    dt: int,
) -> bool {
    &&& rows.len() == atts.len()
    &&& forall|i: int|
        0 <= i < rows.len() ==> {
            let row = #[trigger] rows[i];
            &&& row.0 == (i + 1) * dt
            &&& row.3 == states[i].spec_up(atts[i], dt)
            &&& row.4 == states[i + 1].handed_back
        }
}

/// The same as a trace shows it: a row that is handed back is followed by none
/// that is not, and the first such row is upright, as is every row less than
/// the hold before it.
pub proof fn law_trace_hands_back(
    rows: Seq<TraceRow>,
    states: Seq<Trial>,
    atts: Seq<Attitude>,
    dt: int,
    j: int,
)
    requires
        is_trial(states, atts, dt),
        is_trace(rows, states, atts, dt),
        dt >= 0,
        0 <= j < rows.len(),
        rows[j].4,
    ensures
        forall|k: int| j <= k < rows.len() ==> (#[trigger] rows[k]).4,
        (forall|i: int| 0 <= i < j ==> !(#[trigger] rows[i]).4) ==> forall|i: int|
            0 <= i <= j && rows[j].0 - (#[trigger] rows[i]).0 < HOLD_S ==> rows[i].3 > UPRIGHT_UP,
{
    assert forall|k: int| j <= k < rows.len() implies (#[trigger] rows[k]).4 by {
        law_hand_back_stays(states, atts, dt, j + 1, k + 1);
    }
    if forall|i: int| 0 <= i < j ==> !(#[trigger] rows[i]).4 {
        if j > 0 {
            assert(!rows[j - 1].4);
        }
        law_hand_back_needs_the_hold(states, atts, dt, j);
        assert forall|i: int|
            0 <= i <= j && rows[j].0 - (#[trigger] rows[i]).0 < HOLD_S implies rows[i].3
            > UPRIGHT_UP by {
            assert((j + 1) * dt - (i + 1) * dt == (j - i) * dt) by (nonlinear_arith);
            assert(states[i].spec_up(atts[i], dt) > UPRIGHT_UP);
        }
    }
}

/// A torque is the spring's pull toward the target, less the damping, and the
/// feedforward, to within the rounding of the two products.
pub proof fn law_pd(kp: int, kd: int, q_star: int, q: int, qd: int, ff: int)
    requires
        i64::MIN < spec_pd(kp, kd, q_star, q, qd, ff) < i64::MAX,
    ensures
        -1_000_000_000 <= spec_pd(kp, kd, q_star, q, qd, ff) * 1_000_000_000 - (kp * (q_star - q)
            - kd * qd + ff * 1_000_000_000) <= 1_000_000_000,
{
    law_product_is_near(kp, q_star - q);
    law_product_is_near(kd, qd);
}

/// A joint short of its target is pulled up to it, one past it is pulled back,
/// and one that moves is braked.
pub proof fn law_pd_signs(kp: int, kd: int, q_star: int, q: int, qd: int)
    requires
        kp >= 0,
        kd >= 0,
    ensures
        q <= q_star && qd <= 0 ==> spec_pd(kp, kd, q_star, q, qd, 0) >= 0,
        q >= q_star && qd >= 0 ==> spec_pd(kp, kd, q_star, q, qd, 0) <= 0,
{
    law_product_is_near(kp, q_star - q);
    law_product_is_near(kd, qd);
    let e = q_star - q;
    assert(e >= 0 ==> kp * e >= 0) by (nonlinear_arith)
        requires
            kp >= 0,
    ;
    assert(e <= 0 ==> kp * e <= 0) by (nonlinear_arith)
        requires
            kp >= 0,
    ;
    assert(qd >= 0 ==> kd * qd >= 0) by (nonlinear_arith)
        requires
            kd >= 0,
    ;
    assert(qd <= 0 ==> kd * qd <= 0) by (nonlinear_arith)
        requires
            kd >= 0,
    ;
}

/// A joint the model lacks gets no torque; one with a reading gets the torque
/// of its own angle and speed.
pub proof fn law_joint_torque(kp: int, kd: int, q_star: int, q: i64, qd: i64, grav: int)
    ensures
        spec_joint_torque(kp, kd, q_star, JointReading::Absent, grav) is None,
        spec_joint_torque(kp, kd, q_star, JointReading::At { q, qd }, grav) == Some(
            spec_pd(kp, kd, q_star, q as int, qd as int, grav),
        ),
{
}

/// A trial starts a joint where it reads; one without a reading at its stance,
/// and one the model lacks at zero.
pub proof fn law_spawn(q: i64, qd: i64, k: int)
    requires
        0 <= k < 3,
    ensures
        spec_spawn(JointReading::At { q, qd }, k) == q,
        spec_spawn(JointReading::Absent, k) == 0,
        spec_spawn(JointReading::Silent, 0) == 0,
        spec_spawn(JointReading::Silent, 1) == 900_000_000,
        spec_spawn(JointReading::Silent, 2) == -1_800_000_000,
        (JointReading::At { q, qd }).spec_qd() == qd,
        (JointReading::At { q, qd }).spec_q_or(k) == q,
        JointReading::Silent.spec_qd() == 0,
        JointReading::Absent.spec_qd() == 0,
        JointReading::Silent.spec_q_or(k) == k,
        JointReading::Absent.spec_q_or(k) == k,
{
}

/// All twelve leg joints count toward the summed speeds, each by its square.
pub proof fn law_every_joint_counts(a: LegReadings, b: LegReadings, l: int, k: int)
    requires
        0 <= l < 4,
        0 <= k < 3,
        forall|i: int, j: int|
            0 <= i < 4 && 0 <= j < 3 && (i != l || j != k) ==> #[trigger] b[i][j].spec_qd()
                == a[i][j].spec_qd(),
    ensures
        total_qd_sq(b) - total_qd_sq(a) == b[l][k].spec_qd() * b[l][k].spec_qd()
            - a[l][k].spec_qd() * a[l][k].spec_qd(),
        (forall|i: int, j: int|
            0 <= i < 4 && 0 <= j < 3 ==> #[trigger] a[i][j].spec_qd() == 0) ==> total_qd_sq(a) == 0,
{
    assert forall|i: int, j: int|
        0 <= i < 4 && 0 <= j < 3 && (i != l || j != k) implies #[trigger] b[i][j].spec_qd_sq()
        == a[i][j].spec_qd_sq() by {
        assert(b[i][j].spec_qd() == a[i][j].spec_qd());
    }
    if forall|i: int, j: int| 0 <= i < 4 && 0 <= j < 3 ==> #[trigger] a[i][j].spec_qd() == 0 {
        assert forall|i: int, j: int| 0 <= i < 4 && 0 <= j < 3 implies #[trigger] a[i][j].spec_qd_sq()
            == 0 by {
            assert(a[i][j].spec_qd() == 0);
        }
    }
}

/// A trial with a filter believes the filter, after the sample it was given;
/// one without believes the pose it was given.
pub proof fn law_what_a_trial_believes(
    s: Trial,
    f: TiltEstimator,
    accel: [i64; 3],
    up: i64,
    g: i64,
    dt: int,
)
    ensures
        s.tilt is None ==> {
            let att = Attitude::Pose { up, g_body_y: g };
            s.spec_up(att, dt) == up && s.spec_g_body_y(att, dt) == g && s.spec_tilt(att, dt)
                is None
        },
        s.tilt == Some(f) ==> {
            let att = Attitude::Pose { up, g_body_y: g };
            s.spec_up(att, dt) == f.spec_up() && s.spec_g_body_y(att, dt) == f.g[1]
        },
        s.tilt == Some(f) ==> {
            let att = Attitude::Imu { accel: None };
            s.spec_up(att, dt) == f.spec_up() && s.spec_g_body_y(att, dt) == f.g[1] && s.spec_tilt(
                att,
                dt,
            ) == Some(f)
        },
        s.tilt == Some(f) ==> {
            let att = Attitude::Imu { accel: Some(accel) };
            let h = f.spec_update(accel, dt);
            s.spec_up(att, dt) == h.spec_up() && s.spec_g_body_y(att, dt) == h.g[1] && s.spec_tilt(
                att,
                dt,
            ) == Some(h)
        },
{
}

/// The robot is handed back by the step that takes its time upright past one
/// second, at the rate of the stance; before and after, the rate stays.
pub proof fn law_hand_back_step(s: Trial, att: Attitude, dt: int)
    requires
        0 <= s.upright_s <= 1_000_000_000_000,
        0 <= dt <= 1_000_000_000_000,
    ensures
        !s.handed_back ==> (s.spec_handed_back(att, dt) <==> s.spec_up(att, dt) > 850_000_000
            && s.upright_s + dt > 1_000_000_000),
        s.handed_back ==> s.spec_rate(att, dt) == s.slew.max_rate_rad_s,
        !s.spec_handed_back(att, dt) ==> s.spec_rate(att, dt) == s.slew.max_rate_rad_s,
        !s.handed_back && s.spec_handed_back(att, dt) ==> s.spec_rate(att, dt)
            == s.params.stand_rate_rad_s,
{
}

/// One step of a trial is its rate times the time.
pub proof fn law_trial_step(s: Trial, att: Attitude, dt: int)
    requires
        0 <= dt <= 1_000_000_000_000,
        0 <= s.spec_rate(att, dt) <= 1_000_000_000_000_000,
    ensures
        -1_000_000_000 <= 2 * (s.spec_step(att, dt) * 1_000_000_000 - s.spec_rate(att, dt) * dt)
            <= 1_000_000_000,
{
    law_slew_step(Slew { max_rate_rad_s: s.spec_rate(att, dt), ..s.slew }, dt);
}

/// Until the hand-back a trial follows its trajectory at its own time, from
/// what it believes of its attitude, mirrored where the right side is down.
pub proof fn law_trial_follows_its_trajectory(s: Trial, att: Attitude, dt: int, l: int, k: int)
    requires
        !s.spec_handed_back(att, dt),
        0 <= l < 4,
        0 <= k < 3,
    ensures
        ({
            let (up, g) = (s.spec_up(att, dt), s.spec_g_body_y(att, dt));
            let swap = s.mirror == Some(true) || s.mirror is None && g < -350_000_000;
            &&& s.spec_want_arm(att, dt) == s.params.spec_arm(s.t as int, up)
            &&& swap ==> s.spec_want_leg(att, dt, l, k) == s.params.spec_mirrored().spec_leg(
                s.t as int,
                up,
                g,
                l,
                k,
            )
            &&& !swap ==> s.spec_want_leg(att, dt, l, k) == s.params.spec_leg(
                s.t as int,
                up,
                g,
                l,
                k,
            )
        }),
{
}

/// The distance travelled is the straight line, whichever way it leads.
pub proof fn law_travel(start: [i64; 2], end: [i64; 2])
    requires
        -1_000_000_000_000_000_000 <= start[0] <= 1_000_000_000_000_000_000,
        -1_000_000_000_000_000_000 <= start[1] <= 1_000_000_000_000_000_000,
        -1_000_000_000_000_000_000 <= end[0] <= 1_000_000_000_000_000_000,
        -1_000_000_000_000_000_000 <= end[1] <= 1_000_000_000_000_000_000,
    ensures
        ({
            let (dx, dy) = (end[0] - start[0], end[1] - start[1]);
            let d = Trial::spec_travel(start, end);
            d >= 0 && d * d <= dx * dx + dy * dy < (d + 1) * (d + 1)
        }),
        Trial::spec_travel(end, start) == Trial::spec_travel(start, end),
{
    let (dx, dy) = (end[0] - start[0], end[1] - start[1]);
    let s = dx * dx + dy * dy;
    assert(0 <= dx * dx <= 4_000_000_000_000_000_000_000_000_000_000_000_000) by (nonlinear_arith)
        requires
            -2_000_000_000_000_000_000 <= dx <= 2_000_000_000_000_000_000,
    ;
    assert(0 <= dy * dy <= 4_000_000_000_000_000_000_000_000_000_000_000_000) by (nonlinear_arith)
        requires
            -2_000_000_000_000_000_000 <= dy <= 2_000_000_000_000_000_000,
    ;
    law_root(s);
    let r = isqrt(s);
    assert(r <= 3_000_000_000_000_000_000) by (nonlinear_arith)
        requires
            r * r <= s,
            s <= 8_000_000_000_000_000_000_000_000_000_000_000_000,
    ;
    let (ex, ey) = (start[0] - end[0], start[1] - end[1]);
    assert(ex * ex == dx * dx && ey * ey == dy * dy) by (nonlinear_arith)
        requires
            ex == -dx,
            ey == -dy,
    ;
}

/// What is recorded of a step: peaks rise to what was seen and never fall,
/// sums grow by all that was seen, the clock runs on, and the first time
/// upright is the time of the first upright step and then stays.
pub proof fn law_record(s: Trial, dt: int, omega: Option<[i64; 3]>, legs: LegReadings, up: i64)
    requires
        s.sum_omega_sq <= 0xffff_ffff_ffff_ffff_ffff_ffff_ffff,
        s.sum_qd_sq <= 0xffff_ffff_ffff_ffff_ffff_ffff_ffff,
        omega is Some ==> norm_sq(omega->0) <= 0xffff_ffff_ffff_ffff_ffff_ffff_ffff,
        total_qd_sq(legs) <= 0xffff_ffff_ffff_ffff_ffff_ffff_ffff,
        -1_000_000_000_000_000_000 <= s.t + dt <= 1_000_000_000_000_000_000,
    ensures
        s.spec_t(dt) == s.t + dt,
        omega is None ==> s.spec_peak_omega(omega) == s.peak_omega_sq && s.spec_sum_omega(omega)
            == s.sum_omega_sq,
        omega is Some ==> {
            let w = omega->0;
            let sq = w[0] * w[0] + w[1] * w[1] + w[2] * w[2];
            &&& s.spec_sum_omega(omega) == s.sum_omega_sq + sq
            &&& s.spec_peak_omega(omega) >= sq
            &&& s.spec_peak_omega(omega) >= s.peak_omega_sq
            &&& s.spec_peak_omega(omega) == sq || s.spec_peak_omega(omega) == s.peak_omega_sq
        },
        s.spec_sum_qd(legs) == s.sum_qd_sq + total_qd_sq(legs),
        up >= s.peak_up ==> s.spec_peak_up(up) == up,
        up <= s.peak_up ==> s.spec_peak_up(up) == s.peak_up,
        s.t_right_s is Some ==> s.spec_t_right(dt, up) == s.t_right_s,
        s.t_right_s is None && up <= 850_000_000 ==> s.spec_t_right(dt, up) is None,
        s.t_right_s is None && up > 850_000_000 ==> s.spec_t_right(dt, up) is Some && s.spec_t_right(
            dt,
            up,
        )->0 == s.t + dt,
{
}

/// A root mean square is the root of the mean: as many terms as were summed,
/// twelve to a step for the joints.
pub proof fn law_rms(s: Trial)
    requires
        0 < s.n_samp <= 0xffff_ffff,
        s.sum_omega_sq <= 0xffff_ffff_ffff_ffff_ffff_ffff,
        s.sum_qd_sq <= 0xffff_ffff_ffff_ffff_ffff_ffff,
    ensures
        ({
            let (w, v) = (s.spec_rms_omega(), s.spec_rms_joint());
            let n = s.n_samp as int;
            &&& 0 <= w && w * w * n <= s.sum_omega_sq < (w + 1) * (w + 1) * n
            &&& 0 <= v && v * v * (12 * n) <= s.sum_qd_sq < (v + 1) * (v + 1) * (12 * n)
        }),
{
    lemma_rms(s.sum_omega_sq as int, s.n_samp as int);
    lemma_rms(s.sum_qd_sq as int, 12 * s.n_samp);
}

proof fn lemma_rms(sum: int, n: int)
    requires
        0 <= sum <= 0xffff_ffff_ffff_ffff_ffff_ffff,
        n > 0,
    ensures
        ({
            let v = sat(isqrt(sum / n));
            0 <= v && v * v * n <= sum < (v + 1) * (v + 1) * n
        }),
{
    let m = sum / n;
    assert(0 <= m <= sum && m * n <= sum < (m + 1) * n) by (nonlinear_arith)
        requires
            m == sum / n,
            n > 0,
            sum >= 0,
    ;
    law_root(m);
    let v = isqrt(m);
    assert(v <= 0xffff_ffff_ffff) by (nonlinear_arith)
        requires
            v * v <= m,
            m <= 0xffff_ffff_ffff_ffff_ffff_ffff,
    ;
    assert(v * v * n <= m * n) by (nonlinear_arith)
        requires
            v * v <= m,
            n > 0,
    ;
    assert((m + 1) * n <= (v + 1) * (v + 1) * n) by (nonlinear_arith)
        requires
            m + 1 <= (v + 1) * (v + 1),
            n > 0,
    ;
}

/// A trace row is due once its interval has passed, and at first at once.
pub proof fn law_trace_due(last: i64, t: i64, every: i64)
    ensures
        spec_trace_due(None, t, every),
        t - last >= every ==> spec_trace_due(Some(last), t, every),
        t - last < every - 1 ==> !spec_trace_due(Some(last), t, every),
{
}

/// Half a second of settling is as many whole steps as fit into it.
pub proof fn law_settle(dt: int)
    requires
        dt > 0,
    ensures
        spec_settle_steps(dt) * dt <= 500_000_000 < (spec_settle_steps(dt) + 1) * dt,
{
    let n = 500_000_000int / dt;
    assert(n * dt <= 500_000_000 < (n + 1) * dt) by (nonlinear_arith)
        requires
            n == 500_000_000int / dt,
            dt > 0,
    ;
}

/// The joints are named by their leg, front before rear and left before right,
/// and by what they turn.
pub proof fn law_joint_names(leg: int, k: int)
    requires
        0 <= leg < 4,
        0 <= k < 3,
    ensures
        ({
            let name = spec_leg_name(leg) + spec_joint_suffix(k);
            &&& name.len() > 2
            &&& name[0] == (if leg < 2 {
                'F'
            } else {
                'R'
            })
            &&& name[1] == (if leg == 0 || leg == 2 {
                'L'
            } else {
                'R'
            })
            &&& k == 0 ==> spec_ends_with(name, "_hip_joint"@)
            &&& k == 1 ==> spec_ends_with(name, "_thigh_joint"@)
            &&& k == 2 ==> spec_ends_with(name, "_calf_joint"@)
        }),
{
    reveal_strlit("FL");
    reveal_strlit("FR");
    reveal_strlit("RL");
    reveal_strlit("RR");
    let (a, b) = (spec_leg_name(leg), spec_joint_suffix(k));
    let name = a + b;
    reveal_strlit("_hip_joint");
    reveal_strlit("_thigh_joint");
    reveal_strlit("_calf_joint");
    assert(name.subrange(2, name.len() as int) =~= b);
}

/// Deciding where the joints go touches nothing that has been measured, and
/// measuring touches nothing that steers them.
pub proof fn law_deciding_and_measuring_are_apart(a: Trial, b: Trial)
    ensures
        a.same_record(b) ==> a.params == b.params && a.t == b.t && a.peak_up == b.peak_up
            && a.t_right_s == b.t_right_s && a.peak_omega_sq == b.peak_omega_sq && a.peak_qd_sq
            == b.peak_qd_sq && a.sum_omega_sq == b.sum_omega_sq && a.sum_qd_sq == b.sum_qd_sq
            && a.n_samp == b.n_samp,
        a.same_control(b) ==> a.params == b.params && a.tilt == b.tilt && a.slew == b.slew
            && a.upright_s == b.upright_s && a.handed_back == b.handed_back && a.mirror == b.mirror,
        a.same_record(b) && a.same_control(b) ==> a == b,
{
}

/// A trial starts with nothing measured and nothing decided, as low as a trunk
/// can be, and a trial that holds together has a first time upright exactly
/// where its peak was upright.
pub proof fn law_a_trial_starts_empty(s: Trial)
    ensures
        s.fresh() ==> s.t == 0 && s.n_samp == 0 && s.sum_omega_sq == 0 && s.sum_qd_sq == 0
            && s.peak_omega_sq == 0 && s.peak_qd_sq == 0 && s.peak_up == -1_000_000_000
            && s.upright_s == 0 && !s.handed_back && s.mirror is None && s.t_right_s is None,
        s.wf() && s.peak_up > 850_000_000 ==> s.t_right_s is Some,
        s.wf() && s.peak_up <= 850_000_000 ==> s.t_right_s is None,
{
}

} // verus!

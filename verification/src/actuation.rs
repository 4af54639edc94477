//! From joint targets to what the joint drivers are sent.
use crate::fixed::{
    div_round, fmul, law_product_is_near, lemma_round_div_exact, lemma_round_div_near, round_div,
    sat, saturate, scaled, times, ONE,
};
use crate::trial::{pd_torque, spec_pd};
use vstd::prelude::*;

verus! {

/// Which actuator interface the leg joints are driven through.
#[derive(Clone, Copy, Debug, PartialEq, Eq, Structural)]
pub enum Actuation {
    /// Joint position target plus a torque feedforward.
    PositionTorque,
    /// Joint velocity only, as a speed-mode driver takes: the trajectory's
    /// own speed plus an outer position loop of gain `k_track`, since a speed
    /// loop alone would let the position drift.
    Velocity { k_track: i64, loop_kv: i64, loop_ki: i64 },
    /// The same, with the driver taken to be an ideal velocity source.
    VelocityIdeal { k_track: i64 },
    /// Raw joint torque: the host supplies the whole loop, gravity included.
    Torque { kp: i64, kd: i64 },
    /// Uniform gains, with damping toward the trajectory's own speed and no
    /// gravity term.
    LeggedControl { kp: i64, kd: i64 },
    /// Stance legs as force sources, swing legs position-tracked, with an
    /// optional share of the bias torque fed forward.
    TorqueLeggedControl {
        swing_kp: i64,
        swing_kd: i64,
        stance_kp: i64,
        stance_kd: i64,
        bias_ff: i64,
    },
}

/// The mode a joint driver runs in.
#[derive(Clone, Copy, Debug, PartialEq, Eq, Structural)]
pub enum DriverMode {
    /// As the model has it.
    Model,
    /// Speed mode, with this loop stiffness where it is not the model's.
    Velocity { kv: Option<i64> },
    Torque,
}

/// The speed loop of the simulated drivers.
#[derive(Clone, Copy, Debug, PartialEq, Eq, Structural)]
pub enum SpeedLoop {
    /// As the simulator has it.
    Model,
    /// With this integral gain.
    Integral { ki: i64 },
    /// Tracking exactly, limited by torque alone.
    Ideal,
}

/// What one joint is sent.
#[derive(Clone, Copy, Debug, PartialEq, Eq, Structural)]
pub enum JointCmd {
    Position { q: i64 },
    Velocity { qd: i64 },
    Torque { tau: i64 },
}

/// What one joint's command is made from.
#[derive(Clone, Copy, Debug)]
pub struct JointState {
    /// Where it should go.
    pub q_star: i64,
    /// Its angle and its speed, where it has a reading.
    pub reading: Option<(i64, i64)>,
    /// Whether the gait has its leg on the ground.
    pub is_stance: bool,
    /// The torque that holds it against gravity.
    pub gravity: i64,
    /// The torque of gravity and motion together.
    pub bias: i64,
}

/// When in a run a command is given.
#[derive(Clone, Copy, Debug, PartialEq, Eq, Structural)]
pub struct Moment {
    /// The burn-in is over.
    pub handed_over: bool,
    /// There is a previous target to differentiate against.
    pub differentiates: bool,
    /// Time between two commands.
    pub dt: i64,
}

/// A change of `d` in a time of `dt`, held at the ends of the range.
pub open spec fn spec_per_time(d: int, dt: int) -> int {
    if dt > 0 {
        sat(round_div(d * ONE, dt))
    } else if dt < 0 {
        sat(round_div(-d * ONE, -dt))
    } else if d > 0 {
        i64::MAX as int
    } else if d < 0 {
        i64::MIN as int
    } else {
        0
    }
}

fn per_time(d: i128, dt: i64) -> (r: i64)
    requires
        -0xffff_ffff_ffff_ffff <= d <= 0xffff_ffff_ffff_ffff,
    ensures
        r == spec_per_time(d as int, dt as int),
{
    assert(-0x1000_0000_0000_0000_0000_0000_0000_0000 <= d * ONE
        <= 0x1000_0000_0000_0000_0000_0000_0000_0000 && -d * ONE == -(d * ONE)) by (nonlinear_arith)
        requires
            -0xffff_ffff_ffff_ffff <= d <= 0xffff_ffff_ffff_ffff,
            ONE == 1_000_000_000,
    ;
    let n: i128 = d * ONE as i128;
    if dt > 0 {
        saturate(div_round(n, dt as i128))
    } else if dt < 0 {
        saturate(div_round(-n, -(dt as i128)))
    } else if d > 0 {
        i64::MAX
    } else if d < 0 {
        i64::MIN
    } else {
        0
    }
}

impl JointState {
    /// The angle; a joint without a reading is taken to be where it should.
    pub open spec fn q(self) -> int {
        match self.reading {
            Some((q, _)) => q as int,
            None => self.q_star as int,
        }
    }

    /// The speed; a joint without a reading is taken to be at rest.
    pub open spec fn qd(self) -> int {
        match self.reading {
            Some((_, qd)) => qd as int,
            None => 0,
        }
    }

    fn angle(&self) -> (r: i64)
        ensures
            r == self.q(),
    {
        match self.reading {
            Some((q, _)) => q,
            None => self.q_star,
        }
    }

    fn speed(&self) -> (r: i64)
        ensures
            r == self.qd(),
    {
        match self.reading {
            Some((_, qd)) => qd,
            None => 0,
        }
    }

    /// The speed of the trajectory itself.
    pub open spec fn spec_qd_star(self, prev: int, m: Moment) -> int {
        if m.differentiates {
            spec_per_time(self.q_star - prev, m.dt as int)
        } else {
            0
        }
    }

    fn qd_star(&self, prev: i64, m: &Moment) -> (r: i64)
        ensures
            r == self.spec_qd_star(prev as int, *m),
    {
        if m.differentiates {
            per_time(self.q_star as i128 - prev as i128, m.dt)
        } else {
            0
        }
    }
}

impl Actuation {
    pub open spec fn spec_driver_mode(self) -> DriverMode {
        match self {
            Actuation::PositionTorque => DriverMode::Model,
            Actuation::Velocity { loop_kv, .. } => DriverMode::Velocity { kv: Some(loop_kv) },
            Actuation::VelocityIdeal { .. } => DriverMode::Velocity { kv: None },
            _ => DriverMode::Torque,
        }
    }

    /// The mode the leg joints' drivers are put in before a run.
    pub fn driver_mode(&self) -> (r: DriverMode)
        ensures
            r == self.spec_driver_mode(),
    {
        match self {
            Actuation::PositionTorque => DriverMode::Model,
            Actuation::Velocity { loop_kv, .. } => DriverMode::Velocity { kv: Some(*loop_kv) },
            Actuation::VelocityIdeal { .. } => DriverMode::Velocity { kv: None },
            _ => DriverMode::Torque,
        }
    }

    pub open spec fn spec_speed_loop(self) -> SpeedLoop {
        match self {
            Actuation::Velocity { loop_ki, .. } => SpeedLoop::Integral { ki: loop_ki },
            Actuation::VelocityIdeal { .. } => SpeedLoop::Ideal,
            _ => SpeedLoop::Model,
        }
    }

    /// The speed loop the drivers are given.
    pub fn speed_loop(&self) -> (r: SpeedLoop)
        ensures
            r == self.spec_speed_loop(),
    {
        match self {
            Actuation::Velocity { loop_ki, .. } => SpeedLoop::Integral { ki: *loop_ki },
            Actuation::VelocityIdeal { .. } => SpeedLoop::Ideal,
            _ => SpeedLoop::Model,
        }
    }

    /// Whether the host computes a torque for every joint.
    pub open spec fn spec_is_torque(self) -> bool {
        self.spec_driver_mode() is Torque
    }

    pub fn is_torque(&self) -> (r: bool)
        ensures
            r == self.spec_is_torque(),
    {
        match self {
            Actuation::Torque { .. } => true,
            Actuation::LeggedControl { .. } => true,
            Actuation::TorqueLeggedControl { .. } => true,
            _ => false,
        }
    }

    /// Whether commands differentiate the trajectory.
    pub open spec fn spec_differentiates(self) -> bool {
        self is LeggedControl || self is Velocity || self is VelocityIdeal
    }

    /// What one joint is sent, before any balance torque is added.
    pub open spec fn spec_command(self, j: JointState, prev: int, m: Moment) -> JointCmd {
        match self {
            Actuation::PositionTorque => JointCmd::Position { q: j.q_star },
            Actuation::Torque { kp, kd } => JointCmd::Torque {
                tau: spec_pd(
                    kp as int,
                    kd as int,
                    j.q_star as int,
                    j.q(),
                    j.qd(),
                    j.gravity as int,
                ) as i64,
            },
            Actuation::LeggedControl { kp, kd } => JointCmd::Torque {
                tau: sat(
                    fmul(kp as int, j.q_star - j.q()) + fmul(
                        kd as int,
                        j.spec_qd_star(prev, m) - j.qd(),
                    ),
                ) as i64,
            },
            Actuation::TorqueLeggedControl { swing_kp, swing_kd, stance_kp, stance_kd, bias_ff } => {
                let (kp, kd) = if m.handed_over && j.is_stance {
                    (stance_kp, stance_kd)
                } else {
                    (swing_kp, swing_kd)
                };
                JointCmd::Torque {
                    tau: spec_pd(
                        kp as int,
                        kd as int,
                        j.q_star as int,
                        j.q(),
                        j.qd(),
                        sat(fmul(bias_ff as int, j.bias as int)),
                    ) as i64,
                }
            },
            Actuation::Velocity { k_track, .. } | Actuation::VelocityIdeal { k_track } => {
                JointCmd::Velocity {
                    qd: sat(
                        j.spec_qd_star(prev, m) + fmul(k_track as int, j.q_star - j.q()),
                    ) as i64,
                }
            },
        }
    }

    /// What one joint is sent. Every path without a loop in the driver needs
    /// a command on every tick, burn-in included: before the hand-over a leg
    /// is held on its swing gains whatever the gait says.
    pub fn command(&self, j: &JointState, prev: i64, m: &Moment) -> (r: JointCmd)
        ensures
            r == self.spec_command(*j, prev as int, *m),
    {
        let q: i64 = j.angle();
        let qd: i64 = j.speed();
        match *self {
            Actuation::PositionTorque => JointCmd::Position { q: j.q_star },
            Actuation::Torque { kp, kd } => JointCmd::Torque {
                tau: pd_torque(kp, kd, j.q_star, q, qd, j.gravity),
            },
            Actuation::LeggedControl { kp, kd } => {
                let qd_star: i64 = j.qd_star(prev, m);
                let spring: i128 = scaled(kp, j.q_star as i128 - q as i128);
                let damper: i128 = scaled(kd, qd_star as i128 - qd as i128);
                JointCmd::Torque { tau: saturate(spring + damper) }
            },
            Actuation::TorqueLeggedControl { swing_kp, swing_kd, stance_kp, stance_kd, bias_ff } => {
                let (kp, kd): (i64, i64) = if m.handed_over && j.is_stance {
                    (stance_kp, stance_kd)
                } else {
                    (swing_kp, swing_kd)
                };
                JointCmd::Torque {
                    tau: pd_torque(kp, kd, j.q_star, q, qd, times(bias_ff, j.bias)),
                }
            },
            Actuation::Velocity { k_track, .. } | Actuation::VelocityIdeal { k_track } => {
                let ff: i64 = j.qd_star(prev, m);
                let outer: i128 = scaled(k_track, j.q_star as i128 - q as i128);
                JointCmd::Velocity { qd: saturate(ff as i128 + outer) }
            },
        }
    }
}

/// The target remembered after a command.
pub open spec fn spec_next_prev(act: Actuation, prev: i64, q_star: i64) -> i64 {
    if act.spec_differentiates() {
        q_star
    } else {
        prev
    }
}

/// The host's torque remembered after a command.
pub open spec fn spec_next_host(cmd: JointCmd, host: i64) -> i64 {
    match cmd {
        JointCmd::Torque { tau } => tau,
        _ => host,
    }
}

/// The part of the joint loop that is carried from one command to the next.
#[derive(Clone, Copy, Debug)]
pub struct JointLoop {
    /// The previous targets, where the interface differentiates them.
    pub prev_targets: [i64; 12],
    /// The torques the host computed, where it does.
    pub host_pd: [i64; 12],
}

impl JointLoop {
    pub fn new() -> (r: Self)
        ensures
            forall|i: int| 0 <= i < 12 ==> #[trigger] r.prev_targets[i] == 0,
            forall|i: int| 0 <= i < 12 ==> #[trigger] r.host_pd[i] == 0,
    {
        JointLoop { prev_targets: [0; 12], host_pd: [0; 12] }
    }

    /// Forget the previous targets, so that a jump is not differentiated.
    pub fn forget(&mut self)
        ensures
            forall|i: int| 0 <= i < 12 ==> #[trigger] final(self).prev_targets[i] == 0,
            final(self).host_pd == old(self).host_pd,
    {
        self.prev_targets = [0; 12];
    }

    /// Commands for all twelve joints.
    pub fn command_all(&mut self, act: &Actuation, joints: &[JointState; 12], m: &Moment) -> (r:
        [JointCmd; 12])
        ensures
            forall|i: int|
                0 <= i < 12 ==> #[trigger] r[i] == act.spec_command(
                    joints[i],
                    old(self).prev_targets[i] as int,
                    *m,
                ),
            forall|i: int|
                0 <= i < 12 ==> #[trigger] final(self).prev_targets[i] == spec_next_prev(
                    *act,
                    old(self).prev_targets[i],
                    joints[i].q_star,
                ),
            forall|i: int|
                0 <= i < 12 ==> #[trigger] final(self).host_pd[i] == spec_next_host(
                    r[i],
                    old(self).host_pd[i],
                ),
    {
        let mut out: [JointCmd; 12] = [JointCmd::Position { q: 0 }; 12];
        let keeps = match act {
            Actuation::LeggedControl { .. } => true,
            Actuation::Velocity { .. } => true,
            Actuation::VelocityIdeal { .. } => true,
            _ => false,
        };
        let mut i: usize = 0;
        while i < 12
            invariant
                i <= 12,
                keeps == act.spec_differentiates(),
                forall|j: int|
                    0 <= j < i ==> #[trigger] out[j] == act.spec_command(
                        joints[j],
                        old(self).prev_targets[j] as int,
                        *m,
                    ),
                forall|j: int|
                    0 <= j < 12 ==> #[trigger] self.prev_targets[j] == (if keeps && j < i {
                        joints[j].q_star
                    } else {
                        old(self).prev_targets[j]
                    }),
                forall|j: int|
                    0 <= j < 12 ==> #[trigger] self.host_pd[j] == (if j < i {
                        match out[j] {
                            JointCmd::Torque { tau } => tau,
                            _ => old(self).host_pd[j],
                        }
                    } else {
                        old(self).host_pd[j]
                    }),
            decreases 12 - i,
        {
            let cmd = act.command(&joints[i], self.prev_targets[i], m);
            out[i] = cmd;
            if let JointCmd::Torque { tau } = cmd {
                self.host_pd[i] = tau;
            }
            if keeps {
                self.prev_targets[i] = joints[i].q_star;
            }
            i = i + 1;
        }
        out
    }

    /// The torque of joint `i` once the balance torque is in: one raw torque,
    /// made of the host's own and, unless it is suppressed, the balance's.
    pub open spec fn spec_final(self, i: int, tau_wbc: int, suppressed: bool) -> int {
        sat(
            self.host_pd[i] + if suppressed {
                0
            } else {
                tau_wbc
            },
        )
    }

    /// The torques that replace the host's own once the balance torques are
    /// known. They are suppressed for a purely kinematic run and during a
    /// recovery, about which a balance controller has nothing to say.
    pub fn final_torques(&self, tau_wbc: &[i64; 12], kinematic_only: bool, recovering: bool) -> (r:
        [i64; 12])
        ensures
            forall|i: int|
                0 <= i < 12 ==> #[trigger] r[i] == self.spec_final(
                    i,
                    tau_wbc[i] as int,
                    kinematic_only || recovering,
                ),
    {
        let mut out: [i64; 12] = [0; 12];
        let mut i: usize = 0;
        while i < 12
            invariant
                i <= 12,
                forall|j: int|
                    0 <= j < i ==> #[trigger] out[j] == self.spec_final(
                        j,
                        tau_wbc[j] as int,
                        kinematic_only || recovering,
                    ),
            decreases 12 - i,
        {
            let extra: i128 = if kinematic_only || recovering {
                0
            } else {
                tau_wbc[i] as i128
            };
            out[i] = saturate(self.host_pd[i] as i128 + extra);
            i = i + 1;
        }
        out
    }
}

/// The balance torque, where the interface has a place for it.
pub open spec fn spec_feedforward(act: Actuation, kinematic_only: bool, tau: i64) -> i64 {
    if act is PositionTorque && !kinematic_only {
        tau
    } else {
        0
    }
}

/// The feedforward a joint is given: the balance torque where the interface
/// has a place for one, and nothing otherwise.
pub fn feedforward(act: &Actuation, kinematic_only: bool, tau: i64) -> (r: i64)
    ensures
        r == spec_feedforward(*act, kinematic_only, tau),
{
    match act {
        Actuation::PositionTorque => {
            if kinematic_only {
                0
            } else {
                tau
            }
        },
        _ => 0,
    }
}

/// A joint at its target and at rest is sent no torque but its feedforward.
pub proof fn law_settled_joint(kp: i64, kd: i64, j: JointState, prev: int, m: Moment)
    requires
        j.q() == j.q_star,
        j.qd() == 0,
    ensures
        (Actuation::Torque { kp, kd }).spec_command(j, prev, m) == (JointCmd::Torque {
            tau: j.gravity,
        }),
{
    let (a, b) = (kp as int, kd as int);
    assert(a * 0 == 0 && b * 0 == 0) by (nonlinear_arith);
    lemma_round_div_exact(0, ONE as int);
}

/// Before the hand-over a stance leg is driven exactly as a swing leg is, so
/// the robot is held up while nothing else does.
pub proof fn law_burn_in_holds_every_leg(act: Actuation, j: JointState, prev: int, m: Moment)
    requires
        !m.handed_over,
    ensures
        act.spec_command((JointState { is_stance: true, ..j }), prev, m) == act.spec_command(
            (JointState { is_stance: false, ..j }),
            prev,
            m,
        ),
{
}

/// While a recovery runs, the joints get the host's own torque and nothing
/// of the balance controller's, whatever that asks for.
pub proof fn law_recovery_is_left_alone(l: JointLoop, i: int, tau_wbc: int)
    requires
        0 <= i < 12,
    ensures
        l.spec_final(i, tau_wbc, true) == l.host_pd[i],
{
}

/// A speed is the change over the time, either way round; a change in no time
/// runs to the end of the range that it points to.
pub proof fn law_per_time(d: int, dt: int)
    ensures
        dt > 0 && i64::MIN < spec_per_time(d, dt) < i64::MAX ==> -dt <= 2 * (spec_per_time(d, dt)
            * dt - d * 1_000_000_000) <= dt,
        dt < 0 && i64::MIN < spec_per_time(d, dt) < i64::MAX ==> dt <= 2 * (spec_per_time(d, dt)
            * dt - d * 1_000_000_000) <= -dt,
        d == 0 ==> spec_per_time(d, dt) == 0,
        dt == 0 && d > 0 ==> spec_per_time(d, dt) == i64::MAX,
        dt == 0 && d < 0 ==> spec_per_time(d, dt) == i64::MIN,
{
    if dt > 0 {
        lemma_round_div_near(d * ONE, dt);
        if d == 0 {
            lemma_round_div_exact(0, dt);
        }
    } else if dt < 0 {
        lemma_round_div_near(-d * ONE, -dt);
        let v = round_div(-d * ONE, -dt);
        assert(v * (-dt) == -(v * dt)) by (nonlinear_arith);
        assert(-d * ONE == -(d * ONE)) by (nonlinear_arith);
        if d == 0 {
            lemma_round_div_exact(0, -dt);
        }
    }
}

/// A joint without a reading is taken to be at its target and at rest; the
/// trajectory's own speed is that of its targets, and nothing where there is
/// no earlier one to differentiate against.
pub proof fn law_joint_state(j: JointState, prev: int, m: Moment)
    ensures
        match j.reading {
            Some((q, qd)) => j.q() == q && j.qd() == qd,
            None => j.q() == j.q_star && j.qd() == 0,
        },
        !m.differentiates ==> j.spec_qd_star(prev, m) == 0,
        m.differentiates ==> j.spec_qd_star(prev, m) == spec_per_time(j.q_star - prev, m.dt as int),
{
}

/// A position driver is sent the target itself.
pub proof fn law_position_command(j: JointState, prev: int, m: Moment)
    ensures
        Actuation::PositionTorque.spec_command(j, prev, m) == (JointCmd::Position { q: j.q_star }),
{
}

/// A torque driver is sent the spring toward the target, less the damping of
/// the joint's own speed, and what holds it against gravity.
pub proof fn law_torque_command(kp: i64, kd: i64, j: JointState, prev: int, m: Moment)
    ensures
        match (Actuation::Torque { kp, kd }).spec_command(j, prev, m) {
            JointCmd::Torque { tau } => i64::MIN < tau < i64::MAX ==> -1_000_000_000 <= tau
                * 1_000_000_000 - (kp * (j.q_star - j.q()) - kd * j.qd() + j.gravity
                * 1_000_000_000) <= 1_000_000_000,
            _ => false,
        },
{
    law_product_is_near(kp as int, j.q_star - j.q());
    law_product_is_near(kd as int, j.qd());
}

/// The uniform-gain interface damps toward the trajectory's own speed, and
/// has no gravity term.
pub proof fn law_legged_command(kp: i64, kd: i64, j: JointState, prev: int, m: Moment)
    ensures
        match (Actuation::LeggedControl { kp, kd }).spec_command(j, prev, m) {
            JointCmd::Torque { tau } => i64::MIN < tau < i64::MAX ==> -1_000_000_000 <= tau
                * 1_000_000_000 - (kp * (j.q_star - j.q()) + kd * (j.spec_qd_star(prev, m)
                - j.qd())) <= 1_000_000_000,
            _ => false,
        },
{
    law_product_is_near(kp as int, j.q_star - j.q());
    law_product_is_near(kd as int, j.spec_qd_star(prev, m) - j.qd());
}

/// A stance leg that has been handed over is driven on the stance gains, every
/// other leg on the swing gains, with its share of the bias torque.
pub proof fn law_stance_command(act: Actuation, j: JointState, prev: int, m: Moment)
    requires
        act is TorqueLeggedControl,
    ensures
        ({
            let stance = m.handed_over && j.is_stance;
            let kp = if stance {
                act->stance_kp as int
            } else {
                act->swing_kp as int
            };
            let kd = if stance {
                act->stance_kd as int
            } else {
                act->swing_kd as int
            };
            let ff = fmul(act->bias_ff as int, j.bias as int);
            match act.spec_command(j, prev, m) {
                JointCmd::Torque { tau } => i64::MIN < tau < i64::MAX && i64::MIN <= ff <= i64::MAX
                    ==> -3_000_000_000 <= 2 * (tau * 1_000_000_000 - (kp * (j.q_star - j.q()) - kd
                    * j.qd() + act->bias_ff * j.bias)) <= 3_000_000_000,
                _ => false,
            }
        }),
{
    let stance = m.handed_over && j.is_stance;
    let kp = if stance {
        act->stance_kp as int
    } else {
        act->swing_kp as int
    };
    let kd = if stance {
        act->stance_kd as int
    } else {
        act->swing_kd as int
    };
    law_product_is_near(kp, j.q_star - j.q());
    law_product_is_near(kd, j.qd());
    law_product_is_near(act->bias_ff as int, j.bias as int);
}

/// A speed driver is sent the trajectory's own speed and the outer loop's
/// pull toward the target, on both kinds of speed interface alike.
pub proof fn law_velocity_command(
    k_track: i64,
    loop_kv: i64,
    loop_ki: i64,
    j: JointState,
    prev: int,
    m: Moment,
)
    ensures
        match (Actuation::VelocityIdeal { k_track }).spec_command(j, prev, m) {
            JointCmd::Velocity { qd } => i64::MIN < qd < i64::MAX ==> -1_000_000_000 <= 2 * ((qd
                - j.spec_qd_star(prev, m)) * 1_000_000_000 - k_track * (j.q_star - j.q()))
                <= 1_000_000_000,
            _ => false,
        },
        (Actuation::Velocity { k_track, loop_kv, loop_ki }).spec_command(j, prev, m) == (
        Actuation::VelocityIdeal { k_track }).spec_command(j, prev, m),
{
    law_product_is_near(k_track as int, j.q_star - j.q());
}

/// Each interface has its own driver mode and speed loop, and only those that
/// need the trajectory's speed keep the targets before.
pub proof fn law_drivers(kp: i64, kd: i64, k_track: i64, loop_kv: i64, loop_ki: i64, act: Actuation)
    ensures
        Actuation::PositionTorque.spec_driver_mode() is Model,
        (Actuation::Velocity { k_track, loop_kv, loop_ki }).spec_driver_mode() == (
        DriverMode::Velocity { kv: Some(loop_kv) }),
        (Actuation::VelocityIdeal { k_track }).spec_driver_mode() == (DriverMode::Velocity {
            kv: None,
        }),
        (Actuation::Torque { kp, kd }).spec_driver_mode() is Torque,
        (Actuation::LeggedControl { kp, kd }).spec_driver_mode() is Torque,
        act is TorqueLeggedControl ==> act.spec_driver_mode() is Torque && act.spec_is_torque()
            && !act.spec_differentiates() && act.spec_speed_loop() is Model,
        Actuation::PositionTorque.spec_speed_loop() is Model,
        (Actuation::Velocity { k_track, loop_kv, loop_ki }).spec_speed_loop() == (
        SpeedLoop::Integral { ki: loop_ki }),
        (Actuation::VelocityIdeal { k_track }).spec_speed_loop() is Ideal,
        (Actuation::Torque { kp, kd }).spec_speed_loop() is Model,
        (Actuation::LeggedControl { kp, kd }).spec_speed_loop() is Model,
        !Actuation::PositionTorque.spec_is_torque(),
        !(Actuation::Velocity { k_track, loop_kv, loop_ki }).spec_is_torque(),
        !(Actuation::VelocityIdeal { k_track }).spec_is_torque(),
        (Actuation::Torque { kp, kd }).spec_is_torque(),
        (Actuation::LeggedControl { kp, kd }).spec_is_torque(),
        !Actuation::PositionTorque.spec_differentiates(),
        !(Actuation::Torque { kp, kd }).spec_differentiates(),
        (Actuation::LeggedControl { kp, kd }).spec_differentiates(),
        (Actuation::Velocity { k_track, loop_kv, loop_ki }).spec_differentiates(),
        (Actuation::VelocityIdeal { k_track }).spec_differentiates(),
{
}

/// An interface that takes a feedforward is given the balance torque, except
/// in a purely kinematic run; the others are given none.
pub proof fn law_feedforward(act: Actuation, tau: i64)
    ensures
        spec_feedforward(Actuation::PositionTorque, false, tau) == tau,
        spec_feedforward(act, true, tau) == 0,
        !(act is PositionTorque) ==> spec_feedforward(act, false, tau) == 0,
{
}

/// What a joint ends up with is the host's torque and the balance torque
/// together.
pub proof fn law_final_torque(l: JointLoop, i: int, tau_wbc: int)
    requires
        0 <= i < 12,
        i64::MIN <= l.host_pd[i] + tau_wbc <= i64::MAX,
    ensures
        l.spec_final(i, tau_wbc, false) == l.host_pd[i] + tau_wbc,
{
}

/// An interface that differentiates remembers each target for the next
/// command, the others keep what they had; a torque that was computed is
/// remembered, and nothing else takes its place.
pub proof fn law_what_the_loop_remembers(act: Actuation, prev: i64, q_star: i64, host: i64, tau: i64)
    ensures
        act.spec_differentiates() ==> spec_next_prev(act, prev, q_star) == q_star,
        !act.spec_differentiates() ==> spec_next_prev(act, prev, q_star) == prev,
        spec_next_host(JointCmd::Torque { tau }, host) == tau,
        spec_next_host(JointCmd::Position { q: tau }, host) == host,
        spec_next_host(JointCmd::Velocity { qd: tau }, host) == host,
{
}

} // verus!

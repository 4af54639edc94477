//! Self-righting while the gait is running.
//!
//! The trajectory takes the joints away from the gait: there is nothing a
//! controller for a standing robot can say about one on its back. It ends
//! once the trunk has stayed upright for a second, or gives up.
use crate::fixed::{fmul, plus, sat, spec_max};
use crate::self_righting::{
    latch_mirror, law_named_in_limits, law_slew, law_slew_step, law_targets_in_limits, leg_limit,
    spec_latch, spec_slew, spec_swaps, spec_upright, upright_for, LegTargets, RecoveryParams, Slew,
    TiltEstimator, ARM_LIMIT, HOLD_S, RECOVERY_FAST, RECOVERY_GENTLE, UPRIGHT_UP,
};
use vstd::prelude::*;

verus! {

/// Time constant of the tilt filter during a recovery.
pub const RECOVERY_TILT_TAU_S: i64 = 150_000_000;

/// Past every trajectory there is: a giving-up limit, not a schedule.
pub const RECOVERY_LIMIT_S: i64 = 20_000_000_000;

/// A recovery under way, or not.
#[derive(Clone, Copy, Debug)]
pub struct Recovery {
    /// Time into the trajectory, while one is running.
    pub t: Option<i64>,
    /// How long the trunk has been upright without a break. A single upright
    /// sample happens mid-tumble too, so this is what ends the recovery.
    pub upright_s: i64,
    pub slew: Option<Slew>,
    pub tilt: Option<TiltEstimator>,
    /// Which side the robot is lying on, latched once per recovery.
    pub mirror: Option<bool>,
    /// Whether the fast trajectory was asked for.
    pub fast: bool,
}

/// What one step of a recovery asks for.
#[derive(Clone, Copy, Debug)]
pub struct RecoveryStep {
    pub arm: i64,
    pub legs: LegTargets,
    /// `Some(true)` when it has just succeeded, `Some(false)` when it has
    /// just given up.
    pub ended: Option<bool>,
}

/// The angle of each leg joint where it has a reading.
pub type LegAngles = [[Option<i64>; 3]; 4];

pub open spec fn spec_or(reading: Option<i64>, fallback: int) -> int {
    match reading {
        Some(q) => q as int,
        None => fallback,
    }
}

fn or(reading: Option<i64>, fallback: i64) -> (r: i64)
    ensures
        r == spec_or(reading, fallback as int),
{
    match reading {
        Some(q) => q,
        None => fallback,
    }
}

fn leg_or(reading: &[Option<i64>; 3], fallback: &[i64; 3]) -> (r: [i64; 3])
    ensures
        forall|k: int| 0 <= k < 3 ==> #[trigger] r[k] == spec_or(reading[k], fallback[k] as int),
{
    [or(reading[0], fallback[0]), or(reading[1], fallback[1]), or(reading[2], fallback[2])]
}

impl Recovery {
    pub open spec fn wf(self) -> bool {
        self.tilt is Some ==> self.tilt->0.wf()
    }

    /// Nothing is running and nothing is remembered.
    pub open spec fn idle(self) -> bool {
        &&& self.t is None
        &&& self.upright_s == 0
        &&& self.slew is None
        &&& self.tilt is None
        &&& self.mirror is None
    }

    pub fn new() -> (r: Self)
        ensures
            r.wf(),
            r.idle(),
            !r.fast,
    {
        Recovery { t: None, upright_s: 0, slew: None, tilt: None, mirror: None, fast: false }
    }

    /// Begin a recovery from its start, forgetting any earlier one.
    pub fn start(&mut self, fast: bool)
        ensures
            final(self).wf(),
            *final(self) == (Recovery {
                t: Some(0),
                upright_s: 0,
                slew: None,
                tilt: None,
                mirror: None,
                fast,
            }),
    {
        self.t = Some(0);
        self.upright_s = 0;
        self.slew = None;
        self.tilt = None;
        self.mirror = None;
        self.fast = fast;
    }

    /// Drop a recovery, because the robot has been put back on its feet.
    pub fn cancel(&mut self)
        requires
            old(self).wf(),
        ensures
            final(self).wf(),
            *final(self) == (Recovery { t: None, upright_s: 0, slew: None, ..*old(self) }),
    {
        self.t = None;
        self.upright_s = 0;
        self.slew = None;
    }

    /// The trajectory being run.
    pub open spec fn spec_plan(self) -> RecoveryParams {
        if self.fast {
            RecoveryParams::spec_of(RECOVERY_FAST@)
        } else {
            RecoveryParams::spec_of(RECOVERY_GENTLE@)
        }
    }

    /// The tilt filter with this step's sample taken in.
    pub open spec fn spec_tilt(self, accel: Option<[i64; 3]>, dt: int) -> TiltEstimator {
        let f = match self.tilt {
            Some(f) => f,
            None => TiltEstimator::spec_new(RECOVERY_TILT_TAU_S),
        };
        match accel {
            Some(a) => f.spec_update(a, dt),
            None => f,
        }
    }

    pub open spec fn spec_mirror(self, accel: Option<[i64; 3]>, dt: int) -> Option<bool> {
        spec_latch(self.mirror, self.spec_tilt(accel, dt).g[1] as int)
    }

    /// Where the trajectory wants the arm.
    pub open spec fn spec_want_arm(self, accel: Option<[i64; 3]>, dt: int) -> int {
        self.spec_plan().spec_arm(self.t->0 as int, self.spec_tilt(accel, dt).spec_up())
    }

    /// Where the trajectory wants joint `k` of leg `l`.
    pub open spec fn spec_want_leg(self, accel: Option<[i64; 3]>, dt: int, l: int, k: int) -> int {
        let f = self.spec_tilt(accel, dt);
        self.spec_plan().facing(spec_swaps(self.spec_mirror(accel, dt))).spec_leg(
            self.t->0 as int,
            f.spec_up(),
            f.g[1] as int,
            l,
            k,
        )
    }

    /// The ceiling on how fast angles move in this step.
    pub open spec fn spec_rate(self) -> i64 {
        match self.slew {
            Some(s) => s.max_rate_rad_s,
            None => self.spec_plan().max_rate_rad_s,
        }
    }

    /// How far any angle moves at most in this step.
    pub open spec fn spec_step(self, dt: int) -> int {
        spec_max(sat(fmul(self.spec_rate() as int, dt)), 0)
    }

    /// Where the arm moves from: where it was last sent, or where it is, or
    /// where it is wanted.
    pub open spec fn spec_arm_from(self, arm: Option<i64>, accel: Option<[i64; 3]>, dt: int) -> int {
        match self.slew {
            Some(s) => s.arm as int,
            None => spec_or(arm, self.spec_want_arm(accel, dt)),
        }
    }

    /// Where a leg joint moves from, in the same way.
    pub open spec fn spec_leg_from(
        self,
        legs: LegAngles,
        accel: Option<[i64; 3]>,
        dt: int,
        l: int,
        k: int,
    ) -> int {
        match self.slew {
            Some(s) => s.legs[l][k] as int,
            None => spec_or(legs[l][k], self.spec_want_leg(accel, dt, l, k)),
        }
    }

    pub open spec fn spec_upright_after(self, accel: Option<[i64; 3]>, dt: int) -> int {
        spec_upright(self.upright_s as int, self.spec_tilt(accel, dt).spec_up(), dt)
    }

    /// Whether this step is the last, and if so whether it succeeded.
    pub open spec fn spec_ended(self, accel: Option<[i64; 3]>, dt: int) -> Option<bool> {
        if self.spec_upright_after(accel, dt) > HOLD_S {
            Some(true)
        } else if self.t->0 > RECOVERY_LIMIT_S {
            Some(false)
        } else {
            None
        }
    }

    /// The recovery after the step `r`: idle once it has ended.
    pub open spec fn spec_next(self, accel: Option<[i64; 3]>, dt: int, r: RecoveryStep) -> Self {
        if self.spec_ended(accel, dt) is Some {
            Recovery {
                t: None,
                upright_s: 0,
                slew: None,
                tilt: None,
                mirror: None,
                fast: self.fast,
            }
        } else {
            Recovery {
                t: Some(sat(self.t->0 + dt) as i64),
                upright_s: self.spec_upright_after(accel, dt) as i64,
                slew: Some(
                    Slew {
                        max_rate_rad_s: if self.spec_upright_after(accel, dt) > 0 {
                            self.spec_plan().stand_rate_rad_s
                        } else {
                            self.spec_rate()
                        },
                        arm: r.arm,
                        legs: r.legs,
                    },
                ),
                tilt: Some(self.spec_tilt(accel, dt)),
                mirror: self.spec_mirror(accel, dt),
                fast: self.fast,
            }
        }
    }

    /// One step of a running recovery: from an accelerometer sample and
    /// where the joints are to where they should go.
    pub fn step(
        &mut self,
        accel: Option<[i64; 3]>,
        arm: Option<i64>,
        legs: &LegAngles,
        dt: i64,
    ) -> (r: RecoveryStep)
        requires
            old(self).wf(),
            old(self).t is Some,
        ensures
            final(self).wf(),
            r.ended == old(self).spec_ended(accel, dt as int),
            r.arm == spec_slew(
                old(self).spec_arm_from(arm, accel, dt as int),
                old(self).spec_want_arm(accel, dt as int),
                old(self).spec_step(dt as int),
            ),
            forall|l: int, k: int|
                0 <= l < 4 && 0 <= k < 3 ==> #[trigger] r.legs[l][k] == spec_slew(
                    old(self).spec_leg_from(*legs, accel, dt as int, l, k),
                    old(self).spec_want_leg(accel, dt as int, l, k),
                    old(self).spec_step(dt as int),
                ),
            *final(self) == old(self).spec_next(accel, dt as int, r),
    {
        let at: i64 = match self.t {
            Some(at) => at,
            None => 0,
        };
        let plan = if self.fast {
            RecoveryParams::of(&RECOVERY_FAST)
        } else {
            RecoveryParams::of(&RECOVERY_GENTLE)
        };
        let mut tilt = match self.tilt {
            Some(f) => f,
            None => TiltEstimator::new(RECOVERY_TILT_TAU_S),
        };
        if let Some(a) = accel {
            tilt.update(&a, dt);
        }
        let up: i64 = tilt.up();
        let g: i64 = tilt.g_body_y();
        let mirror = latch_mirror(self.mirror, g);
        let swap = match mirror {
            Some(m) => m,
            None => false,
        };
        let (want_arm, want_legs): (i64, LegTargets) = plan.targets_mirrored(at, up, g, swap);
        assert forall|l: int, k: int| 0 <= l < 4 && 0 <= k < 3 implies #[trigger] want_legs[l][k]
            == old(self).spec_want_leg(accel, dt as int, l, k) by {}
        let mut slew = match self.slew {
            Some(s) => s,
            None => {
                let from: LegTargets = [
                    leg_or(&legs[0], &want_legs[0]),
                    leg_or(&legs[1], &want_legs[1]),
                    leg_or(&legs[2], &want_legs[2]),
                    leg_or(&legs[3], &want_legs[3]),
                ];
                Slew::new(plan.max_rate_rad_s, or(arm, want_arm), from)
            },
        };
        assert forall|l: int, k: int| 0 <= l < 4 && 0 <= k < 3 implies #[trigger] slew.legs[l][k]
            == old(self).spec_leg_from(*legs, accel, dt as int, l, k) by {}
        let (arm_q, legs_q): (i64, LegTargets) = slew.apply(dt, want_arm, &want_legs);
        let upright: i64 = upright_for(self.upright_s, up, dt);
        if upright > 0 {
            // Unfold to a normal stance at its own rate; holding the roll's
            // low limit through the stand-up topples it.
            slew.max_rate_rad_s = plan.stand_rate_rad_s;
        }
        let done = upright > HOLD_S;
        if done || at > RECOVERY_LIMIT_S {
            self.t = None;
            self.upright_s = 0;
            self.slew = None;
            self.tilt = None;
            self.mirror = None;
            RecoveryStep { arm: arm_q, legs: legs_q, ended: Some(done) }
        } else {
            self.t = Some(plus(at, dt));
            self.upright_s = upright;
            self.slew = Some(slew);
            self.tilt = Some(tilt);
            self.mirror = mirror;
            RecoveryStep { arm: arm_q, legs: legs_q, ended: None }
        }
    }
}

/// Success is only reported after the trunk has been upright for longer than
/// the hold, so a step that is not upright never ends a recovery well.
pub proof fn law_success_needs_upright(s: Recovery, accel: Option<[i64; 3]>, dt: int)
    requires
        s.spec_ended(accel, dt) == Some(true),
    ensures
        s.spec_tilt(accel, dt).spec_up() > UPRIGHT_UP,
        s.upright_s + dt > HOLD_S,
{
}

/// A recovery that has gone on for `n` steps without ending has not been
/// running for longer than the limit: it always ends.
pub proof fn law_recovery_is_bounded(
    states: Seq<Recovery>,
    accels: Seq<Option<[i64; 3]>>,
    dt: int,
    n: nat,
)
    requires
        0 < dt <= RECOVERY_LIMIT_S,
        n >= 1,
        states.len() > n,
        states[0].t == Some(0i64),
        forall|i: int|
            0 <= i < n ==> {
                &&& (#[trigger] states[i]).t is Some
                &&& states[i].spec_ended(accels[i], dt) is None
                &&& states[i + 1].t == Some(sat(states[i].t->0 + dt) as i64)
            },
    ensures
        (n - 1) * dt <= RECOVERY_LIMIT_S,
        states[n as int].t == Some((n * dt) as i64),
    decreases n,
{
    if n == 1 {
        assert(states[0].spec_ended(accels[0], dt) is None);
        assert(states[0int + 1].t == Some(sat(states[0].t->0 + dt) as i64));
        assert((n - 1) * dt == 0 && n * dt == dt) by (nonlinear_arith)
            requires
                n == 1,
        ;
    } else {
        law_recovery_is_bounded(states, accels, dt, (n - 1) as nat);
        assert(states[n - 1].spec_ended(accels[n - 1], dt) is None);
        assert(states[n - 1 + 1].t == Some(sat(states[n - 1].t->0 + dt) as i64));
        assert((n - 1) * dt == (n - 2) * dt + dt && n * dt == (n - 1) * dt + dt)
            by (nonlinear_arith);
    }
}

/// From inside the joint limits, a recovery never commands a joint to leave
/// them.
pub proof fn law_recovery_keeps_to_the_limits(
    s: Recovery,
    arm: Option<i64>,
    legs: LegAngles,
    accel: Option<[i64; 3]>,
    dt: int,
    l: int,
    k: int,
)
    requires
        0 <= l < 4,
        0 <= k < 3,
        s.t is Some,
        match s.slew {
            Some(slew) => {
                &&& ARM_LIMIT.0 <= slew.arm <= ARM_LIMIT.1
                &&& leg_limit(l, k).0 <= slew.legs[l][k] <= leg_limit(l, k).1
            },
            None => {
                &&& arm is Some ==> ARM_LIMIT.0 <= arm->0 <= ARM_LIMIT.1
                &&& legs[l][k] is Some ==> leg_limit(l, k).0 <= legs[l][k]->0 <= leg_limit(l, k).1
            },
        },
    ensures
        ARM_LIMIT.0 <= spec_slew(
            s.spec_arm_from(arm, accel, dt),
            s.spec_want_arm(accel, dt),
            s.spec_step(dt),
        ) <= ARM_LIMIT.1,
        leg_limit(l, k).0 <= spec_slew(
            s.spec_leg_from(legs, accel, dt, l, k),
            s.spec_want_leg(accel, dt, l, k),
            s.spec_step(dt),
        ) <= leg_limit(l, k).1,
{
    law_named_in_limits();
    let f = s.spec_tilt(accel, dt);
    let mirror = spec_swaps(s.spec_mirror(accel, dt));
    let (t, up, g) = (s.t->0 as int, f.spec_up(), f.g[1] as int);
    law_targets_in_limits(s.spec_plan(), t, up, g, mirror, l, k);
    law_slew(s.spec_arm_from(arm, accel, dt), s.spec_want_arm(accel, dt), s.spec_step(dt));
    law_slew(
        s.spec_leg_from(legs, accel, dt, l, k),
        s.spec_want_leg(accel, dt, l, k),
        s.spec_step(dt),
    );
}

/// A recovery believes its own filter: the one it carries, or one that has
/// seen nothing yet, with this step's sample taken in.
pub proof fn law_recovery_tilt(s: Recovery, a: [i64; 3], dt: int)
    ensures
        s.tilt is Some ==> s.spec_tilt(None, dt) == s.tilt->0,
        s.tilt is Some ==> s.spec_tilt(Some(a), dt) == s.tilt->0.spec_update(a, dt),
        s.tilt is None ==> !s.spec_tilt(None, dt).seeded && s.spec_tilt(None, dt).tau_s
            == 150_000_000,
        s.tilt is None ==> s.spec_tilt(Some(a), dt) == s.spec_tilt(None, dt).spec_update(a, dt),
        s.tilt is None ==> s.spec_tilt(None, dt).g[0] == 0 && s.spec_tilt(None, dt).g[1] == 0
            && s.spec_tilt(None, dt).g[2] == -1_000_000_000,
{
}

/// The fast trajectory runs where it was asked for, and the gentle one
/// otherwise, at the recovery's own time, mirrored where the right side is
/// down.
pub proof fn law_recovery_follows_its_trajectory(
    s: Recovery,
    accel: Option<[i64; 3]>,
    dt: int,
    l: int,
    k: int,
)
    requires
        s.t is Some,
        0 <= l < 4,
        0 <= k < 3,
    ensures
        ({
            let p = if s.fast {
                RecoveryParams::spec_of(RECOVERY_FAST@)
            } else {
                RecoveryParams::spec_of(RECOVERY_GENTLE@)
            };
            let f = s.spec_tilt(accel, dt);
            let (t, up, g) = (s.t->0 as int, f.spec_up(), f.g[1] as int);
            let swap = s.mirror == Some(true) || s.mirror is None && g < -350_000_000;
            &&& s.spec_want_arm(accel, dt) == p.spec_arm(t, up)
            &&& swap ==> s.spec_want_leg(accel, dt, l, k) == p.spec_mirrored().spec_leg(
                t,
                up,
                g,
                l,
                k,
            )
            &&& !swap ==> s.spec_want_leg(accel, dt, l, k) == p.spec_leg(t, up, g, l, k)
            &&& s.slew is None ==> s.spec_rate() == p.max_rate_rad_s
            &&& s.slew is Some ==> s.spec_rate() == s.slew->0.max_rate_rad_s
        }),
{
}

/// A recovery starts each joint from where it is, one without a reading from
/// where it is wanted, and goes on from where it last sent it.
pub proof fn law_recovery_goes_on(
    s: Recovery,
    arm: Option<i64>,
    legs: LegAngles,
    accel: Option<[i64; 3]>,
    dt: int,
    l: int,
    k: int,
)
    requires
        0 <= l < 4,
        0 <= k < 3,
    ensures
        s.slew is Some ==> s.spec_arm_from(arm, accel, dt) == s.slew->0.arm,
        s.slew is Some ==> s.spec_leg_from(legs, accel, dt, l, k) == s.slew->0.legs[l][k],
        s.slew is None && arm is Some ==> s.spec_arm_from(arm, accel, dt) == arm->0,
        s.slew is None && arm is None ==> s.spec_arm_from(arm, accel, dt) == s.spec_want_arm(
            accel,
            dt,
        ),
        s.slew is None && legs[l][k] is Some ==> s.spec_leg_from(legs, accel, dt, l, k)
            == legs[l][k]->0,
        s.slew is None && legs[l][k] is None ==> s.spec_leg_from(legs, accel, dt, l, k)
            == s.spec_want_leg(accel, dt, l, k),
{
}

/// A recovery's step is its rate times the time.
pub proof fn law_recovery_step(s: Recovery, slew: Slew, dt: int)
    requires
        0 <= dt <= 1_000_000_000_000,
        0 <= s.spec_rate() <= 1_000_000_000_000_000,
    ensures
        -1_000_000_000 <= 2 * (s.spec_step(dt) * 1_000_000_000 - s.spec_rate() * dt)
            <= 1_000_000_000,
{
    law_slew_step(Slew { max_rate_rad_s: s.spec_rate(), ..slew }, dt);
}

/// A recovery succeeds with the step that takes its time upright past one
/// second, gives up past twenty, and otherwise goes on.
pub proof fn law_recovery_ends(s: Recovery, accel: Option<[i64; 3]>, dt: int)
    requires
        s.t is Some,
        0 <= s.upright_s <= 1_000_000_000_000,
        0 <= dt <= 1_000_000_000_000,
    ensures
        ({
            let up = s.spec_tilt(accel, dt).spec_up();
            let held = up > 850_000_000 && s.upright_s + dt > 1_000_000_000;
            &&& held ==> s.spec_ended(accel, dt) == Some(true)
            &&& !held && s.t->0 > 20_000_000_000 ==> s.spec_ended(accel, dt) == Some(false)
            &&& !held && s.t->0 <= 20_000_000_000 ==> s.spec_ended(accel, dt) is None
        }),
{
}

/// A recovery that goes on keeps its time, its filter, its side and where it
/// sent the joints; it moves at the stance's rate from the first upright
/// step on. One that has ended keeps nothing.
pub proof fn law_recovery_carries_on(
    s: Recovery,
    accel: Option<[i64; 3]>,
    dt: int,
    r: RecoveryStep,
)
    requires
        s.t is Some,
        0 <= s.t->0 <= 1_000_000_000_000,
        0 <= s.upright_s <= 1_000_000_000_000,
        0 < dt <= 1_000_000_000_000,
    ensures
        ({
            let n = s.spec_next(accel, dt, r);
            let f = s.spec_tilt(accel, dt);
            let up = f.spec_up();
            &&& n.fast == s.fast
            &&& s.spec_ended(accel, dt) is Some ==> n.idle()
            &&& s.spec_ended(accel, dt) is None ==> {
                &&& n.t is Some && n.t->0 == s.t->0 + dt
                &&& n.tilt == Some(f)
                &&& n.slew is Some && n.slew->0.arm == r.arm && n.slew->0.legs == r.legs
                &&& up > 850_000_000 ==> n.upright_s == s.upright_s + dt
                    && n.slew->0.max_rate_rad_s == s.spec_plan().stand_rate_rad_s
                &&& up <= 850_000_000 ==> n.upright_s == 0 && n.slew->0.max_rate_rad_s
                    == s.spec_rate()
                &&& s.mirror is Some ==> n.mirror == s.mirror
                &&& s.mirror is None && f.g[1] > 350_000_000 ==> n.mirror == Some(false)
                &&& s.mirror is None && f.g[1] < -350_000_000 ==> n.mirror == Some(true)
                &&& s.mirror is None && -350_000_000 <= f.g[1] <= 350_000_000 ==> n.mirror is None
            }
        }),
{
}

} // verus!

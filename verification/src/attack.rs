//! Tipping the opponent over with the arm.
//!
//! Three phases, in the order the move is performed. **Set**: the front of
//! the body crouches and the arm swings down. **Creep**: a slow forward
//! command slides the arm underneath. **Lift**: the front legs extend while
//! the arm swings up, so that the body's rise and the arm's rotation add at
//! the tip rather than one waiting for the other.
//!
//! The front crouch goes through the nominal foot heights, so the gait keeps
//! running throughout and the robot can still be walked out of a failed
//! attempt.
use crate::fixed::{
    clamp, fmul, law_product_is_near, law_share_is_near, lemma_lerp, lemma_round_div_near, lerp,
    max, mix, plus, sat, saturate, spec_abs, spec_clamp, spec_max, spec_min, times,
};
use crate::teleop::ARM_RATE_RAD_S;
use vstd::prelude::*;

verus! {

/// One tick of the attack: what to ask of the front legs, the arm and the
/// gait.
#[derive(Clone, Copy, Debug, PartialEq, Eq, Structural)]
pub struct AttackCmd {
    /// Added to the front legs' nominal foot height. Positive crouches: the
    /// nominal measures the foot toward the body.
    pub front_nom_off_m: i64,
    /// Arm joint target; the positive limit is fully down.
    pub arm_rad: i64,
    /// Forward velocity command handed to the gait.
    pub cmd_vx: i64,
}

/// Timings and amplitudes of the move.
#[derive(Clone, Copy, Debug, PartialEq, Eq, Structural)]
pub struct AttackParams {
    /// Time to reach the crouch and get the arm down.
    pub set_s: i64,
    /// How much lower the front nominal goes during the set.
    pub front_drop_m: i64,
    /// Arm angle for the set and the creep.
    pub arm_down: i64,
    /// Time spent creeping forward with the arm low.
    pub creep_s: i64,
    /// Forward command during the creep. Slow: walking into the opponent at
    /// speed pushes it away rather than under.
    pub creep_vx: i64,
    /// Time to extend the front and swing the arm up.
    pub lift_s: i64,
    /// Front nominal offset at the top of the lift. Negative extends the
    /// front legs past the standing nominal.
    pub front_rise_m: i64,
    /// Arm angle at the top of the lift.
    pub arm_up: i64,
    /// Time to hold at the top before handing back.
    pub hold_s: i64,
}

impl Default for AttackParams {
    fn default() -> (r: Self)
        ensures
            r == Self::spec_default(),
    {
        AttackParams {
            set_s: 1_200_000_000,
            front_drop_m: 55_000_000,
            arm_down: 850_000_000,
            creep_s: 2_500_000_000,
            creep_vx: 100_000_000,
            lift_s: 900_000_000,
            front_rise_m: -30_000_000,
            arm_up: -2_300_000_000,
            hold_s: 1_000_000_000,
        }
    }
}

impl AttackParams {
    /// The shipped move.
    pub open spec fn spec_default() -> Self {
        AttackParams {
            set_s: 1_200_000_000,
            front_drop_m: 55_000_000,
            arm_down: 850_000_000,
            creep_s: 2_500_000_000,
            creep_vx: 100_000_000,
            lift_s: 900_000_000,
            front_rise_m: (-30_000_000) as i64,
            arm_up: (-2_300_000_000) as i64,
            hold_s: 1_000_000_000,
        }
    }

    pub open spec fn spec_total_s(self) -> int {
        sat(self.set_s + self.creep_s + self.lift_s + self.hold_s)
    }

    pub fn total_s(&self) -> (r: i64)
        ensures
            r == self.spec_total_s(),
    {
        saturate(self.set_s as i128 + self.creep_s as i128 + self.lift_s as i128 + self.hold_s as i128)
    }

    /// The set's duration, at least a microsecond.
    pub open spec fn spec_set(self) -> int {
        spec_max(self.set_s as int, 1_000)
    }

    /// The lift's duration, at least a microsecond.
    pub open spec fn spec_lift(self) -> int {
        spec_max(self.lift_s as int, 1_000)
    }

    /// The command at time `t`, with `from` and `to` the ends of each ramp.
    pub open spec fn spec_at(self, t: int) -> AttackCmd {
        let lift_from = self.spec_set() + self.creep_s;
        if t < self.spec_set() {
            let s = spec_clamp(t, 0, self.spec_set());
            AttackCmd {
                front_nom_off_m: lerp(0, self.front_drop_m as int, s, self.spec_set()) as i64,
                arm_rad: lerp(0, self.arm_down as int, s, self.spec_set()) as i64,
                cmd_vx: 0,
            }
        } else if t < lift_from {
            AttackCmd {
                front_nom_off_m: self.front_drop_m,
                arm_rad: self.arm_down,
                cmd_vx: self.creep_vx,
            }
        } else {
            let s = spec_clamp(t - lift_from, 0, self.spec_lift());
            AttackCmd {
                front_nom_off_m: lerp(
                    self.front_drop_m as int,
                    self.front_rise_m as int,
                    s,
                    self.spec_lift(),
                ) as i64,
                arm_rad: lerp(self.arm_down as int, self.arm_up as int, s, self.spec_lift()) as i64,
                cmd_vx: 0,
            }
        }
    }

    /// The command `t` into the move.
    pub fn at(&self, t: i64) -> (r: AttackCmd)
        ensures
            r == self.spec_at(t as int),
    {
        let set: i64 = max(self.set_s, 1_000);
        let lift: i64 = max(self.lift_s, 1_000);
        let lift_from: i128 = set as i128 + self.creep_s as i128;
        if t < set {
            let s: i64 = clamp(t, 0, set);
            return AttackCmd {
                front_nom_off_m: mix(0, self.front_drop_m, s, set as i128),
                arm_rad: mix(0, self.arm_down, s, set as i128),
                cmd_vx: 0,
            };
        }
        if (t as i128) < lift_from {
            return AttackCmd {
                front_nom_off_m: self.front_drop_m,
                arm_rad: self.arm_down,
                cmd_vx: self.creep_vx,
            };
        }
        let into: i128 = t as i128 - lift_from;
        let s: i64 = if into > lift as i128 {
            lift
        } else {
            into as i64
        };
        // Stop creeping the moment the lift starts: the opponent is already
        // on the arm, and walking on just drags it along the floor.
        AttackCmd {
            front_nom_off_m: mix(self.front_drop_m, self.front_rise_m, s, lift as i128),
            arm_rad: mix(self.arm_down, self.arm_up, s, lift as i128),
            cmd_vx: 0,
        }
    }
}

/// An attack under way, or not.
///
/// Unlike a recovery this does not take the joints away from the gait.
#[derive(Clone, Copy, Debug, PartialEq, Eq, Structural)]
pub struct AttackRun {
    /// Time into the move, while one is running.
    pub t: Option<i64>,
    /// What it asks for this tick.
    pub now: Option<AttackCmd>,
}

impl AttackRun {
    pub fn new() -> (r: Self)
        ensures
            r == (AttackRun { t: None, now: None }),
    {
        AttackRun { t: None, now: None }
    }

    /// Begin the move from its start.
    pub fn start(&mut self)
        ensures
            *final(self) == (AttackRun { t: Some(0), now: old(self).now }),
    {
        self.t = Some(0);
    }

    /// Give the move up.
    pub fn cancel(&mut self)
        ensures
            *final(self) == (AttackRun { t: None, now: old(self).now }),
    {
        self.t = None;
    }

    /// The run after one tick of `dt`. A recovery wins over an attack: one
    /// is a robot on its back and the other assumes it is standing.
    pub open spec fn spec_advance(self, plan: AttackParams, recovering: bool, dt: int) -> Self {
        if recovering || self.t is None || self.t->0 > plan.spec_total_s() {
            AttackRun { t: None, now: None }
        } else {
            AttackRun {
                t: Some(sat(self.t->0 + dt) as i64),
                now: Some(plan.spec_at(self.t->0 as int)),
            }
        }
    }

    /// Whether the move has come to its end.
    pub open spec fn spec_done(self, plan: AttackParams, recovering: bool) -> bool {
        !recovering && self.t is Some && self.t->0 > plan.spec_total_s()
    }

    /// Advance one tick, and say whether the move has just come to its end.
    pub fn advance(&mut self, plan: &AttackParams, recovering: bool, dt: i64) -> (done: bool)
        ensures
            *final(self) == old(self).spec_advance(*plan, recovering, dt as int),
            done == old(self).spec_done(*plan, recovering),
    {
        self.now = None;
        if recovering {
            self.t = None;
            return false;
        }
        match self.t {
            Some(at) => {
                if at > plan.total_s() {
                    self.t = None;
                    true
                } else {
                    self.now = Some(plan.at(at));
                    self.t = Some(plus(at, dt));
                    false
                }
            },
            None => false,
        }
    }
}

/// The arm's target this tick, if anything moves it: the attack owns the arm
/// while it runs, and otherwise a held key sweeps it within its travel.
pub open spec fn spec_arm_target(
    angle: int,
    attack: Option<AttackCmd>,
    rate: int,
    range: (i64, i64),
    dt: int,
) -> Option<int> {
    match attack {
        Some(a) => Some(spec_clamp(a.arm_rad as int, range.0 as int, range.1 as int)),
        None => if rate != 0 {
            Some(
                spec_clamp(
                    sat(angle + sat(fmul(sat(fmul(rate, ARM_RATE_RAD_S as int)), dt))),
                    range.0 as int,
                    range.1 as int,
                ),
            )
        } else {
            None
        },
    }
}

pub fn arm_target(
    angle: i64,
    attack: Option<AttackCmd>,
    rate: i64,
    range: (i64, i64),
    dt: i64,
) -> (r: Option<i64>)
    requires
        attack is Some || rate != 0 ==> range.0 <= range.1,
    ensures
        match spec_arm_target(angle as int, attack, rate as int, range, dt as int) {
            Some(q) => r is Some && r->0 == q,
            None => r is None,
        },
{
    match attack {
        Some(a) => Some(clamp(a.arm_rad, range.0, range.1)),
        None => {
            if rate != 0 {
                let step: i64 = times(times(rate, ARM_RATE_RAD_S), dt);
                Some(clamp(plus(angle, step), range.0, range.1))
            } else {
                None
            }
        },
    }
}

/// The gait is asked to walk forward only while the arm is being slid
/// underneath the opponent.
pub proof fn law_creeps_only_in_between(p: AttackParams, t: int)
    ensures
        p.spec_at(t).cmd_vx == (if p.spec_set() <= t < p.spec_set() + p.creep_s {
            p.creep_vx
        } else {
            0
        }),
        p.creep_vx != 0 ==> (p.spec_at(t).cmd_vx == p.creep_vx <==> p.spec_set() <= t
            < p.spec_set() + p.creep_s),
{
}

/// The move starts from the standing nominal with the arm level, and each
/// phase starts where the one before it ended.
pub proof fn law_phases_join(p: AttackParams)
    requires
        p.creep_s >= 0,
    ensures
        p.spec_at(0).front_nom_off_m == 0,
        p.spec_at(0).arm_rad == 0,
        p.spec_at(p.spec_set()).front_nom_off_m == p.front_drop_m,
        p.spec_at(p.spec_set()).arm_rad == p.arm_down,
        p.spec_at(p.spec_set() + p.creep_s).front_nom_off_m == p.front_drop_m,
        p.spec_at(p.spec_set() + p.creep_s).arm_rad == p.arm_down,
{
    lemma_lerp(0, p.front_drop_m as int, 0, p.spec_set());
    lemma_lerp(0, p.arm_down as int, 0, p.spec_set());
    lemma_lerp(p.front_drop_m as int, p.front_rise_m as int, 0, p.spec_lift());
    lemma_lerp(p.arm_down as int, p.arm_up as int, 0, p.spec_lift());
}

/// Past the lift the front stays extended and the arm stays up.
pub proof fn law_holds_at_the_top(p: AttackParams, t: int)
    requires
        t >= p.spec_set(),
        t >= p.spec_set() + p.creep_s + p.spec_lift(),
    ensures
        p.spec_at(t) == (AttackCmd {
            front_nom_off_m: p.front_rise_m,
            arm_rad: p.arm_up,
            cmd_vx: 0,
        }),
{
    let d = p.spec_lift();
    lemma_lerp(p.front_drop_m as int, p.front_rise_m as int, d, d);
    lemma_lerp(p.arm_down as int, p.arm_up as int, d, d);
}

/// How far the set's ramp has been taken.
pub open spec fn spec_set_part(p: AttackParams, t: int) -> int {
    spec_clamp(t, 0, p.spec_set())
}

/// How far the lift's ramp has been taken.
pub open spec fn spec_lift_part(p: AttackParams, t: int) -> int {
    spec_clamp(t - p.spec_set() - p.creep_s, 0, p.spec_lift())
}

/// A quantity that ramps from 0 to `low` during the set and on to `high`
/// during the lift, times both durations, so that nothing is rounded.
pub open spec fn spec_unrounded(p: AttackParams, low: int, high: int, t: int) -> int {
    low * p.spec_lift() * spec_set_part(p, t) + (high - low) * p.spec_set() * spec_lift_part(p, t)
}

/// The steeper of the two ramps' slopes, times both durations.
pub open spec fn spec_steepest(p: AttackParams, low: int, high: int) -> int {
    spec_max(spec_abs(low) * p.spec_lift(), spec_abs(high - low) * p.spec_set())
}

/// Rounding moves a ramped quantity by at most half a unit.
proof fn lemma_ramp_near(p: AttackParams, low: int, high: int, t: int, at: int)
    requires
        p.creep_s >= 0,
        t < p.spec_set() ==> at == lerp(0, low, spec_set_part(p, t), p.spec_set()),
        p.spec_set() <= t < p.spec_set() + p.creep_s ==> at == low,
        t >= p.spec_set() + p.creep_s ==> at == lerp(
            low,
            high,
            spec_lift_part(p, t),
            p.spec_lift(),
        ),
    ensures
        ({
            let d = p.spec_set() * p.spec_lift();
            -d <= 2 * (at * d - spec_unrounded(p, low, high, t)) <= d
        }),
{
    let (set, lift) = (p.spec_set(), p.spec_lift());
    let (a, b) = (spec_set_part(p, t), spec_lift_part(p, t));
    let d = set * lift;
    assert(d > 0) by (nonlinear_arith)
        requires
            set > 0,
            lift > 0,
            d == set * lift,
    ;
    if t < set {
        lemma_round_div_near((low - 0) * a, set);
        let e = 2 * (at * set - low * a);
        assert((low - 0) * a == low * a);
        assert(-set <= e <= set);
        assert(2 * (at * d - (low * lift * a + (high - low) * set * b)) == e * lift)
            by (nonlinear_arith)
            requires
                b == 0,
                d == set * lift,
                e == 2 * (at * set - low * a),
        ;
        assert(-d <= e * lift <= d) by (nonlinear_arith)
            requires
                -set <= e <= set,
                lift > 0,
                d == set * lift,
        ;
    } else if t < set + p.creep_s {
        assert(at * d == low * lift * a + (high - low) * set * b) by (nonlinear_arith)
            requires
                at == low,
                a == set,
                b == 0,
                d == set * lift,
        ;
    } else {
        let k = high - low;
        lemma_round_div_near(k * b, lift);
        let r = at - low;
        let e = 2 * (r * lift - k * b);
        assert(-lift <= e <= lift);
        assert(at * (set * lift) == low * lift * set + (r * lift) * set) by (nonlinear_arith)
            requires
                at == low + r,
        ;
        assert(e * set == 2 * ((r * lift) * set) - 2 * ((k * b) * set)) by (nonlinear_arith)
            requires
                e == 2 * (r * lift - k * b),
        ;
        assert((k * b) * set == k * set * b) by (nonlinear_arith);
        assert(a == set);
        assert(2 * (at * d - (low * lift * a + k * set * b)) == e * set);
        assert(-d <= e * set <= d) by (nonlinear_arith)
            requires
                -lift <= e <= lift,
                set > 0,
                d == set * lift,
        ;
    }
}

/// Without rounding, a ramped quantity keeps to its steeper slope.
proof fn lemma_ramp_slope(p: AttackParams, low: int, high: int, t1: int, t2: int)
    requires
        p.creep_s >= 0,
        t1 <= t2,
    ensures
        spec_abs(spec_unrounded(p, low, high, t2) - spec_unrounded(p, low, high, t1))
            <= spec_steepest(p, low, high) * (t2 - t1),
{
    let (u, v) = (low * p.spec_lift(), (high - low) * p.spec_set());
    let da = spec_set_part(p, t2) - spec_set_part(p, t1);
    let db = spec_lift_part(p, t2) - spec_lift_part(p, t1);
    let m = spec_steepest(p, low, high);
    assert(da >= 0 && db >= 0 && da + db <= t2 - t1);
    assert(spec_abs(u) == spec_abs(low) * p.spec_lift()) by (nonlinear_arith)
        requires
            u == low * p.spec_lift(),
            p.spec_lift() > 0,
            spec_abs(u) == u || spec_abs(u) == -u,
            spec_abs(u) >= 0,
            spec_abs(low) == low || spec_abs(low) == -low,
            spec_abs(low) >= 0,
    ;
    assert(spec_abs(v) == spec_abs(high - low) * p.spec_set()) by (nonlinear_arith)
        requires
            v == (high - low) * p.spec_set(),
            p.spec_set() > 0,
            spec_abs(v) == v || spec_abs(v) == -v,
            spec_abs(v) >= 0,
            spec_abs(high - low) == high - low || spec_abs(high - low) == -(high - low),
            spec_abs(high - low) >= 0,
    ;
    assert(-m <= u <= m && -m <= v <= m);
    assert(-(m * da) <= u * da <= m * da) by (nonlinear_arith)
        requires
            -m <= u <= m,
            da >= 0,
    ;
    assert(-(m * db) <= v * db <= m * db) by (nonlinear_arith)
        requires
            -m <= v <= m,
            db >= 0,
    ;
    assert(m * da + m * db <= m * (t2 - t1)) by (nonlinear_arith)
        requires
            da + db <= t2 - t1,
            m >= 0,
    ;
    let (a1, a2) = (spec_set_part(p, t1), spec_set_part(p, t2));
    let (b1, b2) = (spec_lift_part(p, t1), spec_lift_part(p, t2));
    assert(u * a2 + v * b2 - (u * a1 + v * b1) == u * da + v * db) by (nonlinear_arith)
        requires
            da == a2 - a1,
            db == b2 - b1,
    ;
}

/// A ramped quantity changes by no more than its steeper slope allows, and
/// one unit for the rounding of its two ends.
pub open spec fn spec_no_jump(p: AttackParams, low: int, high: int, change: int, dt: int) -> bool {
    spec_abs(change) * (p.spec_set() * p.spec_lift()) <= spec_steepest(p, low, high) * dt
        + p.spec_set() * p.spec_lift()
}

proof fn lemma_no_jump(p: AttackParams, low: int, high: int, t1: int, t2: int, at1: int, at2: int)
    requires
        p.creep_s >= 0,
        t1 <= t2,
        ({
            let d = p.spec_set() * p.spec_lift();
            &&& -d <= 2 * (at1 * d - spec_unrounded(p, low, high, t1)) <= d
            &&& -d <= 2 * (at2 * d - spec_unrounded(p, low, high, t2)) <= d
        }),
    ensures
        spec_no_jump(p, low, high, at2 - at1, t2 - t1),
{
    lemma_ramp_slope(p, low, high, t1, t2);
    let d = p.spec_set() * p.spec_lift();
    let c = at2 - at1;
    assert(c * d == at2 * d - at1 * d) by (nonlinear_arith)
        requires
            c == at2 - at1,
    ;
    assert((-c) * d == -(c * d)) by (nonlinear_arith);
}

/// Nothing jumps: between two times the arm moves by no more than the larger
/// of its two speeds, `|arm_down| / set` and `|arm_up - arm_down| / lift`,
/// times the time between, and the front in the same way, up to the rounding
/// of the angles themselves. Both sides are multiplied by the two durations.
pub proof fn law_never_jumps(p: AttackParams, t1: int, t2: int)
    requires
        p.creep_s >= 0,
        t1 <= t2,
    ensures
        spec_no_jump(
            p,
            p.arm_down as int,
            p.arm_up as int,
            p.spec_at(t2).arm_rad - p.spec_at(t1).arm_rad,
            t2 - t1,
        ),
        spec_no_jump(
            p,
            p.front_drop_m as int,
            p.front_rise_m as int,
            p.spec_at(t2).front_nom_off_m - p.spec_at(t1).front_nom_off_m,
            t2 - t1,
        ),
{
    lemma_at_fits(p, t1);
    lemma_at_fits(p, t2);
    let (d, u) = (p.arm_down as int, p.arm_up as int);
    let (f, r) = (p.front_drop_m as int, p.front_rise_m as int);
    let (a1, a2) = (p.spec_at(t1).arm_rad as int, p.spec_at(t2).arm_rad as int);
    let (f1, f2) = (p.spec_at(t1).front_nom_off_m as int, p.spec_at(t2).front_nom_off_m as int);
    lemma_ramp_near(p, d, u, t1, a1);
    lemma_ramp_near(p, d, u, t2, a2);
    lemma_no_jump(p, d, u, t1, t2, a1, a2);
    lemma_ramp_near(p, f, r, t1, f1);
    lemma_ramp_near(p, f, r, t2, f2);
    lemma_no_jump(p, f, r, t1, t2, f1, f2);
}

/// The ramps stay between their ends, so they fit what holds them.
proof fn lemma_at_fits(p: AttackParams, t: int)
    ensures
        t < p.spec_set() ==> {
            &&& p.spec_at(t).arm_rad == lerp(
                0,
                p.arm_down as int,
                spec_set_part(p, t),
                p.spec_set(),
            )
            &&& p.spec_at(t).front_nom_off_m == lerp(
                0,
                p.front_drop_m as int,
                spec_set_part(p, t),
                p.spec_set(),
            )
        },
        t >= p.spec_set() && t >= p.spec_set() + p.creep_s ==> {
            &&& p.spec_at(t).arm_rad == lerp(
                p.arm_down as int,
                p.arm_up as int,
                spec_lift_part(p, t),
                p.spec_lift(),
            )
            &&& p.spec_at(t).front_nom_off_m == lerp(
                p.front_drop_m as int,
                p.front_rise_m as int,
                spec_lift_part(p, t),
                p.spec_lift(),
            )
        },
{
    lemma_lerp(0, p.front_drop_m as int, spec_set_part(p, t), p.spec_set());
    lemma_lerp(0, p.arm_down as int, spec_set_part(p, t), p.spec_set());
    lemma_lerp(p.front_drop_m as int, p.front_rise_m as int, spec_lift_part(p, t), p.spec_lift());
    lemma_lerp(p.arm_down as int, p.arm_up as int, spec_lift_part(p, t), p.spec_lift());
}

/// The move ends at the top: once all its durations are over the front is
/// extended, the arm is up and the robot stands. That is at its total time,
/// wherever that is not held at the end of the range.
pub proof fn law_ends_at_the_top(p: AttackParams)
    requires
        p.set_s >= 1_000,
        p.creep_s >= 0,
        p.lift_s >= 1_000,
        p.hold_s >= 0,
    ensures
        p.spec_at(p.set_s + p.creep_s + p.lift_s + p.hold_s) == (AttackCmd {
            front_nom_off_m: p.front_rise_m,
            arm_rad: p.arm_up,
            cmd_vx: 0,
        }),
        p.set_s + p.creep_s + p.lift_s + p.hold_s <= i64::MAX ==> p.spec_total_s() == p.set_s
            + p.creep_s + p.lift_s + p.hold_s,
{
    law_holds_at_the_top(p, p.set_s + p.creep_s + p.lift_s + p.hold_s);
}

/// At no time does the move ask for more than its own amplitudes.
pub proof fn law_stays_within_amplitudes(p: AttackParams, t: int)
    ensures
        spec_min(0, spec_min(p.front_drop_m as int, p.front_rise_m as int)) <= p.spec_at(
            t,
        ).front_nom_off_m <= spec_max(0, spec_max(p.front_drop_m as int, p.front_rise_m as int)),
        spec_min(0, spec_min(p.arm_down as int, p.arm_up as int)) <= p.spec_at(t).arm_rad
            <= spec_max(0, spec_max(p.arm_down as int, p.arm_up as int)),
{
    let s = spec_clamp(t, 0, p.spec_set());
    lemma_lerp(0, p.front_drop_m as int, s, p.spec_set());
    lemma_lerp(0, p.arm_down as int, s, p.spec_set());
    let u = spec_clamp(t - p.spec_set() - p.creep_s, 0, p.spec_lift());
    lemma_lerp(p.front_drop_m as int, p.front_rise_m as int, u, p.spec_lift());
    lemma_lerp(p.arm_down as int, p.arm_up as int, u, p.spec_lift());
}

/// A recovery under way ends an attack at once.
pub proof fn law_recovery_wins(run: AttackRun, plan: AttackParams, dt: int)
    ensures
        run.spec_advance(plan, true, dt) == (AttackRun { t: None, now: None }),
{
}

/// Whatever drives the arm, its target stays within its travel.
pub proof fn law_arm_stays_in_range(
    angle: int,
    attack: Option<AttackCmd>,
    rate: int,
    range: (i64, i64),
    dt: int,
)
    requires
        range.0 <= range.1,
    ensures
        match spec_arm_target(angle, attack, rate, range, dt) {
            Some(q) => range.0 <= q <= range.1,
            None => attack is None && rate == 0,
        },
{
}

/// During the set the front crouches and the arm comes down in proportion to
/// the time, and the gait is not asked to walk; before it nothing is asked.
pub proof fn law_set_ramps_in(p: AttackParams, t: int)
    ensures
        ({
            let set = if p.set_s < 1_000 {
                1_000int
            } else {
                p.set_s as int
            };
            let c = p.spec_at(t);
            &&& 0 <= t < set ==> {
                &&& c.cmd_vx == 0
                &&& -set <= 2 * (c.arm_rad * set - p.arm_down * t) <= set
                &&& -set <= 2 * (c.front_nom_off_m * set - p.front_drop_m * t) <= set
            }
            &&& t <= 0 ==> c.arm_rad == 0 && c.front_nom_off_m == 0 && c.cmd_vx == 0
        }),
{
    lemma_at_fits(p, t);
    let set = p.spec_set();
    let s = spec_set_part(p, t);
    law_share_is_near(0, p.arm_down as int, s, set);
    law_share_is_near(0, p.front_drop_m as int, s, set);
    lemma_lerp(0, p.arm_down as int, s, set);
    lemma_lerp(0, p.front_drop_m as int, s, set);
}

/// During the creep the front stays down, the arm stays down and the gait
/// walks at the creeping speed.
pub proof fn law_creep_holds(p: AttackParams, t: int)
    requires
        (if p.set_s < 1_000 {
            1_000
        } else {
            p.set_s as int
        }) <= t,
        t < (if p.set_s < 1_000 {
            1_000
        } else {
            p.set_s as int
        }) + p.creep_s,
    ensures
        p.spec_at(t).arm_rad == p.arm_down,
        p.spec_at(t).front_nom_off_m == p.front_drop_m,
        p.spec_at(t).cmd_vx == p.creep_vx,
{
}

/// During the lift the front extends and the arm swings up in proportion to
/// the time, and from its end on they stay there; the gait stands.
pub proof fn law_lift_ramps_up(p: AttackParams, t: int)
    ensures
        ({
            let set = if p.set_s < 1_000 {
                1_000int
            } else {
                p.set_s as int
            };
            let lift = if p.lift_s < 1_000 {
                1_000int
            } else {
                p.lift_s as int
            };
            let into = t - set - p.creep_s;
            let c = p.spec_at(t);
            &&& t >= set && 0 <= into <= lift ==> {
                &&& c.cmd_vx == 0
                &&& -lift <= 2 * ((c.arm_rad - p.arm_down) * lift - (p.arm_up - p.arm_down) * into)
                    <= lift
                &&& -lift <= 2 * ((c.front_nom_off_m - p.front_drop_m) * lift - (p.front_rise_m
                    - p.front_drop_m) * into) <= lift
            }
            &&& t >= set && into >= lift ==> c.arm_rad == p.arm_up && c.front_nom_off_m
                == p.front_rise_m && c.cmd_vx == 0
        }),
{
    lemma_at_fits(p, t);
    let lift = p.spec_lift();
    let s = spec_lift_part(p, t);
    law_share_is_near(p.arm_down as int, p.arm_up as int, s, lift);
    law_share_is_near(p.front_drop_m as int, p.front_rise_m as int, s, lift);
    lemma_lerp(p.arm_down as int, p.arm_up as int, s, lift);
    lemma_lerp(p.front_drop_m as int, p.front_rise_m as int, s, lift);
}

/// The whole move takes its four durations.
pub proof fn law_total_time(p: AttackParams)
    ensures
        ({
            let sum = p.set_s + p.creep_s + p.lift_s + p.hold_s;
            &&& i64::MIN <= sum <= i64::MAX ==> p.spec_total_s() == sum
            &&& sum > i64::MAX ==> p.spec_total_s() == i64::MAX
            &&& sum < i64::MIN ==> p.spec_total_s() == i64::MIN
        }),
{
}

/// A running attack asks for its command at the present time and moves on by
/// one tick; past its whole time, or without one, it asks for nothing and is
/// over.
pub proof fn law_attack_advances(run: AttackRun, plan: AttackParams, dt: int)
    ensures
        run.t is None ==> run.spec_advance(plan, false, dt).t is None && run.spec_advance(
            plan,
            false,
            dt,
        ).now is None,
        run.t is Some && run.t->0 > plan.spec_total_s() ==> run.spec_advance(plan, false, dt).t
            is None && run.spec_advance(plan, false, dt).now is None,
        run.t is Some && run.t->0 <= plan.spec_total_s() ==> run.spec_advance(plan, false, dt).now
            == Some(plan.spec_at(run.t->0 as int)),
        run.t is Some && run.t->0 <= plan.spec_total_s() && i64::MIN <= run.t->0 + dt <= i64::MAX
            ==> run.spec_advance(plan, false, dt).t is Some && run.spec_advance(plan, false, dt).t->0
            == run.t->0 + dt,
{
}

/// An attack has the arm to itself; without one, a held key sweeps it the way
/// of the rate, at eight tenths of it each second, up to the ends of its
/// travel; without either nothing moves it.
pub proof fn law_what_moves_the_arm(
    angle: i64,
    attack: Option<AttackCmd>,
    rate: int,
    range: (i64, i64),
    dt: int,
)
    requires
        range.0 <= angle <= range.1,
        -1_000_000_000_000 <= rate <= 1_000_000_000_000,
        0 <= dt <= 1_000_000_000_000,
        -1_000_000_000_000_000_000 <= angle <= 1_000_000_000_000_000_000,
    ensures
        ({
            let r = spec_arm_target(angle as int, attack, rate, range, dt);
            &&& r is None <==> attack is None && rate == 0
            &&& attack is Some ==> {
                let a = attack->0.arm_rad;
                &&& range.0 <= a <= range.1 ==> r == Some(a as int)
                &&& a < range.0 ==> r == Some(range.0 as int)
                &&& a > range.1 ==> r == Some(range.1 as int)
            }
            &&& attack is None && rate > 0 ==> r->0 >= angle
            &&& attack is None && rate < 0 ==> r->0 <= angle
            &&& attack is None && rate != 0 && range.0 < r->0 < range.1 ==> -(1_000_000_000 * dt
                + 1_000_000_000_000_000_000) <= 2 * ((r->0 - angle) * 1_000_000_000_000_000_000 - 800_000_000
                * (rate * dt)) <= 1_000_000_000 * dt + 1_000_000_000_000_000_000
        }),
{
    if attack is None && rate != 0 {
        let s1 = fmul(rate, ARM_RATE_RAD_S as int);
        law_product_is_near(rate, ARM_RATE_RAD_S as int);
        assert(rate * ARM_RATE_RAD_S == 800_000_000 * rate);
        let s2 = fmul(s1, dt);
        law_product_is_near(s1, dt);
        assert(-2_000_000_000_000 <= s1 <= 2_000_000_000_000);
        assert(-2_000_000_000_000_000_000_000_000 <= s1 * dt
            <= 2_000_000_000_000_000_000_000_000) by (nonlinear_arith)
            requires
                -2_000_000_000_000 <= s1 <= 2_000_000_000_000,
                0 <= dt <= 1_000_000_000_000,
        ;
        assert(rate > 0 ==> s1 * dt >= 0) by (nonlinear_arith)
            requires
                rate > 0 ==> s1 >= 0,
                dt >= 0,
        ;
        assert(rate < 0 ==> s1 * dt <= 0) by (nonlinear_arith)
            requires
                rate < 0 ==> s1 <= 0,
                dt >= 0,
        ;
        let e = 2 * (s1 * 1_000_000_000 - 800_000_000 * rate);
        assert(-(1_000_000_000 * dt) <= e * dt <= 1_000_000_000 * dt) by (nonlinear_arith)
            requires
                -1_000_000_000 <= e <= 1_000_000_000,
                dt >= 0,
        ;
        assert(e * dt == 2 * (s1 * dt * 1_000_000_000) - 1_600_000_000 * (rate * dt))
            by (nonlinear_arith)
            requires
                e == 2 * (s1 * 1_000_000_000 - 800_000_000 * rate),
        ;
    }
}

/// An attack ends once its time is past its whole length, and only while no
/// recovery runs.
pub proof fn law_attack_ends(run: AttackRun, plan: AttackParams)
    ensures
        run.t is None ==> !run.spec_done(plan, false),
        run.t is Some ==> (run.spec_done(plan, false) <==> run.t->0 > plan.spec_total_s()),
        !run.spec_done(plan, true),
{
}

/// The shipped move: how long each part of it takes, and how far it goes.
pub proof fn law_shipped_move(t: int)
    ensures
        ({
            let p = AttackParams::spec_default();
            &&& p.spec_total_s() == 5_600_000_000
            &&& 1_200_000_000 <= t < 3_700_000_000 ==> p.spec_at(t).cmd_vx == 100_000_000
                && p.spec_at(t).arm_rad == 850_000_000 && p.spec_at(t).front_nom_off_m == 55_000_000
            &&& t < 1_200_000_000 || t >= 3_700_000_000 ==> p.spec_at(t).cmd_vx == 0
            &&& t >= 4_600_000_000 ==> p.spec_at(t).arm_rad == -2_300_000_000 && p.spec_at(
                t,
            ).front_nom_off_m == -30_000_000
        }),
{
    law_lift_ramps_up(AttackParams::spec_default(), t);
}

} // verus!

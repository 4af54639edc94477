//! Corrections to swinging legs: lifting a foot that has hit something,
//! aiming a foothold at the terrain, and leaning the hips after a collision.
//!
//! Points are in the body frame, x forward and z up.
use crate::fixed::{
    cap, fmul, isqrt, law_product_is_near, law_root, lemma_isqrt_unique, lemma_round_div_exact,
    pile, plus, root, sat, saturate, scaled, spec_max, spec_min, square, square_gap, times, ONE,
};
use vstd::prelude::*;

verus! {

/// Lifting a swing foot that is not where it should be.
#[derive(Clone, Copy, Debug, PartialEq, Eq, Structural)]
pub struct ContactReflexCfg {
    /// Distance from the nominal foot that counts as a collision.
    pub trigger_m: i64,
    /// Distance from the lifted foot at which the reflex lets go.
    pub resume_m: i64,
    /// How far the foot is lifted.
    pub lift_m: i64,
    /// Whether the gait's phase clock stops while any leg is lifted.
    pub freeze_phase_during_reflex: bool,
}

/// Aiming a swing at the terrain it is going to land on.
#[derive(Clone, Copy, Debug, PartialEq, Eq, Structural)]
pub struct TerrainFootplanCfg {
    /// Height to keep above the terrain.
    pub clearance_m: i64,
    /// Margin to keep from a tread's edges; 0 leaves the foothold where the
    /// gait wanted it.
    pub horizontal_margin_m: i64,
}

/// Leaning the hips apart for a while after a collision.
#[derive(Clone, Copy, Debug, PartialEq, Eq, Structural)]
pub struct HipBiasGateCfg {
    /// Tracking error that opens the window.
    pub trigger_m: i64,
    /// Bias at the trigger itself.
    pub bias_mag: i64,
    /// Bias added for each unit of error past the trigger.
    pub bias_gain: i64,
    pub max_bias_rad: i64,
    /// How long the window stays open.
    pub duration_s: i64,
}

/// One leg as the corrections see it.
#[derive(Clone, Copy, Debug)]
pub struct SwingLeg {
    pub is_stance: bool,
    /// Where the gait wants the foot.
    pub nominal: [i64; 3],
    /// Where the joints say it is.
    pub measured: [i64; 3],
}

/// The squared distance between two points.
pub open spec fn dist_sq(a: [i64; 3], b: [i64; 3]) -> int {
    (a[0] - b[0]) * (a[0] - b[0]) + (a[1] - b[1]) * (a[1] - b[1]) + (a[2] - b[2]) * (a[2] - b[2])
}

/// The squared distance between two points, held at the top of the range.
pub fn distance_sq(a: &[i64; 3], b: &[i64; 3]) -> (r: u128)
    ensures
        r == cap(dist_sq(*a, *b)),
{
    pile(pile(square_gap(a[0], b[0]), square_gap(a[1], b[1])), square_gap(a[2], b[2]))
}

/// A distance, given squared, is more than `limit`.
pub open spec fn further_than(d_sq: int, limit: int) -> bool {
    limit < 0 || d_sq > limit * limit
}

/// A distance, given squared, is less than `limit`.
pub open spec fn nearer_than(d_sq: int, limit: int) -> bool {
    limit > 0 && d_sq < limit * limit
}

fn is_further(d_sq: u128, limit: i64) -> (r: bool)
    ensures
        r == further_than(d_sq as int, limit as int),
        forall|d: int| d_sq == #[trigger] cap(d) ==> r == further_than(d, limit as int),
{
    limit < 0 || d_sq > square(limit)
}

fn is_nearer(d_sq: u128, limit: i64) -> (r: bool)
    ensures
        r == nearer_than(d_sq as int, limit as int),
        forall|d: int| d_sq == #[trigger] cap(d) ==> r == nearer_than(d, limit as int),
{
    limit > 0 && d_sq < square(limit)
}

/// The nominal foot, lifted.
pub open spec fn spec_lifted(nominal: [i64; 3], lift: int) -> [i64; 3] {
    [nominal[0], nominal[1], sat(nominal[2] + lift) as i64]
}

/// Whether a leg is lifted after this tick. The trigger compares with the
/// nominal foot, which is the collision signal; letting go compares with the
/// lifted foot, because that is where a lifted leg is heading.
pub open spec fn spec_reflex(cfg: ContactReflexCfg, active: bool, leg: SwingLeg) -> bool {
    if leg.is_stance {
        false
    } else if active {
        !nearer_than(
            dist_sq(spec_lifted(leg.nominal, cfg.lift_m as int), leg.measured),
            cfg.resume_m as int,
        )
    } else {
        further_than(dist_sq(leg.nominal, leg.measured), cfg.trigger_m as int)
    }
}

fn reflex_leg(cfg: &ContactReflexCfg, active: bool, leg: &SwingLeg) -> (r: Option<[i64; 3]>)
    ensures
        r is Some <==> spec_reflex(*cfg, active, *leg),
        r is Some ==> r->0 == spec_lifted(leg.nominal, cfg.lift_m as int),
{
    if leg.is_stance {
        return None;
    }
    let lifted: [i64; 3] = [leg.nominal[0], leg.nominal[1], plus(leg.nominal[2], cfg.lift_m)];
    assert(lifted =~= spec_lifted(leg.nominal, cfg.lift_m as int));
    let lift = if active {
        !is_nearer(distance_sq(&lifted, &leg.measured), cfg.resume_m)
    } else {
        is_further(distance_sq(&leg.nominal, &leg.measured), cfg.trigger_m)
    };
    if lift {
        Some(lifted)
    } else {
        None
    }
}

/// Which legs are being lifted clear of something.
#[derive(Clone, Copy, Debug)]
pub struct Reflex {
    pub active: [bool; 4],
}

impl Reflex {
    pub fn new() -> (r: Self)
        ensures
            forall|i: int| 0 <= i < 4 ==> !#[trigger] r.active[i],
    {
        Reflex { active: [false, false, false, false] }
    }

    /// The gait's phase clock stands still: that is asked for, and some leg
    /// is lifted.
    pub open spec fn spec_freezes(self, cfg: Option<ContactReflexCfg>) -> bool {
        cfg is Some && cfg->0.freeze_phase_during_reflex && exists|i: int|
            0 <= i < 4 && #[trigger] self.active[i]
    }

    /// Whether the gait's phase clock stands still this tick.
    pub fn freezes_phase(&self, cfg: Option<ContactReflexCfg>) -> (r: bool)
        ensures
            r == self.spec_freezes(cfg),
    {
        match cfg {
            Some(c) => {
                let any = self.active[0] || self.active[1] || self.active[2] || self.active[3];
                assert(any ==> self.active[0] || self.active[1] || self.active[2]
                    || self.active[3]);
                c.freeze_phase_during_reflex && any
            },
            None => false,
        }
    }

    /// Update every leg and return, for each lifted one, where its foot
    /// should go instead. The lift is added to the intended touchdown: going
    /// straight up from where the foot is stuck would bring it back down on
    /// the same edge.
    pub fn step(&mut self, cfg: &ContactReflexCfg, legs: &[SwingLeg; 4]) -> (r: [Option<
        [i64; 3],
    >; 4])
        ensures
            forall|i: int|
                0 <= i < 4 ==> {
                    &&& #[trigger] final(self).active[i] == spec_reflex(
                        *cfg,
                        old(self).active[i],
                        legs[i],
                    )
                    &&& r[i] is Some <==> final(self).active[i]
                    &&& r[i] is Some ==> r[i]->0 == spec_lifted(
                        legs[i].nominal,
                        cfg.lift_m as int,
                    )
                },
    {
        let r: [Option<[i64; 3]>; 4] = [
            reflex_leg(cfg, self.active[0], &legs[0]),
            reflex_leg(cfg, self.active[1], &legs[1]),
            reflex_leg(cfg, self.active[2], &legs[2]),
            reflex_leg(cfg, self.active[3], &legs[3]),
        ];
        self.active = [r[0].is_some(), r[1].is_some(), r[2].is_some(), r[3].is_some()];
        r
    }
}

/// The world x of a body-frame point, for a body at `body_x` whose heading
/// has cosine `cy` and sine `sy`.
pub open spec fn spec_world_x(body_x: int, cy: int, sy: int, x: int, y: int) -> int {
    sat(body_x + fmul(cy, x) - fmul(sy, y))
}

pub fn world_x(body_x: i64, cy: i64, sy: i64, x: i64, y: i64) -> (r: i64)
    ensures
        r == spec_world_x(body_x as int, cy as int, sy as int, x as int, y as int),
{
    saturate(body_x as i128 + scaled(cy, x as i128) - scaled(sy, y as i128))
}

/// Ground no higher than this counts as flat.
pub const FLAT_M: i64 = 1_000;

/// A swing that is about to land somewhere.
#[derive(Clone, Copy, Debug)]
pub struct Landing {
    /// This tick's point of the swing arc.
    pub nominal: [i64; 3],
    /// World x the gait's planner is going to land at.
    pub touch_down_x: i64,
    /// Terrain height there.
    pub terrain_z: i64,
    /// The same x, moved onto the nearest tread.
    pub snapped_x: i64,
    /// Height of the trunk.
    pub body_z: i64,
    /// Cosine and sine of the heading.
    pub cy: i64,
    pub sy: i64,
}

impl Landing {
    /// How far the foothold is moved along the world's x.
    pub open spec fn spec_delta(self, cfg: TerrainFootplanCfg) -> int {
        if cfg.horizontal_margin_m > 0 {
            self.snapped_x - self.touch_down_x
        } else {
            0
        }
    }

    /// Where the foot should go instead: moved with the foothold, and high
    /// enough for the terrain but never below the open-loop arc.
    pub open spec fn spec_aim(self, cfg: TerrainFootplanCfg) -> [i64; 3] {
        [
            sat(self.nominal[0] + fmul(self.cy as int, self.spec_delta(cfg))) as i64,
            sat(self.nominal[1] - fmul(self.sy as int, self.spec_delta(cfg))) as i64,
            spec_max(
                sat(self.terrain_z + cfg.clearance_m - self.body_z),
                self.nominal[2] as int,
            ) as i64,
        ]
    }

    /// Whether the swing lands above the flat.
    pub open spec fn spec_aims(self) -> bool {
        self.terrain_z > FLAT_M
    }

    /// Aim a swing at the terrain, or leave one that lands on the flat
    /// alone. The foothold moves by multiplying with the heading rather than
    /// dividing by it, which stays bounded at any yaw.
    pub fn aim(&self, cfg: &TerrainFootplanCfg) -> (r: Option<[i64; 3]>)
        ensures
            r is Some <==> self.spec_aims(),
            r is Some ==> r->0 == self.spec_aim(*cfg),
    {
        if self.terrain_z <= FLAT_M {
            return None;
        }
        let delta: i128 = if cfg.horizontal_margin_m > 0 {
            self.snapped_x as i128 - self.touch_down_x as i128
        } else {
            0
        };
        let x: i64 = saturate(self.nominal[0] as i128 + scaled(self.cy, delta));
        let y: i64 = saturate(self.nominal[1] as i128 - scaled(self.sy, delta));
        let over: i64 = saturate(
            self.terrain_z as i128 + cfg.clearance_m as i128 - self.body_z as i128,
        );
        let z: i64 = if over > self.nominal[2] {
            over
        } else {
            self.nominal[2]
        };
        let aim: [i64; 3] = [x, y, z];
        assert(aim =~= self.spec_aim(*cfg));
        Some(aim)
    }
}

/// The larger of a running maximum and the squared tracking error of a leg;
/// a leg in stance cannot be mid-collision.
pub open spec fn worse(max_sq: int, leg: SwingLeg) -> int {
    if leg.is_stance {
        max_sq
    } else {
        spec_max(max_sq, cap(dist_sq(leg.nominal, leg.measured)))
    }
}

/// The largest squared tracking error over the swinging legs.
pub open spec fn worst_sq(legs: [SwingLeg; 4]) -> int {
    worse(worse(worse(worse(0, legs[0]), legs[1]), legs[2]), legs[3])
}

fn worse_of(max_sq: u128, leg: &SwingLeg) -> (r: u128)
    ensures
        r == worse(max_sq as int, *leg),
{
    if leg.is_stance {
        return max_sq;
    }
    let d: u128 = distance_sq(&leg.nominal, &leg.measured);
    if d > max_sq {
        d
    } else {
        max_sq
    }
}

/// The hip bias window: when it closes again, and the magnitude latched when it
/// last opened.
#[derive(Clone, Copy, Debug, PartialEq, Eq, Structural)]
pub struct HipGate {
    pub open_until: Option<i64>,
    pub bias_now: i64,
}

impl HipGate {
    pub fn new() -> (r: Self)
        ensures
            r == (HipGate { open_until: None, bias_now: 0 }),
    {
        HipGate { open_until: None, bias_now: 0 }
    }

    /// The magnitude for a tracking error of `err`.
    pub open spec fn spec_magnitude(cfg: HipBiasGateCfg, err: int) -> int {
        spec_min(
            sat(cfg.bias_mag + fmul(cfg.bias_gain as int, err - cfg.trigger_m)),
            cfg.max_bias_rad as int,
        )
    }

    /// The window after one tick at time `t`. A trigger while it is open keeps
    /// it open for longer and leaves the magnitude alone, so a later smaller
    /// error cannot shrink a correction under way.
    pub open spec fn spec_step(self, cfg: HipBiasGateCfg, t: int, legs: [SwingLeg; 4]) -> Self {
        if further_than(worst_sq(legs), cfg.trigger_m as int) {
            HipGate {
                open_until: Some(sat(t + cfg.duration_s) as i64),
                bias_now: if self.is_open(t) {
                    self.bias_now
                } else {
                    Self::spec_magnitude(cfg, sat(isqrt(worst_sq(legs)))) as i64
                },
            }
        } else {
            self
        }
    }

    /// Whether the window is open at time `t`.
    pub open spec fn is_open(self, t: int) -> bool {
        self.open_until is Some && t < self.open_until->0
    }

    /// Update the window, and return the bias to apply while it is open.
    pub fn step(&mut self, cfg: &HipBiasGateCfg, t: i64, legs: &[SwingLeg; 4]) -> (r: Option<i64>)
        ensures
            *final(self) == old(self).spec_step(*cfg, t as int, *legs),
            r is Some <==> final(self).is_open(t as int),
            r is Some ==> r->0 == final(self).bias_now,
    {
        let w0: u128 = worse_of(0, &legs[0]);
        let w1: u128 = worse_of(w0, &legs[1]);
        let w2: u128 = worse_of(w1, &legs[2]);
        let worst: u128 = worse_of(w2, &legs[3]);
        if is_further(worst, cfg.trigger_m) {
            let already_open = match self.open_until {
                Some(until) => t < until,
                None => false,
            };
            if !already_open {
                let err: i64 = root(worst);
                let raw: i64 = saturate(
                    cfg.bias_mag as i128 + scaled(
                        cfg.bias_gain,
                        err as i128 - cfg.trigger_m as i128,
                    ),
                );
                self.bias_now = if raw < cfg.max_bias_rad {
                    raw
                } else {
                    cfg.max_bias_rad
                };
            }
            self.open_until = Some(plus(t, cfg.duration_s));
        }
        match self.open_until {
            Some(until) => {
                if t < until {
                    Some(self.bias_now)
                } else {
                    None
                }
            },
            None => None,
        }
    }
}

/// The bias of one leg's hip: left legs (0 and 2) lean one way, right legs
/// the other.
pub open spec fn spec_leg_bias(slot: int, bias: int) -> int {
    if slot == 0 || slot == 2 {
        bias
    } else {
        sat(-bias)
    }
}

fn leg_bias(slot: usize, bias: i64) -> (r: i64)
    ensures
        r == spec_leg_bias(slot as int, bias as int),
{
    if slot == 0 || slot == 2 {
        bias
    } else {
        saturate(-(bias as i128))
    }
}

/// The hip angle of leg `s`, leaned.
pub open spec fn spec_leaned(q: int, s: int, bias: int) -> int {
    sat(q + spec_leg_bias(s, bias))
}

/// The target of joint `j`, moved with its hip where it is one.
pub open spec fn spec_lean_target(target: int, sign: int, j: int, bias: int) -> int {
    if j % 3 == 0 {
        sat(target + sat(fmul(sign, spec_leg_bias(j / 3, bias))))
    } else {
        target
    }
}

/// Lean the hips: add the bias to the gait's own hip angles and, through
/// each hip's sign, to the joint targets, so that both agree.
pub fn lean_hips(q_hip: &mut [i64; 4], targets: &mut [i64; 12], signs: &[i64; 4], bias: i64)
    ensures
        forall|s: int|
            0 <= s < 4 ==> #[trigger] final(q_hip)[s] == spec_leaned(
                old(q_hip)[s] as int,
                s,
                bias as int,
            ),
        forall|j: int|
            0 <= j < 12 ==> #[trigger] final(targets)[j] == spec_lean_target(
                old(targets)[j] as int,
                signs[j / 3] as int,
                j,
                bias as int,
            ),
{
    let mut s: usize = 0;
    while s < 4
        invariant
            s <= 4,
            forall|i: int|
                0 <= i < s ==> #[trigger] q_hip[i] == sat(
                    old(q_hip)[i] + spec_leg_bias(i, bias as int),
                ),
            forall|i: int| s <= i < 4 ==> #[trigger] q_hip[i] == old(q_hip)[i],
            forall|j: int|
                0 <= j < 12 ==> #[trigger] targets[j] == (if j % 3 == 0 && j < 3 * s {
                    sat(
                        old(targets)[j] + sat(
                            fmul(signs[j / 3] as int, spec_leg_bias(j / 3, bias as int)),
                        ),
                    )
                } else {
                    old(targets)[j] as int
                }),
        decreases 4 - s,
    {
        let b: i64 = leg_bias(s, bias);
        q_hip[s] = plus(q_hip[s], b);
        targets[3 * s] = plus(targets[3 * s], times(signs[s], b));
        s = s + 1;
    }
}

/// A leg the gait puts on the ground is never lifted.
pub proof fn law_stance_ends_the_reflex(cfg: ContactReflexCfg, active: bool, leg: SwingLeg)
    requires
        leg.is_stance,
    ensures
        !spec_reflex(cfg, active, leg),
{
}

/// A lifted leg that reaches its lifted foot lets go, whatever the size of
/// the lift, so a reflex cannot hold itself for ever.
pub proof fn law_reflex_lets_go(cfg: ContactReflexCfg, leg: SwingLeg)
    requires
        cfg.resume_m > 0,
        leg.measured == spec_lifted(leg.nominal, cfg.lift_m as int),
    ensures
        !spec_reflex(cfg, true, leg),
{
    let r = cfg.resume_m as int;
    assert(r * r > 0) by (nonlinear_arith)
        requires
            r > 0,
    ;
}

/// A foot that is exactly where the gait wants it triggers nothing.
pub proof fn law_tracking_triggers_nothing(cfg: ContactReflexCfg, leg: SwingLeg)
    requires
        cfg.trigger_m >= 0,
        leg.measured == leg.nominal,
    ensures
        !spec_reflex(cfg, false, leg),
{
    let t = cfg.trigger_m as int;
    assert(t * t >= 0) by (nonlinear_arith);
}

/// Aiming only adds clearance: it never shortcuts a foot down early.
pub proof fn law_aim_never_lowers(l: Landing, cfg: TerrainFootplanCfg)
    ensures
        l.spec_aim(cfg)[2] >= l.nominal[2],
{
}

/// A foothold that is not moved leaves the swing arc's x and y alone.
pub proof fn law_unmoved_foothold(l: Landing, cfg: TerrainFootplanCfg)
    requires
        cfg.horizontal_margin_m <= 0 || l.snapped_x == l.touch_down_x,
    ensures
        l.spec_aim(cfg)[0] == l.nominal[0],
        l.spec_aim(cfg)[1] == l.nominal[1],
{
    let (cy, sy) = (l.cy as int, l.sy as int);
    assert(cy * 0 == 0 && sy * 0 == 0) by (nonlinear_arith);
    lemma_round_div_exact(0, ONE as int);
}

/// While the window is open its bias is what it was when it opened.
pub proof fn law_bias_is_latched(g: HipGate, cfg: HipBiasGateCfg, t: int, legs: [SwingLeg; 4])
    requires
        g.is_open(t),
    ensures
        g.spec_step(cfg, t, legs).bias_now == g.bias_now,
{
}

/// A window that opens does so with a bias within its cap.
pub proof fn law_bias_is_capped(g: HipGate, cfg: HipBiasGateCfg, t: int, legs: [SwingLeg; 4])
    requires
        !g.is_open(t),
        g.spec_step(cfg, t, legs).is_open(t),
    ensures
        g.spec_step(cfg, t, legs).bias_now <= cfg.max_bias_rad,
{
}

/// The window closes again: a tick without a collision, at or past the closing
/// time, finds it shut.
pub proof fn law_gate_closes(g: HipGate, cfg: HipBiasGateCfg, t: int, legs: [SwingLeg; 4])
    requires
        !further_than(worst_sq(legs), cfg.trigger_m as int),
        g.open_until is None || t >= g.open_until->0,
    ensures
        !g.spec_step(cfg, t, legs).is_open(t),
{
}

/// The lean is the same on both sides, outward and inward.
pub proof fn law_lean_is_symmetric(bias: i64)
    requires
        bias > i64::MIN,
    ensures
        spec_leg_bias(0, bias as int) == -spec_leg_bias(1, bias as int),
        spec_leg_bias(2, bias as int) == -spec_leg_bias(3, bias as int),
        spec_leg_bias(0, bias as int) == spec_leg_bias(2, bias as int),
{
}

/// A swinging foot is lifted when it is further from where the gait wants it
/// than the trigger, in any direction; once lifted it is let go when it is
/// nearer to the lifted place than the resume distance.
pub proof fn law_reflex(cfg: ContactReflexCfg, leg: SwingLeg)
    requires
        !leg.is_stance,
        cfg.trigger_m >= 0,
        cfg.resume_m > 0,
        i64::MIN <= leg.nominal[2] + cfg.lift_m <= i64::MAX,
    ensures
        ({
            let (n, m) = (leg.nominal, leg.measured);
            let (dx, dy, dz) = (m[0] - n[0], m[1] - n[1], m[2] - n[2]);
            let up = dz - cfg.lift_m;
            &&& spec_reflex(cfg, false, leg) <==> dx * dx + dy * dy + dz * dz > cfg.trigger_m
                * cfg.trigger_m
            &&& spec_reflex(cfg, true, leg) <==> dx * dx + dy * dy + up * up >= cfg.resume_m
                * cfg.resume_m
        }),
{
    let (n, m) = (leg.nominal, leg.measured);
    let (dx, dy, dz) = (m[0] - n[0], m[1] - n[1], m[2] - n[2]);
    let up = dz - cfg.lift_m;
    lemma_square_even(dx);
    lemma_square_even(dy);
    lemma_square_even(dz);
    lemma_square_even(up);
    let lifted = spec_lifted(n, cfg.lift_m as int);
    assert(lifted[2] - m[2] == -up);
    assert(n[0] - m[0] == -dx && n[1] - m[1] == -dy && n[2] - m[2] == -dz);
}

proof fn lemma_square_even(x: int)
    ensures
        (-x) * (-x) == x * x,
{
    assert((-x) * (-x) == x * x) by (nonlinear_arith);
}

/// Lifting moves a foot straight up, by the lift.
pub proof fn law_lifted(nominal: [i64; 3], lift: int)
    ensures
        spec_lifted(nominal, lift)[0] == nominal[0],
        spec_lifted(nominal, lift)[1] == nominal[1],
        i64::MIN <= nominal[2] + lift <= i64::MAX ==> spec_lifted(nominal, lift)[2] == nominal[2]
            + lift,
{
}

/// The clock stands still only where that is asked for and some leg is
/// lifted.
pub proof fn law_freeze(active: [bool; 4], cfg: Option<ContactReflexCfg>, i: int)
    requires
        0 <= i < 4,
    ensures
        cfg is None ==> !(Reflex { active }).spec_freezes(cfg),
        cfg is Some && !cfg->0.freeze_phase_during_reflex ==> !(Reflex { active }).spec_freezes(cfg),
        !active[0] && !active[1] && !active[2] && !active[3] ==> !(Reflex { active }).spec_freezes(
            cfg,
        ),
        cfg is Some && cfg->0.freeze_phase_during_reflex && active[i] ==> (Reflex {
            active,
        }).spec_freezes(cfg),
{
    let r = Reflex { active };
    assert(r.active[i] == active[i]);
    if r.spec_freezes(cfg) {
        let k = choose|k: int| 0 <= k < 4 && #[trigger] r.active[k];
        assert(active[k]);
    }
}

/// A point in front of the body lies along its heading, one to its left a
/// quarter turn further, to within the rounding of the two products.
pub proof fn law_world_x(body_x: int, cy: int, sy: int, x: int, y: int)
    requires
        i64::MIN < spec_world_x(body_x, cy, sy, x, y) < i64::MAX,
    ensures
        -1_000_000_000 <= spec_world_x(body_x, cy, sy, x, y) * 1_000_000_000 - (body_x
            * 1_000_000_000 + cy * x - sy * y) <= 1_000_000_000,
{
    law_product_is_near(cy, x);
    law_product_is_near(sy, y);
}

/// A swing that lands above the flat is aimed: the foot moves as the foothold
/// was moved, turned into the body's own frame, and passes over the terrain
/// with the clearance, or over it on its own arc where that is higher. One
/// that lands on the flat is left alone.
pub proof fn law_aim(l: Landing, cfg: TerrainFootplanCfg)
    ensures
        l.spec_aims() <==> l.terrain_z > 1_000,
        ({
            let a = l.spec_aim(cfg);
            let moved = l.snapped_x - l.touch_down_x;
            let over = l.terrain_z + cfg.clearance_m - l.body_z;
            &&& cfg.horizontal_margin_m > 0 && i64::MIN < a[0] < i64::MAX ==> -1_000_000_000 <= 2 * ((
            a[0] - l.nominal[0]) * 1_000_000_000 - l.cy * moved) <= 1_000_000_000
            &&& cfg.horizontal_margin_m > 0 && i64::MIN < a[1] < i64::MAX ==> -1_000_000_000 <= 2 * ((
            a[1] - l.nominal[1]) * 1_000_000_000 + l.sy * moved) <= 1_000_000_000
            &&& i64::MIN <= over <= i64::MAX && over >= l.nominal[2] ==> a[2] == over
            &&& over <= l.nominal[2] ==> a[2] == l.nominal[2]
        }),
{
    let moved = l.snapped_x - l.touch_down_x;
    law_product_is_near(l.cy as int, moved);
    law_product_is_near(l.sy as int, moved);
}

/// The worst tracking error is the largest over the swinging legs: none is
/// larger, it is one of theirs, and a leg in stance has no say.
pub proof fn law_worst(legs: [SwingLeg; 4], i: int)
    requires
        0 <= i < 4,
        forall|k: int|
            0 <= k < 4 ==> dist_sq((#[trigger] legs[k]).nominal, legs[k].measured) <= u128::MAX,
    ensures
        worst_sq(legs) >= 0,
        !legs[i].is_stance ==> worst_sq(legs) >= dist_sq(legs[i].nominal, legs[i].measured),
        worst_sq(legs) == 0 || exists|k: int|
            0 <= k < 4 && !(#[trigger] legs[k]).is_stance && worst_sq(legs) == dist_sq(
                legs[k].nominal,
                legs[k].measured,
            ),
{
    let w0 = worse(0, legs[0]);
    let w1 = worse(w0, legs[1]);
    let w2 = worse(w1, legs[2]);
    let w3 = worse(w2, legs[3]);
    assert(w3 == worst_sq(legs));
    assert(cap(dist_sq(legs[0].nominal, legs[0].measured)) == dist_sq(
        legs[0].nominal,
        legs[0].measured,
    ));
    assert(w3 == w2 || (!legs[3].is_stance && w3 == dist_sq(legs[3].nominal, legs[3].measured)));
    assert(w2 == w1 || (!legs[2].is_stance && w2 == dist_sq(legs[2].nominal, legs[2].measured)));
    assert(w1 == w0 || (!legs[1].is_stance && w1 == dist_sq(legs[1].nominal, legs[1].measured)));
    assert(w0 == 0 || (!legs[0].is_stance && w0 == dist_sq(legs[0].nominal, legs[0].measured)));
}

/// A tracking error past the trigger opens the window, or keeps it open, for
/// its duration from now; anything less leaves it as it was.
pub proof fn law_window(g: HipGate, cfg: HipBiasGateCfg, t: int, legs: [SwingLeg; 4])
    requires
        cfg.trigger_m >= 0,
        i64::MIN <= t + cfg.duration_s <= i64::MAX,
    ensures
        worst_sq(legs) <= cfg.trigger_m * cfg.trigger_m ==> g.spec_step(cfg, t, legs) == g,
        worst_sq(legs) > cfg.trigger_m * cfg.trigger_m ==> {
            let n = g.spec_step(cfg, t, legs);
            &&& n.open_until is Some && n.open_until->0 == t + cfg.duration_s
            &&& n.is_open(t) <==> cfg.duration_s > 0
        },
{
}

/// The bias starts at its size and grows with the error past the trigger, up
/// to its cap.
pub proof fn law_bias_grows(cfg: HipBiasGateCfg, err: int)
    ensures
        ({
            let m = HipGate::spec_magnitude(cfg, err);
            &&& m <= cfg.max_bias_rad
            &&& i64::MIN < m < cfg.max_bias_rad ==> -1_000_000_000 <= 2 * ((m - cfg.bias_mag)
                * 1_000_000_000 - cfg.bias_gain * (err - cfg.trigger_m)) <= 1_000_000_000
            &&& err == cfg.trigger_m && cfg.bias_mag <= cfg.max_bias_rad ==> m == cfg.bias_mag
        }),
{
    let (k, d) = (cfg.bias_gain as int, err - cfg.trigger_m);
    law_product_is_near(k, d);
    if d == 0 {
        assert(k * d == 0) by (nonlinear_arith)
            requires
                d == 0,
        ;
        lemma_round_div_exact(0, ONE as int);
    }
}

/// A window that opens takes the bias of the error that opened it, measured
/// as a distance.
pub proof fn law_bias_is_of_the_error(
    g: HipGate,
    cfg: HipBiasGateCfg,
    t: int,
    legs: [SwingLeg; 4],
    err: int,
)
    requires
        !g.is_open(t),
        cfg.trigger_m >= 0,
        worst_sq(legs) > cfg.trigger_m * cfg.trigger_m,
        0 <= err <= i64::MAX,
        err * err <= worst_sq(legs) < (err + 1) * (err + 1),
    ensures
        g.spec_step(cfg, t, legs).bias_now == HipGate::spec_magnitude(cfg, err),
{
    let w = worst_sq(legs);
    law_root(w);
    lemma_isqrt_unique(w, err, isqrt(w));
}

/// Leaning adds the bias to the left hips and takes it from the right ones,
/// and moves the targets of the hips, and no others, with each hip's sign.
pub proof fn law_lean(q: i64, target: i64, sign: i64, bias: i64, s: int)
    requires
        0 <= s < 4,
        -1_000_000_000_000_000_000 <= q <= 1_000_000_000_000_000_000,
        -1_000_000_000_000_000_000 <= target <= 1_000_000_000_000_000_000,
        -1_000_000_000_000_000_000 <= bias <= 1_000_000_000_000_000_000,
        sign == 1_000_000_000 || sign == -1_000_000_000,
    ensures
        ({
            let left = s == 0 || s == 2;
            let lean = if left {
                bias as int
            } else {
                -bias
            };
            &&& spec_leaned(q as int, s, bias as int) == q + lean
            &&& spec_lean_target(target as int, sign as int, 3 * s, bias as int) == (if sign > 0 {
                target + lean
            } else {
                target - lean
            })
            &&& spec_lean_target(target as int, sign as int, 3 * s + 1, bias as int) == target
            &&& spec_lean_target(target as int, sign as int, 3 * s + 2, bias as int) == target
        }),
{
    let b = spec_leg_bias(s, bias as int);
    lemma_round_div_exact(b, ONE as int);
    lemma_round_div_exact(-b, ONE as int);
    assert(ONE * b == b * ONE && (-ONE) * b == (-b) * ONE) by (nonlinear_arith);
    assert((3 * s) / 3 == s && (3 * s) % 3 == 0);
    assert((3 * s + 1) % 3 == 1 && (3 * s + 2) % 3 == 2);
}

} // verus!

//! Turning a run's parameters into the configuration of its controllers and
//! its scene.
use crate::fixed::{div_round, lemma_round_div_near, plus, round_div, sat, saturate, ONE};
use crate::gait::GaitMode;
use crate::harness::WbcParams;
use crate::text::{chars_of, put, text_of};
use vstd::prelude::*;

verus! {

pub open spec fn spec_crouched(own: int, upper_leg: int, lower_leg: int, trunk_drop: int) -> int {
    sat(sat(own + round_div(8 * (upper_leg + lower_leg), 100)) + trunk_drop)
}

/// The nominal height of a foot: the leg's own, raised by a share of its
/// length and by however much the trunk is dropped.
pub fn crouched_nominal(own: i64, upper_leg_m: i64, lower_leg_m: i64, trunk_drop_m: i64) -> (r: i64)
    ensures
        r == spec_crouched(
            own as int,
            upper_leg_m as int,
            lower_leg_m as int,
            trunk_drop_m as int,
        ),
{
    let total: i128 = upper_leg_m as i128 + lower_leg_m as i128;
    proof {
        lemma_round_div_near(8 * total, 100);
    }
    plus(saturate(own as i128 + div_round(8 * total, 100)), trunk_drop_m)
}

/// The weights of the balance controller's tasks.
#[derive(Clone, Copy, Debug, PartialEq, Eq, Structural)]
pub struct WbcWeights {
    pub floating_base_eom: i64,
    pub no_contact_motion: i64,
    pub base_accel: i64,
    pub swing_leg: i64,
    pub contact_force: i64,
    pub tau_gravity: i64,
}

/// The weights with a run's changes: flattened first, then the gravity task
/// dropped, then single ones replaced.
pub open spec fn spec_weights<S, F, C>(w: WbcWeights, p: WbcParams<S, F, C>) -> WbcWeights {
    let flat = if p.flat_wbc_weights {
        WbcWeights {
            floating_base_eom: ONE,
            no_contact_motion: ONE,
            base_accel: ONE,
            swing_leg: ONE,
            contact_force: ONE,
            tau_gravity: ONE,
        }
    } else {
        w
    };
    WbcWeights {
        tau_gravity: if p.drop_tau_gravity {
            0
        } else {
            flat.tau_gravity
        },
        contact_force: match p.contact_force_weight {
            Some(v) => v,
            None => flat.contact_force,
        },
        base_accel: match p.base_accel_weight {
            Some(v) => v,
            None => flat.base_accel,
        },
        ..flat
    }
}

pub fn wbc_weights<S, F, C>(w: &WbcWeights, p: &WbcParams<S, F, C>) -> (r: WbcWeights)
    ensures
        r == spec_weights(*w, *p),
{
    let mut out = *w;
    if p.flat_wbc_weights {
        out = WbcWeights {
            floating_base_eom: ONE,
            no_contact_motion: ONE,
            base_accel: ONE,
            swing_leg: ONE,
            contact_force: ONE,
            tau_gravity: ONE,
        };
    }
    if p.drop_tau_gravity {
        out.tau_gravity = 0;
    }
    if let Some(v) = p.contact_force_weight {
        out.contact_force = v;
    }
    if let Some(v) = p.base_accel_weight {
        out.base_accel = v;
    }
    out
}

pub open spec fn spec_real_parts<S, F, C>(p: WbcParams<S, F, C>) -> (bool, bool, bool) {
    (
        p.wbc_real_inertia || p.wbc_real_mass_only,
        p.wbc_real_inertia || p.wbc_real_com_only,
        p.wbc_real_inertia || p.wbc_real_inertia_only,
    )
}

/// Which parts of the robot's real mass distribution the balance controller
/// is given: its mass, its centre of mass, its inertia.
pub fn real_parts<S, F, C>(p: &WbcParams<S, F, C>) -> (r: (bool, bool, bool))
    ensures
        r == spec_real_parts(*p),
{
    (
        p.wbc_real_inertia || p.wbc_real_mass_only,
        p.wbc_real_inertia || p.wbc_real_com_only,
        p.wbc_real_inertia || p.wbc_real_inertia_only,
    )
}

/// How many steps the rigid body controller looks ahead.
pub open spec fn spec_mpc_horizon<S, F, C>(own: usize, p: WbcParams<S, F, C>) -> usize {
    match p.mpc_horizon_steps {
        Some(h) => h,
        None => own,
    }
}

/// Its state cost.
pub open spec fn spec_mpc_cost<S, F, C>(q: Seq<i64>, p: WbcParams<S, F, C>) -> Seq<i64> {
    match p.mpc_px_cost {
        Some(w) => q.update(3, w),
        None => q,
    }
}

/// Configuration of the single rigid body controller.
#[derive(Debug)]
pub struct SrbdConfig {
    pub horizon_steps: usize,
    /// State cost: attitude, position, angular speed, linear speed, gravity.
    pub q_diag: Vec<i64>,
    pub mass_kg: i64,
    pub inertia_diag_body: [i64; 3],
    pub friction_mu: i64,
}

impl SrbdConfig {
    /// Apply a run's horizon and fore-aft position cost.
    pub fn tune<S, F, C>(&mut self, p: &WbcParams<S, F, C>)
        requires
            p.mpc_px_cost is Some ==> old(self).q_diag.len() > 3,
        ensures
            final(self).horizon_steps == spec_mpc_horizon(old(self).horizon_steps, *p),
            final(self).q_diag@ == spec_mpc_cost(old(self).q_diag@, *p),
            final(self).mass_kg == old(self).mass_kg,
            final(self).inertia_diag_body == old(self).inertia_diag_body,
            final(self).friction_mu == old(self).friction_mu,
    {
        if let Some(h) = p.mpc_horizon_steps {
            self.horizon_steps = h;
        }
        if let Some(w) = p.mpc_px_cost {
            self.q_diag.set(3, w);
        }
    }

    /// Give the controller the robot's composite mass and inertia, on top of
    /// whatever is configured already.
    pub fn compose(&mut self, mass_kg: i64, inertia_diag_body: [i64; 3])
        ensures
            final(self).mass_kg == mass_kg,
            final(self).inertia_diag_body == inertia_diag_body,
            final(self).horizon_steps == old(self).horizon_steps,
            final(self).q_diag == old(self).q_diag,
            final(self).friction_mu == old(self).friction_mu,
    {
        self.mass_kg = mass_kg;
        self.inertia_diag_body = inertia_diag_body;
    }
}

/// Configuration of the centroidal controller.
#[derive(Debug)]
pub struct FcmConfig {
    pub warm_start: bool,
    pub sqp_iterations: usize,
    pub horizon_steps: usize,
    pub dt_per_step: i64,
    pub sparse_qp: bool,
    /// Input cost: twelve forces, then the joint speeds.
    pub r_diag: Vec<i64>,
    /// State cost: linear speed, angular speed, position, attitude, joints.
    pub q_diag: Vec<i64>,
}

/// How many iterations a run takes.
pub open spec fn spec_iterations<S, F, C>(own: usize, p: WbcParams<S, F, C>) -> usize {
    match p.fcm_sqp_iterations {
        Some(n) if p.gait_mode == GaitMode::FullCentroidal => n,
        _ => if p.fcm_warm_start {
            1
        } else {
            own
        },
    }
}

/// How many steps a run looks ahead.
pub open spec fn spec_horizon<S, F, C>(own: usize, p: WbcParams<S, F, C>) -> usize {
    match p.fcm_horizon_steps {
        Some(n) if p.gait_mode == GaitMode::FullCentroidal => n,
        _ => own,
    }
}

/// How long each of those steps is.
pub open spec fn spec_step_dt<S, F, C>(own: i64, p: WbcParams<S, F, C>) -> i64 {
    match p.fcm_dt_per_step {
        Some(dt) if p.gait_mode == GaitMode::FullCentroidal => dt,
        _ => own,
    }
}

/// Which block of the state cost an entry belongs to.
pub open spec fn state_block(i: int) -> int {
    if i < 3 {
        0
    } else if i < 6 {
        1
    } else if i < 9 {
        2
    } else if i < 12 {
        3
    } else {
        4
    }
}

/// Entry `i` of the input cost.
pub open spec fn spec_r<S, F, C>(r: Seq<i64>, p: WbcParams<S, F, C>, i: int) -> i64 {
    if i < 12 {
        match p.fcm_grf_cost {
            Some(w) => w,
            None => r[i],
        }
    } else {
        match p.fcm_jointv_cost {
            Some(w) => w,
            None => r[i],
        }
    }
}

/// Entry `i` of the state cost.
pub open spec fn spec_q<S, F, C>(q: Seq<i64>, p: WbcParams<S, F, C>, i: int) -> i64 {
    match p.fcm_state_cost {
        Some(c) => if i < 24 {
            c[state_block(i)]
        } else {
            q[i]
        },
        None => q[i],
    }
}

impl FcmConfig {
    fn set_inputs<S, F, C>(&mut self, p: &WbcParams<S, F, C>)
        ensures
            final(self).r_diag@.len() == old(self).r_diag@.len(),
            forall|i: int|
                0 <= i < final(self).r_diag@.len() ==> #[trigger] final(self).r_diag@[i] == spec_r(
                    old(self).r_diag@,
                    *p,
                    i,
                ),
            final(self).q_diag == old(self).q_diag,
            final(self).warm_start == old(self).warm_start,
            final(self).sqp_iterations == old(self).sqp_iterations,
            final(self).horizon_steps == old(self).horizon_steps,
            final(self).dt_per_step == old(self).dt_per_step,
            final(self).sparse_qp == old(self).sparse_qp,
    {
        let n: usize = self.r_diag.len();
        let mut i: usize = 0;
        while i < n
            invariant
                i <= n,
                n == old(self).r_diag@.len(),
                self.r_diag@.len() == n,
                forall|k: int|
                    0 <= k < i ==> #[trigger] self.r_diag@[k] == spec_r(old(self).r_diag@, *p, k),
                forall|k: int|
                    i <= k < n ==> #[trigger] self.r_diag@[k] == old(self).r_diag@[k],
                self.q_diag == old(self).q_diag,
                self.warm_start == old(self).warm_start,
                self.sqp_iterations == old(self).sqp_iterations,
                self.horizon_steps == old(self).horizon_steps,
                self.dt_per_step == old(self).dt_per_step,
                self.sparse_qp == old(self).sparse_qp,
            decreases n - i,
        {
            let asked: Option<i64> = if i < 12 {
                p.fcm_grf_cost
            } else {
                p.fcm_jointv_cost
            };
            if let Some(w) = asked {
                self.r_diag.set(i, w);
            }
            i = i + 1;
        }
    }

    fn set_states<S, F, C>(&mut self, p: &WbcParams<S, F, C>)
        requires
            p.fcm_state_cost is Some ==> old(self).q_diag.len() >= 24,
        ensures
            final(self).q_diag@.len() == old(self).q_diag@.len(),
            forall|i: int|
                0 <= i < final(self).q_diag@.len() ==> #[trigger] final(self).q_diag@[i] == spec_q(
                    old(self).q_diag@,
                    *p,
                    i,
                ),
            final(self).r_diag == old(self).r_diag,
            final(self).warm_start == old(self).warm_start,
            final(self).sqp_iterations == old(self).sqp_iterations,
            final(self).horizon_steps == old(self).horizon_steps,
            final(self).dt_per_step == old(self).dt_per_step,
            final(self).sparse_qp == old(self).sparse_qp,
    {
        if let Some(c) = p.fcm_state_cost {
            let mut i: usize = 0;
            while i < 24
                invariant
                    i <= 24,
                    p.fcm_state_cost == Some(c),
                    self.q_diag@.len() == old(self).q_diag@.len(),
                    self.q_diag@.len() >= 24,
                    forall|k: int|
                        0 <= k < i ==> #[trigger] self.q_diag@[k] == spec_q(
                            old(self).q_diag@,
                            *p,
                            k,
                        ),
                    forall|k: int|
                        i <= k < self.q_diag@.len() ==> #[trigger] self.q_diag@[k] == old(
                            self,
                        ).q_diag@[k],
                    self.r_diag == old(self).r_diag,
                    self.warm_start == old(self).warm_start,
                    self.sqp_iterations == old(self).sqp_iterations,
                    self.horizon_steps == old(self).horizon_steps,
                    self.dt_per_step == old(self).dt_per_step,
                    self.sparse_qp == old(self).sparse_qp,
                decreases 24 - i,
            {
                let b: usize = if i < 12 {
                    i / 3
                } else {
                    4
                };
                self.q_diag.set(i, c[b]);
                i = i + 1;
            }
        }
    }

    /// Apply everything a run changes about the centroidal controller. A warm
    /// start comes with a single iteration, which an explicit count replaces;
    /// horizon, step, iterations and the sparse form are only for a run that
    /// uses this controller.
    pub fn tune<S, F, C>(&mut self, p: &WbcParams<S, F, C>)
        requires
            p.fcm_state_cost is Some ==> old(self).q_diag.len() >= 24,
        ensures
            final(self).warm_start == (old(self).warm_start || p.fcm_warm_start),
            final(self).sqp_iterations == spec_iterations(old(self).sqp_iterations, *p),
            final(self).horizon_steps == spec_horizon(old(self).horizon_steps, *p),
            final(self).dt_per_step == spec_step_dt(old(self).dt_per_step, *p),
            final(self).sparse_qp == (old(self).sparse_qp || (p.fcm_sparse_qp && p.gait_mode
                == GaitMode::FullCentroidal)),
            final(self).r_diag@.len() == old(self).r_diag@.len(),
            forall|i: int|
                0 <= i < final(self).r_diag@.len() ==> #[trigger] final(self).r_diag@[i] == spec_r(
                    old(self).r_diag@,
                    *p,
                    i,
                ),
            final(self).q_diag@.len() == old(self).q_diag@.len(),
            forall|i: int|
                0 <= i < final(self).q_diag@.len() ==> #[trigger] final(self).q_diag@[i] == spec_q(
                    old(self).q_diag@,
                    *p,
                    i,
                ),
    {
        self.set_inputs(p);
        self.set_states(p);
        if p.fcm_warm_start {
            self.warm_start = true;
            self.sqp_iterations = 1;
        }
        if p.gait_mode == GaitMode::FullCentroidal {
            if let Some(n) = p.fcm_horizon_steps {
                self.horizon_steps = n;
            }
            if let Some(dt) = p.fcm_dt_per_step {
                self.dt_per_step = dt;
            }
            if let Some(n) = p.fcm_sqp_iterations {
                self.sqp_iterations = n;
            }
            if p.fcm_sparse_qp {
                self.sparse_qp = true;
            }
        }
    }
}

pub open spec fn spec_needs_ground<S, F, C>(p: WbcParams<S, F, C>) -> bool {
    p.staircase is None && p.kawasaki_ring is None
}

/// Whether the scene needs a floor of its own: the ring and the staircase
/// each bring theirs.
pub fn needs_ground<S, F, C>(p: &WbcParams<S, F, C>) -> (r: bool)
    ensures
        r == spec_needs_ground(*p),
{
    p.staircase.is_none() && p.kawasaki_ring.is_none()
}

/// A text that may be absent.
pub open spec fn opt_string(t: Option<String>) -> Option<Seq<char>> {
    match t {
        Some(s) => Some(s@),
        None => None,
    }
}

/// What goes into the world besides the robot: the ring or else the
/// staircase, and the opponent after it on a line of its own.
pub open spec fn spec_extras(
    ring: Option<Seq<char>>,
    stairs: Option<Seq<char>>,
    foe: Option<Seq<char>>,
) -> Option<Seq<char>> {
    let terrain = match ring {
        Some(r) => Some(r),
        None => stairs,
    };
    match foe {
        None => terrain,
        Some(f) => Some(
            (match terrain {
                Some(t) => t,
                None => seq![],
            }) + "\n"@ + f,
        ),
    }
}

pub fn world_extras(ring: Option<String>, stairs: Option<String>, foe: Option<String>) -> (r: Option<
    String,
>)
    ensures
        opt_string(r) == spec_extras(opt_string(ring), opt_string(stairs), opt_string(foe)),
{
    let terrain = match ring {
        Some(r) => Some(r),
        None => stairs,
    };
    match foe {
        None => terrain,
        Some(f) => {
            let mut out: Vec<char> = match terrain {
                Some(t) => chars_of(t.as_str()),
                None => {
                    let v: Vec<char> = Vec::new();
                    assert(v@ =~= seq![]);
                    v
                },
            };
            put(&mut out, "\n");
            put(&mut out, f.as_str());
            Some(text_of(&out))
        },
    }
}

pub open spec fn spec_assets(ring_asset: Seq<char>, lighting: bool, lights: Seq<char>) -> Seq<char> {
    if lighting {
        ring_asset + lights
    } else {
        ring_asset
    }
}

/// The ring's own assets, with the scene's lights where it has them.
pub fn asset_extras(ring_asset: &str, lighting: bool, lights: &str) -> (r: String)
    ensures
        r@ == spec_assets(ring_asset@, lighting, lights@),
{
    let mut out = chars_of(ring_asset);
    if lighting {
        put(&mut out, lights);
    }
    text_of(&out)
}

/// The ring wins over a staircase, and flat ground is left out as soon as
/// there is either.
pub proof fn law_ring_wins(ring: Seq<char>, stairs: Option<Seq<char>>)
    ensures
        spec_extras(Some(ring), stairs, None) == Some(ring),
        spec_extras(None, stairs, None) == stairs,
{
}

/// A run that changes nothing leaves the weights as they were.
pub proof fn law_plain_run_keeps_weights<S, F, C>(w: WbcWeights, p: WbcParams<S, F, C>)
    requires
        p.plain_ground(),
    ensures
        spec_weights(w, p) == w,
{
}

/// A foot's nominal height is its own, eight hundredths of the leg's length
/// higher, and higher by as much as the trunk is dropped.
pub proof fn law_crouched(own: int, upper: int, lower: int, drop: int)
    requires
        -1_000_000_000_000 <= own <= 1_000_000_000_000,
        -1_000_000_000_000 <= upper <= 1_000_000_000_000,
        -1_000_000_000_000 <= lower <= 1_000_000_000_000,
        -1_000_000_000_000 <= drop <= 1_000_000_000_000,
    ensures
        -50 <= 100 * (spec_crouched(own, upper, lower, drop) - own - drop) - 8 * (upper + lower) <= 50,
{
    lemma_round_div_near(8 * (upper + lower), 100);
}

/// Flattening makes every weight one; dropping the gravity task makes its own
/// nothing, whatever else; a weight that is given is used, whatever else.
pub proof fn law_weights<S, F, C>(w: WbcWeights, p: WbcParams<S, F, C>)
    ensures
        ({
            let r = spec_weights(w, p);
            &&& p.drop_tau_gravity ==> r.tau_gravity == 0
            &&& !p.drop_tau_gravity && p.flat_wbc_weights ==> r.tau_gravity == 1_000_000_000
            &&& !p.drop_tau_gravity && !p.flat_wbc_weights ==> r.tau_gravity == w.tau_gravity
            &&& p.contact_force_weight is Some ==> r.contact_force == p.contact_force_weight->0
            &&& p.contact_force_weight is None && p.flat_wbc_weights ==> r.contact_force
                == 1_000_000_000
            &&& p.contact_force_weight is None && !p.flat_wbc_weights ==> r.contact_force
                == w.contact_force
            &&& p.base_accel_weight is Some ==> r.base_accel == p.base_accel_weight->0
            &&& p.base_accel_weight is None && p.flat_wbc_weights ==> r.base_accel == 1_000_000_000
            &&& p.base_accel_weight is None && !p.flat_wbc_weights ==> r.base_accel == w.base_accel
            &&& p.flat_wbc_weights ==> r.floating_base_eom == 1_000_000_000 && r.no_contact_motion
                == 1_000_000_000 && r.swing_leg == 1_000_000_000
            &&& !p.flat_wbc_weights ==> r.floating_base_eom == w.floating_base_eom
                && r.no_contact_motion == w.no_contact_motion && r.swing_leg == w.swing_leg
        }),
{
}

/// The real inertia brings mass, centre and inertia with it; each can be had
/// on its own, and without any of them none is.
pub proof fn law_real_parts<S, F, C>(p: WbcParams<S, F, C>)
    ensures
        p.wbc_real_inertia ==> spec_real_parts(p) == (true, true, true),
        !p.wbc_real_inertia ==> spec_real_parts(p) == (
            p.wbc_real_mass_only,
            p.wbc_real_com_only,
            p.wbc_real_inertia_only,
        ),
{
}

/// The state cost has four blocks of three, and the joints after them.
pub proof fn law_state_blocks<S, F, C>(q: Seq<i64>, p: WbcParams<S, F, C>, i: int)
    requires
        0 <= i < q.len(),
    ensures
        p.fcm_state_cost is None ==> spec_q(q, p, i) == q[i],
        p.fcm_state_cost is Some && i < 12 ==> spec_q(q, p, i) == p.fcm_state_cost->0[i / 3],
        p.fcm_state_cost is Some && 12 <= i < 24 ==> spec_q(q, p, i) == p.fcm_state_cost->0[4],
        i >= 24 ==> spec_q(q, p, i) == q[i],
{
}

/// The input cost has twelve forces, and the joint speeds after them, each
/// with a cost of its own.
pub proof fn law_input_costs<S, F, C>(r: Seq<i64>, p: WbcParams<S, F, C>, i: int)
    requires
        0 <= i < r.len(),
    ensures
        i < 12 && p.fcm_grf_cost is Some ==> spec_r(r, p, i) == p.fcm_grf_cost->0,
        i < 12 && p.fcm_grf_cost is None ==> spec_r(r, p, i) == r[i],
        i >= 12 && p.fcm_jointv_cost is Some ==> spec_r(r, p, i) == p.fcm_jointv_cost->0,
        i >= 12 && p.fcm_jointv_cost is None ==> spec_r(r, p, i) == r[i],
{
}

/// A centroidal run uses the iterations, the horizon and the step that it
/// names; another run ignores them. A warm start is content with one
/// iteration unless more are named.
pub proof fn law_centroidal_settings<S, F, C>(own: usize, own_dt: i64, p: WbcParams<S, F, C>)
    ensures
        ({
            let used = p.gait_mode == GaitMode::FullCentroidal;
            &&& used && p.fcm_sqp_iterations is Some ==> spec_iterations(own, p)
                == p.fcm_sqp_iterations->0
            &&& (!used || p.fcm_sqp_iterations is None) && p.fcm_warm_start ==> spec_iterations(
                own,
                p,
            ) == 1
            &&& (!used || p.fcm_sqp_iterations is None) && !p.fcm_warm_start ==> spec_iterations(
                own,
                p,
            ) == own
            &&& used && p.fcm_horizon_steps is Some ==> spec_horizon(own, p)
                == p.fcm_horizon_steps->0
            &&& !used || p.fcm_horizon_steps is None ==> spec_horizon(own, p) == own
            &&& used && p.fcm_dt_per_step is Some ==> spec_step_dt(own_dt, p)
                == p.fcm_dt_per_step->0
            &&& !used || p.fcm_dt_per_step is None ==> spec_step_dt(own_dt, p) == own_dt
        }),
{
}

/// Flat ground is laid where neither a staircase nor the ring brings its own.
pub proof fn law_ground<S, F, C>(p: WbcParams<S, F, C>)
    ensures
        p.staircase is Some ==> !spec_needs_ground(p),
        p.kawasaki_ring is Some ==> !spec_needs_ground(p),
        p.staircase is None && p.kawasaki_ring is None ==> spec_needs_ground(p),
{
}

/// The opponent comes after whatever the terrain is, on a line of its own.
pub proof fn law_opponent_comes_last(
    ring: Option<Seq<char>>,
    stairs: Option<Seq<char>>,
    foe: Seq<char>,
)
    ensures
        ring is Some ==> spec_extras(ring, stairs, Some(foe)) == Some(ring->0 + "\n"@ + foe),
        ring is None && stairs is Some ==> spec_extras(ring, stairs, Some(foe)) == Some(
            stairs->0 + "\n"@ + foe,
        ),
        ring is None && stairs is None ==> spec_extras(ring, stairs, Some(foe)) == Some(
            "\n"@ + foe,
        ),
{
    assert(Seq::<char>::empty() + "\n"@ + foe =~= "\n"@ + foe);
}

/// The rigid body controller looks as far ahead as the run asks, and only its
/// fore-aft position cost is the run's.
pub proof fn law_rigid_body_settings<S, F, C>(own: usize, q: Seq<i64>, p: WbcParams<S, F, C>, i: int)
    requires
        q.len() > 3,
        0 <= i < q.len(),
    ensures
        p.mpc_horizon_steps is Some ==> spec_mpc_horizon(own, p) == p.mpc_horizon_steps->0,
        p.mpc_horizon_steps is None ==> spec_mpc_horizon(own, p) == own,
        spec_mpc_cost(q, p).len() == q.len(),
        p.mpc_px_cost is Some && i == 3 ==> spec_mpc_cost(q, p)[i] == p.mpc_px_cost->0,
        p.mpc_px_cost is None || i != 3 ==> spec_mpc_cost(q, p)[i] == q[i],
{
}

/// The ring's assets come with the scene's lights behind them where they are
/// wanted, and alone where they are not.
pub proof fn law_assets(ring: Seq<char>, lights: Seq<char>)
    ensures
        spec_assets(ring, true, lights) == ring + lights,
        spec_assets(ring, false, lights) == ring,
{
}

} // verus!

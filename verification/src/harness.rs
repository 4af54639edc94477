//! What a run of the walking simulation is configured with.
use crate::actuation::Actuation;
use crate::attack::AttackParams;
use crate::fixed::{sat, saturate};
use crate::gait::{GaitMode, GaitType, NAMIASHI_TUNED};
use crate::levelling::{ProprioStanceCfg, TerrainStanceCfg};
use crate::opponent::LockedPose;
use crate::ring::KawasakiRingCfg;
use crate::schedule::{Segment, VelObs};
use crate::swing::{ContactReflexCfg, HipBiasGateCfg, TerrainFootplanCfg};
use crate::text::{chars_of, put_all, text_of};
use vstd::prelude::*;

verus! {

/// The model every run uses unless it says otherwise.
pub const DEFAULT_MISA: &'static str = "namiashi_3p3_prop.misa";

/// Name of the ring's height grid, shared by its declaration, the shape that
/// refers to it and the fill at run time.
pub const RING_HFIELD: &'static str = "kawasaki_ring";

/// Put in front of the names of the opponent's bodies.
pub const OPPONENT_PREFIX: &'static str = "foe_";

/// Capture-point footstep gain.
pub const NAMIASHI_CAPTURE_GAIN_S: i64 = 15_000_000;

/// How far below the nominal stance every run sits.
pub const NAMIASHI_STANCE_DROP_M: i64 = 60_000_000;

/// A path with one more part: a part that starts at the root stands alone,
/// and no separator is doubled.
pub open spec fn spec_join(base: Seq<char>, part: Seq<char>) -> Seq<char> {
    if part.len() > 0 && part[0] == '/' {
        part
    } else if base.len() == 0 || base.last() == '/' {
        base + part
    } else {
        base.push('/') + part
    }
}

fn join(base: &Vec<char>, part: &str) -> (r: Vec<char>)
    ensures
        r@ == spec_join(base@, part@),
{
    let p = chars_of(part);
    if p.len() > 0 && p[0] == '/' {
        return p;
    }
    let mut out: Vec<char> = Vec::new();
    put_all(&mut out, base);
    assert(out@ =~= base@);
    if out.len() > 0 && out[out.len() - 1] != '/' {
        out.push('/');
    }
    put_all(&mut out, &p);
    out
}

/// Where a model file lies below the crate's own directory.
pub open spec fn spec_misa_path(manifest_dir: Seq<char>, file: Seq<char>) -> Seq<char> {
    spec_join(
        spec_join(spec_join(spec_join(manifest_dir, "tests"@), "fixtures"@), "namiashi"@),
        file,
    )
}

/// Where the model as first drawn lies.
pub fn namiashi_misa(manifest_dir: &str) -> (r: String)
    ensures
        r@ == spec_misa_path(manifest_dir@, "namiashi.misa"@),
{
    namiashi_misa_named(manifest_dir, "namiashi.misa")
}

/// Where a model file lies.
pub fn namiashi_misa_named(manifest_dir: &str, file: &str) -> (r: String)
    ensures
        r@ == spec_misa_path(manifest_dir@, file@),
{
    let a = join(&chars_of(manifest_dir), "tests");
    let b = join(&a, "fixtures");
    let c = join(&b, "namiashi");
    text_of(&join(&c, file))
}

/// The joint angles that put one foot at its nominal place, and which of the
/// model's joints they belong to.
#[derive(Clone, Copy, Debug)]
pub struct LegSeed {
    /// Hip, thigh and calf, in the convention of the leg's kinematics.
    pub angles: [i64; 3],
    /// The index of each joint, where the model has it.
    pub joints: [Option<usize>; 3],
}

/// Positions with one joint's set, where the model has it.
pub open spec fn spec_set(s: Seq<i64>, joint: Option<usize>, q: int) -> Seq<i64> {
    match joint {
        Some(i) => s.update(i as int, q as i64),
        None => s,
    }
}

/// Positions with one leg's set. Thigh and calf turn the other way in the
/// model.
pub open spec fn spec_seed_leg(s: Seq<i64>, leg: LegSeed) -> Seq<i64> {
    spec_set(
        spec_set(
            spec_set(s, leg.joints[0], leg.angles[0] as int),
            leg.joints[1],
            sat(-leg.angles[1]),
        ),
        leg.joints[2],
        sat(-leg.angles[2]),
    )
}

/// Positions with all four legs' set.
pub open spec fn spec_seed_all(s: Seq<i64>, legs: [LegSeed; 4]) -> Seq<i64> {
    spec_seed_leg(
        spec_seed_leg(spec_seed_leg(spec_seed_leg(s, legs[0]), legs[1]), legs[2]),
        legs[3],
    )
}

/// Every joint a leg names exists.
pub open spec fn in_model(leg: LegSeed, n: nat) -> bool {
    forall|k: int|
        0 <= k < 3 ==> (#[trigger] leg.joints[k] is Some ==> leg.joints[k]->0 < n)
}

fn set_joint(positions: &mut Vec<i64>, joint: Option<usize>, q: i64)
    requires
        joint is Some ==> joint->0 < old(positions).len(),
    ensures
        final(positions)@ == spec_set(old(positions)@, joint, q as int),
{
    if let Some(i) = joint {
        positions.set(i, q);
    }
}

fn seed_leg(positions: &mut Vec<i64>, leg: &LegSeed)
    requires
        in_model(*leg, old(positions)@.len()),
    ensures
        final(positions)@ == spec_seed_leg(old(positions)@, *leg),
        final(positions).len() == old(positions).len(),
{
    assert(leg.joints[0] is Some ==> leg.joints[0]->0 < positions.len());
    assert(leg.joints[1] is Some ==> leg.joints[1]->0 < positions.len());
    assert(leg.joints[2] is Some ==> leg.joints[2]->0 < positions.len());
    set_joint(positions, leg.joints[0], leg.angles[0]);
    set_joint(positions, leg.joints[1], saturate(-(leg.angles[1] as i128)));
    set_joint(positions, leg.joints[2], saturate(-(leg.angles[2] as i128)));
}

/// Start every leg bent at its nominal foot, out of the straight pose where
/// its kinematics are singular. The legs come in the order FL, FR, RL, RR.
pub fn seed_joint_positions_from_kinematics(positions: &mut Vec<i64>, legs: &[LegSeed; 4])
    requires
        forall|l: int| 0 <= l < 4 ==> in_model(#[trigger] legs[l], old(positions)@.len()),
    ensures
        final(positions)@ == spec_seed_all(old(positions)@, *legs),
        final(positions).len() == old(positions).len(),
{
    assert(in_model(legs[0], positions@.len()));
    assert(in_model(legs[1], positions@.len()));
    assert(in_model(legs[2], positions@.len()));
    assert(in_model(legs[3], positions@.len()));
    seed_leg(positions, &legs[0]);
    seed_leg(positions, &legs[1]);
    seed_leg(positions, &legs[2]);
    seed_leg(positions, &legs[3]);
}

/// Everything a run is configured with.
///
/// `S` is a staircase, and `F` and `C` a formulation and a configuration of
/// the balance solver: the run hands them on and looks into none of them.
#[derive(Debug)]
pub struct WbcParams<S, F, C> {
    pub total_time_s: i64,
    /// Time to settle before anything is commanded.
    pub burn_in_s: i64,
    pub cmd_vx: i64,
    pub cmd_vy: i64,
    pub cmd_wz: i64,
    /// Model file.
    pub misa_file: &'static str,
    /// Force at which an early touchdown overrides the gait's phase.
    pub early_contact_n: i64,
    /// Leave out the balance torque, so that only the joints' own loops act.
    pub kinematic_only: bool,
    /// Give the balance controller the robot's real mass, centre of mass and
    /// inertia, or just one of them.
    pub wbc_real_inertia: bool,
    pub wbc_real_mass_only: bool,
    pub wbc_real_com_only: bool,
    pub wbc_real_inertia_only: bool,
    /// Least normal force on stance feet, as a share of a quarter of the
    /// weight.
    pub f_min_stance_frac: i64,
    pub base_accel_weight: Option<i64>,
    pub contact_force_weight: Option<i64>,
    /// Heading correction: proportional and damping gain.
    pub yaw_pd_gain: Option<(i64, i64)>,
    /// Hip roll added on the left and taken off on the right, on every tick.
    pub hip_lr_bias_rad: Option<i64>,
    /// The same, for a while after each collision.
    pub hip_bias_gate: Option<HipBiasGateCfg>,
    /// Directory to leave a replay in.
    pub replay_dir: Option<String>,
    /// Lower the nominal stance by this much.
    pub trunk_drop_m: i64,
    /// Offset, and drift per second, of the base position that is observed.
    pub base_pos_bias_m: [i64; 3],
    pub base_pos_drift_mps: [i64; 3],
    pub vel_obs: VelObs,
    pub gait_mode: GaitMode,
    pub mpc_predicted_footstep: bool,
    pub legged_control_parity: bool,
    pub dynamic_joint_q_reference: bool,
    pub mpc_horizon_steps: Option<usize>,
    pub mpc_px_cost: Option<i64>,
    pub fcm_taskspace_jv_weight: Option<[i64; 3]>,
    pub fcm_warm_start: bool,
    pub fcm_horizon_steps: Option<usize>,
    pub fcm_dt_per_step: Option<i64>,
    pub fcm_sqp_iterations: Option<usize>,
    pub fcm_sparse_qp: bool,
    pub fcm_grf_cost: Option<i64>,
    pub fcm_jointv_cost: Option<i64>,
    /// Replace the planned forces by a split of the weight, and correct
    /// roll and pitch with these gains.
    pub attitude_pd_ablation: Option<(i64, i64)>,
    /// Walk on a staircase instead of flat ground.
    pub staircase: Option<S>,
    pub contact_reflex: Option<ContactReflexCfg>,
    pub terrain_footplan: Option<TerrainFootplanCfg>,
    pub terrain_stance: Option<TerrainStanceCfg>,
    pub proprio_stance: Option<ProprioStanceCfg>,
    /// Walk on the competition ring instead of flat ground.
    pub kawasaki_ring: Option<KawasakiRingCfg>,
    /// A second robot, welded, and where it stands.
    pub opponent: Option<(LockedPose, [i64; 3])>,
    pub attack_params: AttackParams,
    /// Where the robot starts.
    pub spawn_xy: Option<(i64, i64)>,
    /// State cost of the centroidal controller: linear and angular speed,
    /// position, attitude and joint angles.
    pub fcm_state_cost: Option<[i64; 5]>,
    pub base_accel_coriolis: bool,
    pub flat_wbc_weights: bool,
    pub drop_tau_gravity: bool,
    pub mpc_composite_inertia: bool,
    pub actuation: Actuation,
    /// Rate of the whole host controller; without one it runs every tick.
    pub host_rate_hz: Option<i64>,
    /// Piecewise-constant command schedule.
    pub cmd_schedule: Vec<Segment>,
    pub render_hz: Option<i64>,
    /// Open a window, and run until it is closed.
    pub live_viewer: bool,
    /// A push on the trunk: when it starts, its force, how long it lasts.
    pub push: Option<(i64, [i64; 3], i64)>,
    pub dt: i64,
    pub misa_wbc_mode: Option<(F, C)>,
    pub gait_type: Option<GaitType>,
    pub cycle_period_s: Option<i64>,
    pub duty_factor: Option<i64>,
    pub max_step_length_m: Option<i64>,
    pub swing_height_m: Option<i64>,
    pub k_capture_s: Option<i64>,
}

impl<S, F, C> WbcParams<S, F, C> {
    /// Nothing out of the ordinary: flat ground, the default model, every
    /// option off.
    pub open spec fn plain_ground(self) -> bool {
        &&& self.cmd_vy == 0
        &&& self.cmd_wz == 0
        &&& self.misa_file@ == DEFAULT_MISA@
        &&& self.early_contact_n == 5_000_000_000
        &&& !self.kinematic_only
        &&& !self.wbc_real_inertia
        &&& !self.wbc_real_mass_only
        &&& !self.wbc_real_com_only
        &&& !self.wbc_real_inertia_only
        &&& self.f_min_stance_frac == 0
        &&& self.base_accel_weight is None
        &&& self.contact_force_weight is None
        &&& self.yaw_pd_gain is None
        &&& self.hip_lr_bias_rad is None
        &&& self.hip_bias_gate is None
        &&& self.replay_dir is None
        &&& self.trunk_drop_m == NAMIASHI_STANCE_DROP_M
        &&& forall|i: int| 0 <= i < 3 ==> #[trigger] self.base_pos_bias_m[i] == 0
        &&& forall|i: int| 0 <= i < 3 ==> #[trigger] self.base_pos_drift_mps[i] == 0
        &&& self.vel_obs == VelObs::Truth
        &&& self.gait_mode == GaitMode::Mpc
        &&& !self.mpc_predicted_footstep
        &&& !self.legged_control_parity
        &&& !self.dynamic_joint_q_reference
        &&& self.mpc_horizon_steps is None
        &&& self.mpc_px_cost is None
        &&& self.fcm_taskspace_jv_weight is None
        &&& !self.fcm_warm_start
        &&& self.fcm_horizon_steps is None
        &&& self.fcm_dt_per_step is None
        &&& self.fcm_sqp_iterations is None
        &&& !self.fcm_sparse_qp
        &&& self.fcm_grf_cost is None
        &&& self.fcm_jointv_cost is None
        &&& self.attitude_pd_ablation is None
        &&& self.staircase is None
        &&& self.contact_reflex is None
        &&& self.terrain_footplan is None
        &&& self.terrain_stance is None
        &&& self.proprio_stance is None
        &&& self.kawasaki_ring is None
        &&& self.opponent is None
        &&& self.attack_params == AttackParams::spec_default()
        &&& self.spawn_xy is None
        &&& self.fcm_state_cost is None
        &&& !self.base_accel_coriolis
        &&& !self.flat_wbc_weights
        &&& !self.drop_tau_gravity
        &&& !self.mpc_composite_inertia
        &&& self.actuation == Actuation::PositionTorque
        &&& self.host_rate_hz is None
        &&& self.cmd_schedule@.len() == 0
        &&& self.render_hz is None
        &&& !self.live_viewer
        &&& self.push is None
        &&& self.dt == 2_000_000
    }

    /// The gait is the default one, untouched.
    pub open spec fn plain_gait(self) -> bool {
        &&& self.gait_type is None
        &&& self.cycle_period_s is None
        &&& self.duty_factor is None
        &&& self.max_step_length_m is None
        &&& self.swing_height_m is None
        &&& self.k_capture_s is None
    }

    /// A run of `total_time_s` on flat ground at `cmd_vx`.
    fn on_flat(total_time_s: i64, cmd_vx: i64) -> (r: Self)
        ensures
            r.plain_ground(),
            r.plain_gait(),
            r.misa_wbc_mode is None,
            r.total_time_s == total_time_s,
            r.burn_in_s == 500_000_000,
            r.cmd_vx == cmd_vx,
    {
        WbcParams {
            total_time_s,
            burn_in_s: 500_000_000,
            cmd_vx,
            cmd_vy: 0,
            cmd_wz: 0,
            misa_file: DEFAULT_MISA,
            early_contact_n: 5_000_000_000,
            kinematic_only: false,
            wbc_real_inertia: false,
            wbc_real_mass_only: false,
            wbc_real_com_only: false,
            wbc_real_inertia_only: false,
            f_min_stance_frac: 0,
            base_accel_weight: None,
            contact_force_weight: None,
            yaw_pd_gain: None,
            hip_lr_bias_rad: None,
            hip_bias_gate: None,
            replay_dir: None,
            trunk_drop_m: NAMIASHI_STANCE_DROP_M,
            base_pos_bias_m: [0, 0, 0],
            base_pos_drift_mps: [0, 0, 0],
            vel_obs: VelObs::Truth,
            gait_mode: GaitMode::Mpc,
            mpc_predicted_footstep: false,
            legged_control_parity: false,
            dynamic_joint_q_reference: false,
            mpc_horizon_steps: None,
            mpc_px_cost: None,
            fcm_taskspace_jv_weight: None,
            fcm_warm_start: false,
            fcm_horizon_steps: None,
            fcm_dt_per_step: None,
            fcm_sqp_iterations: None,
            fcm_sparse_qp: false,
            fcm_grf_cost: None,
            fcm_jointv_cost: None,
            attitude_pd_ablation: None,
            staircase: None,
            contact_reflex: None,
            terrain_footplan: None,
            terrain_stance: None,
            proprio_stance: None,
            kawasaki_ring: None,
            opponent: None,
            attack_params: AttackParams::default(),
            spawn_xy: None,
            fcm_state_cost: None,
            base_accel_coriolis: false,
            flat_wbc_weights: false,
            drop_tau_gravity: false,
            mpc_composite_inertia: false,
            actuation: Actuation::PositionTorque,
            host_rate_hz: None,
            cmd_schedule: Vec::new(),
            render_hz: None,
            live_viewer: false,
            push: None,
            dt: 2_000_000,
            misa_wbc_mode: None,
            gait_type: None,
            cycle_period_s: None,
            duty_factor: None,
            max_step_length_m: None,
            swing_height_m: None,
            k_capture_s: None,
        }
    }

    /// Standing still.
    pub fn static_stand() -> (r: Self)
        ensures
            r.plain_ground(),
            r.plain_gait(),
            r.misa_wbc_mode is None,
            r.total_time_s == 1_500_000_000,
            r.burn_in_s == 500_000_000,
            r.cmd_vx == 0,
    {
        Self::on_flat(1_500_000_000, 0)
    }

    /// Walking forward.
    pub fn forward_walk() -> (r: Self)
        ensures
            r.plain_ground(),
            r.plain_gait(),
            r.misa_wbc_mode is None,
            r.total_time_s == 3_000_000_000,
            r.burn_in_s == 500_000_000,
            r.cmd_vx == 150_000_000,
    {
        Self::on_flat(3_000_000_000, 150_000_000)
    }

    /// Standing still, balanced by the given solver.
    pub fn static_stand_misa_wbc(formulation: F, cfg: C) -> (r: Self)
        ensures
            r.plain_ground(),
            r.plain_gait(),
            r.misa_wbc_mode == Some((formulation, cfg)),
            r.total_time_s == 1_500_000_000,
            r.burn_in_s == 500_000_000,
            r.cmd_vx == 0,
    {
        let mut p = Self::static_stand();
        p.misa_wbc_mode = Some((formulation, cfg));
        p
    }

    /// Walking forward, balanced by the given solver.
    pub fn forward_walk_misa_wbc(formulation: F, cfg: C) -> (r: Self)
        ensures
            r.plain_ground(),
            r.plain_gait(),
            r.misa_wbc_mode == Some((formulation, cfg)),
            r.total_time_s == 3_000_000_000,
            r.burn_in_s == 500_000_000,
            r.cmd_vx == 150_000_000,
    {
        let mut p = Self::forward_walk();
        p.misa_wbc_mode = Some((formulation, cfg));
        p
    }
}

/// A long walk at the `i`-th tuned setting.
pub fn namiashi_tuned_params<S, F, C>(i: usize) -> (r: WbcParams<S, F, C>)
    requires
        i < 3,
    ensures
        r.plain_ground(),
        r.misa_wbc_mode is None,
        r.total_time_s == 26_000_000_000,
        r.burn_in_s == 1_000_000_000,
        r.cmd_vx == NAMIASHI_TUNED[i as int].5,
        r.gait_type == Some(NAMIASHI_TUNED[i as int].0),
        r.cycle_period_s == Some(NAMIASHI_TUNED[i as int].1),
        r.duty_factor == Some(NAMIASHI_TUNED[i as int].2),
        r.max_step_length_m == Some(NAMIASHI_TUNED[i as int].3),
        r.swing_height_m == Some(NAMIASHI_TUNED[i as int].4),
        r.k_capture_s == Some(NAMIASHI_CAPTURE_GAIN_S),
{
    let row = NAMIASHI_TUNED[i];
    let mut p: WbcParams<S, F, C> = WbcParams::forward_walk();
    p.total_time_s = 26_000_000_000;
    p.burn_in_s = 1_000_000_000;
    p.cmd_vx = row.5;
    p.gait_type = Some(row.0);
    p.cycle_period_s = Some(row.1);
    p.duty_factor = Some(row.2);
    p.max_step_length_m = Some(row.3);
    p.swing_height_m = Some(row.4);
    p.k_capture_s = Some(NAMIASHI_CAPTURE_GAIN_S);
    p
}

/// Parts of a path are joined by one separator, and a part from the root
/// stands alone.
pub proof fn law_join(base: Seq<char>, part: Seq<char>)
    requires
        part.len() > 0,
    ensures
        part[0] == '/' ==> spec_join(base, part) == part,
        part[0] != '/' && base.len() > 0 && base[base.len() - 1] != '/' ==> spec_join(base, part)
            == base + seq!['/'] + part,
        part[0] != '/' && base.len() > 0 && base[base.len() - 1] == '/' ==> spec_join(base, part)
            == base + part,
        base.len() == 0 ==> spec_join(base, part) == part,
{
    assert(base.push('/') =~= base + seq!['/']);
    if base.len() == 0 {
        assert(base + part =~= part);
    }
}

/// A model file lies in the fixtures below the crate's directory.
pub proof fn law_misa_path(dir: Seq<char>, file: Seq<char>)
    requires
        dir.len() > 0,
        dir[dir.len() - 1] != '/',
        file.len() > 0,
        file[0] != '/',
    ensures
        spec_misa_path(dir, file) == dir + "/tests/fixtures/namiashi/"@ + file,
{
    reveal_strlit("tests");
    reveal_strlit("fixtures");
    reveal_strlit("namiashi");
    reveal_strlit("/tests/fixtures/namiashi/");
    let a = spec_join(dir, "tests"@);
    let b = spec_join(a, "fixtures"@);
    let c = spec_join(b, "namiashi"@);
    assert(a == dir.push('/') + "tests"@);
    assert(a.last() == 's');
    assert(b == a.push('/') + "fixtures"@);
    assert(b.last() == 's');
    assert(c == b.push('/') + "namiashi"@);
    assert(c.last() == 'i');
    assert(spec_misa_path(dir, file) =~= dir + "/tests/fixtures/namiashi/"@ + file);
}

/// The joints of a leg, where it has them, are three different ones.
pub open spec fn apart(leg: LegSeed) -> bool {
    &&& leg.joints[0] is Some && leg.joints[1] is Some ==> leg.joints[0]->0 != leg.joints[1]->0
    &&& leg.joints[0] is Some && leg.joints[2] is Some ==> leg.joints[0]->0 != leg.joints[2]->0
    &&& leg.joints[1] is Some && leg.joints[2] is Some ==> leg.joints[1]->0 != leg.joints[2]->0
}

/// A leg's hip is put at its angle, its thigh and calf at minus theirs, and no
/// other joint is moved.
pub proof fn law_seed_leg(s: Seq<i64>, leg: LegSeed, i: int)
    requires
        in_model(leg, s.len()),
        apart(leg),
        leg.angles[1] > i64::MIN,
        leg.angles[2] > i64::MIN,
        0 <= i < s.len(),
    ensures
        ({
            let r = spec_seed_leg(s, leg);
            &&& r.len() == s.len()
            &&& leg.joints[0] is Some && leg.joints[0]->0 == i ==> r[i] == leg.angles[0]
            &&& leg.joints[1] is Some && leg.joints[1]->0 == i ==> r[i] == -leg.angles[1]
            &&& leg.joints[2] is Some && leg.joints[2]->0 == i ==> r[i] == -leg.angles[2]
            &&& (forall|k: int|
                0 <= k < 3 ==> (#[trigger] leg.joints[k] is None || leg.joints[k]->0 != i)) ==> r[i]
                == s[i]
        }),
{
    assert(leg.joints[0] is Some ==> leg.joints[0]->0 < s.len());
    assert(leg.joints[1] is Some ==> leg.joints[1]->0 < s.len());
    assert(leg.joints[2] is Some ==> leg.joints[2]->0 < s.len());
}

/// Every leg is seeded: the joints of one leg keep what they were put at while
/// the others are seeded.
pub proof fn law_every_leg_is_seeded(s: Seq<i64>, legs: [LegSeed; 4], l: int, i: int)
    requires
        0 <= l < 4,
        0 <= i < s.len(),
        forall|m: int|
            0 <= m < 4 ==> in_model(#[trigger] legs[m], s.len()) && apart(legs[m])
                && legs[m].angles[1] > i64::MIN && legs[m].angles[2] > i64::MIN,
        forall|m: int, k: int|
            0 <= m < 4 && m != l && 0 <= k < 3 ==> (#[trigger] legs[m].joints[k] is None
                || legs[m].joints[k]->0 != i),
    ensures
        ({
            let r = spec_seed_all(s, legs);
            &&& r.len() == s.len()
            &&& legs[l].joints[0] is Some && legs[l].joints[0]->0 == i ==> r[i] == legs[l].angles[0]
            &&& legs[l].joints[1] is Some && legs[l].joints[1]->0 == i ==> r[i] == -legs[l].angles[1]
            &&& legs[l].joints[2] is Some && legs[l].joints[2]->0 == i ==> r[i] == -legs[l].angles[2]
        }),
{
    let s1 = spec_seed_leg(s, legs[0]);
    law_seed_leg(s, legs[0], i);
    let s2 = spec_seed_leg(s1, legs[1]);
    law_seed_leg(s1, legs[1], i);
    let s3 = spec_seed_leg(s2, legs[2]);
    law_seed_leg(s2, legs[2], i);
    law_seed_leg(s3, legs[3], i);
}

} // verus!

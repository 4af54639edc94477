use namiashi_sim::actuation::Actuation;
use namiashi_sim::attack::AttackParams;
use namiashi_sim::gait::{GaitMode, GaitType};
use namiashi_sim::harness::{
    namiashi_misa, namiashi_misa_named, namiashi_tuned_params,
    seed_joint_positions_from_kinematics, LegSeed, WbcParams, DEFAULT_MISA,
};
use namiashi_sim::replay::{header, push_fy, ReplayRow};
use namiashi_sim::sample::{
    foot_force, foot_force_any_case, gravity_split, least_stance_force, loads, planned_fx, planned_fz, total_fz, weight,
    Contact, JointLoad,
};
use namiashi_sim::schedule::VelObs;
use namiashi_sim::setup::{
    asset_extras, crouched_nominal, needs_ground, real_parts, wbc_weights, world_extras, FcmConfig,
    SrbdConfig, WbcWeights,
};

const S: i64 = 1_000_000_000;

type Params = WbcParams<u8, u16, u32>;

#[test]
fn model_paths() {
    assert_eq!(namiashi_misa("/a/sim"), "/a/sim/tests/fixtures/namiashi/namiashi.misa");
    assert_eq!(namiashi_misa_named("/a/", "x.misa"), "/a/tests/fixtures/namiashi/x.misa");
    assert_eq!(namiashi_misa_named("", "x"), "tests/fixtures/namiashi/x");
    assert_eq!(namiashi_misa_named("/a", "/b/x"), "/b/x");
    for (dir, file) in [("/a/b", "c.misa"), ("rel", ""), ("/", "x/y"), ("a//", "z")] {
        let std = std::path::PathBuf::from(dir).join("tests").join("fixtures").join("namiashi").join(file);
        assert_eq!(namiashi_misa_named(dir, file), std.to_str().unwrap());
    }
}

#[test]
fn standing_and_walking_parameters() {
    let p = Params::static_stand();
    assert_eq!((p.total_time_s, p.burn_in_s, p.cmd_vx, p.dt), (1_500_000_000, 500_000_000, 0, 2_000_000));
    assert_eq!(p.misa_file, DEFAULT_MISA);
    assert_eq!(p.misa_file, "namiashi_3p3_prop.misa");
    assert_eq!((p.early_contact_n, p.trunk_drop_m), (5 * S, 60_000_000));
    assert_eq!((p.vel_obs, p.gait_mode, p.actuation), (VelObs::Truth, GaitMode::Mpc, Actuation::PositionTorque));
    assert_eq!(p.attack_params, AttackParams::default());
    assert!(p.misa_wbc_mode.is_none() && p.gait_type.is_none() && p.cmd_schedule.is_empty());
    let w = Params::forward_walk();
    assert_eq!((w.total_time_s, w.cmd_vx), (3 * S, 150_000_000));
    let m = Params::static_stand_misa_wbc(1, 2);
    assert_eq!((m.misa_wbc_mode, m.cmd_vx), (Some((1, 2)), 0));
    let m = Params::forward_walk_misa_wbc(3, 4);
    assert_eq!((m.misa_wbc_mode, m.cmd_vx), (Some((3, 4)), 150_000_000));
}

#[test]
fn tuned_parameters() {
    let p: Params = namiashi_tuned_params(1);
    assert_eq!((p.total_time_s, p.burn_in_s, p.cmd_vx), (26 * S, S, 330_000_000));
    assert_eq!(p.gait_type, Some(GaitType::Walk));
    assert_eq!((p.cycle_period_s, p.duty_factor), (Some(500_000_000), Some(750_000_000)));
    assert_eq!((p.max_step_length_m, p.swing_height_m), (Some(145_000_000), Some(35_000_000)));
    assert_eq!(p.k_capture_s, Some(15_000_000));
}

#[test]
fn legs_start_bent() {
    let mut q = vec![0; 7];
    let leg = LegSeed { angles: [1, 2, 3], joints: [Some(0), Some(1), None] };
    let other = LegSeed { angles: [4, 5, i64::MIN], joints: [None, Some(2), Some(3)] };
    let none = LegSeed { angles: [9; 3], joints: [None; 3] };
    seed_joint_positions_from_kinematics(&mut q, &[leg, other, none, LegSeed { joints: [None, Some(0), None], ..none }]);
    assert_eq!(q, [-9, -2, -5, i64::MAX, 0, 0, 0]);
}

#[test]
fn balance_weights() {
    let w = WbcWeights {
        floating_base_eom: 1,
        no_contact_motion: 2,
        base_accel: 3,
        swing_leg: 4,
        contact_force: 5,
        tau_gravity: 6,
    };
    let mut p = Params::static_stand();
    assert_eq!(wbc_weights(&w, &p), w);
    p.drop_tau_gravity = true;
    p.contact_force_weight = Some(50);
    assert_eq!(wbc_weights(&w, &p), WbcWeights { contact_force: 50, tau_gravity: 0, ..w });
    p.flat_wbc_weights = true;
    p.base_accel_weight = Some(30);
    let got = wbc_weights(&w, &p);
    assert_eq!((got.floating_base_eom, got.swing_leg, got.no_contact_motion), (S, S, S));
    assert_eq!((got.base_accel, got.contact_force, got.tau_gravity), (30, 50, 0));
    assert_eq!(real_parts(&p), (false, false, false));
    p.wbc_real_com_only = true;
    assert_eq!(real_parts(&p), (false, true, false));
    p.wbc_real_inertia = true;
    assert_eq!(real_parts(&p), (true, true, true));
    assert_eq!(crouched_nominal(-300_000_000, 150_000_000, 156_000_000, 60_000_000), -215_520_000);
}

#[test]
fn controllers_are_tuned() {
    let mut p = Params::static_stand();
    let mut m = SrbdConfig {
        horizon_steps: 10,
        q_diag: vec![0; 13],
        mass_kg: 9 * S,
        inertia_diag_body: [1, 2, 3],
        friction_mu: 5,
    };
    m.tune(&p);
    assert_eq!((m.horizon_steps, m.q_diag[3]), (10, 0));
    p.mpc_horizon_steps = Some(30);
    p.mpc_px_cost = Some(1000 * S);
    m.tune(&p);
    m.compose(3_300_000_000, [7, 8, 9]);
    assert_eq!((m.horizon_steps, m.q_diag[3], m.mass_kg), (30, 1000 * S, 3_300_000_000));
    assert_eq!(m.inertia_diag_body, [7, 8, 9]);

    let fresh = || FcmConfig {
        warm_start: false,
        sqp_iterations: 3,
        horizon_steps: 10,
        dt_per_step: 30_000_000,
        sparse_qp: false,
        r_diag: vec![1; 24],
        q_diag: vec![2; 24],
    };
    p.fcm_warm_start = true;
    p.fcm_grf_cost = Some(5);
    p.fcm_horizon_steps = Some(67);
    p.fcm_sqp_iterations = Some(2);
    p.fcm_sparse_qp = true;
    let mut c = fresh();
    c.tune(&p);
    // The horizon is only for a run that uses this controller.
    assert_eq!((c.warm_start, c.sqp_iterations, c.horizon_steps, c.sparse_qp), (true, 1, 10, false));
    assert_eq!((c.r_diag[11], c.r_diag[12]), (5, 1));
    p.gait_mode = GaitMode::FullCentroidal;
    p.fcm_jointv_cost = Some(6);
    p.fcm_dt_per_step = Some(15_000_000);
    p.fcm_state_cost = Some([10, 20, 30, 40, 50]);
    let mut c = fresh();
    c.tune(&p);
    assert_eq!((c.sqp_iterations, c.horizon_steps, c.dt_per_step, c.sparse_qp), (2, 67, 15_000_000, true));
    assert_eq!((c.r_diag[11], c.r_diag[12], c.r_diag[23]), (5, 6, 6));
    let q: Vec<i64> = [10, 20, 30, 40].iter().flat_map(|&v| [v; 3]).chain([50; 12]).collect();
    assert_eq!(c.q_diag, q);
}

#[test]
fn scene_extras() {
    let t = |s: &str| Some(s.to_string());
    assert_eq!(world_extras(t("ring"), t("stairs"), None), t("ring"));
    assert_eq!(world_extras(None, t("stairs"), None), t("stairs"));
    assert_eq!(world_extras(None, None, None), None);
    assert_eq!(world_extras(t("ring"), None, t("foe")), t("ring\nfoe"));
    assert_eq!(world_extras(None, None, t("foe")), t("\nfoe"));
    assert_eq!(asset_extras("a", true, "b"), "ab");
    assert_eq!(asset_extras("a", false, "b"), "a");
    let mut p = Params::static_stand();
    assert!(needs_ground(&p));
    p.staircase = Some(1);
    assert!(!needs_ground(&p));
}

#[test]
fn joint_loads() {
    let j = JointLoad { effort: 2 * S, velocity: 4 * S, torque: Some(-S), qd: Some(-S) };
    let mut js = [j; 12];
    js[1].torque = None;
    js[2].effort = 0;
    js[3].velocity = -1;
    let l = loads(&js);
    assert_eq!(l.tau_frac[0..3], [500_000_000, 0, 0]);
    assert_eq!(l.tau_nm[0..3], [S, 0, 0]);
    assert_eq!(l.qd_frac[2..5], [250_000_000, 0, 250_000_000]);
}

#[test]
fn contact_forces() {
    let c = |a: &str, b: &str, force| Contact { body1: a.to_string(), body2: b.to_string(), force };
    let all = vec![
        c("world", "fl_foot", [S, 2 * S, 10 * S]),
        c("fl_foot", "ring", [0, 0, -4 * S]),
        c("world", "fr_foot", [7, 7, 7]),
    ];
    let fl = "fl_foot".to_string();
    // Heading with cosine 0.6 and sine 0.8.
    assert_eq!(foot_force(&all, &fl, 600_000_000, 800_000_000), (14 * S, -S));
    assert_eq!(foot_force(&all, &"rl_foot".to_string(), S, 0), (0, 0));
    assert_eq!(foot_force(&all, &"FL_foot".to_string(), S, 0), (0, 0));
    assert_eq!(foot_force_any_case(&all, "FL_Foot", 600_000_000, 800_000_000), (14 * S, -S));
    let loud = vec![c("FL_FOOT", "World", [0, 0, 5])];
    assert_eq!(foot_force_any_case(&loud, "fl_foot", S, 0), (5, 0));
    assert_eq!(foot_force_any_case(&loud, "fr_foot", S, 0), (0, 0));
    assert_eq!(total_fz(&all), 6 * S + 7);
    let f = [[S, S, 5], [0, S, 6], [0; 3], [0, 0, -1]];
    assert_eq!(planned_fx(&f, S, 0), S);
    assert_eq!(planned_fx(&f, 0, S), -2 * S);
    assert_eq!(planned_fz(&f), 10);
}

#[test]
fn weight_is_split() {
    assert_eq!(weight(3_300_000_000), 32_373_000_000);
    assert_eq!(gravity_split(&[true, false, false, true], 33), [17, 0, 0, 17]);
    assert_eq!(gravity_split(&[true; 4], 40), [10; 4]);
    assert_eq!(gravity_split(&[false; 4], 40), [0; 4]);
    assert_eq!(least_stance_force(0, 40), None);
    assert_eq!(least_stance_force(500_000_000, 40 * S), Some(5 * S));
}

#[test]
fn replay_lines() {
    let names = |v: &[&str]| v.iter().map(|s| s.to_string()).collect::<Vec<_>>();
    let h = header(&names(&["a_joint", "b_joint"]), &names(&["FL", "FR", "RL", "RR"]), true);
    assert_eq!(
        h,
        "t,root_x,root_y,root_z,root_qw,root_qx,root_qy,root_qz,a_joint,b_joint,fz_FL,fz_FR,fz_RL,\
         fz_RR,cmd_vx,cmd_vy,cmd_wz,push_fy,arm_pitch_joint,foe_x,foe_y,foe_z,foe_qw,foe_qx,foe_qy,foe_qz\n"
    );
    let mut row = ReplayRow {
        t: 1_234_567_890,
        root: [S, 0, 0, S, 0, 0, -1],
        joints: vec![123_456_789, -S],
        foot_fz: [8_123_456_789, 0, 0, 0],
        cmd: [800_000_000, 0, 0],
        push_fy: 12 * S,
        arm: 850_000_000,
        foe: Some([0; 7]),
    };
    let line = row.line();
    assert_eq!(
        line,
        "1.23457,1.000000,0.000000,0.000000,1.000000,0.000000,0.000000,-0.000000,0.123457,-1.000000,\
         8.1235,0.0000,0.0000,0.0000,0.8000,0.0000,0.0000,12.00,0.850000,0.000000,0.000000,0.000000,\
         0.000000,0.000000,0.000000,0.000000\n"
    );
    assert_eq!(line.split(',').count(), h.split(',').count());
    row.foe = None;
    let bare = header(&names(&["a_joint", "b_joint"]), &names(&["FL", "FR", "RL", "RR"]), false);
    assert_eq!(row.line().split(',').count(), bare.split(',').count());
    let push = Some((S, [1, 2, 3], S));
    assert_eq!(push_fy(push, S - 1), 0);
    assert_eq!(push_fy(push, S), 2);
    assert_eq!(push_fy(push, 2 * S), 0);
    assert_eq!(push_fy(None, S), 0);
}

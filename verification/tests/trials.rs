use namiashi_sim::recovery::{LegAngles, Recovery};
use namiashi_sim::self_righting::{
    Drive, RecoveryParams, ARM_LIMIT, GENTLE_V3, PROBE_BEST, RECOVERY_FAST, STANCE,
};
use namiashi_sim::trial::{
    is_leg_joint, joint_torque, leg_joint_name, pd_torque, settle_steps, trace_due, trace_row,
    Attitude, JointReading, LegReadings, Trial,
};

const S: i64 = 1_000_000_000;
const DT: i64 = 2_000_000;

fn at(q: i64, qd: i64) -> JointReading {
    JointReading::At { q, qd }
}

fn rest() -> LegReadings {
    [[at(0, 0), at(900_000_000, 0), at(-1_800_000_000, 0)]; 4]
}

fn lying(up: i64) -> Attitude {
    Attitude::Pose { up, g_body_y: 0 }
}

#[test]
fn trial_starts_where_the_joints_are() {
    let mut legs = rest();
    legs[1][1] = JointReading::Silent;
    legs[2][0] = JointReading::Absent;
    legs[3][2] = at(5, 0);
    let t = Trial::new(RecoveryParams::of(&PROBE_BEST), Drive::Position, &legs, JointReading::Absent);
    assert_eq!(t.slew.arm, ARM_LIMIT.1);
    assert_eq!(t.slew.legs[1], [0, 900_000_000, -1_800_000_000]);
    assert_eq!(t.slew.legs[2][0], 0);
    assert_eq!(t.slew.legs[3][2], 5);
    assert!(t.tilt.is_none());
    let a = Drive::TorqueAhrs { kp: 1, kd: 1, tilt_tau_s: 7 };
    let t = Trial::new(RecoveryParams::of(&PROBE_BEST), a, &legs, at(3, 0));
    assert_eq!(t.slew.arm, 3);
    assert_eq!(t.tilt.map(|f| f.tau_s), Some(7));
}

#[test]
fn trial_follows_the_trajectory_at_its_rate() {
    let p = RecoveryParams::of(&GENTLE_V3);
    let mut t = Trial::new(p, Drive::Position, &rest(), at(850_000_000, 0));
    let c = t.tick(lying(-S), DT);
    // 1.432... rad/s over 2 ms.
    assert_eq!(c.arm, 850_000_000 - 2_864_164);
    assert_eq!(c.legs[0][1], 900_000_000 - 2_864_164);
    assert_eq!(c.up, -S);
    assert!(!c.handed_back);
}

#[test]
fn trial_hands_back_after_an_upright_second() {
    let p = RecoveryParams::of(&GENTLE_V3);
    let mut t = Trial::new(p, Drive::Position, &rest(), at(850_000_000, 0));
    for i in 0..500 {
        let c = t.tick(lying(S), DT);
        assert!(!c.handed_back, "{i}");
    }
    // Exactly one second is not yet more than one.
    assert_eq!(t.upright_s, S);
    assert_eq!(t.slew.max_rate_rad_s, p.max_rate_rad_s);
    assert!(t.tick(lying(S), DT).handed_back);
    assert_eq!(t.slew.max_rate_rad_s, p.stand_rate_rad_s);
    // It stays handed back when the robot falls over again.
    let c = t.tick(lying(-S), DT);
    assert!(c.handed_back);
    assert_eq!(c.arm, ARM_LIMIT.1);
}

#[test]
fn trial_tumble_restarts_the_wait() {
    let p = RecoveryParams::of(&GENTLE_V3);
    let mut t = Trial::new(p, Drive::Position, &rest(), at(0, 0));
    for _ in 0..400 {
        t.tick(lying(S), DT);
    }
    t.tick(lying(850_000_000), DT);
    assert_eq!(t.upright_s, 0);
    for _ in 0..400 {
        assert!(!t.tick(lying(S), DT).handed_back);
    }
}

#[test]
fn trial_latches_the_side() {
    let p = RecoveryParams::of(&RECOVERY_FAST);
    let mut t = Trial::new(p, Drive::Position, &rest(), at(0, 0));
    t.tick(Attitude::Pose { up: -S, g_body_y: 100_000_000 }, DT);
    assert_eq!(t.mirror, None);
    t.tick(Attitude::Pose { up: -S, g_body_y: -400_000_000 }, DT);
    assert_eq!(t.mirror, Some(true));
    t.tick(Attitude::Pose { up: -S, g_body_y: 900_000_000 }, DT);
    assert_eq!(t.mirror, Some(true));
}

#[test]
fn trial_with_a_filter_ignores_the_pose() {
    let p = RecoveryParams::of(&RECOVERY_FAST);
    let d = Drive::TorqueAhrs { kp: S, kd: S, tilt_tau_s: 150_000_000 };
    let mut t = Trial::new(p, d, &rest(), at(0, 0));
    assert_eq!(t.tick(Attitude::Imu { accel: Some([0, 0, -9 * S]) }, DT).up, -S);
    assert_eq!(t.tick(Attitude::Imu { accel: None }, DT).up, -S);
}

#[test]
fn trial_measures() {
    let p = RecoveryParams::of(&GENTLE_V3);
    let mut t = Trial::new(p, Drive::Position, &rest(), at(0, 0));
    let mut legs: LegReadings = [[JointReading::Silent; 3]; 4];
    legs[0][0] = at(0, -6 * S);
    t.observe(DT, Some([3 * S, 0, 4 * S]), &legs, -S);
    t.observe(DT, None, &rest(), 860_000_000);
    t.observe(DT, Some([0, 0, 0]), &rest(), 100);
    let o = t.outcome(100, &[0, 0], &[3 * S, -4 * S]);
    assert_eq!(o.peak_up, 860_000_000);
    assert_eq!(o.final_up, 100);
    assert_eq!(o.t_right_s, Some(2 * DT));
    assert_eq!(o.travel_m, 5 * S);
    assert_eq!(o.peak_omega_rad_s, 5 * S);
    assert_eq!(o.peak_joint_rad_s, 6 * S);
    // sqrt(25 / 3) and sqrt(36 / 36)
    assert_eq!(o.rms_omega_rad_s, 2_886_751_345);
    assert_eq!(o.rms_joint_rad_s, S);
    assert!(t.running(3 * DT + 1));
    assert!(!t.running(3 * DT));
    let empty = Trial::new(p, Drive::Position, &rest(), at(0, 0)).outcome(0, &[0, 0], &[0, 0]);
    assert_eq!(empty.peak_up, -S);
    assert_eq!(empty.rms_omega_rad_s, 0);
}

#[test]
fn trace_of_a_whole_trial() {
    let p = RecoveryParams::of(&GENTLE_V3);
    let mut t = Trial::new(p, Drive::Position, &rest(), at(0, 0));
    let mut rows = vec![];
    for i in 0..1500 {
        // Upright, one tumble, upright again, and fallen over at the end.
        let up = if i == 400 || i >= 1200 { 0 } else { S };
        let c = t.tick(lying(up), DT);
        t.observe(DT, None, &rest(), up);
        rows.push(trace_row(&t, [0; 7], &rest(), &JointReading::Silent, &c));
    }
    let first = rows.iter().position(|r| r.4).unwrap();
    assert_eq!(first, 901);
    assert!(rows[first..].iter().all(|r| r.4));
    for r in rows[..=first].iter().filter(|r| rows[first].0 - r.0 < S) {
        assert!(r.3 > 850_000_000);
    }
    assert_eq!(t.t_right_s, Some(DT));
    let mut low = Trial::new(p, Drive::Position, &rest(), at(0, 0));
    low.observe(DT, None, &rest(), 850_000_000);
    assert_eq!((low.peak_up, low.t_right_s), (850_000_000, None));
}

#[test]
fn trial_trace() {
    assert!(trace_due(None, 0, S));
    assert!(trace_due(Some(0), S - 1, S));
    assert!(!trace_due(Some(0), S - 2, S));
    let p = RecoveryParams::of(&GENTLE_V3);
    let mut t = Trial::new(p, Drive::Position, &rest(), at(0, 0));
    let c = t.tick(lying(-S), DT);
    t.observe(DT, None, &rest(), -S);
    let row = trace_row(&t, [1, 2, 3, 4, 5, 6, 7], &rest(), &JointReading::Silent, &c);
    assert_eq!(row.0, DT);
    assert_eq!(row.1, [1, 2, 3, 4, 5, 6, 7]);
    assert_eq!(row.2[0..3], [0, 900_000_000, -1_800_000_000]);
    assert_eq!(row.2[12], 0);
    assert_eq!(row.3, -S);
    assert!(!row.4);
}

#[test]
fn joint_torques() {
    assert_eq!(pd_torque(100 * S, S, 2 * S, S, 3 * S, 5), 97 * S + 5);
    assert_eq!(joint_torque(S, S, 7, &JointReading::Absent, 9), None);
    assert_eq!(joint_torque(S, S, 7, &JointReading::Silent, 9), Some(9));
    assert_eq!(joint_torque(2 * S, S, 7, &at(3, 1), 9), Some(16));
    assert_eq!(pd_torque(i64::MAX, 0, i64::MAX, i64::MIN, 0, 0), i64::MAX);
}

#[test]
fn joint_names_and_settling() {
    assert_eq!(leg_joint_name(0, 0), "FL_hip_joint");
    assert_eq!(leg_joint_name(3, 2), "RR_calf_joint");
    assert!(is_leg_joint("RL_thigh_joint"));
    assert!(!is_leg_joint("arm_pitch_joint"));
    assert_eq!(settle_steps(2_000_000), 250);
    assert_eq!(settle_steps(3_000_000), 166);
    assert_eq!(settle_steps(0), u32::MAX);
    assert_eq!(settle_steps(-1), 0);
}

fn angles() -> LegAngles {
    [[Some(0), Some(900_000_000), None]; 4]
}

#[test]
fn recovery_runs_and_gives_up() {
    let mut r = Recovery::new();
    r.start(true);
    assert_eq!(r.t, Some(0));
    let down = Some([0, 0, -9_810_000_000]);
    let s = r.step(down, Some(0), &angles(), 100_000_000);
    assert_eq!(s.ended, None);
    assert_eq!(r.t, Some(100_000_000));
    assert_eq!(r.tilt.map(|f| f.tau_s), Some(150_000_000));
    // Where a joint has no reading it starts where it is wanted.
    let p = RecoveryParams::of(&RECOVERY_FAST);
    assert_eq!(s.legs[0][2], p.targets(0, -S, 0).1[0][2]);
    let mut steps = 1;
    loop {
        steps += 1;
        match r.step(down, Some(0), &angles(), 100_000_000).ended {
            None => continue,
            Some(done) => {
                assert!(!done);
                break;
            }
        }
    }
    assert_eq!(steps, 202);
    assert!(r.t.is_none() && r.slew.is_none() && r.tilt.is_none() && r.mirror.is_none());
}

#[test]
fn recovery_succeeds_after_the_hold() {
    let mut r = Recovery::new();
    r.start(false);
    let up = Some([0, 0, 9_810_000_000]);
    for _ in 0..10 {
        let s = r.step(up, None, &angles(), 100_000_000);
        assert_eq!(s.ended, None);
        assert_eq!(s.legs[0][0], STANCE[0]);
        assert_eq!(r.slew.map(|s| s.max_rate_rad_s), Some(6_816_908_615));
    }
    assert_eq!(r.upright_s, S);
    assert_eq!(r.step(up, None, &angles(), 100_000_000).ended, Some(true));
    assert_eq!(r.upright_s, 0);
}

#[test]
fn recovery_can_be_dropped() {
    let mut r = Recovery::new();
    r.start(true);
    r.step(Some([0, -S, 0]), None, &angles(), DT);
    assert_eq!(r.mirror, Some(false));
    r.cancel();
    assert!(r.t.is_none() && r.slew.is_none());
    assert_eq!(r.mirror, Some(false));
    r.start(false);
    assert!(r.mirror.is_none() && !r.fast);
}

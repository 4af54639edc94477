use namiashi_sim::self_righting::{
    latch_mirror, upright_for, LegTargets, Outcome, RecoveryParams, Slew, TiltEstimator, ARM_LIMIT,
    BOUNDS, CALF_LIMIT, DIM, FOLD, GENTLE_V1, GENTLE_V2, GENTLE_V3, HIP_LIMIT_L, HIP_LIMIT_R,
    PROBE_BEST, RECOVERY_FAST, RECOVERY_GENTLE, SEARCHED_V1, SEARCHED_V2, SEARCHED_V3, SEARCHED_V4,
    STANCE, THIGH_LIMIT,
};

const S: i64 = 1_000_000_000;

fn all() -> Vec<RecoveryParams> {
    vec![
        RecoveryParams::of(&PROBE_BEST),
        RecoveryParams::of(&SEARCHED_V1),
        RecoveryParams::of(&SEARCHED_V2),
        RecoveryParams::of(&SEARCHED_V3),
        RecoveryParams::of(&SEARCHED_V4),
        RecoveryParams::of(&GENTLE_V1),
        RecoveryParams::of(&GENTLE_V2),
        RecoveryParams::of(&GENTLE_V3),
    ]
}

/// The rock cycle in floating point, one value at a time.
fn rock(p: &RecoveryParams, rest: i64, push: i64, t: f64) -> f64 {
    let f = |v: i64| v as f64 / 1e9;
    let period = f(p.period_s).max(1e-3);
    let phase = t % period;
    let push_end = period * f(p.push_frac);
    let ramp = f(p.ramp_s).max(1e-4);
    let s = if phase < push_end {
        (phase / ramp).clamp(0.0, 1.0)
    } else {
        1.0 - ((phase - push_end) / ramp).clamp(0.0, 1.0)
    };
    f(rest) + (f(push) - f(rest)) * s
}

#[test]
fn named_trajectories() {
    let fast = RecoveryParams::of(&RECOVERY_FAST);
    let gentle = RecoveryParams::of(&RECOVERY_GENTLE);
    assert_eq!(fast, RecoveryParams::of(&SEARCHED_V4));
    assert_eq!(gentle, RecoveryParams::of(&GENTLE_V3));
    assert_eq!(fast.period_s, 1_190_846_481);
    assert_eq!(fast.stand_calf, 1_985_082_737);
    assert_eq!(gentle.hip_rest, [-785_000_000, -341_889_472]);
    assert_eq!(gentle.max_rate_rad_s, 1_432_081_930);
    assert_eq!(gentle.stand_rate_rad_s, 6_816_908_615);
}

#[test]
fn rock_cycle_follows_the_formula() {
    for p in all() {
        for i in 0..400 {
            let t = i as i64 * 37_000_000;
            let (arm, legs) = p.targets(t, -S, 0);
            let tf = t as f64 / 1e9;
            let close = |a: i64, b: f64| assert!((a as f64 / 1e9 - b).abs() < 1e-6, "{a} {b}");
            close(arm, rock(&p, p.arm_rest, p.arm_push, tf));
            close(legs[0][0], rock(&p, p.hip_rest[0], p.hip_push[0], tf));
            close(legs[1][0], rock(&p, p.hip_rest[1], p.hip_push[1], tf));
            close(legs[2][1], rock(&p, p.thigh_rest, p.thigh_push, tf));
            close(legs[3][2], rock(&p, p.calf_rest, p.calf_push, tf));
            assert_eq!(legs[0], legs[2]);
            assert_eq!(legs[1], legs[3]);
        }
    }
}

#[test]
fn rock_exact_values() {
    let p = RecoveryParams::of(&PROBE_BEST);
    // Rest at the start, half way up the ramp, at the push, and back.
    assert_eq!(p.targets(0, -S, 0).0, 850_000_000);
    assert_eq!(p.targets(50_000_000, -S, 0).0, -725_000_000);
    assert_eq!(p.targets(500_000_000, -S, 0), (
        -2_300_000_000,
        [
            [1_050_000_000, 0, -500_000_000],
            [785_000_000, 0, -500_000_000],
            [1_050_000_000, 0, -500_000_000],
            [785_000_000, 0, -500_000_000],
        ],
    ));
    assert_eq!(p.targets(1_900_000_000, -S, 0).1[0], [0, 900_000_000, -1_800_000_000]);
    assert_eq!(p.targets(4_000_000_000, -S, 0).0, 850_000_000);
}

#[test]
fn finish_pushes_from_the_side_that_is_down() {
    let p = RecoveryParams::of(&SEARCHED_V4);
    let up = p.handoff_up;
    let push_l = [701_343_900, -2_119_120_223, -1_107_535_851];
    let push_r = [-701_343_900, -2_119_120_223, -1_107_535_851];
    assert_eq!(p.targets(0, up, 1), (850_000_000, [push_l, FOLD, push_l, FOLD]));
    assert_eq!(p.targets(0, up, 0), (850_000_000, [FOLD, push_r, FOLD, push_r]));
    assert_eq!(p.targets(0, up - 1, 1).1, p.targets(0, -S, 1).1);
}

#[test]
fn upright_robot_stands() {
    for p in all() {
        assert_eq!(p.targets(123, 850_000_000, -5), (850_000_000, [STANCE; 4]));
        assert_eq!(p.targets_mirrored(123, S, -5, true), (850_000_000, [STANCE; 4]));
    }
}

#[test]
fn mirror_swaps_and_negates_the_hips() {
    let p = RecoveryParams::of(&GENTLE_V3);
    let m = p.mirrored();
    assert_eq!(m.hip_push, [68_122_228, -930_119_755]);
    assert_eq!(m.hip_rest, [341_889_472, 785_000_000]);
    assert_eq!(m.mirrored(), p);
    assert_eq!(p.targets_mirrored(7, -S, 0, true), m.targets(7, -S, 0));
    assert_eq!(p.targets_mirrored(7, -S, 0, false), p.targets(7, -S, 0));
}

#[test]
fn vector_round_trip_and_clamping() {
    let p = RecoveryParams::of(&GENTLE_V2);
    let v = p.to_vec();
    assert_eq!(v[0], 4_881_933_524);
    assert_eq!(v[18], 4_968_451_683);
    assert_eq!(RecoveryParams::from_vec(&v), p);
    let wild = RecoveryParams::from_vec(&[i64::MAX; 19]).to_vec();
    let low = RecoveryParams::from_vec(&[i64::MIN; 19]).to_vec();
    for i in 0..DIM {
        assert_eq!(wild[i], BOUNDS[i].1);
        assert_eq!(low[i], BOUNDS[i].0);
    }
    // The fast trajectory stands differently, so it does not survive the trip.
    let fast = RecoveryParams::of(&RECOVERY_FAST);
    assert_ne!(RecoveryParams::from_vec(&fast.to_vec()), fast);
}

#[test]
fn every_target_within_the_limits() {
    for p in all() {
        for i in 0..200 {
            for up in [-S, 0, 700_000_000, S] {
                for g in [-S, 0, S] {
                    for mirror in [false, true] {
                        let (arm, legs) = p.targets_mirrored(i * 61_000_000, up, g, mirror);
                        assert!(ARM_LIMIT.0 <= arm && arm <= ARM_LIMIT.1);
                        for (l, leg) in legs.iter().enumerate() {
                            let hip = if l % 2 == 0 { HIP_LIMIT_L } else { HIP_LIMIT_R };
                            assert!(hip.0 <= leg[0] && leg[0] <= hip.1);
                            assert!(THIGH_LIMIT.0 <= leg[1] && leg[1] <= THIGH_LIMIT.1);
                            assert!(CALF_LIMIT.0 <= leg[2] && leg[2] <= CALF_LIMIT.1);
                        }
                    }
                }
            }
        }
    }
}

#[test]
fn first_sample_settles_the_tilt() {
    let mut f = TiltEstimator::new(150_000_000);
    assert_eq!(f.up(), S);
    f.update(&[0, 0, -9_810_000_000], 2_000_000);
    assert_eq!(f.up(), -S);
    assert_eq!(f.g_body_y(), 0);
    // A sample without a direction is ignored.
    f.update(&[0, 0, 999], 2_000_000);
    assert_eq!(f.up(), -S);
}

#[test]
fn tilt_eases_toward_later_samples() {
    let mut f = TiltEstimator::new(100_000_000);
    f.update(&[0, 0, S], 10_000_000);
    f.update(&[0, -S, 0], 10_000_000);
    // A tenth of the way from (0, 0, -1) to (0, 1, 0).
    assert_eq!(f.g, [0, 100_000_000, -900_000_000]);
    assert_eq!(f.g_body_y(), 100_000_000);
    let up = 0.9 / (0.01_f64 + 0.81).sqrt();
    assert!((f.up() as f64 / 1e9 - up).abs() < 1e-8);
    // The share never exceeds the whole.
    f.update(&[S, 0, 0], 500_000_000);
    assert_eq!(f.g, [-S, 0, 0]);
    assert_eq!(f.up(), 0);
}

#[test]
fn still_robot_keeps_its_tilt() {
    let mut f = TiltEstimator::new(150_000_000);
    let a = [1_000_000_000, -2_000_000_000, -9_500_000_000];
    f.update(&a, 2_000_000);
    let g = f.g;
    for _ in 0..100 {
        f.update(&a, 2_000_000);
    }
    assert_eq!(f.g, g);
}

#[test]
fn slew_limits_and_arrives() {
    let legs: LegTargets = [[0; 3]; 4];
    let mut s = Slew::new(2 * S, 0, legs);
    let want: LegTargets = [[10_000_000, -10_000_000, 3_000_000]; 4];
    let (arm, at) = s.apply(2_000_000, 9_000_000, &want);
    assert_eq!(arm, 4_000_000);
    assert_eq!(at, [[4_000_000, -4_000_000, 3_000_000]; 4]);
    for _ in 0..2 {
        s.apply(2_000_000, 9_000_000, &want);
    }
    assert_eq!(s.arm, 9_000_000);
    assert_eq!(s.legs, want);
    // A negative rate does not move anything.
    let mut still = Slew::new(-S, 5, legs);
    assert_eq!(still.apply(2_000_000, 9, &want), (5, legs));
}

#[test]
fn outcome_scores() {
    let o = Outcome {
        peak_up: S,
        final_up: S,
        t_right_s: Some(2 * S),
        travel_m: 0,
        peak_omega_rad_s: 0,
        peak_joint_rad_s: 0,
        rms_omega_rad_s: 2 * S,
        rms_joint_rad_s: 1_500_000_000,
        ..still()
    };
    assert!(o.righted());
    assert_eq!(o.score(), 1_800_000_000);
    // Twice the angular target, at the joint target, under the travel target.
    assert_eq!(o.roughness(), 600_000_000);
    let wild = Outcome { rms_joint_rad_s: 100 * S, travel_m: 10 * S, ..o };
    assert_eq!(wild.roughness(), 1_500_000_000);
    assert!(!still().righted());
    assert_eq!(still().score(), -1_300_000_000);
    assert_eq!(still().roughness(), 0);
    assert!(wild.score() - wild.roughness() as i128 > still().score());
    let edge = Outcome { final_up: 900_000_000, ..o };
    assert!(!edge.righted());
    assert_eq!(edge.score(), 1_200_000_000);
}

fn still() -> Outcome {
    Outcome {
        peak_up: -S,
        final_up: -S,
        t_right_s: None,
        travel_m: 0,
        peak_omega_rad_s: 0,
        peak_joint_rad_s: 0,
        rms_omega_rad_s: 310_000_000,
        rms_joint_rad_s: 107_000_000,
    }
}

#[test]
fn side_is_latched_once() {
    assert_eq!(latch_mirror(None, 350_000_000), None);
    assert_eq!(latch_mirror(None, 350_000_001), Some(false));
    assert_eq!(latch_mirror(None, -350_000_001), Some(true));
    assert_eq!(latch_mirror(Some(true), S), Some(true));
    assert_eq!(upright_for(5, 850_000_001, 7), 12);
    assert_eq!(upright_for(5, 850_000_000, 7), 0);
}

use namiashi_sim::attack::{arm_target, AttackCmd, AttackParams, AttackRun};

const S: i64 = 1_000_000_000;

fn cmd(front_nom_off_m: i64, arm_rad: i64, cmd_vx: i64) -> AttackCmd {
    AttackCmd { front_nom_off_m, arm_rad, cmd_vx }
}

#[test]
fn attack_phases() {
    let p = AttackParams::default();
    assert_eq!(p.total_s(), 5_600_000_000);
    assert_eq!(p.at(-S), cmd(0, 0, 0));
    assert_eq!(p.at(0), cmd(0, 0, 0));
    assert_eq!(p.at(600_000_000), cmd(27_500_000, 425_000_000, 0));
    assert_eq!(p.at(1_200_000_000), cmd(55_000_000, 850_000_000, 100_000_000));
    assert_eq!(p.at(3_699_999_999), cmd(55_000_000, 850_000_000, 100_000_000));
    assert_eq!(p.at(3_700_000_000), cmd(55_000_000, 850_000_000, 0));
    assert_eq!(p.at(4_150_000_000), cmd(12_500_000, -725_000_000, 0));
    assert_eq!(p.at(4_600_000_000), cmd(-30_000_000, -2_300_000_000, 0));
    assert_eq!(p.at(60 * S), cmd(-30_000_000, -2_300_000_000, 0));
}

#[test]
fn attack_without_durations() {
    let p = AttackParams { set_s: 0, lift_s: -5, creep_s: 0, ..AttackParams::default() };
    assert_eq!(p.at(500), cmd(27_500_000, 425_000_000, 0));
    assert_eq!(p.at(1_000), cmd(55_000_000, 850_000_000, 0));
    assert_eq!(p.at(2_000), cmd(-30_000_000, -2_300_000_000, 0));
}

#[test]
fn attack_follows_the_formula() {
    let p = AttackParams::default();
    for i in 0..600_i64 {
        let t = i as f64 * 0.01;
        let (front, arm, vx) = if t < 1.2 {
            (0.055 * t / 1.2, 0.85 * t / 1.2, 0.0)
        } else if i < 370 {
            (0.055, 0.85, 0.10)
        } else {
            let s = ((t - 3.7) / 0.9).clamp(0.0, 1.0);
            (0.055 + (-0.030 - 0.055) * s, 0.85 + (-2.3 - 0.85) * s, 0.0)
        };
        let c = p.at(i * 10_000_000);
        assert!((c.front_nom_off_m as f64 / 1e9 - front).abs() < 1e-8, "{i}");
        assert!((c.arm_rad as f64 / 1e9 - arm).abs() < 1e-8, "{i}");
        assert!((c.cmd_vx as f64 / 1e9 - vx).abs() < 1e-8, "{i}");
    }
}

#[test]
fn attack_runs_to_its_end() {
    let p = AttackParams::default();
    let mut run = AttackRun::new();
    assert!(!run.advance(&p, false, S));
    assert_eq!(run, AttackRun { t: None, now: None });
    run.start();
    for i in 0..6 {
        assert!(!run.advance(&p, false, S));
        assert_eq!(run.now, Some(p.at(i * S)));
    }
    assert_eq!(run.t, Some(6 * S));
    assert!(run.advance(&p, false, S));
    assert_eq!(run, AttackRun { t: None, now: None });
}

#[test]
fn recovery_ends_an_attack() {
    let p = AttackParams::default();
    let mut run = AttackRun::new();
    run.start();
    run.advance(&p, false, S);
    assert!(!run.advance(&p, true, S));
    assert_eq!(run, AttackRun { t: None, now: None });
    run.start();
    run.cancel();
    assert_eq!(run.t, None);
}

#[test]
fn arm_follows_the_attack_then_the_keys() {
    let range = (-2_300_000_000, 850_000_000);
    let a = Some(cmd(0, -3 * S, 0));
    assert_eq!(arm_target(0, a, S, range, S), Some(-2_300_000_000));
    assert_eq!(arm_target(0, None, S, range, 100_000_000), Some(80_000_000));
    assert_eq!(arm_target(0, None, -S, range, 100_000_000), Some(-80_000_000));
    assert_eq!(arm_target(840_000_000, None, S, range, S), Some(850_000_000));
    assert_eq!(arm_target(123, None, 0, range, S), None);
    // Travel that is out of order matters only once the arm moves.
    assert_eq!(arm_target(123, None, 0, (1, 0), S), None);
}

#[test]
fn attack_never_jumps() {
    let p = AttackParams::default();
    // The lift is the faster of the two, for the arm and for the front.
    let (arm, front) = (3.15 / 0.9, 0.085 / 0.9);
    for i in 0..700_i64 {
        for step in [1_i64, 7, 100] {
            let (t1, t2) = (i * 10_000_000, (i + step) * 10_000_000);
            let (a, b) = (p.at(t1), p.at(t2));
            let dt = (t2 - t1) as f64;
            assert!((b.arm_rad - a.arm_rad).abs() as f64 <= arm * dt + 1.0);
            assert!((b.front_nom_off_m - a.front_nom_off_m).abs() as f64 <= front * dt + 1.0);
        }
    }
}

#[test]
fn attack_ends_at_the_top() {
    let p = AttackParams::default();
    assert_eq!(p.at(p.total_s()), cmd(-30_000_000, -2_300_000_000, 0));
}

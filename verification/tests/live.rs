use namiashi_sim::attack::AttackParams;
use namiashi_sim::gait::{
    family, namiashi_tuned_cmd_vx, namiashi_tuned_gait_config, namiashi_tuned_row,
    namiashi_tuned_swing_height_m, GaitConfig, GaitType, NAMIASHI_TUNED,
};
use namiashi_sim::hud::{draw_hud, help_lines, HudItem};
use namiashi_sim::recovery::LegAngles;
use namiashi_sim::session::Session;
use namiashi_sim::swing::HipGate;
use namiashi_sim::teleop::{
    poll_arm_rate, poll_attack, poll_body_lift_delta, poll_cmd, poll_friction_deltas, poll_gait,
    poll_help_toggle, poll_level_toggle, poll_recover, poll_respawn, poll_swing_height_delta,
    FpsMeter, Held, Keys, LiveTeleop, Pressed, SpeedEnvelope,
};

const S: i64 = 1_000_000_000;
const DT: i64 = 2_000_000;

fn held(held: Held, shift: bool) -> Keys {
    Keys { shift, held, ..Keys::default() }
}

fn pressed(pressed: Pressed, shift: bool) -> Keys {
    Keys { shift, pressed, ..Keys::default() }
}

#[test]
fn tuned_gaits() {
    assert_eq!(namiashi_tuned_row(GaitType::Walk), NAMIASHI_TUNED[1]);
    assert_eq!(namiashi_tuned_row(GaitType::Pace), NAMIASHI_TUNED[0]);
    assert_eq!(namiashi_tuned_row(GaitType::Bound), NAMIASHI_TUNED[0]);
    assert_eq!(namiashi_tuned_cmd_vx(GaitType::Trot), 800_000_000);
    assert_eq!(namiashi_tuned_cmd_vx(GaitType::Walk), 330_000_000);
    assert_eq!(namiashi_tuned_cmd_vx(GaitType::Crawl), 170_000_000);
    assert_eq!(namiashi_tuned_swing_height_m(GaitType::Walk), 35_000_000);
    for (_, t, duty, step, _, vx) in NAMIASHI_TUNED {
        let ceiling = step as f64 / (t as f64 * duty as f64 / 1e9);
        assert!(vx as f64 / 1e9 <= ceiling);
    }
    let pace = namiashi_tuned_gait_config(GaitType::Pace);
    assert_eq!(pace, GaitConfig {
        gait_type: GaitType::Pace,
        cycle_period_s: 320_000_000,
        duty_factor: 500_000_000,
        max_step_length_m: 145_000_000,
        swing_height_m: 40_000_000,
    });
    assert_eq!(pace.overridden(Some(1), None, None, Some(2)).cycle_period_s, 1);
    assert_eq!(pace.overridden(Some(1), None, None, Some(2)).swing_height_m, 2);
    assert_eq!(pace.overridden(None, None, None, None), pace);
    assert_eq!(family(None), GaitType::Trot);
    assert_eq!(family(Some(GaitType::Crawl)), GaitType::Crawl);
}

#[test]
fn envelopes() {
    let e = |vx, vy, wz| SpeedEnvelope { vx, vy, wz };
    assert_eq!(SpeedEnvelope::for_gait(GaitType::Trot), e(800_000_000, 300_000_000, S));
    assert_eq!(SpeedEnvelope::for_gait(GaitType::Walk), e(330_000_000, 123_750_000, 412_500_000));
    assert_eq!(SpeedEnvelope::for_gait(GaitType::Crawl), e(170_000_000, 63_750_000, 212_500_000));
    assert_eq!(SpeedEnvelope::for_gait(GaitType::Bound), SpeedEnvelope::for_gait(GaitType::Trot));
}

#[test]
fn commands_follow_the_keys() {
    let env = SpeedEnvelope { vx: 800, vy: 300, wz: 1001 };
    assert_eq!(poll_cmd(&Keys::default(), env), [0, 0, 0]);
    let w = Held { w: true, ..Held::default() };
    assert_eq!(poll_cmd(&held(w, false), env), [400, 0, 0]);
    assert_eq!(poll_cmd(&held(w, true), env), [800, 0, 0]);
    let up = Held { up: true, w: true, page_down: true, d: true, ..Held::default() };
    assert_eq!(poll_cmd(&held(up, true), env), [800, -300, -1001]);
    assert_eq!(poll_cmd(&held(up, false), env), [400, -150, -501]);
    let both = Held { w: true, down: true, a: true, right: true, q: true, e: true, ..Held::default() };
    assert_eq!(poll_cmd(&held(both, true), env), [0, 0, 0]);
    let back = Held { s: true, left: true, page_up: true, ..Held::default() };
    assert_eq!(poll_cmd(&held(back, true), env), [-800, 300, 1001]);
}

#[test]
fn single_keys() {
    let p = Pressed::default();
    assert!(poll_help_toggle(&pressed(Pressed { k: true, ..p }, false)));
    assert!(poll_attack(&pressed(Pressed { x: true, ..p }, false)));
    assert!(poll_level_toggle(&pressed(Pressed { b: true, ..p }, false)));
    assert!(!poll_help_toggle(&Keys::default()) && !poll_attack(&Keys::default()));
    assert_eq!(poll_recover(&Keys::default()), None);
    assert_eq!(poll_recover(&pressed(Pressed { v: true, ..p }, true)), Some(true));
    assert_eq!(poll_respawn(&pressed(Pressed { n: true, ..p }, false)), Some(false));
    assert_eq!(poll_respawn(&pressed(Pressed { v: true, ..p }, true)), None);
    assert_eq!(poll_arm_rate(&held(Held { y: true, ..Held::default() }, false)), S);
    assert_eq!(poll_arm_rate(&held(Held { g: true, ..Held::default() }, false)), -S);
    assert_eq!(poll_body_lift_delta(&pressed(Pressed { equals: true, ..p }, false)), 5_000_000);
    assert_eq!(poll_body_lift_delta(&pressed(Pressed { minus: true, ..p }, false)), -5_000_000);
    assert_eq!(poll_swing_height_delta(&pressed(Pressed { r: true, f: true, ..p }, false)), 0);
    assert_eq!(poll_swing_height_delta(&pressed(Pressed { f: true, ..p }, false)), -5_000_000);
    let o = Pressed { o: true, period: true, ..p };
    assert_eq!(poll_friction_deltas(&pressed(o, false)), (50_000_000, -50_000_000));
    assert_eq!(poll_gait(&Keys::default()), None);
    let all = Pressed { num1: true, num2: true, num3: true, ..p };
    assert_eq!(poll_gait(&pressed(all, false)), Some(GaitType::Crawl));
    assert_eq!(poll_gait(&pressed(Pressed { num1: false, ..all }, false)), Some(GaitType::Walk));
    assert_eq!(poll_gait(&pressed(Pressed { num3: true, ..p }, false)), Some(GaitType::Trot));
}

#[test]
fn frame_of_keys() {
    let mut st = LiveTeleop::new(GaitType::Trot);
    assert_eq!(st.swing_height_m, 40_000_000);
    assert!(st.level_enabled && !st.show_help);
    st.ground_mu = 700_000_000;
    let p = Pressed { num1: true, r: true, k: true, n: true, b: true, minus: true, l: true, ..Pressed::default() };
    let h = Held { w: true, y: true, ..Held::default() };
    st.apply_keys(&Keys { shift: true, held: h, pressed: p });
    assert_eq!(st.gait, GaitType::Crawl);
    // The ceiling is the new gait's, and the swing height is carried over.
    assert_eq!(st.cmd, [170_000_000, 0, 0]);
    assert_eq!(st.swing_height_m, 45_000_000);
    assert_eq!(st.body_lift_m, -5_000_000);
    assert_eq!(st.arm_rate, S);
    assert_eq!(st.ground_mu, 650_000_000);
    assert_eq!(st.controller_mu, 0);
    assert!(!st.level_enabled && st.show_help);
    assert!(st.respawn_requested && st.respawn_inverted);
    assert!(!st.recover_requested && !st.attack_requested);
    st.apply_keys(&Keys::default());
    assert_eq!(st.cmd, [0, 0, 0]);
    assert_eq!(st.arm_rate, 0);
    assert!(st.respawn_requested && st.show_help);
}

#[test]
fn settings_stop_at_their_limits() {
    let mut st = LiveTeleop::new(GaitType::Walk);
    let up = Pressed { r: true, equals: true, o: true, p: true, ..Pressed::default() };
    for _ in 0..100 {
        st.apply_keys(&pressed(up, false));
    }
    assert_eq!(st.swing_height_m, 200_000_000);
    assert_eq!(st.body_lift_m, 60_000_000);
    assert_eq!((st.ground_mu, st.controller_mu), (1_500_000_000, 1_500_000_000));
    let down = Pressed { f: true, minus: true, l: true, period: true, ..Pressed::default() };
    for _ in 0..100 {
        st.apply_keys(&pressed(down, false));
    }
    assert_eq!(st.swing_height_m, 10_000_000);
    assert_eq!(st.body_lift_m, -50_000_000);
    assert_eq!((st.ground_mu, st.controller_mu), (50_000_000, 50_000_000));
}

#[test]
fn frame_rate() {
    let mut m = FpsMeter::new();
    assert_eq!(m.tick(S), 0);
    assert_eq!(m.tick(S + 20_000_000), 50 * S);
    assert_eq!(m.tick(S + 30_000_000), 55 * S);
    // Time that stands still or goes back measures nothing.
    assert_eq!(m.tick(S + 30_000_000), 55 * S);
    assert_eq!(m.tick(S), 55 * S);
}

fn show(items: &[HudItem]) -> Vec<String> {
    items
        .iter()
        .map(|i| match i {
            HudItem::Title { text } => format!("# {text}"),
            HudItem::Separator => "---".to_string(),
            HudItem::Row { key, value } => format!("{key}|{value}"),
            HudItem::Footer { text } => text.clone(),
        })
        .collect()
}

#[test]
fn overlay_text() {
    let mut st = LiveTeleop::new(GaitType::Walk);
    st.cmd = [165_000_000, 0, -206_250_000];
    st.arm_angle_rad = -850_000_000;
    st.body_lift_m = 5_000_000;
    st.ground_mu = 700_000_000;
    st.controller_mu = 500_000_000;
    st.measured_vx_mps = -1_000;
    st.body_x_m = 1_512_345_678;
    st.body_z_m = 235_000_000;
    st.sim_time_s = 12_340_000_000;
    st.wall_time_s = 24_680_000_000;
    st.fps = 59_940_000_000;
    let env = SpeedEnvelope::for_gait(GaitType::Walk);
    let want = [
        "# WBC / MPC",
        "---",
        "gait      |Walk",
        "arm       |-0.85 rad (-49 deg)",
        "levelling |ON  (IMU + encoders)",
        "body h    |+0.005 m from tuned",
        "swing h   |0.035 m (tuned 0.035)",
        "ground mu |0.70",
        "ctrl mu   |0.50  (conservative)",
        "---",
        "speed     |half",
        "vx cmd    |+0.165 / 0.330 m/s",
        "vy cmd    |+0.000 / 0.124 m/s",
        "wz cmd    |-0.206 / 0.412 rad/s",
        "---",
        "vx meas   |-0.000 m/s",
        "trunk x   |+1.512 m",
        "trunk z   |+0.235 m",
        "---",
        "fps       |59.9",
        "time      |12.3 s  (rt x0.50)",
        "---",
        "[K] controls",
    ];
    assert_eq!(show(&draw_hud(&st, &env, "WBC / MPC", true, false)), want);
    let short = show(&draw_hud(&st, &env, "RL", false, true));
    assert_eq!(short[0..5], ["# RL", "---", "ground mu |0.70", "---", "speed     |FULL"]);
    st.controller_mu = 700_000_001;
    st.show_help = true;
    st.level_enabled = false;
    st.wall_time_s = 1;
    let other = show(&draw_hud(&st, &env, "WBC / MPC", true, false));
    assert_eq!(other[4], "levelling |off");
    assert_eq!(other[8], "ctrl mu   |0.70  = matched");
    assert_eq!(other[20], "time      |12.3 s  (rt x0.00)");
    assert_eq!(other[22], "[K] hide controls");
    st.controller_mu = 800_000_000;
    assert_eq!(show(&draw_hud(&st, &env, "", true, false))[8], "ctrl mu   |0.80  OVER-ASSUMED");
}

#[test]
fn list_of_controls() {
    let mut st = LiveTeleop::new(GaitType::Trot);
    assert!(help_lines(&st, true).is_empty());
    st.show_help = true;
    let full = help_lines(&st, true);
    assert_eq!(full.len(), 17);
    assert_eq!(full[4], ("1 / 2 / 3 ".to_string(), "gait: Crawl / Walk / Trot".to_string()));
    let bare = help_lines(&st, false);
    assert_eq!(bare.len(), 11);
    for keys in ["1 / 2 / 3 ", "R / F     ", "= / -     ", "B         ", "Y / G     ", "P / .     "] {
        assert!(full.iter().any(|l| l.0 == keys) && bare.iter().all(|l| l.0 != keys), "{keys}");
    }
    assert_eq!(bare[10].1, "show / hide this list");
}

fn session() -> Session {
    Session::new(&namiashi_tuned_gait_config(GaitType::Trot), 0, 700_000_000, 500_000_000)
}

#[test]
fn requests_are_edges() {
    let mut s = session();
    assert_eq!(s.joints.host_pd, [0; 12]);
    assert!(!s.recovery.fast);
    let mut live = LiveTeleop::new(GaitType::Trot);
    s.seed_friction(&mut live);
    assert_eq!((live.ground_mu, live.controller_mu), (700_000_000, 500_000_000));
    live.attack_requested = true;
    live.recover_requested = true;
    live.recover_fast = true;
    assert_eq!(s.open_tick(&mut live, 7), None);
    assert_eq!(live.sim_time_s, 7);
    assert!(!live.attack_requested && !live.recover_requested);
    assert_eq!(s.attack.t, Some(0));
    assert_eq!(s.recovery.t, Some(0));
    assert!(s.recovery.fast);
    // With both live, the recovery wins.
    assert!(!s.advance_attack(&AttackParams::default(), DT));
    assert_eq!(s.attack.t, None);
}

#[test]
fn clocks_fire_once() {
    let mut s = session();
    let mut live = LiveTeleop::new(GaitType::Trot);
    live.recover_at_sim_s = Some(10);
    live.attack_at_sim_s = Some(20);
    s.open_tick(&mut live, 9);
    assert!(s.recovery.t.is_none());
    s.open_tick(&mut live, 10);
    assert_eq!(s.recovery.t, Some(0));
    assert_eq!((live.recover_at_sim_s, live.attack_at_sim_s), (None, Some(20)));
    s.recovery.t = Some(5);
    s.open_tick(&mut live, 25);
    assert_eq!(s.recovery.t, Some(5));
    assert_eq!(s.attack.t, Some(0));
    assert_eq!(live.attack_at_sim_s, None);
}

#[test]
fn respawn_drops_everything() {
    let mut s = session();
    let mut live = LiveTeleop::new(GaitType::Trot);
    live.respawn_requested = true;
    live.respawn_inverted = true;
    live.recover_requested = true;
    live.attack_requested = true;
    s.joints.prev_targets = [3; 12];
    s.joints.host_pd = [4; 12];
    s.reflex.active = [true; 4];
    s.heights.seen = [true; 4];
    s.heights.filt = [9; 4];
    s.foot_fz_now = [1; 4];
    s.stance_mask = [false; 4];
    s.gate = HipGate { open_until: Some(9), bias_now: 9 };
    s.yaw_prev = 5;
    assert_eq!(s.open_tick(&mut live, 0), Some(true));
    assert!(s.recovery.t.is_none() && s.attack.t.is_none());
    s.respawned(Some(77));
    assert_eq!(s.arm_angle, 77);
    assert_eq!(s.joints.prev_targets, [0; 12]);
    assert_eq!(s.joints.host_pd, [4; 12]);
    assert_eq!((s.reflex.active, s.heights.seen, s.stance_mask), ([false; 4], [false; 4], [true; 4]));
    assert_eq!((s.heights.filt, s.foot_fz_now, s.yaw_prev), ([0; 4], [0; 4], 0));
    assert_eq!(s.gate, HipGate { open_until: None, bias_now: 0 });
    assert_eq!(s.open_tick(&mut live, DT), None);
    // A clock that jumps back is a reset, upright.
    s.watch_clock(100, 99);
    assert_eq!(s.take_respawn(), None);
    s.watch_clock(100, 98);
    assert_eq!(s.take_respawn(), Some(false));
    assert_eq!(s.take_respawn(), None);
}

#[test]
fn live_tick() {
    let mut s = session();
    let plan = AttackParams::default();
    let mut live = LiveTeleop::new(GaitType::Trot);
    s.seed_friction(&mut live);
    live.cmd = [100, 0, 0];
    live.arm_rate = -S;
    let range = Some((-2_300_000_000, 850_000_000));
    let r = s.drive(&mut live, range, &plan, true, &[0; 3], DT);
    assert_eq!(r.arm, Some(-1_600_000));
    assert_eq!(live.arm_angle_rad, -1_600_000);
    let c = r.changes.unwrap();
    assert_eq!((c.cmd, c.gait, c.ground_mu, c.controller_mu), (Some([100, 0, 0]), None, None, None));
    live.gait = GaitType::Walk;
    live.swing_height_m = 60_000_000;
    live.ground_mu = 1;
    let c = s.drive(&mut live, None, &plan, true, &[100, 0, 0], DT).changes.unwrap();
    assert_eq!(c.cmd, None);
    assert_eq!(c.ground_mu, Some(1));
    let want = GaitConfig { swing_height_m: 60_000_000, ..namiashi_tuned_gait_config(GaitType::Walk) };
    assert_eq!(c.gait, Some(want));
    let c = s.drive(&mut live, None, &plan, true, &[100, 0, 0], DT).changes.unwrap();
    assert_eq!((c.cmd, c.gait, c.ground_mu, c.controller_mu), (None, None, None, None));
    assert!(s.drive(&mut live, None, &plan, false, &[0; 3], DT).changes.is_none());
}

#[test]
fn attack_owns_arm_and_command() {
    let mut s = session();
    let plan = AttackParams::default();
    let mut live = LiveTeleop::new(GaitType::Trot);
    live.cmd = [S, S, S];
    live.arm_rate = -S;
    live.attack_requested = true;
    s.open_tick(&mut live, 0);
    s.attack.t = Some(2 * S);
    let range = Some((-2_300_000_000, 800_000_000));
    // The arm still follows the keys on the tick the attack's command is new.
    let r = s.drive(&mut live, range, &plan, true, &[0; 3], DT);
    assert_eq!(r.arm, Some(-1_600_000));
    assert_eq!(r.changes.unwrap().cmd, Some([100_000_000, 0, 0]));
    let r = s.drive(&mut live, range, &plan, true, &[100_000_000, 0, 0], DT);
    assert_eq!(r.arm, Some(800_000_000));
    assert_eq!(r.changes.unwrap().cmd, None);
    s.attack.t = Some(6 * S);
    let r = s.drive(&mut live, range, &plan, true, &[100_000_000, 0, 0], DT);
    assert!(r.attack_done);
    assert_eq!(r.changes.unwrap().cmd, Some([S, S, S]));
}

#[test]
fn recovery_in_a_session() {
    let mut s = session();
    s.recovery.start(true);
    s.joints.prev_targets = [5; 12];
    let legs: LegAngles = [[Some(0); 3]; 4];
    let r = s.recover(Some([0, 0, S]), Some(0), &legs, true, 600_000_000);
    assert_eq!(r.ended, None);
    assert_eq!(s.arm_angle, r.arm);
    assert_eq!(s.joints.prev_targets, [5; 12]);
    let arm = s.arm_angle;
    let r = s.recover(Some([0, 0, S]), Some(0), &legs, false, 600_000_000);
    assert_eq!(r.ended, Some(true));
    assert_eq!(s.arm_angle, arm);
    assert_eq!(s.joints.prev_targets, [0; 12]);
    assert!(s.recovery.t.is_none());
}

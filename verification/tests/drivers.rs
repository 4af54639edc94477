use namiashi_sim::actuation::{
    feedforward, Actuation, DriverMode, JointCmd, JointLoop, JointState, Moment, SpeedLoop,
};

const S: i64 = 1_000_000_000;

fn joint(q_star: i64) -> JointState {
    JointState {
        q_star,
        reading: Some((S, 500_000_000)),
        is_stance: true,
        gravity: 7,
        bias: 2 * S,
    }
}

fn later() -> Moment {
    Moment { handed_over: true, differentiates: true, dt: 2_500_000 }
}

const SPLIT: Actuation = Actuation::TorqueLeggedControl {
    swing_kp: 100 * S,
    swing_kd: S,
    stance_kp: 0,
    stance_kd: 2 * S,
    bias_ff: 500_000_000,
};

#[test]
fn commands_by_interface() {
    let j = joint(2 * S);
    let torque = |tau| JointCmd::Torque { tau };
    assert_eq!(Actuation::PositionTorque.command(&j, 0, &later()), JointCmd::Position { q: 2 * S });
    let t = Actuation::Torque { kp: 10 * S, kd: 2 * S };
    assert_eq!(t.command(&j, 0, &later()), torque(9 * S + 7));
    // The trajectory moves 0.005 rad in 2.5 ms: 2 rad/s.
    let l = Actuation::LeggedControl { kp: 5 * S, kd: 3 * S };
    assert_eq!(l.command(&j, 1_995_000_000, &later()), torque(9_500_000_000));
    let v = Actuation::Velocity { k_track: 4 * S, loop_kv: 1, loop_ki: 2 };
    assert_eq!(v.command(&j, 1_995_000_000, &later()), JointCmd::Velocity { qd: 6 * S });
    let i = Actuation::VelocityIdeal { k_track: 4 * S };
    assert_eq!(i.command(&j, 1_995_000_000, &later()), JointCmd::Velocity { qd: 6 * S });
    // Stance: damping and half the bias. Swing: the spring as well.
    assert_eq!(SPLIT.command(&j, 0, &later()), torque(0));
    let swing = JointState { is_stance: false, ..j };
    assert_eq!(SPLIT.command(&swing, 0, &later()), torque(100_500_000_000));
}

#[test]
fn burn_in_holds_stance_legs() {
    let early = Moment { handed_over: false, differentiates: false, dt: 2_500_000 };
    let j = joint(2 * S);
    let swing = JointState { is_stance: false, ..j };
    assert_eq!(SPLIT.command(&j, 0, &early), SPLIT.command(&swing, 0, &early));
    // Nothing to differentiate yet.
    let i = Actuation::VelocityIdeal { k_track: 4 * S };
    assert_eq!(i.command(&j, 0, &early), JointCmd::Velocity { qd: 4 * S });
}

#[test]
fn silent_joint_is_taken_to_be_in_place() {
    let j = JointState { reading: None, ..joint(2 * S) };
    let t = Actuation::Torque { kp: 10 * S, kd: 2 * S };
    assert_eq!(t.command(&j, 0, &later()), JointCmd::Torque { tau: 7 });
    let l = Actuation::LeggedControl { kp: 5 * S, kd: S };
    let stopped = Moment { dt: 0, ..later() };
    assert_eq!(l.command(&j, 0, &stopped), JointCmd::Torque { tau: i64::MAX });
    assert_eq!(l.command(&j, 2 * S, &stopped), JointCmd::Torque { tau: 0 });
    let back = Moment { dt: -2_500_000, ..later() };
    assert_eq!(l.command(&j, 1_995_000_000, &back), JointCmd::Torque { tau: -2 * S });
}

#[test]
fn driver_setup() {
    let v = Actuation::Velocity { k_track: 1, loop_kv: 2, loop_ki: 3 };
    assert_eq!(v.driver_mode(), DriverMode::Velocity { kv: Some(2) });
    assert_eq!(v.speed_loop(), SpeedLoop::Integral { ki: 3 });
    let i = Actuation::VelocityIdeal { k_track: 1 };
    assert_eq!(i.driver_mode(), DriverMode::Velocity { kv: None });
    assert_eq!(i.speed_loop(), SpeedLoop::Ideal);
    assert_eq!(Actuation::PositionTorque.driver_mode(), DriverMode::Model);
    assert_eq!(Actuation::PositionTorque.speed_loop(), SpeedLoop::Model);
    assert_eq!(SPLIT.driver_mode(), DriverMode::Torque);
    assert!(SPLIT.is_torque() && Actuation::Torque { kp: 0, kd: 0 }.is_torque());
    assert!(Actuation::LeggedControl { kp: 0, kd: 0 }.is_torque());
    assert!(!v.is_torque() && !i.is_torque() && !Actuation::PositionTorque.is_torque());
    assert_eq!(feedforward(&Actuation::PositionTorque, false, 5), 5);
    assert_eq!(feedforward(&Actuation::PositionTorque, true, 5), 0);
    assert_eq!(feedforward(&v, false, 5), 0);
}

#[test]
fn joint_loop_remembers() {
    let mut l = JointLoop::new();
    let js = [joint(2 * S); 12];
    let t = Actuation::Torque { kp: 10 * S, kd: 2 * S };
    l.command_all(&t, &js, &later());
    assert_eq!(l.host_pd, [9 * S + 7; 12]);
    assert_eq!(l.prev_targets, [0; 12]);
    assert_eq!(l.final_torques(&[3; 12], false, false), [9 * S + 10; 12]);
    assert_eq!(l.final_torques(&[3; 12], true, false), [9 * S + 7; 12]);
    assert_eq!(l.final_torques(&[3; 12], false, true), [9 * S + 7; 12]);
    let v = Actuation::VelocityIdeal { k_track: 4 * S };
    l.command_all(&v, &js, &later());
    assert_eq!(l.prev_targets, [2 * S; 12]);
    assert_eq!(l.host_pd, [9 * S + 7; 12]);
    l.forget();
    assert_eq!(l.prev_targets, [0; 12]);
}

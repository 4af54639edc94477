use namiashi_sim::schedule::{
    batch_command, decim, differs, drifted, gait_dt, host_decim, host_dt, is_tick_of, keeps_running,
    observed_velocity, push_active, push_starts, render_decim, scheduled, steps, time_at, VelObs,
};

const S: i64 = 1_000_000_000;
const DT: i64 = 2_000_000;

#[test]
fn counts_steps() {
    assert_eq!(steps(3 * S, DT), 1500);
    assert_eq!(steps(S, 3 * DT), 167);
    assert_eq!(steps(-S, DT), 0);
    assert_eq!(steps(-S, -DT), 500);
    assert_eq!(steps(S, 0), usize::MAX);
    assert_eq!(steps(0, 0), 0);
    assert_eq!(time_at(1500, DT), 3 * S);
    assert_eq!(time_at(usize::MAX, i64::MAX), i64::MAX);
}

#[test]
fn host_rates_that_can_be_had() {
    // At 2 ms of physics: what is asked for, and the ticks it comes to.
    for (hz, ticks) in [(500, 1), (400, 1), (250, 2), (200, 3), (167, 3), (125, 4), (100, 5)] {
        assert_eq!(host_decim(Some(hz * S), DT), ticks, "{hz}");
    }
    assert_eq!(host_decim(None, DT), 1);
    assert_eq!(host_decim(Some(10_000 * S), DT), 1);
    assert_eq!(decim(0, DT), usize::MAX);
    assert_eq!(decim(-S, DT), 1);
    assert_eq!(host_dt(DT, 3), 3 * DT);
    assert_eq!(gait_dt(DT, true), 0);
    assert_eq!(gait_dt(DT, false), DT);
    assert!(is_tick_of(0, 3) && is_tick_of(6, 3) && !is_tick_of(7, 3));
}

#[test]
fn frames_per_second() {
    assert_eq!(render_decim(None, 500_000), 33);
    assert_eq!(render_decim(Some(5 * S), 500_000), 400);
    assert_eq!(render_decim(Some(0), 500_000), 2000);
}

#[test]
fn runs_end_when_they_should() {
    assert!(keeps_running(9, 10, false, false));
    assert!(!keeps_running(10, 10, false, true));
    assert!(keeps_running(10, 10, true, true));
    assert!(!keeps_running(0, 10, true, false));
}

#[test]
fn schedule_segments() {
    let plan = vec![(S, 1, 0, 0), (2 * S, 2, 0, 0), (3 * S, 3, 0, 0)];
    assert_eq!(scheduled(&plan, S - 1), None);
    assert_eq!(scheduled(&plan, S), Some((S, 1, 0, 0)));
    assert_eq!(scheduled(&plan, 3 * S - 1), Some((2 * S, 2, 0, 0)));
    assert_eq!(scheduled(&plan, 30 * S), Some((3 * S, 3, 0, 0)));
    assert_eq!(scheduled(&vec![], S), None);
    // The last in the list wins, in whatever order it stands.
    assert_eq!(scheduled(&vec![(2 * S, 2, 0, 0), (S, 1, 0, 0)], 5 * S), Some((S, 1, 0, 0)));
}

#[test]
fn batch_commands() {
    let own = [5, 6, 7];
    let plan = vec![(0, 50, 0, 0)];
    let none = vec![];
    assert_eq!(batch_command(9, 10, &own, &none, 0, &[0; 3]), None);
    assert_eq!(batch_command(10, 10, &own, &none, 0, &[0; 3]), Some(own));
    assert_eq!(batch_command(11, 10, &own, &none, 0, &[0; 3]), None);
    assert_eq!(batch_command(9, 10, &own, &plan, 0, &[0; 3]), None);
    assert_eq!(batch_command(10, 10, &own, &plan, 0, &[0; 3]), Some([50, 0, 0]));
    assert_eq!(batch_command(11, 10, &own, &plan, 0, &[50, 0, 0]), None);
    assert_eq!(batch_command(11, 10, &own, &plan, 0, &[51, 0, 0]), None);
    assert_eq!(batch_command(11, 10, &own, &plan, 0, &[52, 0, 0]), Some([50, 0, 0]));
    assert!(differs(&[0, 0, 2], &[0, 0, 0]) && !differs(&[1, -1, 1], &[0, 0, 0]));
}

#[test]
fn push_is_delivered_once() {
    let at = 5 * DT + 1;
    let hits: Vec<usize> = (0..100).filter(|&k| push_starts(k, time_at(k, DT), DT, at)).collect();
    assert_eq!(hits, vec![6]);
    assert!(!push_starts(0, 0, DT, 0));
    assert!(push_active(S, S, 1) && !push_active(S, S, 0) && !push_active(S + 1, S, 1));
    assert_eq!(drifted(10, 100_000_000, 2 * S), 200_000_010);
}

#[test]
fn observed_velocities() {
    let hist = vec![[1, 2, 3], [4, 5, 6], [7, 8, 9]];
    let cmd = (S, 500_000_000);
    let (cy, sy) = (800_000_000, 600_000_000);
    let see = |o: VelObs| observed_velocity(&o, &hist, cmd, cy, sy, DT);
    assert_eq!(see(VelObs::Truth), [7, 8, 9]);
    assert_eq!(see(VelObs::Zero), [0, 0, 0]);
    assert_eq!(see(VelObs::Command), [500_000_000, S, 0]);
    assert_eq!(see(VelObs::Bias(10, -20)), [17, -12, 9]);
    assert_eq!(see(VelObs::Lag(0)), [7, 8, 9]);
    assert_eq!(see(VelObs::Lag(DT)), [4, 5, 6]);
    assert_eq!(see(VelObs::Lag(S)), [1, 2, 3]);
}

use namiashi_sim::attack::AttackCmd;
use namiashi_sim::levelling::{
    nominal_heights, LegHeights, LiveStance, ProprioStanceCfg, StanceInputs, TerrainStanceCfg,
    Underfoot,
};

fn quiet() -> StanceInputs {
    StanceInputs {
        attack: None,
        live: None,
        walking: true,
        proprio: None,
        foot_h: [0; 4],
        foot_fz: [0; 4],
        terrain: None,
        dt: 2_000_000,
    }
}

fn stairs(gain: i64, max_offset_m: i64, z: [i64; 4]) -> Option<Underfoot> {
    Some(Underfoot { cfg: TerrainStanceCfg { gain, max_offset_m }, z })
}

#[test]
fn nothing_moves_the_stance() {
    assert_eq!(LegHeights::new().plan(&quiet()), None);
}

#[test]
fn proprio_defaults() {
    let c = ProprioStanceCfg::default();
    assert_eq!(c.gain, 1_000_000_000);
    assert_eq!(c.max_offset_m, 100_000_000);
    assert_eq!(c.tau_s, 200_000_000);
    assert_eq!(c.contact_n, 3_000_000_000);
    assert_eq!(c.imu_beta, 100_000_000);
}

#[test]
fn crouch_and_lift_add_up() {
    let attack = Some(AttackCmd { front_nom_off_m: 55_000_000, arm_rad: 0, cmd_vx: 0 });
    let live = Some(LiveStance { lift_m: 10_000_000, level_on: true });
    let both = StanceInputs { attack, live, ..quiet() };
    let want = [45_000_000, 45_000_000, -10_000_000, -10_000_000];
    assert_eq!(LegHeights::new().plan(&both), Some(want));
    let lift = StanceInputs { live, ..quiet() };
    assert_eq!(LegHeights::new().plan(&lift), Some([-10_000_000; 4]));
    // The smallest step is no move.
    let tiny = StanceInputs { live: Some(LiveStance { lift_m: 1, level_on: true }), ..quiet() };
    assert_eq!(LegHeights::new().plan(&tiny), None);
    assert_eq!(nominal_heights(&[1, 2, 3, i64::MAX], &[1, 1, -1, 5]), [2, 3, 2, i64::MAX]);
}

#[test]
fn terrain_levels_around_its_mean() {
    let z = [50_000_000, 50_000_000, 0, 0];
    let inp = StanceInputs { terrain: stairs(1_000_000_000, 100_000_000, z), ..quiet() };
    let want = [25_000_000, 25_000_000, -25_000_000, -25_000_000];
    assert_eq!(LegHeights::new().plan(&inp), Some(want));
    let half = StanceInputs { terrain: stairs(500_000_000, 10_000_000, z), ..quiet() };
    let want = [10_000_000, 10_000_000, -10_000_000, -10_000_000];
    assert_eq!(LegHeights::new().plan(&half), Some(want));
    let flat = StanceInputs { terrain: stairs(1_000_000_000, 10, [7; 4]), ..quiet() };
    assert_eq!(LegHeights::new().plan(&flat), Some([0; 4]));
    let early = StanceInputs { walking: false, ..inp };
    assert_eq!(LegHeights::new().plan(&early), None);
}

#[test]
fn feet_level_what_they_have_felt() {
    let mut h = LegHeights::new();
    let cfg = ProprioStanceCfg::default();
    let mut inp = StanceInputs {
        proprio: Some(cfg),
        foot_h: [-200_000_000, -240_000_000, -240_000_000, 0],
        foot_fz: [4_000_000_000, 4_000_000_000, 3_000_000_000, 0],
        dt: 20_000_000,
        ..quiet()
    };
    // Two feet carry more than the threshold; the third is exactly at it.
    assert_eq!(h.plan(&inp), Some([20_000_000, -20_000_000, 0, 0]));
    assert_eq!(h.seen, [true, true, false, false]);
    // A later height is eased in, a tenth at a time.
    inp.foot_h[0] = -100_000_000;
    h.plan(&inp);
    assert_eq!(h.filt[0], -190_000_000);
    // A foot in the air keeps what it last felt.
    inp.foot_fz = [0; 4];
    inp.foot_h = [0; 4];
    assert_eq!(h.plan(&inp), Some([25_000_000, -25_000_000, 0, 0]));
    // Switched off, nothing is felt and nothing is offset.
    let off = StanceInputs { live: Some(LiveStance { lift_m: 0, level_on: false }), ..inp };
    assert_eq!(h.plan(&off), None);
    assert_eq!(h.filt[0], -190_000_000);
}

#[test]
fn levels_once_a_foot_is_felt() {
    let mut inp = StanceInputs { proprio: Some(ProprioStanceCfg::default()), ..quiet() };
    let mut h = LegHeights::new();
    assert!(!h.levels(&inp));
    assert_eq!(h.plan(&inp), None);
    inp.foot_fz[2] = 4_000_000_000;
    assert!(h.levels(&inp));
    assert!(!h.levels(&StanceInputs { walking: false, ..inp }));
    assert!(!h.levels(&StanceInputs { proprio: None, ..inp }));
    let off = Some(LiveStance { lift_m: 0, level_on: false });
    assert!(!h.levels(&StanceInputs { live: off, ..inp }));
    assert_eq!(h.plan(&inp), Some([0; 4]));
    inp.foot_fz[2] = 0;
    assert!(h.levels(&inp));
}

#[test]
fn felt_offset_is_clamped() {
    let mut h = LegHeights::new();
    let inp = StanceInputs {
        proprio: Some(ProprioStanceCfg { max_offset_m: 30_000_000, ..ProprioStanceCfg::default() }),
        foot_h: [100_000_000, -100_000_000, 0, 0],
        foot_fz: [9_000_000_000; 4],
        ..quiet()
    };
    assert_eq!(h.plan(&inp), Some([30_000_000, -30_000_000, 0, 0]));
}

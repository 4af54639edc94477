use namiashi_sim::swing::{
    lean_hips, world_x, ContactReflexCfg, HipBiasGateCfg, HipGate, Landing, Reflex, SwingLeg,
    TerrainFootplanCfg,
};

const S: i64 = 1_000_000_000;
const MM: i64 = 1_000_000;

fn cfg() -> ContactReflexCfg {
    ContactReflexCfg {
        trigger_m: 70 * MM,
        resume_m: 25 * MM,
        lift_m: 60 * MM,
        freeze_phase_during_reflex: true,
    }
}

fn leg(is_stance: bool, measured: [i64; 3]) -> SwingLeg {
    SwingLeg { is_stance, nominal: [0, 0, -200 * MM], measured }
}

fn tracking() -> SwingLeg {
    leg(false, [0, 0, -200 * MM])
}

#[test]
fn collision_lifts_the_foot_until_it_is_up() {
    let mut r = Reflex::new();
    let stuck = leg(false, [-71 * MM, 0, -200 * MM]);
    let near = leg(false, [-70 * MM, 0, -200 * MM]);
    let stance = leg(true, [-500 * MM, 0, 0]);
    let out = r.step(&cfg(), &[stuck, near, stance, tracking()]);
    assert_eq!(out, [Some([0, 0, -140 * MM]), None, None, None]);
    assert_eq!(r.active, [true, false, false, false]);
    assert!(r.freezes_phase(Some(cfg())));
    // Close to the nominal foot is not close to the lifted one.
    let out = r.step(&cfg(), &[tracking(), tracking(), stance, tracking()]);
    assert!(out[0].is_some());
    // Within reach of the lifted foot it lets go.
    let up = leg(false, [0, 24 * MM, -140 * MM]);
    r.step(&cfg(), &[up, tracking(), stance, tracking()]);
    assert_eq!(r.active, [false; 4]);
    assert!(!r.freezes_phase(Some(cfg())));
}

#[test]
fn stance_ends_the_reflex() {
    let mut r = Reflex { active: [true; 4] };
    assert!(!r.freezes_phase(None));
    assert!(!r.freezes_phase(Some(ContactReflexCfg { freeze_phase_during_reflex: false, ..cfg() })));
    let stance = leg(true, [0; 3]);
    assert_eq!(r.step(&cfg(), &[stance; 4]), [None; 4]);
    assert_eq!(r.active, [false; 4]);
}

#[test]
fn negative_trigger_always_lifts() {
    let mut r = Reflex::new();
    let c = ContactReflexCfg { trigger_m: -1, resume_m: 0, ..cfg() };
    r.step(&c, &[tracking(); 4]);
    assert_eq!(r.active, [true; 4]);
    // And without a reach it never lets go.
    r.step(&c, &[leg(false, [0, 0, -140 * MM]); 4]);
    assert_eq!(r.active, [true; 4]);
}

fn landing() -> Landing {
    Landing {
        nominal: [100 * MM, 50 * MM, -180 * MM],
        touch_down_x: 1_490 * MM,
        terrain_z: 50 * MM,
        snapped_x: 1_540 * MM,
        body_z: 235 * MM,
        cy: 800_000_000,
        sy: 600_000_000,
    }
}

#[test]
fn foothold_is_aimed_at_the_terrain() {
    let c = TerrainFootplanCfg { clearance_m: 30 * MM, horizontal_margin_m: 40 * MM };
    assert_eq!(landing().aim(&c), Some([140 * MM, 20 * MM, -155 * MM]));
    let high = Landing { nominal: [0, 0, -100 * MM], ..landing() };
    assert_eq!(high.aim(&c), Some([40 * MM, -30 * MM, -100 * MM]));
    let straight = TerrainFootplanCfg { horizontal_margin_m: 0, ..c };
    assert_eq!(landing().aim(&straight), Some([100 * MM, 50 * MM, -155 * MM]));
    let flat = Landing { terrain_z: 1_000, ..landing() };
    assert_eq!(flat.aim(&c), None);
    assert_eq!(world_x(S, 800_000_000, 600_000_000, 100 * MM, 50 * MM), 1_050 * MM);
}

fn gate() -> HipBiasGateCfg {
    HipBiasGateCfg {
        trigger_m: 50 * MM,
        bias_mag: 70 * MM,
        bias_gain: 2 * S,
        max_bias_rad: 160 * MM,
        duration_s: 300 * MM,
    }
}

#[test]
fn gate_opens_latches_and_closes() {
    let mut g = HipGate::new();
    let ok = [tracking(); 4];
    assert_eq!(g.step(&gate(), 0, &ok), None);
    let hit = [tracking(), leg(false, [60 * MM, 0, -200 * MM]), tracking(), leg(true, [S, S, S])];
    assert_eq!(g.step(&gate(), S, &hit), Some(90 * MM));
    // A smaller error while it is open keeps the bias and extends the time.
    let less = [leg(false, [51 * MM, 0, -200 * MM]), tracking(), tracking(), tracking()];
    assert_eq!(g.step(&gate(), S + 100 * MM, &less), Some(90 * MM));
    assert_eq!(g.open_until, Some(S + 400 * MM));
    assert_eq!(g.step(&gate(), S + 399 * MM, &ok), Some(90 * MM));
    assert_eq!(g.step(&gate(), S + 400 * MM, &ok), None);
    // A collision after that is judged afresh, up to the cap.
    let big = [leg(false, [0, 0, 0]), tracking(), tracking(), tracking()];
    assert_eq!(g.step(&gate(), 2 * S, &big), Some(160 * MM));
}

#[test]
fn hips_lean_apart() {
    let mut q = [0, 10, 20, 30];
    let mut t = [0; 12];
    lean_hips(&mut q, &mut t, &[S, S, -S, -S], 5);
    assert_eq!(q, [5, 5, 25, 25]);
    assert_eq!(t, [5, 0, 0, -5, 0, 0, -5, 0, 0, 5, 0, 0]);
    lean_hips(&mut q, &mut t, &[S, S, -S, -S], -5);
    assert_eq!(q, [0, 10, 20, 30]);
    assert_eq!(t, [0; 12]);
}

use namiashi_sim::ring::KawasakiRingCfg;

const MM: i64 = 1_000_000;

fn f(v: i64) -> f64 {
    v as f64 / 1e9
}

/// The surface in floating point.
fn surface(c: &KawasakiRingCfg, x: f64, y: f64) -> f64 {
    let mut z: f64 = 0.0;
    let hb = f(c.bowl_m) / 2.0;
    if x.abs() <= hb && y.abs() <= hb {
        let inner = hb - f(c.bowl_frame_m);
        let t = x.abs().max(y.abs()) / inner.max(1e-9);
        z = z.max(if x.abs() <= inner && y.abs() <= inner {
            f(c.bowl_centre_h_m) + (f(c.bowl_rim_h_m) - f(c.bowl_centre_h_m)) * t.clamp(0.0, 1.0)
        } else {
            f(c.bowl_rim_h_m)
        });
    }
    let hp = f(c.plate_m) / 2.0;
    for &(cx, cy) in &c.round_plate_centres {
        let (dx, dy) = (x - f(cx), y - f(cy));
        if dx.abs() <= hp && dy.abs() <= hp && dx.hypot(dy) > f(c.round_hole_d_m) / 2.0 {
            z = z.max(f(c.plate_h_m));
        }
    }
    for &(cx, cy) in &c.quad_plate_centres {
        let (dx, dy) = (x - f(cx), y - f(cy));
        let s = std::f64::consts::FRAC_1_SQRT_2;
        let (px, py) = (s * (dx + dy), s * (dy - dx));
        if px.abs() > hp || py.abs() > hp {
            continue;
        }
        let q = f(c.quad_hole_pitch_m) / 2.0;
        let hole = [(-q, -q), (q, -q), (-q, q), (q, q)]
            .iter()
            .any(|&(ox, oy)| (px - ox).hypot(py - oy) <= f(c.quad_hole_d_m) / 2.0);
        if !hole {
            z = z.max(f(c.plate_h_m));
        }
    }
    for &(x0, y0, x1, y1) in &c.bank_segments {
        let (x0, y0, x1, y1) = (f(x0), f(y0), f(x1), f(y1));
        let (vx, vy) = (x1 - x0, y1 - y0);
        let len2 = vx * vx + vy * vy;
        if len2 < 1e-12 {
            continue;
        }
        let t = (((x - x0) * vx + (y - y0) * vy) / len2).clamp(0.0, 1.0);
        let d = (x - (x0 + t * vx)).hypot(y - (y0 + t * vy));
        if d < f(c.bank_half_w_m) {
            let u = d / f(c.bank_half_w_m);
            z = z.max(f(c.bank_h_m) * (1.0 - u * u).max(0.0).sqrt());
        }
    }
    z
}

#[test]
fn surface_follows_the_formula() {
    let mut c = KawasakiRingCfg::default();
    c.bank_segments.push((100 * MM, -300 * MM, 400 * MM, 100 * MM));
    for i in 0..380_i64 {
        for j in 0..380_i64 {
            let (x, y) = (-949_700_001 + i * 5 * MM, -949_300_007 + j * 5 * MM);
            let z = f(c.height_at(x, y));
            assert!((z - surface(&c, f(x), f(y))).abs() < 1e-7, "{x} {y}");
        }
    }
}

#[test]
fn surface_exact_values() {
    let c = KawasakiRingCfg::default();
    assert_eq!(c.height_at(0, 0), 12 * MM);
    assert_eq!(c.height_at(87_500_000, 10), 20 * MM);
    assert_eq!(c.height_at(-175 * MM, 175 * MM), 28 * MM);
    assert_eq!(c.height_at(225 * MM, -225 * MM), 28 * MM);
    assert_eq!(c.height_at(225 * MM + 1, 0), 0);
    // In the round hole, on its edge, and just outside.
    assert_eq!(c.height_at(650 * MM, 0), 0);
    assert_eq!(c.height_at(740 * MM, 0), 0);
    assert_eq!(c.height_at(740 * MM + 1, 0), 15 * MM);
    assert_eq!(c.height_at(800 * MM, 150 * MM), 15 * MM);
    assert_eq!(c.height_at(800 * MM + 1, 0), 0);
    // The middle of a diamond is solid, and its holes are on its axes.
    assert_eq!(c.height_at(0, 650 * MM), 15 * MM);
    assert_eq!(c.height_at(106_066_017, 650 * MM), 0);
    // On a bank's centreline, and at half its width.
    assert_eq!(c.height_at(0, 940 * MM), 15 * MM);
    assert_eq!(c.height_at(0, 945 * MM), 12_990_381);
    assert_eq!(c.height_at(0, 950 * MM), 0);
    assert_eq!(c.height_at(755 * MM, 940 * MM), 12_990_381);
}

#[test]
fn nominal_surface_is_symmetric() {
    let c = KawasakiRingCfg::default();
    for i in 0..100_i64 {
        for j in 0..100_i64 {
            let (x, y) = (i * 9_500_003, j * 9_499_999 - 475 * MM);
            assert_eq!(c.height_at(x, y), c.height_at(-x, -y));
        }
    }
}

#[test]
fn highest_feature_wins() {
    let mut c = KawasakiRingCfg::default();
    c.round_plate_centres.push((0, 0));
    assert_eq!(c.height_at(0, 0), 12 * MM);
    assert_eq!(c.height_at(100 * MM, 0), 12 * MM + 9_142_857);
    c.plate_h_m = 40 * MM;
    assert_eq!(c.height_at(100 * MM, 0), 40 * MM);
}

#[test]
fn grid_of_heights() {
    let mut c = KawasakiRingCfg::default();
    assert_eq!(c.grid(), (380, 380));
    assert_eq!(c.z_top_m(), 28 * MM);
    assert_eq!(c.floor_top_z(), 250 * MM);
    assert!(c.check_reach());
    let h = c.heights();
    assert_eq!(h.len(), 380 * 380);
    assert!(h.iter().all(|&v| (0..=1_000_000_000).contains(&v)));
    // Row 0 is at the smallest y, column 0 at the smallest x.
    let x = |i: i64| -947_500_000 + i * 5 * MM;
    for (r, col) in [(0, 0), (1, 40), (190, 190), (200, 17), (379, 300)] {
        let z = c.height_at(x(col), x(r));
        assert_eq!(h[(r * 380 + col) as usize], ((z as f64 / 28e6) * 1e9).round() as i64);
    }
    c.cell_m = 0;
    assert_eq!(c.grid(), (usize::MAX, usize::MAX));
    c.cell_m = 5_000_000_000;
    assert_eq!(c.grid(), (2, 2));
    c.cell_m = -5_000_000;
    assert_eq!(c.grid(), (2, 2));
    c.ring_m = -1_900_000_000;
    assert_eq!(c.grid(), (380, 380));
    c.ring_m = 0;
    c.cell_m = 0;
    assert_eq!(c.grid(), (2, 2));
}

#[test]
fn scale_covers_the_tallest_feature() {
    let mut c = KawasakiRingCfg::default();
    c.bowl_centre_h_m = 50 * MM;
    assert_eq!(c.z_top_m(), 50 * MM);
    c.cell_m = 50 * MM;
    assert!(c.heights().iter().all(|&v| (0..=1_000_000_000).contains(&v)));
    c.bowl_centre_h_m = 0;
    c.bowl_rim_h_m = 0;
    c.plate_h_m = 0;
    c.bank_h_m = -5;
    assert_eq!(c.z_top_m(), 1_000);
    assert!(c.heights().iter().all(|&v| v == 0));
}

#[test]
fn copies_are_equal() {
    let mut c = KawasakiRingCfg::default();
    c.bank_segments.push((1, 2, 3, 4));
    c.plate_h_m = 5;
    let d = c.clone();
    assert_eq!(format!("{c:?}"), format!("{d:?}"));
}

#[test]
fn barrier_stands_on_the_floor() {
    let c = KawasakiRingCfg::default();
    let (height, gap, thickness) = c.barrier.unwrap();
    assert!(height > 0);
    assert!(c.ring_m / 2 + gap + thickness <= c.floor_size_m.unwrap() / 2);
}

#[test]
fn short_and_far_banks() {
    let mut c = KawasakiRingCfg::default();
    c.bank_segments = vec![(0, 500 * MM, 999, 500 * MM)];
    assert_eq!(c.height_at(0, 500 * MM), 0);
    c.bank_segments = vec![(0, 500 * MM, 1_000, 500 * MM)];
    assert_eq!(c.height_at(0, 500 * MM), 15 * MM);
    assert!(c.check_reach());
    c.bank_segments = vec![(0, 0, 0, i64::MAX)];
    assert!(!c.check_reach());
}

#[test]
fn ring_asset() {
    let c = KawasakiRingCfg::default();
    assert_eq!(
        c.asset_xml("kawasaki"),
        "    <hfield name=\"kawasaki\" nrow=\"380\" ncol=\"380\" size=\"0.95 0.95 0.028 0.05\"/>\n"
    );
}

#[test]
fn ring_world() {
    let mut c = KawasakiRingCfg::default();
    let xml = c.worldbody_xml("kawasaki", "    <light/>\n");
    let want = [
        "    <light/>",
        "    <geom name=\"ring_floor\" type=\"box\" pos=\"0 0 -0.275\" size=\"2.5 2.5 0.025\" rgba=\"0.42 0.44 0.47 1\"/>",
        "    <geom name=\"ring_stand\" type=\"box\" pos=\"0 0 -0.15\" size=\"0.89 0.89 0.1\" rgba=\"0.20 0.22 0.28 1\"/>",
        "    <geom name=\"ring_plate\" type=\"box\" pos=\"0 0 -0.025\" size=\"0.95 0.95 0.025\" rgba=\"0.36 0.37 0.40 1\"/>",
        "    <geom name=\"ring_field\" type=\"hfield\" hfield=\"kawasaki\" pos=\"0 0 0\" rgba=\"0.36 0.37 0.40 1\"/>",
        "    <geom name=\"start_red\" type=\"box\" pos=\"-1.125 -0.725 -0.025\" size=\"0.175 0.225 0.025\" rgba=\"0.72 0.12 0.12 1\"/>",
        "    <geom name=\"start_blue\" type=\"box\" pos=\"1.125 0.725 -0.025\" size=\"0.175 0.225 0.025\" rgba=\"0.12 0.20 0.72 1\"/>",
        "    <geom name=\"border_red\" type=\"box\" pos=\"-0.99 0 -0.035\" size=\"0.04 0.95 0.04\" rgba=\"0.72 0.12 0.12 1\"/>",
        "    <geom name=\"border_blue\" type=\"box\" pos=\"0.99 0 -0.035\" size=\"0.04 0.95 0.04\" rgba=\"0.12 0.20 0.72 1\"/>",
        "    <geom name=\"barrier_xp\" type=\"box\" pos=\"2.45 0 0.05\" size=\"0.01 2.47 0.3\" rgba=\"0.55 0.70 0.80 0.25\"/>",
        "    <geom name=\"barrier_xn\" type=\"box\" pos=\"-2.45 0 0.05\" size=\"0.01 2.47 0.3\" rgba=\"0.55 0.70 0.80 0.25\"/>",
        "    <geom name=\"barrier_yp\" type=\"box\" pos=\"0 2.45 0.05\" size=\"2.47 0.01 0.3\" rgba=\"0.55 0.70 0.80 0.25\"/>",
        "    <geom name=\"barrier_yn\" type=\"box\" pos=\"0 -2.45 0.05\" size=\"2.47 0.01 0.3\" rgba=\"0.55 0.70 0.80 0.25\"/>",
    ];
    assert_eq!(xml.lines().collect::<Vec<_>>(), want);
    c.lighting = false;
    c.floor_size_m = None;
    c.border = None;
    c.barrier = None;
    assert_eq!(c.worldbody_xml("kawasaki", "    <light/>\n").lines().collect::<Vec<_>>(), want[3..7]);
    // A plate without thickness is no box.
    c.plate_thickness_m = 0;
    assert_eq!(c.worldbody_xml("kawasaki", "").lines().collect::<Vec<_>>(), want[4..7]);
    c.plate_thickness_m = 50 * MM;
    // A gap too small to see has no stand.
    c.floor_size_m = Some(1_000_000_000);
    c.floor_gap_m = 1_000;
    assert!(!c.worldbody_xml("k", "").contains("ring_stand"));
}

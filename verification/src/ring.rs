//! The competition ring, as a heightfield.
//!
//! Every feature is single-valued in z: holes are the plate's thickness being
//! absent, the central bowl is a dished surface, the edge banks are bumps. So
//! one grid of heights expresses all of it. Lengths are nanometres, and
//! points are measured from the ring's centre.
use crate::fixed::{
    cap, div_round, fdiv, isqrt, law_quotient_is_near, law_root, law_share_is_near, lemma_isqrt_is,
    lemma_isqrt_unique, lemma_lerp, lemma_round_div_exact, lemma_round_div_mono,
    lemma_round_div_near, lemma_round_div_odd, lerp, max, mix, pile, ratio, round_div, sat,
    saturate, spec_abs, spec_clamp, spec_max, sqrt, square, ONE,
};
use vstd::prelude::*;

verus! {

/// The ring's dimensions. Each is a field rather than a constant, because
/// the real ring is built with tolerances of its own.
#[derive(Debug)]
pub struct KawasakiRingCfg {
    /// Side of the square ring plate.
    pub ring_m: i64,
    /// Start platform footprint: width along the edge, depth outward.
    pub blue_platform_m: (i64, i64),
    pub red_platform_m: (i64, i64),
    /// Thickness of a start platform. Its top is flush with the ring, so
    /// this only sets how far it hangs below.
    pub platform_h_m: i64,
    /// Side of the central bowl.
    pub bowl_m: i64,
    /// Width of the bowl's flat outer frame.
    pub bowl_frame_m: i64,
    /// Height of the bowl's rim.
    pub bowl_rim_h_m: i64,
    /// Height at the bowl's centre.
    pub bowl_centre_h_m: i64,
    /// Side and thickness of the plates with holes.
    pub plate_m: i64,
    pub plate_h_m: i64,
    /// Diameter of the single hole of a round-hole plate.
    pub round_hole_d_m: i64,
    /// Diameter of each hole of a four-hole plate, and their square pitch.
    pub quad_hole_d_m: i64,
    pub quad_hole_pitch_m: i64,
    pub round_plate_centres: Vec<(i64, i64)>,
    /// Four-hole plates stand rotated by 45 degrees.
    pub quad_plate_centres: Vec<(i64, i64)>,
    /// Half-width of an edge bank's semi-elliptical section.
    pub bank_half_w_m: i64,
    /// Safety barrier around the field: height, gap outside the ring and
    /// thickness. The one part of the surroundings a robot can hit.
    pub barrier: Option<(i64, i64, i64)>,
    /// Coloured border on the two start sides: width and height.
    pub border: Option<(i64, i64)>,
    /// Whether to emit the scene's lights.
    pub lighting: bool,
    /// Height of an edge bank.
    pub bank_h_m: i64,
    /// Centrelines of the edge banks, from one end to the other.
    pub bank_segments: Vec<(i64, i64, i64, i64)>,
    /// Pitch of the height grid.
    pub cell_m: i64,
    /// Side of the square floor under the ring. Without one, a robot that
    /// leaves the ring falls for ever.
    pub floor_size_m: Option<i64>,
    /// Distance from the underside of the ring down to the floor.
    pub floor_gap_m: i64,
    /// Thickness of the ring itself.
    pub plate_thickness_m: i64,
}

/// No coordinate of a bank may be further out than this: about a kilometre.
pub const BANK_REACH: i64 = 1_099_511_627_776;

/// One over the square root of two, in units of 1e-18.
pub const INV_SQRT_2: i128 = 707_106_781_186_547_524;

/// The larger of a height and that of one more feature.
pub open spec fn spec_round_max(cfg: KawasakiRingCfg, n: nat, x: int, y: int) -> int
    decreases n,
{
    if n == 0 {
        0
    } else {
        spec_max(
            spec_round_max(cfg, (n - 1) as nat, x, y),
            cfg.spec_round_z(cfg.round_plate_centres@[n - 1], x, y),
        )
    }
}

pub open spec fn spec_quad_max(cfg: KawasakiRingCfg, n: nat, x: int, y: int) -> int
    decreases n,
{
    if n == 0 {
        0
    } else {
        spec_max(
            spec_quad_max(cfg, (n - 1) as nat, x, y),
            cfg.spec_quad_z(cfg.quad_plate_centres@[n - 1], x, y),
        )
    }
}

pub open spec fn spec_bank_max(cfg: KawasakiRingCfg, n: nat, x: int, y: int) -> int
    decreases n,
{
    if n == 0 {
        0
    } else {
        spec_max(
            spec_bank_max(cfg, (n - 1) as nat, x, y),
            cfg.spec_bank_z(cfg.bank_segments@[n - 1], x, y),
        )
    }
}

/// A point of a four-hole plate in the plate's own frame.
pub open spec fn spec_turned(dx: int, dy: int) -> (int, int) {
    (
        round_div(INV_SQRT_2 * (dx + dy), 1_000_000_000_000_000_000),
        round_div(INV_SQRT_2 * (dy - dx), 1_000_000_000_000_000_000),
    )
}

fn turn(a: i128) -> (r: i128)
    requires
        -0x2_0000_0000_0000_0000 <= a <= 0x2_0000_0000_0000_0000,
    ensures
        r == round_div(INV_SQRT_2 * a, 1_000_000_000_000_000_000),
        -0x4_0000_0000_0000_0000 <= r <= 0x4_0000_0000_0000_0000,
{
    assert(-0x4_0000_0000_0000_0000 * 1_000_000_000_000_000_000 <= INV_SQRT_2 * a
        <= 0x4_0000_0000_0000_0000 * 1_000_000_000_000_000_000) by (nonlinear_arith)
        requires
            INV_SQRT_2 == 707_106_781_186_547_524,
            -0x2_0000_0000_0000_0000 <= a <= 0x2_0000_0000_0000_0000,
    ;
    proof {
        let d = 1_000_000_000_000_000_000int;
        lemma_round_div_mono(INV_SQRT_2 * a, 0x4_0000_0000_0000_0000 * d, d);
        lemma_round_div_mono(-0x4_0000_0000_0000_0000 * d, INV_SQRT_2 * a, d);
        lemma_round_div_exact(0x4_0000_0000_0000_0000, d);
        lemma_round_div_exact(-0x4_0000_0000_0000_0000, d);
    }
    div_round(INV_SQRT_2 * a, 1_000_000_000_000_000_000)
}

/// Twice a point `p`, moved by a hole centre at half of `pitch`, is within a
/// hole of diameter `d`.
pub open spec fn in_hole(px: int, py: int, ox: int, oy: int, d: int) -> bool {
    d >= 0 && (2 * px - ox) * (2 * px - ox) + (2 * py - oy) * (2 * py - oy) <= d * d
}

fn is_in_hole(px: i128, py: i128, ox: i128, oy: i128, d: i64) -> (r: bool)
    requires
        -0x7fff_ffff_ffff_ffff <= 2 * px <= 0x7fff_ffff_ffff_ffff,
        -0x7fff_ffff_ffff_ffff <= 2 * py <= 0x7fff_ffff_ffff_ffff,
        -0x8000_0000_0000_0000 <= ox <= 0x8000_0000_0000_0000,
        -0x8000_0000_0000_0000 <= oy <= 0x8000_0000_0000_0000,
    ensures
        r == in_hole(px as int, py as int, ox as int, oy as int, d as int),
{
    if d < 0 {
        return false;
    }
    let a: u128 = square_wide(2 * px - ox);
    let b: u128 = square_wide(2 * py - oy);
    pile(a, b) <= square(d)
}

fn square_wide(x: i128) -> (r: u128)
    requires
        -0xffff_ffff_ffff_ffff <= x <= 0xffff_ffff_ffff_ffff,
    ensures
        r == x * x,
{
    let m: u128 = if x >= 0 {
        x as u128
    } else {
        (-x) as u128
    };
    assert(m * m == x * x && m * m <= 0xffff_ffff_ffff_fffe_0000_0000_0000_0001)
        by (nonlinear_arith)
        requires
            m == x || m == -x,
            0 <= m <= 0xffff_ffff_ffff_ffff,
    ;
    m * m
}

impl KawasakiRingCfg {
    /// The banks are near enough for the arithmetic.
    pub open spec fn in_reach(self) -> bool {
        forall|i: int|
            0 <= i < self.bank_segments@.len() ==> Self::segment_in_reach(
                #[trigger] self.bank_segments@[i],
            )
    }

    pub open spec fn segment_in_reach(s: (i64, i64, i64, i64)) -> bool {
        &&& spec_abs(s.0 as int) <= BANK_REACH
        &&& spec_abs(s.1 as int) <= BANK_REACH
        &&& spec_abs(s.2 as int) <= BANK_REACH
        &&& spec_abs(s.3 as int) <= BANK_REACH
    }

    /// Whether the banks are near enough for the arithmetic.
    pub fn check_reach(&self) -> (r: bool)
        ensures
            r == self.in_reach(),
    {
        let mut i: usize = 0;
        while i < self.bank_segments.len()
            invariant
                i <= self.bank_segments.len(),
                forall|j: int|
                    0 <= j < i ==> Self::segment_in_reach(#[trigger] self.bank_segments@[j]),
            decreases self.bank_segments.len() - i,
        {
            let s = self.bank_segments[i];
            let ok = -BANK_REACH <= s.0 && s.0 <= BANK_REACH && -BANK_REACH <= s.1 && s.1
                <= BANK_REACH && -BANK_REACH <= s.2 && s.2 <= BANK_REACH && -BANK_REACH <= s.3
                && s.3 <= BANK_REACH;
            assert(ok == Self::segment_in_reach(self.bank_segments@[i as int]));
            if !ok {
                return false;
            }
            i = i + 1;
        }
        true
    }

    /// How far the floor's surface lies below the ring's.
    pub open spec fn spec_floor_top_z(self) -> int {
        sat(self.plate_thickness_m + self.floor_gap_m)
    }

    pub fn floor_top_z(&self) -> (r: i64)
        ensures
            r == self.spec_floor_top_z(),
    {
        saturate(self.plate_thickness_m as i128 + self.floor_gap_m as i128)
    }

    /// Cells along a side of the height grid.
    pub open spec fn spec_cells(self) -> int {
        let n = if self.cell_m > 0 {
            round_div(self.ring_m as int, self.cell_m as int)
        } else if self.cell_m < 0 {
            round_div(-self.ring_m, -self.cell_m)
        } else if self.ring_m > 0 {
            usize::MAX as int
        } else {
            2
        };
        spec_clamp(n, 2, usize::MAX as int)
    }

    /// Rows and columns of the height grid.
    pub fn grid(&self) -> (r: (usize, usize))
        ensures
            r.0 == self.spec_cells(),
            r.1 == self.spec_cells(),
            r.0 >= 2,
    {
        let n: i128 = if self.cell_m > 0 {
            div_round(self.ring_m as i128, self.cell_m as i128)
        } else if self.cell_m < 0 {
            div_round(-(self.ring_m as i128), -(self.cell_m as i128))
        } else if self.ring_m > 0 {
            usize::MAX as i128
        } else {
            2
        };
        let k: usize = if n < 2 {
            2
        } else if n as u128 > usize::MAX as u128 {
            usize::MAX
        } else {
            n as usize
        };
        (k, k)
    }

    /// The height of the tallest feature, and no less than a micrometre. The
    /// grid is scaled by it.
    pub open spec fn spec_z_top_m(self) -> int {
        spec_max(
            spec_max(
                spec_max(self.bowl_rim_h_m as int, self.bowl_centre_h_m as int),
                self.plate_h_m as int,
            ),
            spec_max(self.bank_h_m as int, 1_000),
        )
    }

    pub fn z_top_m(&self) -> (r: i64)
        ensures
            r == self.spec_z_top_m(),
    {
        max(
            max(max(self.bowl_rim_h_m, self.bowl_centre_h_m), self.plate_h_m),
            max(self.bank_h_m, 1_000),
        )
    }

    /// The bowl's height at a point: its frame at the rim, dishing to the
    /// centre along four triangular faces.
    pub open spec fn spec_bowl_z(self, x: int, y: int) -> int {
        let inner2 = self.bowl_m - 2 * self.bowl_frame_m;
        let r2 = 2 * spec_max(spec_abs(x), spec_abs(y));
        if r2 > self.bowl_m {
            0
        } else if r2 <= inner2 {
            lerp(
                self.bowl_centre_h_m as int,
                self.bowl_rim_h_m as int,
                r2,
                spec_max(inner2, 2),
            )
        } else {
            self.bowl_rim_h_m as int
        }
    }

    fn bowl_z(&self, x: i64, y: i64) -> (r: i64)
        ensures
            r == self.spec_bowl_z(x as int, y as int),
    {
        let inner2: i128 = self.bowl_m as i128 - 2 * self.bowl_frame_m as i128;
        let ax: i128 = crate::fixed::abs(x);
        let ay: i128 = crate::fixed::abs(y);
        let r2: i128 = if ax > ay {
            2 * ax
        } else {
            2 * ay
        };
        if r2 > self.bowl_m as i128 {
            0
        } else if r2 <= inner2 {
            let den: i128 = if inner2 > 2 {
                inner2
            } else {
                2
            };
            mix(self.bowl_centre_h_m, self.bowl_rim_h_m, r2 as i64, den)
        } else {
            self.bowl_rim_h_m
        }
    }

    /// The height of a plate with one round hole.
    pub open spec fn spec_round_z(self, c: (i64, i64), x: int, y: int) -> int {
        let (dx, dy) = (x - c.0, y - c.1);
        let d = self.round_hole_d_m as int;
        if 2 * spec_abs(dx) <= self.plate_m && 2 * spec_abs(dy) <= self.plate_m && (d < 0 || 4 * (dx
            * dx + dy * dy) > d * d) {
            self.plate_h_m as int
        } else {
            0
        }
    }

    fn round_z(&self, c: (i64, i64), x: i64, y: i64) -> (r: i64)
        ensures
            r == self.spec_round_z(c, x as int, y as int),
    {
        let dx: i128 = x as i128 - c.0 as i128;
        let dy: i128 = y as i128 - c.1 as i128;
        let p: i128 = self.plate_m as i128;
        if 2 * dx > p || 2 * dx < -p || 2 * dy > p || 2 * dy < -p {
            return 0;
        }
        let far: u128 = pile(square_wide(2 * dx), square_wide(2 * dy));
        assert((2 * dx) * (2 * dx) + (2 * dy) * (2 * dy) == 4 * (dx * dx + dy * dy))
            by (nonlinear_arith);
        if self.round_hole_d_m < 0 || far > square(self.round_hole_d_m) {
            self.plate_h_m
        } else {
            0
        }
    }

    /// The height of a plate with four holes, standing on its corner.
    pub open spec fn spec_quad_z(self, c: (i64, i64), x: int, y: int) -> int {
        let (px, py) = spec_turned(x - c.0, y - c.1);
        let q = self.quad_hole_pitch_m as int;
        let d = self.quad_hole_d_m as int;
        if 2 * spec_abs(px) > self.plate_m || 2 * spec_abs(py) > self.plate_m {
            0
        } else if in_hole(px, py, -q, -q, d) || in_hole(px, py, q, -q, d) || in_hole(px, py, -q, q, d)
            || in_hole(px, py, q, q, d) {
            0
        } else {
            self.plate_h_m as int
        }
    }

    fn quad_z(&self, c: (i64, i64), x: i64, y: i64) -> (r: i64)
        ensures
            r == self.spec_quad_z(c, x as int, y as int),
    {
        let dx: i128 = x as i128 - c.0 as i128;
        let dy: i128 = y as i128 - c.1 as i128;
        let px: i128 = turn(dx + dy);
        let py: i128 = turn(dy - dx);
        let p: i128 = self.plate_m as i128;
        if 2 * px > p || 2 * px < -p || 2 * py > p || 2 * py < -p {
            return 0;
        }
        let q: i128 = self.quad_hole_pitch_m as i128;
        let d: i64 = self.quad_hole_d_m;
        if is_in_hole(px, py, -q, -q, d) || is_in_hole(px, py, q, -q, d) || is_in_hole(
            px,
            py,
            -q,
            q,
            d,
        ) || is_in_hole(px, py, q, q, d) {
            0
        } else {
            self.plate_h_m
        }
    }

    /// How far along a bank the nearest point of its centreline is, as a
    /// share of the squared length.
    pub open spec fn spec_along(s: (i64, i64, i64, i64), x: int, y: int) -> int {
        let (vx, vy) = (s.2 - s.0, s.3 - s.1);
        spec_clamp((x - s.0) * vx + (y - s.1) * vy, 0, vx * vx + vy * vy)
    }

    /// The squared distance from a bank's centreline.
    pub open spec fn spec_off_sq(s: (i64, i64, i64, i64), x: int, y: int) -> int {
        let (vx, vy) = (s.2 - s.0, s.3 - s.1);
        let t = Self::spec_along(s, x, y);
        let dx = x - (s.0 + round_div(t * vx, vx * vx + vy * vy));
        let dy = y - (s.1 + round_div(t * vy, vx * vx + vy * vy));
        dx * dx + dy * dy
    }

    /// The height of an edge bank: half an ellipse across the segment, flat
    /// along it. A segment shorter than a micrometre is no bank.
    pub open spec fn spec_bank_z(self, s: (i64, i64, i64, i64), x: int, y: int) -> int {
        let (vx, vy) = (s.2 - s.0, s.3 - s.1);
        let w = self.bank_half_w_m as int;
        let d2 = Self::spec_off_sq(s, x, y);
        if vx * vx + vy * vy < 1_000_000 || w <= 0 || d2 >= w * w {
            0
        } else {
            round_div(self.bank_h_m * isqrt(w * w - d2), w)
        }
    }

    fn bank_z(&self, s: (i64, i64, i64, i64), x: i64, y: i64) -> (r: i64)
        requires
            Self::segment_in_reach(s),
        ensures
            r == self.spec_bank_z(s, x as int, y as int),
    {
        let vx: i128 = s.2 as i128 - s.0 as i128;
        let vy: i128 = s.3 as i128 - s.1 as i128;
        let w: i64 = self.bank_half_w_m;
        proof {
            lemma_small_squares(vx as int, vy as int);
        }
        let len2: i128 = vx * vx + vy * vy;
        if len2 < 1_000_000 || w <= 0 {
            return 0;
        }
        let ux: i128 = x as i128 - s.0 as i128;
        let uy: i128 = y as i128 - s.1 as i128;
        proof {
            lemma_dot_fits(ux as int, vx as int);
            lemma_dot_fits(uy as int, vy as int);
        }
        let dot: i128 = ux * vx + uy * vy;
        let t: i128 = if dot < 0 {
            0
        } else if dot > len2 {
            len2
        } else {
            dot
        };
        assert(t == Self::spec_along(s, x as int, y as int));
        proof {
            lemma_share_fits(t as int, vx as int, len2 as int);
            lemma_share_fits(t as int, vy as int, len2 as int);
        }
        let cx: i128 = s.0 as i128 + div_round(t * vx, len2);
        let cy: i128 = s.1 as i128 + div_round(t * vy, len2);
        let dx: i128 = x as i128 - cx;
        let dy: i128 = y as i128 - cy;
        let d2: u128 = pile(square_wide(dx), square_wide(dy));
        assert(d2 == cap(Self::spec_off_sq(s, x as int, y as int)));
        let w2: u128 = square(w);
        if d2 >= w2 {
            return 0;
        }
        let inside: u128 = w2 - d2;
        let h: u64 = sqrt(inside);
        proof {
            lemma_isqrt_within(inside as int, w as int);
            lemma_times_fits(self.bank_h_m as int, h as int, w as int);
        }
        div_round(self.bank_h_m as i128 * h as i128, w as i128) as i64
    }

    /// The height of the surface at a point: the highest feature there, or
    /// the plate itself.
    pub open spec fn spec_height_at(self, x: int, y: int) -> int {
        spec_max(
            spec_max(
                spec_max(0, self.spec_bowl_z(x, y)),
                spec_round_max(self, self.round_plate_centres@.len(), x, y),
            ),
            spec_max(
                spec_quad_max(self, self.quad_plate_centres@.len(), x, y),
                spec_bank_max(self, self.bank_segments@.len(), x, y),
            ),
        )
    }

    /// The height of the surface at a point, above the plate. The highest
    /// feature wins, so that obstacles placed on top of each other show as
    /// intersecting rather than as one erasing the other.
    pub fn height_at(&self, x: i64, y: i64) -> (r: i64)
        requires
            self.in_reach(),
        ensures
            r == self.spec_height_at(x as int, y as int),
    {
        let mut z: i64 = max(0, self.bowl_z(x, y));
        let ghost z0 = z as int;
        let mut i: usize = 0;
        while i < self.round_plate_centres.len()
            invariant
                i <= self.round_plate_centres.len(),
                z0 >= 0,
                z == spec_max(z0, spec_round_max(*self, i as nat, x as int, y as int)),
            decreases self.round_plate_centres.len() - i,
        {
            z = max(z, self.round_z(self.round_plate_centres[i], x, y));
            i = i + 1;
        }
        let ghost z1 = z as int;
        let mut j: usize = 0;
        while j < self.quad_plate_centres.len()
            invariant
                j <= self.quad_plate_centres.len(),
                z1 >= 0,
                z == spec_max(z1, spec_quad_max(*self, j as nat, x as int, y as int)),
            decreases self.quad_plate_centres.len() - j,
        {
            z = max(z, self.quad_z(self.quad_plate_centres[j], x, y));
            j = j + 1;
        }
        let ghost z2 = z as int;
        let mut k: usize = 0;
        while k < self.bank_segments.len()
            invariant
                k <= self.bank_segments.len(),
                self.in_reach(),
                z2 >= 0,
                z == spec_max(z2, spec_bank_max(*self, k as nat, x as int, y as int)),
            decreases self.bank_segments.len() - k,
        {
            assert(Self::segment_in_reach(self.bank_segments@[k as int]));
            z = max(z, self.bank_z(self.bank_segments[k], x, y));
            k = k + 1;
        }
        z
    }

    /// The coordinate of the centre of cell `c` of `n` along a side.
    pub open spec fn spec_centre(self, c: int, n: int) -> int {
        round_div(self.ring_m * (2 * c + 1 - n), 2 * n)
    }

    fn centre(&self, c: usize, n: usize) -> (r: i64)
        requires
            c < n,
            n <= 0xffff_ffff,
        ensures
            r == self.spec_centre(c as int, n as int),
    {
        let k: i128 = 2 * c as i128 + 1 - n as i128;
        let m: i128 = 2 * n as i128;
        proof {
            lemma_centre_fits(self.ring_m as int, k as int, m as int);
        }
        div_round(self.ring_m as i128 * k, m) as i64
    }

    /// The normalised height of the cell in row `r` and column `c`.
    pub open spec fn spec_cell(self, r: int, c: int) -> int {
        let n = self.spec_cells();
        fdiv(
            self.spec_height_at(self.spec_centre(c, n), self.spec_centre(r, n)),
            self.spec_z_top_m(),
        )
    }

    /// The grid of heights, row by row, from 0 to `ONE`. Row 0 is at the
    /// smallest y and column 0 at the smallest x. Heights are sampled at cell
    /// centres, so that a feature's edge never lands exactly on a sample.
    pub fn heights(&self) -> (out: Vec<i64>)
        requires
            self.in_reach(),
            self.spec_cells() * self.spec_cells() <= usize::MAX,
        ensures
            out.len() == self.spec_cells() * self.spec_cells(),
            forall|r: int, c: int|
                0 <= r < self.spec_cells() && 0 <= c < self.spec_cells()
                    ==> #[trigger] out@[r * self.spec_cells() + c] == self.spec_cell(r, c),
            forall|i: int| 0 <= i < out.len() ==> 0 <= #[trigger] out@[i] <= ONE,
    {
        let (n, _): (usize, usize) = self.grid();
        let z_top: i64 = self.z_top_m();
        let mut out: Vec<i64> = Vec::new();
        proof {
            lemma_side_fits(n as int);
        }
        let mut r: usize = 0;
        assert(out.len() == r * n) by (nonlinear_arith)
            requires
                out.len() == 0,
                r == 0,
        ;
        while r < n
            invariant
                r <= n,
                2 <= n <= 0xffff_ffff,
                n == self.spec_cells(),
                z_top == self.spec_z_top_m(),
                self.in_reach(),
                out.len() == r * n,
                forall|i: int, c: int|
                    0 <= i < r && 0 <= c < n ==> #[trigger] out@[i * n + c] == self.spec_cell(i, c),
                forall|i: int| 0 <= i < out.len() ==> 0 <= #[trigger] out@[i] <= ONE,
            decreases n - r,
        {
            let y: i64 = self.centre(r, n);
            let mut c: usize = 0;
            while c < n
                invariant
                    r < n,
                    c <= n,
                    2 <= n <= 0xffff_ffff,
                    n == self.spec_cells(),
                    z_top == self.spec_z_top_m(),
                    self.in_reach(),
                    y == self.spec_centre(r as int, n as int),
                    out.len() == r * n + c,
                    forall|i: int, k: int|
                        0 <= i < r && 0 <= k < n ==> #[trigger] out@[i * n + k] == self.spec_cell(
                            i,
                            k,
                        ),
                    forall|k: int|
                        0 <= k < c ==> #[trigger] out@[r * n + k] == self.spec_cell(r as int, k),
                    forall|i: int| 0 <= i < out.len() ==> 0 <= #[trigger] out@[i] <= ONE,
                decreases n - c,
            {
                let x: i64 = self.centre(c, n);
                let z: i64 = self.height_at(x, y);
                proof {
                    law_heights_fit_the_scale(*self, x as int, y as int);
                    lemma_unit_ratio(z as int, z_top as int);
                }
                let h: i64 = ratio(z, z_top);
                let ghost before = out@;
                out.push(h);
                proof {
                    assert forall|i: int, k: int| 0 <= i < r && 0 <= k < n implies #[trigger] out@[i
                        * n + k] == self.spec_cell(i, k) by {
                        lemma_before(i, k, r as int, n as int);
                        assert(before[i * n + k] == self.spec_cell(i, k));
                    }
                    assert forall|k: int| 0 <= k < c + 1 implies #[trigger] out@[r * n + k]
                        == self.spec_cell(r as int, k) by {
                        if k < c {
                            assert(before[r * n + k] == self.spec_cell(r as int, k));
                        }
                    }
                }
                c = c + 1;
            }
            assert(r * n + n == (r + 1) * n) by (nonlinear_arith);
            assert forall|i: int, k: int| 0 <= i < r + 1 && 0 <= k < n implies #[trigger] out@[i * n
                + k] == self.spec_cell(i, k) by {
                if i == r {
                    assert(out@[r * n + k] == self.spec_cell(r as int, k));
                }
            }
            r = r + 1;
        }
        out
    }
}

proof fn lemma_small_squares(vx: int, vy: int)
    requires
        -0x200_0000_0000 <= vx <= 0x200_0000_0000,
        -0x200_0000_0000 <= vy <= 0x200_0000_0000,
    ensures
        0 <= vx * vx <= 0x4_0000_0000_0000_0000_0000,
        0 <= vy * vy <= 0x4_0000_0000_0000_0000_0000,
{
    assert(0 <= vx * vx <= 0x4_0000_0000_0000_0000_0000) by (nonlinear_arith)
        requires
            -0x200_0000_0000 <= vx <= 0x200_0000_0000,
    ;
    assert(0 <= vy * vy <= 0x4_0000_0000_0000_0000_0000) by (nonlinear_arith)
        requires
            -0x200_0000_0000 <= vy <= 0x200_0000_0000,
    ;
}

proof fn lemma_dot_fits(u: int, v: int)
    requires
        -0x1_0000_0000_0000_0000 <= u <= 0x1_0000_0000_0000_0000,
        -0x200_0000_0000 <= v <= 0x200_0000_0000,
    ensures
        -0x400_0000_0000_0000_0000_0000_0000 <= u * v <= 0x400_0000_0000_0000_0000_0000_0000,
{
    assert(-0x400_0000_0000_0000_0000_0000_0000 <= u * v
        <= 0x400_0000_0000_0000_0000_0000_0000) by (nonlinear_arith)
        requires
            -0x1_0000_0000_0000_0000 <= u <= 0x1_0000_0000_0000_0000,
            -0x200_0000_0000 <= v <= 0x200_0000_0000,
    ;
}

/// A share of a length is no longer than the length.
proof fn lemma_share_fits(t: int, v: int, len2: int)
    requires
        0 <= t <= len2,
        0 < len2 <= 0x8_0000_0000_0000_0000_0000,
        -0x200_0000_0000 <= v <= 0x200_0000_0000,
    ensures
        -0x8000_0000_0000_0000_0000_0000_0000_0000 < t * v
            < 0x7fff_ffff_ffff_ffff_ffff_ffff_ffff_ffff,
        -0x200_0000_0000 <= round_div(t * v, len2) <= 0x200_0000_0000,
{
    assert(-0x200_0000_0000 * len2 <= t * v <= 0x200_0000_0000 * len2) by (nonlinear_arith)
        requires
            0 <= t <= len2,
            -0x200_0000_0000 <= v <= 0x200_0000_0000,
    ;
    assert(0x200_0000_0000 * len2 <= 0x1000_0000_0000_0000_0000_0000_0000_0000) by (nonlinear_arith)
        requires
            0 < len2 <= 0x8_0000_0000_0000_0000_0000,
    ;
    lemma_round_div_mono(t * v, 0x200_0000_0000 * len2, len2);
    lemma_round_div_mono(-0x200_0000_0000 * len2, t * v, len2);
    lemma_round_div_exact(0x200_0000_0000, len2);
    lemma_round_div_exact(-0x200_0000_0000, len2);
}

/// The root of what is left of a square is no more than its side.
proof fn lemma_isqrt_within(n: int, w: int)
    requires
        0 <= n <= w * w,
        w >= 0,
    ensures
        0 <= isqrt(n) <= w,
{
    lemma_isqrt_is(n);
    let r = isqrt(n);
    assert(r <= w) by (nonlinear_arith)
        requires
            r * r <= n,
            n <= w * w,
            r >= 0,
            w >= 0,
    ;
}

proof fn lemma_times_fits(h: int, r: int, w: int)
    requires
        -0x8000_0000_0000_0000 <= h <= 0x7fff_ffff_ffff_ffff,
        0 <= r <= w <= 0x7fff_ffff_ffff_ffff,
        w > 0,
    ensures
        -0x4000_0000_0000_0000_0000_0000_0000_0000 <= h * r
            <= 0x4000_0000_0000_0000_0000_0000_0000_0000,
        h >= 0 ==> 0 <= round_div(h * r, w) <= h,
        h <= 0 ==> h <= round_div(h * r, w) <= 0,
{
    assert(-0x4000_0000_0000_0000_0000_0000_0000_0000 <= h * r
        <= 0x4000_0000_0000_0000_0000_0000_0000_0000) by (nonlinear_arith)
        requires
            -0x8000_0000_0000_0000 <= h <= 0x7fff_ffff_ffff_ffff,
            0 <= r <= 0x7fff_ffff_ffff_ffff,
    ;
    lemma_round_div_exact(h, w);
    lemma_round_div_exact(0, w);
    assert(0 * w == 0) by (nonlinear_arith);
    if h >= 0 {
        assert(0 <= h * r <= h * w) by (nonlinear_arith)
            requires
                h >= 0,
                0 <= r <= w,
        ;
        lemma_round_div_mono(h * r, h * w, w);
        lemma_round_div_mono(0, h * r, w);
    } else {
        assert(h * w <= h * r <= 0) by (nonlinear_arith)
            requires
                h <= 0,
                0 <= r <= w,
        ;
        lemma_round_div_mono(h * w, h * r, w);
        lemma_round_div_mono(h * r, 0, w);
    }
}

proof fn lemma_centre_fits(side: int, k: int, m: int)
    requires
        -0x8000_0000_0000_0000 <= side <= 0x7fff_ffff_ffff_ffff,
        0 < m <= 0x1_ffff_fffe,
        -m <= 2 * k <= m,
    ensures
        -0x8000_0000_0000_0000_0000_0000_0000_0000 < side * k
            < 0x7fff_ffff_ffff_ffff_ffff_ffff_ffff_ffff,
        -0x8000_0000_0000_0000 <= round_div(side * k, m) <= 0x7fff_ffff_ffff_ffff,
{
    assert(-0x4000_0000_0000_0000 * m <= side * k <= 0x4000_0000_0000_0000 * m) by (nonlinear_arith)
        requires
            -0x8000_0000_0000_0000 <= side <= 0x7fff_ffff_ffff_ffff,
            -m <= 2 * k <= m,
            m > 0,
    ;
    lemma_round_div_mono(side * k, 0x4000_0000_0000_0000 * m, m);
    lemma_round_div_mono(-0x4000_0000_0000_0000 * m, side * k, m);
    lemma_round_div_exact(0x4000_0000_0000_0000, m);
    lemma_round_div_exact(-0x4000_0000_0000_0000, m);
}

proof fn lemma_side_fits(n: int)
    requires
        2 <= n,
        n * n <= usize::MAX,
    ensures
        n <= 0xffff_ffff,
{
    assert(n <= 0xffff_ffff) by (nonlinear_arith)
        requires
            2 <= n,
            n * n <= 0xffff_ffff_ffff_ffff,
    ;
}

proof fn lemma_unit_ratio(z: int, top: int)
    requires
        0 <= z <= top,
        top > 0,
    ensures
        0 <= fdiv(z, top) <= ONE,
{
    lemma_round_div_mono(0, z * ONE, top);
    assert(z * ONE <= ONE * top);
    lemma_round_div_mono(z * ONE, ONE * top, top);
    lemma_round_div_exact(ONE as int, top);
    lemma_round_div_exact(0, top);
    assert(0 * top == 0) by (nonlinear_arith);
}

proof fn lemma_before(i: int, k: int, r: int, n: int)
    requires
        0 <= i < r,
        0 <= k < n,
    ensures
        0 <= i * n + k < r * n,
{
    assert(0 <= i * n + k < r * n) by (nonlinear_arith)
        requires
            0 <= i < r,
            0 <= k < n,
    ;
}

proof fn lemma_round_max(cfg: KawasakiRingCfg, n: nat, x: int, y: int)
    requires
        n <= cfg.round_plate_centres@.len(),
    ensures
        0 <= spec_round_max(cfg, n, x, y) <= spec_max(cfg.plate_h_m as int, 0),
        forall|i: int|
            0 <= i < n ==> spec_round_max(cfg, n, x, y) >= cfg.spec_round_z(
                #[trigger] cfg.round_plate_centres@[i],
                x,
                y,
            ),
        spec_round_max(cfg, n, x, y) == 0 || exists|i: int|
            0 <= i < n && spec_round_max(cfg, n, x, y) == cfg.spec_round_z(
                #[trigger] cfg.round_plate_centres@[i],
                x,
                y,
            ),
    decreases n,
{
    if n > 0 {
        lemma_round_max(cfg, (n - 1) as nat, x, y);
        let _ = cfg.round_plate_centres@[n - 1];
    }
}

proof fn lemma_quad_max(cfg: KawasakiRingCfg, n: nat, x: int, y: int)
    requires
        n <= cfg.quad_plate_centres@.len(),
    ensures
        0 <= spec_quad_max(cfg, n, x, y) <= spec_max(cfg.plate_h_m as int, 0),
        forall|i: int|
            0 <= i < n ==> spec_quad_max(cfg, n, x, y) >= cfg.spec_quad_z(
                #[trigger] cfg.quad_plate_centres@[i],
                x,
                y,
            ),
        spec_quad_max(cfg, n, x, y) == 0 || exists|i: int|
            0 <= i < n && spec_quad_max(cfg, n, x, y) == cfg.spec_quad_z(
                #[trigger] cfg.quad_plate_centres@[i],
                x,
                y,
            ),
    decreases n,
{
    if n > 0 {
        lemma_quad_max(cfg, (n - 1) as nat, x, y);
        let _ = cfg.quad_plate_centres@[n - 1];
    }
}

proof fn lemma_bank_z(cfg: KawasakiRingCfg, s: (i64, i64, i64, i64), x: int, y: int)
    ensures
        cfg.spec_bank_z(s, x, y) <= spec_max(cfg.bank_h_m as int, 0),
{
    let w = cfg.bank_half_w_m as int;
    let d2 = KawasakiRingCfg::spec_off_sq(s, x, y);
    let (vx, vy) = (s.2 - s.0, s.3 - s.1);
    if !(vx * vx + vy * vy < 1_000_000 || w <= 0 || d2 >= w * w) {
        let dx = x - (s.0 + round_div(
            KawasakiRingCfg::spec_along(s, x, y) * vx,
            vx * vx + vy * vy,
        ));
        let dy = y - (s.1 + round_div(
            KawasakiRingCfg::spec_along(s, x, y) * vy,
            vx * vx + vy * vy,
        ));
        assert(dx * dx >= 0 && dy * dy >= 0) by (nonlinear_arith);
        lemma_isqrt_within(w * w - d2, w);
        lemma_times_fits(cfg.bank_h_m as int, isqrt(w * w - d2), w);
    }
}

proof fn lemma_bank_max(cfg: KawasakiRingCfg, n: nat, x: int, y: int)
    requires
        n <= cfg.bank_segments@.len(),
    ensures
        0 <= spec_bank_max(cfg, n, x, y) <= spec_max(cfg.bank_h_m as int, 0),
        forall|i: int|
            0 <= i < n ==> spec_bank_max(cfg, n, x, y) >= cfg.spec_bank_z(
                #[trigger] cfg.bank_segments@[i],
                x,
                y,
            ),
        spec_bank_max(cfg, n, x, y) == 0 || exists|i: int|
            0 <= i < n && spec_bank_max(cfg, n, x, y) == cfg.spec_bank_z(
                #[trigger] cfg.bank_segments@[i],
                x,
                y,
            ),
    decreases n,
{
    if n > 0 {
        lemma_bank_max(cfg, (n - 1) as nat, x, y);
        lemma_bank_z(cfg, cfg.bank_segments@[n - 1], x, y);
    }
}

/// No feature reaches above the height that the grid is scaled by, and none
/// below the plate.
pub proof fn law_heights_fit_the_scale(cfg: KawasakiRingCfg, x: int, y: int)
    ensures
        0 <= cfg.spec_height_at(x, y) <= cfg.spec_z_top_m(),
{
    lemma_round_max(cfg, cfg.round_plate_centres@.len(), x, y);
    lemma_quad_max(cfg, cfg.quad_plate_centres@.len(), x, y);
    lemma_bank_max(cfg, cfg.bank_segments@.len(), x, y);
    let inner2 = cfg.bowl_m - 2 * cfg.bowl_frame_m;
    let r2 = 2 * spec_max(spec_abs(x), spec_abs(y));
    if r2 <= cfg.bowl_m && r2 <= inner2 {
        lemma_lerp(
            cfg.bowl_centre_h_m as int,
            cfg.bowl_rim_h_m as int,
            r2,
            spec_max(inner2, 2),
        );
    }
}

/// The grid is square, at least two cells on a side, and normalised: the
/// surface at every cell's centre lies between the plate and the tallest
/// feature, so its height lies between 0 and `ONE`. Cells are laid out row by
/// row, each in a place of its own.
pub proof fn law_grid_is_normalised(cfg: KawasakiRingCfg, r: int, c: int)
    requires
        0 <= r < cfg.spec_cells(),
        0 <= c < cfg.spec_cells(),
    ensures
        ({
            let n = cfg.spec_cells();
            let z = cfg.spec_height_at(cfg.spec_centre(c, n), cfg.spec_centre(r, n));
            &&& n >= 2
            &&& 0 <= z <= cfg.spec_z_top_m()
            &&& cfg.spec_cell(r, c) == fdiv(z, cfg.spec_z_top_m())
            &&& 0 <= cfg.spec_cell(r, c) <= ONE
            &&& 0 <= r * n + c < n * n
            &&& forall|r2: int, c2: int|
                0 <= r2 < n && 0 <= c2 < n && #[trigger] (r2 * n + c2) == r * n + c ==> r2 == r && c2
                    == c
        }),
{
    let n = cfg.spec_cells();
    let (x, y) = (cfg.spec_centre(c, n), cfg.spec_centre(r, n));
    law_heights_fit_the_scale(cfg, x, y);
    lemma_unit_ratio(cfg.spec_height_at(x, y), cfg.spec_z_top_m());
    lemma_before(r, c, n, n);
    assert forall|r2: int, c2: int|
        0 <= r2 < n && 0 <= c2 < n && #[trigger] (r2 * n + c2) == r * n + c implies r2 == r && c2
        == c by {
        assert(r2 == r) by (nonlinear_arith)
            requires
                0 <= c < n,
                0 <= c2 < n,
                r2 * n + c2 == r * n + c,
        ;
    }
}

/// The highest feature wins: the surface is at least as high as each of
/// them, and where it is above the plate it is one of them.
pub proof fn law_highest_wins(cfg: KawasakiRingCfg, x: int, y: int)
    ensures
        ({
            let z = cfg.spec_height_at(x, y);
            &&& z >= cfg.spec_bowl_z(x, y)
            &&& forall|i: int|
                0 <= i < cfg.round_plate_centres@.len() ==> z >= cfg.spec_round_z(
                    #[trigger] cfg.round_plate_centres@[i],
                    x,
                    y,
                )
            &&& forall|i: int|
                0 <= i < cfg.quad_plate_centres@.len() ==> z >= cfg.spec_quad_z(
                    #[trigger] cfg.quad_plate_centres@[i],
                    x,
                    y,
                )
            &&& forall|i: int|
                0 <= i < cfg.bank_segments@.len() ==> z >= cfg.spec_bank_z(
                    #[trigger] cfg.bank_segments@[i],
                    x,
                    y,
                )
            &&& {
                ||| z == 0
                ||| z == cfg.spec_bowl_z(x, y)
                ||| exists|i: int|
                    0 <= i < cfg.round_plate_centres@.len() && z == cfg.spec_round_z(
                        #[trigger] cfg.round_plate_centres@[i],
                        x,
                        y,
                    )
                ||| exists|i: int|
                    0 <= i < cfg.quad_plate_centres@.len() && z == cfg.spec_quad_z(
                        #[trigger] cfg.quad_plate_centres@[i],
                        x,
                        y,
                    )
                ||| exists|i: int|
                    0 <= i < cfg.bank_segments@.len() && z == cfg.spec_bank_z(
                        #[trigger] cfg.bank_segments@[i],
                        x,
                        y,
                    )
            }
        }),
{
    lemma_round_max(cfg, cfg.round_plate_centres@.len(), x, y);
    lemma_quad_max(cfg, cfg.quad_plate_centres@.len(), x, y);
    lemma_bank_max(cfg, cfg.bank_segments@.len(), x, y);
}

/// Where the nominal layout puts its round-hole plates.
pub const ROUND_PLATES: [(i64, i64); 2] = [(-650_000_000, 0), (650_000_000, 0)];

/// Where it puts its four-hole plates.
pub const QUAD_PLATES: [(i64, i64); 2] = [(0, -650_000_000), (0, 650_000_000)];

/// Where it puts its edge banks. Each is flush with its own ring edge. Top
/// and bottom are centred; the two sides are offset in opposite directions.
pub const BANKS: [(i64, i64, i64, i64); 4] = [
    (-750_000_000, 940_000_000, 750_000_000, 940_000_000),
    (-750_000_000, -940_000_000, 750_000_000, -940_000_000),
    (-940_000_000, -250_000_000, -940_000_000, 750_000_000),
    (940_000_000, -750_000_000, 940_000_000, 250_000_000),
];

impl KawasakiRingCfg {
    /// The layout of the rulebook's drawing.
    pub open spec fn is_nominal(self) -> bool {
        &&& self.ring_m == 1_900_000_000
        &&& self.blue_platform_m == (450_000_000i64, 350_000_000i64)
        &&& self.red_platform_m == (450_000_000i64, 350_000_000i64)
        &&& self.platform_h_m == 50_000_000
        &&& self.bowl_m == 450_000_000
        &&& self.bowl_frame_m == 50_000_000
        &&& self.bowl_rim_h_m == 28_000_000
        &&& self.bowl_centre_h_m == 12_000_000
        &&& self.plate_m == 300_000_000
        &&& self.plate_h_m == 15_000_000
        &&& self.round_hole_d_m == 180_000_000
        &&& self.quad_hole_d_m == 100_000_000
        &&& self.quad_hole_pitch_m == 150_000_000
        &&& self.round_plate_centres@ == ROUND_PLATES@
        &&& self.quad_plate_centres@ == QUAD_PLATES@
        &&& self.bank_half_w_m == 10_000_000
        &&& self.barrier == Some((600_000_000i64, 1_500_000_000i64, 20_000_000i64))
        &&& self.border == Some((80_000_000i64, 30_000_000i64))
        &&& self.lighting
        &&& self.bank_h_m == 15_000_000
        &&& self.bank_segments@ == BANKS@
        &&& self.cell_m == 5_000_000
        &&& self.floor_size_m == Some(5_000_000_000i64)
        &&& self.floor_gap_m == 200_000_000
        &&& self.plate_thickness_m == 50_000_000
    }
}

impl Default for KawasakiRingCfg {
    fn default() -> (r: Self)
        ensures
            r.is_nominal(),
            r.in_reach(),
    {
        let mut rounds: Vec<(i64, i64)> = Vec::new();
        rounds.push(ROUND_PLATES[0]);
        rounds.push(ROUND_PLATES[1]);
        let mut quads: Vec<(i64, i64)> = Vec::new();
        quads.push(QUAD_PLATES[0]);
        quads.push(QUAD_PLATES[1]);
        let mut banks: Vec<(i64, i64, i64, i64)> = Vec::new();
        banks.push(BANKS[0]);
        banks.push(BANKS[1]);
        banks.push(BANKS[2]);
        banks.push(BANKS[3]);
        assert(rounds@ =~= ROUND_PLATES@);
        assert(quads@ =~= QUAD_PLATES@);
        assert(banks@ =~= BANKS@);
        KawasakiRingCfg {
            ring_m: 1_900_000_000,
            blue_platform_m: (450_000_000, 350_000_000),
            red_platform_m: (450_000_000, 350_000_000),
            platform_h_m: 50_000_000,
            bowl_m: 450_000_000,
            bowl_frame_m: 50_000_000,
            bowl_rim_h_m: 28_000_000,
            bowl_centre_h_m: 12_000_000,
            plate_m: 300_000_000,
            plate_h_m: 15_000_000,
            round_hole_d_m: 180_000_000,
            quad_hole_d_m: 100_000_000,
            quad_hole_pitch_m: 150_000_000,
            round_plate_centres: rounds,
            quad_plate_centres: quads,
            bank_half_w_m: 10_000_000,
            barrier: Some((600_000_000, 1_500_000_000, 20_000_000)),
            border: Some((80_000_000, 30_000_000)),
            lighting: true,
            bank_h_m: 15_000_000,
            bank_segments: banks,
            cell_m: 5_000_000,
            floor_size_m: Some(5_000_000_000),
            floor_gap_m: 200_000_000,
            plate_thickness_m: 50_000_000,
        }
    }
}

fn copy_centres(v: &Vec<(i64, i64)>) -> (r: Vec<(i64, i64)>)
    ensures
        r@ == v@,
{
    let mut out: Vec<(i64, i64)> = Vec::new();
    let mut i: usize = 0;
    while i < v.len()
        invariant
            i <= v.len(),
            out@ =~= v@.take(i as int),
        decreases v.len() - i,
    {
        out.push(v[i]);
        i = i + 1;
    }
    assert(v@.take(v@.len() as int) =~= v@);
    out
}

fn copy_segments(v: &Vec<(i64, i64, i64, i64)>) -> (r: Vec<(i64, i64, i64, i64)>)
    ensures
        r@ == v@,
{
    let mut out: Vec<(i64, i64, i64, i64)> = Vec::new();
    let mut i: usize = 0;
    while i < v.len()
        invariant
            i <= v.len(),
            out@ =~= v@.take(i as int),
        decreases v.len() - i,
    {
        out.push(v[i]);
        i = i + 1;
    }
    assert(v@.take(v@.len() as int) =~= v@);
    out
}

impl Clone for KawasakiRingCfg {
    fn clone(&self) -> (r: Self)
        ensures
            r.round_plate_centres@ == self.round_plate_centres@,
            r.quad_plate_centres@ == self.quad_plate_centres@,
            r.bank_segments@ == self.bank_segments@,
            r == (KawasakiRingCfg {
                round_plate_centres: r.round_plate_centres,
                quad_plate_centres: r.quad_plate_centres,
                bank_segments: r.bank_segments,
                ..*self
            }),
    {
        KawasakiRingCfg {
            ring_m: self.ring_m,
            blue_platform_m: self.blue_platform_m,
            red_platform_m: self.red_platform_m,
            platform_h_m: self.platform_h_m,
            bowl_m: self.bowl_m,
            bowl_frame_m: self.bowl_frame_m,
            bowl_rim_h_m: self.bowl_rim_h_m,
            bowl_centre_h_m: self.bowl_centre_h_m,
            plate_m: self.plate_m,
            plate_h_m: self.plate_h_m,
            round_hole_d_m: self.round_hole_d_m,
            quad_hole_d_m: self.quad_hole_d_m,
            quad_hole_pitch_m: self.quad_hole_pitch_m,
            round_plate_centres: copy_centres(&self.round_plate_centres),
            quad_plate_centres: copy_centres(&self.quad_plate_centres),
            bank_half_w_m: self.bank_half_w_m,
            barrier: self.barrier,
            border: self.border,
            lighting: self.lighting,
            bank_h_m: self.bank_h_m,
            bank_segments: copy_segments(&self.bank_segments),
            cell_m: self.cell_m,
            floor_size_m: self.floor_size_m,
            floor_gap_m: self.floor_gap_m,
            plate_thickness_m: self.plate_thickness_m,
        }
    }
}

/// Along a straight side, the nearest point of a bank is the query held to
/// the bank's own ends.
proof fn lemma_straight(len: int, u: int)
    requires
        len > 0,
    ensures
        spec_clamp(u * len, 0, len * len) == spec_clamp(u, 0, len) * len,
        len * len > 0,
        round_div((spec_clamp(u, 0, len) * len) * len, len * len) == spec_clamp(u, 0, len),
        round_div((spec_clamp(u, 0, len) * len) * 0, len * len) == 0,
{
    let c = spec_clamp(u, 0, len);
    assert(0 * len == 0) by (nonlinear_arith);
    assert(len * len > 0) by (nonlinear_arith)
        requires
            len > 0,
    ;
    assert(u < 0 ==> u * len < 0) by (nonlinear_arith)
        requires
            len > 0,
    ;
    assert(u >= 0 ==> u * len >= 0) by (nonlinear_arith)
        requires
            len > 0,
    ;
    assert(u > len ==> u * len > len * len) by (nonlinear_arith)
        requires
            len > 0,
    ;
    assert(u <= len ==> u * len <= len * len) by (nonlinear_arith)
        requires
            len > 0,
    ;
    assert((c * len) * len == c * (len * len)) by (nonlinear_arith);
    lemma_round_div_exact(c, len * len);
    lemma_round_div_exact(0, len * len);
    assert((c * len) * 0 == 0 * (len * len)) by (nonlinear_arith);
}

proof fn lemma_flat_bank(s: (i64, i64, i64, i64), x: int, y: int)
    requires
        s.1 == s.3,
        s.0 < s.2,
    ensures
        ({
            let dx = x - spec_clamp(x, s.0 as int, s.2 as int);
            let dy = y - s.1;
            KawasakiRingCfg::spec_off_sq(s, x, y) == dx * dx + dy * dy
        }),
{
    let len = s.2 - s.0;
    lemma_straight(len, x - s.0);
    assert((y - s.1) * 0 == 0 && 0 * 0 == 0) by (nonlinear_arith);
}

proof fn lemma_upright_bank(s: (i64, i64, i64, i64), x: int, y: int)
    requires
        s.0 == s.2,
        s.1 < s.3,
    ensures
        ({
            let dx = x - s.0;
            let dy = y - spec_clamp(y, s.1 as int, s.3 as int);
            KawasakiRingCfg::spec_off_sq(s, x, y) == dx * dx + dy * dy
        }),
{
    let len = s.3 - s.1;
    lemma_straight(len, y - s.1);
    assert((x - s.0) * 0 == 0 && 0 * 0 == 0) by (nonlinear_arith);
}

proof fn lemma_negated_square(a: int)
    ensures
        (-a) * (-a) == a * a,
{
    assert((-a) * (-a) == a * a) by (nonlinear_arith);
}

proof fn lemma_turned_odd(dx: int, dy: int)
    ensures
        spec_turned(-dx, -dy) == (-spec_turned(dx, dy).0, -spec_turned(dx, dy).1),
{
    let d = 1_000_000_000_000_000_000int;
    assert(INV_SQRT_2 * (-dx + -dy) == -(INV_SQRT_2 * (dx + dy))) by (nonlinear_arith);
    assert(INV_SQRT_2 * (-dy - -dx) == -(INV_SQRT_2 * (dy - dx))) by (nonlinear_arith);
    lemma_round_div_odd(INV_SQRT_2 * (dx + dy), d);
    lemma_round_div_odd(INV_SQRT_2 * (dy - dx), d);
}

proof fn lemma_hole_odd(px: int, py: int, ox: int, oy: int, d: int)
    ensures
        in_hole(-px, -py, ox, oy, d) == in_hole(px, py, -ox, -oy, d),
{
    lemma_negated_square(2 * px + ox);
    lemma_negated_square(2 * py + oy);
    assert(2 * (-px) - ox == -(2 * px + ox));
    assert(2 * (-py) - oy == -(2 * py + oy));
}

proof fn lemma_round_turned(cfg: KawasakiRingCfg, c: (i64, i64), m: (i64, i64), x: int, y: int)
    requires
        m.0 == -c.0,
        m.1 == -c.1,
    ensures
        cfg.spec_round_z(c, -x, -y) == cfg.spec_round_z(m, x, y),
{
    lemma_negated_square(x - m.0);
    lemma_negated_square(y - m.1);
    assert(-x - c.0 == -(x - m.0));
    assert(-y - c.1 == -(y - m.1));
}

proof fn lemma_quad_turned(cfg: KawasakiRingCfg, c: (i64, i64), m: (i64, i64), x: int, y: int)
    requires
        m.0 == -c.0,
        m.1 == -c.1,
    ensures
        cfg.spec_quad_z(c, -x, -y) == cfg.spec_quad_z(m, x, y),
{
    let (dx, dy) = (x - m.0, y - m.1);
    assert(-x - c.0 == -dx);
    assert(-y - c.1 == -dy);
    lemma_turned_odd(dx, dy);
    let (px, py) = spec_turned(dx, dy);
    let q = cfg.quad_hole_pitch_m as int;
    let d = cfg.quad_hole_d_m as int;
    lemma_hole_odd(px, py, -q, -q, d);
    lemma_hole_odd(px, py, q, -q, d);
    lemma_hole_odd(px, py, -q, q, d);
    lemma_hole_odd(px, py, q, q, d);
}

proof fn lemma_banks_turned(x: int, y: int)
    ensures
        KawasakiRingCfg::spec_off_sq(BANKS[0], -x, -y) == KawasakiRingCfg::spec_off_sq(
            BANKS[1],
            x,
            y,
        ),
        KawasakiRingCfg::spec_off_sq(BANKS[1], -x, -y) == KawasakiRingCfg::spec_off_sq(
            BANKS[0],
            x,
            y,
        ),
        KawasakiRingCfg::spec_off_sq(BANKS[2], -x, -y) == KawasakiRingCfg::spec_off_sq(
            BANKS[3],
            x,
            y,
        ),
        KawasakiRingCfg::spec_off_sq(BANKS[3], -x, -y) == KawasakiRingCfg::spec_off_sq(
            BANKS[2],
            x,
            y,
        ),
{
    lemma_flat_bank(BANKS[0], -x, -y);
    lemma_flat_bank(BANKS[1], -x, -y);
    lemma_flat_bank(BANKS[0], x, y);
    lemma_flat_bank(BANKS[1], x, y);
    lemma_upright_bank(BANKS[2], -x, -y);
    lemma_upright_bank(BANKS[3], -x, -y);
    lemma_upright_bank(BANKS[2], x, y);
    lemma_upright_bank(BANKS[3], x, y);
    let along = x - spec_clamp(x, -750_000_000, 750_000_000);
    assert(-x - spec_clamp(-x, -750_000_000, 750_000_000) == -along);
    lemma_negated_square(along);
    lemma_negated_square(y - 940_000_000);
    lemma_negated_square(y + 940_000_000);
    assert(-y - 940_000_000 == -(y + 940_000_000));
    assert(-y + 940_000_000 == -(y - 940_000_000));
    let up = y - spec_clamp(y, -250_000_000, 750_000_000);
    let down = y - spec_clamp(y, -750_000_000, 250_000_000);
    assert(-y - spec_clamp(-y, -750_000_000, 250_000_000) == -up);
    assert(-y - spec_clamp(-y, -250_000_000, 750_000_000) == -down);
    lemma_negated_square(up);
    lemma_negated_square(down);
    lemma_negated_square(x - 940_000_000);
    lemma_negated_square(x + 940_000_000);
    assert(-x - 940_000_000 == -(x + 940_000_000));
    assert(-x + 940_000_000 == -(x - 940_000_000));
}

/// Two long enough banks that are equally far away are equally high.
proof fn lemma_bank_same(
    cfg: KawasakiRingCfg,
    a: (i64, i64, i64, i64),
    b: (i64, i64, i64, i64),
    x: int,
    y: int,
)
    requires
        (a.2 - a.0) * (a.2 - a.0) + (a.3 - a.1) * (a.3 - a.1) >= 1_000_000,
        (b.2 - b.0) * (b.2 - b.0) + (b.3 - b.1) * (b.3 - b.1) >= 1_000_000,
        KawasakiRingCfg::spec_off_sq(a, -x, -y) == KawasakiRingCfg::spec_off_sq(b, x, y),
    ensures
        cfg.spec_bank_z(a, -x, -y) == cfg.spec_bank_z(b, x, y),
{
}

proof fn lemma_rounds_symmetric(cfg: KawasakiRingCfg, x: int, y: int)
    requires
        cfg.is_nominal(),
    ensures
        spec_round_max(cfg, 2, -x, -y) == spec_round_max(cfg, 2, x, y),
{
    reveal_with_fuel(spec_round_max, 3);
    lemma_round_turned(cfg, ROUND_PLATES[0], ROUND_PLATES[1], x, y);
    lemma_round_turned(cfg, ROUND_PLATES[1], ROUND_PLATES[0], x, y);
}

proof fn lemma_quads_symmetric(cfg: KawasakiRingCfg, x: int, y: int)
    requires
        cfg.is_nominal(),
    ensures
        spec_quad_max(cfg, 2, -x, -y) == spec_quad_max(cfg, 2, x, y),
{
    reveal_with_fuel(spec_quad_max, 3);
    lemma_quad_turned(cfg, QUAD_PLATES[0], QUAD_PLATES[1], x, y);
    lemma_quad_turned(cfg, QUAD_PLATES[1], QUAD_PLATES[0], x, y);
}

proof fn lemma_four_banks(cfg: KawasakiRingCfg, x: int, y: int)
    requires
        cfg.is_nominal(),
    ensures
        spec_bank_max(cfg, 4, x, y) == spec_max(
            spec_max(
                spec_max(
                    spec_max(0, cfg.spec_bank_z(BANKS[0], x, y)),
                    cfg.spec_bank_z(BANKS[1], x, y),
                ),
                cfg.spec_bank_z(BANKS[2], x, y),
            ),
            cfg.spec_bank_z(BANKS[3], x, y),
        ),
{
    reveal_with_fuel(spec_bank_max, 5);
}

proof fn lemma_long_banks(i: int)
    requires
        0 <= i < 4,
    ensures
        (BANKS[i].2 - BANKS[i].0) * (BANKS[i].2 - BANKS[i].0) + (BANKS[i].3 - BANKS[i].1) * (
        BANKS[i].3 - BANKS[i].1) >= 1_000_000,
{
    let (vx, vy) = (BANKS[i].2 - BANKS[i].0, BANKS[i].3 - BANKS[i].1);
    assert(vx >= 1_000_000_000 || vy >= 1_000_000_000);
    assert(vx * vx + vy * vy >= 1_000_000) by (nonlinear_arith)
        requires
            vx >= 1_000_000_000 || vy >= 1_000_000_000,
    ;
}

proof fn lemma_banks_symmetric(cfg: KawasakiRingCfg, x: int, y: int)
    requires
        cfg.is_nominal(),
    ensures
        spec_bank_max(cfg, 4, -x, -y) == spec_bank_max(cfg, 4, x, y),
{
    lemma_long_banks(0);
    lemma_long_banks(1);
    lemma_long_banks(2);
    lemma_long_banks(3);
    lemma_banks_turned(x, y);
    lemma_bank_same(cfg, BANKS[0], BANKS[1], x, y);
    lemma_bank_same(cfg, BANKS[1], BANKS[0], x, y);
    lemma_bank_same(cfg, BANKS[2], BANKS[3], x, y);
    lemma_bank_same(cfg, BANKS[3], BANKS[2], x, y);
    lemma_four_banks(cfg, x, y);
    lemma_four_banks(cfg, -x, -y);
}

/// The nominal layout looks the same from both starts: turning the ring by
/// half a turn changes nothing.
pub proof fn law_nominal_ring_is_symmetric(cfg: KawasakiRingCfg, x: int, y: int)
    requires
        cfg.is_nominal(),
    ensures
        cfg.spec_height_at(-x, -y) == cfg.spec_height_at(x, y),
{
    lemma_rounds_symmetric(cfg, x, y);
    lemma_quads_symmetric(cfg, x, y);
    lemma_banks_symmetric(cfg, x, y);
    assert(cfg.spec_bowl_z(-x, -y) == cfg.spec_bowl_z(x, y));
}

/// The bowl is square: flat ground outside it, its rim's height on the frame,
/// and inside the frame it falls in proportion to the larger of the two
/// distances, the same on every side, down to its centre's height.
pub proof fn law_bowl(cfg: KawasakiRingCfg, x: int, y: int)
    ensures
        ({
            let ax = if x < 0 {
                -x
            } else {
                x
            };
            let ay = if y < 0 {
                -y
            } else {
                y
            };
            let r2 = if ax > ay {
                2 * ax
            } else {
                2 * ay
            };
            let inner2 = cfg.bowl_m - 2 * cfg.bowl_frame_m;
            let z = cfg.spec_bowl_z(x, y);
            &&& r2 > cfg.bowl_m ==> z == 0
            &&& r2 <= cfg.bowl_m && r2 > inner2 ==> z == cfg.bowl_rim_h_m
            &&& r2 <= cfg.bowl_m && r2 <= inner2 && inner2 >= 2 ==> -inner2 <= 2 * ((z
                - cfg.bowl_centre_h_m) * inner2 - (cfg.bowl_rim_h_m - cfg.bowl_centre_h_m) * r2)
                <= inner2
            &&& x == 0 && y == 0 && inner2 >= 0 && cfg.bowl_m >= 0 ==> z == cfg.bowl_centre_h_m
            &&& cfg.spec_bowl_z(y, x) == z && cfg.spec_bowl_z(-x, y) == z && cfg.spec_bowl_z(x, -y)
                == z
        }),
{
    let inner2 = cfg.bowl_m - 2 * cfg.bowl_frame_m;
    let r2 = 2 * spec_max(spec_abs(x), spec_abs(y));
    let den = spec_max(inner2, 2);
    law_share_is_near(cfg.bowl_centre_h_m as int, cfg.bowl_rim_h_m as int, r2, den);
    lemma_lerp(cfg.bowl_centre_h_m as int, cfg.bowl_rim_h_m as int, 0, den);
}

/// A round-hole plate stands on its own square, save for the disc around its
/// centre.
pub proof fn law_round_plate(cfg: KawasakiRingCfg, c: (i64, i64), x: int, y: int)
    requires
        cfg.round_hole_d_m >= 0,
    ensures
        ({
            let (dx, dy) = (x - c.0, y - c.1);
            let p = cfg.plate_m;
            let outside = 2 * dx > p || 2 * dx < -p || 2 * dy > p || 2 * dy < -p;
            let hole = 4 * (dx * dx + dy * dy) <= cfg.round_hole_d_m * cfg.round_hole_d_m;
            &&& outside || hole ==> cfg.spec_round_z(c, x, y) == 0
            &&& !outside && !hole ==> cfg.spec_round_z(c, x, y) == cfg.plate_h_m
        }),
{
}

/// A four-hole plate is turned by an eighth: its axes lie along the sum and
/// the difference of the two distances, over the square root of two.
pub proof fn law_turned(dx: int, dy: int)
    ensures
        ({
            let (px, py) = spec_turned(dx, dy);
            let e = 1_000_000_000_000_000_000int;
            &&& -e <= 2 * (px * e - INV_SQRT_2 * (dx + dy)) <= e
            &&& -e <= 2 * (py * e - INV_SQRT_2 * (dy - dx)) <= e
        }),
        2 * INV_SQRT_2 * INV_SQRT_2 <= 1_000_000_000_000_000_000_000_000_000_000_000_000,
        1_000_000_000_000_000_000_000_000_000_000_000_000 < 2 * (INV_SQRT_2 + 1) * (INV_SQRT_2 + 1),
{
    let e = 1_000_000_000_000_000_000int;
    lemma_round_div_near(INV_SQRT_2 * (dx + dy), e);
    lemma_round_div_near(INV_SQRT_2 * (dy - dx), e);
    let i = INV_SQRT_2 as int;
    assert(2 * i * i <= 1_000_000_000_000_000_000_000_000_000_000_000_000
        && 1_000_000_000_000_000_000_000_000_000_000_000_000 < 2 * (i + 1) * (i + 1))
        by (nonlinear_arith)
        requires
            i == 707_106_781_186_547_524,
    ;
}

/// In its own frame a four-hole plate stands on its square, save for the four
/// discs at the corners of the square of its pitch.
pub proof fn law_quad_plate(cfg: KawasakiRingCfg, c: (i64, i64), x: int, y: int)
    requires
        cfg.quad_hole_d_m >= 0,
    ensures
        ({
            let (px, py) = spec_turned(x - c.0, y - c.1);
            let (p, q) = (cfg.plate_m as int, cfg.quad_hole_pitch_m as int);
            let d2 = cfg.quad_hole_d_m * cfg.quad_hole_d_m;
            let (l, r) = (2 * px + q, 2 * px - q);
            let (b, t) = (2 * py + q, 2 * py - q);
            let outside = 2 * px > p || 2 * px < -p || 2 * py > p || 2 * py < -p;
            let hole = l * l + b * b <= d2 || l * l + t * t <= d2 || r * r + b * b <= d2 || r * r + t
                * t <= d2;
            &&& outside || hole ==> cfg.spec_quad_z(c, x, y) == 0
            &&& !outside && !hole ==> cfg.spec_quad_z(c, x, y) == cfg.plate_h_m
        }),
{
}

/// The point of a bank's centreline that a point is measured from: where the
/// point falls onto the line, or the end that it falls beyond.
pub proof fn law_nearest_on_bank(s: (i64, i64, i64, i64), x: int, y: int) -> (c: (int, int))
    requires
        (s.2 - s.0) * (s.2 - s.0) + (s.3 - s.1) * (s.3 - s.1) > 0,
    ensures
        ({
            let (vx, vy) = (s.2 - s.0, s.3 - s.1);
            let len2 = vx * vx + vy * vy;
            let dot = (x - s.0) * vx + (y - s.1) * vy;
            &&& KawasakiRingCfg::spec_off_sq(s, x, y) == (x - c.0) * (x - c.0) + (y - c.1) * (y
                - c.1)
            &&& dot <= 0 ==> c.0 == s.0 && c.1 == s.1
            &&& dot >= len2 ==> c.0 == s.2 && c.1 == s.3
            &&& 0 <= dot <= len2 ==> -len2 <= 2 * ((c.0 - s.0) * len2 - dot * vx) <= len2
            &&& 0 <= dot <= len2 ==> -len2 <= 2 * ((c.1 - s.1) * len2 - dot * vy) <= len2
        }),
{
    let (vx, vy) = (s.2 - s.0, s.3 - s.1);
    let len2 = vx * vx + vy * vy;
    let t = KawasakiRingCfg::spec_along(s, x, y);
    lemma_round_div_near(t * vx, len2);
    lemma_round_div_near(t * vy, len2);
    assert(t == 0 ==> t * vx == 0 * len2 && t * vy == 0 * len2) by (nonlinear_arith);
    assert(t == len2 ==> t * vx == vx * len2 && t * vy == vy * len2) by (nonlinear_arith);
    lemma_round_div_exact(0, len2);
    lemma_round_div_exact(vx, len2);
    lemma_round_div_exact(vy, len2);
    (s.0 + round_div(t * vx, len2), s.1 + round_div(t * vy, len2))
}

/// Along a straight side a bank is measured from the query held to the bank's
/// own ends.
pub proof fn law_straight_bank(s: (i64, i64, i64, i64), x: int, y: int)
    ensures
        s.1 == s.3 && s.0 < s.2 && s.0 <= x <= s.2 ==> KawasakiRingCfg::spec_off_sq(s, x, y) == (y
            - s.1) * (y - s.1),
        s.0 == s.2 && s.1 < s.3 && s.1 <= y <= s.3 ==> KawasakiRingCfg::spec_off_sq(s, x, y) == (x
            - s.0) * (x - s.0),
{
    assert(0 * 0 == 0) by (nonlinear_arith);
    if s.1 == s.3 && s.0 < s.2 {
        lemma_flat_bank(s, x, y);
    }
    if s.0 == s.2 && s.1 < s.3 {
        lemma_upright_bank(s, x, y);
    }
}

/// A bank's section is half an ellipse: as high as the bank on its centreline,
/// falling to nothing at its half width.
pub proof fn law_bank_section(cfg: KawasakiRingCfg, s: (i64, i64, i64, i64), x: int, y: int)
    requires
        (s.2 - s.0) * (s.2 - s.0) + (s.3 - s.1) * (s.3 - s.1) >= 1_000_000,
        cfg.bank_half_w_m > 0,
    ensures
        ({
            let w = cfg.bank_half_w_m as int;
            let d2 = KawasakiRingCfg::spec_off_sq(s, x, y);
            let z = cfg.spec_bank_z(s, x, y);
            let r = isqrt(w * w - d2);
            &&& d2 >= w * w ==> z == 0
            &&& d2 < w * w ==> r * r <= w * w - d2 < (r + 1) * (r + 1) && -w <= 2 * (z * w
                - cfg.bank_h_m * r) <= w
            &&& d2 == 0 ==> z == cfg.bank_h_m
        }),
{
    let w = cfg.bank_half_w_m as int;
    let d2 = KawasakiRingCfg::spec_off_sq(s, x, y);
    assert(w * w > 0) by (nonlinear_arith)
        requires
            w > 0,
    ;
    if d2 < w * w {
        law_root(w * w - d2);
        lemma_round_div_near(cfg.bank_h_m * isqrt(w * w - d2), w);
    }
    if d2 == 0 {
        assert((w + 1) * (w + 1) > w * w) by (nonlinear_arith)
            requires
                w > 0,
        ;
        lemma_isqrt_unique(w * w, w, isqrt(w * w));
        lemma_round_div_exact(cfg.bank_h_m as int, w);
    }
}

/// A bank without length or without width is none.
pub proof fn law_no_bank(cfg: KawasakiRingCfg, s: (i64, i64, i64, i64), x: int, y: int)
    requires
        (s.2 - s.0) * (s.2 - s.0) + (s.3 - s.1) * (s.3 - s.1) < 1_000_000 || cfg.bank_half_w_m <= 0,
    ensures
        cfg.spec_bank_z(s, x, y) == 0,
{
}

/// The grid is scaled by the tallest of the features: none is taller, and it
/// is one of them, or a micrometre where all are lower.
pub proof fn law_scale(cfg: KawasakiRingCfg)
    ensures
        ({
            let z = cfg.spec_z_top_m();
            &&& z >= cfg.bowl_rim_h_m && z >= cfg.bowl_centre_h_m && z >= cfg.plate_h_m && z
                >= cfg.bank_h_m && z >= 1_000
            &&& z == cfg.bowl_rim_h_m || z == cfg.bowl_centre_h_m || z == cfg.plate_h_m || z
                == cfg.bank_h_m || z == 1_000
        }),
{
}

/// The grid has as many cells on a side as pitches fit into the ring, to the
/// nearest and no fewer than two.
pub proof fn law_cells(cfg: KawasakiRingCfg)
    requires
        cfg.cell_m > 0,
    ensures
        ({
            let n = cfg.spec_cells();
            &&& n >= 2
            &&& 2 < n < usize::MAX ==> -cfg.cell_m <= 2 * (n * cfg.cell_m - cfg.ring_m)
                <= cfg.cell_m
            &&& n == 2 ==> 2 * cfg.ring_m <= 5 * cfg.cell_m
        }),
{
    let (n, d) = (round_div(cfg.ring_m as int, cfg.cell_m as int), cfg.cell_m as int);
    lemma_round_div_near(cfg.ring_m as int, d);
    if n <= 2 {
        assert(n * d <= 2 * d) by (nonlinear_arith)
            requires
                n <= 2,
                d > 0,
        ;
    }
}

/// Cell centres lie half a cell from their edges, spread evenly over the ring,
/// and the two halves mirror each other.
pub proof fn law_cell_centres(cfg: KawasakiRingCfg, c: int, n: int)
    requires
        n > 0,
    ensures
        -n <= cfg.spec_centre(c, n) * (2 * n) - cfg.ring_m * (2 * c + 1 - n) <= n,
        cfg.spec_centre(n - 1 - c, n) == -cfg.spec_centre(c, n),
        cfg.ring_m >= 0 ==> cfg.spec_centre(c, n) <= cfg.spec_centre(c + 1, n),
{
    let (k, m) = (2 * c + 1 - n, cfg.ring_m as int);
    lemma_round_div_near(m * k, 2 * n);
    assert(2 * (n - 1 - c) + 1 - n == -k);
    assert(m * (-k) == -(m * k)) by (nonlinear_arith);
    lemma_round_div_odd(m * k, 2 * n);
    if m >= 0 {
        let j = 2 * (c + 1) + 1 - n;
        assert(m * k <= m * j) by (nonlinear_arith)
            requires
                m >= 0,
                k <= j,
        ;
        lemma_round_div_mono(m * k, m * j, 2 * n);
    }
}

/// A cell holds the surface's height at its centre, its column along x and its
/// row along y, as a share of the scale.
pub proof fn law_cell_height(cfg: KawasakiRingCfg, r: int, c: int)
    ensures
        ({
            let n = cfg.spec_cells();
            let (x, y) = (cfg.spec_centre(c, n), cfg.spec_centre(r, n));
            let top = cfg.spec_z_top_m();
            -top <= 2 * (cfg.spec_cell(r, c) * top - cfg.spec_height_at(x, y) * 1_000_000_000) <= top
        }),
{
    let n = cfg.spec_cells();
    law_quotient_is_near(
        cfg.spec_height_at(cfg.spec_centre(c, n), cfg.spec_centre(r, n)),
        cfg.spec_z_top_m(),
    );
}

/// The floor lies below the ring's surface by the plate and the gap.
pub proof fn law_floor_level(cfg: KawasakiRingCfg)
    requires
        i64::MIN <= cfg.plate_thickness_m + cfg.floor_gap_m <= i64::MAX,
    ensures
        cfg.spec_floor_top_z() == cfg.plate_thickness_m + cfg.floor_gap_m,
{
}

/// The nominal ring: its bowl is level with its rim on the frame and with the
/// ground outside, its plates are fifteen millimetres high on their squares
/// but for the hole, and its grid has 380 cells on a side.
pub proof fn law_nominal_ring(cfg: KawasakiRingCfg, c: (i64, i64), x: int, y: int)
    requires
        cfg.is_nominal(),
    ensures
        cfg.spec_z_top_m() == 28_000_000,
        cfg.spec_floor_top_z() == 250_000_000,
        cfg.spec_cells() == 380,
        x > 225_000_000 || x < -225_000_000 || y > 225_000_000 || y < -225_000_000
            ==> cfg.spec_bowl_z(x, y) == 0,
        175_000_000 < x <= 225_000_000 && -225_000_000 <= y <= 225_000_000 ==> cfg.spec_bowl_z(x, y)
            == 28_000_000,
        ({
            let (dx, dy) = (x - c.0, y - c.1);
            let near = -150_000_000 <= dx <= 150_000_000 && -150_000_000 <= dy <= 150_000_000;
            let hole = dx * dx + dy * dy <= 90_000_000 * 90_000_000;
            &&& near && !hole ==> cfg.spec_round_z(c, x, y) == 15_000_000
            &&& !near || hole ==> cfg.spec_round_z(c, x, y) == 0
        }),
{
    lemma_round_div_exact(380, 5_000_000);
    law_round_plate(cfg, c, x, y);
}

} // verus!

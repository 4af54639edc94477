//! Where the feet should stand relative to the trunk.
//!
//! Four things want to move the same nominal foot heights: the arm attack's
//! front crouch, the live trunk height, levelling from what the feet have
//! felt, and levelling from a known terrain. Their offsets are added, so that
//! a crouch and a levelling correction can coexist.
//!
//! A nominal height measures the foot toward the body, so a positive offset
//! crouches that leg.
use crate::attack::AttackCmd;
use crate::fixed::{
    div_round, ease, fmul, law_ease, law_product_is_near, lemma_round_div_exact,
    lemma_round_div_mono, lemma_round_div_near, round_div, sat, saturate, scaled, spec_abs,
    spec_clamp, spec_ease, ONE,
};
use vstd::prelude::*;

verus! {

/// Levelling the stance from the feet alone.
///
/// It only knows ground a foot has already touched, projected into a
/// gravity-aligned frame by an attitude filter.
#[derive(Clone, Copy, Debug, PartialEq, Eq, Structural)]
pub struct ProprioStanceCfg {
    /// Share of the measured height difference applied; 0 is a no-op.
    pub gain: i64,
    /// Clamp on the offset of each leg.
    pub max_offset_m: i64,
    /// Time constant of the height filter of each leg.
    pub tau_s: i64,
    /// Normal force above which a foot counts as in contact. Not the gait's
    /// own idea of stance: uneven ground is precisely where that is wrong.
    pub contact_n: i64,
    /// Gain of the attitude filter used to project the feet.
    pub imu_beta: i64,
}

impl Default for ProprioStanceCfg {
    fn default() -> (r: Self)
        ensures
            r == (ProprioStanceCfg {
                gain: 1_000_000_000,
                max_offset_m: 100_000_000,
                tau_s: 200_000_000,
                contact_n: 3_000_000_000,
                imu_beta: 100_000_000,
            }),
    {
        ProprioStanceCfg {
            gain: 1_000_000_000,
            max_offset_m: 100_000_000,
            tau_s: 200_000_000,
            contact_n: 3_000_000_000,
            imu_beta: 100_000_000,
        }
    }
}

/// Levelling the stance from a known terrain height under each leg.
#[derive(Clone, Copy, Debug, PartialEq, Eq, Structural)]
pub struct TerrainStanceCfg {
    /// Share of the height difference applied; 0 is a no-op.
    pub gain: i64,
    /// Clamp on the offset of each leg.
    pub max_offset_m: i64,
}

/// The ground height last felt under each leg, in a gravity-aligned frame.
#[derive(Clone, Copy, Debug)]
pub struct LegHeights {
    pub filt: [i64; 4],
    /// A leg that has never touched down has no estimate.
    pub seen: [bool; 4],
}

/// What a live session asks of the stance.
#[derive(Clone, Copy, Debug, PartialEq, Eq, Structural)]
pub struct LiveStance {
    /// Trunk lift from the tuned height.
    pub lift_m: i64,
    /// Whether levelling from the feet is switched on.
    pub level_on: bool,
}

/// The terrain under the legs' nominal stance points.
#[derive(Clone, Copy, Debug)]
pub struct Underfoot {
    pub cfg: TerrainStanceCfg,
    pub z: [i64; 4],
}

/// What moves the stance this tick.
#[derive(Clone, Copy, Debug)]
pub struct StanceInputs {
    pub attack: Option<AttackCmd>,
    pub live: Option<LiveStance>,
    /// Whether the burn-in is over.
    pub walking: bool,
    pub proprio: Option<ProprioStanceCfg>,
    /// Height of each foot in the gravity-aligned frame.
    pub foot_h: [i64; 4],
    /// Normal force measured under each foot in the last tick.
    pub foot_fz: [i64; 4],
    /// Set where a terrain is known and levelled against.
    pub terrain: Option<Underfoot>,
    pub dt: i64,
}

/// A height difference turned into an offset.
pub open spec fn spec_offset(gain: int, diff: int, max_offset: int) -> int {
    spec_clamp(fmul(gain, diff), -max_offset, max_offset)
}

fn offset(gain: i64, diff: i128, max_offset: i64) -> (r: i64)
    requires
        max_offset >= 0,
        -0xffff_ffff_ffff_ffff <= diff <= 0xffff_ffff_ffff_ffff,
    ensures
        r == spec_offset(gain as int, diff as int, max_offset as int),
        -max_offset <= r <= max_offset,
{
    let want: i128 = scaled(gain, diff);
    if want > max_offset as i128 {
        max_offset
    } else if want < -(max_offset as i128) {
        -max_offset
    } else {
        want as i64
    }
}

/// The mean of four heights.
pub open spec fn mean4(z: [i64; 4]) -> int {
    round_div(z[0] + z[1] + z[2] + z[3], 4)
}

fn mean_of(z: &[i64; 4]) -> (r: i64)
    ensures
        r == mean4(*z),
{
    let sum: i128 = z[0] as i128 + z[1] as i128 + z[2] as i128 + z[3] as i128;
    proof {
        lemma_round_div_mono(sum as int, i64::MAX * 4, 4);
        lemma_round_div_exact(i64::MAX as int, 4);
        lemma_round_div_mono(i64::MIN * 4, sum as int, 4);
        lemma_round_div_exact(i64::MIN as int, 4);
    }
    div_round(sum, 4) as i64
}

impl LegHeights {
    pub fn new() -> (r: Self)
        ensures
            r.fresh(),
    {
        LegHeights { filt: [0, 0, 0, 0], seen: [false, false, false, false] }
    }

    /// No leg has been felt and no height is remembered.
    pub open spec fn fresh(self) -> bool {
        forall|i: int| 0 <= i < 4 ==> self.filt[i] == 0 && !#[trigger] self.seen[i]
    }

    /// Whether foot `i` is on the ground.
    pub open spec fn touching(inp: StanceInputs, i: int) -> bool {
        inp.foot_fz[i] > inp.proprio->0.contact_n
    }

    /// Whether the feet are being felt this tick.
    pub open spec fn feeling(inp: StanceInputs) -> bool {
        inp.proprio is Some && inp.walking && (inp.live is None || inp.live->0.level_on)
    }

    pub open spec fn spec_seen(self, inp: StanceInputs, i: int) -> bool {
        self.seen[i] || Self::feeling(inp) && Self::touching(inp, i)
    }

    /// The height remembered for leg `i` after this tick: a leg in contact
    /// eases toward what it feels, one in the air keeps its last stance.
    pub open spec fn spec_filt(self, inp: StanceInputs, i: int) -> int {
        if Self::feeling(inp) && Self::touching(inp, i) {
            if self.seen[i] {
                spec_ease(
                    self.filt[i] as int,
                    inp.foot_h[i] as int,
                    inp.dt as int,
                    inp.proprio->0.tau_s as int,
                )
            } else {
                inp.foot_h[i] as int
            }
        } else {
            self.filt[i] as int
        }
    }

    /// How many legs have been felt.
    pub open spec fn count(self) -> int {
        (if self.seen[0] {
            1int
        } else {
            0
        }) + (if self.seen[1] {
            1int
        } else {
            0
        }) + (if self.seen[2] {
            1int
        } else {
            0
        }) + (if self.seen[3] {
            1int
        } else {
            0
        })
    }

    /// The heights of the legs that have been felt, summed.
    pub open spec fn total(self) -> int {
        (if self.seen[0] {
            self.filt[0] as int
        } else {
            0
        }) + (if self.seen[1] {
            self.filt[1] as int
        } else {
            0
        }) + (if self.seen[2] {
            self.filt[2] as int
        } else {
            0
        }) + (if self.seen[3] {
            self.filt[3] as int
        } else {
            0
        })
    }

    /// The mean height of the legs that have been felt.
    pub open spec fn mean(self) -> int {
        round_div(self.total(), self.count())
    }

    /// Whether the stance is levelled from the feet this tick: some leg has
    /// been felt.
    pub open spec fn spec_levels(self, inp: StanceInputs) -> bool {
        Self::feeling(inp) && (self.spec_seen(inp, 0) || self.spec_seen(inp, 1) || self.spec_seen(
            inp,
            2,
        ) || self.spec_seen(inp, 3))
    }

    /// Whether the stance is levelled from the feet this tick.
    pub fn levels(&self, inp: &StanceInputs) -> (r: bool)
        ensures
            r == self.spec_levels(*inp),
    {
        let level_on = match inp.live {
            Some(l) => l.level_on,
            None => true,
        };
        match inp.proprio {
            Some(cfg) => {
                let n: i64 = cfg.contact_n;
                level_on && inp.walking && (self.seen[0] || self.seen[1] || self.seen[2]
                    || self.seen[3] || inp.foot_fz[0] > n || inp.foot_fz[1] > n || inp.foot_fz[2]
                    > n || inp.foot_fz[3] > n)
            },
            None => false,
        }
    }

    /// One leg's share of feeling the ground.
    fn feel(&mut self, inp: &StanceInputs, cfg: &ProprioStanceCfg, i: usize)
        requires
            i < 4,
            inp.proprio == Some(*cfg),
            Self::feeling(*inp),
        ensures
            final(self).seen[i as int] == old(self).spec_seen(*inp, i as int),
            final(self).filt[i as int] == old(self).spec_filt(*inp, i as int),
            forall|j: int|
                0 <= j < 4 && j != i ==> final(self).filt[j] == old(self).filt[j]
                    && #[trigger] final(self).seen[j] == old(self).seen[j],
    {
        if inp.foot_fz[i] > cfg.contact_n {
            if self.seen[i] {
                self.filt[i] = ease(self.filt[i], inp.foot_h[i], inp.dt, cfg.tau_s);
            } else {
                self.filt[i] = inp.foot_h[i];
                self.seen[i] = true;
            }
        }
    }

    /// The levelling offset of leg `i`, from what has been felt.
    pub open spec fn spec_felt_offset(self, cfg: ProprioStanceCfg, i: int) -> int {
        if self.count() > 0 && self.seen[i] {
            spec_offset(cfg.gain as int, self.filt[i] - self.mean(), cfg.max_offset_m as int)
        } else {
            0
        }
    }

    fn felt_offsets(&self, cfg: &ProprioStanceCfg) -> (r: Option<[i64; 4]>)
        requires
            self.count() > 0 ==> cfg.max_offset_m >= 0,
        ensures
            r is Some <==> self.count() > 0,
            r is Some ==> forall|i: int|
                0 <= i < 4 ==> #[trigger] r->0[i] == self.spec_felt_offset(*cfg, i),
    {
        let mut sum: i128 = 0;
        let mut n: i128 = 0;
        if self.seen[0] {
            sum = sum + self.filt[0] as i128;
            n = n + 1;
        }
        if self.seen[1] {
            sum = sum + self.filt[1] as i128;
            n = n + 1;
        }
        if self.seen[2] {
            sum = sum + self.filt[2] as i128;
            n = n + 1;
        }
        if self.seen[3] {
            sum = sum + self.filt[3] as i128;
            n = n + 1;
        }
        if n == 0 {
            return None;
        }
        assert(i64::MIN * n <= sum <= i64::MAX * n) by {
            assert(n == 1 || n == 2 || n == 3 || n == 4);
        }
        proof {
            lemma_round_div_mono(sum as int, i64::MAX * n, n as int);
            lemma_round_div_exact(i64::MAX as int, n as int);
            lemma_round_div_mono(i64::MIN * n, sum as int, n as int);
            lemma_round_div_exact(i64::MIN as int, n as int);
        }
        let mean: i128 = div_round(sum, n);
        let mut out: [i64; 4] = [0, 0, 0, 0];
        let mut i: usize = 0;
        while i < 4
            invariant
                i <= 4,
                cfg.max_offset_m >= 0,
                self.count() > 0,
                mean == self.mean(),
                i64::MIN <= mean <= i64::MAX,
                forall|j: int|
                    0 <= j < i ==> #[trigger] out[j] == self.spec_felt_offset(*cfg, j),
                forall|j: int| i <= j < 4 ==> #[trigger] out[j] == 0,
            decreases 4 - i,
        {
            if self.seen[i] {
                out[i] = offset(cfg.gain, self.filt[i] as i128 - mean, cfg.max_offset_m);
            }
            i = i + 1;
        }
        Some(out)
    }

    /// The attack's front crouch on leg `i`; the front pair is 0 and 1.
    pub open spec fn attack_offset(inp: StanceInputs, i: int) -> int {
        match inp.attack {
            Some(a) => if i < 2 && spec_abs(a.front_nom_off_m as int) > 1 {
                a.front_nom_off_m as int
            } else {
                0
            },
            None => 0,
        }
    }

    /// The live trunk lift. Raising the trunk lowers every nominal foot.
    pub open spec fn lift_offset(inp: StanceInputs) -> int {
        match inp.live {
            Some(l) => if spec_abs(l.lift_m as int) > 1 {
                -l.lift_m
            } else {
                0
            },
            None => 0,
        }
    }

    /// The terrain levelling offset of leg `i`.
    pub open spec fn terrain_offset(inp: StanceInputs, i: int) -> int {
        match inp.terrain {
            Some(u) => if inp.walking {
                spec_offset(u.cfg.gain as int, u.z[i] - mean4(u.z), u.cfg.max_offset_m as int)
            } else {
                0
            },
            None => 0,
        }
    }

    /// The levelling offset of leg `i` felt by the feet this tick, for the
    /// heights `after` it.
    pub open spec fn felt_offset(after: Self, inp: StanceInputs, i: int) -> int {
        if Self::feeling(inp) {
            after.spec_felt_offset(inp.proprio->0, i)
        } else {
            0
        }
    }

    /// Whether anything moves the stance this tick, given the heights
    /// `after` it.
    pub open spec fn moved(after: Self, inp: StanceInputs) -> bool {
        ||| inp.attack is Some && spec_abs(inp.attack->0.front_nom_off_m as int) > 1
        ||| inp.live is Some && spec_abs(inp.live->0.lift_m as int) > 1
        ||| Self::feeling(inp) && after.count() > 0
        ||| inp.terrain is Some && inp.walking
    }

    /// The offset of leg `i` this tick, given the heights `after` it: every
    /// cause adds its own.
    pub open spec fn spec_plan(after: Self, inp: StanceInputs, i: int) -> int {
        sat(
            Self::attack_offset(inp, i) + Self::lift_offset(inp) + Self::felt_offset(after, inp, i)
                + Self::terrain_offset(inp, i),
        )
    }

    /// Take in what the feet feel and add up this tick's offsets; nothing is
    /// returned when the stance is left where it last was.
    pub fn plan(&mut self, inp: &StanceInputs) -> (r: Option<[i64; 4]>)
        requires
            old(self).spec_levels(*inp) ==> inp.proprio->0.max_offset_m >= 0,
            inp.terrain is Some && inp.walking ==> inp.terrain->0.cfg.max_offset_m >= 0,
        ensures
            forall|i: int|
                0 <= i < 4 ==> {
                    &&& #[trigger] final(self).seen[i] == old(self).spec_seen(*inp, i)
                    &&& final(self).filt[i] == old(self).spec_filt(*inp, i)
                },
            r is Some <==> Self::moved(*final(self), *inp),
            r is Some ==> forall|i: int|
                0 <= i < 4 ==> #[trigger] r->0[i] == Self::spec_plan(
                    *final(self),
                    *inp,
                    i,
                ),
    {
        let front: i64 = attack_crouch(inp);
        let lift: i128 = trunk_lift(inp);
        let felt = self.feel_all(inp);
        let ground = ground_offsets(inp);
        let still = front == 0 && lift == 0 && felt.is_none() && ground.is_none();
        let f: [i64; 4] = match felt {
            Some(f) => f,
            None => [0, 0, 0, 0],
        };
        let g: [i64; 4] = match ground {
            Some(g) => g,
            None => [0, 0, 0, 0],
        };
        let crouch: i128 = front as i128 + lift;
        let r: [i64; 4] = [
            saturate(crouch + f[0] as i128 + g[0] as i128),
            saturate(crouch + f[1] as i128 + g[1] as i128),
            saturate(lift + f[2] as i128 + g[2] as i128),
            saturate(lift + f[3] as i128 + g[3] as i128),
        ];
        assert forall|i: int| 0 <= i < 4 implies #[trigger] r[i] == sat(
            Self::attack_offset(*inp, i) + Self::lift_offset(*inp) + Self::felt_offset(
                *self,
                *inp,
                i,
            ) + Self::terrain_offset(*inp, i),
        ) by {
            assert(f[i] == Self::felt_offset(*self, *inp, i));
            assert(g[i] == Self::terrain_offset(*inp, i));
        }
        if still {
            None
        } else {
            Some(r)
        }
    }

    /// Take in what the feet feel this tick.
    fn feel_all(&mut self, inp: &StanceInputs) -> (r: Option<[i64; 4]>)
        requires
            old(self).spec_levels(*inp) ==> inp.proprio->0.max_offset_m >= 0,
        ensures
            forall|i: int|
                0 <= i < 4 ==> {
                    &&& #[trigger] final(self).seen[i] == old(self).spec_seen(*inp, i)
                    &&& final(self).filt[i] == old(self).spec_filt(*inp, i)
                },
            r is Some <==> Self::feeling(*inp) && final(self).count() > 0,
            r is Some ==> forall|i: int|
                0 <= i < 4 ==> #[trigger] r->0[i] == Self::felt_offset(*final(self), *inp, i),
            r is None ==> forall|i: int|
                0 <= i < 4 ==> #[trigger] Self::felt_offset(*final(self), *inp, i) == 0,
    {
        let level_on = match inp.live {
            Some(l) => l.level_on,
            None => true,
        };
        match inp.proprio {
            Some(cfg) => {
                if level_on && inp.walking {
                    self.feel(inp, &cfg, 0);
                    self.feel(inp, &cfg, 1);
                    self.feel(inp, &cfg, 2);
                    self.feel(inp, &cfg, 3);
                    self.felt_offsets(&cfg)
                } else {
                    None
                }
            },
            None => None,
        }
    }
}

/// The attack's crouch of the front pair, where it is worth a move.
fn attack_crouch(inp: &StanceInputs) -> (r: i64)
    ensures
        r == LegHeights::attack_offset(*inp, 0),
        r == LegHeights::attack_offset(*inp, 1),
        LegHeights::attack_offset(*inp, 2) == 0,
        LegHeights::attack_offset(*inp, 3) == 0,
        r != 0 <==> inp.attack is Some && spec_abs(inp.attack->0.front_nom_off_m as int) > 1,
{
    match inp.attack {
        Some(a) => {
            if a.front_nom_off_m > 1 || a.front_nom_off_m < -1 {
                a.front_nom_off_m
            } else {
                0
            }
        },
        None => 0,
    }
}

/// The live trunk lift, where it is worth a move.
fn trunk_lift(inp: &StanceInputs) -> (r: i128)
    ensures
        r == LegHeights::lift_offset(*inp),
        -0x8000_0000_0000_0000 <= r <= 0x8000_0000_0000_0000,
        r != 0 <==> inp.live is Some && spec_abs(inp.live->0.lift_m as int) > 1,
{
    match inp.live {
        Some(l) => {
            if l.lift_m > 1 || l.lift_m < -1 {
                -(l.lift_m as i128)
            } else {
                0
            }
        },
        None => 0,
    }
}

/// The terrain levelling offsets, once walking on a known terrain.
fn ground_offsets(inp: &StanceInputs) -> (r: Option<[i64; 4]>)
    requires
        inp.terrain is Some && inp.walking ==> inp.terrain->0.cfg.max_offset_m >= 0,
    ensures
        r is Some <==> inp.terrain is Some && inp.walking,
        r is Some ==> forall|i: int|
            0 <= i < 4 ==> #[trigger] r->0[i] == LegHeights::terrain_offset(*inp, i),
        r is None ==> forall|i: int|
            0 <= i < 4 ==> #[trigger] LegHeights::terrain_offset(*inp, i) == 0,
{
    match inp.terrain {
        Some(u) => {
            if inp.walking {
                let cfg = u.cfg;
                let z: [i64; 4] = u.z;
                let mean: i64 = mean_of(&z);
                Some(
                    [
                        offset(cfg.gain, z[0] as i128 - mean as i128, cfg.max_offset_m),
                        offset(cfg.gain, z[1] as i128 - mean as i128, cfg.max_offset_m),
                        offset(cfg.gain, z[2] as i128 - mean as i128, cfg.max_offset_m),
                        offset(cfg.gain, z[3] as i128 - mean as i128, cfg.max_offset_m),
                    ],
                )
            } else {
                None
            }
        },
        None => None,
    }
}

/// A nominal foot height once its offset is applied to the baseline.
pub open spec fn spec_nominal(base: int, off: int) -> int {
    sat(base + off)
}

/// The nominal foot heights once the offsets are applied to the fixed
/// baseline, which is never the already-offset value, so nothing drifts.
pub fn nominal_heights(base: &[i64; 4], off: &[i64; 4]) -> (r: [i64; 4])
    ensures
        forall|i: int| 0 <= i < 4 ==> #[trigger] r[i] == spec_nominal(base[i] as int, off[i] as int),
{
    [
        saturate(base[0] as i128 + off[0] as i128),
        saturate(base[1] as i128 + off[1] as i128),
        saturate(base[2] as i128 + off[2] as i128),
        saturate(base[3] as i128 + off[3] as i128),
    ]
}

/// A levelling offset never exceeds its clamp.
pub proof fn law_offset_is_clamped(gain: int, diff: int, max_offset: int)
    requires
        max_offset >= 0,
    ensures
        -max_offset <= spec_offset(gain, diff, max_offset) <= max_offset,
{
}

/// Levelling with no gain, or with no height difference, does nothing.
pub proof fn law_no_difference_no_offset(gain: int, diff: int, max_offset: int)
    requires
        max_offset >= 0,
        gain == 0 || diff == 0,
    ensures
        spec_offset(gain, diff, max_offset) == 0,
{
    assert(gain * diff == 0) by (nonlinear_arith)
        requires
            gain == 0 || diff == 0,
    ;
    lemma_round_div_exact(0, ONE as int);
}

/// On flat terrain the terrain levelling leaves every leg alone.
pub proof fn law_flat_terrain_is_level(inp: StanceInputs, z: i64, i: int)
    requires
        inp.terrain is Some,
        inp.terrain->0.cfg.max_offset_m >= 0,
        forall|j: int| 0 <= j < 4 ==> #[trigger] inp.terrain->0.z[j] == z,
        0 <= i < 4,
    ensures
        LegHeights::terrain_offset(inp, i) == 0,
{
    let t = inp.terrain->0.z;
    assert(t[0] == z && t[1] == z && t[2] == z && t[3] == z);
    lemma_round_div_exact(z as int, 4);
    law_no_difference_no_offset(
        inp.terrain->0.cfg.gain as int,
        t[i] - mean4(t),
        inp.terrain->0.cfg.max_offset_m as int,
    );
}

/// Terrain levelling tilts the support without raising or lowering the body:
/// at full gain and short of the clamp, the four offsets add up to nothing
/// but the rounding of their mean.
pub proof fn law_terrain_offsets_balance(inp: StanceInputs)
    requires
        inp.walking,
        inp.terrain is Some,
        inp.terrain->0.cfg.gain == ONE,
        forall|j: int|
            0 <= j < 4 ==> spec_abs(#[trigger] inp.terrain->0.z[j] - mean4(inp.terrain->0.z))
                <= inp.terrain->0.cfg.max_offset_m,
    ensures
        -2 <= LegHeights::terrain_offset(inp, 0) + LegHeights::terrain_offset(inp, 1)
            + LegHeights::terrain_offset(inp, 2) + LegHeights::terrain_offset(inp, 3) <= 2,
{
    let z = inp.terrain->0.z;
    let m = mean4(z);
    lemma_round_div_near(z[0] + z[1] + z[2] + z[3], 4);
    assert forall|j: int| 0 <= j < 4 implies LegHeights::terrain_offset(inp, j) == #[trigger] z[j]
        - m by {
        assert(ONE * (z[j] - m) == (z[j] - m) * ONE);
        lemma_round_div_exact(z[j] - m, ONE as int);
    }
    assert(LegHeights::terrain_offset(inp, 0) == z[0] - m);
    assert(LegHeights::terrain_offset(inp, 1) == z[1] - m);
    assert(LegHeights::terrain_offset(inp, 2) == z[2] - m);
    assert(LegHeights::terrain_offset(inp, 3) == z[3] - m);
}

/// When every leg that has been felt stands at the same height, the felt
/// levelling leaves every leg alone.
pub proof fn law_level_feet_stay(h: LegHeights, cfg: ProprioStanceCfg, z: i64, i: int)
    requires
        cfg.max_offset_m >= 0,
        forall|j: int| 0 <= j < 4 && #[trigger] h.seen[j] ==> h.filt[j] == z,
        0 <= i < 4,
    ensures
        h.spec_felt_offset(cfg, i) == 0,
{
    if h.count() > 0 && h.seen[i] {
        let n = h.count();
        assert(h.seen[0] || h.seen[1] || h.seen[2] || h.seen[3]);
        assert(h.total() == z * n) by {
            assert(n == 1 || n == 2 || n == 3 || n == 4);
        }
        lemma_round_div_exact(z as int, n);
        law_no_difference_no_offset(cfg.gain as int, h.filt[i] - h.mean(), cfg.max_offset_m as int);
    }
}

/// Switching the levelling off in a live session freezes what has been felt
/// and takes the felt offsets away.
pub proof fn law_level_switch(h: LegHeights, inp: StanceInputs, i: int)
    requires
        inp.live is Some,
        !inp.live->0.level_on,
        0 <= i < 4,
    ensures
        h.spec_seen(inp, i) == h.seen[i],
        h.spec_filt(inp, i) == h.filt[i],
        LegHeights::felt_offset(h, inp, i) == 0,
{
}

/// A live trunk lift moves every foot by exactly as much the other way, up or
/// down, when nothing else moves the stance; a lift no larger than the
/// smallest step moves nothing.
pub proof fn law_trunk_lift(after: LegHeights, inp: StanceInputs, i: int)
    requires
        0 <= i < 4,
        inp.live is Some,
        inp.live->0.lift_m > -0x8000_0000_0000_0000,
        inp.attack is None,
        inp.proprio is None,
        inp.terrain is None,
    ensures
        ({
            let lift = inp.live->0.lift_m as int;
            &&& LegHeights::moved(after, inp) <==> lift > 1 || lift < -1
            &&& lift > 1 || lift < -1 ==> LegHeights::spec_plan(after, inp, i) == -lift
            &&& -1 <= lift <= 1 ==> LegHeights::spec_plan(after, inp, i) == 0
        }),
{
}

/// Lowering the trunk undoes raising it: the offset of minus a lift is minus
/// the offset of the lift, and a lowered trunk crouches every leg.
pub proof fn law_trunk_lift_is_odd(up: StanceInputs, down: StanceInputs)
    requires
        up.live is Some,
        down.live is Some,
        down.live->0.lift_m == -up.live->0.lift_m,
    ensures
        LegHeights::lift_offset(down) == -LegHeights::lift_offset(up),
        down.live->0.lift_m < -1 ==> LegHeights::lift_offset(down) > 0,
        up.live->0.lift_m > 1 ==> LegHeights::lift_offset(up) == -up.live->0.lift_m,
        up.live->0.lift_m < -1 ==> LegHeights::lift_offset(up) == -up.live->0.lift_m,
{
}

/// Without a live session nothing lifts the trunk.
pub proof fn law_no_session_no_lift(inp: StanceInputs)
    requires
        inp.live is None,
    ensures
        LegHeights::lift_offset(inp) == 0,
{
}

/// The attack crouches the two front legs by what it asks for, of either
/// sign, and leaves the hind legs alone.
pub proof fn law_attack_moves_the_front(after: LegHeights, inp: StanceInputs)
    requires
        inp.attack is Some,
        inp.live is None,
        inp.proprio is None,
        inp.terrain is None,
    ensures
        ({
            let drop = inp.attack->0.front_nom_off_m as int;
            let worth = drop > 1 || drop < -1;
            &&& LegHeights::moved(after, inp) <==> worth
            &&& worth ==> LegHeights::spec_plan(after, inp, 0) == drop
            &&& worth ==> LegHeights::spec_plan(after, inp, 1) == drop
            &&& !worth ==> LegHeights::spec_plan(after, inp, 0) == 0
            &&& !worth ==> LegHeights::spec_plan(after, inp, 1) == 0
            &&& LegHeights::spec_plan(after, inp, 2) == 0
            &&& LegHeights::spec_plan(after, inp, 3) == 0
        }),
{
}

/// What moves the stance adds up: each cause contributes what it would alone.
pub proof fn law_causes_add_up(after: LegHeights, inp: StanceInputs, i: int)
    ensures
        ({
            let sum = LegHeights::attack_offset(inp, i) + LegHeights::lift_offset(inp)
                + LegHeights::felt_offset(after, inp, i) + LegHeights::terrain_offset(inp, i);
            &&& i64::MIN <= sum <= i64::MAX ==> LegHeights::spec_plan(after, inp, i) == sum
            &&& sum > i64::MAX ==> LegHeights::spec_plan(after, inp, i) == i64::MAX
            &&& sum < i64::MIN ==> LegHeights::spec_plan(after, inp, i) == i64::MIN
        }),
{
}

/// An offset is the gain's share of a height difference, with its sign, up to
/// the clamp on either side.
pub proof fn law_offset_is_the_share(gain: int, diff: int, most: int)
    requires
        most >= 0,
    ensures
        ({
            let v = spec_offset(gain, diff, most);
            &&& -most < v < most ==> -1_000_000_000 <= 2 * (v * 1_000_000_000 - gain * diff)
                <= 1_000_000_000
            &&& v == most ==> 2 * gain * diff >= (2 * most - 1) * 1_000_000_000 || most == 0
            &&& v == -most ==> 2 * gain * diff <= (1 - 2 * most) * 1_000_000_000 || most == 0
            &&& gain * diff >= 0 ==> v >= 0
            &&& gain * diff <= 0 ==> v <= 0
        }),
{
    law_product_is_near(gain, diff);
    let w = fmul(gain, diff);
    assert(2 * gain * diff == 2 * (gain * diff)) by (nonlinear_arith);
}

/// Terrain levelling acts on a walking robot: every leg is moved by its share
/// of how far its ground lies above the mean of the four, and higher ground
/// crouches its leg at least as much.
pub proof fn law_terrain_levels(inp: StanceInputs, i: int, j: int)
    requires
        inp.terrain is Some,
        inp.terrain->0.cfg.max_offset_m >= 0,
        0 <= i < 4,
        0 <= j < 4,
    ensures
        ({
            let u = inp.terrain->0;
            let m = mean4(u.z);
            let v = LegHeights::terrain_offset(inp, i);
            &&& -2 <= 4 * m - (u.z[0] + u.z[1] + u.z[2] + u.z[3]) <= 2
            &&& !inp.walking ==> v == 0
            &&& inp.walking ==> v == spec_offset(
                u.cfg.gain as int,
                u.z[i] - m,
                u.cfg.max_offset_m as int,
            )
            &&& inp.walking && u.cfg.gain >= 0 && u.z[i] >= m ==> v >= 0
            &&& inp.walking && u.cfg.gain >= 0 && u.z[i] <= m ==> v <= 0
            &&& u.cfg.gain >= 0 && u.z[i] >= u.z[j] ==> v >= LegHeights::terrain_offset(inp, j)
        }),
{
    let u = inp.terrain->0;
    let m = mean4(u.z);
    let g = u.cfg.gain as int;
    lemma_round_div_near(u.z[0] + u.z[1] + u.z[2] + u.z[3], 4);
    let (a, b) = (u.z[i] - m, u.z[j] - m);
    law_offset_is_the_share(g, a, u.cfg.max_offset_m as int);
    assert(g >= 0 && a >= 0 ==> g * a >= 0) by (nonlinear_arith);
    assert(g >= 0 && a <= 0 ==> g * a <= 0) by (nonlinear_arith);
    if g >= 0 && a >= b {
        assert(g * b <= g * a) by (nonlinear_arith)
            requires
                g >= 0,
                a >= b,
        ;
        lemma_round_div_mono(g * b, g * a, ONE as int);
    }
}

/// The feet are felt once the robot walks with the sensing set up, unless a
/// live session has switched the levelling off.
pub proof fn law_when_feet_are_felt(inp: StanceInputs, i: int)
    ensures
        inp.proprio is None ==> !LegHeights::feeling(inp),
        !inp.walking ==> !LegHeights::feeling(inp),
        inp.live is Some && !inp.live->0.level_on ==> !LegHeights::feeling(inp),
        inp.proprio is Some && inp.walking && inp.live is None ==> LegHeights::feeling(inp),
        inp.proprio is Some && inp.walking && inp.live is Some && inp.live->0.level_on
            ==> LegHeights::feeling(inp),
        inp.proprio is Some ==> (LegHeights::touching(inp, i) <==> inp.proprio->0.contact_n
            < inp.foot_fz[i]),
{
}

/// A foot in contact remembers the height it first felt and then eases toward
/// what it feels; a foot in the air remembers its last stance.
pub proof fn law_remembered_height(h: LegHeights, inp: StanceInputs, i: int)
    requires
        0 <= i < 4,
        LegHeights::feeling(inp),
        inp.proprio->0.tau_s > 0,
        0 <= inp.dt <= inp.proprio->0.tau_s,
    ensures
        ({
            let tau = inp.proprio->0.tau_s as int;
            let (was, now) = (h.filt[i] as int, h.spec_filt(inp, i));
            &&& inp.foot_fz[i] <= inp.proprio->0.contact_n ==> now == was && h.spec_seen(inp, i)
                == h.seen[i]
            &&& inp.foot_fz[i] > inp.proprio->0.contact_n ==> h.spec_seen(inp, i)
            &&& inp.foot_fz[i] > inp.proprio->0.contact_n && !h.seen[i] ==> now == inp.foot_h[i]
            &&& inp.foot_fz[i] > inp.proprio->0.contact_n && h.seen[i] ==> -tau <= 2 * ((now - was)
                * tau - (inp.foot_h[i] - was) * inp.dt) <= tau
        }),
{
    law_ease(
        h.filt[i] as int,
        inp.foot_h[i] as int,
        inp.dt as int,
        inp.proprio->0.tau_s as int,
    );
}

/// The mean is over the legs that have been felt, each counted once: a leg
/// that is felt for the first time adds itself to the count and its height to
/// the sum, and what is remembered for a leg never felt does not matter.
pub proof fn law_mean_is_over_the_felt(h: LegHeights, g: LegHeights, i: int)
    requires
        0 <= i < 4,
        !h.seen[i],
        forall|j: int|
            0 <= j < 4 && j != i ==> #[trigger] g.seen[j] == h.seen[j] && g.filt[j] == h.filt[j],
    ensures
        g.seen[i] ==> g.count() == h.count() + 1 && g.total() == h.total() + g.filt[i],
        !g.seen[i] ==> g.count() == h.count() && g.total() == h.total(),
        h.fresh() ==> h.count() == 0 && h.total() == 0,
        h.count() > 0 ==> -h.count() <= 2 * (h.mean() * h.count() - h.total()) <= h.count(),
{
    assert(forall|j: int|
        0 <= j < 4 && j != i ==> g.seen[j] == h.seen[j] && g.filt[j] == #[trigger] h.filt[j]);
    if h.count() > 0 {
        lemma_round_div_near(h.total(), h.count());
    }
}

/// A leg that has been felt is moved by its share of how far its ground lies
/// above the mean; one that has not is left alone.
pub proof fn law_felt_levels(h: LegHeights, inp: StanceInputs, i: int, j: int)
    requires
        0 <= i < 4,
        0 <= j < 4,
        LegHeights::feeling(inp),
        inp.proprio->0.max_offset_m >= 0,
        h.count() > 0,
    ensures
        ({
            let cfg = inp.proprio->0;
            let v = LegHeights::felt_offset(h, inp, i);
            &&& !h.seen[i] ==> v == 0
            &&& h.seen[i] ==> v == spec_offset(
                cfg.gain as int,
                h.filt[i] - h.mean(),
                cfg.max_offset_m as int,
            )
            &&& h.seen[i] && cfg.gain >= 0 && h.filt[i] >= h.mean() ==> v >= 0
            &&& h.seen[i] && cfg.gain >= 0 && h.filt[i] <= h.mean() ==> v <= 0
            &&& h.seen[i] && h.seen[j] && cfg.gain >= 0 && h.filt[i] >= h.filt[j] ==> v
                >= LegHeights::felt_offset(h, inp, j)
        }),
{
    let cfg = inp.proprio->0;
    let g = cfg.gain as int;
    let (a, b) = (h.filt[i] - h.mean(), h.filt[j] - h.mean());
    law_offset_is_the_share(g, a, cfg.max_offset_m as int);
    assert(g >= 0 && a >= 0 ==> g * a >= 0) by (nonlinear_arith);
    assert(g >= 0 && a <= 0 ==> g * a <= 0) by (nonlinear_arith);
    if g >= 0 && a >= b {
        assert(g * b <= g * a) by (nonlinear_arith)
            requires
                g >= 0,
                a >= b,
        ;
        lemma_round_div_mono(g * b, g * a, ONE as int);
    }
}

/// The stance is left where it was exactly when nothing asks for a move.
pub proof fn law_when_the_stance_moves(after: LegHeights, inp: StanceInputs)
    ensures
        inp.terrain is Some && inp.walking ==> LegHeights::moved(after, inp),
        LegHeights::feeling(inp) && (after.seen[0] || after.seen[1] || after.seen[2]
            || after.seen[3]) ==> LegHeights::moved(after, inp),
        !LegHeights::moved(after, inp) ==> forall|i: int|
            0 <= i < 4 ==> #[trigger] LegHeights::spec_plan(after, inp, i) == 0,
        inp.attack is None && inp.live is None && !LegHeights::feeling(inp) && !inp.walking
            ==> !LegHeights::moved(after, inp),
{
}

/// An offset moves the nominal height by itself, from the baseline.
pub proof fn law_nominal_height(base: i64, off: i64)
    ensures
        i64::MIN <= base + off <= i64::MAX ==> spec_nominal(base as int, off as int) == base + off,
        base + off > i64::MAX ==> spec_nominal(base as int, off as int) == i64::MAX,
        base + off < i64::MIN ==> spec_nominal(base as int, off as int) == i64::MIN,
{
}

/// The stance is levelled from the feet once one has been felt, now or
/// before, while they are felt at all.
pub proof fn law_when_feet_level(h: LegHeights, inp: StanceInputs, i: int)
    requires
        0 <= i < 4,
    ensures
        !LegHeights::feeling(inp) ==> !h.spec_levels(inp),
        LegHeights::feeling(inp) && h.seen[i] ==> h.spec_levels(inp),
        LegHeights::feeling(inp) && inp.foot_fz[i] > inp.proprio->0.contact_n ==> h.spec_levels(inp),
        h.fresh() && (forall|k: int|
            0 <= k < 4 ==> #[trigger] inp.foot_fz[k] <= inp.proprio->0.contact_n)
            ==> !h.spec_levels(inp),
{
    if h.fresh() && (forall|k: int|
        0 <= k < 4 ==> #[trigger] inp.foot_fz[k] <= inp.proprio->0.contact_n) {
        assert(!h.seen[0] && !h.seen[1] && !h.seen[2] && !h.seen[3]);
        assert(inp.foot_fz[0] <= inp.proprio->0.contact_n);
        assert(inp.foot_fz[1] <= inp.proprio->0.contact_n);
        assert(inp.foot_fz[2] <= inp.proprio->0.contact_n);
        assert(inp.foot_fz[3] <= inp.proprio->0.contact_n);
    }
}

} // verus!

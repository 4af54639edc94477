//! Getting the robot off its back.
//!
//! An open-loop joint trajectory with three regimes, switched on one measured
//! quantity (the trunk's world +z) plus one sign (which side of the trunk is
//! underneath). Both come from the accelerometer, so nothing here needs more
//! than an IMU and joint encoders. Angles are nanoradians, times nanoseconds,
//! and the trunk's +z runs from `-ONE` (on its back) to `ONE` (upright).
use crate::fixed::{
    abs, clamp, div_round, fmul, is_isqrt, isqrt, law_length, law_product_is_near, law_root,
    law_share_is_near, lemma_isqrt_bound, lemma_isqrt_unique, lemma_lerp, lemma_round_div_exact,
    lemma_round_div_mono, lemma_round_div_near, lemma_round_div_odd, length_sq, lerp, max, mix,
    norm_sq, plus, round_div, sat, spec_abs, spec_clamp, spec_max, spec_min, sqrt, times, ONE,
};
use vstd::prelude::*;

verus! {

/// Joint order used throughout: FL, FR, RL, RR, each `[hip, thigh, calf]`.
pub type LegTargets = [[i64; 3]; 4];

/// Hip roll limits per side. Left legs (FL, RL) and right legs (FR, RR) are
/// mirrored, so equal pushes left and right are not equally available.
pub const HIP_LIMIT_L: (i64, i64) = (-785_000_000, 1_050_000_000);

pub const HIP_LIMIT_R: (i64, i64) = (-1_050_000_000, 785_000_000);

pub const THIGH_LIMIT: (i64, i64) = (-2_620_000_000, 2_620_000_000);

pub const CALF_LIMIT: (i64, i64) = (-2_620_000_000, 2_620_000_000);

pub const ARM_LIMIT: (i64, i64) = (-2_300_000_000, 850_000_000);

/// The pose the robot holds when it is not recovering.
pub const STANCE: [i64; 3] = [0, 900_000_000, -1_800_000_000];

/// The legs on top during the finish, folded so that they cannot prop the
/// body up and stall the roll.
pub const FOLD: [i64; 3] = [0, 2_500_000_000, -2_600_000_000];

/// Above this much trunk +z the recovery is over and the robot just stands.
pub const UPRIGHT_UP: i64 = 850_000_000;

/// Which side is down is latched once gravity's y component passes this.
pub const MIRROR_LATCH: i64 = 350_000_000;

/// Number of searchable dimensions; see [`RecoveryParams::to_vec`].
pub const DIM: usize = 19;

/// Per-dimension search bounds, in the order of [`RecoveryParams::to_vec`].
/// Every one is a joint limit or a duration the body can act on, so no
/// candidate is unphysical.
pub const BOUNDS: [(i64, i64); 19] = [
    (400_000_000, 12_000_000_000),
    (100_000_000, 900_000_000),
    (0, 2_000_000_000),
    HIP_LIMIT_L,
    HIP_LIMIT_R,
    HIP_LIMIT_L,
    HIP_LIMIT_R,
    THIGH_LIMIT,
    CALF_LIMIT,
    THIGH_LIMIT,
    CALF_LIMIT,
    ARM_LIMIT,
    ARM_LIMIT,
    (-200_000_000, 800_000_000),
    HIP_LIMIT_L,
    THIGH_LIMIT,
    CALF_LIMIT,
    (300_000_000, 8_000_000_000),
    (500_000_000, 8_000_000_000),
];

// The named trajectories below list the fields of `RecoveryParams` in order,
// the two hip pairs as left then right; `RecoveryParams::of` reads them.

/// The best plan written by hand: a short symmetric splay pulse every two
/// seconds with the arm stepped down. A starting point for the search: it
/// rolls onto its side every time and stops there.
pub const PROBE_BEST: [i64; 23] = [
    2_000_000_000, 500_000_000, 100_000_000, 1_050_000_000,
    785_000_000, 0, 0, 0,
    -500_000_000, 900_000_000, -1_800_000_000, -2_300_000_000,
    850_000_000, 600_000_000, 1_050_000_000, 200_000_000,
    -500_000_000, 850_000_000, 0, 900_000_000,
    -1_800_000_000, 1_000_000_000_000, 4_000_000_000,
];

/// First result of the search.
pub const SEARCHED_V1: [i64; 23] = [
    1_812_668_797, 694_464_463, 115_224_864, 962_020_407,
    754_677_195, -391_849_313, 166_462_407, -774_712_182,
    -934_081_934, -2_089_066_103, -1_972_190_566, -2_110_021_722,
    158_832_748, 746_705_929, 668_100_797, -48_195_124,
    -167_626_778, 850_000_000, 0, 900_000_000,
    -1_800_000_000, 1_000_000_000_000, 4_000_000_000,
];

/// Second result.
pub const SEARCHED_V2: [i64; 23] = [
    1_882_688_759, 719_182_588, 142_826_980, 847_499_531,
    676_897_797, -564_989_021, -170_809_528, -1_583_573_076,
    -823_562_221, -1_959_644_089, -2_317_683_612, -2_028_048_343,
    147_201_639, 685_746_642, 691_070_569, -115_304_371,
    -241_754_855, 850_000_000, 238_201_072, 767_670_264,
    -2_087_272_706, 1_000_000_000_000, 4_000_000_000,
];

/// Third result. It stands in a crouch of its own.
pub const SEARCHED_V3: [i64; 23] = [
    1_635_090_003, 682_683_492, 170_844_457, 807_342_422,
    359_712_469, -738_044_220, -366_948_099, -1_709_057_563,
    -1_267_145_364, -1_962_742_823, -1_947_691_046, -1_926_975_318,
    -209_380_944, 737_781_025, 812_449_246, -2_102_460_663,
    -649_774_684, 850_000_000, 760_791_462, 2_620_000_000,
    -110_861_246, 1_000_000_000_000, 4_000_000_000,
];

/// Fourth result, scored with the hand-back to a normal stance.
pub const SEARCHED_V4: [i64; 23] = [
    1_190_846_481, 702_322_087, 125_043_860, 891_804_057,
    -26_533_764, -551_193_408, -640_600_221, -1_906_613_466,
    -877_997_026, -2_266_426_420, -2_620_000_000, -1_725_015_111,
    -77_623_218, 659_521_795, 701_343_900, -2_119_120_223,
    -1_107_535_851, 850_000_000, 759_140_698, 2_593_111_185,
    1_985_082_737, 1_000_000_000_000, 4_000_000_000,
];

/// First result of the search for an unhurried recovery.
pub const GENTLE_V1: [i64; 23] = [
    5_000_000_000, 831_231_286, 412_767_545, 1_027_413_677,
    -370_072_424, -587_245_827, -653_888_279, -2_275_770_963,
    -1_290_987_376, -1_928_576_929, -2_620_000_000, -1_670_978_746,
    194_354_724, 795_407_740, 928_151_987, -2_156_085_799,
    -273_950_623, 850_000_000, 279_087_319, 2_300_333_873,
    1_974_560_894, 1_500_000_000, 4_000_000_000,
];

/// Second, with the stance pinned.
pub const GENTLE_V2: [i64; 23] = [
    4_881_933_524, 840_165_582, 248_266_372, 878_523_495,
    -218_509_596, -542_827_424, -403_494_973, -2_449_161_637,
    -1_759_248_683, -1_331_208_881, -2_244_642_917, -1_941_360_711,
    234_780_577, 794_287_213, 1_009_482_221, -2_533_666_830,
    261_741_845, 850_000_000, 0, 900_000_000,
    -1_800_000_000, 1_435_983_899, 4_968_451_683,
];

/// Third.
pub const GENTLE_V3: [i64; 23] = [
    6_719_088_096, 674_526_389, 917_826_824, 930_119_755,
    -68_122_228, -785_000_000, -341_889_472, -2_399_749_983,
    -2_010_914_672, -1_666_723_288, -1_985_006_524, -2_146_331_350,
    169_914_890, 718_046_125, 746_409_850, -1_145_790_616,
    460_186_194, 850_000_000, 0, 900_000_000,
    -1_800_000_000, 1_432_081_930, 6_816_908_615,
];

/// What the `V` key runs: the unhurried recovery.
pub const RECOVERY_GENTLE: [i64; 23] = GENTLE_V3;

/// What `Shift`+`V` runs: the reliable one, which rocks up momentum and
/// throws the body over.
pub const RECOVERY_FAST: [i64; 23] = SEARCHED_V4;

/// An open-loop recovery trajectory.
///
/// Below `handoff_up` the legs rock: `push_frac` of each `period_s` at the
/// push pose and the rest back at the rest pose, with `ramp_s` to move
/// between them. From `handoff_up` to [`UPRIGHT_UP`] the legs underneath
/// extend to push the trunk across while the others fold. Above that the
/// robot holds [`STANCE`].
#[derive(Clone, Copy, Debug, PartialEq)]
pub struct RecoveryParams {
    pub period_s: i64,
    pub push_frac: i64,
    pub ramp_s: i64,
    /// Hip roll in the push pose, `[left, right]`.
    pub hip_push: [i64; 2],
    /// Hip roll in the rest pose, `[left, right]`.
    pub hip_rest: [i64; 2],
    pub thigh_push: i64,
    pub calf_push: i64,
    pub thigh_rest: i64,
    pub calf_rest: i64,
    pub arm_push: i64,
    pub arm_rest: i64,
    /// Trunk +z at which the rock hands over to the finish.
    pub handoff_up: i64,
    /// Hip roll magnitude of the legs underneath during the finish.
    pub finish_hip: i64,
    pub finish_thigh: i64,
    pub finish_calf: i64,
    pub finish_arm: i64,
    /// Not searched: pinned to [`STANCE`] in every searched candidate.
    pub stand_hip: i64,
    pub stand_thigh: i64,
    pub stand_calf: i64,
    /// Ceiling on how fast any commanded joint angle may move (per second).
    pub max_rate_rad_s: i64,
    /// The same ceiling for the return to a normal stance.
    pub stand_rate_rad_s: i64,
}

/// The remainder of `t / p` with the sign of `t`.
pub open spec fn trunc_rem(t: int, p: int) -> int {
    if t >= 0 {
        t % p
    } else {
        -((-t) % p)
    }
}

/// Element `i` of a search vector, brought into its bounds.
#[verifier::opaque]
spec fn bounded_at(v: Seq<i64>, i: int) -> int {
    spec_clamp(v[i] as int, BOUNDS[i].0 as int, BOUNDS[i].1 as int)
}

proof fn lemma_bounded(v: Seq<i64>, i: int)
    requires
        0 <= i < DIM,
    ensures
        BOUNDS[i].0 <= bounded_at(v, i) <= BOUNDS[i].1,
        BOUNDS[i].0 <= v[i] <= BOUNDS[i].1 ==> bounded_at(v, i) == v[i],
{
    reveal(bounded_at);
    assert(BOUNDS[i].0 <= BOUNDS[i].1);
}

fn bounded(v: &[i64; 19], i: usize) -> (r: i64)
    requires
        i < DIM,
    ensures
        r == bounded_at(v@, i as int),
{
    reveal(bounded_at);
    clamp(v[i], BOUNDS[i].0, BOUNDS[i].1)
}

impl RecoveryParams {
    /// The searchable fields in the order of [`BOUNDS`].
    pub open spec fn spec_vec(self) -> Seq<i64> {
        seq![
            self.period_s,
            self.push_frac,
            self.ramp_s,
            self.hip_push[0],
            self.hip_push[1],
            self.hip_rest[0],
            self.hip_rest[1],
            self.thigh_push,
            self.calf_push,
            self.thigh_rest,
            self.calf_rest,
            self.arm_push,
            self.arm_rest,
            self.handoff_up,
            self.finish_hip,
            self.finish_thigh,
            self.finish_calf,
            self.max_rate_rad_s,
            self.stand_rate_rad_s,
        ]
    }

    /// The fields that are not searched hold their fixed values.
    pub open spec fn pinned(self) -> bool {
        &&& self.finish_arm == ARM_LIMIT.1
        &&& self.stand_hip == STANCE[0]
        &&& self.stand_thigh == STANCE[1]
        &&& self.stand_calf == STANCE[2]
    }

    /// A trajectory the search may produce: inside [`BOUNDS`] and pinned.
    pub open spec fn legal(self) -> bool {
        &&& self.pinned()
        &&& forall|i: int| 0 <= i < DIM ==> BOUNDS[i].0 <= #[trigger] self.spec_vec()[i] <= BOUNDS[i].1
    }

    /// The trajectory that a row of 23 numbers describes.
    pub open spec fn spec_of(row: Seq<i64>) -> Self {
        RecoveryParams {
            period_s: row[0],
            push_frac: row[1],
            ramp_s: row[2],
            hip_push: [row[3], row[4]],
            hip_rest: [row[5], row[6]],
            thigh_push: row[7],
            calf_push: row[8],
            thigh_rest: row[9],
            calf_rest: row[10],
            arm_push: row[11],
            arm_rest: row[12],
            handoff_up: row[13],
            finish_hip: row[14],
            finish_thigh: row[15],
            finish_calf: row[16],
            finish_arm: row[17],
            stand_hip: row[18],
            stand_thigh: row[19],
            stand_calf: row[20],
            max_rate_rad_s: row[21],
            stand_rate_rad_s: row[22],
        }
    }

    /// The trajectory that one of the tables above describes.
    pub fn of(row: &[i64; 23]) -> (r: Self)
        ensures
            r == Self::spec_of(row@),
    {
        RecoveryParams {
            period_s: row[0],
            push_frac: row[1],
            ramp_s: row[2],
            hip_push: [row[3], row[4]],
            hip_rest: [row[5], row[6]],
            thigh_push: row[7],
            calf_push: row[8],
            thigh_rest: row[9],
            calf_rest: row[10],
            arm_push: row[11],
            arm_rest: row[12],
            handoff_up: row[13],
            finish_hip: row[14],
            finish_thigh: row[15],
            finish_calf: row[16],
            finish_arm: row[17],
            stand_hip: row[18],
            stand_thigh: row[19],
            stand_calf: row[20],
            max_rate_rad_s: row[21],
            stand_rate_rad_s: row[22],
        }
    }

    /// The searchable fields as a vector.
    pub fn to_vec(&self) -> (r: [i64; 19])
        ensures
            r@ == self.spec_vec(),
    {
        [
            self.period_s,
            self.push_frac,
            self.ramp_s,
            self.hip_push[0],
            self.hip_push[1],
            self.hip_rest[0],
            self.hip_rest[1],
            self.thigh_push,
            self.calf_push,
            self.thigh_rest,
            self.calf_rest,
            self.arm_push,
            self.arm_rest,
            self.handoff_up,
            self.finish_hip,
            self.finish_thigh,
            self.finish_calf,
            self.max_rate_rad_s,
            self.stand_rate_rad_s,
        ]
    }

    /// Inverse of [`RecoveryParams::to_vec`], clamping each element into
    /// [`BOUNDS`] so that a search that samples outside them still yields a
    /// legal trajectory.
    pub fn from_vec(v: &[i64; 19]) -> (r: Self)
        ensures
            r.legal(),
            forall|i: int|
                0 <= i < DIM ==> #[trigger] r.spec_vec()[i] == spec_clamp(
                    v[i] as int,
                    BOUNDS[i].0 as int,
                    BOUNDS[i].1 as int,
                ),
    {
        let r = RecoveryParams {
            period_s: bounded(v, 0),
            push_frac: bounded(v, 1),
            ramp_s: bounded(v, 2),
            hip_push: [bounded(v, 3), bounded(v, 4)],
            hip_rest: [bounded(v, 5), bounded(v, 6)],
            thigh_push: bounded(v, 7),
            calf_push: bounded(v, 8),
            thigh_rest: bounded(v, 9),
            calf_rest: bounded(v, 10),
            arm_push: bounded(v, 11),
            arm_rest: bounded(v, 12),
            handoff_up: bounded(v, 13),
            finish_hip: bounded(v, 14),
            finish_thigh: bounded(v, 15),
            finish_calf: bounded(v, 16),
            finish_arm: ARM_LIMIT.1,
            stand_hip: STANCE[0],
            stand_thigh: STANCE[1],
            stand_calf: STANCE[2],
            max_rate_rad_s: bounded(v, 17),
            stand_rate_rad_s: bounded(v, 18),
        };
        assert forall|i: int| 0 <= i < DIM implies #[trigger] r.spec_vec()[i] == bounded_at(v@, i)
            && BOUNDS[i].0 <= r.spec_vec()[i] <= BOUNDS[i].1 by {
            lemma_bounded(v@, i);
        }
        assert forall|i: int| 0 <= i < DIM implies #[trigger] r.spec_vec()[i] == spec_clamp(
            v[i] as int,
            BOUNDS[i].0 as int,
            BOUNDS[i].1 as int,
        ) by {
            reveal(bounded_at);
        }
        r
    }

    /// The rock cycle's ramp, at least a tenth of a millisecond.
    pub open spec fn spec_ramp(self) -> int {
        spec_max(self.ramp_s as int, 100_000)
    }

    /// How far through the rock cycle `t` is.
    pub open spec fn spec_phase(self, t: int) -> int {
        trunc_rem(t, spec_max(self.period_s as int, 1_000_000))
    }

    /// When in the cycle the push ends.
    pub open spec fn spec_push_end(self) -> int {
        sat(fmul(spec_max(self.period_s as int, 1_000_000), self.push_frac as int))
    }

    /// How much of the ramp toward the push pose has been taken: 0 at the
    /// rest pose, `spec_ramp` at the push pose.
    pub open spec fn spec_weight(self, t: int) -> int {
        let phase = self.spec_phase(t);
        let ramp = self.spec_ramp();
        if phase < self.spec_push_end() {
            spec_clamp(phase, 0, ramp)
        } else {
            ramp - spec_clamp(phase - self.spec_push_end(), 0, ramp)
        }
    }

    /// Between the rest value and the push value, at time `t` of the rock.
    pub open spec fn spec_rock(self, rest: i64, push: i64, t: int) -> int {
        lerp(rest as int, push as int, self.spec_weight(t), self.spec_ramp())
    }

    /// The arm's target.
    pub open spec fn spec_arm(self, t: int, up: int) -> int {
        if up >= UPRIGHT_UP {
            ARM_LIMIT.1 as int
        } else if up >= self.handoff_up {
            self.finish_arm as int
        } else {
            self.spec_rock(self.arm_rest, self.arm_push, t)
        }
    }

    /// The target of joint `k` of leg `l`; legs 0 and 2 are the left ones.
    pub open spec fn spec_leg(self, t: int, up: int, g_body_y: int, l: int, k: int) -> int {
        let left = l == 0 || l == 2;
        let side = if left {
            0int
        } else {
            1int
        };
        if up >= UPRIGHT_UP {
            STANCE[k] as int
        } else if up >= self.handoff_up {
            if left != (g_body_y > 0) {
                FOLD[k] as int
            } else if k == 0 {
                if left {
                    spec_min(spec_abs(self.finish_hip as int), HIP_LIMIT_L.1 as int)
                } else {
                    spec_max(-spec_abs(self.finish_hip as int), HIP_LIMIT_R.0 as int)
                }
            } else if k == 1 {
                self.finish_thigh as int
            } else {
                self.finish_calf as int
            }
        } else if k == 0 {
            self.spec_rock(self.hip_rest[side], self.hip_push[side], t)
        } else if k == 1 {
            self.spec_rock(self.thigh_rest, self.thigh_push, t)
        } else {
            self.spec_rock(self.calf_rest, self.calf_push, t)
        }
    }

    /// `legs` is where this trajectory wants the legs.
    pub open spec fn legs_match(self, legs: LegTargets, t: int, up: int, g_body_y: int) -> bool {
        forall|l: int, k: int|
            0 <= l < 4 && 0 <= k < 3 ==> #[trigger] legs[l][k] == self.spec_leg(t, up, g_body_y, l, k)
    }

    /// This trajectory with the rock swapped left for right: each side takes
    /// the other's hip angle negated, held to its own limits.
    pub open spec fn spec_mirrored(self) -> Self {
        RecoveryParams {
            hip_push: [
                spec_mirror_hip(self.hip_push[1], HIP_LIMIT_L),
                spec_mirror_hip(self.hip_push[0], HIP_LIMIT_R),
            ],
            hip_rest: [
                spec_mirror_hip(self.hip_rest[1], HIP_LIMIT_L),
                spec_mirror_hip(self.hip_rest[0], HIP_LIMIT_R),
            ],
            ..self
        }
    }

    /// This trajectory with the rock cycle swapped left for right.
    pub fn mirrored(&self) -> (m: Self)
        ensures
            m == self.spec_mirrored(),
    {
        RecoveryParams {
            hip_push: [
                mirror_hip(self.hip_push[1], HIP_LIMIT_L),
                mirror_hip(self.hip_push[0], HIP_LIMIT_R),
            ],
            hip_rest: [
                mirror_hip(self.hip_rest[1], HIP_LIMIT_L),
                mirror_hip(self.hip_rest[0], HIP_LIMIT_R),
            ],
            ..*self
        }
    }

    /// This trajectory, or its mirror image.
    pub open spec fn facing(self, mirror: bool) -> Self {
        if mirror {
            self.spec_mirrored()
        } else {
            self
        }
    }

    /// Joint targets at time `t` into the recovery, arm first.
    ///
    /// `up` is the trunk's own +z in world coordinates and `g_body_y` is
    /// gravity's y component in the trunk frame, whose sign says which side
    /// is underneath.
    pub fn targets(&self, t: i64, up: i64, g_body_y: i64) -> (r: (i64, LegTargets))
        ensures
            r.0 == self.spec_arm(t as int, up as int),
            self.legs_match(r.1, t as int, up as int, g_body_y as int),
    {
        if up >= UPRIGHT_UP {
            return (ARM_LIMIT.1, [STANCE, STANCE, STANCE, STANCE]);
        }
        if up >= self.handoff_up {
            let hip: i128 = abs(self.finish_hip);
            let fold: [i64; 3] = FOLD;
            if g_body_y > 0 {
                let h: i64 = if hip <= HIP_LIMIT_L.1 as i128 {
                    hip as i64
                } else {
                    HIP_LIMIT_L.1
                };
                let push: [i64; 3] = [h, self.finish_thigh, self.finish_calf];
                return (self.finish_arm, [push, fold, push, fold]);
            }
            let h: i64 = if -hip >= HIP_LIMIT_R.0 as i128 {
                (-hip) as i64
            } else {
                HIP_LIMIT_R.0
            };
            let push: [i64; 3] = [h, self.finish_thigh, self.finish_calf];
            return (self.finish_arm, [fold, push, fold, push]);
        }
        let period: i64 = max(self.period_s, 1_000_000);
        let phase: i64 = t % period;
        let push_end: i64 = times(period, self.push_frac);
        let ramp: i64 = max(self.ramp_s, 100_000);
        let w: i64 = if phase < push_end {
            clamp(phase, 0, ramp)
        } else {
            let past: i128 = phase as i128 - push_end as i128;
            if past > ramp as i128 {
                0
            } else {
                ramp - past as i64
            }
        };
        assert(w == self.spec_weight(t as int));
        let den: i128 = ramp as i128;
        let hip_l: i64 = mix(self.hip_rest[0], self.hip_push[0], w, den);
        let hip_r: i64 = mix(self.hip_rest[1], self.hip_push[1], w, den);
        let thigh: i64 = mix(self.thigh_rest, self.thigh_push, w, den);
        let calf: i64 = mix(self.calf_rest, self.calf_push, w, den);
        let arm: i64 = mix(self.arm_rest, self.arm_push, w, den);
        let left: [i64; 3] = [hip_l, thigh, calf];
        let right: [i64; 3] = [hip_r, thigh, calf];
        (arm, [left, right, left, right])
    }

    /// [`RecoveryParams::targets`], with `mirror` swapping the rock cycle
    /// left for right.
    ///
    /// The cycle's hip angles are fixed per side, so without this the robot
    /// always rocks the same way in its own frame, which from one of the two
    /// sides means pushing into the ground it is already lying on.
    pub fn targets_mirrored(&self, t: i64, up: i64, g_body_y: i64, mirror: bool) -> (r: (
        i64,
        LegTargets,
    ))
        ensures
            r.0 == self.spec_arm(t as int, up as int),
            self.facing(mirror).legs_match(r.1, t as int, up as int, g_body_y as int),
    {
        if !mirror {
            return self.targets(t, up, g_body_y);
        }
        let m = self.mirrored();
        m.targets(t, up, g_body_y)
    }
}

pub open spec fn spec_mirror_hip(angle: i64, limit: (i64, i64)) -> i64 {
    spec_clamp(-angle, limit.0 as int, limit.1 as int) as i64
}

/// One hip angle seen from the other side, held to that side's limits.
fn mirror_hip(angle: i64, limit: (i64, i64)) -> (r: i64)
    requires
        limit.0 <= limit.1,
    ensures
        r == spec_mirror_hip(angle, limit),
{
    let n: i128 = -(angle as i128);
    if n < limit.0 as i128 {
        limit.0
    } else if n > limit.1 as i128 {
        limit.1
    } else {
        n as i64
    }
}

/// Which way is down, from the accelerometer alone.
///
/// The recovery needs the trunk's +z in world coordinates and which side of
/// the body is underneath. Both are the direction of gravity in the body
/// frame, which a slowly moving accelerometer measures directly; a low pass
/// takes out the rest.
#[derive(Clone, Copy, Debug)]
pub struct TiltEstimator {
    /// Filtered gravity direction in the trunk frame, about unit length.
    pub g: [i64; 3],
    /// Whether a sample has been taken yet.
    pub seeded: bool,
    /// Time constant of the low pass.
    pub tau_s: i64,
}

impl TiltEstimator {
    /// Every component of the estimate is at most one unit long.
    pub open spec fn wf(self) -> bool {
        forall|k: int| 0 <= k < 3 ==> -ONE <= #[trigger] self.g[k] <= ONE
    }

    /// The estimate before any sample: upright.
    pub open spec fn spec_new(tau_s: i64) -> Self {
        TiltEstimator { g: [0, 0, (-ONE) as i64], seeded: false, tau_s }
    }

    /// Gravity's direction along axis `k` by one accelerometer sample.
    pub open spec fn spec_measured(accel: [i64; 3], k: int) -> int {
        round_div(-accel[k] * ONE, isqrt(norm_sq(accel)))
    }

    /// The estimate along axis `k` after one more sample.
    pub open spec fn spec_updated(self, accel: [i64; 3], dt: int, k: int) -> int {
        if norm_sq(accel) < 1_000_000 {
            self.g[k] as int
        } else if self.seeded {
            let tau = spec_max(self.tau_s as int, 1_000);
            lerp(
                self.g[k] as int,
                Self::spec_measured(accel, k),
                spec_clamp(dt, 0, tau),
                tau,
            )
        } else {
            Self::spec_measured(accel, k)
        }
    }

    /// The estimator after one more sample.
    pub open spec fn spec_update(self, accel: [i64; 3], dt: int) -> Self {
        TiltEstimator {
            g: [
                self.spec_updated(accel, dt, 0) as i64,
                self.spec_updated(accel, dt, 1) as i64,
                self.spec_updated(accel, dt, 2) as i64,
            ],
            seeded: self.seeded || norm_sq(accel) >= 1_000_000,
            tau_s: self.tau_s,
        }
    }

    /// The trunk's +z in world coordinates.
    pub open spec fn spec_up(self) -> int {
        if norm_sq(self.g) == 0 {
            0
        } else {
            round_div(-self.g[2] * ONE, isqrt(norm_sq(self.g)))
        }
    }

    pub fn new(tau_s: i64) -> (r: Self)
        ensures
            r == Self::spec_new(tau_s),
            r.wf(),
    {
        let r = TiltEstimator { g: [0, 0, -ONE], seeded: false, tau_s };
        assert(r.g =~= Self::spec_new(tau_s).g);
        r
    }

    /// Feed one accelerometer sample (trunk frame, specific force, so a robot
    /// standing still reads its weight on its own +z). A sample too short to
    /// have a direction is ignored.
    pub fn update(&mut self, accel: &[i64; 3], dt: i64)
        requires
            old(self).wf(),
        ensures
            final(self).wf(),
            *final(self) == old(self).spec_update(*accel, dt as int),
            forall|k: int|
                0 <= k < 3 ==> #[trigger] final(self).g[k] == old(self).spec_updated(
                    *accel,
                    dt as int,
                    k,
                ),
    {
        let n2: u128 = length_sq(accel);
        if n2 < 1_000_000 {
            assert(self.g =~= old(self).spec_update(*accel, dt as int).g);
            return ;
        }
        let n: u64 = sqrt(n2);
        proof {
            assert(n >= 1) by (nonlinear_arith)
                requires
                    n2 >= 1_000_000,
                    n2 < (n + 1) * (n + 1),
                    n >= 0,
            ;
            let (a0, a1, a2) = (accel[0] as int, accel[1] as int, accel[2] as int);
            assert(a0 * a0 >= 0 && a1 * a1 >= 0 && a2 * a2 >= 0) by (nonlinear_arith);
            lemma_isqrt_bound(n2 as int, n as int, a0);
            lemma_isqrt_bound(n2 as int, n as int, a1);
            lemma_isqrt_bound(n2 as int, n as int, a2);
        }
        let m0: i64 = unit_component(accel[0], n);
        let m1: i64 = unit_component(accel[1], n);
        let m2: i64 = unit_component(accel[2], n);
        if !self.seeded {
            self.seeded = true;
            self.g = [m0, m1, m2];
            assert(self.g =~= old(self).spec_update(*accel, dt as int).g);
            return ;
        }
        let tau: i64 = max(self.tau_s, 1_000);
        let a: i64 = clamp(dt, 0, tau);
        proof {
            lemma_lerp(self.g[0] as int, m0 as int, a as int, tau as int);
            lemma_lerp(self.g[1] as int, m1 as int, a as int, tau as int);
            lemma_lerp(self.g[2] as int, m2 as int, a as int, tau as int);
        }
        let g0: i64 = mix(self.g[0], m0, a, tau as i128);
        let g1: i64 = mix(self.g[1], m1, a, tau as i128);
        let g2: i64 = mix(self.g[2], m2, a, tau as i128);
        self.g = [g0, g1, g2];
        assert(self.g =~= old(self).spec_update(*accel, dt as int).g);
    }

    /// Trunk +z in world coordinates: `ONE` upright, `-ONE` on its back.
    pub fn up(&self) -> (r: i64)
        ensures
            r == self.spec_up(),
            -ONE <= r <= ONE,
    {
        let n2: u128 = length_sq(&self.g);
        if n2 == 0 {
            return 0;
        }
        let n: u64 = sqrt(n2);
        proof {
            assert(n >= 1) by (nonlinear_arith)
                requires
                    n2 >= 1,
                    n2 < (n + 1) * (n + 1),
                    n >= 0,
            ;
            let (a0, a1, a2) = (self.g[0] as int, self.g[1] as int, self.g[2] as int);
            assert(a0 * a0 >= 0 && a1 * a1 >= 0) by (nonlinear_arith);
            lemma_isqrt_bound(n2 as int, n as int, a2);
        }
        unit_component(self.g[2], n)
    }

    /// Gravity's y component in the trunk frame; its sign says which side of
    /// the body is underneath.
    pub fn g_body_y(&self) -> (r: i64)
        ensures
            r == self.g[1],
    {
        self.g[1]
    }
}

/// `-a / n` for a component `a` of a vector of length `n`.
fn unit_component(a: i64, n: u64) -> (r: i64)
    requires
        n >= 1,
        spec_abs(a as int) <= n,
    ensures
        r == round_div(-a * ONE, n as int),
        -ONE <= r <= ONE,
{
    let num: i128 = -(a as i128) * ONE as i128;
    proof {
        lemma_round_div_mono(-ONE * n, num as int, n as int);
        lemma_round_div_mono(num as int, ONE * n, n as int);
        lemma_round_div_exact(-ONE as int, n as int);
        lemma_round_div_exact(ONE as int, n as int);
    }
    div_round(num, n as i128) as i64
}

/// Rate limiter for the commanded joint angles.
///
/// Seeded from where the joints are when the recovery starts, so the first
/// command is a continuation of the current pose rather than a jump.
#[derive(Clone, Copy, Debug)]
pub struct Slew {
    pub max_rate_rad_s: i64,
    pub arm: i64,
    pub legs: LegTargets,
}

/// `from` moved toward `want` by at most `step`.
pub open spec fn spec_slew(from: int, want: int, step: int) -> int {
    from + spec_clamp(want - from, -step, step)
}

fn slew_one(from: i64, want: i64, step: i64) -> (r: i64)
    requires
        step >= 0,
    ensures
        r == spec_slew(from as int, want as int, step as int),
{
    let d: i128 = want as i128 - from as i128;
    if d > step as i128 {
        (from as i128 + step as i128) as i64
    } else if d < -(step as i128) {
        (from as i128 - step as i128) as i64
    } else {
        want
    }
}

impl Slew {
    pub fn new(max_rate_rad_s: i64, arm: i64, legs: LegTargets) -> (r: Self)
        ensures
            r == (Slew { max_rate_rad_s, arm, legs }),
    {
        Slew { max_rate_rad_s, arm, legs }
    }

    /// The furthest any angle may move in `dt`.
    pub open spec fn spec_step(self, dt: int) -> int {
        spec_max(sat(fmul(self.max_rate_rad_s as int, dt)), 0)
    }

    /// Move every angle toward its target, no faster than the limit, and
    /// return where they now are.
    pub fn apply(&mut self, dt: i64, arm: i64, legs: &LegTargets) -> (r: (i64, LegTargets))
        ensures
            final(self).max_rate_rad_s == old(self).max_rate_rad_s,
            final(self).arm == spec_slew(
                old(self).arm as int,
                arm as int,
                old(self).spec_step(dt as int),
            ),
            forall|l: int, k: int|
                0 <= l < 4 && 0 <= k < 3 ==> #[trigger] final(self).legs[l][k] == spec_slew(
                    old(self).legs[l][k] as int,
                    legs[l][k] as int,
                    old(self).spec_step(dt as int),
                ),
            r == (final(self).arm, final(self).legs),
    {
        let step: i64 = max(times(self.max_rate_rad_s, dt), 0);
        self.arm = slew_one(self.arm, arm, step);
        let f: LegTargets = self.legs;
        let w: LegTargets = *legs;
        self.legs = [
            slew_leg(&f[0], &w[0], step),
            slew_leg(&f[1], &w[1], step),
            slew_leg(&f[2], &w[2], step),
            slew_leg(&f[3], &w[3], step),
        ];
        (self.arm, self.legs)
    }
}

fn slew_leg(from: &[i64; 3], want: &[i64; 3], step: i64) -> (r: [i64; 3])
    requires
        step >= 0,
    ensures
        forall|k: int|
            0 <= k < 3 ==> #[trigger] r[k] == spec_slew(
                from[k] as int,
                want[k] as int,
                step as int,
            ),
{
    [
        slew_one(from[0], want[0], step),
        slew_one(from[1], want[1], step),
        slew_one(from[2], want[2], step),
    ]
}

/// Which side the robot lies on, decided once and held: `Some(true)` swaps
/// the rock cycle left for right. Flat on its back the sign of `g_body_y` is
/// noise, so nothing is decided until it passes [`MIRROR_LATCH`].
pub open spec fn spec_latch(mirror: Option<bool>, g_body_y: int) -> Option<bool> {
    if mirror is None && spec_abs(g_body_y) > MIRROR_LATCH {
        Some(g_body_y < 0)
    } else {
        mirror
    }
}

pub fn latch_mirror(mirror: Option<bool>, g_body_y: i64) -> (r: Option<bool>)
    ensures
        r == spec_latch(mirror, g_body_y as int),
{
    if mirror.is_none() && (g_body_y > MIRROR_LATCH || g_body_y < -MIRROR_LATCH) {
        Some(g_body_y < 0)
    } else {
        mirror
    }
}

/// What a latched decision means for the rock cycle.
pub open spec fn spec_swaps(mirror: Option<bool>) -> bool {
    mirror == Some(true)
}

/// How long the trunk has been upright without a break.
pub open spec fn spec_upright(upright_s: int, up: int, dt: int) -> int {
    if up > UPRIGHT_UP {
        sat(upright_s + dt)
    } else {
        0
    }
}

pub fn upright_for(upright_s: i64, up: i64, dt: i64) -> (r: i64)
    ensures
        r == spec_upright(upright_s as int, up as int, dt as int),
{
    if up > UPRIGHT_UP {
        plus(upright_s, dt)
    } else {
        0
    }
}

/// How long the trunk has to stay upright before a recovery is over.
pub const HOLD_S: i64 = 1_000_000_000;

/// How the joints are driven during an evaluation.
#[derive(Clone, Copy, Debug, PartialEq, Eq, Structural)]
pub enum Drive {
    /// The model's own position actuators, with attitude from the simulator.
    Position,
    /// Leg joints in torque mode with a host-side PD plus gravity
    /// compensation, and attitude from a [`TiltEstimator`].
    TorqueAhrs { kp: i64, kd: i64, tilt_tau_s: i64 },
}

/// What one run of a recovery trajectory did.
#[derive(Clone, Copy, Debug)]
pub struct Outcome {
    /// Highest trunk +z reached.
    pub peak_up: i64,
    /// Trunk +z at the end. This is the one that counts.
    pub final_up: i64,
    /// When it first passed [`UPRIGHT_UP`], if it did.
    pub t_right_s: Option<i64>,
    /// How far it travelled in xy.
    pub travel_m: i64,
    /// Peak trunk angular speed.
    pub peak_omega_rad_s: i64,
    /// Peak measured joint speed over the twelve leg joints.
    pub peak_joint_rad_s: i64,
    /// RMS trunk angular speed over the run.
    pub rms_omega_rad_s: i64,
    /// RMS joint speed over the run and over the twelve leg joints.
    pub rms_joint_rad_s: i64,
}

/// Targets for what counts as an unhurried recovery: RMS speeds below which
/// the motion behaves like a deliberate one rather than a thrash.
pub const GENTLE_OMEGA_RAD_S: i64 = 1_000_000_000;

pub const GENTLE_JOINT_RAD_S: i64 = 1_500_000_000;

pub const GENTLE_TRAVEL_M: i64 = 250_000_000;

/// How far `v` is past `target`, as a fraction of `target`; 0 when it is not.
pub open spec fn spec_over(v: int, target: int) -> int {
    spec_max(round_div(v * ONE, target) - ONE, 0)
}

fn over(v: i64, target: i64) -> (r: i128)
    requires
        target >= 1,
    ensures
        r == spec_over(v as int, target as int),
        0 <= r <= 0x8000_0000_0000_0000_0000_0000_0000,
{
    let n: i128 = v as i128 * ONE as i128;
    proof {
        lemma_round_div_mono(n as int, 0x7fff_0000_0000_0000_0000_0000_0000 * target, target as int);
        lemma_round_div_exact(0x7fff_0000_0000_0000_0000_0000_0000, target as int);
        lemma_round_div_mono(-0x7fff_0000_0000_0000_0000_0000_0000 * target, n as int, target as int);
        lemma_round_div_exact(-0x7fff_0000_0000_0000_0000_0000_0000, target as int);
        assert(0x7fff_0000_0000_0000_0000_0000_0000 * target
            >= 0x7fff_0000_0000_0000_0000_0000_0000) by (nonlinear_arith)
            requires
                target >= 1,
        ;
    }
    let q: i128 = div_round(n, target as i128) - ONE as i128;
    if q > 0 {
        q
    } else {
        0
    }
}

impl Outcome {
    pub open spec fn spec_righted(self) -> bool {
        self.final_up > 900_000_000
    }

    pub open spec fn spec_score(self) -> int {
        self.final_up + round_div(3 * self.peak_up, 10) + if self.spec_righted() {
            500_000_000int
        } else {
            0
        }
    }

    pub open spec fn spec_roughness(self) -> int {
        spec_min(
            round_div(
                6 * (spec_over(self.rms_omega_rad_s as int, GENTLE_OMEGA_RAD_S as int) + spec_over(
                    self.rms_joint_rad_s as int,
                    GENTLE_JOINT_RAD_S as int,
                ) + spec_over(self.travel_m as int, GENTLE_TRAVEL_M as int)),
                10,
            ),
            1_500_000_000,
        )
    }

    pub fn righted(&self) -> (r: bool)
        ensures
            r == self.spec_righted(),
    {
        self.final_up > 900_000_000
    }

    /// A single number to search on: mostly the final attitude, with a
    /// smaller credit for the peak so that a trajectory which gets partway
    /// and falls back still scores above one that never moves.
    pub fn score(&self) -> (r: i128)
        ensures
            r == self.spec_score(),
    {
        proof {
            let p = self.peak_up as int;
            lemma_round_div_mono(3 * p, 0x8000_0000_0000_0000int * 10, 10);
            lemma_round_div_exact(0x8000_0000_0000_0000, 10);
            lemma_round_div_mono(-0x8000_0000_0000_0000 * 10, 3 * p, 10);
            lemma_round_div_exact(-0x8000_0000_0000_0000, 10);
        }
        let credit: i128 = div_round(3 * self.peak_up as i128, 10);
        let bonus: i128 = if self.righted() {
            500_000_000
        } else {
            0
        };
        self.final_up as i128 + credit + bonus
    }

    /// How far past the gentleness targets this run went, as a penalty to
    /// subtract from [`Outcome::score`]. Hinged, so staying under a target
    /// buys nothing, and capped, so that righting the robot violently still
    /// scores above never righting it at all.
    pub fn roughness(&self) -> (r: i64)
        ensures
            r == self.spec_roughness(),
            0 <= r <= 1_500_000_000,
    {
        let sum: i128 = over(self.rms_omega_rad_s, GENTLE_OMEGA_RAD_S) + over(
            self.rms_joint_rad_s,
            GENTLE_JOINT_RAD_S,
        ) + over(self.travel_m, GENTLE_TRAVEL_M);
        proof {
            lemma_round_div_mono(0, 6 * sum, 10);
            lemma_round_div_exact(0, 10);
        }
        let q: i128 = div_round(6 * sum, 10);
        if q < 1_500_000_000 {
            q as i64
        } else {
            1_500_000_000
        }
    }
}

/// Reading a legal trajectory back from its own vector gives it unchanged.
pub proof fn law_vec_round_trip(p: RecoveryParams, q: RecoveryParams)
    requires
        p.legal(),
        q.pinned(),
        forall|i: int|
            0 <= i < DIM ==> #[trigger] q.spec_vec()[i] == spec_clamp(
                p.spec_vec()[i] as int,
                BOUNDS[i].0 as int,
                BOUNDS[i].1 as int,
            ),
    ensures
        q == p,
{
    assert forall|i: int| 0 <= i < DIM implies #[trigger] q.spec_vec()[i] == p.spec_vec()[i] by {
        assert(BOUNDS[i].0 <= p.spec_vec()[i] <= BOUNDS[i].1);
    }
    let (a, b) = (p.spec_vec(), q.spec_vec());
    assert(b[0] == a[0] && b[1] == a[1] && b[2] == a[2] && b[3] == a[3] && b[4] == a[4]);
    assert(b[5] == a[5] && b[6] == a[6] && b[7] == a[7] && b[8] == a[8] && b[9] == a[9]);
    assert(b[10] == a[10] && b[11] == a[11] && b[12] == a[12] && b[13] == a[13]);
    assert(b[14] == a[14] && b[15] == a[15] && b[16] == a[16] && b[17] == a[17] && b[18] == a[18]);
    assert(q.hip_push =~= p.hip_push);
    assert(q.hip_rest =~= p.hip_rest);
}

/// The limits of joint `k` of leg `l`.
pub open spec fn leg_limit(l: int, k: int) -> (i64, i64) {
    if k == 0 {
        if l == 0 || l == 2 {
            HIP_LIMIT_L
        } else {
            HIP_LIMIT_R
        }
    } else if k == 1 {
        THIGH_LIMIT
    } else {
        CALF_LIMIT
    }
}

/// Every angle the trajectory is made of lies inside its joint's limits.
pub open spec fn angles_in_limits(p: RecoveryParams) -> bool {
    &&& HIP_LIMIT_L.0 <= p.hip_push[0] <= HIP_LIMIT_L.1
    &&& HIP_LIMIT_R.0 <= p.hip_push[1] <= HIP_LIMIT_R.1
    &&& HIP_LIMIT_L.0 <= p.hip_rest[0] <= HIP_LIMIT_L.1
    &&& HIP_LIMIT_R.0 <= p.hip_rest[1] <= HIP_LIMIT_R.1
    &&& THIGH_LIMIT.0 <= p.thigh_push <= THIGH_LIMIT.1
    &&& CALF_LIMIT.0 <= p.calf_push <= CALF_LIMIT.1
    &&& THIGH_LIMIT.0 <= p.thigh_rest <= THIGH_LIMIT.1
    &&& CALF_LIMIT.0 <= p.calf_rest <= CALF_LIMIT.1
    &&& ARM_LIMIT.0 <= p.arm_push <= ARM_LIMIT.1
    &&& ARM_LIMIT.0 <= p.arm_rest <= ARM_LIMIT.1
    &&& THIGH_LIMIT.0 <= p.finish_thigh <= THIGH_LIMIT.1
    &&& CALF_LIMIT.0 <= p.finish_calf <= CALF_LIMIT.1
    &&& ARM_LIMIT.0 <= p.finish_arm <= ARM_LIMIT.1
}

/// Everything the search may produce keeps its angles inside the limits.
pub proof fn law_legal_in_limits(p: RecoveryParams)
    requires
        p.legal(),
    ensures
        angles_in_limits(p),
{
    let v = p.spec_vec();
    assert(BOUNDS[3].0 <= v[3] <= BOUNDS[3].1 && BOUNDS[4].0 <= v[4] <= BOUNDS[4].1);
    assert(BOUNDS[5].0 <= v[5] <= BOUNDS[5].1 && BOUNDS[6].0 <= v[6] <= BOUNDS[6].1);
    assert(BOUNDS[7].0 <= v[7] <= BOUNDS[7].1 && BOUNDS[8].0 <= v[8] <= BOUNDS[8].1);
    assert(BOUNDS[9].0 <= v[9] <= BOUNDS[9].1 && BOUNDS[10].0 <= v[10] <= BOUNDS[10].1);
    assert(BOUNDS[11].0 <= v[11] <= BOUNDS[11].1 && BOUNDS[12].0 <= v[12] <= BOUNDS[12].1);
    assert(BOUNDS[15].0 <= v[15] <= BOUNDS[15].1 && BOUNDS[16].0 <= v[16] <= BOUNDS[16].1);
}

/// So do the named trajectories, each of them.
pub proof fn law_named_in_limits()
    ensures
        angles_in_limits(RecoveryParams::spec_of(PROBE_BEST@)),
        angles_in_limits(RecoveryParams::spec_of(SEARCHED_V1@)),
        angles_in_limits(RecoveryParams::spec_of(SEARCHED_V2@)),
        angles_in_limits(RecoveryParams::spec_of(SEARCHED_V3@)),
        angles_in_limits(RecoveryParams::spec_of(SEARCHED_V4@)),
        angles_in_limits(RecoveryParams::spec_of(GENTLE_V1@)),
        angles_in_limits(RecoveryParams::spec_of(GENTLE_V2@)),
        angles_in_limits(RecoveryParams::spec_of(GENTLE_V3@)),
        angles_in_limits(RecoveryParams::spec_of(RECOVERY_GENTLE@)),
        angles_in_limits(RecoveryParams::spec_of(RECOVERY_FAST@)),
{
}

/// Whatever the time, the attitude and the facing, a trajectory whose angles
/// are inside the limits never asks a joint to leave them.
pub proof fn law_targets_in_limits(
    p: RecoveryParams,
    t: int,
    up: int,
    g_body_y: int,
    mirror: bool,
    l: int,
    k: int,
)
    requires
        angles_in_limits(p),
        0 <= l < 4,
        0 <= k < 3,
    ensures
        ARM_LIMIT.0 <= p.spec_arm(t, up) <= ARM_LIMIT.1,
        leg_limit(l, k).0 <= p.facing(mirror).spec_leg(t, up, g_body_y, l, k) <= leg_limit(l, k).1,
{
    let m = p.facing(mirror);
    let (w, r) = (m.spec_weight(t), m.spec_ramp());
    assert(w == p.spec_weight(t) && r == p.spec_ramp());
    lemma_lerp(p.arm_rest as int, p.arm_push as int, w, r);
    lemma_lerp(m.hip_rest[0] as int, m.hip_push[0] as int, w, r);
    lemma_lerp(m.hip_rest[1] as int, m.hip_push[1] as int, w, r);
    lemma_lerp(m.thigh_rest as int, m.thigh_push as int, w, r);
    lemma_lerp(m.calf_rest as int, m.calf_push as int, w, r);
}

/// Mirroring a legal trajectory twice gives it back: the two sides' limits
/// are each other's mirror image, so the clamp never bites.
pub proof fn law_mirror_twice(p: RecoveryParams)
    requires
        p.legal(),
    ensures
        p.spec_mirrored().legal(),
        p.spec_mirrored().spec_mirrored() == p,
{
    let v = p.spec_vec();
    assert(BOUNDS[3].0 <= v[3] <= BOUNDS[3].1 && BOUNDS[4].0 <= v[4] <= BOUNDS[4].1);
    assert(BOUNDS[5].0 <= v[5] <= BOUNDS[5].1 && BOUNDS[6].0 <= v[6] <= BOUNDS[6].1);
    let m = p.spec_mirrored();
    assert forall|i: int| 0 <= i < DIM implies BOUNDS[i].0 <= #[trigger] m.spec_vec()[i]
        <= BOUNDS[i].1 by {
        assert(BOUNDS[i].0 <= p.spec_vec()[i] <= BOUNDS[i].1);
        if i < 3 || i > 6 {
            assert(m.spec_vec()[i] == p.spec_vec()[i]);
        }
    }
    assert(m.spec_mirrored().hip_push =~= p.hip_push);
    assert(m.spec_mirrored().hip_rest =~= p.hip_rest);
}

/// Front and rear legs are tied together.
pub proof fn law_front_rear_tied(p: RecoveryParams, t: int, up: int, g_body_y: int, k: int)
    requires
        0 <= k < 3,
    ensures
        p.spec_leg(t, up, g_body_y, 0, k) == p.spec_leg(t, up, g_body_y, 2, k),
        p.spec_leg(t, up, g_body_y, 1, k) == p.spec_leg(t, up, g_body_y, 3, k),
{
}

/// The rock starts at its rest pose, and a cycle later it is back there.
pub proof fn law_rock_starts_at_rest(p: RecoveryParams, n: int, rest: i64, push: i64)
    requires
        n >= 0,
        p.spec_push_end() > 0,
    ensures
        p.spec_rock(rest, push, n * spec_max(p.period_s as int, 1_000_000)) == rest,
{
    let period = spec_max(p.period_s as int, 1_000_000);
    assert((n * period) % period == 0) by (nonlinear_arith)
        requires
            period > 0,
    ;
    assert(n * period >= 0) by (nonlinear_arith)
        requires
            n >= 0,
            period > 0,
    ;
    lemma_lerp(rest as int, push as int, 0, p.spec_ramp());
}

/// A rate-limited angle never moves further than one step, never overshoots
/// its target, and arrives when the target is within a step.
pub proof fn law_slew(from: int, want: int, step: int)
    requires
        step >= 0,
    ensures
        spec_abs(spec_slew(from, want, step) - from) <= step,
        from <= want ==> from <= spec_slew(from, want, step) <= want,
        want <= from ==> want <= spec_slew(from, want, step) <= from,
        spec_abs(want - from) <= step ==> spec_slew(from, want, step) == want,
        step == 0 ==> spec_slew(from, want, step) == from,
{
}

/// The accelerometer has no convergence time: one sample along the trunk's
/// own z axis settles which way up the robot is.
pub proof fn law_first_sample_decides(
    before: TiltEstimator,
    after: TiltEstimator,
    accel: [i64; 3],
    dt: int,
)
    requires
        !before.seeded,
        accel[0] == 0,
        accel[1] == 0,
        spec_abs(accel[2] as int) >= 1_000,
        after == before.spec_update(accel, dt),
    ensures
        after.spec_up() == (if accel[2] > 0 {
            ONE as int
        } else {
            -ONE
        }),
{
    let a = accel[2] as int;
    let n = spec_abs(a);
    assert(norm_sq(accel) == n * n) by (nonlinear_arith)
        requires
            norm_sq(accel) == accel[0] * accel[0] + accel[1] * accel[1] + accel[2] * accel[2],
            accel[0] == 0,
            accel[1] == 0,
            n == accel[2] || n == -accel[2],
    ;
    assert(n * n >= 1_000_000) by (nonlinear_arith)
        requires
            n >= 1_000,
    ;
    assert(is_isqrt(n * n, n)) by {
        assert(n * n < (n + 1) * (n + 1)) by (nonlinear_arith)
            requires
                n >= 0,
        ;
    }
    lemma_isqrt_unique(n * n, n, isqrt(n * n));
    lemma_round_div_exact(ONE as int, n);
    lemma_round_div_exact(-ONE as int, n);
    lemma_round_div_exact(0, n);
    assert(after.g[0] == 0 && after.g[1] == 0);
    assert(after.g[2] == (if a > 0 {
        -ONE
    } else {
        ONE as int
    }));
    let g2 = after.g[2] as int;
    assert(norm_sq(after.g) == ONE * ONE) by (nonlinear_arith)
        requires
            norm_sq(after.g) == after.g[0] * after.g[0] + after.g[1] * after.g[1] + after.g[2]
                * after.g[2],
            after.g[0] == 0,
            after.g[1] == 0,
            after.g[2] == ONE || after.g[2] == -ONE,
    ;
    assert(is_isqrt(ONE * ONE, ONE as int));
    lemma_isqrt_unique(ONE * ONE, ONE as int, isqrt(ONE * ONE));
    lemma_round_div_exact(ONE as int, ONE as int);
    lemma_round_div_exact(-ONE as int, ONE as int);
}

/// Staying under every gentleness target costs nothing.
pub proof fn law_gentle_run_is_free(o: Outcome)
    requires
        o.rms_omega_rad_s <= GENTLE_OMEGA_RAD_S,
        o.rms_joint_rad_s <= GENTLE_JOINT_RAD_S,
        o.travel_m <= GENTLE_TRAVEL_M,
    ensures
        o.spec_roughness() == 0,
{
    lemma_round_div_mono(o.rms_omega_rad_s * ONE, GENTLE_OMEGA_RAD_S * ONE, GENTLE_OMEGA_RAD_S as int);
    lemma_round_div_mono(o.rms_joint_rad_s * ONE, GENTLE_JOINT_RAD_S * ONE, GENTLE_JOINT_RAD_S as int);
    lemma_round_div_mono(o.travel_m * ONE, GENTLE_TRAVEL_M * ONE, GENTLE_TRAVEL_M as int);
    lemma_round_div_exact(0, 10);
}

/// However rough, a run that rights the robot scores above one that leaves
/// it on its back throughout.
pub proof fn law_righting_beats_lying_still(o: Outcome, still: Outcome)
    requires
        o.spec_righted(),
        o.peak_up >= o.final_up,
        still.final_up == -ONE,
        still.peak_up == -ONE,
        still.spec_roughness() >= 0,
    ensures
        o.spec_score() - o.spec_roughness() > still.spec_score() - still.spec_roughness(),
{
    lemma_round_div_mono(2_700_000_000, 3 * o.peak_up, 10);
    lemma_round_div_exact(270_000_000, 10);
    lemma_round_div_exact(-300_000_000, 10);
}

/// Where an angle is after `n` steps toward the same target.
pub open spec fn spec_slewed(from: int, want: int, step: int, n: nat) -> int
    decreases n,
{
    if n == 0 {
        from
    } else {
        spec_slew(spec_slewed(from, want, step, (n - 1) as nat), want, step)
    }
}

/// A rate-limited angle arrives: each step takes one step's worth off the
/// distance that is left, and none is left once the steps cover it.
pub proof fn law_slew_arrives(from: int, want: int, step: int, n: nat)
    requires
        step >= 0,
    ensures
        spec_abs(want - spec_slewed(from, want, step, n)) == spec_max(
            spec_abs(want - from) - n * step,
            0,
        ),
        n * step >= spec_abs(want - from) ==> spec_slewed(from, want, step, n) == want,
    decreases n,
{
    if n > 0 {
        law_slew_arrives(from, want, step, (n - 1) as nat);
        assert(n * step == (n - 1) * step + step) by (nonlinear_arith);
        assert((n - 1) * step >= 0) by (nonlinear_arith)
            requires
                n >= 1,
                step >= 0,
        ;
    } else {
        assert(0 * step == 0) by (nonlinear_arith);
    }
}

/// A robot that keeps still keeps its estimate: a sample that agrees with it
/// changes nothing.
pub proof fn law_still_robot_keeps_its_estimate(f: TiltEstimator, accel: [i64; 3], dt: int)
    requires
        f.seeded,
        forall|k: int|
            0 <= k < 3 ==> #[trigger] f.g[k] == TiltEstimator::spec_measured(accel, k),
    ensures
        f.spec_update(accel, dt) == f,
{
    let tau = spec_max(f.tau_s as int, 1_000);
    assert forall|k: int| 0 <= k < 3 implies #[trigger] f.spec_updated(accel, dt, k) == f.g[k] by {
        lemma_lerp(f.g[k] as int, f.g[k] as int, spec_clamp(dt, 0, tau), tau);
    }
    assert(f.spec_updated(accel, dt, 0) == f.g[0]);
    assert(f.spec_updated(accel, dt, 1) == f.g[1]);
    assert(f.spec_updated(accel, dt, 2) == f.g[2]);
    assert(f.spec_update(accel, dt).g =~= f.g);
}

/// How long the trunk counts as upright after `n` readings, `dt` apart.
pub open spec fn spec_upright_after(ups: Seq<int>, dt: int, n: nat) -> int
    decreases n,
{
    if n == 0 {
        0
    } else {
        spec_upright(spec_upright_after(ups, dt, (n - 1) as nat), ups[n - 1], dt)
    }
}

/// How many of the first `n` readings, counted back from the last, are
/// upright without a break.
pub open spec fn upright_run(ups: Seq<int>, n: nat) -> int
    decreases n,
{
    if n == 0 || ups[n - 1] <= UPRIGHT_UP {
        0
    } else {
        1 + upright_run(ups, (n - 1) as nat)
    }
}

/// The run is made of the last readings, each of them upright.
pub proof fn lemma_upright_run(ups: Seq<int>, n: nat)
    requires
        n <= ups.len(),
    ensures
        0 <= upright_run(ups, n) <= n,
        forall|i: int| n - upright_run(ups, n) <= i < n ==> #[trigger] ups[i] > UPRIGHT_UP,
    decreases n,
{
    if n > 0 && ups[n - 1] > UPRIGHT_UP {
        lemma_upright_run(ups, (n - 1) as nat);
    }
}

/// The hold counts unbroken upright readings and nothing else, so it is only
/// passed by as many of them in a row as fill it.
pub proof fn law_hold_is_unbroken(ups: Seq<int>, dt: int, n: nat)
    requires
        dt >= 0,
        n <= ups.len(),
    ensures
        0 <= spec_upright_after(ups, dt, n) <= upright_run(ups, n) * dt,
        spec_upright_after(ups, dt, n) > HOLD_S ==> upright_run(ups, n) * dt > HOLD_S,
    decreases n,
{
    assert(0 * dt == 0) by (nonlinear_arith);
    if n > 0 {
        law_hold_is_unbroken(ups, dt, (n - 1) as nat);
        let r = upright_run(ups, (n - 1) as nat);
        assert((1 + r) * dt == r * dt + dt) by (nonlinear_arith);
    }
}

/// The trunk's +z is gravity's z over the length of the whole estimate: every
/// component counts, so pitching the robot lowers it just as rolling it does.
pub proof fn law_up_counts_every_component(f: TiltEstimator)
    ensures
        ({
            let (x, y, z) = (f.g[0] as int, f.g[1] as int, f.g[2] as int);
            let n = isqrt(x * x + y * y + z * z);
            &&& x * x + y * y + z * z == 0 ==> f.spec_up() == 0
            &&& x * x + y * y + z * z > 0 ==> {
                &&& n > 0
                &&& n * n <= x * x + y * y + z * z < (n + 1) * (n + 1)
                &&& -n <= 2 * (f.spec_up() * n + z * 1_000_000_000) <= n
            }
        }),
{
    let (x, y, z) = (f.g[0] as int, f.g[1] as int, f.g[2] as int);
    let s = x * x + y * y + z * z;
    assert(x * x >= 0 && y * y >= 0 && z * z >= 0) by (nonlinear_arith);
    law_root(s);
    let n = isqrt(s);
    if s > 0 {
        assert(n > 0) by (nonlinear_arith)
            requires
                s > 0,
                n >= 0,
                s < (n + 1) * (n + 1),
        ;
        lemma_round_div_near(-z * ONE, n);
        assert(-z * ONE == -(z * ONE)) by (nonlinear_arith);
    }
}

/// Turning the robot about its own z does not change how upright it is: the
/// two level components can change places, or sign.
pub proof fn law_up_ignores_heading(f: TiltEstimator, h: TiltEstimator)
    requires
        h.g[2] == f.g[2],
        (h.g[0] == f.g[1] && h.g[1] == f.g[0]) || (h.g[0] == -f.g[0] && h.g[1] == f.g[1]) || (h.g[0]
            == f.g[0] && h.g[1] == -f.g[1]),
    ensures
        h.spec_up() == f.spec_up(),
{
    let (x, y) = (f.g[0] as int, f.g[1] as int);
    assert((-x) * (-x) == x * x && (-y) * (-y) == y * y) by (nonlinear_arith);
    assert(norm_sq(h.g) == norm_sq(f.g));
}

/// Turning the robot over turns its +z over.
pub proof fn law_up_turns_over(f: TiltEstimator, h: TiltEstimator)
    requires
        h.g[0] == f.g[0],
        h.g[1] == f.g[1],
        h.g[2] == -f.g[2],
    ensures
        h.spec_up() == -f.spec_up(),
{
    let z = f.g[2] as int;
    let s = norm_sq(f.g);
    assert((-z) * (-z) == z * z) by (nonlinear_arith);
    assert(norm_sq(h.g) == s);
    law_up_counts_every_component(f);
    if s != 0 {
        law_length(f.g);
        lemma_round_div_odd(-z * ONE, isqrt(s));
        assert(z * ONE == -(-z * ONE)) by (nonlinear_arith);
    }
}

/// One sample's idea of gravity points against the specific force, component
/// by component, at unit length.
pub proof fn law_measured_direction(a: [i64; 3], k: int)
    requires
        0 <= k < 3,
        a[0] * a[0] + a[1] * a[1] + a[2] * a[2] >= 1_000_000,
    ensures
        ({
            let n = isqrt(a[0] * a[0] + a[1] * a[1] + a[2] * a[2]);
            &&& n > 0
            &&& -n <= 2 * (TiltEstimator::spec_measured(a, k) * n + a[k] * 1_000_000_000) <= n
        }),
{
    let s = a[0] * a[0] + a[1] * a[1] + a[2] * a[2];
    law_root(s);
    let n = isqrt(s);
    assert(n > 0) by (nonlinear_arith)
        requires
            s > 0,
            n >= 0,
            s < (n + 1) * (n + 1),
    ;
    let x = a[k] as int;
    lemma_round_div_near(-x * ONE, n);
    assert(-x * ONE == -(x * ONE)) by (nonlinear_arith);
}

/// A sample too short to have a direction changes nothing; the first other one
/// is taken as it is; each later one is eased toward by the share of the time
/// constant that has passed.
pub proof fn law_tilt_update(f: TiltEstimator, a: [i64; 3], dt: int, k: int)
    requires
        f.wf(),
        0 <= k < 3,
    ensures
        ({
            let s = a[0] * a[0] + a[1] * a[1] + a[2] * a[2];
            let h = f.spec_update(a, dt);
            let tau = if f.tau_s < 1_000 {
                1_000int
            } else {
                f.tau_s as int
            };
            let m = TiltEstimator::spec_measured(a, k);
            &&& h.tau_s == f.tau_s
            &&& s < 1_000_000 ==> h.g[k] == f.g[k] && h.seeded == f.seeded
            &&& s >= 1_000_000 ==> h.seeded
            &&& s >= 1_000_000 && !f.seeded ==> h.g[k] == m
            &&& s >= 1_000_000 && f.seeded ==> {
                &&& dt <= 0 ==> h.g[k] == f.g[k]
                &&& dt >= tau ==> h.g[k] == m
                &&& 0 <= dt <= tau ==> -tau <= 2 * ((h.g[k] - f.g[k]) * tau - (m - f.g[k]) * dt)
                    <= tau
            }
        }),
{
    let s = a[0] * a[0] + a[1] * a[1] + a[2] * a[2];
    let tau = spec_max(f.tau_s as int, 1_000);
    let m = TiltEstimator::spec_measured(a, k);
    if s >= 1_000_000 {
        law_measured_direction(a, k);
        lemma_measured_fits(a, k);
        law_share_is_near(f.g[k] as int, m, spec_clamp(dt, 0, tau), tau);
        lemma_lerp(f.g[k] as int, m, spec_clamp(dt, 0, tau), tau);
    }
}

proof fn lemma_measured_fits(a: [i64; 3], k: int)
    requires
        0 <= k < 3,
        norm_sq(a) >= 1_000_000,
    ensures
        -ONE <= TiltEstimator::spec_measured(a, k) <= ONE,
{
    let s = norm_sq(a);
    law_root(s);
    let n = isqrt(s);
    let (x, y, z) = (a[0] as int, a[1] as int, a[2] as int);
    assert(x * x >= 0 && y * y >= 0 && z * z >= 0) by (nonlinear_arith);
    assert(n > 0) by (nonlinear_arith)
        requires
            s > 0,
            n >= 0,
            s < (n + 1) * (n + 1),
    ;
    lemma_isqrt_bound(s, n, a[k] as int);
    let v = a[k] as int;
    lemma_round_div_mono(-v * ONE, ONE * n, n);
    lemma_round_div_mono(-ONE * n, -v * ONE, n);
    lemma_round_div_exact(ONE as int, n);
    lemma_round_div_exact(-ONE as int, n);
}

/// In the finish the legs underneath push and the ones on top fold. Gravity
/// toward +y means that the left side is down: the left legs (0 and 2) hold
/// the finish pose with the hip rolled outward, and the right ones fold;
/// otherwise it is the other way round, with the hip rolled the other way.
pub proof fn law_finish_pushes_from_below(p: RecoveryParams, t: int, up: int, g: int, l: int)
    requires
        p.handoff_up <= up < UPRIGHT_UP,
        0 <= l < 4,
    ensures
        p.spec_arm(t, up) == p.finish_arm,
        ({
            let left = l == 0 || l == 2;
            let below = if g > 0 {
                left
            } else {
                !left
            };
            let hip = p.spec_leg(t, up, g, l, 0);
            let size = if p.finish_hip < 0 {
                -(p.finish_hip as int)
            } else {
                p.finish_hip as int
            };
            &&& below ==> {
                &&& p.spec_leg(t, up, g, l, 1) == p.finish_thigh
                &&& p.spec_leg(t, up, g, l, 2) == p.finish_calf
                &&& left ==> hip == (if size <= 1_050_000_000 {
                    size
                } else {
                    1_050_000_000
                })
                &&& !left ==> hip == (if size <= 1_050_000_000 {
                    -size
                } else {
                    -1_050_000_000
                })
            }
            &&& !below ==> {
                &&& hip == 0
                &&& p.spec_leg(t, up, g, l, 1) == 2_500_000_000
                &&& p.spec_leg(t, up, g, l, 2) == -2_600_000_000
            }
        }),
{
}

/// Lying on the other side swaps the two sides of the finish and negates the
/// pushing hip.
pub proof fn law_finish_is_symmetric(p: RecoveryParams, t: int, up: int, g: int, k: int)
    requires
        p.handoff_up <= up < UPRIGHT_UP,
        g != 0,
        0 <= k < 3,
    ensures
        k > 0 ==> p.spec_leg(t, up, -g, 0, k) == p.spec_leg(t, up, g, 1, k),
        k > 0 ==> p.spec_leg(t, up, -g, 3, k) == p.spec_leg(t, up, g, 2, k),
        p.spec_leg(t, up, -g, 0, 0) == -p.spec_leg(t, up, g, 1, 0),
        p.spec_leg(t, up, -g, 3, 0) == -p.spec_leg(t, up, g, 2, 0),
{
}

/// An upright robot stands, whatever the time and whichever side it came from.
pub proof fn law_upright_stands(p: RecoveryParams, t: int, up: int, g: int, l: int)
    requires
        up >= 850_000_000,
    ensures
        p.spec_arm(t, up) == 850_000_000,
        p.spec_leg(t, up, g, l, 0) == 0,
        p.spec_leg(t, up, g, l, 1) == 900_000_000,
        p.spec_leg(t, up, g, l, 2) == -1_800_000_000,
{
}

/// A value that rocks between `rest` and `push`: `into` its cycle, with the
/// push ending at `end`, it ramps to the push, holds it, ramps back and rests.
pub open spec fn rocks(v: int, rest: int, push: int, into: int, end: int, ramp: int) -> bool {
    if into < end {
        if into >= ramp {
            v == push
        } else {
            -ramp <= 2 * ((v - rest) * ramp - (push - rest) * into) <= ramp
        }
    } else if into - end >= ramp {
        v == rest
    } else {
        -ramp <= 2 * ((v - push) * ramp - (rest - push) * (into - end)) <= ramp
    }
}

proof fn lemma_rocks(p: RecoveryParams, rest: i64, push: i64, t: int, n: int)
    requires
        n >= 0,
        n * spec_max(p.period_s as int, 1_000_000) <= t,
        t < (n + 1) * spec_max(p.period_s as int, 1_000_000),
    ensures
        rocks(
            p.spec_rock(rest, push, t),
            rest as int,
            push as int,
            t - n * spec_max(p.period_s as int, 1_000_000),
            p.spec_push_end(),
            p.spec_ramp(),
        ),
{
    let period = spec_max(p.period_s as int, 1_000_000);
    let into = t - n * period;
    assert((n + 1) * period == n * period + period) by (nonlinear_arith);
    assert(t % period == into) by (nonlinear_arith)
        requires
            period > 0,
            into == t - n * period,
            0 <= into < period,
    ;
    assert(n * period >= 0) by (nonlinear_arith)
        requires
            n >= 0,
            period > 0,
    ;
    assert(p.spec_phase(t) == into);
    let (r, q) = (rest as int, push as int);
    let ramp = p.spec_ramp();
    let w = p.spec_weight(t);
    lemma_lerp(r, q, w, ramp);
    law_share_is_near(r, q, w, ramp);
    let v = p.spec_rock(rest, push, t);
    let end = p.spec_push_end();
    if into >= end && into - end < ramp {
        let e = into - end;
        assert(w == ramp - e);
        assert((v - q) * ramp - (r - q) * e == (v - r) * ramp - (q - r) * (ramp - e))
            by (nonlinear_arith);
    }
}

/// While it is down the robot rocks: every joint moves between its own rest
/// and its own push angle, hips by the side they are on, the push taking its
/// share of every period.
pub proof fn law_rocks_while_down(p: RecoveryParams, t: int, up: int, g: int, l: int, n: int)
    requires
        up < 850_000_000,
        up < p.handoff_up,
        0 <= l < 4,
        0 <= p.push_frac <= 1_000_000_000,
        n >= 0,
        n * (if p.period_s < 1_000_000 {
            1_000_000
        } else {
            p.period_s as int
        }) <= t,
        t < (n + 1) * (if p.period_s < 1_000_000 {
            1_000_000
        } else {
            p.period_s as int
        }),
    ensures
        ({
            let period = if p.period_s < 1_000_000 {
                1_000_000int
            } else {
                p.period_s as int
            };
            let ramp = if p.ramp_s < 100_000 {
                100_000int
            } else {
                p.ramp_s as int
            };
            let into = t - n * period;
            let end = p.spec_push_end();
            let side = if l == 0 || l == 2 {
                0int
            } else {
                1int
            };
            &&& -1_000_000_000 <= 2 * (end * 1_000_000_000 - period * p.push_frac) <= 1_000_000_000
            &&& rocks(p.spec_arm(t, up), p.arm_rest as int, p.arm_push as int, into, end, ramp)
            &&& rocks(
                p.spec_leg(t, up, g, l, 0),
                p.hip_rest[side] as int,
                p.hip_push[side] as int,
                into,
                end,
                ramp,
            )
            &&& rocks(
                p.spec_leg(t, up, g, l, 1),
                p.thigh_rest as int,
                p.thigh_push as int,
                into,
                end,
                ramp,
            )
            &&& rocks(
                p.spec_leg(t, up, g, l, 2),
                p.calf_rest as int,
                p.calf_push as int,
                into,
                end,
                ramp,
            )
        }),
{
    let period = spec_max(p.period_s as int, 1_000_000);
    let f = p.push_frac as int;
    law_product_is_near(period, f);
    assert(0 <= period * f <= period * ONE) by (nonlinear_arith)
        requires
            period > 0,
            0 <= f <= ONE,
    ;
    lemma_round_div_mono(period * f, period * ONE, ONE as int);
    lemma_round_div_exact(period, ONE as int);
    lemma_rocks(p, p.arm_rest, p.arm_push, t, n);
    lemma_rocks(p, p.hip_rest[0], p.hip_push[0], t, n);
    lemma_rocks(p, p.hip_rest[1], p.hip_push[1], t, n);
    lemma_rocks(p, p.thigh_rest, p.thigh_push, t, n);
    lemma_rocks(p, p.calf_rest, p.calf_push, t, n);
}

/// The mirrored rock is the rock seen in a mirror: each side's hip moves as
/// the other side's did, the other way, and nothing else changes.
pub proof fn law_mirrored_rock_is_reflected(p: RecoveryParams, t: int, up: int, g: int, k: int)
    requires
        angles_in_limits(p),
        up < 850_000_000,
        up < p.handoff_up,
        0 < k < 3,
    ensures
        p.facing(true).spec_leg(t, up, g, 0, 0) == -p.spec_leg(t, up, g, 1, 0),
        p.facing(true).spec_leg(t, up, g, 1, 0) == -p.spec_leg(t, up, g, 0, 0),
        p.facing(true).spec_leg(t, up, g, 2, 0) == -p.spec_leg(t, up, g, 3, 0),
        p.facing(true).spec_leg(t, up, g, 3, 0) == -p.spec_leg(t, up, g, 2, 0),
        p.facing(true).spec_leg(t, up, g, 0, k) == p.spec_leg(t, up, g, 0, k),
        p.facing(true).spec_leg(t, up, g, 1, k) == p.spec_leg(t, up, g, 1, k),
        p.facing(true).spec_arm(t, up) == p.spec_arm(t, up),
        p.facing(false) == p,
{
    let m = p.facing(true);
    assert(m.spec_weight(t) == p.spec_weight(t) && m.spec_ramp() == p.spec_ramp());
    let (w, d) = (p.spec_weight(t), p.spec_ramp());
    lemma_lerp_odd(p.hip_rest[0] as int, p.hip_push[0] as int, w, d);
    lemma_lerp_odd(p.hip_rest[1] as int, p.hip_push[1] as int, w, d);
}

proof fn lemma_lerp_odd(a: int, b: int, num: int, den: int)
    requires
        den > 0,
    ensures
        lerp(-a, -b, num, den) == -lerp(a, b, num, den),
{
    assert((-b - -a) * num == -((b - a) * num)) by (nonlinear_arith);
    lemma_round_div_odd((b - a) * num, den);
}

/// A mirrored hip that would leave its own side's limits stops at them, and
/// nothing but the hips of the rock is mirrored.
pub proof fn law_mirror_is_held_to_the_limits(p: RecoveryParams)
    ensures
        ({
            let m = p.spec_mirrored();
            &&& m == (RecoveryParams { hip_push: m.hip_push, hip_rest: m.hip_rest, ..p })
            &&& -785_000_000 <= m.hip_push[0] <= 1_050_000_000
            &&& -1_050_000_000 <= m.hip_push[1] <= 785_000_000
            &&& -785_000_000 <= m.hip_rest[0] <= 1_050_000_000
            &&& -1_050_000_000 <= m.hip_rest[1] <= 785_000_000
            &&& -785_000_000 <= -p.hip_push[1] <= 1_050_000_000 ==> m.hip_push[0] == -p.hip_push[1]
            &&& -1_050_000_000 <= -p.hip_push[0] <= 785_000_000 ==> m.hip_push[1] == -p.hip_push[0]
            &&& -785_000_000 <= -p.hip_rest[1] <= 1_050_000_000 ==> m.hip_rest[0] == -p.hip_rest[1]
            &&& -1_050_000_000 <= -p.hip_rest[0] <= 785_000_000 ==> m.hip_rest[1] == -p.hip_rest[0]
            &&& -p.hip_push[1] > 1_050_000_000 ==> m.hip_push[0] == 1_050_000_000
            &&& -p.hip_push[0] > 785_000_000 ==> m.hip_push[1] == 785_000_000
        }),
{
}

/// The searchable fields stand in the vector in the order of [`BOUNDS`].
pub proof fn law_vector_order(p: RecoveryParams)
    ensures
        p.spec_vec().len() == 19,
        p.spec_vec()[0] == p.period_s && p.spec_vec()[1] == p.push_frac && p.spec_vec()[2] == p.ramp_s,
        p.spec_vec()[3] == p.hip_push[0] && p.spec_vec()[4] == p.hip_push[1],
        p.spec_vec()[5] == p.hip_rest[0] && p.spec_vec()[6] == p.hip_rest[1],
        p.spec_vec()[7] == p.thigh_push && p.spec_vec()[8] == p.calf_push,
        p.spec_vec()[9] == p.thigh_rest && p.spec_vec()[10] == p.calf_rest,
        p.spec_vec()[11] == p.arm_push && p.spec_vec()[12] == p.arm_rest,
        p.spec_vec()[13] == p.handoff_up && p.spec_vec()[14] == p.finish_hip,
        p.spec_vec()[15] == p.finish_thigh && p.spec_vec()[16] == p.finish_calf,
        p.spec_vec()[17] == p.max_rate_rad_s && p.spec_vec()[18] == p.stand_rate_rad_s,
        p.pinned() <==> p.finish_arm == 850_000_000 && p.stand_hip == 0 && p.stand_thigh
            == 900_000_000 && p.stand_calf == -1_800_000_000,
{
}

/// A table lists the fields in the order they are declared in.
pub proof fn law_table_order(row: Seq<i64>)
    requires
        row.len() == 23,
    ensures
        ({
            let p = RecoveryParams::spec_of(row);
            &&& p.period_s == row[0] && p.push_frac == row[1] && p.ramp_s == row[2]
            &&& p.hip_push[0] == row[3] && p.hip_push[1] == row[4]
            &&& p.hip_rest[0] == row[5] && p.hip_rest[1] == row[6]
            &&& p.thigh_push == row[7] && p.calf_push == row[8]
            &&& p.thigh_rest == row[9] && p.calf_rest == row[10]
            &&& p.arm_push == row[11] && p.arm_rest == row[12] && p.handoff_up == row[13]
            &&& p.finish_hip == row[14] && p.finish_thigh == row[15] && p.finish_calf == row[16]
            &&& p.finish_arm == row[17] && p.stand_hip == row[18] && p.stand_thigh == row[19]
            &&& p.stand_calf == row[20] && p.max_rate_rad_s == row[21]
            &&& p.stand_rate_rad_s == row[22]
        }),
{
}

/// One step of a rate limiter is its rate times the time, and nothing for a
/// rate or a time that is negative.
pub proof fn law_slew_step(s: Slew, dt: int)
    requires
        0 <= dt <= 1_000_000_000_000,
        s.max_rate_rad_s <= 1_000_000_000_000_000,
    ensures
        s.max_rate_rad_s >= 0 ==> -1_000_000_000 <= 2 * (s.spec_step(dt) * 1_000_000_000
            - s.max_rate_rad_s * dt) <= 1_000_000_000,
        s.max_rate_rad_s <= 0 ==> s.spec_step(dt) == 0,
{
    let r = s.max_rate_rad_s as int;
    law_product_is_near(r, dt);
    assert(r >= 0 ==> 0 <= r * dt <= 1_000_000_000_000_000 * 1_000_000_000_000) by (nonlinear_arith)
        requires
            0 <= dt <= 1_000_000_000_000,
            r <= 1_000_000_000_000_000,
    ;
    assert(r <= 0 ==> r * dt <= 0) by (nonlinear_arith)
        requires
            dt >= 0,
    ;
}

/// The side is decided by the first reading past the threshold, left or right
/// by its sign, and never again.
pub proof fn law_side_is_decided_once(mirror: Option<bool>, g: int)
    ensures
        mirror is Some ==> spec_latch(mirror, g) == mirror,
        mirror is None && g > 350_000_000 ==> spec_latch(mirror, g) == Some(false),
        mirror is None && g < -350_000_000 ==> spec_latch(mirror, g) == Some(true),
        mirror is None && -350_000_000 <= g <= 350_000_000 ==> spec_latch(mirror, g) is None,
        spec_swaps(Some(true)),
        !spec_swaps(Some(false)),
        !spec_swaps(None),
{
}

/// Time upright adds up while the trunk is past the threshold, and starts over
/// as soon as it is not.
pub proof fn law_upright_time(upright_s: int, up: int, dt: int)
    requires
        0 <= upright_s <= 1_000_000_000_000_000_000,
        0 <= dt <= 1_000_000_000_000_000_000,
    ensures
        up > 850_000_000 ==> spec_upright(upright_s, up, dt) == upright_s + dt,
        up <= 850_000_000 ==> spec_upright(upright_s, up, dt) == 0,
{
}

/// How far past its target a value is: nothing up to the target, and then its
/// excess as a share of the target.
pub proof fn law_excess(v: int, target: int)
    requires
        target > 0,
    ensures
        v <= target ==> spec_over(v, target) == 0,
        v >= target ==> {
            &&& spec_over(v, target) >= 0
            &&& -target <= 2 * (spec_over(v, target) * target - (v - target) * 1_000_000_000)
                <= target
        },
{
    lemma_round_div_near(v * ONE, target);
    lemma_round_div_exact(ONE as int, target);
    assert(ONE * target == target * ONE);
    let q = round_div(v * ONE, target);
    if v <= target {
        assert(v * ONE <= target * ONE);
        lemma_round_div_mono(v * ONE, ONE * target, target);
    } else {
        assert(v * ONE >= target * ONE);
        lemma_round_div_mono(ONE * target, v * ONE, target);
    }
    assert((q - ONE) * target == q * target - ONE * target) by (nonlinear_arith);
    assert((v - target) * 1_000_000_000 == v * ONE - target * ONE);
}

/// Roughness adds up the excess of all three quantities over their own
/// targets, six tenths of it, up to its cap.
pub proof fn law_roughness_counts_all_three(o: Outcome)
    ensures
        ({
            let sum = spec_over(o.rms_omega_rad_s as int, 1_000_000_000) + spec_over(
                o.rms_joint_rad_s as int,
                1_500_000_000,
            ) + spec_over(o.travel_m as int, 250_000_000);
            &&& 0 <= o.spec_roughness() <= 1_500_000_000
            &&& o.spec_roughness() < 1_500_000_000 ==> -5 <= 10 * o.spec_roughness() - 6 * sum <= 5
            &&& 6 * sum >= 15_000_000_000 ==> o.spec_roughness() == 1_500_000_000
        }),
{
    law_excess(o.rms_omega_rad_s as int, 1_000_000_000);
    law_excess(o.rms_joint_rad_s as int, 1_500_000_000);
    law_excess(o.travel_m as int, 250_000_000);
    let sum = spec_over(o.rms_omega_rad_s as int, 1_000_000_000) + spec_over(
        o.rms_joint_rad_s as int,
        1_500_000_000,
    ) + spec_over(o.travel_m as int, 250_000_000);
    lemma_round_div_near(6 * sum, 10);
    if 6 * sum >= 15_000_000_000 {
        lemma_round_div_mono(15_000_000_000, 6 * sum, 10);
        lemma_round_div_exact(1_500_000_000, 10);
    }
}

/// Each quantity past its own target costs six tenths of its excess, with the
/// other two under theirs and short of the cap.
pub proof fn law_each_excess_costs(o: Outcome)
    requires
        o.spec_roughness() < 1_500_000_000,
    ensures
        o.rms_omega_rad_s >= 1_000_000_000 && o.rms_joint_rad_s <= 1_500_000_000 && o.travel_m
            <= 250_000_000 ==> -8 <= 10 * o.spec_roughness() - 6 * (o.rms_omega_rad_s
            - 1_000_000_000) <= 8,
        o.rms_joint_rad_s >= 1_500_000_000 && o.rms_omega_rad_s <= 1_000_000_000 && o.travel_m
            <= 250_000_000 ==> -24 <= 30 * o.spec_roughness() - 12 * (o.rms_joint_rad_s
            - 1_500_000_000) <= 24,
        o.travel_m >= 250_000_000 && o.rms_omega_rad_s <= 1_000_000_000 && o.rms_joint_rad_s
            <= 1_500_000_000 ==> -8 <= 10 * o.spec_roughness() - 24 * (o.travel_m - 250_000_000)
            <= 8,
{
    law_roughness_counts_all_three(o);
    law_excess(o.rms_omega_rad_s as int, 1_000_000_000);
    law_excess(o.rms_joint_rad_s as int, 1_500_000_000);
    law_excess(o.travel_m as int, 250_000_000);
}

/// Sliding further always costs more, up to the cap, and moving faster never
/// costs less.
pub proof fn law_rougher_costs_more(a: Outcome, b: Outcome)
    requires
        a.rms_omega_rad_s <= b.rms_omega_rad_s,
        a.rms_joint_rad_s <= b.rms_joint_rad_s,
        a.travel_m <= b.travel_m,
    ensures
        a.spec_roughness() <= b.spec_roughness(),
        250_000_000 <= a.travel_m < b.travel_m && a.spec_roughness() < 1_500_000_000
            ==> a.spec_roughness() < b.spec_roughness(),
{
    let (x, y) = (a.rms_omega_rad_s as int, b.rms_omega_rad_s as int);
    let (u, v) = (a.rms_joint_rad_s as int, b.rms_joint_rad_s as int);
    let (r, s) = (a.travel_m as int, b.travel_m as int);
    lemma_round_div_mono(x * ONE, y * ONE, 1_000_000_000);
    lemma_round_div_mono(u * ONE, v * ONE, 1_500_000_000);
    lemma_round_div_mono(r * ONE, s * ONE, 250_000_000);
    law_excess(r, 250_000_000);
    law_excess(s, 250_000_000);
    let (sa, sb) = (
        spec_over(x, 1_000_000_000) + spec_over(u, 1_500_000_000) + spec_over(r, 250_000_000),
        spec_over(y, 1_000_000_000) + spec_over(v, 1_500_000_000) + spec_over(s, 250_000_000),
    );
    lemma_round_div_mono(6 * sa, 6 * sb, 10);
    law_roughness_counts_all_three(a);
    law_roughness_counts_all_three(b);
    if 250_000_000 <= r < s {
        assert(sb >= sa + 4);
        lemma_round_div_near(6 * sa, 10);
        lemma_round_div_near(6 * sb, 10);
    }
}

/// The score is the final attitude and three tenths of the peak, with half a
/// point more for a robot that ends upright.
pub proof fn law_score(o: Outcome)
    ensures
        ({
            let bonus = if o.final_up > 900_000_000 {
                500_000_000int
            } else {
                0
            };
            -5 <= 10 * (o.spec_score() - o.final_up - bonus) - 3 * o.peak_up <= 5
        }),
        o.spec_righted() <==> o.final_up > 900_000_000,
{
    lemma_round_div_near(3 * o.peak_up, 10);
}

} // verus!

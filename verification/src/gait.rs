//! Gaits and the settings each was tuned to.
use vstd::prelude::*;

verus! {

/// Gait family.
#[derive(Clone, Copy, Debug, PartialEq, Eq, Structural)]
pub enum GaitType {
    Trot,
    Walk,
    Pace,
    Bound,
    Crawl,
}

/// Which gait controller runs.
#[derive(Clone, Copy, Debug, PartialEq, Eq, Structural)]
pub enum GaitMode {
    /// Single rigid body model predictive control.
    Mpc,
    /// Model predictive control over the full centroidal dynamics.
    FullCentroidal,
}

/// A gait and its timing. The order the legs move in belongs to the family.
#[derive(Clone, Copy, Debug, PartialEq, Eq, Structural)]
pub struct GaitConfig {
    pub gait_type: GaitType,
    pub cycle_period_s: i64,
    pub duty_factor: i64,
    pub max_step_length_m: i64,
    pub swing_height_m: i64,
}

/// One gait's tuned settings: the gait, its cycle period, duty factor, longest
/// step, swing height and forward command.
pub type TunedRow = (GaitType, i64, i64, i64, i64, i64);

/// The settings each gait was tuned to.
pub const NAMIASHI_TUNED: [TunedRow; 3] = [
    (GaitType::Trot, 320_000_000, 500_000_000, 145_000_000, 40_000_000, 800_000_000),
    (GaitType::Walk, 500_000_000, 750_000_000, 145_000_000, 35_000_000, 330_000_000),
    (GaitType::Crawl, 800_000_000, 850_000_000, 145_000_000, 40_000_000, 170_000_000),
];

/// A gait's own row, or Trot's where it was never tuned.
pub open spec fn spec_tuned_row(gait: GaitType) -> TunedRow {
    match gait {
        GaitType::Walk => NAMIASHI_TUNED[1],
        GaitType::Crawl => NAMIASHI_TUNED[2],
        _ => NAMIASHI_TUNED[0],
    }
}

/// A gait's own row of [`NAMIASHI_TUNED`], or Trot's where it has none.
pub fn namiashi_tuned_row(gait: GaitType) -> (r: TunedRow)
    ensures
        r == spec_tuned_row(gait),
{
    let mut i: usize = 0;
    while i < 3
        invariant
            i <= 3,
            forall|j: int| 0 <= j < i ==> (#[trigger] NAMIASHI_TUNED[j]).0 != gait,
        decreases 3 - i,
    {
        if NAMIASHI_TUNED[i].0 == gait {
            return NAMIASHI_TUNED[i];
        }
        i = i + 1;
    }
    assert(NAMIASHI_TUNED[1].0 != gait && NAMIASHI_TUNED[2].0 != gait);
    NAMIASHI_TUNED[0]
}

/// The forward speed a gait was tuned to.
pub fn namiashi_tuned_cmd_vx(gait: GaitType) -> (r: i64)
    ensures
        r == spec_tuned_row(gait).5,
{
    namiashi_tuned_row(gait).5
}

/// The peak swing-foot lift a gait was tuned to.
pub fn namiashi_tuned_swing_height_m(gait: GaitType) -> (r: i64)
    ensures
        r == spec_tuned_row(gait).4,
{
    namiashi_tuned_row(gait).4
}

/// A gait with its tuned period, duty, step and swing: what a batch run of
/// that gait uses, so that a live switch lands on the same settings.
pub open spec fn spec_tuned_config(gait: GaitType) -> GaitConfig {
    let row = spec_tuned_row(gait);
    GaitConfig {
        gait_type: gait,
        cycle_period_s: row.1,
        duty_factor: row.2,
        max_step_length_m: row.3,
        swing_height_m: row.4,
    }
}

pub fn namiashi_tuned_gait_config(gait: GaitType) -> (r: GaitConfig)
    ensures
        r == spec_tuned_config(gait),
{
    let row = namiashi_tuned_row(gait);
    GaitConfig {
        gait_type: gait,
        cycle_period_s: row.1,
        duty_factor: row.2,
        max_step_length_m: row.3,
        swing_height_m: row.4,
    }
}

/// The gait a run uses without one being asked for.
pub fn family(gait: Option<GaitType>) -> (r: GaitType)
    ensures
        r == (match gait {
            Some(g) => g,
            None => GaitType::Trot,
        }),
{
    match gait {
        Some(g) => g,
        None => GaitType::Trot,
    }
}

pub open spec fn spec_or_own(asked: Option<i64>, own: i64) -> i64 {
    match asked {
        Some(v) => v,
        None => own,
    }
}

fn or_own(asked: Option<i64>, own: i64) -> (r: i64)
    ensures
        r == spec_or_own(asked, own),
{
    match asked {
        Some(v) => v,
        None => own,
    }
}

impl GaitConfig {
    pub open spec fn spec_overridden(
        self,
        cycle_period_s: Option<i64>,
        duty_factor: Option<i64>,
        max_step_length_m: Option<i64>,
        swing_height_m: Option<i64>,
    ) -> Self {
        GaitConfig {
            gait_type: self.gait_type,
            cycle_period_s: spec_or_own(cycle_period_s, self.cycle_period_s),
            duty_factor: spec_or_own(duty_factor, self.duty_factor),
            max_step_length_m: spec_or_own(max_step_length_m, self.max_step_length_m),
            swing_height_m: spec_or_own(swing_height_m, self.swing_height_m),
        }
    }

    /// This gait with whatever a run overrides.
    pub fn overridden(
        &self,
        cycle_period_s: Option<i64>,
        duty_factor: Option<i64>,
        max_step_length_m: Option<i64>,
        swing_height_m: Option<i64>,
    ) -> (r: Self)
        ensures
            r == self.spec_overridden(
                cycle_period_s,
                duty_factor,
                max_step_length_m,
                swing_height_m,
            ),
    {
        GaitConfig {
            gait_type: self.gait_type,
            cycle_period_s: or_own(cycle_period_s, self.cycle_period_s),
            duty_factor: or_own(duty_factor, self.duty_factor),
            max_step_length_m: or_own(max_step_length_m, self.max_step_length_m),
            swing_height_m: or_own(swing_height_m, self.swing_height_m),
        }
    }
}

/// Each tuned speed is one the gait can reach: what it covers in a stance is
/// no more than its longest step.
pub proof fn law_tuned_speed_is_reachable(gait: GaitType)
    ensures
        spec_tuned_row(gait).5 * spec_tuned_row(gait).1 * spec_tuned_row(gait).2
            <= spec_tuned_row(gait).3 * 1_000_000_000 * 1_000_000_000,
{
    let row = spec_tuned_row(gait);
    assert(row.5 * row.1 * row.2 <= row.3 * 1_000_000_000 * 1_000_000_000) by (nonlinear_arith)
        requires
            row.3 == 145_000_000,
            (row.5 == 800_000_000 && row.1 == 320_000_000 && row.2 == 500_000_000) || (row.5
                == 330_000_000 && row.1 == 500_000_000 && row.2 == 750_000_000) || (row.5
                == 170_000_000 && row.1 == 800_000_000 && row.2 == 850_000_000),
    ;
}

/// Only Trot, Walk and Crawl were tuned, each to a speed of its own.
pub proof fn law_tuned_gaits(gait: GaitType)
    ensures
        spec_tuned_row(gait).0 == gait <==> gait is Trot || gait is Walk || gait is Crawl,
        !(spec_tuned_row(gait).0 == gait) ==> spec_tuned_row(gait) == NAMIASHI_TUNED[0],
        spec_tuned_row(GaitType::Trot).5 > spec_tuned_row(GaitType::Walk).5,
        spec_tuned_row(GaitType::Walk).5 > spec_tuned_row(GaitType::Crawl).5,
{
}

/// A tuned gait keeps its own family, with the period, duty, step and swing
/// of its row.
pub proof fn law_tuned_config(gait: GaitType)
    ensures
        ({
            let c = spec_tuned_config(gait);
            &&& c.gait_type == gait
            &&& gait is Walk ==> c.cycle_period_s == 500_000_000 && c.duty_factor == 750_000_000
                && c.max_step_length_m == 145_000_000 && c.swing_height_m == 35_000_000
            &&& gait is Crawl ==> c.cycle_period_s == 800_000_000 && c.duty_factor == 850_000_000
                && c.max_step_length_m == 145_000_000 && c.swing_height_m == 40_000_000
            &&& !(gait is Walk) && !(gait is Crawl) ==> c.cycle_period_s == 320_000_000
                && c.duty_factor == 500_000_000 && c.max_step_length_m == 145_000_000
                && c.swing_height_m == 40_000_000
        }),
{
}

/// What a run asks for takes the place of the gait's own setting, each for
/// itself, and the family stays.
pub proof fn law_overrides(
    g: GaitConfig,
    cycle: Option<i64>,
    duty: Option<i64>,
    step: Option<i64>,
    swing: Option<i64>,
)
    ensures
        ({
            let r = g.spec_overridden(cycle, duty, step, swing);
            &&& r.gait_type == g.gait_type
            &&& cycle is Some ==> r.cycle_period_s == cycle->0
            &&& cycle is None ==> r.cycle_period_s == g.cycle_period_s
            &&& duty is Some ==> r.duty_factor == duty->0
            &&& duty is None ==> r.duty_factor == g.duty_factor
            &&& step is Some ==> r.max_step_length_m == step->0
            &&& step is None ==> r.max_step_length_m == g.max_step_length_m
            &&& swing is Some ==> r.swing_height_m == swing->0
            &&& swing is None ==> r.swing_height_m == g.swing_height_m
        }),
{
}

} // verus!

//! When things happen in a run: step counts, rates, the command schedule, the
//! push, and what the controller is told about its own velocity.
use crate::fixed::{
    div_round, fmul, law_product_is_near, lemma_round_div_exact, lemma_round_div_near, plus,
    round_div, sat, saturate, scaled, spec_abs, spec_clamp, spec_max, times, ONE,
};
use vstd::prelude::*;

verus! {

/// How many steps of `dt` make up `total`, to the nearest.
pub open spec fn spec_steps(total: int, dt: int) -> int {
    let n = if dt > 0 {
        round_div(total, dt)
    } else if dt < 0 {
        round_div(-total, -dt)
    } else if total > 0 {
        usize::MAX as int
    } else {
        0
    };
    spec_clamp(n, 0, usize::MAX as int)
}

fn to_count(n: i128) -> (r: usize)
    ensures
        r == spec_clamp(n as int, 0, usize::MAX as int),
{
    if n < 0 {
        0
    } else if n as u128 > usize::MAX as u128 {
        usize::MAX
    } else {
        n as usize
    }
}

/// How many steps of `dt` make up `total`, to the nearest and never fewer
/// than none.
pub fn steps(total: i64, dt: i64) -> (r: usize)
    ensures
        r == spec_steps(total as int, dt as int),
{
    if dt > 0 {
        to_count(div_round(total as i128, dt as i128))
    } else if dt < 0 {
        to_count(div_round(-(total as i128), -(dt as i128)))
    } else if total > 0 {
        usize::MAX
    } else {
        0
    }
}

/// How many physics ticks of `dt` pass between two ticks at `hz`.
pub open spec fn spec_decim(hz: int, dt: int) -> int {
    if hz * dt > 0 {
        spec_clamp(round_div(1_000_000_000_000_000_000, hz * dt), 1, usize::MAX as int)
    } else if hz * dt == 0 && hz >= 0 && dt >= 0 {
        usize::MAX as int
    } else {
        1
    }
}

/// How many physics ticks of `dt` pass between two ticks at `hz`, at least
/// one. Only rates that divide the physics rate can be had.
pub fn decim(hz: i64, dt: i64) -> (r: usize)
    ensures
        r == spec_decim(hz as int, dt as int),
        r >= 1,
{
    assert(-0x4000_0000_0000_0000_0000_0000_0000_0000 <= hz * dt
        <= 0x4000_0000_0000_0000_0000_0000_0000_0000) by (nonlinear_arith)
        requires
            -0x8000_0000_0000_0000 <= hz <= 0x7fff_ffff_ffff_ffff,
            -0x8000_0000_0000_0000 <= dt <= 0x7fff_ffff_ffff_ffff,
    ;
    let period: i128 = hz as i128 * dt as i128;
    if period > 0 {
        let n: usize = to_count(div_round(1_000_000_000_000_000_000, period));
        if n < 1 {
            1
        } else {
            n
        }
    } else if period == 0 && hz >= 0 && dt >= 0 {
        usize::MAX
    } else {
        1
    }
}

pub open spec fn spec_host_decim(rate_hz: Option<i64>, dt: int) -> int {
    match rate_hz {
        Some(hz) => spec_decim(hz as int, dt),
        None => 1,
    }
}

/// How many physics ticks pass between two runs of the host controller;
/// without a rate it runs on every one.
pub fn host_decim(rate_hz: Option<i64>, dt: i64) -> (r: usize)
    ensures
        r == spec_host_decim(rate_hz, dt as int),
        r >= 1,
{
    match rate_hz {
        Some(hz) => decim(hz, dt),
        None => 1,
    }
}

/// The rate frames are drawn at without one being asked for.
pub const RENDER_HZ: i64 = 60_000_000_000;

pub open spec fn spec_render_decim(render_hz: Option<i64>, dt: int) -> int {
    spec_decim(
        spec_max(
            match render_hz {
                Some(hz) => hz as int,
                None => RENDER_HZ as int,
            },
            ONE as int,
        ),
        dt,
    )
}

/// How many physics ticks pass between two drawn frames.
pub fn render_decim(render_hz: Option<i64>, dt: i64) -> (r: usize)
    ensures
        r == spec_render_decim(render_hz, dt as int),
        r >= 1,
{
    let asked: i64 = match render_hz {
        Some(hz) => hz,
        None => RENDER_HZ,
    };
    decim(
        if asked < ONE {
            ONE
        } else {
            asked
        },
        dt,
    )
}

pub open spec fn spec_is_tick(k: int, every: int) -> bool {
    k % every == 0
}

/// Whether the host controller runs on tick `k`.
pub fn is_tick_of(k: usize, every: usize) -> (r: bool)
    requires
        every >= 1,
    ensures
        r == spec_is_tick(k as int, every as int),
{
    k % every == 0
}

/// The time at tick `k`.
pub open spec fn spec_time(k: int, dt: int) -> int {
    sat(k * dt)
}

pub fn time_at(k: usize, dt: i64) -> (r: i64)
    ensures
        r == spec_time(k as int, dt as int),
{
    assert(-0x8000_0000_0000_0000_0000_0000_0000_0000 < k * dt
        < 0x7fff_ffff_ffff_ffff_ffff_ffff_ffff_ffff) by (nonlinear_arith)
        requires
            0 <= k <= 0xffff_ffff_ffff_ffff,
            -0x8000_0000_0000_0000 <= dt <= 0x7fff_ffff_ffff_ffff,
    ;
    saturate(k as i128 * dt as i128)
}

/// The time between two runs of the host controller.
pub fn host_dt(dt: i64, every: usize) -> (r: i64)
    ensures
        r == spec_time(every as int, dt as int),
{
    time_at(every, dt)
}

pub open spec fn spec_gait_dt(host_dt: i64, frozen: bool) -> i64 {
    if frozen {
        0
    } else {
        host_dt
    }
}

/// How far the gait's clock moves on a host tick; it stands still while it
/// is frozen.
pub fn gait_dt(host_dt: i64, frozen: bool) -> (r: i64)
    ensures
        r == spec_gait_dt(host_dt, frozen),
{
    if frozen {
        0
    } else {
        host_dt
    }
}

pub open spec fn spec_keeps_running(k: int, n_steps: int, watched: bool, window_open: bool) -> bool {
    if watched {
        window_open
    } else {
        k < n_steps
    }
}

/// Whether a run goes on at tick `k`. A run that is being watched goes on
/// until its window is closed; any other ends when its time is up.
pub fn keeps_running(k: usize, n_steps: usize, watched: bool, window_open: bool) -> (r: bool)
    ensures
        r == spec_keeps_running(k as int, n_steps as int, watched, window_open),
{
    if watched {
        window_open
    } else {
        k < n_steps
    }
}

/// One segment of a piecewise-constant command schedule: when it begins, and
/// the forward, sideways and turning commands.
pub type Segment = (i64, i64, i64, i64);

/// The last segment in the list that has begun.
pub open spec fn spec_scheduled(schedule: Seq<Segment>, t: int) -> Option<Segment>
    decreases schedule.len(),
{
    if schedule.len() == 0 {
        None
    } else if schedule.last().0 <= t {
        Some(schedule.last())
    } else {
        spec_scheduled(schedule.drop_last(), t)
    }
}

/// The last segment in the list that has begun at time `t`.
pub fn scheduled(schedule: &Vec<Segment>, t: i64) -> (r: Option<Segment>)
    ensures
        r == spec_scheduled(schedule@, t as int),
{
    let mut n: usize = schedule.len();
    assert(schedule@.take(n as int) =~= schedule@);
    while n > 0
        invariant
            n <= schedule.len(),
            spec_scheduled(schedule@, t as int) == spec_scheduled(
                schedule@.take(n as int),
                t as int,
            ),
        decreases n,
    {
        let seg = schedule[n - 1];
        assert(schedule@.take(n as int).last() == seg);
        assert(schedule@.take(n as int).drop_last() =~= schedule@.take(n - 1));
        if seg.0 <= t {
            return Some(seg);
        }
        n = n - 1;
    }
    None
}

/// Whether two commands differ in any component.
pub open spec fn spec_differs(a: [i64; 3], b: [i64; 3]) -> bool {
    spec_abs(a[0] - b[0]) > 1 || spec_abs(a[1] - b[1]) > 1 || spec_abs(a[2] - b[2]) > 1
}

pub fn gap_over_one(a: i64, b: i64) -> (r: bool)
    ensures
        r == (spec_abs(a - b) > 1),
{
    let d: i128 = a as i128 - b as i128;
    d > 1 || d < -1
}

/// Whether two commands differ by more than the smallest step.
pub fn differs(a: &[i64; 3], b: &[i64; 3]) -> (r: bool)
    ensures
        r == spec_differs(*a, *b),
{
    gap_over_one(a[0], b[0]) || gap_over_one(a[1], b[1]) || gap_over_one(a[2], b[2])
}

/// The command a tick of a run without a live session asks the gait for, if
/// it asks for a new one: the run's own on the tick its burn-in ends, then
/// whatever the schedule says, once it differs from the one in force.
pub fn batch_command(
    k: usize,
    burn_in_steps: usize,
    own: &[i64; 3],
    schedule: &Vec<Segment>,
    t: i64,
    now: &[i64; 3],
) -> (r: Option<[i64; 3]>)
    ensures
        match spec_batch(k as int, burn_in_steps as int, *own, schedule@, t as int, *now) {
            Some(c) => r is Some && r->0@ == c@,
            None => r is None,
        },
{
    let at_start = k == burn_in_steps;
    if k >= burn_in_steps {
        if let Some(seg) = scheduled(schedule, t) {
            let want: [i64; 3] = [seg.1, seg.2, seg.3];
            let in_force: [i64; 3] = if at_start {
                *own
            } else {
                *now
            };
            if differs(&in_force, &want) {
                return Some(want);
            }
        }
    }
    if at_start {
        Some(*own)
    } else {
        None
    }
}

/// What [`batch_command`] asks for.
pub open spec fn spec_batch(
    k: int,
    burn_in_steps: int,
    own: [i64; 3],
    schedule: Seq<Segment>,
    t: int,
    now: [i64; 3],
) -> Option<[i64; 3]> {
    let in_force = if k == burn_in_steps {
        own
    } else {
        now
    };
    match spec_scheduled(schedule, t) {
        Some(seg) if k >= burn_in_steps && spec_differs(in_force, [seg.1, seg.2, seg.3]) => Some(
            [seg.1, seg.2, seg.3],
        ),
        _ => if k == burn_in_steps {
            Some(own)
        } else {
            None
        },
    }
}

/// Whether the push begins on tick `k`, at time `t`.
pub open spec fn spec_push_starts(k: int, t: int, dt: int, t_push: int) -> bool {
    k > 0 && t >= t_push && t - dt < t_push
}

pub fn push_starts(k: usize, t: i64, dt: i64, t_push: i64) -> (r: bool)
    ensures
        r == spec_push_starts(k as int, t as int, dt as int, t_push as int),
{
    k > 0 && t >= t_push && (t as i128 - dt as i128) < t_push as i128
}

pub open spec fn spec_push_active(t: int, t_push: int, duration: int) -> bool {
    t_push <= t && t < t_push + duration
}

/// Whether a push that began at `t_push` is still being delivered.
pub fn push_active(t: i64, t_push: i64, duration: i64) -> (r: bool)
    ensures
        r == spec_push_active(t as int, t_push as int, duration as int),
{
    t >= t_push && (t as i128) < t_push as i128 + duration as i128
}

pub open spec fn spec_drifted(bias: i64, drift: i64, t: i64) -> int {
    sat(bias + sat(fmul(drift as int, t as int)))
}

/// A base position offset that starts at `bias` and drifts.
pub fn drifted(bias: i64, drift: i64, t: i64) -> (r: i64)
    ensures
        r == spec_drifted(bias, drift, t),
{
    plus(bias, times(drift, t))
}

/// What the controller is told about its own velocity.
#[derive(Clone, Copy, Debug, PartialEq, Eq, Structural)]
pub enum VelObs {
    /// What it is.
    Truth,
    /// Nothing: a stationary robot.
    Zero,
    /// The commanded velocity, as if it were doing what it was asked.
    Command,
    /// What it is, plus a constant error.
    Bias(i64, i64),
    /// What it was this long ago.
    Lag(i64),
}

/// The index of the sample taken `back` samples before the last of `n`, or
/// of the oldest.
pub open spec fn spec_lag_index(n: int, back: int) -> int {
    spec_max(n - 1 - back, 0)
}

/// What the controller is told, given every velocity so far (the present one
/// last), the command in the body frame, and the cosine and sine of the
/// heading.
pub open spec fn spec_observed(
    obs: VelObs,
    hist: Seq<[i64; 3]>,
    cmd: (i64, i64),
    cy: int,
    sy: int,
    dt: int,
) -> [i64; 3] {
    let now = hist.last();
    match obs {
        VelObs::Truth => now,
        VelObs::Zero => [0, 0, 0],
        VelObs::Command => [
            sat(fmul(cy, cmd.0 as int) - fmul(sy, cmd.1 as int)) as i64,
            sat(fmul(sy, cmd.0 as int) + fmul(cy, cmd.1 as int)) as i64,
            0,
        ],
        VelObs::Bias(bx, by) => [sat(now[0] + bx) as i64, sat(now[1] + by) as i64, now[2]],
        VelObs::Lag(secs) => hist[spec_lag_index(hist.len() as int, spec_steps(secs as int, dt))],
    }
}

pub fn observed_velocity(
    obs: &VelObs,
    hist: &Vec<[i64; 3]>,
    cmd: (i64, i64),
    cy: i64,
    sy: i64,
    dt: i64,
) -> (r: [i64; 3])
    requires
        hist.len() > 0,
    ensures
        r == spec_observed(*obs, hist@, cmd, cy as int, sy as int, dt as int),
{
    let n: usize = hist.len();
    let now: [i64; 3] = hist[n - 1];
    let r: [i64; 3] = match *obs {
        VelObs::Truth => now,
        VelObs::Zero => [0, 0, 0],
        VelObs::Command => [
            saturate(scaled(cy, cmd.0 as i128) - scaled(sy, cmd.1 as i128)),
            saturate(scaled(sy, cmd.0 as i128) + scaled(cy, cmd.1 as i128)),
            0,
        ],
        VelObs::Bias(bx, by) => [plus(now[0], bx), plus(now[1], by), now[2]],
        VelObs::Lag(secs) => {
            let back: usize = steps(secs, dt);
            let i: usize = if back >= n {
                0
            } else {
                n - 1 - back
            };
            hist[i]
        },
    };
    assert(r =~= spec_observed(*obs, hist@, cmd, cy as int, sy as int, dt as int));
    r
}

/// No lag, or no bias, is the truth.
pub proof fn law_no_lag_is_truth(
    hist: Seq<[i64; 3]>,
    cmd: (i64, i64),
    cy: int,
    sy: int,
    dt: int,
)
    requires
        hist.len() > 0,
    ensures
        spec_observed(VelObs::Lag(0), hist, cmd, cy, sy, dt) == hist.last(),
        spec_observed(VelObs::Bias(0, 0), hist, cmd, cy, sy, dt) == hist.last(),
{
    if dt > 0 {
        lemma_round_div_exact(0, dt);
    } else if dt < 0 {
        lemma_round_div_exact(0, -dt);
    }
    let now = hist.last();
    assert(spec_observed(VelObs::Bias(0, 0), hist, cmd, cy, sy, dt) =~= now);
}

/// A lag that reaches past the start of the run gives its first velocity.
pub proof fn law_lag_stops_at_the_start(
    secs: i64,
    hist: Seq<[i64; 3]>,
    cmd: (i64, i64),
    cy: int,
    sy: int,
    dt: int,
)
    requires
        hist.len() > 0,
        spec_steps(secs as int, dt) >= hist.len() - 1,
    ensures
        spec_observed(VelObs::Lag(secs), hist, cmd, cy, sy, dt) == hist[0],
{
}

/// Before the first segment begins nothing is scheduled; from then on, in a
/// list ordered by time, it is the segment that began last.
pub proof fn law_schedule_follows_time(schedule: Seq<Segment>, t: int)
    requires
        forall|i: int, j: int|
            0 <= i <= j < schedule.len() ==> (#[trigger] schedule[i]).0 <= (
            #[trigger] schedule[j]).0,
    ensures
        match spec_scheduled(schedule, t) {
            None => forall|i: int|
                0 <= i < schedule.len() ==> (#[trigger] schedule[i]).0 > t,
            Some(seg) => {
                &&& schedule.contains(seg)
                &&& seg.0 <= t
                &&& forall|i: int|
                    0 <= i < schedule.len() && (#[trigger] schedule[i]).0 <= t ==> schedule[i].0
                        <= seg.0
            },
        },
    decreases schedule.len(),
{
    if schedule.len() > 0 {
        let last = schedule.last();
        assert(schedule[schedule.len() - 1] == last);
        if last.0 > t {
            let rest = schedule.drop_last();
            law_schedule_follows_time(rest, t);
            assert forall|i: int| 0 <= i < schedule.len() - 1 implies #[trigger] schedule[i]
                == rest[i] by {}
            if let Some(seg) = spec_scheduled(rest, t) {
                let i = choose|i: int| 0 <= i < rest.len() && rest[i] == seg;
                assert(schedule[i] == seg);
            }
        }
    }
}

/// A push begins on one tick and no other.
pub proof fn law_push_starts_once(a: int, b: int, dt: int, t_push: int)
    requires
        dt > 0,
        spec_push_starts(a, a * dt, dt, t_push),
        spec_push_starts(b, b * dt, dt, t_push),
    ensures
        a == b,
{
    assert(a == b) by (nonlinear_arith)
        requires
            dt > 0,
            a * dt >= t_push,
            a * dt - dt < t_push,
            b * dt >= t_push,
            b * dt - dt < t_push,
    ;
}

/// A rate no faster than the physics is met to within half a tick.
pub proof fn law_decim_is_nearest(hz: int, dt: int)
    requires
        hz > 0,
        dt > 0,
        1 < spec_decim(hz, dt) < usize::MAX,
    ensures
        -(hz * dt) <= 2 * (spec_decim(hz, dt) * (hz * dt) - 1_000_000_000_000_000_000) <= hz * dt,
{
    assert(hz * dt > 0) by (nonlinear_arith)
        requires
            hz > 0,
            dt > 0,
    ;
    lemma_round_div_near(1_000_000_000_000_000_000, hz * dt);
}

/// A number of steps covers its time to within half a step; there is never
/// less than none, and steps of no length never cover anything.
pub proof fn law_steps_are_nearest(total: int, dt: int)
    ensures
        dt > 0 && 0 < spec_steps(total, dt) < usize::MAX ==> -dt <= 2 * (spec_steps(total, dt) * dt
            - total) <= dt,
        dt > 0 && spec_steps(total, dt) == 0 ==> 2 * total <= dt,
        dt > 0 && 2 * total < dt ==> spec_steps(total, dt) == 0,
        dt < 0 ==> spec_steps(total, dt) == spec_steps(-total, -dt),
        dt == 0 && total > 0 ==> spec_steps(total, dt) == usize::MAX,
        dt == 0 && total <= 0 ==> spec_steps(total, dt) == 0,
{
    if dt > 0 {
        lemma_round_div_near(total, dt);
        let n = round_div(total, dt);
        if n <= 0 {
            assert(n * dt <= 0) by (nonlinear_arith)
                requires
                    n <= 0,
                    dt > 0,
            ;
        } else {
            assert(n * dt >= dt) by (nonlinear_arith)
                requires
                    n >= 1,
                    dt > 0,
            ;
        }
    }
}

/// A rate at or above that of the physics runs on every tick, a rate of
/// nothing never does.
pub proof fn law_decim_ends(hz: int, dt: int)
    ensures
        spec_decim(hz, dt) >= 1,
        hz > 0 && dt > 0 && hz * dt >= 1_000_000_000_000_000_000 ==> spec_decim(hz, dt) == 1,
        hz == 0 && dt >= 0 ==> spec_decim(hz, dt) == usize::MAX,
        hz >= 0 && dt == 0 ==> spec_decim(hz, dt) == usize::MAX,
        hz < 0 && dt >= 0 ==> spec_decim(hz, dt) == 1,
        hz >= 0 && dt < 0 ==> spec_decim(hz, dt) == 1,
{
    let p = hz * dt;
    assert(hz == 0 || dt == 0 ==> p == 0) by (nonlinear_arith)
        requires
            p == hz * dt,
    ;
    assert(hz < 0 && dt > 0 ==> p < 0) by (nonlinear_arith)
        requires
            p == hz * dt,
    ;
    assert(hz > 0 && dt < 0 ==> p < 0) by (nonlinear_arith)
        requires
            p == hz * dt,
    ;
    if p >= 1_000_000_000_000_000_000 {
        lemma_round_div_near(1_000_000_000_000_000_000, p);
        let n = round_div(1_000_000_000_000_000_000, p);
        assert(n <= 1) by (nonlinear_arith)
            requires
                2 * (n * p - 1_000_000_000_000_000_000) <= p,
                p >= 1_000_000_000_000_000_000,
        ;
    }
}

/// Without a rate the host runs on every tick and frames are drawn at sixty a
/// second; a rate that is asked for is used, down to one frame a second.
pub proof fn law_rates_asked_for(hz: i64, dt: int)
    ensures
        spec_host_decim(None, dt) == 1,
        spec_host_decim(Some(hz), dt) == spec_decim(hz as int, dt),
        spec_render_decim(None, dt) == spec_decim(60_000_000_000, dt),
        hz >= 1_000_000_000 ==> spec_render_decim(Some(hz), dt) == spec_decim(hz as int, dt),
        hz <= 1_000_000_000 ==> spec_render_decim(Some(hz), dt) == spec_decim(1_000_000_000, dt),
{
}

/// Time runs by one step each tick.
pub proof fn law_time(k: int, dt: int)
    ensures
        i64::MIN <= k * dt <= i64::MAX ==> spec_time(k, dt) == k * dt,
        spec_time(0, dt) == 0,
        i64::MIN <= k * dt <= i64::MAX && i64::MIN <= (k + 1) * dt <= i64::MAX ==> spec_time(
            k + 1,
            dt,
        ) == spec_time(k, dt) + dt,
{
    assert((k + 1) * dt == k * dt + dt && 0 * dt == 0) by (nonlinear_arith);
}

/// A frozen clock stands still, any other moves on by the host's own step.
pub proof fn law_gait_clock(dt: i64)
    ensures
        spec_gait_dt(dt, true) == 0,
        spec_gait_dt(dt, false) == dt,
{
}

/// A watched run goes on as long as its window is open, any other until its
/// time is up.
pub proof fn law_run_goes_on(k: int, n: int, open: bool)
    ensures
        spec_keeps_running(k, n, true, open) == open,
        k < n ==> spec_keeps_running(k, n, false, open),
        k >= n ==> !spec_keeps_running(k, n, false, open),
{
}

/// Two commands are the same while no component differs by more than the
/// smallest step, up or down.
pub proof fn law_commands_differ(a: [i64; 3], b: [i64; 3], i: int)
    requires
        0 <= i < 3,
    ensures
        a[i] - b[i] > 1 ==> spec_differs(a, b),
        a[i] - b[i] < -1 ==> spec_differs(a, b),
        (forall|k: int| 0 <= k < 3 ==> -1 <= #[trigger] a[k] - b[k] <= 1) ==> !spec_differs(a, b),
        spec_differs(a, b) == spec_differs(b, a),
{
    if forall|k: int| 0 <= k < 3 ==> -1 <= #[trigger] a[k] - b[k] <= 1 {
        assert(-1 <= a[0] - b[0] <= 1 && -1 <= a[1] - b[1] <= 1 && -1 <= a[2] - b[2] <= 1);
    }
}

/// During the burn-in a run asks for nothing. On the tick it ends, it asks for
/// its own command, or for the scheduled one where that differs from it;
/// after it, for the scheduled one where that differs from the one in force.
pub proof fn law_batch(
    k: int,
    burn_in: int,
    own: [i64; 3],
    schedule: Seq<Segment>,
    t: int,
    now: [i64; 3],
)
    ensures
        ({
            let r = spec_batch(k, burn_in, own, schedule, t, now);
            let seg = spec_scheduled(schedule, t);
            &&& k < burn_in ==> r is None
            &&& k == burn_in ==> r is Some
            &&& k == burn_in && seg is None ==> r == Some(own)
            &&& k > burn_in && seg is None ==> r is None
            &&& seg is Some ==> {
                let s = seg->0;
                let want: [i64; 3] = [s.1, s.2, s.3];
                &&& k == burn_in && spec_differs(own, want) ==> r == Some(want)
                &&& k == burn_in && !spec_differs(own, want) ==> r == Some(own)
                &&& k > burn_in && spec_differs(now, want) ==> r == Some(want)
                &&& k > burn_in && !spec_differs(now, want) ==> r is None
            }
        }),
{
}

/// A push begins on the first tick at or after its time, and lasts for its
/// duration from that time on.
pub proof fn law_push(k: int, t: int, dt: int, t_push: int, duration: int)
    ensures
        spec_push_starts(k, t, dt, t_push) <==> 1 <= k && t - dt < t_push <= t,
        spec_push_active(t, t_push, duration) <==> 0 <= t - t_push < duration,
{
}

/// Every push after the start of a run begins on some tick.
pub proof fn law_push_starts(dt: int, t_push: int)
    requires
        dt > 0,
        t_push > 0,
    ensures
        exists|k: int| spec_push_starts(k, #[trigger] (k * dt), dt, t_push),
{
    let k = (t_push + dt - 1) / dt;
    assert(k * dt >= t_push && k * dt - dt < t_push && k > 0) by (nonlinear_arith)
        requires
            k == (t_push + dt - 1) / dt,
            dt > 0,
            t_push > 0,
    ;
    assert(spec_push_starts(k, k * dt, dt, t_push));
}

/// An offset starts at its bias and grows with the time, by the drift each
/// second.
pub proof fn law_drift(bias: i64, drift: i64, t: i64)
    requires
        i64::MIN < spec_drifted(bias, drift, t) < i64::MAX,
        -1_000_000_000_000_000 <= bias <= 1_000_000_000_000_000,
    ensures
        -1_000_000_000 <= 2 * ((spec_drifted(bias, drift, t) - bias) * 1_000_000_000 - drift * t)
            <= 1_000_000_000 || spec_drifted(bias, drift, t) - bias == i64::MAX || spec_drifted(
            bias,
            drift,
            t,
        ) - bias == i64::MIN,
{
    law_product_is_near(drift as int, t as int);
}

/// What the controller is told: the truth, nothing, the command turned into
/// the world's frame, the truth with a constant error in the plane, or what
/// was true a number of samples ago.
pub proof fn law_observed(
    hist: Seq<[i64; 3]>,
    cmd: (i64, i64),
    cy: int,
    sy: int,
    dt: int,
    bx: i64,
    by: i64,
    secs: i64,
)
    requires
        hist.len() > 0,
        -1_000_000_000_000_000_000 <= bx <= 1_000_000_000_000_000_000,
        -1_000_000_000_000_000_000 <= by <= 1_000_000_000_000_000_000,
        -1_000_000_000_000_000_000 <= hist.last()[0] <= 1_000_000_000_000_000_000,
        -1_000_000_000_000_000_000 <= hist.last()[1] <= 1_000_000_000_000_000_000,
    ensures
        ({
            let now = hist[hist.len() - 1];
            let zero = spec_observed(VelObs::Zero, hist, cmd, cy, sy, dt);
            let told = spec_observed(VelObs::Command, hist, cmd, cy, sy, dt);
            let off = spec_observed(VelObs::Bias(bx, by), hist, cmd, cy, sy, dt);
            let back = spec_steps(secs as int, dt);
            &&& spec_observed(VelObs::Truth, hist, cmd, cy, sy, dt) == now
            &&& zero[0] == 0 && zero[1] == 0 && zero[2] == 0
            &&& told[2] == 0
            &&& i64::MIN < told[0] < i64::MAX ==> -1_000_000_000 <= told[0] * 1_000_000_000 - (cy
                * cmd.0 - sy * cmd.1) <= 1_000_000_000
            &&& i64::MIN < told[1] < i64::MAX ==> -1_000_000_000 <= told[1] * 1_000_000_000 - (sy
                * cmd.0 + cy * cmd.1) <= 1_000_000_000
            &&& off[0] == now[0] + bx && off[1] == now[1] + by && off[2] == now[2]
            &&& 0 <= back < hist.len() ==> spec_observed(VelObs::Lag(secs), hist, cmd, cy, sy, dt)
                == hist[hist.len() - 1 - back]
        }),
{
    law_product_is_near(cy, cmd.0 as int);
    law_product_is_near(sy, cmd.1 as int);
    law_product_is_near(sy, cmd.0 as int);
    law_product_is_near(cy, cmd.1 as int);
}

/// A tick belongs to the host when it is a whole number of its periods, and
/// none in between does.
pub proof fn law_host_ticks(n: int, every: int, k: int)
    requires
        every >= 1,
        n >= 0,
    ensures
        spec_is_tick(n * every, every),
        n * every < k < (n + 1) * every ==> !spec_is_tick(k, every),
{
    assert((n * every) % every == 0) by (nonlinear_arith)
        requires
            every >= 1,
    ;
    if n * every < k < (n + 1) * every {
        assert(k % every == k - n * every) by (nonlinear_arith)
            requires
                every >= 1,
                n * every < k,
                k < (n + 1) * every,
        ;
    }
}

} // verus!

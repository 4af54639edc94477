//! Keyboard bindings for driving the robot.
//!
//! Hold to move, release to stop: a released key means zero on its axis that
//! same frame. The discrete controls act once per press instead, so holding
//! a key does not repeat.
use crate::fixed::{
    clamp, div_round, lemma_round_div_exact, lemma_round_div_mono, lemma_round_div_near,
    lemma_round_div_odd, plus, round_div, sat, saturate, spec_clamp, spec_max, spec_min, ONE,
};
use crate::gait::{namiashi_tuned_cmd_vx, namiashi_tuned_swing_height_m, spec_tuned_row, GaitType};
use vstd::prelude::*;

verus! {

/// The keys as they are in one frame.
#[derive(Clone, Copy, Debug, Default, PartialEq, Eq, Structural)]
pub struct Keys {
    pub shift: bool,
    pub held: Held,
    pub pressed: Pressed,
}

/// Which keys are down.
#[derive(Clone, Copy, Debug, Default, PartialEq, Eq, Structural)]
pub struct Held {
    pub w: bool,
    pub s: bool,
    pub a: bool,
    pub d: bool,
    pub q: bool,
    pub e: bool,
    pub y: bool,
    pub g: bool,
    pub up: bool,
    pub down: bool,
    pub left: bool,
    pub right: bool,
    pub page_up: bool,
    pub page_down: bool,
}

/// Which keys went down in this frame.
#[derive(Clone, Copy, Debug, Default, PartialEq, Eq, Structural)]
pub struct Pressed {
    pub k: bool,
    pub x: bool,
    pub v: bool,
    pub n: bool,
    pub b: bool,
    pub r: bool,
    pub f: bool,
    pub o: bool,
    pub l: bool,
    pub p: bool,
    pub period: bool,
    pub equals: bool,
    pub minus: bool,
    pub num1: bool,
    pub num2: bool,
    pub num3: bool,
}

/// What the keys write and the physics loop reads, and the telemetry that
/// goes the other way.
#[derive(Clone, Copy, Debug)]
pub struct LiveTeleop {
    /// Body-frame velocity command: forward, sideways, turning.
    pub cmd: [i64; 3],
    /// Requested gait.
    pub gait: GaitType,
    /// Requested peak swing-foot lift. Carried across a gait switch: a raised
    /// foot is usually raised deliberately.
    pub swing_height_m: i64,
    /// Trunk height relative to the tuned stance; positive raises.
    pub body_lift_m: i64,
    /// Whether the trunk is levelled from what the feet feel.
    pub level_enabled: bool,
    /// Arm pitch rate: one unit up, one down, or none. A rate, so that the
    /// arm's speed does not depend on how fast frames are drawn.
    pub arm_rate: i64,
    /// Commanded arm pitch. Telemetry.
    pub arm_angle_rad: i64,
    /// Whether the list of controls is up.
    pub show_help: bool,
    /// A respawn was asked for. A request, cleared once acted on: left set it
    /// would put the robot back on every tick.
    pub respawn_requested: bool,
    /// Whether that request is for the upside-down pose.
    pub respawn_inverted: bool,
    /// A recovery was asked for.
    pub recover_requested: bool,
    /// Whether that request is for the fast trajectory.
    pub recover_fast: bool,
    /// An attack was asked for.
    pub attack_requested: bool,
    /// Attack at this simulated time, once.
    pub attack_at_sim_s: Option<i64>,
    /// Recover at this simulated time, once.
    pub recover_at_sim_s: Option<i64>,
    /// How slippery the world is.
    pub ground_mu: i64,
    /// How slippery the controller believes it is.
    pub controller_mu: i64,
    /// Trunk position. Telemetry, as are the rest.
    pub body_x_m: i64,
    pub body_z_m: i64,
    /// Measured forward speed.
    pub measured_vx_mps: i64,
    /// Simulated time since the run started.
    pub sim_time_s: i64,
    /// Wall-clock time since the run started.
    pub wall_time_s: i64,
    /// Smoothed frame rate.
    pub fps: i64,
}

impl LiveTeleop {
    /// Stopped, in the given gait, at that gait's tuned swing height.
    pub open spec fn spec_new(gait: GaitType) -> Self {
        LiveTeleop {
            cmd: [0, 0, 0],
            gait,
            swing_height_m: spec_tuned_row(gait).4,
            body_lift_m: 0,
            level_enabled: true,
            arm_rate: 0,
            arm_angle_rad: 0,
            show_help: false,
            respawn_requested: false,
            respawn_inverted: false,
            recover_requested: false,
            recover_fast: false,
            attack_requested: false,
            attack_at_sim_s: None,
            recover_at_sim_s: None,
            ground_mu: 0,
            controller_mu: 0,
            body_x_m: 0,
            body_z_m: 0,
            measured_vx_mps: 0,
            sim_time_s: 0,
            wall_time_s: 0,
            fps: 0,
        }
    }

    /// Stopped, in the given gait, at that gait's tuned swing height.
    pub fn new(gait: GaitType) -> (r: Self)
        ensures
            r == Self::spec_new(gait),
    {
        let r = LiveTeleop {
            cmd: [0, 0, 0],
            gait,
            swing_height_m: namiashi_tuned_swing_height_m(gait),
            body_lift_m: 0,
            level_enabled: true,
            arm_rate: 0,
            arm_angle_rad: 0,
            show_help: false,
            respawn_requested: false,
            respawn_inverted: false,
            recover_requested: false,
            recover_fast: false,
            attack_requested: false,
            attack_at_sim_s: None,
            recover_at_sim_s: None,
            ground_mu: 0,
            controller_mu: 0,
            body_x_m: 0,
            body_z_m: 0,
            measured_vx_mps: 0,
            sim_time_s: 0,
            wall_time_s: 0,
            fps: 0,
        };
        assert(r.cmd =~= Self::spec_new(gait).cmd);
        r
    }
}

/// Exponentially smoothed frame rate meter, in billionths of a hertz.
#[derive(Clone, Copy, Debug, Default, PartialEq, Eq, Structural)]
pub struct FpsMeter {
    /// When the last frame was drawn.
    pub last: Option<i64>,
    pub fps: i64,
}

impl FpsMeter {
    pub fn new() -> (r: Self)
        ensures
            r == (FpsMeter { last: None, fps: 0 }),
    {
        FpsMeter { last: None, fps: 0 }
    }

    /// The rate that frames `dt` apart are drawn at.
    pub open spec fn spec_instant(dt: int) -> int {
        round_div(1_000_000_000_000_000_000, dt)
    }

    pub open spec fn spec_fps(self, now: int) -> int {
        if self.last is Some && now - self.last->0 > 0 {
            let instant = Self::spec_instant(now - self.last->0);
            if self.fps == 0 {
                instant
            } else {
                round_div(9 * self.fps + instant, 10)
            }
        } else {
            self.fps as int
        }
    }

    /// Call once per drawn frame, with the time; returns the smoothed rate.
    /// The first call has no interval to measure and reports 0.
    pub fn tick(&mut self, now: i64) -> (r: i64)
        ensures
            r == old(self).spec_fps(now as int),
            *final(self) == (FpsMeter { last: Some(now), fps: r }),
    {
        if let Some(prev) = self.last {
            let dt: i128 = now as i128 - prev as i128;
            if dt > 0 {
                let instant: i128 = div_round(1_000_000_000_000_000_000, dt);
                proof {
                    lemma_instant(dt as int);
                    lemma_blend(self.fps as int, instant as int);
                }
                if self.fps == 0 {
                    self.fps = instant as i64;
                } else {
                    self.fps = div_round(9 * self.fps as i128 + instant, 10) as i64;
                }
            }
        }
        self.last = Some(now);
        self.fps
    }
}

proof fn lemma_instant(dt: int)
    requires
        dt > 0,
    ensures
        0 <= FpsMeter::spec_instant(dt) <= 1_000_000_000_000_000_000,
{
    let n = 1_000_000_000_000_000_000int;
    lemma_round_div_near(n, dt);
    assert(n <= n * dt) by (nonlinear_arith)
        requires
            dt >= 1,
            n > 0,
    ;
    lemma_round_div_mono(n, n * dt, dt);
    lemma_round_div_exact(n, dt);
}

proof fn lemma_blend(fps: int, instant: int)
    ensures
        fps <= instant ==> fps <= round_div(9 * fps + instant, 10) <= instant,
        instant <= fps ==> instant <= round_div(9 * fps + instant, 10) <= fps,
{
    lemma_round_div_exact(fps, 10);
    lemma_round_div_exact(instant, 10);
    if fps <= instant {
        lemma_round_div_mono(fps * 10, 9 * fps + instant, 10);
        lemma_round_div_mono(9 * fps + instant, instant * 10, 10);
    } else {
        lemma_round_div_mono(instant * 10, 9 * fps + instant, 10);
        lemma_round_div_mono(9 * fps + instant, fps * 10, 10);
    }
}

/// Ceiling for a full command on each axis.
#[derive(Clone, Copy, Debug, PartialEq, Eq, Structural)]
pub struct SpeedEnvelope {
    pub vx: i64,
    pub vy: i64,
    pub wz: i64,
}

/// Trot's ceilings, which the other gaits' are scaled from.
pub const TROT_VX: i64 = 800_000_000;

pub const TROT_VY: i64 = 300_000_000;

pub const TROT_WZ: i64 = 1_000_000_000;

impl SpeedEnvelope {
    /// Forward, a gait's own tuned command; sideways and turning, Trot's
    /// scaled by the ratio of the two.
    pub open spec fn spec_for_gait(gait: GaitType) -> Self {
        let vx = spec_tuned_row(gait).5;
        SpeedEnvelope {
            vx,
            vy: round_div(TROT_VY * vx, TROT_VX as int) as i64,
            wz: round_div(TROT_WZ * vx, TROT_VX as int) as i64,
        }
    }

    pub fn for_gait(gait: GaitType) -> (r: Self)
        ensures
            r == Self::spec_for_gait(gait),
    {
        let vx: i64 = namiashi_tuned_cmd_vx(gait);
        SpeedEnvelope {
            vx,
            vy: div_round(TROT_VY as i128 * vx as i128, TROT_VX as i128) as i64,
            wz: div_round(TROT_WZ as i128 * vx as i128, TROT_VX as i128) as i64,
        }
    }
}

/// An amount in the direction a pair of keys points; both cancel out.
pub open spec fn spec_signed(pos: bool, neg: bool, amount: int) -> int {
    if pos == neg {
        0
    } else if pos {
        amount
    } else {
        -amount
    }
}

/// The command on one axis: the whole ceiling with shift, and half otherwise.
pub open spec fn spec_axis(pos: bool, neg: bool, top: int, shift: bool) -> int {
    sat(
        if shift {
            spec_signed(pos, neg, top)
        } else {
            round_div(spec_signed(pos, neg, top), 2)
        },
    )
}

fn axis(pos: bool, neg: bool, top: i64, shift: bool) -> (r: i64)
    ensures
        r == spec_axis(pos, neg, top as int, shift),
{
    let signed: i128 = if pos && !neg {
        top as i128
    } else if neg && !pos {
        -(top as i128)
    } else {
        0
    };
    if shift {
        saturate(signed)
    } else {
        saturate(div_round(signed, 2))
    }
}

/// The command the held keys ask for.
pub open spec fn spec_cmd(keys: Keys, env: SpeedEnvelope) -> [i64; 3] {
    let h = keys.held;
    [
        spec_axis(h.w || h.up, h.s || h.down, env.vx as int, keys.shift) as i64,
        spec_axis(h.q || h.page_up, h.e || h.page_down, env.vy as int, keys.shift) as i64,
        spec_axis(h.a || h.left, h.d || h.right, env.wz as int, keys.shift) as i64,
    ]
}

/// Read the velocity command straight off which keys are down. Nothing is
/// integrated or latched.
pub fn poll_cmd(keys: &Keys, env: SpeedEnvelope) -> (r: [i64; 3])
    ensures
        r == spec_cmd(*keys, env),
{
    let h = keys.held;
    let r: [i64; 3] = [
        axis(h.w || h.up, h.s || h.down, env.vx, keys.shift),
        axis(h.q || h.page_up, h.e || h.page_down, env.vy, keys.shift),
        axis(h.a || h.left, h.d || h.right, env.wz, keys.shift),
    ];
    assert(r =~= spec_cmd(*keys, env));
    r
}

/// Was the list of controls toggled?
pub fn poll_help_toggle(keys: &Keys) -> (r: bool)
    ensures
        r == keys.pressed.k,
{
    keys.pressed.k
}

/// One press worth of change.
fn step(pos: bool, neg: bool, size: i64) -> (r: i64)
    requires
        0 <= size <= 1_000_000_000,
    ensures
        r == spec_signed(pos, neg, size as int),
{
    if pos && !neg {
        size
    } else if neg && !pos {
        -size
    } else {
        0
    }
}

/// Arm direction held: one unit up, one down, or none.
pub fn poll_arm_rate(keys: &Keys) -> (r: i64)
    ensures
        r == spec_signed(keys.held.y, keys.held.g, ONE as int),
{
    step(keys.held.y, keys.held.g, ONE)
}

/// How fast the arm sweeps while its key is held.
pub const ARM_RATE_RAD_S: i64 = 800_000_000;

/// Was the arm attack asked for?
pub fn poll_attack(keys: &Keys) -> (r: bool)
    ensures
        r == keys.pressed.x,
{
    keys.pressed.x
}

pub open spec fn spec_recover(keys: Keys) -> Option<bool> {
    if keys.pressed.v {
        Some(keys.shift)
    } else {
        None
    }
}

/// Was a recovery asked for, and if so the fast one?
pub fn poll_recover(keys: &Keys) -> (r: Option<bool>)
    ensures
        r == spec_recover(*keys),
{
    if keys.pressed.v {
        Some(keys.shift)
    } else {
        None
    }
}

pub open spec fn spec_respawn(keys: Keys) -> Option<bool> {
    if keys.pressed.n {
        Some(keys.shift)
    } else {
        None
    }
}

/// Was a respawn asked for, and if so upside down?
pub fn poll_respawn(keys: &Keys) -> (r: Option<bool>)
    ensures
        r == spec_respawn(*keys),
{
    if keys.pressed.n {
        Some(keys.shift)
    } else {
        None
    }
}

/// Was levelling toggled?
pub fn poll_level_toggle(keys: &Keys) -> (r: bool)
    ensures
        r == keys.pressed.b,
{
    keys.pressed.b
}

/// One press worth of trunk height.
pub const BODY_LIFT_STEP_M: i64 = 5_000_000;

/// Limits of the live trunk height, either side of the tuned stance.
pub const BODY_LIFT_RANGE_M: (i64, i64) = (-50_000_000, 60_000_000);

/// Trunk height change asked for.
pub fn poll_body_lift_delta(keys: &Keys) -> (r: i64)
    ensures
        r == spec_signed(keys.pressed.equals, keys.pressed.minus, BODY_LIFT_STEP_M as int),
{
    step(keys.pressed.equals, keys.pressed.minus, BODY_LIFT_STEP_M)
}

/// One press worth of swing height.
pub const SWING_HEIGHT_STEP_M: i64 = 5_000_000;

/// Limits of the live swing height.
pub const SWING_HEIGHT_RANGE_M: (i64, i64) = (10_000_000, 200_000_000);

/// Swing height change asked for.
pub fn poll_swing_height_delta(keys: &Keys) -> (r: i64)
    ensures
        r == spec_signed(keys.pressed.r, keys.pressed.f, SWING_HEIGHT_STEP_M as int),
{
    step(keys.pressed.r, keys.pressed.f, SWING_HEIGHT_STEP_M)
}

/// One press worth of friction.
pub const FRICTION_STEP: i64 = 50_000_000;

/// Limits of both friction coefficients.
pub const FRICTION_RANGE: (i64, i64) = (50_000_000, 1_500_000_000);

/// Friction changes asked for: the world's, and the controller's idea of it.
pub fn poll_friction_deltas(keys: &Keys) -> (r: (i64, i64))
    ensures
        r.0 == spec_signed(keys.pressed.o, keys.pressed.l, FRICTION_STEP as int),
        r.1 == spec_signed(keys.pressed.p, keys.pressed.period, FRICTION_STEP as int),
{
    (
        step(keys.pressed.o, keys.pressed.l, FRICTION_STEP),
        step(keys.pressed.p, keys.pressed.period, FRICTION_STEP),
    )
}

pub open spec fn spec_poll_gait(keys: Keys) -> Option<GaitType> {
    if keys.pressed.num1 {
        Some(GaitType::Crawl)
    } else if keys.pressed.num2 {
        Some(GaitType::Walk)
    } else if keys.pressed.num3 {
        Some(GaitType::Trot)
    } else {
        None
    }
}

/// The gait asked for, if any.
pub fn poll_gait(keys: &Keys) -> (r: Option<GaitType>)
    ensures
        r == spec_poll_gait(*keys),
{
    if keys.pressed.num1 {
        Some(GaitType::Crawl)
    } else if keys.pressed.num2 {
        Some(GaitType::Walk)
    } else if keys.pressed.num3 {
        Some(GaitType::Trot)
    } else {
        None
    }
}

/// A value after a press: stepped and held to its range, or left alone.
pub open spec fn spec_nudged(v: int, delta: int, range: (i64, i64)) -> int {
    if delta == 0 {
        v
    } else {
        spec_clamp(sat(v + delta), range.0 as int, range.1 as int)
    }
}

fn nudge(v: i64, delta: i64, range: (i64, i64)) -> (r: i64)
    requires
        range.0 <= range.1,
    ensures
        r == spec_nudged(v as int, delta as int, range),
{
    if delta == 0 {
        v
    } else {
        clamp(plus(v, delta), range.0, range.1)
    }
}

impl LiveTeleop {
    /// The state after one frame of keys. The ceiling follows the requested
    /// gait, so that a switch at once changes what a full command means.
    pub open spec fn spec_apply(self, keys: Keys) -> Self {
        let p = keys.pressed;
        let gait = match spec_poll_gait(keys) {
            Some(g) => g,
            None => self.gait,
        };
        LiveTeleop {
            cmd: spec_cmd(keys, SpeedEnvelope::spec_for_gait(gait)),
            gait,
            swing_height_m: spec_nudged(
                self.swing_height_m as int,
                spec_signed(p.r, p.f, SWING_HEIGHT_STEP_M as int),
                SWING_HEIGHT_RANGE_M,
            ) as i64,
            body_lift_m: spec_nudged(
                self.body_lift_m as int,
                spec_signed(p.equals, p.minus, BODY_LIFT_STEP_M as int),
                BODY_LIFT_RANGE_M,
            ) as i64,
            level_enabled: self.level_enabled != p.b,
            arm_rate: (spec_signed(keys.held.y, keys.held.g, ONE as int)) as i64,
            show_help: self.show_help != p.k,
            respawn_requested: self.respawn_requested || p.n,
            respawn_inverted: if p.n {
                keys.shift
            } else {
                self.respawn_inverted
            },
            recover_requested: self.recover_requested || p.v,
            recover_fast: if p.v {
                keys.shift
            } else {
                self.recover_fast
            },
            attack_requested: self.attack_requested || p.x,
            ground_mu: spec_nudged(
                self.ground_mu as int,
                spec_signed(p.o, p.l, FRICTION_STEP as int),
                FRICTION_RANGE,
            ) as i64,
            controller_mu: spec_nudged(
                self.controller_mu as int,
                spec_signed(p.p, p.period, FRICTION_STEP as int),
                FRICTION_RANGE,
            ) as i64,
            ..self
        }
    }

    /// Take in one frame of keys.
    pub fn apply_keys(&mut self, keys: &Keys)
        ensures
            *final(self) == old(self).spec_apply(*keys),
    {
        let gait = match poll_gait(keys) {
            Some(g) => g,
            None => self.gait,
        };
        let respawn = poll_respawn(keys);
        let recover = poll_recover(keys);
        let (dg, dc): (i64, i64) = poll_friction_deltas(keys);
        let swing_height_m: i64 = nudge(
            self.swing_height_m,
            poll_swing_height_delta(keys),
            SWING_HEIGHT_RANGE_M,
        );
        let body_lift_m: i64 = nudge(
            self.body_lift_m,
            poll_body_lift_delta(keys),
            BODY_LIFT_RANGE_M,
        );
        *self = LiveTeleop {
            cmd: poll_cmd(keys, SpeedEnvelope::for_gait(gait)),
            gait,
            swing_height_m,
            body_lift_m,
            level_enabled: self.level_enabled != poll_level_toggle(keys),
            arm_rate: poll_arm_rate(keys),
            show_help: self.show_help != poll_help_toggle(keys),
            respawn_requested: self.respawn_requested || respawn.is_some(),
            respawn_inverted: match respawn {
                Some(inverted) => inverted,
                None => self.respawn_inverted,
            },
            recover_requested: self.recover_requested || recover.is_some(),
            recover_fast: match recover {
                Some(fast) => fast,
                None => self.recover_fast,
            },
            attack_requested: self.attack_requested || poll_attack(keys),
            ground_mu: nudge(self.ground_mu, dg, FRICTION_RANGE),
            controller_mu: nudge(self.controller_mu, dc, FRICTION_RANGE),
            ..*self
        };
    }
}

/// With no movement key down, and with opposing ones both down, the robot is
/// asked to stand still.
pub proof fn law_released_keys_stop(top: int, shift: bool)
    ensures
        spec_axis(false, false, top, shift) == 0,
        spec_axis(true, true, top, shift) == 0,
{
    lemma_round_div_exact(0, 2);
}

/// A command never exceeds its ceiling, and points where its key does.
pub proof fn law_command_within_envelope(pos: bool, neg: bool, top: i64, shift: bool)
    requires
        top >= 0,
    ensures
        -top <= spec_axis(pos, neg, top as int, shift) <= top,
        pos && !neg ==> spec_axis(pos, neg, top as int, shift) >= 0,
        neg && !pos ==> spec_axis(pos, neg, top as int, shift) <= 0,
{
    let t = top as int;
    lemma_round_div_mono(t, t * 2, 2);
    lemma_round_div_exact(t, 2);
    lemma_round_div_near(t, 2);
    lemma_round_div_odd(t, 2);
    lemma_round_div_exact(0, 2);
}

/// Shift doubles a command, up to the rounding of the half.
pub proof fn law_shift_doubles(pos: bool, neg: bool, top: i64)
    requires
        top > i64::MIN,
    ensures
        -1 <= spec_axis(pos, neg, top as int, true) - 2 * spec_axis(pos, neg, top as int, false)
            <= 1,
{
    let t = top as int;
    lemma_round_div_near(t, 2);
    lemma_round_div_near(-t, 2);
    lemma_round_div_near(0, 2);
}

/// The live settings stay within their ranges whatever is pressed.
pub proof fn law_settings_stay_in_range(s: LiveTeleop, keys: Keys)
    requires
        SWING_HEIGHT_RANGE_M.0 <= s.swing_height_m <= SWING_HEIGHT_RANGE_M.1,
        BODY_LIFT_RANGE_M.0 <= s.body_lift_m <= BODY_LIFT_RANGE_M.1,
    ensures
        SWING_HEIGHT_RANGE_M.0 <= s.spec_apply(keys).swing_height_m <= SWING_HEIGHT_RANGE_M.1,
        BODY_LIFT_RANGE_M.0 <= s.spec_apply(keys).body_lift_m <= BODY_LIFT_RANGE_M.1,
        keys.pressed.o != keys.pressed.l ==> FRICTION_RANGE.0 <= s.spec_apply(keys).ground_mu
            <= FRICTION_RANGE.1,
        keys.pressed.p != keys.pressed.period ==> FRICTION_RANGE.0 <= s.spec_apply(
            keys,
        ).controller_mu <= FRICTION_RANGE.1,
{
}

/// A frame in which nothing is pressed changes no setting and makes no
/// request: only the command and the arm follow what is held.
pub proof fn law_unpressed_frame_keeps_settings(s: LiveTeleop, keys: Keys)
    requires
        spec_poll_gait(keys) is None,
        !keys.pressed.k && !keys.pressed.x && !keys.pressed.v && !keys.pressed.n && !keys.pressed.b,
        !keys.pressed.r && !keys.pressed.f && !keys.pressed.o && !keys.pressed.l,
        !keys.pressed.p && !keys.pressed.period && !keys.pressed.equals && !keys.pressed.minus,
    ensures
        s.spec_apply(keys) == (LiveTeleop {
            cmd: spec_cmd(keys, SpeedEnvelope::spec_for_gait(s.gait)),
            arm_rate: (spec_signed(keys.held.y, keys.held.g, ONE as int)) as i64,
            ..s
        }),
{
}

/// Switching the gait keeps a swing height that was set by hand.
pub proof fn law_gait_switch_keeps_swing_height(s: LiveTeleop, keys: Keys)
    requires
        !keys.pressed.r && !keys.pressed.f,
    ensures
        s.spec_apply(keys).swing_height_m == s.swing_height_m,
{
}

/// The smoothed rate lies between the last one and the present one.
pub proof fn law_fps_is_smoothed(m: FpsMeter, now: int)
    requires
        m.last is Some,
        now > m.last->0,
        m.fps != 0,
    ensures
        ({
            let instant = FpsMeter::spec_instant(now - m.last->0);
            &&& spec_min(m.fps as int, instant) <= m.spec_fps(now)
            &&& m.spec_fps(now) <= spec_max(m.fps as int, instant)
        }),
{
    lemma_blend(m.fps as int, FpsMeter::spec_instant(now - m.last->0));
}

/// A gait's ceilings are Trot's, scaled by one ratio on every axis.
pub proof fn law_envelope_scales(gait: GaitType)
    ensures
        ({
            let e = SpeedEnvelope::spec_for_gait(gait);
            &&& e.vy * TROT_VX == TROT_VY * e.vx
            &&& e.wz * TROT_VX == TROT_WZ * e.vx
        }),
        SpeedEnvelope::spec_for_gait(GaitType::Trot) == (SpeedEnvelope {
            vx: TROT_VX,
            vy: TROT_VY,
            wz: TROT_WZ,
        }),
{
    let vx = spec_tuned_row(gait).5 as int;
    assert(vx == 800_000_000 || vx == 330_000_000 || vx == 170_000_000);
    lemma_round_div_exact(300_000_000, 800_000_000);
    lemma_round_div_exact(1_000_000_000, 800_000_000);
    lemma_round_div_exact(123_750_000, 800_000_000);
    lemma_round_div_exact(412_500_000, 800_000_000);
    lemma_round_div_exact(63_750_000, 800_000_000);
    lemma_round_div_exact(212_500_000, 800_000_000);
}

/// A key and its opposite command the same speed, one each way: all of the
/// ceiling with shift, half of it without.
pub proof fn law_axis(top: i64)
    requires
        top > i64::MIN,
    ensures
        spec_axis(true, false, top as int, true) == top,
        spec_axis(false, true, top as int, true) == -top,
        -1 <= 2 * spec_axis(true, false, top as int, false) - top <= 1,
        spec_axis(false, true, top as int, false) == -spec_axis(true, false, top as int, false),
{
    lemma_round_div_near(top as int, 2);
    lemma_round_div_odd(top as int, 2);
}

/// Each pair of keys drives its own axis, up to that axis's own ceiling, and
/// the arrow and page keys do the same as the letters.
pub proof fn law_keys_drive_their_axis(keys: Keys, env: SpeedEnvelope)
    requires
        env.vx >= 0,
        env.vy >= 0,
        env.wz >= 0,
        keys.shift,
    ensures
        ({
            let h = keys.held;
            let c = spec_cmd(keys, env);
            let forward = h.w || h.up;
            let back = h.s || h.down;
            let left = h.q || h.page_up;
            let right = h.e || h.page_down;
            let turn = h.a || h.left;
            let other = h.d || h.right;
            &&& forward && !back ==> c[0] == env.vx
            &&& back && !forward ==> c[0] == -env.vx
            &&& forward == back ==> c[0] == 0
            &&& left && !right ==> c[1] == env.vy
            &&& right && !left ==> c[1] == -env.vy
            &&& left == right ==> c[1] == 0
            &&& turn && !other ==> c[2] == env.wz
            &&& other && !turn ==> c[2] == -env.wz
            &&& turn == other ==> c[2] == 0
        }),
{
}

/// Without shift every axis is asked for half as much, to the nearest.
pub proof fn law_half_speed(keys: Keys, env: SpeedEnvelope, i: int)
    requires
        !keys.shift,
        0 <= i < 3,
        env.vx >= 0,
        env.vy >= 0,
        env.wz >= 0,
    ensures
        -1 <= 2 * spec_cmd(keys, env)[i] - spec_cmd((Keys { shift: true, ..keys }), env)[i] <= 1,
{
    lemma_round_div_near(env.vx as int, 2);
    lemma_round_div_near(env.vy as int, 2);
    lemma_round_div_near(env.wz as int, 2);
    lemma_round_div_near(-env.vx as int, 2);
    lemma_round_div_near(-env.vy as int, 2);
    lemma_round_div_near(-env.wz as int, 2);
    lemma_round_div_exact(0, 2);
}

/// A press moves a setting by one step toward its key, up to the end of the
/// range; opposing presses, and none, leave it alone.
pub proof fn law_press_moves_one_step(v: int, step: int, range: (i64, i64), pos: bool, neg: bool)
    requires
        range.0 <= v <= range.1,
        0 < step <= 1_000_000_000,
        -1_000_000_000_000 <= range.0,
        range.1 <= 1_000_000_000_000,
    ensures
        ({
            let n = spec_nudged(v, spec_signed(pos, neg, step), range);
            &&& pos == neg ==> n == v
            &&& pos && !neg && v + step <= range.1 ==> n == v + step
            &&& pos && !neg && v + step > range.1 ==> n == range.1
            &&& neg && !pos && v - step >= range.0 ==> n == v - step
            &&& neg && !pos && v - step < range.0 ==> n == range.0
        }),
{
}

/// Each pair of keys steps its own setting, by its own step and within its own
/// range.
pub proof fn law_which_key_steps_what(s: LiveTeleop, keys: Keys)
    ensures
        ({
            let (p, n) = (keys.pressed, s.spec_apply(keys));
            &&& n.swing_height_m == spec_nudged(
                s.swing_height_m as int,
                spec_signed(p.r, p.f, 5_000_000),
                (10_000_000, 200_000_000),
            )
            &&& n.body_lift_m == spec_nudged(
                s.body_lift_m as int,
                spec_signed(p.equals, p.minus, 5_000_000),
                ((-50_000_000) as i64, 60_000_000),
            )
            &&& n.ground_mu == spec_nudged(
                s.ground_mu as int,
                spec_signed(p.o, p.l, 50_000_000),
                (50_000_000, 1_500_000_000),
            )
            &&& n.controller_mu == spec_nudged(
                s.controller_mu as int,
                spec_signed(p.p, p.period, 50_000_000),
                (50_000_000, 1_500_000_000),
            )
        }),
{
}

/// The other keys: the number keys pick a gait, the toggles flip, a request is
/// made once its key is pressed and shift picks its kind, the arm follows the
/// held pair, and what is measured is not touched.
pub proof fn law_what_keys_do(s: LiveTeleop, keys: Keys)
    ensures
        ({
            let (p, n) = (keys.pressed, s.spec_apply(keys));
            &&& p.num1 ==> n.gait == GaitType::Crawl
            &&& !p.num1 && p.num2 ==> n.gait == GaitType::Walk
            &&& !p.num1 && !p.num2 && p.num3 ==> n.gait == GaitType::Trot
            &&& !p.num1 && !p.num2 && !p.num3 ==> n.gait == s.gait
            &&& n.cmd == spec_cmd(keys, SpeedEnvelope::spec_for_gait(n.gait))
            &&& p.b ==> n.level_enabled == !s.level_enabled
            &&& !p.b ==> n.level_enabled == s.level_enabled
            &&& p.k ==> n.show_help == !s.show_help
            &&& !p.k ==> n.show_help == s.show_help
            &&& keys.held.y && !keys.held.g ==> n.arm_rate == 1_000_000_000
            &&& keys.held.g && !keys.held.y ==> n.arm_rate == -1_000_000_000
            &&& keys.held.g == keys.held.y ==> n.arm_rate == 0
            &&& p.n ==> n.respawn_requested && n.respawn_inverted == keys.shift
            &&& !p.n ==> n.respawn_requested == s.respawn_requested && n.respawn_inverted
                == s.respawn_inverted
            &&& p.v ==> n.recover_requested && n.recover_fast == keys.shift
            &&& !p.v ==> n.recover_requested == s.recover_requested && n.recover_fast
                == s.recover_fast
            &&& p.x ==> n.attack_requested
            &&& !p.x ==> n.attack_requested == s.attack_requested
            &&& n.attack_at_sim_s == s.attack_at_sim_s && n.recover_at_sim_s == s.recover_at_sim_s
            &&& n.arm_angle_rad == s.arm_angle_rad && n.body_x_m == s.body_x_m && n.body_z_m
                == s.body_z_m
            &&& n.measured_vx_mps == s.measured_vx_mps && n.sim_time_s == s.sim_time_s
                && n.wall_time_s == s.wall_time_s && n.fps == s.fps
        }),
{
}

/// The frame rate is one over the time between frames, smoothed nine to one
/// with the rate before, and kept where no time has passed.
pub proof fn law_frame_rate(m: FpsMeter, now: int)
    ensures
        m.last is None ==> m.spec_fps(now) == m.fps,
        m.last is Some && now <= m.last->0 ==> m.spec_fps(now) == m.fps,
        m.last is Some && now > m.last->0 ==> {
            let dt = now - m.last->0;
            let instant = FpsMeter::spec_instant(dt);
            &&& -dt <= 2 * (instant * dt - 1_000_000_000_000_000_000) <= dt
            &&& m.fps == 0 ==> m.spec_fps(now) == instant
            &&& m.fps != 0 ==> -5 <= 10 * m.spec_fps(now) - (9 * m.fps + instant) <= 5
        },
{
    if m.last is Some && now > m.last->0 {
        let dt = now - m.last->0;
        lemma_round_div_near(1_000_000_000_000_000_000, dt);
        lemma_round_div_near(9 * m.fps + FpsMeter::spec_instant(dt), 10);
    }
}

/// A session starts stopped, in its gait, at the swing height that was tuned
/// for it.
pub proof fn law_starts_stopped(gait: GaitType)
    ensures
        ({
            let s = LiveTeleop::spec_new(gait);
            &&& s.gait == gait && s.swing_height_m == spec_tuned_row(gait).4
            &&& s.cmd[0] == 0 && s.cmd[1] == 0 && s.cmd[2] == 0
            &&& s.body_lift_m == 0 && s.level_enabled && s.arm_rate == 0 && !s.show_help
            &&& !s.respawn_requested && !s.recover_requested && !s.attack_requested
            &&& s.attack_at_sim_s is None && s.recover_at_sim_s is None
        }),
{
}

/// A recovery and a respawn are asked for by their own keys, and shift picks
/// the fast one and the upside-down one.
pub proof fn law_requests(keys: Keys)
    ensures
        keys.pressed.v ==> spec_recover(keys) == Some(keys.shift),
        !keys.pressed.v ==> spec_recover(keys) is None,
        keys.pressed.n ==> spec_respawn(keys) == Some(keys.shift),
        !keys.pressed.n ==> spec_respawn(keys) is None,
{
}

} // verus!

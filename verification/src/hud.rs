//! What the overlay shows: everything the keys control, and what the robot
//! is doing about it.
use crate::decimal::{fixed, spec_fixed};
use crate::fixed::{
    div_round, fdiv, law_quotient_is_near, lemma_round_div_near, ratio, round_div, sat, saturate,
};
use crate::gait::{namiashi_tuned_swing_height_m, spec_tuned_row, GaitType};
use crate::teleop::{LiveTeleop, SpeedEnvelope};
use crate::text::{chars_of, put, put_all, text_of};
use vstd::prelude::*;

verus! {

/// One line of the overlay.
#[derive(Debug)]
pub enum HudItem {
    Title { text: String },
    Separator,
    /// A name, padded to ten characters, and a value.
    Row { key: String, value: String },
    Footer { text: String },
}

/// One line of the overlay, as text.
pub ghost enum HudText {
    Title { text: Seq<char> },
    Separator,
    Row { key: Seq<char>, value: Seq<char> },
    Footer { text: Seq<char> },
}

impl View for HudItem {
    type V = HudText;

    open spec fn view(&self) -> HudText {
        match *self {
            HudItem::Title { text } => HudText::Title { text: text@ },
            HudItem::Separator => HudText::Separator,
            HudItem::Row { key, value } => HudText::Row { key: key@, value: value@ },
            HudItem::Footer { text } => HudText::Footer { text: text@ },
        }
    }
}

/// The texts of some overlay lines.
pub open spec fn item_views(v: Seq<HudItem>) -> Seq<HudText> {
    v.map_values(|i: HudItem| i@)
}

/// `s` with spaces after it, up to `n` characters.
pub open spec fn spec_pad(s: Seq<char>, n: nat) -> Seq<char>
    decreases n - s.len(),
{
    if s.len() >= n {
        s
    } else {
        spec_pad(s.push(' '), n)
    }
}

pub fn pad(s: &str, n: usize) -> (r: String)
    ensures
        r@ == spec_pad(s@, n as nat),
{
    let mut out = chars_of(s);
    while out.len() < n
        invariant
            spec_pad(out@, n as nat) == spec_pad(s@, n as nat),
        decreases n - out.len(),
    {
        out.push(' ');
    }
    text_of(&out)
}

/// The name of a gait.
pub open spec fn spec_gait_name(gait: GaitType) -> Seq<char> {
    match gait {
        GaitType::Trot => "Trot"@,
        GaitType::Walk => "Walk"@,
        GaitType::Pace => "Pace"@,
        GaitType::Bound => "Bound"@,
        GaitType::Crawl => "Crawl"@,
    }
}

pub fn gait_name(gait: GaitType) -> (r: &'static str)
    ensures
        r@ == spec_gait_name(gait),
{
    match gait {
        GaitType::Trot => "Trot",
        GaitType::Walk => "Walk",
        GaitType::Pace => "Pace",
        GaitType::Bound => "Bound",
        GaitType::Crawl => "Crawl",
    }
}

/// Half a turn in radians, in units of 1e-15.
pub const HALF_TURN: i128 = 3_141_592_653_589_793;

/// An angle in degrees.
pub open spec fn spec_degrees(rad: int) -> int {
    sat(round_div(rad * 180_000_000_000_000_000, HALF_TURN as int))
}

pub fn degrees(rad: i64) -> (r: i64)
    ensures
        r == spec_degrees(rad as int),
{
    saturate(div_round(rad as i128 * 180_000_000_000_000_000, HALF_TURN))
}

/// How simulated time compares with the clock on the wall.
pub open spec fn spec_real_time(st: LiveTeleop) -> int {
    if st.wall_time_s > 1 {
        sat(fdiv(st.sim_time_s as int, st.wall_time_s as int))
    } else {
        0
    }
}

/// What to say of the controller's idea of friction next to the real one.
pub open spec fn spec_friction_note(st: LiveTeleop) -> Seq<char> {
    if st.controller_mu > st.ground_mu + 1 {
        "  OVER-ASSUMED"@
    } else if st.controller_mu < st.ground_mu - 1 {
        "  (conservative)"@
    } else {
        "  = matched"@
    }
}

fn friction_note(st: &LiveTeleop) -> (r: &'static str)
    ensures
        r@ == spec_friction_note(*st),
{
    let d: i128 = st.controller_mu as i128 - st.ground_mu as i128;
    if d > 1 {
        "  OVER-ASSUMED"
    } else if d < -1 {
        "  (conservative)"
    } else {
        "  = matched"
    }
}

pub open spec fn spec_row(key: Seq<char>, value: Seq<char>) -> HudText {
    HudText::Row { key: spec_pad(key, 10), value }
}

/// What the arm's row says.
pub open spec fn spec_arm_text(st: LiveTeleop) -> Seq<char> {
    spec_fixed(st.arm_angle_rad as int, 2, true) + " rad ("@ + spec_fixed(
        spec_degrees(st.arm_angle_rad as int),
        0,
        true,
    ) + " deg)"@
}

/// What the swing height's row says.
pub open spec fn spec_swing_text(st: LiveTeleop) -> Seq<char> {
    spec_fixed(st.swing_height_m as int, 3, false) + " m (tuned "@ + spec_fixed(
        spec_tuned_row(st.gait).4 as int,
        3,
        false,
    ) + ")"@
}

/// What a command's row says: the command, and its ceiling.
pub open spec fn spec_cmd_text(v: int, top: int, unit: Seq<char>) -> Seq<char> {
    spec_fixed(v, 3, true) + " / "@ + spec_fixed(top, 3, false) + unit
}

/// What the time's row says.
pub open spec fn spec_time_text(st: LiveTeleop) -> Seq<char> {
    spec_fixed(st.sim_time_s as int, 1, false) + " s  (rt x"@ + spec_fixed(
        spec_real_time(st),
        2,
        false,
    ) + ")"@
}

/// The part of the overlay about the gait; a controller without a gait has
/// no such knobs to show.
pub open spec fn spec_gait_rows(st: LiveTeleop) -> Seq<HudText> {
    seq![
        spec_row("gait"@, spec_gait_name(st.gait)),
        spec_row("arm"@, spec_arm_text(st)),
        spec_row("levelling"@, if st.level_enabled {
            "ON  (IMU + encoders)"@
        } else {
            "off"@
        }),
        spec_row("body h"@, spec_fixed(st.body_lift_m as int, 3, true) + " m from tuned"@),
        spec_row("swing h"@, spec_swing_text(st)),
    ]
}

/// The part about the command.
pub open spec fn spec_cmd_rows(st: LiveTeleop, env: SpeedEnvelope, fast: bool) -> Seq<HudText> {
    seq![
        HudText::Separator,
        spec_row("speed"@, if fast {
            "FULL"@
        } else {
            "half"@
        }),
        spec_row("vx cmd"@, spec_cmd_text(st.cmd[0] as int, env.vx as int, " m/s"@)),
        spec_row("vy cmd"@, spec_cmd_text(st.cmd[1] as int, env.vy as int, " m/s"@)),
        spec_row("wz cmd"@, spec_cmd_text(st.cmd[2] as int, env.wz as int, " rad/s"@)),
    ]
}

/// The part about what the robot is doing.
pub open spec fn spec_state_rows(st: LiveTeleop) -> Seq<HudText> {
    seq![
        HudText::Separator,
        spec_row("vx meas"@, spec_fixed(st.measured_vx_mps as int, 3, true) + " m/s"@),
        spec_row("trunk x"@, spec_fixed(st.body_x_m as int, 3, true) + " m"@),
        spec_row("trunk z"@, spec_fixed(st.body_z_m as int, 3, true) + " m"@),
        HudText::Separator,
        spec_row("fps"@, spec_fixed(st.fps as int, 1, false)),
        spec_row("time"@, spec_time_text(st)),
        HudText::Separator,
        HudText::Footer {
            text: if st.show_help {
                "[K] hide controls"@
            } else {
                "[K] controls"@
            },
        },
    ]
}

/// The overlay, from top to bottom.
pub open spec fn spec_hud(
    st: LiveTeleop,
    env: SpeedEnvelope,
    controller: Seq<char>,
    gaited: bool,
    fast: bool,
) -> Seq<HudText> {
    seq![HudText::Title { text: controller }, HudText::Separator] + (if gaited {
        spec_gait_rows(st)
    } else {
        seq![]
    }) + seq![spec_row("ground mu"@, spec_fixed(st.ground_mu as int, 2, false))] + (if gaited {
        seq![
            spec_row(
                "ctrl mu"@,
                spec_fixed(st.controller_mu as int, 2, false) + spec_friction_note(st),
            ),
        ]
    } else {
        seq![]
    }) + spec_cmd_rows(st, env, fast) + spec_state_rows(st)
}

fn add_row(out: &mut Vec<HudItem>, key: &str, value: &Vec<char>)
    ensures
        item_views(final(out)@) == item_views(old(out)@).push(spec_row(key@, value@)),
{
    out.push(HudItem::Row { key: pad(key, 10), value: text_of(value) });
    assert(item_views(out@) =~= item_views(old(out)@).push(spec_row(key@, value@)));
}

fn add_separator(out: &mut Vec<HudItem>)
    ensures
        item_views(final(out)@) == item_views(old(out)@).push(HudText::Separator),
{
    out.push(HudItem::Separator);
    assert(item_views(out@) =~= item_views(old(out)@).push(HudText::Separator));
}

/// A number followed by some text.
fn number(v: i64, places: u32, plus: bool, unit: &str) -> (r: Vec<char>)
    requires
        places <= 9,
    ensures
        r@ == spec_fixed(v as int, places as nat, plus) + unit@,
{
    let mut out = fixed(v, places, plus);
    put(&mut out, unit);
    out
}

fn add_gait_rows(out: &mut Vec<HudItem>, st: &LiveTeleop)
    ensures
        item_views(final(out)@) == item_views(old(out)@) + spec_gait_rows(*st),
{
    add_row(out, "gait", &chars_of(gait_name(st.gait)));
    let mut arm = number(st.arm_angle_rad, 2, true, " rad (");
    put_all(&mut arm, &fixed(degrees(st.arm_angle_rad), 0, true));
    put(&mut arm, " deg)");
    assert(arm@ =~= spec_arm_text(*st));
    add_row(out, "arm", &arm);
    let level = if st.level_enabled {
        "ON  (IMU + encoders)"
    } else {
        "off"
    };
    add_row(out, "levelling", &chars_of(level));
    add_row(out, "body h", &number(st.body_lift_m, 3, true, " m from tuned"));
    let mut swing = number(st.swing_height_m, 3, false, " m (tuned ");
    put_all(&mut swing, &fixed(namiashi_tuned_swing_height_m(st.gait), 3, false));
    put(&mut swing, ")");
    assert(swing@ =~= spec_swing_text(*st));
    add_row(out, "swing h", &swing);
    assert(item_views(out@) =~= item_views(old(out)@) + spec_gait_rows(*st));
}

fn cmd_text(v: i64, top: i64, unit: &str) -> (r: Vec<char>)
    ensures
        r@ == spec_cmd_text(v as int, top as int, unit@),
{
    let mut out = number(v, 3, true, " / ");
    put_all(&mut out, &fixed(top, 3, false));
    put(&mut out, unit);
    out
}

fn add_cmd_rows(out: &mut Vec<HudItem>, st: &LiveTeleop, env: &SpeedEnvelope, fast: bool)
    ensures
        item_views(final(out)@) == item_views(old(out)@) + spec_cmd_rows(*st, *env, fast),
{
    add_separator(out);
    let speed = if fast {
        "FULL"
    } else {
        "half"
    };
    add_row(out, "speed", &chars_of(speed));
    add_row(out, "vx cmd", &cmd_text(st.cmd[0], env.vx, " m/s"));
    add_row(out, "vy cmd", &cmd_text(st.cmd[1], env.vy, " m/s"));
    add_row(out, "wz cmd", &cmd_text(st.cmd[2], env.wz, " rad/s"));
    assert(item_views(out@) =~= item_views(old(out)@) + spec_cmd_rows(*st, *env, fast));
}

fn add_state_rows(out: &mut Vec<HudItem>, st: &LiveTeleop)
    ensures
        item_views(final(out)@) == item_views(old(out)@) + spec_state_rows(*st),
{
    add_separator(out);
    add_row(out, "vx meas", &number(st.measured_vx_mps, 3, true, " m/s"));
    add_row(out, "trunk x", &number(st.body_x_m, 3, true, " m"));
    add_row(out, "trunk z", &number(st.body_z_m, 3, true, " m"));
    add_separator(out);
    add_row(out, "fps", &fixed(st.fps, 1, false));
    let rt: i64 = if st.wall_time_s > 1 {
        ratio(st.sim_time_s, st.wall_time_s)
    } else {
        0
    };
    let mut time = number(st.sim_time_s, 1, false, " s  (rt x");
    put_all(&mut time, &fixed(rt, 2, false));
    put(&mut time, ")");
    assert(time@ =~= spec_time_text(*st));
    add_row(out, "time", &time);
    add_separator(out);
    let foot = if st.show_help {
        "[K] hide controls"
    } else {
        "[K] controls"
    };
    let ghost before = item_views(out@);
    out.push(HudItem::Footer { text: text_of(&chars_of(foot)) });
    assert(item_views(out@) =~= before.push(HudText::Footer { text: foot@ }));
    assert(item_views(out@) =~= item_views(old(out)@) + spec_state_rows(*st));
}

/// The overlay, from top to bottom. `gaited` is false for a controller that
/// has no gait, and `fast` says whether full speed is being asked for.
pub fn draw_hud(
    st: &LiveTeleop,
    env: &SpeedEnvelope,
    controller: &str,
    gaited: bool,
    fast: bool,
) -> (r: Vec<HudItem>)
    ensures
        item_views(r@) == spec_hud(*st, *env, controller@, gaited, fast),
{
    let mut out: Vec<HudItem> = Vec::new();
    out.push(HudItem::Title { text: text_of(&chars_of(controller)) });
    add_separator(&mut out);
    assert(item_views(out@) =~= seq![
        HudText::Title { text: controller@ },
        HudText::Separator,
    ]);
    if gaited {
        add_gait_rows(&mut out, st);
    }
    add_row(&mut out, "ground mu", &fixed(st.ground_mu, 2, false));
    if gaited {
        add_row(&mut out, "ctrl mu", &number(st.controller_mu, 2, false, friction_note(st)));
    }
    let ghost top = item_views(out@);
    add_cmd_rows(&mut out, st, env, fast);
    add_state_rows(&mut out, st);
    assert(item_views(out@) =~= spec_hud(*st, *env, controller@, gaited, fast));
    out
}

/// How many bindings there are.
pub const N_BINDINGS: usize = 17;

/// The keys of the `i`-th binding and what they do.
pub open spec fn spec_binding(i: int) -> (Seq<char>, Seq<char>) {
    if i == 0 {
        ("W / S"@, "forward, back        (Up / Down too)"@)
    } else if i == 1 {
        ("A / D"@, "turn                 (Left / Right too)"@)
    } else if i == 2 {
        ("Q / E"@, "strafe               (PgUp / PgDn too)"@)
    } else if i == 3 {
        ("Shift"@, "full speed while held (otherwise half)"@)
    } else if i == 4 {
        ("1 / 2 / 3"@, "gait: Crawl / Walk / Trot"@)
    } else if i == 5 {
        ("R / F"@, "swing height +/- 5 mm"@)
    } else if i == 6 {
        ("= / -"@, "trunk height +/- 5 mm"@)
    } else if i == 7 {
        ("B"@, "trunk levelling on / off"@)
    } else if i == 8 {
        ("Y / G"@, "arm pitch up / down (held)"@)
    } else if i == 9 {
        ("N"@, "respawn at the start pose, 10 cm up"@)
    } else if i == 10 {
        ("Shift+N"@, "respawn upside down"@)
    } else if i == 11 {
        ("X"@, "arm attack: tip the opponent over"@)
    } else if i == 12 {
        ("V"@, "self-right, unhurried (~11/27 conditions)"@)
    } else if i == 13 {
        ("Shift+V"@, "self-right, fast (~23/27)"@)
    } else if i == 14 {
        ("O / L"@, "ground friction mu"@)
    } else if i == 15 {
        ("P / ."@, "controller's assumed mu"@)
    } else {
        ("K"@, "show / hide this list"@)
    }
}

/// The keys of the `i`-th binding and what they do.
pub fn binding(i: usize) -> (r: (&'static str, &'static str))
    ensures
        r.0@ == spec_binding(i as int).0,
        r.1@ == spec_binding(i as int).1,
{
    if i == 0 {
        ("W / S", "forward, back        (Up / Down too)")
    } else if i == 1 {
        ("A / D", "turn                 (Left / Right too)")
    } else if i == 2 {
        ("Q / E", "strafe               (PgUp / PgDn too)")
    } else if i == 3 {
        ("Shift", "full speed while held (otherwise half)")
    } else if i == 4 {
        ("1 / 2 / 3", "gait: Crawl / Walk / Trot")
    } else if i == 5 {
        ("R / F", "swing height +/- 5 mm")
    } else if i == 6 {
        ("= / -", "trunk height +/- 5 mm")
    } else if i == 7 {
        ("B", "trunk levelling on / off")
    } else if i == 8 {
        ("Y / G", "arm pitch up / down (held)")
    } else if i == 9 {
        ("N", "respawn at the start pose, 10 cm up")
    } else if i == 10 {
        ("Shift+N", "respawn upside down")
    } else if i == 11 {
        ("X", "arm attack: tip the opponent over")
    } else if i == 12 {
        ("V", "self-right, unhurried (~11/27 conditions)")
    } else if i == 13 {
        ("Shift+V", "self-right, fast (~23/27)")
    } else if i == 14 {
        ("O / L", "ground friction mu")
    } else if i == 15 {
        ("P / .", "controller's assumed mu")
    } else {
        ("K", "show / hide this list")
    }
}

/// Whether the `i`-th binding is one of a gait's knobs.
pub open spec fn needs_gait(i: int) -> bool {
    4 <= i <= 8 || i == 15
}

/// The first `n` bindings that a controller has, each with its keys padded.
pub open spec fn spec_help(n: nat, gaited: bool) -> Seq<(Seq<char>, Seq<char>)>
    decreases n,
{
    if n == 0 {
        seq![]
    } else if !gaited && needs_gait(n - 1) {
        spec_help((n - 1) as nat, gaited)
    } else {
        spec_help((n - 1) as nat, gaited).push(
            (spec_pad(spec_binding(n - 1).0, 10), spec_binding(n - 1).1),
        )
    }
}

/// The list of controls, or nothing while it is hidden.
pub fn help_lines(st: &LiveTeleop, gaited: bool) -> (r: Vec<(String, String)>)
    ensures
        !st.show_help ==> r.len() == 0,
        st.show_help ==> r.len() == spec_help(N_BINDINGS as nat, gaited).len(),
        forall|i: int|
            0 <= i < r.len() ==> {
                &&& (#[trigger] r@[i]).0@ == spec_help(N_BINDINGS as nat, gaited)[i].0
                &&& r@[i].1@ == spec_help(N_BINDINGS as nat, gaited)[i].1
            },
{
    let mut out: Vec<(String, String)> = Vec::new();
    if !st.show_help {
        return out;
    }
    let mut i: usize = 0;
    while i < N_BINDINGS
        invariant
            i <= N_BINDINGS,
            out.len() == spec_help(i as nat, gaited).len(),
            forall|k: int|
                0 <= k < out.len() ==> {
                    &&& (#[trigger] out@[k]).0@ == spec_help(i as nat, gaited)[k].0
                    &&& out@[k].1@ == spec_help(i as nat, gaited)[k].1
                },
        decreases N_BINDINGS - i,
    {
        if gaited || !((4 <= i && i <= 8) || i == 15) {
            let (keys, what) = binding(i);
            out.push((pad(keys, 10), text_of(&chars_of(what))));
        }
        i = i + 1;
    }
    out
}

/// A padded name has its width, starts with the name and ends in spaces.
pub proof fn law_pad(s: Seq<char>, n: nat)
    ensures
        spec_pad(s, n).len() == (if s.len() >= n {
            s.len()
        } else {
            n
        }),
        spec_pad(s, n).take(s.len() as int) == s,
        forall|i: int| s.len() <= i < spec_pad(s, n).len() ==> #[trigger] spec_pad(s, n)[i] == ' ',
    decreases n - s.len(),
{
    if s.len() < n {
        let t = s.push(' ');
        law_pad(t, n);
        let r = spec_pad(t, n);
        assert(r.take(s.len() as int) =~= r.take(t.len() as int).take(s.len() as int));
        assert(t.take(s.len() as int) =~= s);
        assert(r[s.len() as int] == r.take(t.len() as int)[s.len() as int]);
    } else {
        assert(s.take(s.len() as int) =~= s);
    }
}

/// Six of the bindings belong to the gait, so a controller without one lists
/// eleven.
pub proof fn law_help_lengths()
    ensures
        spec_help(N_BINDINGS as nat, true).len() == 17,
        spec_help(N_BINDINGS as nat, false).len() == 11,
{
    reveal_with_fuel(spec_help, 18);
}

/// Degrees are a hundred and eighty to half a turn, of either sign.
pub proof fn law_degrees(rad: int)
    requires
        i64::MIN < spec_degrees(rad) < i64::MAX,
    ensures
        -3_141_592_653_589_793 <= 2 * (spec_degrees(rad) * 3_141_592_653_589_793 - rad
            * 180_000_000_000_000_000) <= 3_141_592_653_589_793,
{
    lemma_round_div_near(rad * 180_000_000_000_000_000, HALF_TURN as int);
}

/// The real-time factor is simulated time over wall time, and nothing before
/// any has passed.
pub proof fn law_real_time(st: LiveTeleop)
    ensures
        st.wall_time_s <= 1 ==> spec_real_time(st) == 0,
        st.wall_time_s > 1 && i64::MIN < spec_real_time(st) < i64::MAX ==> -st.wall_time_s <= 2 * (
        spec_real_time(st) * st.wall_time_s - st.sim_time_s * 1_000_000_000) <= st.wall_time_s,
{
    if st.wall_time_s > 1 {
        law_quotient_is_near(st.sim_time_s as int, st.wall_time_s as int);
    }
}

/// A controller that assumes more grip than there is gets a warning, one that
/// assumes less is called conservative.
pub proof fn law_friction_note(st: LiveTeleop)
    ensures
        st.controller_mu - st.ground_mu > 1 ==> spec_friction_note(st) == "  OVER-ASSUMED"@,
        st.ground_mu - st.controller_mu > 1 ==> spec_friction_note(st) == "  (conservative)"@,
        -1 <= st.controller_mu - st.ground_mu <= 1 ==> spec_friction_note(st) == "  = matched"@,
{
}

/// A row shows its value behind its name, which fills ten characters.
pub proof fn law_row(key: Seq<char>, value: Seq<char>)
    requires
        key.len() <= 10,
    ensures
        match spec_row(key, value) {
            HudText::Row { key: k, value: v } => v == value && k.len() == 10 && k.take(
                key.len() as int,
            ) == key,
            _ => false,
        },
{
    law_pad(key, 10);
}

/// What the overlay of a gait says, line by line.
pub proof fn law_overlay(st: LiveTeleop, env: SpeedEnvelope, controller: Seq<char>, fast: bool)
    ensures
        ({
            let h = spec_hud(st, env, controller, true, fast);
            &&& h.len() == 23
            &&& h[0] == (HudText::Title { text: controller })
            &&& h[2] == spec_row("gait"@, spec_gait_name(st.gait))
            &&& h[3] == spec_row("arm"@, spec_arm_text(st))
            &&& h[4] == spec_row("levelling"@, if st.level_enabled {
                "ON  (IMU + encoders)"@
            } else {
                "off"@
            })
            &&& h[5] == spec_row(
                "body h"@,
                spec_fixed(st.body_lift_m as int, 3, true) + " m from tuned"@,
            )
            &&& h[6] == spec_row("swing h"@, spec_swing_text(st))
            &&& h[7] == spec_row("ground mu"@, spec_fixed(st.ground_mu as int, 2, false))
            &&& h[8] == spec_row(
                "ctrl mu"@,
                spec_fixed(st.controller_mu as int, 2, false) + spec_friction_note(st),
            )
            &&& h[10] == spec_row("speed"@, if fast {
                "FULL"@
            } else {
                "half"@
            })
            &&& h[11] == spec_row("vx cmd"@, spec_cmd_text(st.cmd[0] as int, env.vx as int, " m/s"@))
            &&& h[12] == spec_row("vy cmd"@, spec_cmd_text(st.cmd[1] as int, env.vy as int, " m/s"@))
            &&& h[13] == spec_row(
                "wz cmd"@,
                spec_cmd_text(st.cmd[2] as int, env.wz as int, " rad/s"@),
            )
            &&& h[15] == spec_row(
                "vx meas"@,
                spec_fixed(st.measured_vx_mps as int, 3, true) + " m/s"@,
            )
            &&& h[16] == spec_row("trunk x"@, spec_fixed(st.body_x_m as int, 3, true) + " m"@)
            &&& h[17] == spec_row("trunk z"@, spec_fixed(st.body_z_m as int, 3, true) + " m"@)
            &&& h[19] == spec_row("fps"@, spec_fixed(st.fps as int, 1, false))
            &&& h[20] == spec_row("time"@, spec_time_text(st))
            &&& h[22] == (HudText::Footer {
                text: if st.show_help {
                    "[K] hide controls"@
                } else {
                    "[K] controls"@
                },
            })
        }),
{
}

/// Without a gait the overlay leaves out the gait's own six rows, and says the
/// rest in the same order.
pub proof fn law_overlay_without_gait(
    st: LiveTeleop,
    env: SpeedEnvelope,
    controller: Seq<char>,
    fast: bool,
    i: int,
)
    requires
        0 <= i < 17,
    ensures
        ({
            let (with, without) = (
                spec_hud(st, env, controller, true, fast),
                spec_hud(st, env, controller, false, fast),
            );
            &&& without.len() == 17
            &&& i < 2 ==> without[i] == with[i]
            &&& i == 2 ==> without[i] == with[7]
            &&& i > 2 ==> without[i] == with[i + 6]
        }),
{
}

/// The gait's own bindings are its gait, swing, trunk, levelling, arm and
/// assumed friction keys.
pub proof fn law_gait_bindings(i: int)
    requires
        0 <= i < 17,
    ensures
        needs_gait(i) <==> i == 4 || i == 5 || i == 6 || i == 7 || i == 8 || i == 15,
        spec_help((i + 1) as nat, true).len() == i + 1,
        spec_help((i + 1) as nat, true)[i].1 == spec_binding(i).1,
    decreases i,
{
    if i > 0 {
        law_gait_bindings(i - 1);
    } else {
        reveal_with_fuel(spec_help, 2);
    }
}

} // verus!

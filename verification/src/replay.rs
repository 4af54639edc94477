//! The trace a run leaves for a renderer to replay, as comma-separated text.
//!
//! It carries the exact pose of every tick, the measured load under each
//! foot, and the command as applied, so that nothing has to be worked out a
//! second time.
use crate::decimal::{fixed, is_number_char, law_number_chars, spec_fixed};
use crate::schedule::push_active;
use crate::text::{chars_of, put, put_all, text_of};
use vstd::prelude::*;

verus! {

/// `lead` and a name, for each of the first `n` names.
pub open spec fn spec_columns(names: Seq<String>, n: nat, lead: Seq<char>) -> Seq<char>
    decreases n,
{
    if n == 0 {
        seq![]
    } else {
        spec_columns(names, (n - 1) as nat, lead) + lead + names[n - 1]@
    }
}

fn put_columns(out: &mut Vec<char>, names: &Vec<String>, lead: &str)
    ensures
        final(out)@ == old(out)@ + spec_columns(names@, names@.len(), lead@),
{
    let mut i: usize = 0;
    assert(old(out)@ + spec_columns(names@, 0, lead@) =~= old(out)@);
    while i < names.len()
        invariant
            i <= names.len(),
            out@ == old(out)@ + spec_columns(names@, i as nat, lead@),
        decreases names.len() - i,
    {
        put(out, lead);
        put(out, names[i].as_str());
        assert(out@ =~= old(out)@ + spec_columns(names@, (i + 1) as nat, lead@));
        i = i + 1;
    }
}

/// The names of the columns.
pub open spec fn spec_header(joints: Seq<String>, feet: Seq<String>, foe: bool) -> Seq<char> {
    "t,root_x,root_y,root_z,root_qw,root_qx,root_qy,root_qz"@ + spec_columns(
        joints,
        joints.len(),
        ","@,
    ) + spec_columns(feet, feet.len(), ",fz_"@) + ",cmd_vx,cmd_vy,cmd_wz,push_fy"@
        + ",arm_pitch_joint"@ + (if foe {
        ",foe_x,foe_y,foe_z,foe_qw,foe_qx,foe_qy,foe_qz"@
    } else {
        seq![]
    }) + "\n"@
}

/// The first line of a trace.
pub fn header(joints: &Vec<String>, feet: &Vec<String>, foe: bool) -> (r: String)
    ensures
        r@ == spec_header(joints@, feet@, foe),
{
    let mut out = chars_of("t,root_x,root_y,root_z,root_qw,root_qx,root_qy,root_qz");
    put_columns(&mut out, joints, ",");
    put_columns(&mut out, feet, ",fz_");
    put(&mut out, ",cmd_vx,cmd_vy,cmd_wz,push_fy");
    put(&mut out, ",arm_pitch_joint");
    if foe {
        put(&mut out, ",foe_x,foe_y,foe_z,foe_qw,foe_qx,foe_qy,foe_qz");
    }
    put(&mut out, "\n");
    assert(out@ =~= spec_header(joints@, feet@, foe));
    text_of(&out)
}

/// What one line of a trace records.
#[derive(Debug)]
pub struct ReplayRow {
    pub t: i64,
    /// Position and orientation of the trunk.
    pub root: [i64; 7],
    pub joints: Vec<i64>,
    pub foot_fz: [i64; 4],
    pub cmd: [i64; 3],
    pub push_fy: i64,
    pub arm: i64,
    /// Position and orientation of the opponent's trunk.
    pub foe: Option<[i64; 7]>,
}

/// A comma and a number, for each of the first `n` numbers.
pub open spec fn spec_values(v: Seq<i64>, n: nat, places: nat) -> Seq<char>
    decreases n,
{
    if n == 0 {
        seq![]
    } else {
        spec_values(v, (n - 1) as nat, places) + ","@ + spec_fixed(v[n - 1] as int, places, false)
    }
}

fn put_value(out: &mut Vec<char>, v: i64, places: u32)
    requires
        places <= 9,
    ensures
        final(out)@ == old(out)@ + ","@ + spec_fixed(v as int, places as nat, false),
{
    put(out, ",");
    put_all(out, &fixed(v, places, false));
}

fn put_values(out: &mut Vec<char>, v: &Vec<i64>, places: u32)
    requires
        places <= 9,
    ensures
        final(out)@ == old(out)@ + spec_values(v@, v@.len(), places as nat),
{
    let mut i: usize = 0;
    assert(old(out)@ + spec_values(v@, 0, places as nat) =~= old(out)@);
    while i < v.len()
        invariant
            i <= v.len(),
            places <= 9,
            out@ == old(out)@ + spec_values(v@, i as nat, places as nat),
        decreases v.len() - i,
    {
        put_value(out, v[i], places);
        assert(out@ =~= old(out)@ + spec_values(v@, (i + 1) as nat, places as nat));
        i = i + 1;
    }
}

fn put_pose(out: &mut Vec<char>, v: &[i64; 7])
    ensures
        final(out)@ == old(out)@ + spec_values(v@, 7, 6),
{
    let mut i: usize = 0;
    assert(old(out)@ + spec_values(v@, 0, 6) =~= old(out)@);
    while i < 7
        invariant
            i <= 7,
            out@ == old(out)@ + spec_values(v@, i as nat, 6),
        decreases 7 - i,
    {
        put_value(out, v[i], 6);
        assert(out@ =~= old(out)@ + spec_values(v@, (i + 1) as nat, 6));
        i = i + 1;
    }
}

fn put_four(out: &mut Vec<char>, v: &[i64; 4], places: u32)
    requires
        places <= 9,
    ensures
        final(out)@ == old(out)@ + spec_values(v@, 4, places as nat),
{
    let mut i: usize = 0;
    assert(old(out)@ + spec_values(v@, 0, places as nat) =~= old(out)@);
    while i < 4
        invariant
            i <= 4,
            places <= 9,
            out@ == old(out)@ + spec_values(v@, i as nat, places as nat),
        decreases 4 - i,
    {
        put_value(out, v[i], places);
        assert(out@ =~= old(out)@ + spec_values(v@, (i + 1) as nat, places as nat));
        i = i + 1;
    }
}

impl ReplayRow {
    pub open spec fn spec_line(self) -> Seq<char> {
        spec_fixed(self.t as int, 5, false) + spec_values(self.root@, 7, 6) + spec_values(
            self.joints@,
            self.joints@.len(),
            6,
        ) + spec_values(self.foot_fz@, 4, 4) + spec_values(self.cmd@, 3, 4) + ","@ + spec_fixed(
            self.push_fy as int,
            2,
            false,
        ) + ","@ + spec_fixed(self.arm as int, 6, false) + (match self.foe {
            Some(p) => spec_values(p@, 7, 6),
            None => seq![],
        }) + "\n"@
    }

    /// The line as text.
    pub fn line(&self) -> (r: String)
        ensures
            r@ == self.spec_line(),
    {
        let mut out = fixed(self.t, 5, false);
        put_pose(&mut out, &self.root);
        put_values(&mut out, &self.joints, 6);
        put_four(&mut out, &self.foot_fz, 4);
        let ghost before = out@;
        put_value(&mut out, self.cmd[0], 4);
        put_value(&mut out, self.cmd[1], 4);
        put_value(&mut out, self.cmd[2], 4);
        proof {
            reveal_with_fuel(spec_values, 4);
            assert(out@ =~= before + spec_values(self.cmd@, 3, 4));
        }
        put_value(&mut out, self.push_fy, 2);
        put_value(&mut out, self.arm, 6);
        if let Some(p) = self.foe {
            put_pose(&mut out, &p);
        }
        put(&mut out, "\n");
        assert(out@ =~= self.spec_line());
        text_of(&out)
    }
}

pub open spec fn spec_push_fy(push: Option<(i64, [i64; 3], i64)>, t: i64) -> i64 {
    match push {
        Some((t0, f, dur)) => if t0 <= t && t < t0 + dur {
            f[1]
        } else {
            0
        },
        None => 0,
    }
}

/// The sideways force of a push at time `t`, given when it starts, its force
/// and how long it lasts.
pub fn push_fy(push: Option<(i64, [i64; 3], i64)>, t: i64) -> (r: i64)
    ensures
        r == spec_push_fy(push, t),
{
    match push {
        Some((t0, f, dur)) => {
            if push_active(t, t0, dur) {
                f[1]
            } else {
                0
            }
        },
        None => 0,
    }
}

/// How many commas the first `n` characters of a text hold.
pub open spec fn commas(s: Seq<char>, n: nat) -> int
    decreases n,
{
    if n == 0 {
        0
    } else {
        commas(s, (n - 1) as nat) + if s[n - 1] == ',' {
            1int
        } else {
            0
        }
    }
}

/// How many columns a line has.
pub open spec fn columns(line: Seq<char>) -> int {
    1 + commas(line, line.len())
}

proof fn lemma_commas_same(a: Seq<char>, b: Seq<char>, n: nat)
    requires
        n <= a.len(),
        n <= b.len(),
        forall|i: int| 0 <= i < n ==> #[trigger] a[i] == b[i],
    ensures
        commas(a, n) == commas(b, n),
    decreases n,
{
    if n > 0 {
        lemma_commas_same(a, b, (n - 1) as nat);
    }
}

proof fn lemma_commas_part(a: Seq<char>, b: Seq<char>, k: nat)
    requires
        k <= b.len(),
    ensures
        commas(a + b, a.len() + k) == commas(a, a.len()) + commas(b, k),
    decreases k,
{
    if k == 0 {
        lemma_commas_same(a + b, a, a.len());
    } else {
        lemma_commas_part(a, b, (k - 1) as nat);
        assert((a + b)[a.len() + k - 1] == b[k - 1]);
    }
}

/// Joining texts adds up their commas.
proof fn lemma_commas(a: Seq<char>, b: Seq<char>)
    ensures
        commas(a + b, (a + b).len()) == commas(a, a.len()) + commas(b, b.len()),
{
    lemma_commas_part(a, b, b.len());
}

proof fn lemma_no_commas(s: Seq<char>, n: nat)
    requires
        n <= s.len(),
        forall|i: int| 0 <= i < n ==> #[trigger] s[i] != ',',
    ensures
        commas(s, n) == 0,
    decreases n,
{
    if n > 0 {
        lemma_no_commas(s, (n - 1) as nat);
    }
}

/// A number written with decimal places holds no comma.
proof fn lemma_number_plain(v: int, places: nat)
    ensures
        commas(spec_fixed(v, places, false), spec_fixed(v, places, false).len()) == 0,
{
    law_number_chars(v, places, false);
    let s = spec_fixed(v, places, false);
    assert forall|i: int| 0 <= i < s.len() implies #[trigger] s[i] != ',' by {
        assert(is_number_char(s[i]));
    }
    lemma_no_commas(s, s.len());
}

proof fn lemma_one_comma()
    ensures
        commas(","@, ","@.len()) == 1,
{
    reveal_strlit(",");
    reveal_with_fuel(commas, 2);
}

proof fn lemma_values(v: Seq<i64>, n: nat, places: nat)
    ensures
        commas(spec_values(v, n, places), spec_values(v, n, places).len()) == n,
    decreases n,
{
    if n > 0 {
        lemma_values(v, (n - 1) as nat, places);
        let before = spec_values(v, (n - 1) as nat, places);
        let num = spec_fixed(v[n - 1] as int, places, false);
        lemma_commas(before, ","@);
        lemma_commas(before + ","@, num);
        lemma_number_plain(v[n - 1] as int, places);
        lemma_one_comma();
    }
}

proof fn lemma_columns(names: Seq<String>, n: nat, lead: Seq<char>)
    requires
        n <= names.len(),
        commas(lead, lead.len()) == 1,
        forall|i: int, k: int|
            0 <= i < names.len() && 0 <= k < names[i]@.len() ==> #[trigger] names[i]@[k] != ',',
    ensures
        commas(spec_columns(names, n, lead), spec_columns(names, n, lead).len()) == n,
    decreases n,
{
    if n > 0 {
        lemma_columns(names, (n - 1) as nat, lead);
        let before = spec_columns(names, (n - 1) as nat, lead);
        lemma_commas(before, lead);
        lemma_commas(before + lead, names[n - 1]@);
        lemma_no_commas(names[n - 1]@, names[n - 1]@.len());
    }
}

proof fn lemma_first_names()
    ensures
        ({
            let s = "t,root_x,root_y,root_z,root_qw,root_qx,root_qy,root_qz"@;
            commas(s, s.len()) == 7
        }),
{
    reveal_strlit("t,root_x,root_y,root_z,root_qw,root_qx,root_qy,root_qz");
    reveal_with_fuel(commas, 60);
}

proof fn lemma_other_names()
    ensures
        commas(",fz_"@, ",fz_"@.len()) == 1,
        commas(",cmd_vx,cmd_vy,cmd_wz,push_fy"@, ",cmd_vx,cmd_vy,cmd_wz,push_fy"@.len()) == 4,
        commas(",arm_pitch_joint"@, ",arm_pitch_joint"@.len()) == 1,
        commas("\n"@, "\n"@.len()) == 0,
{
    reveal_strlit(",fz_");
    reveal_strlit(",cmd_vx,cmd_vy,cmd_wz,push_fy");
    reveal_strlit(",arm_pitch_joint");
    reveal_strlit("\n");
    reveal_with_fuel(commas, 32);
}

proof fn lemma_foe_names()
    ensures
        ({
            let s = ",foe_x,foe_y,foe_z,foe_qw,foe_qx,foe_qy,foe_qz"@;
            commas(s, s.len()) == 7
        }),
{
    reveal_strlit(",foe_x,foe_y,foe_z,foe_qw,foe_qx,foe_qy,foe_qz");
    reveal_with_fuel(commas, 50);
}

proof fn lemma_header_columns(joints: Seq<String>, feet: Seq<String>, foe: bool)
    requires
        feet.len() == 4,
        forall|i: int, k: int|
            0 <= i < joints.len() && 0 <= k < joints[i]@.len() ==> #[trigger] joints[i]@[k] != ',',
        forall|i: int, k: int|
            0 <= i < feet.len() && 0 <= k < feet[i]@.len() ==> #[trigger] feet[i]@[k] != ',',
    ensures
        columns(spec_header(joints, feet, foe)) == 17 + joints.len() + if foe {
            7int
        } else {
            0
        },
{
    lemma_first_names();
    lemma_other_names();
    lemma_foe_names();
    lemma_one_comma();
    lemma_columns(joints, joints.len(), ","@);
    lemma_columns(feet, feet.len(), ",fz_"@);
    let a = "t,root_x,root_y,root_z,root_qw,root_qx,root_qy,root_qz"@;
    let b = spec_columns(joints, joints.len(), ","@);
    let c = spec_columns(feet, feet.len(), ",fz_"@);
    let d = ",cmd_vx,cmd_vy,cmd_wz,push_fy"@;
    let e = ",arm_pitch_joint"@;
    let f = if foe {
        ",foe_x,foe_y,foe_z,foe_qw,foe_qx,foe_qy,foe_qz"@
    } else {
        seq![]
    };
    lemma_commas(a, b);
    lemma_commas(a + b, c);
    lemma_commas(a + b + c, d);
    lemma_commas(a + b + c + d, e);
    lemma_commas(a + b + c + d + e, f);
    lemma_commas(a + b + c + d + e + f, "\n"@);
}

proof fn lemma_line_columns(row: ReplayRow)
    ensures
        columns(row.spec_line()) == 17 + row.joints@.len() + if row.foe is Some {
            7int
        } else {
            0
        },
{
    lemma_other_names();
    lemma_one_comma();
    let a = spec_fixed(row.t as int, 5, false);
    let b = spec_values(row.root@, 7, 6);
    let c = spec_values(row.joints@, row.joints@.len(), 6);
    let d = spec_values(row.foot_fz@, 4, 4);
    let e = spec_values(row.cmd@, 3, 4);
    let f = spec_fixed(row.push_fy as int, 2, false);
    let g = spec_fixed(row.arm as int, 6, false);
    let h = match row.foe {
        Some(p) => spec_values(p@, 7, 6),
        None => seq![],
    };
    lemma_number_plain(row.t as int, 5);
    lemma_number_plain(row.push_fy as int, 2);
    lemma_number_plain(row.arm as int, 6);
    lemma_values(row.root@, 7, 6);
    lemma_values(row.joints@, row.joints@.len(), 6);
    lemma_values(row.foot_fz@, 4, 4);
    lemma_values(row.cmd@, 3, 4);
    if let Some(p) = row.foe {
        lemma_values(p@, 7, 6);
    }
    lemma_commas(a, b);
    lemma_commas(a + b, c);
    lemma_commas(a + b + c, d);
    lemma_commas(a + b + c + d, e);
    lemma_commas(a + b + c + d + e, ","@);
    lemma_commas(a + b + c + d + e + ","@, f);
    lemma_commas(a + b + c + d + e + ","@ + f, ","@);
    lemma_commas(a + b + c + d + e + ","@ + f + ","@, g);
    lemma_commas(a + b + c + d + e + ","@ + f + ","@ + g, h);
    lemma_commas(a + b + c + d + e + ","@ + f + ","@ + g + h, "\n"@);
}

/// Every line of a trace has as many columns as the first one names, so a
/// reader need not guess which is which.
pub proof fn law_lines_match_the_header(
    joints: Seq<String>,
    feet: Seq<String>,
    foe: bool,
    row: ReplayRow,
)
    requires
        feet.len() == 4,
        row.joints@.len() == joints.len(),
        row.foe is Some == foe,
        forall|i: int, k: int|
            0 <= i < joints.len() && 0 <= k < joints[i]@.len() ==> #[trigger] joints[i]@[k] != ',',
        forall|i: int, k: int|
            0 <= i < feet.len() && 0 <= k < feet[i]@.len() ==> #[trigger] feet[i]@[k] != ',',
    ensures
        columns(row.spec_line()) == columns(spec_header(joints, feet, foe)),
{
    lemma_header_columns(joints, feet, foe);
    lemma_line_columns(row);
}

/// A line is cut up by its commas: `a` has `k` of them and ends in one, `x` is
/// what stands before the next, or before the end of the line.
pub open spec fn cut_up(line: Seq<char>, k: int, x: Seq<char>, a: Seq<char>, b: Seq<char>) -> bool {
    &&& line == a + x + b
    &&& commas(a, a.len()) == k
    &&& a.len() == 0 || a.last() == ','
    &&& b.len() > 0 && (b[0] == ',' || b[0] == '\n')
    &&& forall|i: int| 0 <= i < x.len() ==> #[trigger] x[i] != ','
}

/// The `k`-th column of a line, counted from 0, holds `x`.
pub open spec fn holds_at(line: Seq<char>, k: int, x: Seq<char>) -> bool {
    exists|a: Seq<char>, b: Seq<char>| #[trigger] cut_up(line, k, x, a, b)
}

proof fn lemma_number_has_no_comma(v: int, places: nat)
    ensures
        forall|i: int|
            0 <= i < spec_fixed(v, places, false).len() ==> #[trigger] spec_fixed(
                v,
                places,
                false,
            )[i] != ',',
{
    law_number_chars(v, places, false);
    let s = spec_fixed(v, places, false);
    assert forall|i: int| 0 <= i < s.len() implies #[trigger] s[i] != ',' by {
        assert(is_number_char(s[i]));
    }
}

proof fn lemma_column(pre: Seq<char>, x: Seq<char>, post: Seq<char>)
    requires
        forall|i: int| 0 <= i < x.len() ==> #[trigger] x[i] != ',',
        post.len() > 0,
        post[0] == ',' || post[0] == '\n',
    ensures
        holds_at(pre + ","@ + x + post, commas(pre, pre.len()) + 1, x),
{
    reveal_strlit(",");
    lemma_one_comma();
    let a = pre + ","@;
    lemma_commas(pre, ","@);
    assert(a.last() == ',');
    assert(cut_up(a + x + post, commas(pre, pre.len()) + 1, x, a, post));
}

/// A list of numbers, split at one of them.
proof fn lemma_values_split(v: Seq<i64>, n: nat, places: nat, i: int) -> (rest: Seq<char>)
    requires
        0 <= i < n,
    ensures
        spec_values(v, n, places) == spec_values(v, i as nat, places) + ","@ + spec_fixed(
            v[i] as int,
            places,
            false,
        ) + rest,
        rest.len() == 0 || rest[0] == ',',
    decreases n,
{
    reveal_strlit(",");
    let num = spec_fixed(v[n - 1] as int, places, false);
    if i == n - 1 {
        assert(spec_values(v, n, places) =~= spec_values(v, i as nat, places) + ","@ + num
            + Seq::<char>::empty());
        Seq::empty()
    } else {
        let rest = lemma_values_split(v, (n - 1) as nat, places, i);
        let r = rest + ","@ + num;
        assert(spec_values(v, n, places) =~= spec_values(v, i as nat, places) + ","@ + spec_fixed(
            v[i] as int,
            places,
            false,
        ) + r);
        r
    }
}

/// A number of a list stands in a column of its own.
proof fn lemma_value_column(
    pre: Seq<char>,
    v: Seq<i64>,
    n: nat,
    places: nat,
    i: int,
    post: Seq<char>,
)
    requires
        0 <= i < n,
        post.len() > 0,
        post[0] == ',' || post[0] == '\n',
    ensures
        holds_at(
            pre + spec_values(v, n, places) + post,
            commas(pre, pre.len()) + i + 1,
            spec_fixed(v[i] as int, places, false),
        ),
{
    let rest = lemma_values_split(v, n, places, i);
    let before = spec_values(v, i as nat, places);
    let num = spec_fixed(v[i] as int, places, false);
    lemma_values(v, i as nat, places);
    lemma_commas(pre, before);
    lemma_number_has_no_comma(v[i] as int, places);
    let tail = rest + post;
    assert(tail[0] == ',' || tail[0] == '\n');
    lemma_column(pre + before, num, tail);
    assert(pre + spec_values(v, n, places) + post =~= pre + before + ","@ + num + tail);
}

/// A list that is not empty starts with a comma.
proof fn lemma_values_start(v: Seq<i64>, n: nat, places: nat)
    requires
        n > 0,
    ensures
        spec_values(v, n, places).len() > 0,
        spec_values(v, n, places)[0] == ',',
{
    reveal_strlit(",");
    let rest = lemma_values_split(v, n, places, 0);
    assert(spec_values(v, 0, places) == Seq::<char>::empty());
}

/// Which column of a line holds what: the time, the trunk's pose, the joints,
/// the load under each foot, the command, the push, the arm and, where there
/// is one, the opponent's pose.
pub proof fn law_line_columns(row: ReplayRow, i: int)
    requires
        0 <= i,
    ensures
        ({
            let line = row.spec_line();
            let n = row.joints@.len() as int;
            &&& holds_at(line, 0, spec_fixed(row.t as int, 5, false))
            &&& i < 7 ==> holds_at(line, 1 + i, spec_fixed(row.root[i] as int, 6, false))
            &&& i < n ==> holds_at(line, 8 + i, spec_fixed(row.joints@[i] as int, 6, false))
            &&& i < 4 ==> holds_at(line, 8 + n + i, spec_fixed(row.foot_fz[i] as int, 4, false))
            &&& i < 3 ==> holds_at(line, 12 + n + i, spec_fixed(row.cmd[i] as int, 4, false))
            &&& holds_at(line, 15 + n, spec_fixed(row.push_fy as int, 2, false))
            &&& holds_at(line, 16 + n, spec_fixed(row.arm as int, 6, false))
            &&& i < 7 && row.foe is Some ==> holds_at(
                line,
                17 + n + i,
                spec_fixed(row.foe->0[i] as int, 6, false),
            )
        }),
{
    lemma_line_first(row, i);
    lemma_line_middle(row, i);
    lemma_line_last(row, i);
}

proof fn lemma_line_first(row: ReplayRow, i: int)
    requires
        0 <= i,
    ensures
        holds_at(row.spec_line(), 0, spec_fixed(row.t as int, 5, false)),
        i < 7 ==> holds_at(row.spec_line(), 1 + i, spec_fixed(row.root[i] as int, 6, false)),
        i < row.joints@.len() ==> holds_at(
            row.spec_line(),
            8 + i,
            spec_fixed(row.joints@[i] as int, 6, false),
        ),
{
    let line = row.spec_line();
    let a = spec_fixed(row.t as int, 5, false);
    let b = spec_values(row.root@, 7, 6);
    let c = spec_values(row.joints@, row.joints@.len(), 6);
    let d = spec_values(row.foot_fz@, 4, 4);
    lemma_number_plain(row.t as int, 5);
    lemma_number_has_no_comma(row.t as int, 5);
    lemma_values(row.root@, 7, 6);
    lemma_values_start(row.root@, 7, 6);
    lemma_values_start(row.foot_fz@, 4, 4);
    let after_a = line.skip(a.len() as int);
    let after_b = line.skip((a + b).len() as int);
    let after_c = line.skip((a + b + c).len() as int);
    assert(line =~= Seq::<char>::empty() + a + after_a);
    assert(after_a[0] == b[0]);
    assert(cut_up(line, 0, a, Seq::<char>::empty(), after_a));
    lemma_commas(a, b);
    assert(line =~= a + b + after_b);
    assert(line =~= (a + b) + c + after_c);
    assert(after_c[0] == d[0]);
    if row.joints@.len() > 0 {
        lemma_values_start(row.joints@, row.joints@.len(), 6);
        assert(after_b[0] == c[0]);
    } else {
        assert(c == Seq::<char>::empty());
        assert(after_b[0] == d[0]);
    }
    if i < 7 {
        lemma_value_column(a, row.root@, 7, 6, i, after_b);
    }
    if i < row.joints@.len() {
        lemma_value_column(a + b, row.joints@, row.joints@.len(), 6, i, after_c);
    }
}

proof fn lemma_line_middle(row: ReplayRow, i: int)
    requires
        0 <= i,
    ensures
        i < 4 ==> holds_at(
            row.spec_line(),
            8 + row.joints@.len() + i,
            spec_fixed(row.foot_fz[i] as int, 4, false),
        ),
        i < 3 ==> holds_at(
            row.spec_line(),
            12 + row.joints@.len() + i,
            spec_fixed(row.cmd[i] as int, 4, false),
        ),
{
    reveal_strlit(",");
    let line = row.spec_line();
    let a = spec_fixed(row.t as int, 5, false);
    let b = spec_values(row.root@, 7, 6);
    let c = spec_values(row.joints@, row.joints@.len(), 6);
    let d = spec_values(row.foot_fz@, 4, 4);
    let e = spec_values(row.cmd@, 3, 4);
    lemma_number_plain(row.t as int, 5);
    lemma_values(row.root@, 7, 6);
    lemma_values(row.joints@, row.joints@.len(), 6);
    lemma_values(row.foot_fz@, 4, 4);
    lemma_values_start(row.cmd@, 3, 4);
    lemma_commas(a, b);
    lemma_commas(a + b, c);
    lemma_commas(a + b + c, d);
    let after_d = line.skip((a + b + c + d).len() as int);
    let after_e = line.skip((a + b + c + d + e).len() as int);
    assert(line =~= (a + b + c) + d + after_d);
    assert(line =~= (a + b + c + d) + e + after_e);
    assert(after_d[0] == e[0]);
    assert(after_e[0] == ',');
    if i < 4 {
        lemma_value_column(a + b + c, row.foot_fz@, 4, 4, i, after_d);
    }
    if i < 3 {
        lemma_value_column(a + b + c + d, row.cmd@, 3, 4, i, after_e);
    }
}

proof fn lemma_line_last(row: ReplayRow, i: int)
    requires
        0 <= i,
    ensures
        holds_at(
            row.spec_line(),
            15int + row.joints@.len(),
            spec_fixed(row.push_fy as int, 2, false),
        ),
        holds_at(row.spec_line(), 16int + row.joints@.len(), spec_fixed(row.arm as int, 6, false)),
        i < 7 && row.foe is Some ==> holds_at(
            row.spec_line(),
            17 + row.joints@.len() + i,
            spec_fixed(row.foe->0[i] as int, 6, false),
        ),
{
    reveal_strlit(",");
    reveal_strlit("\n");
    lemma_one_comma();
    let line = row.spec_line();
    let a = spec_fixed(row.t as int, 5, false);
    let b = spec_values(row.root@, 7, 6);
    let c = spec_values(row.joints@, row.joints@.len(), 6);
    let d = spec_values(row.foot_fz@, 4, 4);
    let e = spec_values(row.cmd@, 3, 4);
    let f = spec_fixed(row.push_fy as int, 2, false);
    let g = spec_fixed(row.arm as int, 6, false);
    let h = match row.foe {
        Some(p) => spec_values(p@, 7, 6),
        None => seq![],
    };
    lemma_number_plain(row.t as int, 5);
    lemma_number_plain(row.push_fy as int, 2);
    lemma_number_plain(row.arm as int, 6);
    lemma_number_has_no_comma(row.push_fy as int, 2);
    lemma_number_has_no_comma(row.arm as int, 6);
    lemma_values(row.root@, 7, 6);
    lemma_values(row.joints@, row.joints@.len(), 6);
    lemma_values(row.foot_fz@, 4, 4);
    lemma_values(row.cmd@, 3, 4);
    lemma_commas(a, b);
    lemma_commas(a + b, c);
    lemma_commas(a + b + c, d);
    lemma_commas(a + b + c + d, e);
    let s = a + b + c + d + e;
    lemma_commas(s, ","@);
    lemma_commas(s + ","@, f);
    lemma_commas(s + ","@ + f, ","@);
    lemma_commas(s + ","@ + f + ","@, g);
    let end = h + "\n"@;
    if let Some(p) = row.foe {
        lemma_values_start(p@, 7, 6);
        assert(end[0] == h[0]);
    } else {
        assert(end =~= "\n"@);
    }
    let after_f = ","@ + g + end;
    assert(after_f[0] == ',');
    lemma_column(s, f, after_f);
    assert(line =~= s + ","@ + f + after_f);
    lemma_column(s + ","@ + f, g, end);
    assert(line =~= s + ","@ + f + ","@ + g + end);
    if i < 7 && row.foe is Some {
        let p = row.foe->0;
        lemma_value_column(s + ","@ + f + ","@ + g, p@, 7, 6, i, "\n"@);
        assert(line =~= s + ","@ + f + ","@ + g + h + "\n"@);
    }
}

/// A list of names, split at one of them.
proof fn lemma_columns_split(names: Seq<String>, n: nat, lead: Seq<char>, i: int) -> (rest: Seq<
    char,
>)
    requires
        0 <= i < n,
        n <= names.len(),
        lead.len() > 0,
        lead[0] == ',',
    ensures
        spec_columns(names, n, lead) == spec_columns(names, i as nat, lead) + lead + names[i]@
            + rest,
        rest.len() == 0 || rest[0] == ',',
    decreases n,
{
    if i == n - 1 {
        assert(spec_columns(names, n, lead) =~= spec_columns(names, i as nat, lead) + lead
            + names[i]@ + Seq::<char>::empty());
        Seq::empty()
    } else {
        let rest = lemma_columns_split(names, (n - 1) as nat, lead, i);
        let r = rest + lead + names[n - 1]@;
        assert(spec_columns(names, n, lead) =~= spec_columns(names, i as nat, lead) + lead
            + names[i]@ + r);
        assert(r[0] == ',') by {
            if rest.len() > 0 {
                assert(r[0] == rest[0]);
            } else {
                assert(r[0] == lead[0]);
            }
        }
        r
    }
}

/// The first line names the columns: each joint, and each foot's load, where
/// the lines hold them.
pub proof fn law_header_columns(joints: Seq<String>, feet: Seq<String>, foe: bool, i: int)
    requires
        feet.len() == 4,
        0 <= i,
        forall|j: int, k: int|
            0 <= j < joints.len() && 0 <= k < joints[j]@.len() ==> #[trigger] joints[j]@[k] != ',',
        forall|j: int, k: int|
            0 <= j < feet.len() && 0 <= k < feet[j]@.len() ==> #[trigger] feet[j]@[k] != ',',
    ensures
        i < joints.len() ==> holds_at(spec_header(joints, feet, foe), 8 + i, joints[i]@),
        i < 4 ==> holds_at(
            spec_header(joints, feet, foe),
            8 + joints.len() + i,
            "fz_"@ + feet[i]@,
        ),
        holds_at(spec_header(joints, feet, foe), 16int + joints.len(), "arm_pitch_joint"@),
{
    lemma_first_names();
    lemma_other_names();
    lemma_one_comma();
    let line = spec_header(joints, feet, foe);
    let a = "t,root_x,root_y,root_z,root_qw,root_qx,root_qy,root_qz"@;
    let b = spec_columns(joints, joints.len(), ","@);
    let c = spec_columns(feet, feet.len(), ",fz_"@);
    lemma_columns(joints, joints.len(), ","@);
    lemma_commas(a, b);
    lemma_after_feet(joints, feet, foe);
    let after_b = line.skip((a + b).len() as int);
    let after_c = line.skip((a + b + c).len() as int);
    assert(line =~= a + b + after_b);
    assert(line =~= (a + b) + c + after_c);
    lemma_lead(feet);
    assert(after_b[0] == c[0]);
    if i < joints.len() {
        lemma_name_column(a, joints, joints.len(), ","@, Seq::empty(), i, after_b);
        assert(Seq::<char>::empty() + joints[i]@ =~= joints[i]@);
    }
    if i < 4 {
        lemma_name_column(a + b, feet, 4, ",fz_"@, "fz_"@, i, after_c);
    }
}

proof fn lemma_lead(feet: Seq<String>)
    requires
        feet.len() == 4,
    ensures
        ","@ == seq![','] + Seq::<char>::empty(),
        ",fz_"@ == seq![','] + "fz_"@,
        forall|k: int| 0 <= k < "fz_"@.len() ==> #[trigger] "fz_"@[k] != ',',
        spec_columns(feet, 4, ",fz_"@).len() > 0,
        spec_columns(feet, 4, ",fz_"@)[0] == ',',
{
    reveal_strlit(",");
    reveal_strlit("fz_");
    reveal_strlit(",fz_");
    assert(","@ =~= seq![','] + Seq::<char>::empty());
    assert(",fz_"@ =~= seq![','] + "fz_"@);
    let rest = lemma_columns_split(feet, 4, ",fz_"@, 0);
    assert(spec_columns(feet, 0, ",fz_"@) == Seq::<char>::empty());
}

/// A name of a list stands in a column of its own, behind its label.
proof fn lemma_name_column(
    pre: Seq<char>,
    names: Seq<String>,
    n: nat,
    lead: Seq<char>,
    label: Seq<char>,
    i: int,
    post: Seq<char>,
)
    requires
        0 <= i < n,
        n <= names.len(),
        lead == seq![','] + label,
        commas(lead, lead.len()) == 1,
        forall|k: int| 0 <= k < label.len() ==> #[trigger] label[k] != ',',
        forall|j: int, k: int|
            0 <= j < names.len() && 0 <= k < names[j]@.len() ==> #[trigger] names[j]@[k] != ',',
        post.len() > 0,
        post[0] == ',' || post[0] == '\n',
    ensures
        holds_at(
            pre + spec_columns(names, n, lead) + post,
            commas(pre, pre.len()) + i + 1,
            label + names[i]@,
        ),
{
    let rest = lemma_columns_split(names, n, lead, i);
    let before = spec_columns(names, i as nat, lead);
    lemma_columns(names, i as nat, lead);
    lemma_commas(pre, before);
    let tail = rest + post;
    assert(tail[0] == ',' || tail[0] == '\n');
    let x = label + names[i]@;
    assert forall|k: int| 0 <= k < x.len() implies #[trigger] x[k] != ',' by {
        if k >= label.len() {
            assert(x[k] == names[i]@[k - label.len()]);
        }
    }
    lemma_column(pre + before, x, tail);
    assert(","@ =~= seq![',']) by {
        reveal_strlit(",");
    }
    assert(pre + spec_columns(names, n, lead) + post =~= pre + before + ","@ + x + tail);
}

proof fn lemma_after_feet(joints: Seq<String>, feet: Seq<String>, foe: bool)
    requires
        feet.len() == 4,
        forall|j: int, k: int|
            0 <= j < joints.len() && 0 <= k < joints[j]@.len() ==> #[trigger] joints[j]@[k] != ',',
        forall|j: int, k: int|
            0 <= j < feet.len() && 0 <= k < feet[j]@.len() ==> #[trigger] feet[j]@[k] != ',',
    ensures
        ({
            let head = "t,root_x,root_y,root_z,root_qw,root_qx,root_qy,root_qz"@ + spec_columns(
                joints,
                joints.len(),
                ","@,
            ) + spec_columns(feet, feet.len(), ",fz_"@);
            let line = spec_header(joints, feet, foe);
            &&& head.len() < line.len()
            &&& line[head.len() as int] == ','
            &&& holds_at(line, 16int + joints.len(), "arm_pitch_joint"@)
        }),
{
    lemma_first_names();
    lemma_other_names();
    lemma_one_comma();
    lemma_columns(joints, joints.len(), ","@);
    lemma_columns(feet, feet.len(), ",fz_"@);
    let line = spec_header(joints, feet, foe);
    let a = "t,root_x,root_y,root_z,root_qw,root_qx,root_qy,root_qz"@;
    let b = spec_columns(joints, joints.len(), ","@);
    let c = spec_columns(feet, feet.len(), ",fz_"@);
    let d = ",cmd_vx,cmd_vy,cmd_wz,push_fy"@;
    lemma_commas(a, b);
    lemma_commas(a + b, c);
    lemma_commas(a + b + c, d);
    let f = if foe {
        ",foe_x,foe_y,foe_z,foe_qw,foe_qx,foe_qy,foe_qz"@
    } else {
        seq![]
    };
    let end = f + "\n"@;
    reveal_strlit(",cmd_vx,cmd_vy,cmd_wz,push_fy");
    assert(line[(a + b + c).len() as int] == d[0]);
    reveal_strlit("\n");
    reveal_strlit(",");
    reveal_strlit("arm_pitch_joint");
    reveal_strlit(",arm_pitch_joint");
    assert(",arm_pitch_joint"@ =~= ","@ + "arm_pitch_joint"@);
    if foe {
        reveal_strlit(",foe_x,foe_y,foe_z,foe_qw,foe_qx,foe_qy,foe_qz");
    } else {
        assert(end =~= "\n"@);
    }
    assert(end[0] == ',' || end[0] == '\n');
    lemma_column(a + b + c + d, "arm_pitch_joint"@, end);
    assert(line =~= a + b + c + d + ","@ + "arm_pitch_joint"@ + end);
}

/// A push shows its sideways force while it lasts, and nothing otherwise.
pub proof fn law_push_shown(t0: i64, f: [i64; 3], dur: i64, t: i64)
    ensures
        spec_push_fy(None, t) == 0,
        0 <= t - t0 < dur ==> spec_push_fy(Some((t0, f, dur)), t) == f[1],
        t < t0 ==> spec_push_fy(Some((t0, f, dur)), t) == 0,
        t - t0 >= dur ==> spec_push_fy(Some((t0, f, dur)), t) == 0,
{
}

} // verus!

//! The opponent: a second robot, its joints welded.
//!
//! It has to be a body that can be tipped over, but it must not move under
//! its own power. So the root keeps its free joint and every hinge is
//! deleted, with the angle it was holding baked into the child body's
//! orientation instead. It is made by rewriting the robot's own scene
//! description line by line, so it has the real masses, inertias and shapes:
//! tipping something over is entirely a question of where its mass is.
use crate::decimal::{fixed, is_number_char, law_number_chars, spec_fixed};
use crate::fixed::{sat, saturate};
use crate::text::{
    chars_of, contains, cut, ends_with, find, law_find, law_lines_hold_no_break, law_lines_join,
    law_rfind, law_single_line, lines, occurs_at, put, put_all, replace, rfind, same, spec_contains,
    spec_ends_with, spec_find, spec_find_from, spec_is_space, spec_lines, spec_replace, spec_rfind,
    spec_starts_with, spec_strip_cr, spec_trim_start, spec_words, starts_with, text_of, trim_start,
    views, words,
};
use vstd::prelude::*;

verus! {

/// Joint angles to weld an opponent at.
#[derive(Clone, Copy, Debug, PartialEq)]
pub struct LockedPose {
    /// Hip, thigh and calf, applied to all four legs.
    pub leg: [i64; 3],
    pub arm: i64,
}

impl Default for LockedPose {
    /// Crouched: what an opponent waiting to be attacked looks like, and what
    /// makes it possible to get an arm underneath.
    fn default() -> (r: Self)
        ensures
            r.leg[0] == 0 && r.leg[1] == 1_600_000_000 && r.leg[2] == -2_550_000_000,
            r.arm == 850_000_000,
    {
        LockedPose { leg: [0, 1_600_000_000, -2_550_000_000], arm: 850_000_000 }
    }
}

impl LockedPose {
    /// The angle a body is welded at. Left and right hips mirror, so a common
    /// sign in the trunk frame needs opposite signs on the two sides.
    pub open spec fn spec_angle_for(self, body: Seq<char>) -> int {
        if spec_ends_with(body, "_hip"@) {
            if spec_starts_with(body, "FL"@) || spec_starts_with(body, "RL"@) {
                self.leg[0] as int
            } else {
                sat(-self.leg[0])
            }
        } else if spec_ends_with(body, "_thigh"@) {
            self.leg[1] as int
        } else if spec_ends_with(body, "_calf"@) {
            self.leg[2] as int
        } else if body == "arm"@ {
            self.arm as int
        } else {
            0
        }
    }

    pub fn angle_for(&self, body: &Vec<char>) -> (r: i64)
        ensures
            r == self.spec_angle_for(body@),
    {
        if ends_with(body, "_hip") {
            if starts_with(body, "FL") || starts_with(body, "RL") {
                self.leg[0]
            } else {
                saturate(-(self.leg[0] as i128))
            }
        } else if ends_with(body, "_thigh") {
            self.leg[1]
        } else if ends_with(body, "_calf") {
            self.leg[2]
        } else if same(body, "arm") {
            self.arm
        } else {
            0
        }
    }
}

/// The value of an attribute, where a line has it.
pub open spec fn spec_attr(line: Seq<char>, key: Seq<char>) -> Option<Seq<char>> {
    let pat = key + "=\""@;
    match spec_find(line, pat) {
        Some(at) => {
            let i = at + pat.len();
            match spec_find(line.skip(i), "\""@) {
                Some(n) => Some(line.subrange(i, i + n)),
                None => None,
            }
        },
        None => None,
    }
}

/// A text that may be absent.
pub open spec fn opt_text(t: Option<Vec<char>>) -> Option<Seq<char>> {
    match t {
        Some(v) => Some(v@),
        None => None,
    }
}

pub fn attr(line: &Vec<char>, key: &str) -> (r: Option<Vec<char>>)
    ensures
        opt_text(r) == spec_attr(line@, key@),
{
    let mut pat = chars_of(key);
    put(&mut pat, "=\"");
    match find(line, &pat) {
        Some(at) => {
            let i: usize = at + pat.len();
            let rest = cut(line, i, line.len());
            assert(rest@ =~= line@.skip(i as int));
            match find(&rest, &chars_of("\"")) {
                Some(n) => {
                    proof {
                        reveal_strlit("\"");
                    }
                    Some(cut(line, i, i + n))
                },
                None => None,
            }
        },
        None => None,
    }
}

/// The part of a description that declares the robot's bodies.
pub open spec fn spec_subtree(xml: Seq<char>) -> Option<Seq<char>> {
    match (spec_find(xml, "<body name=\""@), spec_rfind(xml, "</worldbody>"@)) {
        (Some(start), Some(end)) => if start <= end {
            Some(xml.subrange(start, end))
        } else {
            None
        },
        _ => None,
    }
}

/// Why a description is not recognised.
#[derive(Clone, Copy, Debug, PartialEq, Eq, Structural)]
pub enum Unrecognised {
    /// It declares no named body.
    NoBody,
    /// Its world does not end.
    NoEnd,
    /// Its world ends before the first body.
    EndsEarly,
}

pub open spec fn spec_unrecognised(xml: Seq<char>) -> Option<Unrecognised> {
    match (spec_find(xml, "<body name=\""@), spec_rfind(xml, "</worldbody>"@)) {
        (None, _) => Some(Unrecognised::NoBody),
        (_, None) => Some(Unrecognised::NoEnd),
        (Some(start), Some(end)) => if start <= end {
            None
        } else {
            Some(Unrecognised::EndsEarly)
        },
    }
}

/// Why a description is not recognised, if it is not.
pub fn unrecognised(xml: &str) -> (r: Option<Unrecognised>)
    ensures
        r == spec_unrecognised(xml@),
        r is None <==> spec_subtree(xml@) is Some,
{
    let text = chars_of(xml);
    let start = find(&text, &chars_of("<body name=\""));
    let end = rfind(&text, &chars_of("</worldbody>"));
    match (start, end) {
        (None, _) => Some(Unrecognised::NoBody),
        (_, None) => Some(Unrecognised::NoEnd),
        (Some(s), Some(e)) => {
            if s <= e {
                None
            } else {
                Some(Unrecognised::EndsEarly)
            }
        },
    }
}

fn subtree(xml: &Vec<char>) -> (r: Option<Vec<char>>)
    ensures
        opt_text(r) == spec_subtree(xml@),
{
    let start = find(xml, &chars_of("<body name=\""));
    let end = rfind(xml, &chars_of("</worldbody>"));
    match (start, end) {
        (Some(s), Some(e)) => {
            if s <= e {
                Some(cut(xml, s, e))
            } else {
                None
            }
        },
        _ => None,
    }
}

/// A body's own part of the description, up to the next body.
pub open spec fn spec_head(tree: Seq<char>, body: Seq<char>) -> Option<Seq<char>> {
    match spec_find(tree, "<body name=\""@ + body + "\""@) {
        Some(i) => {
            let rest = tree.skip(i);
            match spec_find(rest.skip(1), "<body "@) {
                Some(k) => Some(rest.take(k + 1)),
                None => Some(rest),
            }
        },
        None => None,
    }
}

/// The words of the axis of the hinge declared inside a body, if there is
/// one: the first joint before any nested body. Fewer than three words are no
/// axis.
pub open spec fn spec_axis_words(tree: Seq<char>, body: Seq<char>) -> Option<Seq<Seq<char>>> {
    match spec_head(tree, body) {
        Some(head) => match spec_find(head, "<joint "@) {
            Some(j) => {
                let tag = head.skip(j);
                match spec_find(tag, ">"@) {
                    Some(e) => match spec_attr(tag.take(e), "axis"@) {
                        Some(axis) => if spec_words(axis).len() >= 3 {
                            Some(spec_words(axis))
                        } else {
                            None
                        },
                        None => None,
                    },
                    None => None,
                }
            },
            None => None,
        },
        None => None,
    }
}

fn body_head(tree: &Vec<char>, body: &Vec<char>) -> (r: Option<Vec<char>>)
    ensures
        opt_text(r) == spec_head(tree@, body@),
{
    let mut pat = chars_of("<body name=\"");
    put_all(&mut pat, body);
    put(&mut pat, "\"");
    proof {
        reveal_strlit("<body name=\"");
    }
    match find(tree, &pat) {
        Some(i) => {
            let rest = cut(tree, i, tree.len());
            assert(rest@ =~= tree@.skip(i as int));
            assert(rest.len() > 0);
            let inner = cut(&rest, 1, rest.len());
            assert(inner@ =~= rest@.skip(1));
            match find(&inner, &chars_of("<body ")) {
                Some(k) => {
                    let head = cut(&rest, 0, k + 1);
                    assert(head@ =~= rest@.take(k + 1));
                    Some(head)
                },
                None => Some(rest),
            }
        },
        None => None,
    }
}

/// Texts that may be absent.
pub open spec fn opt_views(t: Option<Vec<Vec<char>>>) -> Option<Seq<Seq<char>>> {
    match t {
        Some(v) => Some(views(v@)),
        None => None,
    }
}

/// The axis of the hinge declared inside a body, if there is one, as the words
/// it is written in. The caller reads each as a number, since a model's axes are
/// written in floating point, and [`axis_of`] makes the axis of them.
pub fn joint_axis_for(tree: &Vec<char>, body: &Vec<char>) -> (r: Option<Vec<Vec<char>>>)
    ensures
        opt_views(r) == spec_axis_words(tree@, body@),
{
    let head = match body_head(tree, body) {
        Some(h) => h,
        None => {
            return None;
        },
    };
    let j: usize = match find(&head, &chars_of("<joint ")) {
        Some(j) => j,
        None => {
            return None;
        },
    };
    let tag = cut(&head, j, head.len());
    assert(tag@ =~= head@.skip(j as int));
    let e: usize = match find(&tag, &chars_of(">")) {
        Some(e) => e,
        None => {
            return None;
        },
    };
    let opened = cut(&tag, 0, e);
    assert(opened@ =~= tag@.take(e as int));
    match attr(&opened, "axis") {
        Some(axis) => {
            let w = words(&axis);
            assert(views(w@).len() == w.len());
            if w.len() >= 3 {
                Some(w)
            } else {
                None
            }
        },
        None => None,
    }
}

/// The entries that could be read, in order.
pub open spec fn readable<T>(read: Seq<Option<T>>) -> Seq<T>
    decreases read.len(),
{
    if read.len() == 0 {
        seq![]
    } else {
        match read.last() {
            Some(v) => readable(read.drop_last()).push(v),
            None => readable(read.drop_last()),
        }
    }
}

/// An axis from the numbers its words were read as: those that could be read,
/// in order, where there are exactly three of them, and no axis otherwise.
pub fn axis_of<T: Copy>(read: &Vec<Option<T>>) -> (r: Option<[T; 3]>)
    ensures
        r is Some <==> readable(read@).len() == 3,
        r is Some ==> r->0@ == readable(read@),
{
    let mut v: Vec<T> = Vec::new();
    let mut i: usize = 0;
    assert(read@.take(0) =~= seq![]);
    assert(v@ =~= readable(read@.take(0)));
    while i < read.len()
        invariant
            i <= read.len(),
            v@ == readable(read@.take(i as int)),
        decreases read.len() - i,
    {
        assert(read@.take(i + 1).drop_last() =~= read@.take(i as int));
        assert(read@.take(i + 1).last() == read@[i as int]);
        if let Some(x) = read[i] {
            v.push(x);
        }
        i = i + 1;
    }
    assert(read@.take(read@.len() as int) =~= read@);
    if v.len() == 3 {
        let axis: [T; 3] = [v[0], v[1], v[2]];
        assert(axis@ =~= v@);
        Some(axis)
    } else {
        None
    }
}

/// A body's name as its own line gives it.
pub open spec fn spec_name_of(line: Seq<char>) -> Seq<char> {
    match spec_attr(spec_trim_start(line), "name"@) {
        Some(n) => n,
        None => seq![],
    }
}

pub open spec fn is_body(line: Seq<char>) -> bool {
    let t = spec_trim_start(line);
    !spec_starts_with(t, "<joint "@) && !spec_starts_with(t, "<freejoint"@) && spec_starts_with(
        t,
        "<body "@,
    )
}

/// The names of the bodies that the first `n` lines declare, in order.
pub open spec fn body_names(ls: Seq<Seq<char>>, n: nat) -> Seq<Seq<char>>
    decreases n,
{
    if n == 0 {
        seq![]
    } else if is_body(ls[n - 1]) {
        body_names(ls, (n - 1) as nat).push(spec_name_of(ls[n - 1]))
    } else {
        body_names(ls, (n - 1) as nat)
    }
}

/// The orientation that a welded hinge leaves its body with.
pub open spec fn spec_quat_attr(q: [i64; 4]) -> Seq<char> {
    " quat=\""@ + spec_fixed(q[0] as int, 9, false) + " "@ + spec_fixed(q[1] as int, 9, false)
        + " "@ + spec_fixed(q[2] as int, 9, false) + " "@ + spec_fixed(q[3] as int, 9, false)
        + "\""@
}

fn quat_attr(q: &[i64; 4]) -> (r: Vec<char>)
    ensures
        r@ == spec_quat_attr(*q),
{
    let mut out: Vec<char> = Vec::new();
    put(&mut out, " quat=\"");
    put_all(&mut out, &fixed(q[0], 9, false));
    put(&mut out, " ");
    put_all(&mut out, &fixed(q[1], 9, false));
    put(&mut out, " ");
    put_all(&mut out, &fixed(q[2], 9, false));
    put(&mut out, " ");
    put_all(&mut out, &fixed(q[3], 9, false));
    put(&mut out, "\"");
    assert(out@ =~= spec_quat_attr(*q));
    out
}

/// `extra` put in before the last closing bracket of a line.
pub open spec fn spec_insert(line: Seq<char>, extra: Seq<char>) -> Seq<char> {
    let at = match spec_rfind(line, ">"@) {
        Some(i) => i,
        None => line.len() as int,
    };
    line.take(at) + extra + line.skip(at)
}

fn insert(line: &Vec<char>, extra: &Vec<char>) -> (r: Vec<char>)
    ensures
        r@ == spec_insert(line@, extra@),
{
    let at: usize = match rfind(line, &chars_of(">")) {
        Some(i) => i,
        None => line.len(),
    };
    let mut out = cut(line, 0, at);
    put_all(&mut out, extra);
    let tail = cut(line, at, line.len());
    put_all(&mut out, &tail);
    assert(out@ =~= spec_insert(line@, extra@));
    out
}

/// A line with one attribute's value given another.
pub open spec fn spec_set_attr(
    line: Seq<char>,
    key: Seq<char>,
    old_value: Seq<char>,
    new_value: Seq<char>,
) -> Seq<char> {
    spec_replace(
        line,
        key + "=\""@ + old_value + "\""@,
        key + "=\""@ + new_value + "\""@,
    )
}

fn set_attr(line: &Vec<char>, key: &str, old_value: &Vec<char>, new_value: &Vec<char>) -> (r: Vec<
    char,
>)
    ensures
        r@ == spec_set_attr(line@, key@, old_value@, new_value@),
{
    let mut pat = chars_of(key);
    put(&mut pat, "=\"");
    put_all(&mut pat, old_value);
    put(&mut pat, "\"");
    let mut with = chars_of(key);
    put(&mut with, "=\"");
    put_all(&mut with, new_value);
    put(&mut with, "\"");
    proof {
        reveal_strlit("\"");
    }
    replace(line, &pat, &with)
}

/// The colour of the opponent's visible shapes.
pub open spec fn foe_rgba() -> Seq<char> {
    "0.85 0.25 0.22 1"@
}

/// A body's line: oriented by its weld, where it has one, and renamed.
pub open spec fn spec_body_line(
    line: Seq<char>,
    prefix: Seq<char>,
    pose: LockedPose,
    quat: Option<[i64; 4]>,
) -> Seq<char> {
    let name = spec_name_of(line);
    let welded = match quat {
        Some(q) => if pose.spec_angle_for(name) != 0 {
            spec_insert(line, spec_quat_attr(q))
        } else {
            line
        },
        None => line,
    };
    spec_set_attr(welded, "name"@, name, prefix + name)
}

/// What becomes of one line, if anything.
///
/// Hinges go. The free joint stays: the opponent has to be able to fall over.
/// Bodies and sites are renamed, so that they do not collide with the
/// robot's own. Visible shapes are tinted; the collision shell is not.
pub open spec fn spec_rewrite(
    line: Seq<char>,
    prefix: Seq<char>,
    pose: LockedPose,
    quat: Option<[i64; 4]>,
) -> Option<Seq<char>> {
    let t = spec_trim_start(line);
    if spec_starts_with(t, "<joint "@) {
        None
    } else if spec_starts_with(t, "<freejoint"@) {
        Some(line)
    } else if spec_starts_with(t, "<body "@) {
        Some(spec_body_line(line, prefix, pose, quat))
    } else if spec_starts_with(t, "<site "@) && spec_attr(t, "name"@) is Some {
        let name = spec_attr(t, "name"@)->0;
        Some(spec_set_attr(line, "name"@, name, prefix + name))
    } else if spec_starts_with(t, "<geom "@) && spec_contains(t, "group=\"1\""@) && spec_attr(
        t,
        "rgba"@,
    ) is Some {
        Some(spec_set_attr(line, "rgba"@, spec_attr(t, "rgba"@)->0, foe_rgba()))
    } else {
        Some(line)
    }
}

fn prefixed(prefix: &Vec<char>, name: &Vec<char>) -> (r: Vec<char>)
    ensures
        r@ == prefix@ + name@,
{
    let mut out = cut(prefix, 0, prefix.len());
    assert(out@ =~= prefix@);
    put_all(&mut out, name);
    out
}

fn body_line(line: &Vec<char>, t: &Vec<char>, prefix: &Vec<char>, pose: &LockedPose, quat: Option<
    [i64; 4],
>) -> (r: Vec<char>)
    requires
        t@ == spec_trim_start(line@),
    ensures
        r@ == spec_body_line(line@, prefix@, *pose, quat),
{
    let name = match attr(t, "name") {
        Some(n) => n,
        None => {
            let v: Vec<char> = Vec::new();
            assert(v@ =~= seq![]);
            v
        },
    };
    let q: i64 = pose.angle_for(&name);
    let new_name = prefixed(prefix, &name);
    match quat {
        Some(rot) => {
            if q != 0 {
                let welded = insert(line, &quat_attr(&rot));
                set_attr(&welded, "name", &name, &new_name)
            } else {
                set_attr(line, "name", &name, &new_name)
            }
        },
        None => set_attr(line, "name", &name, &new_name),
    }
}

fn rewrite(line: &Vec<char>, prefix: &Vec<char>, pose: &LockedPose, quat: Option<[i64; 4]>) -> (r:
    Option<Vec<char>>)
    ensures
        opt_text(r) == spec_rewrite(line@, prefix@, *pose, quat),
{
    let t = trim_start(line);
    if starts_with(&t, "<joint ") {
        return None;
    }
    if starts_with(&t, "<freejoint") {
        let kept = cut(line, 0, line.len());
        assert(kept@ =~= line@);
        return Some(kept);
    }
    if starts_with(&t, "<body ") {
        return Some(body_line(line, &t, prefix, pose, quat));
    }
    if starts_with(&t, "<site ") {
        if let Some(name) = attr(&t, "name") {
            return Some(set_attr(line, "name", &name, &prefixed(prefix, &name)));
        }
    } else if starts_with(&t, "<geom ") && contains(&t, "group=\"1\"") {
        if let Some(rgba) = attr(&t, "rgba") {
            return Some(set_attr(line, "rgba", &rgba, &chars_of("0.85 0.25 0.22 1")));
        }
    }
    let kept = cut(line, 0, line.len());
    assert(kept@ =~= line@);
    proof {
        lemma_site_is_no_geom(t@);
    }
    Some(kept)
}

proof fn lemma_site_is_no_geom(t: Seq<char>)
    ensures
        spec_starts_with(t, "<site "@) ==> !spec_starts_with(t, "<geom "@),
{
    reveal_strlit("<site ");
    reveal_strlit("<geom ");
    if spec_starts_with(t, "<site "@) && spec_starts_with(t, "<geom "@) {
        assert(t.subrange(0, 6)[1] == 's');
        assert(t.subrange(0, 6)[1] == 'g');
    }
}

/// The orientation given for the `i`-th body.
pub open spec fn quat_at(quats: Seq<Option<[i64; 4]>>, i: int) -> Option<[i64; 4]> {
    if 0 <= i < quats.len() {
        quats[i]
    } else {
        None
    }
}

/// What the first `n` lines become, each on a line of its own.
pub open spec fn spec_rewritten(
    ls: Seq<Seq<char>>,
    n: nat,
    prefix: Seq<char>,
    pose: LockedPose,
    quats: Seq<Option<[i64; 4]>>,
) -> Seq<char>
    decreases n,
{
    if n == 0 {
        seq![]
    } else {
        let before = spec_rewritten(ls, (n - 1) as nat, prefix, pose, quats);
        let quat = quat_at(quats, body_names(ls, (n - 1) as nat).len() as int);
        match spec_rewrite(ls[n - 1], prefix, pose, quat) {
            Some(l) => before + l + seq!['\n'],
            None => before,
        }
    }
}

/// The opponent's description for the robot described by `xml`.
pub open spec fn spec_locked(
    xml: Seq<char>,
    prefix: Seq<char>,
    pose: LockedPose,
    quats: Seq<Option<[i64; 4]>>,
) -> Seq<char> {
    match spec_subtree(xml) {
        Some(tree) => spec_rewritten(spec_lines(tree), spec_lines(tree).len(), prefix, pose, quats),
        None => seq![],
    }
}

/// One body of the robot to be welded.
#[derive(Debug)]
pub struct Weld {
    pub name: String,
    /// The words of its hinge's axis, if it has a hinge.
    pub axis: Option<Vec<Vec<char>>>,
    /// The angle it is welded at.
    pub angle: i64,
}

/// The bodies of the robot described by `xml`, in order, with their hinge
/// axes and the angles they are to be welded at.
pub fn welds(xml: &str, pose: &LockedPose) -> (r: Vec<Weld>)
    ensures
        match spec_subtree(xml@) {
            Some(tree) => {
                let names = body_names(spec_lines(tree), spec_lines(tree).len());
                &&& r.len() == names.len()
                &&& forall|i: int|
                    0 <= i < r.len() ==> {
                        &&& (#[trigger] r@[i]).name@ == names[i]
                        &&& opt_views(r@[i].axis) == spec_axis_words(tree, names[i])
                        &&& r@[i].angle == pose.spec_angle_for(names[i])
                    }
            },
            None => r.len() == 0,
        },
{
    let mut out: Vec<Weld> = Vec::new();
    let tree = match subtree(&chars_of(xml)) {
        Some(t) => t,
        None => {
            return out;
        },
    };
    let ls = lines(&tree);
    let ghost lv = views(ls@);
    let mut i: usize = 0;
    while i < ls.len()
        invariant
            i <= ls.len(),
            lv == views(ls@),
            out.len() == body_names(lv, i as nat).len(),
            forall|k: int|
                0 <= k < out.len() ==> {
                    &&& (#[trigger] out@[k]).name@ == body_names(lv, i as nat)[k]
                    &&& opt_views(out@[k].axis) == spec_axis_words(
                        tree@,
                        body_names(lv, i as nat)[k],
                    )
                    &&& out@[k].angle == pose.spec_angle_for(body_names(lv, i as nat)[k])
                },
        decreases ls.len() - i,
    {
        let t = trim_start(&ls[i]);
        assert(lv[i as int] == ls@[i as int]@);
        if !starts_with(&t, "<joint ") && !starts_with(&t, "<freejoint") && starts_with(&t, "<body ") {
            let name = match attr(&t, "name") {
                Some(n) => n,
                None => {
                    let v: Vec<char> = Vec::new();
                    assert(v@ =~= seq![]);
                    v
                },
            };
            assert(name@ == spec_name_of(lv[i as int]));
            let axis = joint_axis_for(&tree, &name);
            let angle: i64 = pose.angle_for(&name);
            out.push(Weld { name: text_of(&name), axis, angle });
        }
        i = i + 1;
    }
    out
}

/// A second copy of the robot described by `xml`, its hinges welded, as
/// worldbody XML.
///
/// `quats` gives, for each body in order, the orientation its weld leaves it
/// with, where its hinge has an axis. Mesh assets are not repeated: this
/// refers to the same ones. A description of a shape that is not recognised
/// gives an empty text.
pub fn locked_robot_worldbody_xml(
    xml: &str,
    prefix: &str,
    pose: &LockedPose,
    quats: &Vec<Option<[i64; 4]>>,
) -> (r: String)
    ensures
        r@ == spec_locked(xml@, prefix@, *pose, quats@),
{
    let tree = match subtree(&chars_of(xml)) {
        Some(t) => t,
        None => {
            let empty = String::new();
            assert(empty@ =~= seq![]);
            return empty;
        },
    };
    let ls = lines(&tree);
    let pre = chars_of(prefix);
    let ghost lv = views(ls@);
    let mut out: Vec<char> = Vec::new();
    let mut bodies: usize = 0;
    let mut i: usize = 0;
    proof {
        assert(out@ =~= seq![]);
    }
    while i < ls.len()
        invariant
            i <= ls.len(),
            lv == views(ls@),
            pre@ == prefix@,
            bodies == body_names(lv, i as nat).len(),
            bodies <= i,
            out@ == spec_rewritten(lv, i as nat, prefix@, *pose, quats@),
        decreases ls.len() - i,
    {
        let quat: Option<[i64; 4]> = if bodies < quats.len() {
            quats[bodies]
        } else {
            None
        };
        assert(lv[i as int] == ls@[i as int]@);
        let t = trim_start(&ls[i]);
        if !starts_with(&t, "<joint ") && !starts_with(&t, "<freejoint") && starts_with(&t, "<body ") {
            bodies = bodies + 1;
        }
        if let Some(l) = rewrite(&ls[i], &pre, pose, quat) {
            put_all(&mut out, &l);
            out.push('\n');
            assert(out@ =~= spec_rewritten(lv, i as nat, prefix@, *pose, quats@) + l@ + seq!['\n']);
        }
        i = i + 1;
    }
    text_of(&out)
}

/// A line that declares no hinge keeps its free joint untouched.
pub proof fn law_free_joint_is_kept(
    line: Seq<char>,
    prefix: Seq<char>,
    pose: LockedPose,
    quat: Option<[i64; 4]>,
)
    requires
        spec_starts_with(spec_trim_start(line), "<freejoint"@),
    ensures
        spec_rewrite(line, prefix, pose, quat) == Some(line),
{
    reveal_strlit("<freejoint");
    reveal_strlit("<joint ");
    let t = spec_trim_start(line);
    assert(t.subrange(0, 10)[1] == 'f');
    if spec_starts_with(t, "<joint "@) {
        assert(t.subrange(0, 7)[1] == 'j');
    }
}

/// Replacing leaves alone whatever stands before the first character that
/// could start a match.
proof fn lemma_replace_head(s: Seq<char>, pat: Seq<char>, with: Seq<char>, k: int)
    requires
        0 <= k <= s.len(),
        pat.len() > 0,
        forall|i: int| 0 <= i < k ==> #[trigger] s[i] != pat[0],
    ensures
        spec_replace(s, pat, with).len() >= k,
        spec_replace(s, pat, with).take(k) == s.take(k),
    decreases s.len(),
{
    let r = spec_replace(s, pat, with);
    if k == 0 {
        assert(r.take(0) =~= s.take(0));
    } else if s.len() >= pat.len() {
        assert(s.subrange(0, pat.len() as int)[0] == s[0]);
        assert(!occurs_at(s, pat, 0));
        assert forall|i: int| 0 <= i < k - 1 implies #[trigger] s.skip(1)[i] != pat[0] by {
            assert(s[i + 1] != pat[0]);
        }
        lemma_replace_head(s.skip(1), pat, with, k - 1);
        let q = spec_replace(s.skip(1), pat, with);
        assert forall|i: int| 0 <= i < k implies #[trigger] r.take(k)[i] == s.take(k)[i] by {
            if i > 0 {
                assert(q.take(k - 1)[i - 1] == s.skip(1).take(k - 1)[i - 1]);
            }
        }
        assert(r.take(k) =~= s.take(k));
    }
}

/// How much white space a text starts with.
spec fn lead(s: Seq<char>) -> int {
    s.len() - spec_trim_start(s).len()
}

proof fn lemma_lead(s: Seq<char>)
    ensures
        0 <= lead(s) <= s.len(),
        spec_trim_start(s) == s.skip(lead(s)),
        forall|i: int| 0 <= i < lead(s) ==> spec_is_space(#[trigger] s[i]),
    decreases s.len(),
{
    if s.len() > 0 && spec_is_space(s[0]) {
        lemma_lead(s.skip(1));
        assert(s.skip(1).skip(lead(s.skip(1))) =~= s.skip(lead(s)));
        assert forall|i: int| 0 <= i < lead(s) implies spec_is_space(#[trigger] s[i]) by {
            if i > 0 {
                assert(spec_is_space(s.skip(1)[i - 1]));
            }
        }
    } else {
        assert(s.skip(0) =~= s);
    }
}

/// A text that agrees with another on its white space and the two characters
/// after it starts, once trimmed, with the same two characters.
proof fn lemma_same_start(a: Seq<char>, b: Seq<char>)
    requires
        lead(a) + 2 <= a.len(),
        lead(a) + 2 <= b.len(),
        b.take(lead(a) + 2) == a.take(lead(a) + 2),
        !spec_is_space(a[lead(a)]),
    ensures
        spec_trim_start(b).len() >= 2,
        spec_trim_start(b)[0] == a[lead(a)],
        spec_trim_start(b)[1] == a[lead(a) + 1],
{
    lemma_lead(a);
    lemma_lead(b);
    let n = lead(a);
    assert(b.take(n + 2)[n] == a.take(n + 2)[n]);
    assert(b.take(n + 2)[n + 1] == a.take(n + 2)[n + 1]);
    if lead(b) < n {
        let k = lead(b);
        assert(b.take(n + 2)[k] == a.take(n + 2)[k]);
        assert(spec_is_space(a[k]));
        lemma_trimmed_not_space(b);
        assert(spec_trim_start(b)[0] == b[k]);
    } else if lead(b) > n {
        assert(spec_is_space(b[n]));
    }
}

proof fn lemma_trimmed_not_space(s: Seq<char>)
    ensures
        spec_trim_start(s).len() > 0 ==> !spec_is_space(spec_trim_start(s)[0]),
    decreases s.len(),
{
    if s.len() > 0 && spec_is_space(s[0]) {
        lemma_trimmed_not_space(s.skip(1));
    }
}

/// Setting an attribute does not touch what a line starts with.
proof fn lemma_set_attr_keeps_start(
    line: Seq<char>,
    key: Seq<char>,
    old_value: Seq<char>,
    new_value: Seq<char>,
)
    requires
        key.len() > 0,
        !spec_is_space(key[0]),
        lead(line) + 2 <= line.len(),
        !spec_is_space(line[lead(line)]),
        line[lead(line)] != key[0],
        line[lead(line) + 1] != key[0],
    ensures
        ({
            let r = spec_set_attr(line, key, old_value, new_value);
            &&& spec_trim_start(r).len() >= 2
            &&& spec_trim_start(r)[0] == line[lead(line)]
            &&& spec_trim_start(r)[1] == line[lead(line) + 1]
        }),
{
    lemma_lead(line);
    let pat = key + "=\""@ + old_value + "\""@;
    let with = key + "=\""@ + new_value + "\""@;
    assert(pat[0] == key[0]);
    let k = lead(line) + 2;
    assert forall|i: int| 0 <= i < k implies #[trigger] line[i] != pat[0] by {
        if i < lead(line) {
            assert(spec_is_space(line[i]));
        }
    }
    lemma_replace_head(line, pat, with, k);
    lemma_same_start(line, spec_replace(line, pat, with));
}

/// Putting an attribute in before the closing bracket does not touch what a
/// line starts with either.
proof fn lemma_insert_keeps_start(line: Seq<char>, extra: Seq<char>)
    requires
        lead(line) + 2 <= line.len(),
        line[lead(line)] == '<',
        line[lead(line) + 1] != '>',
    ensures
        spec_trim_start(spec_insert(line, extra)).len() >= 2,
        spec_trim_start(spec_insert(line, extra))[0] == '<',
        spec_trim_start(spec_insert(line, extra))[1] == line[lead(line) + 1],
        lead(spec_insert(line, extra)) == lead(line),
{
    lemma_lead(line);
    reveal_strlit(">");
    law_rfind(line, ">"@, line.len() - 1);
    let at = match spec_rfind(line, ">"@) {
        Some(i) => i,
        None => line.len() as int,
    };
    let n = lead(line);
    if at < n + 2 {
        assert(line.subrange(at, at + 1)[0] == '>');
        assert(line[at] == '>');
        if at < n {
            assert(spec_is_space(line[at]));
        }
    }
    let r = spec_insert(line, extra);
    assert(r.take(n + 2) =~= line.take(n + 2));
    lemma_same_start(line, r);
    lemma_lead(r);
    assert(r.take(n + 2)[n] == line.take(n + 2)[n]);
    if lead(r) > n {
        assert(spec_is_space(r[n]));
    } else if lead(r) < n {
        assert(r.take(n + 2)[lead(r)] == line.take(n + 2)[lead(r)]);
        assert(spec_is_space(line[lead(r)]));
        lemma_trimmed_not_space(r);
        assert(spec_trim_start(r)[0] == r[lead(r)]);
    }
}

/// Nothing that is left of the robot declares a hinge, so the opponent cannot
/// move under its own power.
pub proof fn law_no_hinge_is_left(
    line: Seq<char>,
    prefix: Seq<char>,
    pose: LockedPose,
    quat: Option<[i64; 4]>,
)
    ensures
        match spec_rewrite(line, prefix, pose, quat) {
            Some(l) => !spec_starts_with(spec_trim_start(l), "<joint "@),
            None => true,
        },
{
    reveal_strlit("<joint ");
    reveal_strlit("<body ");
    reveal_strlit("<site ");
    reveal_strlit("<geom ");
    reveal_strlit("name");
    reveal_strlit("rgba");
    lemma_lead(line);
    let t = spec_trim_start(line);
    let n = lead(line);
    if let Some(l) = spec_rewrite(line, prefix, pose, quat) {
        if l != line {
            let second = if spec_starts_with(t, "<body "@) {
                'b'
            } else if spec_starts_with(t, "<site "@) {
                's'
            } else {
                'g'
            };
            assert(t.subrange(0, 6)[0] == '<');
            assert(t.subrange(0, 6)[1] == second);
            assert(line[n] == t[0] && line[n + 1] == t[1]);
            if spec_starts_with(t, "<body "@) {
                let name = spec_name_of(line);
                let welded = match quat {
                    Some(q) => if pose.spec_angle_for(name) != 0 {
                        spec_insert(line, spec_quat_attr(q))
                    } else {
                        line
                    },
                    None => line,
                };
                if welded != line {
                    lemma_insert_keeps_start(line, spec_quat_attr(quat->0));
                    lemma_lead(welded);
                }
                lemma_set_attr_keeps_start(welded, "name"@, name, prefix + name);
            } else if spec_starts_with(t, "<site "@) {
                let name = spec_attr(t, "name"@)->0;
                lemma_set_attr_keeps_start(line, "name"@, name, prefix + name);
            } else {
                lemma_set_attr_keeps_start(line, "rgba"@, spec_attr(t, "rgba"@)->0, foe_rgba());
            }
            if spec_starts_with(spec_trim_start(l), "<joint "@) {
                assert(spec_trim_start(l).subrange(0, 7)[1] == 'j');
            }
        }
    }
}

/// Where a text first occurs in `s` is where the first replacement happens,
/// and everything before it is left alone.
proof fn lemma_replace_first(s: Seq<char>, pat: Seq<char>, with: Seq<char>, i: int)
    requires
        pat.len() > 0,
        occurs_at(s, pat, i),
        forall|j: int| 0 <= j < i ==> !occurs_at(s, pat, j),
    ensures
        spec_replace(s, pat, with) == s.take(i) + with + spec_replace(
            s.skip(i + pat.len()),
            pat,
            with,
        ),
    decreases i,
{
    if i == 0 {
        assert(s.take(0) + with =~= with);
    } else {
        let t = s.skip(1);
        assert(t.subrange(i - 1, i - 1 + pat.len()) =~= s.subrange(i, i + pat.len()));
        assert forall|j: int| 0 <= j < i - 1 implies !occurs_at(t, pat, j) by {
            if occurs_at(t, pat, j) {
                assert(t.subrange(j, j + pat.len()) =~= s.subrange(j + 1, j + 1 + pat.len()));
                assert(occurs_at(s, pat, j + 1));
            }
        }
        assert(!occurs_at(s, pat, 0));
        lemma_replace_first(t, pat, with, i - 1);
        let tail = spec_replace(s.skip(i + pat.len()), pat, with);
        assert(t.skip(i - 1 + pat.len()) =~= s.skip(i + pat.len()));
        assert(seq![s[0]] + (t.take(i - 1) + with + tail) =~= s.take(i) + with + tail);
    }
}

/// The first quotation mark after a text without one is right behind it.
proof fn lemma_quote_follows(v: Seq<char>, rest: Seq<char>)
    requires
        forall|i: int| 0 <= i < v.len() ==> #[trigger] v[i] != '"',
    ensures
        spec_find(v + seq!['"'] + rest, "\""@) == Some(v.len() as int),
{
    reveal_strlit("\"");
    let s = v + seq!['"'] + rest;
    let q = "\""@;
    law_find(s, q, 0);
    assert(s.subrange(v.len() as int, v.len() as int + 1) =~= q);
    assert(occurs_at(s, q, v.len() as int));
    assert forall|j: int| 0 <= j < v.len() implies !occurs_at(s, q, j) by {
        if occurs_at(s, q, j) {
            assert(s.subrange(j, j + 1)[0] == q[0]);
            assert(s[j] == v[j]);
        }
    }
}

/// What an attribute holds, and where it stands.
proof fn lemma_attr_shape(t: Seq<char>, key: Seq<char>)
    requires
        spec_attr(t, key) is Some,
    ensures
        ({
            let pat = key + "=\""@;
            let v = spec_attr(t, key)->0;
            let i = spec_find(t, pat)->0;
            &&& spec_find(t, pat) is Some
            &&& i >= 0
            &&& occurs_at(t, pat + v + "\""@, i)
            &&& forall|j: int| 0 <= j < i ==> !occurs_at(t, pat, j)
            &&& forall|k: int| 0 <= k < v.len() ==> #[trigger] v[k] != '"'
        }),
{
    reveal_strlit("\"");
    let pat = key + "=\""@;
    let q = "\""@;
    law_find(t, pat, 0);
    let i = spec_find(t, pat)->0;
    let at = i + pat.len();
    law_find(t.skip(at), q, 0);
    let n = spec_find(t.skip(at), q)->0;
    let v = t.subrange(at, at + n);
    assert(t.skip(at).subrange(n, n + 1)[0] == q[0]);
    assert(t[at + n] == '"');
    assert(t.subrange(i, i + pat.len() + n + 1) =~= pat + v + q) by {
        assert(t.subrange(i, i + pat.len()) == pat);
    }
    assert forall|k: int| 0 <= k < v.len() implies #[trigger] v[k] != '"' by {
        if v[k] == '"' {
            assert(t.skip(at).subrange(k, k + 1) =~= q);
            assert(occurs_at(t.skip(at), q, k));
        }
    }
}

/// Where a key first stands, the key with its value first stands.
proof fn lemma_key_first(t: Seq<char>, head: Seq<char>, pat: Seq<char>, i: int)
    requires
        pat.len() >= head.len(),
        pat.subrange(0, head.len() as int) == head,
        forall|j: int| 0 <= j < i ==> !occurs_at(t, head, j),
    ensures
        forall|j: int| 0 <= j < i ==> !occurs_at(t, pat, j),
{
    assert forall|j: int| 0 <= j < i implies !occurs_at(t, pat, j) by {
        if occurs_at(t, pat, j) {
            assert(t.subrange(j, j + head.len()) =~= t.subrange(j, j + pat.len()).subrange(
                0,
                head.len() as int,
            ));
            assert(occurs_at(t, head, j));
        }
    }
}

/// A text that agrees with another up to the end of a key's first place has
/// the key first in that place too.
proof fn lemma_key_stays(t: Seq<char>, r: Seq<char>, head: Seq<char>, i: int)
    requires
        occurs_at(t, head, i),
        forall|j: int| 0 <= j < i ==> !occurs_at(t, head, j),
        r.len() >= i + head.len(),
        r.take(i + head.len()) == t.take(i + head.len()),
    ensures
        spec_find(r, head) == Some(i),
{
    let n = i + head.len();
    assert forall|j: int| 0 <= j <= i implies occurs_at(r, head, j) == occurs_at(t, head, j) by {
        assert(r.subrange(j, j + head.len()) =~= r.take(n).subrange(j, j + head.len()));
        assert(t.subrange(j, j + head.len()) =~= t.take(n).subrange(j, j + head.len()));
    }
    assert(occurs_at(r, head, i));
    law_find(r, head, 0);
}

/// A value given to an attribute is the value it then has, whatever else the
/// line holds.
proof fn lemma_value_is_set(t: Seq<char>, key: Seq<char>, new_value: Seq<char>)
    requires
        spec_attr(t, key) is Some,
        forall|k: int| 0 <= k < new_value.len() ==> #[trigger] new_value[k] != '"',
    ensures
        spec_attr(spec_set_attr(t, key, spec_attr(t, key)->0, new_value), key) == Some(new_value),
{
    lemma_attr_shape(t, key);
    let head = key + "=\""@;
    let v = spec_attr(t, key)->0;
    let pat = head + v + "\""@;
    let with = head + new_value + "\""@;
    let i = spec_find(t, head)->0;
    law_find(t, head, 0);
    assert(pat.subrange(0, head.len() as int) =~= head);
    lemma_key_first(t, head, pat, i);
    let tail = spec_replace(t.skip(i + pat.len()), pat, with);
    let r = t.take(i) + with + tail;
    assert(spec_set_attr(t, key, v, new_value) == r) by {
        reveal_strlit("\"");
        lemma_replace_first(t, pat, with, i);
    }
    let at = i + head.len();
    assert(r.take(at) =~= t.take(at)) by {
        assert(t.take(at) =~= t.take(i) + t.subrange(i, at));
        assert(r.take(at) =~= t.take(i) + head);
    }
    lemma_key_stays(t, r, head, i);
    assert(r.skip(at) =~= new_value + seq!['"'] + tail) by {
        reveal_strlit("\"");
        assert("\""@ =~= seq!['"']);
    }
    lemma_quote_follows(new_value, tail);
    assert(r.subrange(at, at + new_value.len()) =~= new_value);
}

/// A renamed body or site is found under its new name, so nothing of the
/// opponent's can be mistaken for the robot's own.
pub proof fn law_renamed(line: Seq<char>, prefix: Seq<char>)
    requires
        spec_attr(line, "name"@) is Some,
        forall|k: int| 0 <= k < prefix.len() ==> #[trigger] prefix[k] != '"',
    ensures
        ({
            let name = spec_attr(line, "name"@)->0;
            spec_attr(spec_set_attr(line, "name"@, name, prefix + name), "name"@) == Some(
                prefix + name,
            )
        }),
{
    lemma_attr_shape(line, "name"@);
    let name = spec_attr(line, "name"@)->0;
    assert forall|k: int| 0 <= k < (prefix + name).len() implies #[trigger] (prefix + name)[k]
        != '"' by {
        assert(k >= prefix.len() ==> (prefix + name)[k] == name[k - prefix.len()]);
    }
    lemma_value_is_set(line, "name"@, prefix + name);
}

/// A tinted shape has the opponent's colour.
pub proof fn law_tinted(line: Seq<char>)
    requires
        spec_attr(line, "rgba"@) is Some,
    ensures
        spec_attr(
            spec_set_attr(line, "rgba"@, spec_attr(line, "rgba"@)->0, foe_rgba()),
            "rgba"@,
        ) == Some(foe_rgba()),
{
    reveal_strlit("0.85 0.25 0.22 1");
    lemma_value_is_set(line, "rgba"@, foe_rgba());
}

/// A text holds no line break.
pub open spec fn unbroken(s: Seq<char>) -> bool {
    forall|i: int| 0 <= i < s.len() ==> #[trigger] s[i] != '\n'
}

proof fn lemma_unbroken_join(a: Seq<char>, b: Seq<char>)
    requires
        unbroken(a),
        unbroken(b),
    ensures
        unbroken(a + b),
{
    assert forall|i: int| 0 <= i < (a + b).len() implies #[trigger] (a + b)[i] != '\n' by {
        assert(i < a.len() ==> (a + b)[i] == a[i]);
        assert(i >= a.len() ==> (a + b)[i] == b[i - a.len()]);
    }
}

proof fn lemma_unbroken_part(s: Seq<char>, i: int, j: int)
    requires
        unbroken(s),
        0 <= i <= j <= s.len(),
    ensures
        unbroken(s.subrange(i, j)),
{
    let t = s.subrange(i, j);
    assert forall|k: int| 0 <= k < t.len() implies #[trigger] t[k] != '\n' by {
        assert(t[k] == s[i + k]);
    }
}

proof fn lemma_unbroken_replace(s: Seq<char>, pat: Seq<char>, with: Seq<char>)
    requires
        unbroken(s),
        unbroken(with),
    ensures
        unbroken(spec_replace(s, pat, with)),
    decreases s.len(),
{
    if pat.len() > 0 && s.len() >= pat.len() {
        if occurs_at(s, pat, 0) {
            let rest = s.skip(pat.len() as int);
            assert(rest =~= s.subrange(pat.len() as int, s.len() as int));
            lemma_unbroken_part(s, pat.len() as int, s.len() as int);
            lemma_unbroken_replace(rest, pat, with);
            lemma_unbroken_join(with, spec_replace(rest, pat, with));
        } else {
            let rest = s.skip(1);
            assert(rest =~= s.subrange(1, s.len() as int));
            lemma_unbroken_part(s, 1, s.len() as int);
            lemma_unbroken_replace(rest, pat, with);
            let first = seq![s[0]];
            assert(unbroken(first));
            lemma_unbroken_join(first, spec_replace(rest, pat, with));
        }
    }
}

proof fn lemma_unbroken_attr(line: Seq<char>, key: Seq<char>)
    requires
        unbroken(line),
        spec_attr(line, key) is Some,
    ensures
        unbroken(spec_attr(line, key)->0),
{
    let pat = key + "=\""@;
    law_find(line, pat, 0);
    let i = spec_find(line, pat)->0 + pat.len();
    law_find(line.skip(i), "\""@, 0);
    let n = spec_find(line.skip(i), "\""@)->0;
    lemma_unbroken_part(line, i, i + n);
}

proof fn lemma_unbroken_set(
    line: Seq<char>,
    key: Seq<char>,
    old_value: Seq<char>,
    new_value: Seq<char>,
)
    requires
        unbroken(line),
        unbroken(key),
        unbroken(new_value),
    ensures
        unbroken(spec_set_attr(line, key, old_value, new_value)),
{
    reveal_strlit("=\"");
    reveal_strlit("\"");
    assert(unbroken("=\""@));
    assert(unbroken("\""@));
    lemma_unbroken_join(key, "=\""@);
    lemma_unbroken_join(key + "=\""@, new_value);
    lemma_unbroken_join(key + "=\""@ + new_value, "\""@);
    lemma_unbroken_replace(
        line,
        key + "=\""@ + old_value + "\""@,
        key + "=\""@ + new_value + "\""@,
    );
}

proof fn lemma_unbroken_number(v: int)
    ensures
        unbroken(spec_fixed(v, 9, false)),
{
    law_number_chars(v, 9, false);
    let s = spec_fixed(v, 9, false);
    assert forall|i: int| 0 <= i < s.len() implies #[trigger] s[i] != '\n' by {
        assert(is_number_char(s[i]));
    }
}

proof fn lemma_unbroken_quat(q: [i64; 4])
    ensures
        unbroken(spec_quat_attr(q)),
{
    reveal_strlit(" quat=\"");
    reveal_strlit(" ");
    reveal_strlit("\"");
    let (a, b) = (" quat=\""@, " "@);
    let (w, x, y, z) = (
        spec_fixed(q[0] as int, 9, false),
        spec_fixed(q[1] as int, 9, false),
        spec_fixed(q[2] as int, 9, false),
        spec_fixed(q[3] as int, 9, false),
    );
    assert(unbroken(a) && unbroken(b) && unbroken("\""@));
    lemma_unbroken_number(q[0] as int);
    lemma_unbroken_number(q[1] as int);
    lemma_unbroken_number(q[2] as int);
    lemma_unbroken_number(q[3] as int);
    lemma_unbroken_join(a, w);
    lemma_unbroken_join(a + w, b);
    lemma_unbroken_join(a + w + b, x);
    lemma_unbroken_join(a + w + b + x, b);
    lemma_unbroken_join(a + w + b + x + b, y);
    lemma_unbroken_join(a + w + b + x + b + y, b);
    lemma_unbroken_join(a + w + b + x + b + y + b, z);
    lemma_unbroken_join(a + w + b + x + b + y + b + z, "\""@);
}

proof fn lemma_unbroken_insert(line: Seq<char>, extra: Seq<char>)
    requires
        unbroken(line),
        unbroken(extra),
    ensures
        unbroken(spec_insert(line, extra)),
{
    law_rfind(line, ">"@, line.len() - ">"@.len());
    let at = match spec_rfind(line, ">"@) {
        Some(i) => i,
        None => line.len() as int,
    };
    assert(line.take(at) =~= line.subrange(0, at));
    assert(line.skip(at) =~= line.subrange(at, line.len() as int));
    lemma_unbroken_part(line, 0, at);
    lemma_unbroken_part(line, at, line.len() as int);
    lemma_unbroken_join(line.take(at), extra);
    lemma_unbroken_join(line.take(at) + extra, line.skip(at));
}

/// A rewritten line is still one line.
proof fn lemma_unbroken_rewrite(
    line: Seq<char>,
    prefix: Seq<char>,
    pose: LockedPose,
    quat: Option<[i64; 4]>,
)
    requires
        unbroken(line),
        unbroken(prefix),
    ensures
        match spec_rewrite(line, prefix, pose, quat) {
            Some(l) => unbroken(l),
            None => true,
        },
{
    reveal_strlit("name");
    reveal_strlit("rgba");
    reveal_strlit("0.85 0.25 0.22 1");
    assert(unbroken("name"@) && unbroken("rgba"@) && unbroken(foe_rgba()));
    lemma_lead(line);
    let t = spec_trim_start(line);
    assert(t =~= line.subrange(lead(line), line.len() as int));
    lemma_unbroken_part(line, lead(line), line.len() as int);
    if spec_starts_with(t, "<body "@) {
        let name = spec_name_of(line);
        if spec_attr(t, "name"@) is Some {
            lemma_unbroken_attr(t, "name"@);
        }
        assert(unbroken(name));
        lemma_unbroken_join(prefix, name);
        if let Some(q) = quat {
            lemma_unbroken_quat(q);
            lemma_unbroken_insert(line, spec_quat_attr(q));
            lemma_unbroken_set(
                spec_insert(line, spec_quat_attr(q)),
                "name"@,
                name,
                prefix + name,
            );
        }
        lemma_unbroken_set(line, "name"@, name, prefix + name);
    } else {
        if spec_attr(t, "name"@) is Some {
            let name = spec_attr(t, "name"@)->0;
            lemma_unbroken_attr(t, "name"@);
            lemma_unbroken_join(prefix, name);
            lemma_unbroken_set(line, "name"@, name, prefix + name);
        }
        if spec_attr(t, "rgba"@) is Some {
            lemma_unbroken_set(line, "rgba"@, spec_attr(t, "rgba"@)->0, foe_rgba());
        }
    }
}

/// A line that declares no hinge declares none without its last character.
proof fn lemma_strip_keeps_hingeless(l: Seq<char>)
    requires
        !spec_starts_with(spec_trim_start(l), "<joint "@),
    ensures
        !spec_starts_with(spec_trim_start(spec_strip_cr(l)), "<joint "@),
{
    reveal_strlit("<joint ");
    let s = spec_strip_cr(l);
    let pat = "<joint "@;
    if spec_starts_with(spec_trim_start(s), pat) {
        lemma_lead(s);
        lemma_lead(l);
        let n = lead(s);
        assert(spec_trim_start(s).subrange(0, 7)[0] == '<');
        assert(spec_trim_start(s).subrange(0, 7)[1] == 'j');
        assert(s[n] == '<' && s[n + 1] == 'j');
        assert(s.take(n + 2) =~= l.take(n + 2));
        lemma_same_start(s, l);
        if lead(l) > n {
            assert(spec_is_space(l[n]));
            assert(l[n] == s[n]);
        } else if lead(l) < n {
            lemma_trimmed_not_space(l);
            assert(spec_trim_start(l)[0] == l[lead(l)]);
            assert(l[lead(l)] == s[lead(l)]);
            assert(spec_is_space(s[lead(l)]));
        }
        assert(spec_trim_start(l).subrange(0, 7) =~= spec_trim_start(s).subrange(0, 7));
    }
}

/// Every line of some text declares no hinge.
pub open spec fn hingeless(text: Seq<char>) -> bool {
    forall|i: int|
        0 <= i < spec_lines(text).len() ==> !spec_starts_with(
            spec_trim_start(#[trigger] spec_lines(text)[i]),
            "<joint "@,
        )
}

proof fn lemma_rewritten_hingeless(
    ls: Seq<Seq<char>>,
    n: nat,
    prefix: Seq<char>,
    pose: LockedPose,
    quats: Seq<Option<[i64; 4]>>,
)
    requires
        n <= ls.len(),
        unbroken(prefix),
        forall|i: int| 0 <= i < ls.len() ==> unbroken(#[trigger] ls[i]),
    ensures
        hingeless(spec_rewritten(ls, n, prefix, pose, quats)),
        spec_rewritten(ls, n, prefix, pose, quats).len() == 0 || spec_rewritten(
            ls,
            n,
            prefix,
            pose,
            quats,
        ).last() == '\n',
    decreases n,
{
    if n > 0 {
        lemma_rewritten_hingeless(ls, (n - 1) as nat, prefix, pose, quats);
        let before = spec_rewritten(ls, (n - 1) as nat, prefix, pose, quats);
        let quat = quat_at(quats, body_names(ls, (n - 1) as nat).len() as int);
        let line = ls[n - 1];
        law_no_hinge_is_left(line, prefix, pose, quat);
        lemma_unbroken_rewrite(line, prefix, pose, quat);
        if let Some(l) = spec_rewrite(line, prefix, pose, quat) {
            let nl = seq!['\n'];
            assert(before + l + nl =~= before + (l + nl));
            law_lines_join(before, l + nl);
            law_single_line(l);
            lemma_strip_keeps_hingeless(l);
            let all = spec_lines(before) + spec_lines(l + nl);
            let text = spec_rewritten(ls, n, prefix, pose, quats);
            assert(spec_lines(text) == all);
            assert forall|i: int| 0 <= i < spec_lines(text).len() implies !spec_starts_with(
                spec_trim_start(#[trigger] spec_lines(text)[i]),
                "<joint "@,
            ) by {
                if i < spec_lines(before).len() {
                    assert(all[i] == spec_lines(before)[i]);
                }
            }
        }
    }
}

/// The opponent cannot move under its own power: no line of its description
/// declares a hinge, whatever the robot's own looks like.
pub proof fn law_opponent_has_no_hinges(
    xml: Seq<char>,
    prefix: Seq<char>,
    pose: LockedPose,
    quats: Seq<Option<[i64; 4]>>,
)
    requires
        unbroken(prefix),
    ensures
        hingeless(spec_locked(xml, prefix, pose, quats)),
{
    match spec_subtree(xml) {
        Some(tree) => {
            let ls = spec_lines(tree);
            law_lines_hold_no_break(tree);
            assert forall|i: int| 0 <= i < ls.len() implies unbroken(#[trigger] ls[i]) by {
                assert forall|k: int| 0 <= k < ls[i].len() implies #[trigger] ls[i][k] != '\n' by {}
            }
            lemma_rewritten_hingeless(ls, ls.len(), prefix, pose, quats);
        },
        None => {
            assert(spec_lines(seq![]) =~= seq![]);
        },
    }
}

/// Replacing in two joined texts is replacing in each, where no match
/// reaches over the joint.
proof fn lemma_replace_join(a: Seq<char>, b: Seq<char>, pat: Seq<char>, with: Seq<char>)
    requires
        pat.len() > 0,
        forall|i: int| 0 <= i < a.len() && a.len() < i + pat.len() ==> !occurs_at(a + b, pat, i),
    ensures
        spec_replace(a + b, pat, with) == spec_replace(a, pat, with) + spec_replace(b, pat, with),
    decreases a.len(),
{
    let s = a + b;
    if a.len() == 0 {
        assert(s =~= b);
        assert(spec_replace(a, pat, with) == a);
        assert(a + spec_replace(b, pat, with) =~= spec_replace(b, pat, with));
    } else if occurs_at(s, pat, 0) {
        let k = pat.len() as int;
        assert(k <= a.len()) by {
            assert(!(0 <= 0 < a.len() && a.len() < 0 + pat.len()));
        }
        assert(a.subrange(0, k) =~= s.subrange(0, k));
        assert(s.skip(k) =~= a.skip(k) + b);
        assert forall|i: int|
            0 <= i < a.skip(k).len() && a.skip(k).len() < i + pat.len() implies !occurs_at(
            a.skip(k) + b,
            pat,
            i,
        ) by {
            if occurs_at(a.skip(k) + b, pat, i) {
                assert(s.skip(k).subrange(i, i + k) =~= s.subrange(i + k, i + k + k));
                assert(occurs_at(s, pat, i + k));
            }
        }
        lemma_replace_join(a.skip(k), b, pat, with);
        assert(with + (spec_replace(a.skip(k), pat, with) + spec_replace(b, pat, with)) =~= (with
            + spec_replace(a.skip(k), pat, with)) + spec_replace(b, pat, with));
    } else {
        assert(s.skip(1) =~= a.skip(1) + b);
        assert forall|i: int|
            0 <= i < a.skip(1).len() && a.skip(1).len() < i + pat.len() implies !occurs_at(
            a.skip(1) + b,
            pat,
            i,
        ) by {
            if occurs_at(a.skip(1) + b, pat, i) {
                assert(s.skip(1).subrange(i, i + pat.len()) =~= s.subrange(
                    i + 1,
                    i + 1 + pat.len(),
                ));
                assert(occurs_at(s, pat, i + 1));
            }
        }
        lemma_replace_join(a.skip(1), b, pat, with);
        if occurs_at(a, pat, 0) {
            assert(a.subrange(0, pat.len() as int) =~= s.subrange(0, pat.len() as int));
        }
        lemma_replace_step(a, pat, with);
        lemma_replace_step(s, pat, with);
        assert(seq![s[0]] + (spec_replace(a.skip(1), pat, with) + spec_replace(b, pat, with)) =~= (
        seq![a[0]] + spec_replace(a.skip(1), pat, with)) + spec_replace(b, pat, with));
    }
}

/// A character where nothing matches is kept.
proof fn lemma_replace_step(s: Seq<char>, pat: Seq<char>, with: Seq<char>)
    requires
        s.len() > 0,
        pat.len() > 0,
        !occurs_at(s, pat, 0),
    ensures
        spec_replace(s, pat, with) == seq![s[0]] + spec_replace(s.skip(1), pat, with),
{
    if s.len() < pat.len() {
        assert(spec_replace(s.skip(1), pat, with) == s.skip(1));
        assert(s =~= seq![s[0]] + s.skip(1));
    }
}

/// A text in which no match can start is left alone.
proof fn lemma_replace_nothing(s: Seq<char>, pat: Seq<char>, with: Seq<char>)
    requires
        pat.len() > 0,
        forall|i: int| 0 <= i < s.len() ==> #[trigger] s[i] != pat[0],
    ensures
        spec_replace(s, pat, with) == s,
    decreases s.len(),
{
    if s.len() > 0 {
        if occurs_at(s, pat, 0) {
            assert(s.subrange(0, pat.len() as int)[0] == s[0]);
        }
        assert forall|i: int| 0 <= i < s.skip(1).len() implies #[trigger] s.skip(1)[i] != pat[0] by {
            assert(s[i + 1] != pat[0]);
        }
        lemma_replace_nothing(s.skip(1), pat, with);
        lemma_replace_step(s, pat, with);
        assert(s =~= seq![s[0]] + s.skip(1));
    }
}

/// What a replaced text starts with, the text itself starts with, if no
/// replacement can start in it.
proof fn lemma_replaced_start(s: Seq<char>, pat: Seq<char>, with: Seq<char>, x: Seq<char>)
    requires
        pat.len() > 0,
        with.len() > 0,
        with[0] == pat[0],
        occurs_at(spec_replace(s, pat, with), x, 0),
        forall|i: int| 0 <= i < x.len() ==> #[trigger] x[i] != pat[0],
    ensures
        occurs_at(s, x, 0),
    decreases x.len(),
{
    let r = spec_replace(s, pat, with);
    if x.len() == 0 {
        assert(s.subrange(0, 0) =~= x);
    } else {
        assert(r.subrange(0, x.len() as int)[0] == x[0]);
        assert(r[0] == x[0]);
        if s.len() == 0 {
            assert(r == s);
        } else if occurs_at(s, pat, 0) {
            assert(r[0] == with[0]);
        } else {
            lemma_replace_step(s, pat, with);
            let (r1, x1) = (spec_replace(s.skip(1), pat, with), x.skip(1));
            assert(r1.subrange(0, x1.len() as int) =~= r.subrange(0, x.len() as int).skip(1));
            assert forall|i: int| 0 <= i < x1.len() implies #[trigger] x1[i] != pat[0] by {
                assert(x[i + 1] != pat[0]);
            }
            lemma_replaced_start(s.skip(1), pat, with, x1);
            assert(s.skip(1).subrange(0, x1.len() as int) == x1);
            assert(s.subrange(0, x.len() as int) =~= x) by {
                assert forall|i: int| 0 <= i < x.len() implies s.subrange(0, x.len() as int)[i]
                    == x[i] by {
                    if i > 0 {
                        assert(s.skip(1).subrange(0, x1.len() as int)[i - 1] == x1[i - 1]);
                    }
                }
            }
        }
    }
}

/// The name of a body, quoted as its line has it.
spec fn named(name: Seq<char>) -> Seq<char> {
    "name"@ + "=\""@ + name + "\""@
}

proof fn lemma_named(name: Seq<char>)
    ensures
        named(name) == seq!['n', 'a', 'm', 'e', '=', '"'] + name + seq!['"'],
        "quat"@ + "=\""@ == seq!['q', 'u', 'a', 't', '=', '"'],
        "quat="@ == seq!['q', 'u', 'a', 't', '='],
{
    reveal_strlit("name");
    reveal_strlit("=\"");
    reveal_strlit("\"");
    reveal_strlit("quat");
    reveal_strlit("quat=");
    assert(named(name) =~= seq!['n', 'a', 'm', 'e', '=', '"'] + name + seq!['"']);
    assert("quat"@ + "=\""@ =~= seq!['q', 'u', 'a', 't', '=', '"']);
    assert("quat="@ =~= seq!['q', 'u', 'a', 't', '=']);
}

/// A quoted name holds no orientation.
proof fn lemma_named_has_no_quat(name: Seq<char>, rest: Seq<char>, j: int)
    requires
        forall|k: int| 0 <= k < name.len() ==> #[trigger] name[k] != '"',
        !spec_ends_with(name, "quat="@),
        0 <= j < named(name).len(),
    ensures
        !occurs_at(named(name) + rest, "quat"@ + "=\""@, j),
{
    lemma_named(name);
    let w = named(name);
    let s = w + rest;
    let key = "quat"@ + "=\""@;
    if occurs_at(s, key, j) {
        let n = w.len() as int;
        assert forall|k: int| 0 <= k < 6 implies s[j + k] == #[trigger] key[k] by {
            assert(s.subrange(j, j + 6)[k] == key[k]);
        }
        assert(w[n - 1] == '"' && w[5] == '"' && w[3] == 'e');
        assert(s[j + 3] == key[3] && s[j + 5] == key[5]);
        if j + 5 >= n {
            let k = n - 1 - j;
            assert(s[j + k] == key[k]);
        } else if j + 5 == n - 1 {
            if j > 5 {
                assert(name.subrange(name.len() - 5, name.len() as int) =~= "quat="@) by {
                    assert forall|k: int| 0 <= k < 5 implies name[name.len() - 5 + k] == "quat="@[k] by {
                        assert(s[j + k] == key[k]);
                        assert(w[j + k] == name[j + k - 6]);
                    }
                }
            } else {
                let k = 5 - j;
                assert(s[j + k] == key[k]);
            }
        } else if j + 5 > 5 {
            assert(w[j + 5] == name[j + 5 - 6]);
        }
    }
}

/// Renaming a body brings in no orientation that the line did not have.
proof fn lemma_rename_adds_no_quat(s: Seq<char>, name: Seq<char>, new_name: Seq<char>)
    requires
        forall|k: int| 0 <= k < new_name.len() ==> #[trigger] new_name[k] != '"',
        !spec_ends_with(new_name, "quat="@),
        forall|j: int| 0 <= j ==> !occurs_at(s, "quat"@ + "=\""@, j),
    ensures
        forall|j: int|
            0 <= j ==> !occurs_at(
                spec_replace(s, named(name), named(new_name)),
                "quat"@ + "=\""@,
                j,
            ),
    decreases s.len(),
{
    lemma_named(name);
    lemma_named(new_name);
    let (pat, with) = (named(name), named(new_name));
    let key = "quat"@ + "=\""@;
    let r = spec_replace(s, pat, with);
    if s.len() > 0 && occurs_at(s, pat, 0) {
        let k = pat.len() as int;
        let t = s.skip(k);
        assert forall|j: int| 0 <= j implies !occurs_at(t, key, j) by {
            if occurs_at(t, key, j) {
                assert(t.subrange(j, j + 6) =~= s.subrange(j + k, j + k + 6));
                assert(occurs_at(s, key, j + k));
            }
        }
        lemma_rename_adds_no_quat(t, name, new_name);
        let q = spec_replace(t, pat, with);
        assert(r == with + q);
        assert forall|j: int| 0 <= j implies !occurs_at(r, key, j) by {
            if j < with.len() {
                lemma_named_has_no_quat(new_name, q, j);
            } else if occurs_at(r, key, j) {
                assert(r.subrange(j, j + 6) =~= q.subrange(j - with.len(), j - with.len() + 6));
                assert(occurs_at(q, key, j - with.len()));
            }
        }
    } else if s.len() > 0 {
        let t = s.skip(1);
        assert forall|j: int| 0 <= j implies !occurs_at(t, key, j) by {
            if occurs_at(t, key, j) {
                assert(t.subrange(j, j + 6) =~= s.subrange(j + 1, j + 1 + 6));
                assert(occurs_at(s, key, j + 1));
            }
        }
        lemma_rename_adds_no_quat(t, name, new_name);
        lemma_replace_step(s, pat, with);
        let q = spec_replace(t, pat, with);
        assert forall|j: int| 0 <= j implies !occurs_at(r, key, j) by {
            if occurs_at(r, key, j) {
                if j > 0 {
                    assert(r.subrange(j, j + 6) =~= q.subrange(j - 1, j - 1 + 6));
                    assert(occurs_at(q, key, j - 1));
                } else {
                    lemma_replaced_start(s, pat, with, key);
                    assert(occurs_at(s, key, 0));
                }
            }
        }
    }
}

/// The four numbers of an orientation, as an attribute's value.
pub open spec fn orientation(q: [i64; 4]) -> Seq<char> {
    spec_fixed(q[0] as int, 9, false) + seq![' '] + spec_fixed(q[1] as int, 9, false) + seq![' ']
        + spec_fixed(q[2] as int, 9, false) + seq![' '] + spec_fixed(q[3] as int, 9, false)
}

proof fn lemma_orientation(q: [i64; 4])
    ensures
        spec_quat_attr(q) == seq![' ', 'q', 'u', 'a', 't', '=', '"'] + orientation(q) + seq!['"'],
        forall|k: int|
            0 <= k < orientation(q).len() ==> #[trigger] orientation(q)[k] == ' '
                || is_number_char(orientation(q)[k]),
{
    reveal_strlit(" quat=\"");
    reveal_strlit(" ");
    reveal_strlit("\"");
    assert(" quat=\""@ =~= seq![' ', 'q', 'u', 'a', 't', '=', '"']);
    assert(" "@ =~= seq![' ']);
    assert("\""@ =~= seq!['"']);
    assert(spec_quat_attr(q) =~= seq![' ', 'q', 'u', 'a', 't', '=', '"'] + orientation(q)
        + seq!['"']);
    law_number_chars(q[0] as int, 9, false);
    law_number_chars(q[1] as int, 9, false);
    law_number_chars(q[2] as int, 9, false);
    law_number_chars(q[3] as int, 9, false);
    let (a, b, c, d) = (
        spec_fixed(q[0] as int, 9, false),
        spec_fixed(q[1] as int, 9, false),
        spec_fixed(q[2] as int, 9, false),
        spec_fixed(q[3] as int, 9, false),
    );
    let o = orientation(q);
    let sp = seq![' '];
    assert(o == a + sp + b + sp + c + sp + d);
    assert forall|k: int| 0 <= k < o.len() implies #[trigger] o[k] == ' ' || is_number_char(o[k]) by {
        let (n, m, l) = (
            a.len() as int,
            a.len() + 1 + b.len(),
            a.len() + 1 + b.len() + 1 + c.len(),
        );
        if k < n {
            assert(o[k] == a[k]);
        } else if k == n || k == m || k == l {
            assert(o[k] == ' ');
        } else if k < m {
            assert(o[k] == b[k - n - 1]);
        } else if k < l {
            assert(o[k] == c[k - m - 1]);
        } else {
            assert(o[k] == d[k - l - 1]);
        }
    }
}

/// No body's name reaches into an attribute `quat` put in behind it.
proof fn lemma_no_name_over_quat(s: Seq<char>, at: int, name: Seq<char>, i: int)
    requires
        forall|k: int| 0 <= k < name.len() ==> #[trigger] name[k] != '"',
        !spec_ends_with(name, "quat="@),
        0 <= i < at,
        at < i + name.len() + 7,
        at + 7 <= s.len(),
        s[at] == ' ' && s[at + 1] == 'q' && s[at + 2] == 'u' && s[at + 3] == 'a',
        s[at + 4] == 't' && s[at + 5] == '=' && s[at + 6] == '"',
    ensures
        !occurs_at(s, named(name), i),
{
    lemma_named(name);
    let pat = named(name);
    let n = pat.len() as int;
    if occurs_at(s, pat, i) {
        assert forall|j: int| i <= j < i + n implies #[trigger] s[j] == pat[j - i] by {
            assert(s.subrange(i, i + n)[j - i] == pat[j - i]);
        }
        let last = i + n - 1;
        assert(s[last] == '"');
        // The attribute's first quotation mark lies in the match.
        assert(last >= at + 6);
        let k = at + 6 - i;
        assert(pat[k] == '"');
        if k == 5 {
            assert(s[at + 4] == pat[3]);
        } else if k < n - 1 {
            assert(pat[k] == name[k - 6]);
        } else {
            assert(s[i + 5] == '"');
            assert(i + 5 < at);
            let m = name.len() as int;
            assert(name[m - 5] == s[at + 1]);
            assert(name[m - 4] == s[at + 2]);
            assert(name[m - 3] == s[at + 3]);
            assert(name[m - 2] == s[at + 4]);
            assert(name[m - 1] == s[at + 5]);
            assert(name.subrange(m - 5, m) =~= "quat="@);
        }
    }
}

/// Renaming leaves the orientation put into a line alone.
proof fn lemma_rename_keeps_quat(
    a: Seq<char>,
    q: [i64; 4],
    b: Seq<char>,
    name: Seq<char>,
    new_name: Seq<char>,
)
    requires
        forall|k: int| 0 <= k < name.len() ==> #[trigger] name[k] != '"',
        !spec_ends_with(name, "quat="@),
    ensures
        spec_replace(a + spec_quat_attr(q) + b, named(name), named(new_name)) == spec_replace(
            a,
            named(name),
            named(new_name),
        ) + spec_quat_attr(q) + spec_replace(b, named(name), named(new_name)),
{
    lemma_named(name);
    lemma_orientation(q);
    let (pat, with) = (named(name), named(new_name));
    let e = spec_quat_attr(q);
    assert(a + e + b =~= a + (e + b));
    assert forall|i: int|
        0 <= i < a.len() && a.len() < i + pat.len() implies !occurs_at(a + (e + b), pat, i) by {
        let s = a + (e + b);
        let at = a.len() as int;
        assert(s[at] == e[0] && s[at + 1] == e[1] && s[at + 2] == e[2] && s[at + 3] == e[3]);
        assert(s[at + 4] == e[4] && s[at + 5] == e[5] && s[at + 6] == e[6]);
        lemma_no_name_over_quat(s, at, name, i);
    }
    lemma_replace_join(a, e + b, pat, with);
    assert forall|i: int| 0 <= i < e.len() implies #[trigger] e[i] != 'n' by {
        let o = orientation(q);
        if 7 <= i < 7 + o.len() {
            assert(e[i] == o[i - 7]);
        }
    }
    assert forall|i: int| 0 <= i < e.len() && e.len() < i + pat.len() implies !occurs_at(
        e + b,
        pat,
        i,
    ) by {
        if occurs_at(e + b, pat, i) {
            assert((e + b).subrange(i, i + pat.len())[0] == e[i]);
        }
    }
    lemma_replace_join(e, b, pat, with);
    lemma_replace_nothing(e, pat, with);
    let (x, y) = (spec_replace(a, pat, with), spec_replace(b, pat, with));
    assert(x + (e + y) =~= x + e + y);
}

/// A key without a space, put in behind one, is found there if it was nowhere
/// before.
proof fn lemma_key_place(x: Seq<char>, key: Seq<char>, z: Seq<char>)
    requires
        forall|j: int| 0 <= j ==> !occurs_at(x, key, j),
        forall|k: int| 0 <= k < key.len() ==> #[trigger] key[k] != ' ',
    ensures
        spec_find(x + seq![' '] + key + z, key) == Some(x.len() as int + 1),
{
    let r = x + seq![' '] + key + z;
    let n = x.len() as int;
    let m = key.len() as int;
    assert(r.subrange(n + 1, n + 1 + m) =~= key);
    assert(occurs_at(r, key, n + 1));
    assert forall|j: int| 0 <= j < n + 1 implies !occurs_at(r, key, j) by {
        if occurs_at(r, key, j) {
            if j + m <= n {
                assert(x.subrange(j, j + m) =~= r.subrange(j, j + m));
                assert(occurs_at(x, key, j));
            } else {
                let k = n - j;
                assert(r.subrange(j, j + m)[k] == r[n]);
                assert(key[k] != ' ');
            }
        }
    }
    law_find(r, key, 0);
    let i = spec_find_from(r, key, 0)->0;
    assert(occurs_at(r, key, i));
}

/// The orientation put into a line is the one it then has.
proof fn lemma_quat_is_found(x: Seq<char>, q: [i64; 4], y: Seq<char>)
    requires
        forall|j: int| 0 <= j ==> !occurs_at(x, "quat"@ + "=\""@, j),
    ensures
        spec_attr(x + spec_quat_attr(q) + y, "quat"@) == Some(orientation(q)),
{
    let o = orientation(q);
    let z = o + seq!['"'] + y;
    let key = "quat"@ + "=\""@;
    let r = x + spec_quat_attr(q) + y;
    assert(r == x + seq![' '] + key + z && key.len() == 6) by {
        lemma_named(seq![]);
        lemma_orientation(q);
        assert(seq![' ', 'q', 'u', 'a', 't', '=', '"'] =~= seq![' '] + key);
        assert(r =~= x + seq![' '] + key + z);
    }
    assert(forall|k: int| 0 <= k < o.len() ==> #[trigger] o[k] != '"') by {
        lemma_orientation(q);
    }
    assert(forall|k: int| 0 <= k < key.len() ==> #[trigger] key[k] != ' ') by {
        lemma_named(seq![]);
    }
    lemma_key_place(x, key, z);
    let at = x.len() as int + 7;
    assert(r.skip(at) =~= z);
    lemma_quote_follows(o, y);
    assert(r.subrange(at, at + o.len()) =~= o);
}

/// A body welded at any angle but zero, of either sign, has the orientation
/// it was given; one welded at zero, or given none, has none added. (A line
/// that has an orientation already, and a new name that ends in `quat=`, are
/// left out: the first would be found in place of the one put in.)
pub proof fn law_weld_gives_the_orientation(
    line: Seq<char>,
    prefix: Seq<char>,
    pose: LockedPose,
    quat: Option<[i64; 4]>,
)
    requires
        is_body(line),
        !spec_contains(line, "quat"@ + "=\""@),
        forall|k: int| 0 <= k < prefix.len() ==> #[trigger] prefix[k] != '"',
        !spec_ends_with(prefix + spec_name_of(line), "quat="@),
    ensures
        spec_rewrite(line, prefix, pose, quat) is Some,
        ({
            let angle = pose.spec_angle_for(spec_name_of(line));
            let has = spec_attr(spec_rewrite(line, prefix, pose, quat)->0, "quat"@);
            &&& quat is Some && angle > 0 ==> has == Some(orientation(quat->0))
            &&& quat is Some && angle < 0 ==> has == Some(orientation(quat->0))
            &&& quat is None || angle == 0 ==> has is None
        }),
{
    let key = "quat"@ + "=\""@;
    let name = spec_name_of(line);
    let new_name = prefix + name;
    let (pat, with) = (named(name), named(new_name));
    lemma_named(name);
    law_find(line, key, 0);
    if let Some(n) = spec_attr(spec_trim_start(line), "name"@) {
        lemma_attr_shape(spec_trim_start(line), "name"@);
    }
    assert forall|k: int| 0 <= k < new_name.len() implies #[trigger] new_name[k] != '"' by {
        assert(k >= prefix.len() ==> new_name[k] == name[k - prefix.len()]);
    }
    if spec_ends_with(name, "quat="@) {
        let n = new_name.len() as int;
        assert(new_name.subrange(n - 5, n) =~= name.subrange(name.len() - 5, name.len() as int));
    }
    let r = spec_rewrite(line, prefix, pose, quat)->0;
    let angle = pose.spec_angle_for(name);
    if quat is Some && angle != 0 {
        let q = quat->0;
        let at = match spec_rfind(line, ">"@) {
            Some(i) => i,
            None => line.len() as int,
        };
        law_rfind(line, ">"@, line.len() - ">"@.len());
        reveal_strlit(">");
        let (a, b) = (line.take(at), line.skip(at));
        assert forall|j: int| 0 <= j implies !occurs_at(a, key, j) by {
            if occurs_at(a, key, j) {
                assert(a.subrange(j, j + 6) =~= line.subrange(j, j + 6));
                assert(occurs_at(line, key, j));
            }
        }
        lemma_rename_keeps_quat(a, q, b, name, new_name);
        lemma_rename_adds_no_quat(a, name, new_name);
        lemma_quat_is_found(spec_replace(a, pat, with), q, spec_replace(b, pat, with));
        assert(r == spec_replace(a + spec_quat_attr(q) + b, pat, with));
    } else {
        lemma_rename_adds_no_quat(line, name, new_name);
        assert(r == spec_replace(line, pat, with));
        law_find(r, key, 0);
    }
}

/// Every line but a hinge is kept; what is neither a body, a site nor a
/// visible shape is kept as it is, the collision shell among them.
pub proof fn law_what_is_kept(
    line: Seq<char>,
    prefix: Seq<char>,
    pose: LockedPose,
    quat: Option<[i64; 4]>,
)
    ensures
        ({
            let t = spec_trim_start(line);
            let r = spec_rewrite(line, prefix, pose, quat);
            &&& r is None <==> spec_starts_with(t, "<joint "@)
            &&& !spec_starts_with(t, "<joint "@) && !spec_starts_with(t, "<body "@)
                && !spec_starts_with(t, "<site "@) && !spec_starts_with(t, "<geom "@) ==> r
                == Some(line)
            &&& spec_starts_with(t, "<geom "@) && !spec_contains(t, "group=\"1\""@) ==> r
                == Some(line)
            &&& spec_starts_with(t, "<geom "@) && spec_attr(t, "rgba"@) is None ==> r == Some(line)
            &&& spec_starts_with(t, "<site "@) && spec_attr(t, "name"@) is None ==> r == Some(line)
        }),
{
    lemma_tags_differ(spec_trim_start(line));
}

/// A line starts with one tag at most.
proof fn lemma_tags_differ(t: Seq<char>)
    ensures
        spec_starts_with(t, "<geom "@) ==> !spec_starts_with(t, "<joint "@) && !spec_starts_with(
            t,
            "<freejoint"@,
        ) && !spec_starts_with(t, "<body "@) && !spec_starts_with(t, "<site "@),
        spec_starts_with(t, "<site "@) ==> !spec_starts_with(t, "<joint "@) && !spec_starts_with(
            t,
            "<freejoint"@,
        ) && !spec_starts_with(t, "<body "@),
{
    reveal_strlit("<site ");
    reveal_strlit("<geom ");
    reveal_strlit("<joint ");
    reveal_strlit("<freejoint");
    reveal_strlit("<body ");
    if spec_starts_with(t, "<geom "@) {
        assert(t.subrange(0, 6)[1] == 'g');
    }
    if spec_starts_with(t, "<site "@) {
        assert(t.subrange(0, 6)[1] == 's');
    }
    if spec_starts_with(t, "<joint "@) {
        assert(t.subrange(0, 7)[1] == 'j');
    }
    if spec_starts_with(t, "<freejoint"@) {
        assert(t.subrange(0, 10)[1] == 'f');
    }
    if spec_starts_with(t, "<body "@) {
        assert(t.subrange(0, 6)[1] == 'b');
    }
}

/// A line's attribute is found past the white space it starts with, too.
proof fn lemma_attr_of_trimmed(line: Seq<char>, key: Seq<char>)
    requires
        key.len() > 0,
        !spec_is_space(key[0]),
        spec_attr(spec_trim_start(line), key) is Some,
    ensures
        spec_attr(line, key) == spec_attr(spec_trim_start(line), key),
{
    lemma_lead(line);
    let (n, t) = (lead(line), spec_trim_start(line));
    let pat = key + "=\""@;
    law_find(t, pat, 0);
    let i = spec_find(t, pat)->0;
    assert(line.subrange(n + i, n + i + pat.len()) =~= t.subrange(i, i + pat.len()));
    assert(occurs_at(line, pat, n + i));
    assert forall|j: int| 0 <= j < n + i implies !occurs_at(line, pat, j) by {
        if occurs_at(line, pat, j) {
            if j < n {
                assert(line.subrange(j, j + pat.len())[0] == pat[0]);
                assert(spec_is_space(line[j]));
            } else {
                assert(t.subrange(j - n, j - n + pat.len()) =~= line.subrange(j, j + pat.len()));
                assert(occurs_at(t, pat, j - n));
            }
        }
    }
    law_find(line, pat, 0);
    assert(spec_find(line, pat) == Some(n + i));
    let at = i + pat.len();
    assert(line.skip(n + at) =~= t.skip(at));
    law_find(t.skip(at), "\""@, 0);
    let k = spec_find(t.skip(at), "\""@)->0;
    reveal_strlit("\"");
    assert(line.subrange(n + at, n + at + k) =~= t.subrange(at, at + k));
}

/// Sites, and bodies that nothing turns, go by their old name behind the
/// prefix; visible shapes get the opponent's colour.
pub proof fn law_what_is_rewritten(
    line: Seq<char>,
    prefix: Seq<char>,
    pose: LockedPose,
    quat: Option<[i64; 4]>,
)
    requires
        forall|k: int| 0 <= k < prefix.len() ==> #[trigger] prefix[k] != '"',
    ensures
        ({
            let t = spec_trim_start(line);
            let r = spec_rewrite(line, prefix, pose, quat);
            let name = spec_attr(t, "name"@);
            &&& spec_starts_with(t, "<site "@) && name is Some ==> r is Some && spec_attr(
                r->0,
                "name"@,
            ) == Some(prefix + name->0)
            &&& is_body(line) && name is Some && (quat is None || pose.spec_angle_for(name->0) == 0)
                ==> r is Some && spec_attr(r->0, "name"@) == Some(prefix + name->0)
            &&& spec_starts_with(t, "<geom "@) && spec_contains(t, "group=\"1\""@) && spec_attr(
                t,
                "rgba"@,
            ) is Some ==> r is Some && spec_attr(r->0, "rgba"@) == Some("0.85 0.25 0.22 1"@)
        }),
{
    let t = spec_trim_start(line);
    lemma_tags_differ(t);
    reveal_strlit("name");
    reveal_strlit("rgba");
    if spec_attr(t, "name"@) is Some {
        lemma_attr_of_trimmed(line, "name"@);
        law_renamed(line, prefix);
    }
    if spec_attr(t, "rgba"@) is Some {
        lemma_attr_of_trimmed(line, "rgba"@);
        law_tinted(line);
    }
}

/// Each part of a leg is welded at its own angle, on every leg; the hips of
/// the left side at the hip angle, all the other hips at minus it; the arm at
/// the arm's; nothing else is turned.
pub proof fn law_weld_angles(pose: LockedPose, leg: Seq<char>, body: Seq<char>)
    requires
        pose.leg[0] > -0x8000_0000_0000_0000,
        leg.len() == 2,
    ensures
        leg == "FL"@ ==> pose.spec_angle_for(leg + "_hip"@) == pose.leg[0],
        leg == "RL"@ ==> pose.spec_angle_for(leg + "_hip"@) == pose.leg[0],
        leg != "FL"@ && leg != "RL"@ ==> pose.spec_angle_for(leg + "_hip"@) == -pose.leg[0],
        pose.spec_angle_for(leg + "_thigh"@) == pose.leg[1],
        pose.spec_angle_for(leg + "_calf"@) == pose.leg[2],
        pose.spec_angle_for("arm"@) == pose.arm,
        !spec_ends_with(body, "_hip"@) && !spec_ends_with(body, "_thigh"@) && !spec_ends_with(
            body,
            "_calf"@,
        ) && body != "arm"@ ==> pose.spec_angle_for(body) == 0,
{
    reveal_strlit("_hip");
    reveal_strlit("_thigh");
    reveal_strlit("_calf");
    reveal_strlit("arm");
    reveal_strlit("FL");
    reveal_strlit("RL");
    let (hip, thigh, calf) = (leg + "_hip"@, leg + "_thigh"@, leg + "_calf"@);
    assert(hip.subrange(2, 6) =~= "_hip"@);
    assert(hip.subrange(0, 2) =~= leg);
    assert(thigh.subrange(2, 8) =~= "_thigh"@);
    assert(calf.subrange(2, 7) =~= "_calf"@);
    if spec_ends_with(thigh, "_hip"@) {
        assert(thigh.subrange(4, 8)[3] == 'p');
        assert(thigh[7] == "_thigh"@[5]);
    }
    if spec_ends_with(calf, "_hip"@) {
        assert(calf.subrange(3, 7)[3] == 'p');
        assert(calf[6] == "_calf"@[4]);
    }
    if spec_ends_with(calf, "_thigh"@) {
        assert(calf.subrange(1, 7)[5] == 'h');
        assert(calf[6] == "_calf"@[4]);
    }
}

/// The value of an attribute is what stands between the first place of its key
/// and the next quotation mark; without a key it has none.
pub proof fn law_attr(a: Seq<char>, key: Seq<char>, v: Seq<char>, rest: Seq<char>, t: Seq<char>)
    requires
        forall|j: int|
            0 <= j < a.len() ==> !occurs_at(a + (key + "=\""@) + v + seq!['"'] + rest, key + "=\""@, j),
        forall|k: int| 0 <= k < v.len() ==> #[trigger] v[k] != '"',
    ensures
        spec_attr(a + (key + "=\""@) + v + seq!['"'] + rest, key) == Some(v),
        (forall|j: int| 0 <= j ==> !occurs_at(t, key + "=\""@, j)) ==> spec_attr(t, key) is None,
{
    let pat = key + "=\""@;
    let s = a + pat + v + seq!['"'] + rest;
    let n = a.len() as int;
    assert(s.subrange(n, n + pat.len()) =~= pat);
    assert(occurs_at(s, pat, n));
    law_find(s, pat, 0);
    let i = spec_find_from(s, pat, 0)->0;
    assert(occurs_at(s, pat, i));
    let at = n + pat.len();
    assert(s.skip(at) =~= v + seq!['"'] + rest);
    lemma_quote_follows(v, rest);
    assert(s.subrange(at, at + v.len()) =~= v);
    law_find(t, pat, 0);
}

/// The robot's part of a description runs from the first named body up to the
/// end of the world; the reasons for not finding one are the only ones.
/// Returned are its two ends.
pub proof fn law_subtree(xml: Seq<char>) -> (ends: (int, int))
    ensures
        ({
            let (from, to) = ends;
            let (body, end) = ("<body name=\""@, "</worldbody>"@);
            let why = spec_unrecognised(xml);
            &&& why is None <==> spec_subtree(xml) is Some
            &&& spec_subtree(xml) is Some ==> {
                &&& occurs_at(xml, body, from) && forall|j: int|
                    0 <= j < from ==> !occurs_at(xml, body, j)
                &&& occurs_at(xml, end, to) && forall|j: int| to < j ==> !occurs_at(xml, end, j)
                &&& from <= to
                &&& spec_subtree(xml) == Some(xml.subrange(from, to))
            }
            &&& why == Some(Unrecognised::NoBody) <==> forall|j: int|
                0 <= j ==> !occurs_at(xml, body, j)
            &&& why == Some(Unrecognised::NoEnd) ==> forall|j: int|
                0 <= j ==> !occurs_at(xml, end, j)
        }),
{
    let (body, end) = ("<body name=\""@, "</worldbody>"@);
    law_find(xml, body, 0);
    law_rfind(xml, end, xml.len() - end.len());
    assert forall|j: int| xml.len() - end.len() < j implies !occurs_at(xml, end, j) by {}
    match (spec_find(xml, body), spec_rfind(xml, end)) {
        (Some(from), Some(to)) => (from, to),
        (Some(from), None) => {
            assert(occurs_at(xml, body, from));
            (0, 0)
        },
        _ => (0, 0),
    }
}

/// A body's own part starts with its own line and ends before the next body,
/// or with the description. Returned is where it starts.
pub proof fn law_head(tree: Seq<char>, body: Seq<char>) -> (at: int)
    ensures
        ({
            let own = "<body name=\""@ + body + "\""@;
            let next = "<body "@;
            &&& spec_head(tree, body) is None <==> forall|j: int|
                0 <= j ==> !occurs_at(tree, own, j)
            &&& spec_head(tree, body) is Some ==> {
                let head = spec_head(tree, body)->0;
                let to = at + head.len();
                &&& occurs_at(tree, own, at) && forall|j: int|
                    0 <= j < at ==> !occurs_at(tree, own, j)
                &&& to <= tree.len() && head == tree.subrange(at, to)
                &&& forall|j: int| at < j < to ==> !occurs_at(tree, next, j)
                &&& to == tree.len() || occurs_at(tree, next, to)
            }
        }),
{
    reveal_strlit("<body name=\"");
    reveal_strlit("<body ");
    let own = "<body name=\""@ + body + "\""@;
    let next = "<body "@;
    law_find(tree, own, 0);
    match spec_find(tree, own) {
        Some(i) => {
            assert(occurs_at(tree, own, i));
            let rest = tree.skip(i);
            let inner = rest.skip(1);
            law_find(inner, next, 0);
            assert forall|j: int| 0 <= j && j + 6 <= inner.len() implies occurs_at(inner, next, j)
                == #[trigger] occurs_at(tree, next, i + 1 + j) by {
                assert(inner.subrange(j, j + 6) =~= tree.subrange(i + 1 + j, i + 1 + j + 6));
            }
            match spec_find(inner, next) {
                Some(k) => {
                    let to = i + k + 1;
                    assert(rest.take(k + 1) =~= tree.subrange(i, to));
                    assert(occurs_at(tree, next, i + 1 + k));
                    assert forall|j: int| i < j < to implies !occurs_at(tree, next, j) by {
                        if occurs_at(tree, next, j) {
                            assert(occurs_at(tree, next, i + 1 + (j - i - 1)));
                            assert(occurs_at(inner, next, j - i - 1));
                        }
                    }
                },
                None => {
                    assert(rest =~= tree.subrange(i, tree.len() as int));
                    assert forall|j: int| i < j < tree.len() implies !occurs_at(tree, next, j) by {
                        if occurs_at(tree, next, j) {
                            assert(occurs_at(tree, next, i + 1 + (j - i - 1)));
                            assert(occurs_at(inner, next, j - i - 1));
                        }
                    }
                },
            }
            i
        },
        None => 0,
    }
}

/// A body's axis is that of the first joint of its own part: the words of that
/// joint's `axis`, where there are at least three.
pub proof fn law_axis_words(
    tree: Seq<char>,
    body: Seq<char>,
    before: Seq<char>,
    joint: Seq<char>,
    after: Seq<char>,
)
    requires
        spec_head(tree, body) == Some(before + ("<joint "@ + joint) + seq!['>'] + after),
        forall|j: int|
            0 <= j < before.len() ==> !occurs_at(spec_head(tree, body)->0, "<joint "@, j),
        forall|k: int| 0 <= k < joint.len() ==> #[trigger] joint[k] != '>',
    ensures
        ({
            let axis = spec_attr("<joint "@ + joint, "axis"@);
            &&& axis is None ==> spec_axis_words(tree, body) is None
            &&& axis is Some && spec_words(axis->0).len() < 3 ==> spec_axis_words(tree, body)
                is None
            &&& axis is Some && spec_words(axis->0).len() >= 3 ==> spec_axis_words(tree, body)
                == Some(spec_words(axis->0))
        }),
{
    let head = spec_head(tree, body)->0;
    let open = "<joint "@ + joint;
    lemma_found_first(before, "<joint "@, joint + seq!['>'] + after);
    assert(head =~= before + "<joint "@ + (joint + seq!['>'] + after));
    let tag = head.skip(before.len() as int);
    assert(tag =~= open + seq!['>'] + after);
    lemma_tag_end(joint, after);
    assert(tag.take(open.len() as int) =~= open);
}

/// What first stands behind `a` is found there.
proof fn lemma_found_first(a: Seq<char>, pat: Seq<char>, b: Seq<char>)
    requires
        forall|j: int| 0 <= j < a.len() ==> !occurs_at(a + pat + b, pat, j),
    ensures
        spec_find(a + pat + b, pat) == Some(a.len() as int),
{
    let s = a + pat + b;
    let n = a.len() as int;
    assert(s.subrange(n, n + pat.len()) =~= pat);
    assert(occurs_at(s, pat, n));
    law_find(s, pat, 0);
    let i = spec_find_from(s, pat, 0)->0;
    assert(occurs_at(s, pat, i));
}

/// A joint's tag ends with its first closing bracket.
proof fn lemma_tag_end(joint: Seq<char>, after: Seq<char>)
    requires
        forall|k: int| 0 <= k < joint.len() ==> #[trigger] joint[k] != '>',
    ensures
        spec_find("<joint "@ + joint + seq!['>'] + after, ">"@) == Some(
            ("<joint "@ + joint).len() as int,
        ),
{
    reveal_strlit("<joint ");
    reveal_strlit(">");
    let open = "<joint "@ + joint;
    let tag = open + seq!['>'] + after;
    assert(">"@ =~= seq!['>']);
    assert forall|k: int| 0 <= k < open.len() implies #[trigger] open[k] != '>' by {
        if k >= 7 {
            assert(open[k] == joint[k - 7]);
        }
    }
    assert forall|j: int| 0 <= j < open.len() implies !occurs_at(tag, ">"@, j) by {
        if occurs_at(tag, ">"@, j) {
            assert(tag.subrange(j, j + 1)[0] == open[j]);
        }
    }
    lemma_found_first(open, ">"@, after);
}

/// Without a joint of its own a body has no axis.
pub proof fn law_no_joint_no_axis(tree: Seq<char>, body: Seq<char>)
    requires
        spec_head(tree, body) is Some ==> forall|j: int|
            0 <= j ==> !occurs_at(spec_head(tree, body)->0, "<joint "@, j),
    ensures
        spec_axis_words(tree, body) is None,
{
    if let Some(head) = spec_head(tree, body) {
        law_find(head, "<joint "@, 0);
    }
}

/// What can be read is kept, in order, and the rest is left out.
pub proof fn law_readable<T>(a: Seq<Option<T>>, v: T)
    ensures
        readable(Seq::<Option<T>>::empty()) == Seq::<T>::empty(),
        readable(a.push(Some(v))) == readable(a).push(v),
        readable(a.push(None)) == readable(a),
{
    assert(a.push(Some(v)).drop_last() =~= a);
    assert(a.push(None).drop_last() =~= a);
}

/// A line declares a body when its first tag is one, under the name that the
/// line gives.
pub proof fn law_body_lines(line: Seq<char>)
    ensures
        is_body(line) <==> spec_starts_with(spec_trim_start(line), "<body "@),
        spec_attr(spec_trim_start(line), "name"@) is Some ==> spec_name_of(line) == spec_attr(
            spec_trim_start(line),
            "name"@,
        )->0,
        spec_attr(spec_trim_start(line), "name"@) is None ==> spec_name_of(line).len() == 0,
{
    let t = spec_trim_start(line);
    reveal_strlit("<joint ");
    reveal_strlit("<freejoint");
    reveal_strlit("<body ");
    if spec_starts_with(t, "<body "@) {
        assert(t.subrange(0, 6)[1] == 'b');
        if spec_starts_with(t, "<joint "@) {
            assert(t.subrange(0, 7)[1] == 'j');
        }
        if spec_starts_with(t, "<freejoint"@) {
            assert(t.subrange(0, 10)[1] == 'f');
        }
    }
}

/// The lines are taken in order. Each that is kept follows the ones before it
/// on a line of its own, and the body that comes after `k` others is given the
/// `k`-th orientation, or none past the end of the list.
pub proof fn law_lines_in_order(
    ls: Seq<Seq<char>>,
    n: nat,
    prefix: Seq<char>,
    pose: LockedPose,
    quats: Seq<Option<[i64; 4]>>,
)
    requires
        n < ls.len(),
    ensures
        ({
            let (names, next) = (body_names(ls, n), body_names(ls, n + 1));
            let k = names.len() as int;
            let done = spec_rewritten(ls, n, prefix, pose, quats);
            let more = spec_rewritten(ls, n + 1, prefix, pose, quats);
            let quat = if k < quats.len() {
                quats[k]
            } else {
                None
            };
            &&& body_names(ls, 0).len() == 0 && spec_rewritten(ls, 0, prefix, pose, quats).len() == 0
            &&& is_body(ls[n as int]) ==> next == names + seq![spec_name_of(ls[n as int])]
            &&& !is_body(ls[n as int]) ==> next == names
            &&& match spec_rewrite(ls[n as int], prefix, pose, quat) {
                Some(l) => more == done + l + seq!['\n'],
                None => more == done,
            }
        }),
{
    let names = body_names(ls, n);
    assert(names.push(spec_name_of(ls[n as int])) =~= names + seq![spec_name_of(ls[n as int])]);
}

/// A description that is recognised is rewritten whole, from the lines of the
/// robot's own part; any other gives nothing.
pub proof fn law_what_is_locked(
    xml: Seq<char>,
    prefix: Seq<char>,
    pose: LockedPose,
    quats: Seq<Option<[i64; 4]>>,
)
    ensures
        spec_unrecognised(xml) is Some ==> spec_locked(xml, prefix, pose, quats).len() == 0,
        spec_subtree(xml) is Some ==> {
            let ls = spec_lines(spec_subtree(xml)->0);
            spec_locked(xml, prefix, pose, quats) == spec_rewritten(
                ls,
                ls.len(),
                prefix,
                pose,
                quats,
            )
        },
{
}

} // verus!

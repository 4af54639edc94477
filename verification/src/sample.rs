//! What is measured on each tick of a run: joint loads, foot forces and the
//! forces that were planned.
use crate::fixed::{
    abs, div_round, fdiv, fmul, law_product_is_near, law_quotient_is_near, lemma_round_div_near,
    ratio, round_div, sat, saturate, scaled, spec_abs, spec_max, ONE,
};
use crate::text::lowercased;
use vstd::prelude::*;

verus! {

/// One tick of a run.
#[derive(Clone, Copy, Debug)]
pub struct WbcSample {
    pub t: i64,
    /// The opponent's position and its trunk's +z, where there is one.
    pub foe: Option<[i64; 4]>,
    pub body_x: i64,
    pub body_z: i64,
    pub roll: i64,
    pub pitch: i64,
    /// Vertical force over all contacts.
    pub total_fz_world: i64,
    /// Normal force under each foot. Contact is what tells walking from
    /// shuffling.
    pub foot_fz: [i64; 4],
    /// Fore-aft force on each foot, in the heading frame.
    pub foot_fx: [i64; 4],
    /// Fore-aft and vertical force that was planned, and the fore-aft force
    /// that was settled on.
    pub mpc_fx: i64,
    pub mpc_fz: i64,
    pub wbc_fx: i64,
    pub body_y: i64,
    pub yaw: i64,
    pub cycle_period_s: i64,
    /// Applied torque of each joint as a share of its limit. A joint at one
    /// is clamped.
    pub tau_frac: [i64; 12],
    /// Applied torque of each joint.
    pub tau_nm: [i64; 12],
    /// Speed of each joint as a share of its rating.
    pub qd_frac: [i64; 12],
    /// Which legs the gait had in stance.
    pub stance_mask: [bool; 4],
}

/// Below this height the trunk has fallen.
pub const TRUNK_Z_FALL_THRESHOLD_M: i64 = 180_000_000;

/// Least distance that counts as having walked.
pub const MIN_DISPLACEMENT_M: i64 = 40_000_000;

/// How much of the end of a standing run its force average covers.
pub const STATIC_AVG_WINDOW_S: i64 = 500_000_000;

/// Continuous torque rating of hip and thigh.
pub const NAMIASHI_RATED_TORQUE_NM: i64 = 1_000_000_000;

/// A joint's limits, and what it was measured doing.
#[derive(Clone, Copy, Debug, PartialEq, Eq, Structural)]
pub struct JointLoad {
    pub effort: i64,
    pub velocity: i64,
    pub torque: Option<i64>,
    pub qd: Option<i64>,
}

/// The loads of all twelve joints.
#[derive(Clone, Copy, Debug)]
pub struct Loads {
    pub tau_frac: [i64; 12],
    pub tau_nm: [i64; 12],
    pub qd_frac: [i64; 12],
}

/// A magnitude as a share of a limit, where there is a limit and a reading.
pub open spec fn spec_share(v: Option<i64>, limit: int) -> int {
    match v {
        Some(x) => if limit > 0 {
            sat(fdiv(sat(spec_abs(x as int)), limit))
        } else {
            0
        },
        None => 0,
    }
}

/// A magnitude, where there is a limit and a reading.
pub open spec fn spec_size(v: Option<i64>, limit: int) -> int {
    match v {
        Some(x) => if limit > 0 {
            sat(spec_abs(x as int))
        } else {
            0
        },
        None => 0,
    }
}

impl JointLoad {
    /// The applied torque as a share of the effort limit.
    pub open spec fn spec_tau_frac(self) -> int {
        spec_share(self.torque, self.effort as int)
    }

    /// The size of the applied torque.
    pub open spec fn spec_tau_nm(self) -> int {
        spec_size(self.torque, self.effort as int)
    }

    /// The speed as a share of its rating.
    pub open spec fn spec_qd_frac(self) -> int {
        spec_share(self.qd, self.velocity as int)
    }
}

fn size(v: Option<i64>, limit: i64) -> (r: i64)
    ensures
        r == spec_size(v, limit as int),
{
    match v {
        Some(x) => {
            if limit > 0 {
                saturate(abs(x))
            } else {
                0
            }
        },
        None => 0,
    }
}

fn share(v: Option<i64>, limit: i64) -> (r: i64)
    ensures
        r == spec_share(v, limit as int),
{
    match v {
        Some(x) => {
            if limit > 0 {
                ratio(saturate(abs(x)), limit)
            } else {
                0
            }
        },
        None => 0,
    }
}

/// The loads of all twelve joints. A simulator clamps torque silently, so
/// without this a saturated joint would be invisible.
pub fn loads(joints: &[JointLoad; 12]) -> (r: Loads)
    ensures
        forall|i: int|
            0 <= i < 12 ==> #[trigger] r.tau_frac[i] == joints[i].spec_tau_frac(),
        forall|i: int| 0 <= i < 12 ==> #[trigger] r.tau_nm[i] == joints[i].spec_tau_nm(),
        forall|i: int| 0 <= i < 12 ==> #[trigger] r.qd_frac[i] == joints[i].spec_qd_frac(),
{
    let mut r = Loads { tau_frac: [0; 12], tau_nm: [0; 12], qd_frac: [0; 12] };
    let mut i: usize = 0;
    while i < 12
        invariant
            i <= 12,
            forall|j: int|
                0 <= j < i ==> #[trigger] r.tau_frac[j] == spec_share(
                    joints[j].torque,
                    joints[j].effort as int,
                ),
            forall|j: int|
                0 <= j < i ==> #[trigger] r.tau_nm[j] == spec_size(
                    joints[j].torque,
                    joints[j].effort as int,
                ),
            forall|j: int|
                0 <= j < i ==> #[trigger] r.qd_frac[j] == spec_share(
                    joints[j].qd,
                    joints[j].velocity as int,
                ),
        decreases 12 - i,
    {
        let j = joints[i];
        r.tau_frac[i] = share(j.torque, j.effort);
        r.tau_nm[i] = size(j.torque, j.effort);
        r.qd_frac[i] = share(j.qd, j.velocity);
        i = i + 1;
    }
    r
}

/// A contact between two bodies.
#[derive(Debug)]
pub struct Contact {
    pub body1: String,
    pub body2: String,
    /// Force in world coordinates.
    pub force: [i64; 3],
}

/// A contact, with its names as text.
pub ghost struct ContactText {
    pub body1: Seq<char>,
    pub body2: Seq<char>,
    pub force: [i64; 3],
}

impl View for Contact {
    type V = ContactText;

    open spec fn view(&self) -> ContactText {
        ContactText { body1: self.body1@, body2: self.body2@, force: self.force }
    }
}

impl ContactText {
    /// Whether a body takes part in the contact.
    pub open spec fn involves(self, link: Seq<char>) -> bool {
        self.body1 == link || self.body2 == link
    }

    /// The contact with its names in lower case.
    pub open spec fn lowered(self) -> Self {
        ContactText {
            body1: lowercased(self.body1),
            body2: lowercased(self.body2),
            force: self.force,
        }
    }
}

/// Some contacts, with their names as text.
pub open spec fn contact_views(v: Seq<Contact>) -> Seq<ContactText> {
    v.map_values(|c: Contact| c@)
}

/// Some contacts, with their names as text in lower case.
pub open spec fn lowered_views(v: Seq<Contact>) -> Seq<ContactText> {
    v.map_values(|c: Contact| c@.lowered())
}

/// A force's part along the heading, with its cosine and sine.
pub open spec fn spec_forward(f: [i64; 3], cy: int, sy: int) -> int {
    fmul(cy, f[0] as int) - fmul(sy, f[1] as int)
}

/// The normal force on a foot over the first `n` contacts.
pub open spec fn spec_foot_fz(contacts: Seq<ContactText>, n: nat, link: Seq<char>) -> int
    decreases n,
{
    if n == 0 {
        0
    } else {
        let before = spec_foot_fz(contacts, (n - 1) as nat, link);
        if contacts[n - 1].involves(link) {
            sat(before + spec_abs(contacts[n - 1].force[2] as int))
        } else {
            before
        }
    }
}

/// The fore-aft force on a foot over the first `n` contacts.
pub open spec fn spec_foot_fx(
    contacts: Seq<ContactText>,
    n: nat,
    link: Seq<char>,
    cy: int,
    sy: int,
) -> int
    decreases n,
{
    if n == 0 {
        0
    } else {
        let before = spec_foot_fx(contacts, (n - 1) as nat, link, cy, sy);
        if contacts[n - 1].involves(link) {
            sat(before + spec_forward(contacts[n - 1].force, cy, sy))
        } else {
            before
        }
    }
}

/// The normal and the fore-aft force on a foot, whose name is compared as it
/// is written. The fore-aft one is turned into the heading frame: a force is
/// only forward relative to where the robot points.
pub fn foot_force(contacts: &Vec<Contact>, link: &String, cy: i64, sy: i64) -> (r: (i64, i64))
    ensures
        r.0 == spec_foot_fz(contact_views(contacts@), contacts@.len(), link@),
        r.1 == spec_foot_fx(
            contact_views(contacts@),
            contacts@.len(),
            link@,
            cy as int,
            sy as int,
        ),
{
    let ghost views = contact_views(contacts@);
    let mut fz: i64 = 0;
    let mut fx: i64 = 0;
    let mut i: usize = 0;
    while i < contacts.len()
        invariant
            i <= contacts.len(),
            views == contact_views(contacts@),
            fz == spec_foot_fz(views, i as nat, link@),
            fx == spec_foot_fx(views, i as nat, link@, cy as int, sy as int),
        decreases contacts.len() - i,
    {
        assert(views[i as int] == contacts@[i as int]@);
        let c = &contacts[i];
        if c.body1 == *link || c.body2 == *link {
            fz = saturate(fz as i128 + abs(c.force[2]));
            let forward: i128 = scaled(cy, c.force[0] as i128) - scaled(sy, c.force[1] as i128);
            fx = saturate(fx as i128 + forward);
        }
        i = i + 1;
    }
    (fz, fx)
}

/// The normal and the fore-aft force on a foot, whose name is compared without
/// regard to case: a simulator may spell it otherwise than the model does.
pub fn foot_force_any_case(contacts: &Vec<Contact>, link: &str, cy: i64, sy: i64) -> (r: (
    i64,
    i64,
))
    ensures
        r.0 == spec_foot_fz(lowered_views(contacts@), contacts@.len(), lowercased(link@)),
        r.1 == spec_foot_fx(
            lowered_views(contacts@),
            contacts@.len(),
            lowercased(link@),
            cy as int,
            sy as int,
        ),
{
    let mut lowered: Vec<Contact> = Vec::new();
    let mut i: usize = 0;
    while i < contacts.len()
        invariant
            i <= contacts.len(),
            lowered.len() == i,
            forall|k: int| 0 <= k < i ==> (#[trigger] lowered@[k])@ == contacts@[k]@.lowered(),
        decreases contacts.len() - i,
    {
        let c = &contacts[i];
        lowered.push(
            Contact {
                body1: c.body1.as_str().to_lowercase(),
                body2: c.body2.as_str().to_lowercase(),
                force: c.force,
            },
        );
        i = i + 1;
    }
    assert(contact_views(lowered@) =~= lowered_views(contacts@));
    foot_force(&lowered, &link.to_lowercase(), cy, sy)
}

/// The vertical force over the first `n` contacts.
pub open spec fn spec_total_fz(contacts: Seq<Contact>, n: nat) -> int
    decreases n,
{
    if n == 0 {
        0
    } else {
        sat(spec_total_fz(contacts, (n - 1) as nat) + contacts[n - 1].force[2])
    }
}

/// The vertical force over all contacts.
pub fn total_fz(contacts: &Vec<Contact>) -> (r: i64)
    ensures
        r == spec_total_fz(contacts@, contacts@.len()),
{
    let mut sum: i64 = 0;
    let mut i: usize = 0;
    while i < contacts.len()
        invariant
            i <= contacts.len(),
            sum == spec_total_fz(contacts@, i as nat),
        decreases contacts.len() - i,
    {
        sum = saturate(sum as i128 + contacts[i].force[2] as i128);
        i = i + 1;
    }
    sum
}

pub open spec fn spec_planned_fx(f: [[i64; 3]; 4], cy: int, sy: int) -> int {
    sat(
        spec_forward(f[0], cy, sy) + spec_forward(f[1], cy, sy) + spec_forward(f[2], cy, sy)
            + spec_forward(f[3], cy, sy),
    )
}

/// The fore-aft force of a plan for the four feet.
pub fn planned_fx(f: &[[i64; 3]; 4], cy: i64, sy: i64) -> (r: i64)
    ensures
        r == spec_planned_fx(*f, cy as int, sy as int),
{
    let a: i128 = scaled(cy, f[0][0] as i128) - scaled(sy, f[0][1] as i128);
    let b: i128 = scaled(cy, f[1][0] as i128) - scaled(sy, f[1][1] as i128);
    let c: i128 = scaled(cy, f[2][0] as i128) - scaled(sy, f[2][1] as i128);
    let d: i128 = scaled(cy, f[3][0] as i128) - scaled(sy, f[3][1] as i128);
    saturate(a + b + c + d)
}

pub open spec fn spec_planned_fz(f: [[i64; 3]; 4]) -> int {
    sat(f[0][2] + f[1][2] + f[2][2] + f[3][2])
}

/// The vertical force of a plan for the four feet.
pub fn planned_fz(f: &[[i64; 3]; 4]) -> (r: i64)
    ensures
        r == spec_planned_fz(*f),
{
    saturate(f[0][2] as i128 + f[1][2] as i128 + f[2][2] as i128 + f[3][2] as i128)
}

/// How many legs stand.
pub open spec fn spec_standing(stance: [bool; 4]) -> int {
    (if stance[0] {
        1int
    } else {
        0
    }) + (if stance[1] {
        1int
    } else {
        0
    }) + (if stance[2] {
        1int
    } else {
        0
    }) + (if stance[3] {
        1int
    } else {
        0
    })
}

/// The share of the weight that foot `i` carries.
pub open spec fn spec_weight_share(stance: [bool; 4], mg: int, i: int) -> int {
    if stance[i] {
        round_div(mg, spec_max(spec_standing(stance), 1))
    } else {
        0
    }
}

/// The weight split over the feet in stance: a reference that plans nothing
/// but standing.
pub fn gravity_split(stance: &[bool; 4], mg: i64) -> (r: [i64; 4])
    ensures
        forall|i: int| 0 <= i < 4 ==> #[trigger] r[i] == spec_weight_share(*stance, mg as int, i),
{
    let mut n: i128 = 0;
    if stance[0] {
        n = n + 1;
    }
    if stance[1] {
        n = n + 1;
    }
    if stance[2] {
        n = n + 1;
    }
    if stance[3] {
        n = n + 1;
    }
    if n == 0 {
        n = 1;
    }
    let q: i128 = div_round(mg as i128, n);
    proof {
        lemma_round_div_near(mg as int, n as int);
        assert(-0x8000_0000_0000_0000 <= q <= 0x7fff_ffff_ffff_ffff) by (nonlinear_arith)
            requires
                -n <= 2 * (q * n - mg) <= n,
                n >= 1,
                -0x8000_0000_0000_0000 <= mg <= 0x7fff_ffff_ffff_ffff,
        ;
    }
    let each: i64 = q as i64;
    [
        if stance[0] {
            each
        } else {
            0
        },
        if stance[1] {
            each
        } else {
            0
        },
        if stance[2] {
            each
        } else {
            0
        },
        if stance[3] {
            each
        } else {
            0
        },
    ]
}

pub open spec fn spec_weight(mass_kg: int) -> int {
    sat(round_div(mass_kg * 981, 100))
}

/// The weight of a mass.
pub fn weight(mass_kg: i64) -> (r: i64)
    ensures
        r == spec_weight(mass_kg as int),
{
    saturate(div_round(mass_kg as i128 * 981, 100))
}

pub open spec fn spec_least_stance(frac: int, mg: int) -> Option<i64> {
    if frac > 0 {
        Some(sat(round_div(frac * mg, 4 * ONE)) as i64)
    } else {
        None
    }
}

/// The least normal force asked of a stance foot: a share of the weight each
/// foot carries at rest, where a share is asked for.
pub fn least_stance_force(frac: i64, mg: i64) -> (r: Option<i64>)
    ensures
        r == spec_least_stance(frac as int, mg as int),
{
    if frac > 0 {
        assert(-0x4000_0000_0000_0000_0000_0000_0000_0000 <= frac * mg
            <= 0x4000_0000_0000_0000_0000_0000_0000_0000) by (nonlinear_arith)
            requires
                0 < frac <= 0x7fff_ffff_ffff_ffff,
                -0x8000_0000_0000_0000 <= mg <= 0x7fff_ffff_ffff_ffff,
        ;
        Some(saturate(div_round(frac as i128 * mg as i128, 4 * ONE as i128)))
    } else {
        None
    }
}

/// The shares of the weight add up to the weight, but for their rounding.
pub proof fn law_weight_is_carried(stance: [bool; 4], mg: int)
    requires
        spec_standing(stance) >= 1,
    ensures
        -2 <= spec_weight_share(stance, mg, 0) + spec_weight_share(stance, mg, 1)
            + spec_weight_share(stance, mg, 2) + spec_weight_share(stance, mg, 3) - mg <= 2,
{
    let n = spec_standing(stance);
    lemma_round_div_near(mg, n);
    let q = round_div(mg, n);
    assert(n == 1 || n == 2 || n == 3 || n == 4);
    assert((n == 1 ==> q * n == q) && (n == 2 ==> q * n == q + q) && (n == 3 ==> q * n == q + q + q)
        && (n == 4 ==> q * n == q + q + q + q)) by (nonlinear_arith);
}

/// The normal force on a foot is never negative, and a contact that does not
/// involve it adds nothing.
pub proof fn law_foot_force(contacts: Seq<ContactText>, n: nat, link: Seq<char>)
    ensures
        spec_foot_fz(contacts, n, link) >= 0,
        (forall|i: int| 0 <= i < n ==> !(#[trigger] contacts[i]).involves(link)) ==> spec_foot_fz(
            contacts,
            n,
            link,
        ) == 0,
    decreases n,
{
    if n > 0 {
        law_foot_force(contacts, (n - 1) as nat, link);
        let _ = contacts[n - 1];
    }
}

/// A share is a magnitude over its limit, the same for either sign; without a
/// reading or a limit it is nothing, and so is the magnitude.
pub proof fn law_share(x: i64, limit: int)
    requires
        -1_000_000_000_000_000 <= x <= 1_000_000_000_000_000,
    ensures
        spec_share(None, limit) == 0,
        spec_size(None, limit) == 0,
        limit <= 0 ==> spec_share(Some(x), limit) == 0 && spec_size(Some(x), limit) == 0,
        limit > 0 && x >= 0 ==> spec_size(Some(x), limit) == x,
        limit > 0 && x <= 0 ==> spec_size(Some(x), limit) == -x,
        limit > 0 && spec_share(Some(x), limit) < i64::MAX ==> -limit <= 2 * (spec_share(
            Some(x),
            limit,
        ) * limit - spec_size(Some(x), limit) * 1_000_000_000) <= limit,
        limit > 0 ==> spec_share(Some(x), limit) >= 0,
{
    if limit > 0 {
        law_quotient_is_near(spec_abs(x as int), limit);
        lemma_round_div_near(spec_abs(x as int) * ONE, limit);
    }
}

/// The part of a force along the heading.
pub proof fn law_forward(f: [i64; 3], cy: int, sy: int)
    ensures
        -1_000_000_000 <= spec_forward(f, cy, sy) * 1_000_000_000 - (cy * f[0] - sy * f[1])
            <= 1_000_000_000,
{
    law_product_is_near(cy, f[0] as int);
    law_product_is_near(sy, f[1] as int);
}

/// Every contact of a foot adds its vertical force to what the foot carries,
/// pushing or pulling, and its force along the heading to the fore-aft one,
/// whichever of the two bodies the foot is; other contacts add nothing.
pub proof fn law_contacts_add_up(
    contacts: Seq<ContactText>,
    n: nat,
    link: Seq<char>,
    cy: int,
    sy: int,
)
    requires
        n < contacts.len(),
    ensures
        ({
            let c = contacts[n as int];
            let (fz, fx) = (
                spec_foot_fz(contacts, n, link),
                spec_foot_fx(contacts, n, link, cy, sy),
            );
            let (gz, gx) = (
                spec_foot_fz(contacts, n + 1, link),
                spec_foot_fx(contacts, n + 1, link, cy, sy),
            );
            let on = c.body1 == link || c.body2 == link;
            &&& !on ==> gz == fz && gx == fx
            &&& on && c.force[2] >= 0 && fz + c.force[2] <= i64::MAX ==> gz == fz + c.force[2]
            &&& on && c.force[2] <= 0 && fz - c.force[2] <= i64::MAX ==> gz == fz - c.force[2]
            &&& on && i64::MIN <= fx + spec_forward(c.force, cy, sy) <= i64::MAX ==> gx == fx
                + spec_forward(c.force, cy, sy)
            &&& spec_foot_fz(contacts, 0, link) == 0 && spec_foot_fx(contacts, 0, link, cy, sy) == 0
        }),
{
    law_foot_force(contacts, n, link);
}

/// The total is the sum of the vertical forces, with their signs.
pub proof fn law_total_adds_up(contacts: Seq<Contact>, n: nat)
    requires
        n < contacts.len(),
    ensures
        spec_total_fz(contacts, 0) == 0,
        ({
            let sum = spec_total_fz(contacts, n) + contacts[n as int].force[2];
            i64::MIN <= sum <= i64::MAX ==> spec_total_fz(contacts, n + 1) == sum
        }),
{
}

/// What is planned for the feet is the sum over all four, up and along the
/// heading.
pub proof fn law_planned(f: [[i64; 3]; 4], cy: int, sy: int)
    ensures
        ({
            let up = f[0][2] + f[1][2] + f[2][2] + f[3][2];
            i64::MIN <= up <= i64::MAX ==> spec_planned_fz(f) == up
        }),
        i64::MIN < spec_planned_fx(f, cy, sy) < i64::MAX ==> -4_000_000_000 <= spec_planned_fx(
            f,
            cy,
            sy,
        ) * 1_000_000_000 - (cy * f[0][0] - sy * f[0][1] + (cy * f[1][0] - sy * f[1][1]) + (cy
            * f[2][0] - sy * f[2][1]) + (cy * f[3][0] - sy * f[3][1])) <= 4_000_000_000,
{
    law_forward(f[0], cy, sy);
    law_forward(f[1], cy, sy);
    law_forward(f[2], cy, sy);
    law_forward(f[3], cy, sy);
}

/// The weight is split evenly over the feet that stand, and the others carry
/// none.
pub proof fn law_weight_is_split(stance: [bool; 4], mg: int, i: int, j: int)
    requires
        0 <= i < 4,
        0 <= j < 4,
    ensures
        !stance[i] ==> spec_weight_share(stance, mg, i) == 0,
        stance[i] && stance[j] ==> spec_weight_share(stance, mg, i) == spec_weight_share(
            stance,
            mg,
            j,
        ),
        stance[i] ==> -spec_standing(stance) <= 2 * (spec_weight_share(stance, mg, i)
            * spec_standing(stance) - mg) <= spec_standing(stance),
        spec_standing([true, true, true, true]) == 4,
        stance[i] ==> spec_standing(stance) >= 1,
{
    if stance[i] {
        lemma_round_div_near(mg, spec_standing(stance));
    }
}

/// A mass weighs nine point eight one times itself.
pub proof fn law_weight(mass: int)
    requires
        i64::MIN < spec_weight(mass) < i64::MAX,
    ensures
        -50 <= 100 * spec_weight(mass) - 981 * mass <= 50,
{
    lemma_round_div_near(mass * 981, 100);
}

/// The least force asked of a foot is its share of a quarter of the weight,
/// and none where no share is asked for.
pub proof fn law_least_stance_force(frac: int, mg: int)
    ensures
        frac <= 0 ==> spec_least_stance(frac, mg) is None,
        frac > 0 ==> spec_least_stance(frac, mg) is Some && (i64::MIN < spec_least_stance(
            frac,
            mg,
        )->0 < i64::MAX ==> -2_000_000_000 <= 4_000_000_000 * spec_least_stance(frac, mg)->0 - frac
            * mg <= 2_000_000_000),
{
    if frac > 0 {
        lemma_round_div_near(frac * mg, 4 * ONE);
    }
}

/// Comparing without regard to case lowers both names of a contact and leaves
/// its force alone.
pub proof fn law_lowered(c: ContactText)
    ensures
        c.lowered().body1 == lowercased(c.body1),
        c.lowered().body2 == lowercased(c.body2),
        c.lowered().force == c.force,
{
}

/// A joint's torque is measured against its effort limit and its speed against
/// its speed limit, and neither depends on the other.
pub proof fn law_joint_loads(j: JointLoad, o: JointLoad)
    ensures
        j.torque == o.torque && j.effort == o.effort ==> j.spec_tau_frac() == o.spec_tau_frac()
            && j.spec_tau_nm() == o.spec_tau_nm(),
        j.qd == o.qd && j.velocity == o.velocity ==> j.spec_qd_frac() == o.spec_qd_frac(),
        j.spec_tau_frac() == spec_share(j.torque, j.effort as int),
        j.spec_tau_nm() == spec_size(j.torque, j.effort as int),
        j.spec_qd_frac() == spec_share(j.qd, j.velocity as int),
{
}

} // verus!

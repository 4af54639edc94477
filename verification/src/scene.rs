//! The ring and its surroundings, written as scene description XML.
//!
//! Positions and sizes are written as short as they can be. Half lengths are
//! what a box is described by, so numbers here are in tenths of a nanometre.
use crate::decimal::{plain, spec_digits, spec_plain};
use crate::ring::KawasakiRingCfg;
use crate::text::{occurs_at, put, put_all, text_of};
use vstd::prelude::*;

verus! {

/// Half the thickness of the floor slab.
pub const FLOOR_HALF_H: i128 = 250_000_000;

/// How far the stand is set back under the ring, so that the ring reads as a
/// top plate on a base.
pub const STAND_INSET: i128 = 600_000_000;

/// A stand lower than this is left out.
pub const STAND_MIN_H: i64 = 1_000;

/// Three numbers with spaces between them.
pub open spec fn spec_triple(v: (int, int, int)) -> Seq<char> {
    spec_plain(v.0) + " "@ + spec_plain(v.1) + " "@ + spec_plain(v.2)
}

/// A distance to the positive side, or to the negative one.
pub open spec fn spec_side(v: int, positive: bool) -> int {
    if positive {
        v
    } else {
        -v
    }
}

/// One box, as a line of XML.
pub open spec fn spec_box(
    name: Seq<char>,
    pos: (int, int, int),
    size: (int, int, int),
    rgba: Seq<char>,
) -> Seq<char> {
    "    <geom name=\""@ + name + "\" type=\"box\" pos=\""@ + spec_triple(pos) + "\" size=\""@
        + spec_triple(size) + "\" rgba=\""@ + rgba + "\"/>\n"@
}

fn put_triple(out: &mut Vec<char>, v: (i128, i128, i128))
    requires
        v.0 > i128::MIN,
        v.1 > i128::MIN,
        v.2 > i128::MIN,
    ensures
        final(out)@ == old(out)@ + spec_triple((v.0 as int, v.1 as int, v.2 as int)),
{
    put_all(out, &plain(v.0));
    put(out, " ");
    put_all(out, &plain(v.1));
    put(out, " ");
    put_all(out, &plain(v.2));
    assert(out@ =~= old(out)@ + spec_triple((v.0 as int, v.1 as int, v.2 as int)));
}

fn put_box(
    out: &mut Vec<char>,
    name: &str,
    pos: (i128, i128, i128),
    size: (i128, i128, i128),
    rgba: &str,
)
    requires
        pos.0 > i128::MIN && pos.1 > i128::MIN && pos.2 > i128::MIN,
        size.0 > i128::MIN && size.1 > i128::MIN && size.2 > i128::MIN,
    ensures
        final(out)@ == old(out)@ + spec_box(
            name@,
            (pos.0 as int, pos.1 as int, pos.2 as int),
            (size.0 as int, size.1 as int, size.2 as int),
            rgba@,
        ),
{
    put(out, "    <geom name=\"");
    put(out, name);
    put(out, "\" type=\"box\" pos=\"");
    put_triple(out, pos);
    put(out, "\" size=\"");
    put_triple(out, size);
    put(out, "\" rgba=\"");
    put(out, rgba);
    put(out, "\"/>\n");
    assert(out@ =~= old(out)@ + spec_box(
        name@,
        (pos.0 as int, pos.1 as int, pos.2 as int),
        (size.0 as int, size.1 as int, size.2 as int),
        rgba@,
    ));
}

impl KawasakiRingCfg {
    /// The declaration of the height grid.
    pub open spec fn spec_asset_xml(self, name: Seq<char>) -> Seq<char> {
        "    <hfield name=\""@ + name + "\" nrow=\""@ + spec_digits(self.spec_cells() as nat)
            + "\" ncol=\""@ + spec_digits(self.spec_cells() as nat) + "\" size=\""@ + spec_plain(
            5 * self.ring_m,
        ) + " "@ + spec_plain(5 * self.ring_m) + " "@ + spec_plain(10 * self.spec_z_top_m()) + " "@
            + spec_plain(10 * self.plate_thickness_m) + "\"/>\n"@
    }

    /// The declaration of the height grid. It names no file, so the grid is
    /// filled at run time. The last size is how far the field extends below
    /// its surface: as deep as the ring.
    pub fn asset_xml(&self, name: &str) -> (r: String)
        ensures
            r@ == self.spec_asset_xml(name@),
    {
        let (nrow, ncol): (usize, usize) = self.grid();
        let mut out: Vec<char> = Vec::new();
        put(&mut out, "    <hfield name=\"");
        put(&mut out, name);
        put(&mut out, "\" nrow=\"");
        put_all(&mut out, &count(nrow));
        put(&mut out, "\" ncol=\"");
        put_all(&mut out, &count(ncol));
        put(&mut out, "\" size=\"");
        put_all(&mut out, &plain(5 * self.ring_m as i128));
        put(&mut out, " ");
        put_all(&mut out, &plain(5 * self.ring_m as i128));
        put(&mut out, " ");
        put_all(&mut out, &plain(10 * self.z_top_m() as i128));
        put(&mut out, " ");
        put_all(&mut out, &plain(10 * self.plate_thickness_m as i128));
        put(&mut out, "\"/>\n");
        assert(out@ =~= self.spec_asset_xml(name@));
        text_of(&out)
    }

    /// The floor under the ring, and the stand between the two.
    pub open spec fn spec_floor_xml(self) -> Seq<char> {
        let top = -(10 * self.spec_floor_top_z());
        match self.floor_size_m {
            Some(side) => {
                let floor = spec_box(
                    "ring_floor"@,
                    (0, 0, top - FLOOR_HALF_H),
                    (5 * side, 5 * side, FLOOR_HALF_H as int),
                    "0.42 0.44 0.47 1"@,
                );
                let h = self.spec_floor_top_z() - self.plate_thickness_m;
                if h > STAND_MIN_H {
                    floor + spec_box(
                        "ring_stand"@,
                        (0, 0, top + 5 * h),
                        (5 * self.ring_m - STAND_INSET, 5 * self.ring_m - STAND_INSET, 5 * h),
                        "0.20 0.22 0.28 1"@,
                    )
                } else {
                    floor
                }
            },
            None => seq![],
        }
    }

    fn put_floor(&self, out: &mut Vec<char>)
        ensures
            final(out)@ == old(out)@ + self.spec_floor_xml(),
    {
        let drop: i64 = self.floor_top_z();
        let top: i128 = -(10 * drop as i128);
        match self.floor_size_m {
            Some(side) => {
                let s: i128 = 5 * side as i128;
                put_box(
                    out,
                    "ring_floor",
                    (0, 0, top - FLOOR_HALF_H),
                    (s, s, FLOOR_HALF_H),
                    "0.42 0.44 0.47 1",
                );
                let h: i128 = drop as i128 - self.plate_thickness_m as i128;
                if h > STAND_MIN_H as i128 {
                    let w: i128 = 5 * self.ring_m as i128 - STAND_INSET;
                    put_box(
                        out,
                        "ring_stand",
                        (0, 0, top + 5 * h),
                        (w, w, 5 * h),
                        "0.20 0.22 0.28 1",
                    );
                }
            },
            None => {},
        }
        assert(out@ =~= old(out)@ + self.spec_floor_xml());
    }

    /// The ring plate: a solid box whose top is the surface, so that the ring
    /// has sides to fall off. One without thickness is left out.
    pub open spec fn spec_plate_xml(self) -> Seq<char> {
        if self.plate_thickness_m > 0 {
            spec_box(
                "ring_plate"@,
                (0, 0, -(5 * self.plate_thickness_m)),
                (5 * self.ring_m, 5 * self.ring_m, 5 * self.plate_thickness_m),
                "0.36 0.37 0.40 1"@,
            )
        } else {
            seq![]
        }
    }

    fn put_plate(&self, out: &mut Vec<char>)
        ensures
            final(out)@ == old(out)@ + self.spec_plate_xml(),
    {
        if self.plate_thickness_m > 0 {
            let half: i128 = 5 * self.ring_m as i128;
            let h: i128 = 5 * self.plate_thickness_m as i128;
            put_box(out, "ring_plate", (0, 0, -h), (half, half, h), "0.36 0.37 0.40 1");
        }
        assert(out@ =~= old(out)@ + self.spec_plate_xml());
    }

    /// The ring's surface.
    pub open spec fn spec_field_xml(name: Seq<char>) -> Seq<char> {
        "    <geom name=\"ring_field\" type=\"hfield\" hfield=\""@ + name
            + "\" pos=\"0 0 0\" rgba=\"0.36 0.37 0.40 1\"/>\n"@
    }

    /// A start platform, butted against the outside of the ring's edge at
    /// the corner on the far side or on the near one.
    pub open spec fn spec_start_xml(
        self,
        label: Seq<char>,
        size: (i64, i64),
        far: bool,
        rgba: Seq<char>,
    ) -> Seq<char> {
        spec_box(
            label,
            (
                spec_side(5 * (self.ring_m + size.1), far),
                spec_side(5 * (self.ring_m - size.0), far),
                -(5 * self.platform_h_m),
            ),
            (5 * size.1, 5 * size.0, 5 * self.platform_h_m),
            rgba,
        )
    }

    fn put_start(&self, out: &mut Vec<char>, label: &str, size: (i64, i64), far: bool, rgba: &str)
        ensures
            final(out)@ == old(out)@ + self.spec_start_xml(label@, size, far, rgba@),
    {
        let x: i128 = 5 * (self.ring_m as i128 + size.1 as i128);
        let y: i128 = 5 * (self.ring_m as i128 - size.0 as i128);
        let (px, py): (i128, i128) = if far {
            (x, y)
        } else {
            (-x, -y)
        };
        put_box(
            out,
            label,
            (px, py, -(5 * self.platform_h_m as i128)),
            (5 * size.1 as i128, 5 * size.0 as i128, 5 * self.platform_h_m as i128),
            rgba,
        );
    }

    /// The coloured border along a start side.
    pub open spec fn spec_border_xml(
        self,
        label: Seq<char>,
        size: (i64, i64),
        far: bool,
        rgba: Seq<char>,
    ) -> Seq<char> {
        spec_box(
            label,
            (
                spec_side(5 * (self.ring_m + size.0), far),
                0,
                5 * size.1 - 10 * self.plate_thickness_m,
            ),
            (5 * size.0, 5 * self.ring_m, 5 * (size.1 + self.plate_thickness_m)),
            rgba,
        )
    }

    fn put_border(&self, out: &mut Vec<char>, label: &str, size: (i64, i64), far: bool, rgba: &str)
        ensures
            final(out)@ == old(out)@ + self.spec_border_xml(label@, size, far, rgba@),
    {
        let x: i128 = 5 * (self.ring_m as i128 + size.0 as i128);
        let px: i128 = if far {
            x
        } else {
            -x
        };
        put_box(
            out,
            label,
            (px, 0, 5 * size.1 as i128 - 10 * self.plate_thickness_m as i128),
            (
                5 * size.0 as i128,
                5 * self.ring_m as i128,
                5 * (size.1 as i128 + self.plate_thickness_m as i128),
            ),
            rgba,
        );
    }

    /// One panel of the safety barrier, standing on the floor `r` out from
    /// the centre: to the side along x, or along y.
    pub open spec fn spec_panel_xml(
        self,
        label: Seq<char>,
        size: (i64, i64, i64),
        along_x: bool,
        far: bool,
    ) -> Seq<char> {
        let r = 5 * self.ring_m + 10 * size.1;
        let z = 5 * size.0 - 10 * self.spec_floor_top_z();
        if along_x {
            spec_box(
                label,
                (spec_side(r, far), 0, z),
                (5 * size.2, r + 10 * size.2, 5 * size.0),
                "0.55 0.70 0.80 0.25"@,
            )
        } else {
            spec_box(
                label,
                (0, spec_side(r, far), z),
                (r + 10 * size.2, 5 * size.2, 5 * size.0),
                "0.55 0.70 0.80 0.25"@,
            )
        }
    }

    fn put_panel(
        &self,
        out: &mut Vec<char>,
        label: &str,
        size: (i64, i64, i64),
        along_x: bool,
        far: bool,
    )
        ensures
            final(out)@ == old(out)@ + self.spec_panel_xml(label@, size, along_x, far),
    {
        let r: i128 = 5 * self.ring_m as i128 + 10 * size.1 as i128;
        let z: i128 = 5 * size.0 as i128 - 10 * self.floor_top_z() as i128;
        let at: i128 = if far {
            r
        } else {
            -r
        };
        let wide: i128 = r + 10 * size.2 as i128;
        let thin: i128 = 5 * size.2 as i128;
        let tall: i128 = 5 * size.0 as i128;
        if along_x {
            put_box(out, label, (at, 0, z), (thin, wide, tall), "0.55 0.70 0.80 0.25");
        } else {
            put_box(out, label, (0, at, z), (wide, thin, tall), "0.55 0.70 0.80 0.25");
        }
    }

    /// The borders of both start sides.
    pub open spec fn spec_borders_xml(self) -> Seq<char> {
        match self.border {
            Some(b) => self.spec_border_xml("border_red"@, b, false, "0.72 0.12 0.12 1"@)
                + self.spec_border_xml("border_blue"@, b, true, "0.12 0.20 0.72 1"@),
            None => seq![],
        }
    }

    /// The four panels of the safety barrier.
    pub open spec fn spec_barrier_xml(self) -> Seq<char> {
        match self.barrier {
            Some(b) => self.spec_panel_xml("barrier_xp"@, b, true, true) + self.spec_panel_xml(
                "barrier_xn"@,
                b,
                true,
                false,
            ) + self.spec_panel_xml("barrier_yp"@, b, false, true) + self.spec_panel_xml(
                "barrier_yn"@,
                b,
                false,
                false,
            ),
            None => seq![],
        }
    }

    fn put_field(out: &mut Vec<char>, name: &str)
        ensures
            final(out)@ == old(out)@ + Self::spec_field_xml(name@),
    {
        put(out, "    <geom name=\"ring_field\" type=\"hfield\" hfield=\"");
        put(out, name);
        put(out, "\" pos=\"0 0 0\" rgba=\"0.36 0.37 0.40 1\"/>\n");
        assert(out@ =~= old(out)@ + Self::spec_field_xml(name@));
    }

    fn put_borders(&self, out: &mut Vec<char>)
        ensures
            final(out)@ == old(out)@ + self.spec_borders_xml(),
    {
        if let Some(b) = self.border {
            self.put_border(out, "border_red", b, false, "0.72 0.12 0.12 1");
            self.put_border(out, "border_blue", b, true, "0.12 0.20 0.72 1");
        }
        assert(out@ =~= old(out)@ + self.spec_borders_xml());
    }

    fn put_barrier(&self, out: &mut Vec<char>)
        ensures
            final(out)@ == old(out)@ + self.spec_barrier_xml(),
    {
        if let Some(b) = self.barrier {
            self.put_panel(out, "barrier_xp", b, true, true);
            self.put_panel(out, "barrier_xn", b, true, false);
            self.put_panel(out, "barrier_yp", b, false, true);
            self.put_panel(out, "barrier_yn", b, false, false);
        }
        assert(out@ =~= old(out)@ + self.spec_barrier_xml());
    }

    /// Everything the ring puts into the world.
    pub open spec fn spec_worldbody_xml(self, name: Seq<char>, lights: Seq<char>) -> Seq<char> {
        (if self.lighting {
            lights
        } else {
            seq![]
        }) + self.spec_floor_xml() + self.spec_plate_xml() + Self::spec_field_xml(name)
            + self.spec_start_xml("start_red"@, self.red_platform_m, false, "0.72 0.12 0.12 1"@) + self.spec_start_xml("start_blue"@, self.blue_platform_m, true, "0.12 0.20 0.72 1"@)
            + self.spec_borders_xml() + self.spec_barrier_xml()
    }

    /// The ring's plate, its surface, its start platforms and its
    /// surroundings, with `lights` in front of them where the configuration
    /// wants lighting.
    ///
    /// The plate is a solid box under the surface, so that the ring has sides
    /// a robot can fall off. The height field's own base, which
    /// [`KawasakiRingCfg::asset_xml`] declares as deep as the plate, overlaps
    /// the box.
    pub fn worldbody_xml(&self, name: &str, lights: &str) -> (r: String)
        ensures
            r@ == self.spec_worldbody_xml(name@, lights@),
    {
        let mut out: Vec<char> = Vec::new();
        if self.lighting {
            put(&mut out, lights);
        }
        assert(out@ =~= if self.lighting {
            lights@
        } else {
            seq![]
        });
        self.put_floor(&mut out);
        self.put_plate(&mut out);
        Self::put_field(&mut out, name);
        self.put_start(&mut out, "start_red", self.red_platform_m, false, "0.72 0.12 0.12 1");
        self.put_start(&mut out, "start_blue", self.blue_platform_m, true, "0.12 0.20 0.72 1");
        self.put_borders(&mut out);
        self.put_barrier(&mut out);
        text_of(&out)
    }
}

/// A count in decimal.
pub fn count(n: usize) -> (r: Vec<char>)
    ensures
        r@ == spec_digits(n as nat),
{
    crate::decimal::digits(n as u128)
}

/// A text has another in it.
pub open spec fn holds(text: Seq<char>, part: Seq<char>) -> bool {
    exists|i: int| #[trigger] occurs_at(text, part, i)
}

proof fn lemma_holds(a: Seq<char>, part: Seq<char>, b: Seq<char>)
    ensures
        holds(a + part + b, part),
{
    let t = a + part + b;
    assert(t.subrange(a.len() as int, a.len() as int + part.len()) =~= part);
    assert(occurs_at(t, part, a.len() as int));
}

/// What is in a part is in the whole.
proof fn lemma_holds_join(a: Seq<char>, b: Seq<char>, x: Seq<char>)
    requires
        holds(a, x) || holds(b, x),
    ensures
        holds(a + b, x),
{
    let t = a + b;
    if holds(a, x) {
        let i = choose|i: int| #[trigger] occurs_at(a, x, i);
        assert(t.subrange(i, i + x.len()) =~= a.subrange(i, i + x.len()));
        assert(occurs_at(t, x, i));
    } else {
        let i = choose|i: int| #[trigger] occurs_at(b, x, i);
        let j = a.len() + i;
        assert(t.subrange(j, j + x.len()) =~= b.subrange(i, i + x.len()));
        assert(occurs_at(t, x, j));
    }
}

/// Each of four joined parts is in the whole.
proof fn lemma_holds_four(a: Seq<char>, b: Seq<char>, c: Seq<char>, d: Seq<char>)
    ensures
        holds(a + b + c + d, a),
        holds(a + b + c + d, b),
        holds(a + b + c + d, c),
        holds(a + b + c + d, d),
{
    lemma_holds_itself(a);
    lemma_holds_itself(b);
    lemma_holds_itself(c);
    lemma_holds_itself(d);
    lemma_holds_join(a, b, a);
    lemma_holds_join(a, b, b);
    lemma_holds_join(a + b, c, a);
    lemma_holds_join(a + b, c, b);
    lemma_holds_join(a + b, c, c);
    lemma_holds_join(a + b + c, d, a);
    lemma_holds_join(a + b + c, d, b);
    lemma_holds_join(a + b + c, d, c);
    lemma_holds_join(a + b + c, d, d);
}

/// What is in one of eight joined parts is in the whole.
proof fn lemma_holds_eight(p: Seq<Seq<char>>, k: int, x: Seq<char>)
    requires
        p.len() == 8,
        0 <= k < 8,
        holds(p[k], x),
    ensures
        holds(p[0] + p[1] + p[2] + p[3] + p[4] + p[5] + p[6] + p[7], x),
{
    let s1 = p[0] + p[1];
    let s2 = s1 + p[2];
    let s3 = s2 + p[3];
    let s4 = s3 + p[4];
    let s5 = s4 + p[5];
    let s6 = s5 + p[6];
    if k <= 1 {
        lemma_holds_join(p[0], p[1], x);
    }
    if k <= 2 {
        lemma_holds_join(s1, p[2], x);
    }
    if k <= 3 {
        lemma_holds_join(s2, p[3], x);
    }
    if k <= 4 {
        lemma_holds_join(s3, p[4], x);
    }
    if k <= 5 {
        lemma_holds_join(s4, p[5], x);
    }
    if k <= 6 {
        lemma_holds_join(s5, p[6], x);
    }
    lemma_holds_join(s6, p[7], x);
}

/// The parts of the world, each where it stands.
proof fn lemma_world_parts(cfg: KawasakiRingCfg, name: Seq<char>, lights: Seq<char>, x: Seq<char>)
    requires
        ({
            ||| holds(cfg.spec_floor_xml(), x)
            ||| holds(cfg.spec_plate_xml(), x)
            ||| holds(KawasakiRingCfg::spec_field_xml(name), x)
            ||| holds(
                cfg.spec_start_xml("start_red"@, cfg.red_platform_m, false, "0.72 0.12 0.12 1"@),
                x,
            )
            ||| holds(
                cfg.spec_start_xml("start_blue"@, cfg.blue_platform_m, true, "0.12 0.20 0.72 1"@),
                x,
            )
            ||| holds(cfg.spec_borders_xml(), x)
            ||| holds(cfg.spec_barrier_xml(), x)
        }),
    ensures
        holds(cfg.spec_worldbody_xml(name, lights), x),
{
    let parts = seq![
        if cfg.lighting {
            lights
        } else {
            seq![]
        },
        cfg.spec_floor_xml(),
        cfg.spec_plate_xml(),
        KawasakiRingCfg::spec_field_xml(name),
        cfg.spec_start_xml("start_red"@, cfg.red_platform_m, false, "0.72 0.12 0.12 1"@),
        cfg.spec_start_xml("start_blue"@, cfg.blue_platform_m, true, "0.12 0.20 0.72 1"@),
        cfg.spec_borders_xml(),
        cfg.spec_barrier_xml(),
    ];
    let k = choose|k: int| 1 <= k < 8 && holds(#[trigger] parts[k], x);
    assert(holds(parts[1], x) || holds(parts[2], x) || holds(parts[3], x) || holds(parts[4], x)
        || holds(parts[5], x) || holds(parts[6], x) || holds(parts[7], x));
    lemma_holds_eight(parts, k, x);
}

proof fn lemma_holds_itself(x: Seq<char>)
    ensures
        holds(x, x),
{
    lemma_holds(seq![], x, seq![]);
    assert(seq![] + x + seq![] =~= x);
}

/// The floor is as wide as it is asked for, and its surface lies where the
/// ring's floor level is.
pub proof fn law_world_has_the_floor(cfg: KawasakiRingCfg, name: Seq<char>, lights: Seq<char>, z: int)
    requires
        cfg.floor_size_m is Some,
        z + 250_000_000 == -(10 * cfg.spec_floor_top_z()),
    ensures
        holds(
            cfg.spec_worldbody_xml(name, lights),
            spec_box(
                "ring_floor"@,
                (0, 0, z),
                (5 * cfg.floor_size_m->0, 5 * cfg.floor_size_m->0, 250_000_000),
                "0.42 0.44 0.47 1"@,
            ),
        ),
{
    let floor = spec_box(
        "ring_floor"@,
        (0, 0, z),
        (5 * cfg.floor_size_m->0, 5 * cfg.floor_size_m->0, 250_000_000),
        "0.42 0.44 0.47 1"@,
    );
    let f = cfg.spec_floor_xml();
    let rest = f.skip(floor.len() as int);
    assert(f =~= seq![] + floor + rest);
    lemma_holds(seq![], floor, rest);
    lemma_world_parts(cfg, name, lights, floor);
}

/// Where the ring stands clear of the floor, a stand set back under it fills
/// what is between the floor and the plate's underside.
pub proof fn law_world_has_the_stand(
    cfg: KawasakiRingCfg,
    name: Seq<char>,
    lights: Seq<char>,
    z: int,
    half: int,
)
    requires
        cfg.floor_size_m is Some,
        z - half == -(10 * cfg.spec_floor_top_z()),
        z + half == -(10 * cfg.plate_thickness_m),
        2 * half > 10_000,
    ensures
        holds(
            cfg.spec_worldbody_xml(name, lights),
            spec_box(
                "ring_stand"@,
                (0, 0, z),
                (5 * cfg.ring_m - 600_000_000, 5 * cfg.ring_m - 600_000_000, half),
                "0.20 0.22 0.28 1"@,
            ),
        ),
{
    let stand = spec_box(
        "ring_stand"@,
        (0, 0, z),
        (5 * cfg.ring_m - 600_000_000, 5 * cfg.ring_m - 600_000_000, half),
        "0.20 0.22 0.28 1"@,
    );
    let f = cfg.spec_floor_xml();
    let head = f.take(f.len() - stand.len());
    assert(f =~= head + stand + seq![]);
    lemma_holds(head, stand, seq![]);
    lemma_world_parts(cfg, name, lights, stand);
}

/// The plate is as wide as the ring, from its surface down to its underside.
pub proof fn law_world_has_the_plate(
    cfg: KawasakiRingCfg,
    name: Seq<char>,
    lights: Seq<char>,
    z: int,
    half: int,
)
    requires
        cfg.plate_thickness_m > 0,
        z + half == 0,
        z - half == -(10 * cfg.plate_thickness_m),
    ensures
        holds(
            cfg.spec_worldbody_xml(name, lights),
            spec_box(
                "ring_plate"@,
                (0, 0, z),
                (5 * cfg.ring_m, 5 * cfg.ring_m, half),
                "0.36 0.37 0.40 1"@,
            ),
        ),
{
    lemma_holds_itself(cfg.spec_plate_xml());
    lemma_world_parts(cfg, name, lights, cfg.spec_plate_xml());
}

/// The red start platform lies against the ring on the near side, its corner
/// at the ring's corner, flush with the surface, with its own footprint; the
/// blue one lies opposite.
pub proof fn law_world_has_the_starts(
    cfg: KawasakiRingCfg,
    name: Seq<char>,
    lights: Seq<char>,
    red: (int, int, int),
    blue: (int, int, int),
)
    requires
        red.0 + 5 * cfg.red_platform_m.1 == -(5 * cfg.ring_m),
        red.1 - 5 * cfg.red_platform_m.0 == -(5 * cfg.ring_m),
        red.2 + 5 * cfg.platform_h_m == 0,
        blue.0 - 5 * cfg.blue_platform_m.1 == 5 * cfg.ring_m,
        blue.1 + 5 * cfg.blue_platform_m.0 == 5 * cfg.ring_m,
        blue.2 + 5 * cfg.platform_h_m == 0,
    ensures
        holds(
            cfg.spec_worldbody_xml(name, lights),
            spec_box(
                "start_red"@,
                red,
                (
                    5 * cfg.red_platform_m.1,
                    5 * cfg.red_platform_m.0,
                    5 * cfg.platform_h_m,
                ),
                "0.72 0.12 0.12 1"@,
            ),
        ),
        holds(
            cfg.spec_worldbody_xml(name, lights),
            spec_box(
                "start_blue"@,
                blue,
                (
                    5 * cfg.blue_platform_m.1,
                    5 * cfg.blue_platform_m.0,
                    5 * cfg.platform_h_m,
                ),
                "0.12 0.20 0.72 1"@,
            ),
        ),
{
    let r = cfg.spec_start_xml("start_red"@, cfg.red_platform_m, false, "0.72 0.12 0.12 1"@);
    let b = cfg.spec_start_xml("start_blue"@, cfg.blue_platform_m, true, "0.12 0.20 0.72 1"@);
    lemma_holds_itself(r);
    lemma_holds_itself(b);
    lemma_world_parts(cfg, name, lights, r);
    lemma_world_parts(cfg, name, lights, b);
}

/// A border runs the whole length of its start side, against the ring's edge.
/// Its middle lies half its own height above the plate's underside, and it is
/// as tall as itself and the plate together; red on the near side, blue on
/// the far one.
pub proof fn law_world_has_the_borders(
    cfg: KawasakiRingCfg,
    name: Seq<char>,
    lights: Seq<char>,
    x: int,
    z: int,
    half: int,
)
    requires
        cfg.border is Some,
        ({
            let (w, h) = cfg.border->0;
            &&& x - 5 * w == 5 * cfg.ring_m
            &&& 2 * half == 10 * (h + cfg.plate_thickness_m)
            &&& z + 10 * cfg.plate_thickness_m == 5 * h
        }),
    ensures
        ({
            let (w, h) = cfg.border->0;
            let world = cfg.spec_worldbody_xml(name, lights);
            &&& holds(
                world,
                spec_box(
                    "border_red"@,
                    (-x, 0, z),
                    (5 * w, 5 * cfg.ring_m, half),
                    "0.72 0.12 0.12 1"@,
                ),
            )
            &&& holds(
                world,
                spec_box(
                    "border_blue"@,
                    (x, 0, z),
                    (5 * w, 5 * cfg.ring_m, half),
                    "0.12 0.20 0.72 1"@,
                ),
            )
        }),
{
    let (w, h) = cfg.border->0;
    let size = (5 * w, 5 * cfg.ring_m, half);
    let red = spec_box("border_red"@, (-x, 0, z), size, "0.72 0.12 0.12 1"@);
    let blue = spec_box("border_blue"@, (x, 0, z), size, "0.12 0.20 0.72 1"@);
    let b = cfg.spec_borders_xml();
    assert(b =~= seq![] + red + blue);
    assert(b =~= red + blue + seq![]);
    lemma_holds(seq![], red, blue);
    lemma_holds(red, blue, seq![]);
    lemma_world_parts(cfg, name, lights, red);
    lemma_world_parts(cfg, name, lights, blue);
}

/// The barrier stands on the floor all round: four panels of its height and
/// thickness, each its distance out from the ring's edge, and as long as
/// reaches the corners.
pub proof fn law_world_has_the_barrier(
    cfg: KawasakiRingCfg,
    name: Seq<char>,
    lights: Seq<char>,
    r: int,
    z: int,
)
    requires
        cfg.barrier is Some,
        ({
            let (h, out, thick) = cfg.barrier->0;
            &&& r - 10 * out == 5 * cfg.ring_m
            &&& z - 5 * h == -(10 * cfg.spec_floor_top_z())
        }),
    ensures
        ({
            let (h, out, thick) = cfg.barrier->0;
            let world = cfg.spec_worldbody_xml(name, lights);
            let pane = "0.55 0.70 0.80 0.25"@;
            let (a, b) = (
                (5 * thick, r + 10 * thick, 5 * h),
                (r + 10 * thick, 5 * thick, 5 * h),
            );
            &&& holds(world, spec_box("barrier_xp"@, (r, 0, z), a, pane))
            &&& holds(world, spec_box("barrier_xn"@, (-r, 0, z), a, pane))
            &&& holds(world, spec_box("barrier_yp"@, (0, r, z), b, pane))
            &&& holds(world, spec_box("barrier_yn"@, (0, -r, z), b, pane))
        }),
{
    let (h, out, thick) = cfg.barrier->0;
    let pane = "0.55 0.70 0.80 0.25"@;
    let (a, b) = ((5 * thick, r + 10 * thick, 5 * h), (r + 10 * thick, 5 * thick, 5 * h));
    let xp = spec_box("barrier_xp"@, (r, 0, z), a, pane);
    let xn = spec_box("barrier_xn"@, (-r, 0, z), a, pane);
    let yp = spec_box("barrier_yp"@, (0, r, z), b, pane);
    let yn = spec_box("barrier_yn"@, (0, -r, z), b, pane);
    let t = cfg.spec_barrier_xml();
    assert(t == xp + xn + yp + yn);
    lemma_holds_four(xp, xn, yp, yn);
    lemma_world_parts(cfg, name, lights, xp);
    lemma_world_parts(cfg, name, lights, xn);
    lemma_world_parts(cfg, name, lights, yp);
    lemma_world_parts(cfg, name, lights, yn);
}

/// What is not asked for is not there: without a floor, a plate, borders and
/// a barrier the world is the surface and the two starts, and lights come
/// first where they are wanted and not at all where they are not.
pub proof fn law_world_has_nothing_else(cfg: KawasakiRingCfg, name: Seq<char>, lights: Seq<char>)
    requires
        cfg.floor_size_m is None,
        cfg.plate_thickness_m <= 0,
        cfg.border is None,
        cfg.barrier is None,
    ensures
        ({
            let w = KawasakiRingCfg::spec_field_xml(name) + cfg.spec_start_xml(
                "start_red"@,
                cfg.red_platform_m,
                false,
                "0.72 0.12 0.12 1"@,
            ) + cfg.spec_start_xml("start_blue"@, cfg.blue_platform_m, true, "0.12 0.20 0.72 1"@);
            &&& cfg.lighting ==> cfg.spec_worldbody_xml(name, lights) == lights + w
            &&& !cfg.lighting ==> cfg.spec_worldbody_xml(name, lights) == w
        }),
{
    let r = cfg.spec_start_xml("start_red"@, cfg.red_platform_m, false, "0.72 0.12 0.12 1"@);
    let u = cfg.spec_start_xml("start_blue"@, cfg.blue_platform_m, true, "0.12 0.20 0.72 1"@);
    let w = KawasakiRingCfg::spec_field_xml(name) + r + u;
    if cfg.lighting {
        assert(cfg.spec_worldbody_xml(name, lights) =~= lights + w);
    } else {
        assert(cfg.spec_worldbody_xml(name, lights) =~= w);
    }
}

/// A box says its name, where it is, how large it is and its colour.
pub proof fn law_box(
    name: Seq<char>,
    pos: (int, int, int),
    size: (int, int, int),
    rgba: Seq<char>,
)
    ensures
        ({
            let b = spec_box(name, pos, size, rgba);
            &&& holds(b, "<geom name=\""@ + name + "\" type=\"box\""@)
            &&& holds(
                b,
                " pos=\""@ + spec_plain(pos.0) + " "@ + spec_plain(pos.1) + " "@ + spec_plain(
                    pos.2,
                ) + "\""@,
            )
            &&& holds(
                b,
                " size=\""@ + spec_plain(size.0) + " "@ + spec_plain(size.1) + " "@ + spec_plain(
                    size.2,
                ) + "\""@,
            )
            &&& holds(b, " rgba=\""@ + rgba + "\""@)
        }),
{
    let p = spec_triple(pos);
    let z = spec_triple(size);
    let (indent, q, end) = (seq![' ', ' ', ' ', ' '], "\""@, "/>\n"@);
    lemma_box_text();
    lemma_regroup(
        seq![indent, "<geom name=\""@, "\" type=\"box\""@, " pos=\""@, " size=\""@, " rgba=\""@, q, end],
        name,
        p,
        z,
        rgba,
    );
    lemma_box_parts(
        indent,
        "<geom name=\""@ + name + "\" type=\"box\""@,
        " pos=\""@ + p + q,
        " size=\""@ + z + q,
        " rgba=\""@ + rgba + q,
        end,
    );
    lemma_triple(" pos=\""@, pos, q);
    lemma_triple(" size=\""@, size, q);
}

proof fn lemma_triple(a: Seq<char>, v: (int, int, int), b: Seq<char>)
    ensures
        a + spec_triple(v) + b == a + spec_plain(v.0) + " "@ + spec_plain(v.1) + " "@ + spec_plain(
            v.2,
        ) + b,
{
    assert(a + spec_triple(v) + b =~= a + spec_plain(v.0) + " "@ + spec_plain(v.1) + " "@
        + spec_plain(v.2) + b);
}

proof fn lemma_box_text()
    ensures
        "    <geom name=\""@ == seq![' ', ' ', ' ', ' '] + "<geom name=\""@,
        "\" type=\"box\" pos=\""@ == "\" type=\"box\""@ + " pos=\""@,
        "\" size=\""@ == "\""@ + " size=\""@,
        "\" rgba=\""@ == "\""@ + " rgba=\""@,
        "\"/>\n"@ == "\""@ + "/>\n"@,
{
    reveal_strlit("    <geom name=\"");
    reveal_strlit("<geom name=\"");
    reveal_strlit("\" type=\"box\" pos=\"");
    reveal_strlit("\" type=\"box\"");
    reveal_strlit(" pos=\"");
    reveal_strlit("\" size=\"");
    reveal_strlit(" size=\"");
    reveal_strlit("\" rgba=\"");
    reveal_strlit(" rgba=\"");
    reveal_strlit("\"/>\n");
    reveal_strlit("/>\n");
    reveal_strlit("\"");
    assert("    <geom name=\""@ =~= seq![' ', ' ', ' ', ' '] + "<geom name=\""@);
    assert("\" type=\"box\" pos=\""@ =~= "\" type=\"box\""@ + " pos=\""@);
    assert("\" size=\""@ =~= "\""@ + " size=\""@);
    assert("\" rgba=\""@ =~= "\""@ + " rgba=\""@);
    assert("\"/>\n"@ =~= "\""@ + "/>\n"@);
}

/// The same text, cut at its attributes.
proof fn lemma_regroup(
    t: Seq<Seq<char>>,
    name: Seq<char>,
    p: Seq<char>,
    z: Seq<char>,
    rgba: Seq<char>,
)
    requires
        t.len() == 8,
    ensures
        (t[0] + t[1]) + name + (t[2] + t[3]) + p + (t[6] + t[4]) + z + (t[6] + t[5]) + rgba + (t[6]
            + t[7]) == t[0] + (t[1] + name + t[2]) + (t[3] + p + t[6]) + (t[4] + z + t[6]) + (t[5]
            + rgba + t[6]) + t[7],
{
    let a = (t[0] + t[1]) + name + (t[2] + t[3]) + p;
    let b = t[0] + (t[1] + name + t[2]) + (t[3] + p);
    assert(a =~= b);
    let c = a + (t[6] + t[4]) + z;
    let d = t[0] + (t[1] + name + t[2]) + (t[3] + p + t[6]) + (t[4] + z);
    assert(c =~= b + t[6] + (t[4] + z));
    assert(b + t[6] =~= t[0] + (t[1] + name + t[2]) + (t[3] + p + t[6]));
    assert(c =~= d);
    let e = c + (t[6] + t[5]) + rgba;
    assert(e =~= d + t[6] + (t[5] + rgba));
    assert(d + t[6] =~= t[0] + (t[1] + name + t[2]) + (t[3] + p + t[6]) + (t[4] + z + t[6]));
    let f = t[0] + (t[1] + name + t[2]) + (t[3] + p + t[6]) + (t[4] + z + t[6]);
    assert(e + (t[6] + t[7]) =~= f + (t[5] + rgba + t[6]) + t[7]);
}

proof fn lemma_box_parts(
    a: Seq<char>,
    b: Seq<char>,
    c: Seq<char>,
    d: Seq<char>,
    e: Seq<char>,
    f: Seq<char>,
)
    ensures
        holds(a + b + c + d + e + f, b),
        holds(a + b + c + d + e + f, c),
        holds(a + b + c + d + e + f, d),
        holds(a + b + c + d + e + f, e),
{
    lemma_holds_four(b, c, d, e);
    let m = b + c + d + e;
    lemma_holds_join(a, m, b);
    lemma_holds_join(a, m, c);
    lemma_holds_join(a, m, d);
    lemma_holds_join(a, m, e);
    lemma_holds_join(a + m, f, b);
    lemma_holds_join(a + m, f, c);
    lemma_holds_join(a + m, f, d);
    lemma_holds_join(a + m, f, e);
    assert(a + m + f =~= a + b + c + d + e + f);
}

/// The height grid is declared with as many rows as columns, as wide as the
/// ring, as high as the scale and as deep as the plate.
pub proof fn law_asset(cfg: KawasakiRingCfg, name: Seq<char>)
    ensures
        ({
            let a = cfg.spec_asset_xml(name);
            let n = spec_digits(cfg.spec_cells() as nat);
            &&& holds(a, "    <hfield name=\""@ + name + "\" nrow=\""@ + n + "\" ncol=\""@ + n)
            &&& holds(
                a,
                "\" size=\""@ + spec_plain(5 * cfg.ring_m) + " "@ + spec_plain(5 * cfg.ring_m)
                    + " "@ + spec_plain(10 * cfg.spec_z_top_m()) + " "@ + spec_plain(
                    10 * cfg.plate_thickness_m,
                ) + "\"/>\n"@,
            )
        }),
{
    let n = spec_digits(cfg.spec_cells() as nat);
    let x = "    <hfield name=\""@ + name + "\" nrow=\""@ + n + "\" ncol=\""@ + n;
    let y = "\" size=\""@ + spec_plain(5 * cfg.ring_m) + " "@ + spec_plain(5 * cfg.ring_m) + " "@
        + spec_plain(10 * cfg.spec_z_top_m()) + " "@ + spec_plain(10 * cfg.plate_thickness_m)
        + "\"/>\n"@;
    assert(cfg.spec_asset_xml(name) =~= x + y);
    lemma_holds_itself(x);
    lemma_holds_itself(y);
    lemma_holds_join(x, y, x);
    lemma_holds_join(x, y, y);
}

} // verus!

use namiashi_sim::opponent::{
    axis_of, joint_axis_for, locked_robot_worldbody_xml, unrecognised, welds, LockedPose, Unrecognised,
};
use namiashi_sim::text::{chars_of, lines, trim_start, words};

const XML: &str = "<mujoco>\n  <worldbody>\n    <light/>\n    \
<body name=\"trunk\" pos=\"0 0 1\">\n      <freejoint name=\"root\"/>\r\n      \
<site name=\"imu\" size=\"0.01\"/>\n      \
<geom type=\"mesh\" group=\"1\" rgba=\"0.1 0.2 0.3 1\"/>\n      \
<geom type=\"box\" group=\"3\" rgba=\"0.1 0.2 0.3 0.5\"/>\n      \
<body name=\"FL_hip\" pos=\"1 2 3\">\n        \
<joint name=\"FL_hip_joint\" type=\"hinge\" axis=\"1 0 0\"/>\n        \
<body name=\"FL_thigh\">\n          \
<joint name=\"FL_thigh_joint\" axis=\" 0  1\t0 \"/>\n        </body>\n      </body>\n      \
<body name=\"arm\">\n        <geom name=\"arm\"/>\n      </body>\n    </body>\n  \
</worldbody>\n</mujoco>\n";

fn axis(v: &Option<Vec<Vec<char>>>) -> Option<Vec<String>> {
    v.as_ref().map(|w| w.iter().map(|c| c.iter().collect()).collect())
}

#[test]
fn bodies_to_weld() {
    let w = welds(XML, &LockedPose::default());
    let names: Vec<&str> = w.iter().map(|b| b.name.as_str()).collect();
    assert_eq!(names, ["trunk", "FL_hip", "FL_thigh", "arm"]);
    assert_eq!(w[0].angle, 0);
    assert_eq!(w[1].angle, 0);
    assert_eq!(w[2].angle, 1_600_000_000);
    assert_eq!(w[3].angle, 850_000_000);
    assert_eq!(axis(&w[0].axis), None);
    assert_eq!(axis(&w[1].axis).unwrap(), ["1", "0", "0"]);
    assert_eq!(axis(&w[2].axis).unwrap(), ["0", "1", "0"]);
    assert_eq!(axis(&w[3].axis), None);
}

#[test]
fn welded_copy() {
    let q = Some([696_706_709, 0, 717_356_091, 0]);
    let out = locked_robot_worldbody_xml(XML, "foe_", &LockedPose::default(), &vec![None, q, q, q]);
    let want = [
        "<body name=\"foe_trunk\" pos=\"0 0 1\">",
        "      <freejoint name=\"root\"/>",
        "      <site name=\"foe_imu\" size=\"0.01\"/>",
        "      <geom type=\"mesh\" group=\"1\" rgba=\"0.85 0.25 0.22 1\"/>",
        "      <geom type=\"box\" group=\"3\" rgba=\"0.1 0.2 0.3 0.5\"/>",
        "      <body name=\"foe_FL_hip\" pos=\"1 2 3\">",
        "        <body name=\"foe_FL_thigh\" quat=\"0.696706709 0.000000000 0.717356091 0.000000000\">",
        "        </body>",
        "      </body>",
        "      <body name=\"foe_arm\" quat=\"0.696706709 0.000000000 0.717356091 0.000000000\">",
        "        <geom name=\"arm\"/>",
        "      </body>",
        "    </body>",
        "  ",
    ];
    assert_eq!(out.lines().collect::<Vec<_>>(), want);
    assert!(out.ends_with("  \n"));
    assert!(!out.contains("<joint "));
    // Without orientations everything else stays the same.
    let bare = locked_robot_worldbody_xml(XML, "foe_", &LockedPose::default(), &vec![]);
    assert!(!bare.contains("quat") && bare.lines().count() == want.len());
}

#[test]
fn unrecognised_descriptions_are_empty() {
    let pose = LockedPose::default();
    for xml in ["", "<worldbody></worldbody>", "<body name=\"a\">", "</worldbody><body name=\"a\">"] {
        assert_eq!(locked_robot_worldbody_xml(xml, "p", &pose, &vec![]), "");
        assert!(welds(xml, &pose).is_empty());
    }
}

#[test]
fn reasons_for_not_recognising() {
    assert_eq!(unrecognised(XML), None);
    assert_eq!(unrecognised(""), Some(Unrecognised::NoBody));
    assert_eq!(unrecognised("<worldbody></worldbody>"), Some(Unrecognised::NoBody));
    assert_eq!(unrecognised("<body name=\"a\">"), Some(Unrecognised::NoEnd));
    assert_eq!(unrecognised("</worldbody><body name=\"a\">"), Some(Unrecognised::EndsEarly));
}

#[test]
fn axes_of_bodies() {
    let tree = chars_of(
        "<body name=\"a\"><body name=\"b\"><joint name=\"j\" axis=\"0 1 0\"/>\
         <body name=\"c\"><joint axis=\"1 0\"/></body></body></body>",
    );
    let of = |body: &str| {
        let words = joint_axis_for(&tree, &chars_of(body))?;
        let read: Vec<Option<i64>> =
            words.iter().map(|w| w.iter().collect::<String>().parse().ok()).collect();
        axis_of(&read)
    };
    assert_eq!(of("b"), Some([0, 1, 0]));
    // A nested body's hinge is not the outer one's own.
    assert_eq!(of("a"), None);
    assert_eq!(of("c"), None);
    assert!(joint_axis_for(&tree, &chars_of("c")).is_none());
    assert_eq!(of("d"), None);
}

#[test]
fn axis_is_three_readable_numbers() {
    let (x, y, z) = (Some(1_i64), Some(2), Some(3));
    assert_eq!(axis_of(&vec![x, y, z]), Some([1, 2, 3]));
    assert_eq!(axis_of(&vec![x, None, y, z, None]), Some([1, 2, 3]));
    assert_eq!(axis_of(&vec![x, None, y]), None);
    assert_eq!(axis_of(&vec![x, y, z, x]), None);
    assert_eq!(axis_of::<i64>(&vec![]), None);
    assert_eq!(axis_of(&vec![Some(0.5), Some(0.0), Some(-1.5)]), Some([0.5, 0.0, -1.5]));
}

#[test]
fn hips_mirror() {
    let pose = LockedPose { leg: [300, 1, 2], arm: 4 };
    let of = |name: &str| pose.angle_for(&chars_of(name));
    assert_eq!(of("FL_hip"), 300);
    assert_eq!(of("RL_hip"), 300);
    assert_eq!(of("FR_hip"), -300);
    assert_eq!(of("RR_hip"), -300);
    assert_eq!(of("RR_thigh"), 1);
    assert_eq!(of("FR_calf"), 2);
    assert_eq!(of("arm"), 4);
    assert_eq!(of("arms"), 0);
    assert_eq!(of("trunk"), 0);
}

#[test]
fn text_pieces_agree_with_std() {
    for s in ["", "a", "a\n", "a\r\nb", "\n\n", "a\r", "\r\n", " x \u{3000}y\u{85}z\u{a0} ", "\u{200b}q"] {
        let c = chars_of(s);
        let mine: Vec<String> = lines(&c).iter().map(|l| l.iter().collect()).collect();
        assert_eq!(mine, s.lines().collect::<Vec<_>>(), "{s:?}");
        let t: String = trim_start(&c).iter().collect();
        assert_eq!(t, s.trim_start());
        let w: Vec<String> = words(&c).iter().map(|l| l.iter().collect()).collect();
        assert_eq!(w, s.split_whitespace().collect::<Vec<_>>());
    }
    let space: Vec<u32> = (0..0x11_0000)
        .filter(|&n| char::from_u32(n).is_some_and(|c| namiashi_sim::text::is_space(c) != c.is_whitespace()))
        .collect();
    assert!(space.is_empty());
}

#[test]
fn searching_agrees_with_std() {
    let texts = ["", "a", "aa", "abcabc", "aaaa", "xabx", "ababab"];
    let pats = ["a", "ab", "aa", "abc", "bab", "zzz"];
    for s in texts {
        for p in pats {
            let (cs, cp) = (chars_of(s), chars_of(p));
            assert_eq!(namiashi_sim::text::find(&cs, &cp), s.find(p));
            assert_eq!(namiashi_sim::text::rfind(&cs, &cp), s.rfind(p));
            assert_eq!(namiashi_sim::text::starts_with(&cs, p), s.starts_with(p));
            assert_eq!(namiashi_sim::text::ends_with(&cs, p), s.ends_with(p));
            assert_eq!(namiashi_sim::text::contains(&cs, p), s.contains(p));
            assert_eq!(namiashi_sim::text::same(&cs, p), s == p);
            let r: String =
                namiashi_sim::text::replace(&cs, &cp, &chars_of("-Q-")).iter().collect();
            assert_eq!(r, s.replace(p, "-Q-"));
        }
    }
}

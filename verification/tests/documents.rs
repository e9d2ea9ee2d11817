use bvh::{
    parse, parse_bytes, serialize, Bvh, Channel, EndSite, Hierarchy, Joint, JointChildren, Motion,
    Number, Offset, ParseError,
};

const MINIMAL: &str = "HIERARCHY
ROOT Hips
{
OFFSET 0 0 0
CHANNELS 3 Xposition Yposition Zposition
End Site
{
OFFSET 0 0 1
}
}
MOTION
Frames: 1
Frame Time: 0.0333333
0 0 0
";

const SKELETON: &str = "HIERARCHY
ROOT Hips
{
  OFFSET 0.0 0.0 0.0
  CHANNELS 6 Xposition Yposition Zposition Zrotation Xrotation Yrotation
  JOINT Spine
  {
    OFFSET 0.0 5.21 0.0
    CHANNELS 3 Zrotation Xrotation Yrotation
    JOINT Neck
    {
      OFFSET 0.0 18.65 0.0
      CHANNELS 3 Zrotation Xrotation Yrotation
      JOINT Head
      {
        OFFSET 0.0 5.45 0.0
        CHANNELS 0
        End Site
        {
          OFFSET 0.0 3.87 0.0
        }
      }
    }
    JOINT LeftArm
    {
      OFFSET 3.5 15 -1e-2
      CHANNELS 1 Zrotation
      End Site
      {
        OFFSET 5 0 0
      }
    }
  }
  JOINT LeftLeg
  {
    OFFSET 3.91 0.0 0.0
    CHANNELS 2 Xrotation Yrotation
    End Site
    {
      OFFSET 0.0 -10 0.0
    }
  }
  JOINT RightLeg
  {
    OFFSET -3.91 0.0 0.0
    CHANNELS 2 Xrotation Yrotation
    End Site
    {
      OFFSET 0.0 -10 0.0
    }
  }
}
MOTION
Frames: 2
Frame Time: 0.0333333
1 2 3 4 5 6 7 8 9 10 11 12 13 14 15 16 17
-1 -2 -3 -4 -5 -6 -7 -8 -9 -10 -11 -12 -13 -14 -15 -16 -17
";

fn number(text: &str) -> Number {
    Number::new(text.as_bytes().to_vec()).expect("a decimal number")
}

fn offset(x: &str, y: &str, z: &str) -> Offset {
    Offset { x: number(x), y: number(y), z: number(z) }
}

fn leaf(name: &str, channels: Vec<Channel>, at: Offset, site: Offset) -> Joint {
    Joint {
        name: name.as_bytes().to_vec(),
        offset: at,
        channels,
        children: JointChildren::EndSite(EndSite { offset: site }),
    }
}

fn minimal_value() -> Bvh {
    Bvh {
        hierarchy: Hierarchy {
            root: leaf(
                "Hips",
                vec![Channel::XPosition, Channel::YPosition, Channel::ZPosition],
                offset("0", "0", "0"),
                offset("0", "0", "1"),
            ),
        },
        motion: Motion {
            num_frames: 1,
            frame_time: number("0.0333333"),
            frame_data: vec![number("0"), number("0"), number("0")],
        },
    }
}

fn names(joints: &[Joint]) -> Vec<String> {
    joints.iter().map(|j| String::from_utf8(j.name.clone()).unwrap()).collect()
}

fn children(joint: &Joint) -> &[Joint] {
    match &joint.children {
        JointChildren::Joints(joints) => joints,
        JointChildren::EndSite(_) => panic!("{:?} has no joints below it", joint.name),
    }
}

fn as_f64(n: &Number) -> f64 {
    std::str::from_utf8(&n.text).unwrap().parse::<f64>().unwrap()
}

#[test]
fn minimal_document_parses() {
    let bvh = parse(MINIMAL).unwrap();
    let root = &bvh.hierarchy.root;
    assert_eq!(root.name, b"Hips".to_vec());
    assert_eq!(root.channels, vec![Channel::XPosition, Channel::YPosition, Channel::ZPosition]);
    assert_eq!(root.children, JointChildren::EndSite(EndSite { offset: offset("0", "0", "1") }));
    assert_eq!(bvh.motion.num_frames, 1);
    assert_eq!(bvh.motion.frame_data, vec![number("0"), number("0"), number("0")]);
    assert_eq!(as_f64(&bvh.motion.frame_time), 0.0333333);
    assert_eq!(bvh, minimal_value());
}

#[test]
fn minimal_document_serializes_to_canonical_text() {
    assert_eq!(String::from_utf8(serialize(&minimal_value())).unwrap(), MINIMAL);
}

#[test]
fn missing_motion_is_a_syntax_error() {
    let text = "HIERARCHY ROOT Hips { OFFSET 0 0 0 CHANNELS 1 Xrotation End Site { OFFSET 0 0 1 } }";
    assert_eq!(parse(text), Err(ParseError::Syntax { position: 20 }));
}

#[test]
fn too_many_channel_names_is_a_syntax_error() {
    let text = MINIMAL.replace("CHANNELS 3", "CHANNELS 2");
    assert_eq!(parse(&text), Err(ParseError::Syntax { position: 12 }));
}

#[test]
fn too_few_channel_names_is_a_syntax_error() {
    let text = MINIMAL.replace("CHANNELS 3", "CHANNELS 4");
    assert_eq!(parse(&text), Err(ParseError::Syntax { position: 13 }));
}

#[test]
fn misordered_sections_are_a_syntax_error() {
    assert_eq!(parse("MOTION Frames: 0 Frame Time: 1"), Err(ParseError::Syntax { position: 0 }));
    assert_eq!(parse(""), Err(ParseError::Syntax { position: 0 }));
}

#[test]
fn joint_with_neither_joints_nor_end_site_is_rejected() {
    let text = "HIERARCHY ROOT Hips { OFFSET 0 0 0 CHANNELS 0 } MOTION Frames: 0 Frame Time: 1";
    assert_eq!(parse(text), Err(ParseError::Syntax { position: 10 }));
}

#[test]
fn bad_number_is_a_syntax_error() {
    let text = MINIMAL.replace("OFFSET 0 0 1", "OFFSET 0 1.2.3 1");
    assert_eq!(parse(&text), Err(ParseError::Syntax { position: 18 }));
    let text = MINIMAL.replace("\n0 0 0\n", "\n0 zero 0\n");
    assert_eq!(parse(&text), Err(ParseError::Syntax { position: 29 }));
}

#[test]
fn count_too_large_is_an_internal_error() {
    let text = MINIMAL.replace("Frames: 1", "Frames: 4294967296");
    assert_eq!(parse(&text), Err(ParseError::Internal { position: 24 }));
    let text = MINIMAL.replace("Frames: 1", "Frames: 4294967295");
    assert_eq!(parse(&text).unwrap().motion.num_frames, 4294967295);
}

#[test]
fn multi_level_hierarchy_keeps_document_order() {
    let bvh = parse(SKELETON).unwrap();
    let root = &bvh.hierarchy.root;
    assert_eq!(root.name, b"Hips".to_vec());
    assert_eq!(names(children(root)), vec!["Spine", "LeftLeg", "RightLeg"]);
    let spine = &children(root)[0];
    assert_eq!(names(children(spine)), vec!["Neck", "LeftArm"]);
    let neck = &children(spine)[0];
    assert_eq!(names(children(neck)), vec!["Head"]);
    let head = &children(neck)[0];
    assert_eq!(head.channels, vec![]);
    assert_eq!(head.children, JointChildren::EndSite(EndSite { offset: offset("0.0", "3.87", "0.0") }));
    let arm = &children(spine)[1];
    assert_eq!(arm.offset, offset("3.5", "15", "-1e-2"));
    assert_eq!(as_f64(&arm.offset.z), -0.01);
    assert_eq!(
        root.channels,
        vec![
            Channel::XPosition,
            Channel::YPosition,
            Channel::ZPosition,
            Channel::ZRotation,
            Channel::XRotation,
            Channel::YRotation
        ]
    );
}

#[test]
fn total_channels_sums_the_channels_of_every_joint() {
    let bvh = parse(SKELETON).unwrap();
    let root = &bvh.hierarchy.root;
    assert_eq!(root.total_channels(), 6 + 3 + 3 + 0 + 1 + 2 + 2);
    assert_eq!(root.checked_total_channels(), Some(17));
    assert_eq!(children(root)[0].total_channels(), 7);
    assert_eq!(minimal_value().hierarchy.root.total_channels(), 3);
}

#[test]
fn frame_data_fills_whole_frames() {
    let bvh = parse(SKELETON).unwrap();
    let width = bvh.hierarchy.root.total_channels() as usize;
    assert_eq!(bvh.motion.frame_data.len(), bvh.motion.num_frames as usize * width);
    let value = minimal_value();
    assert_eq!(
        value.motion.frame_data.len(),
        value.motion.num_frames as usize * value.hierarchy.root.total_channels() as usize
    );
}

#[test]
fn parse_does_not_check_the_frame_length() {
    let text = MINIMAL.replace("\n0 0 0\n", "\n0 0 0 7\n");
    let bvh = parse(&text).unwrap();
    assert_eq!(bvh.motion.num_frames, 1);
    assert_eq!(bvh.motion.frame_data.len(), 4);
}

#[test]
fn round_trip_gives_the_value_back() {
    let value = parse(SKELETON).unwrap();
    let text = serialize(&value);
    assert_eq!(parse_bytes(&text), Ok(value));
    let value = minimal_value();
    assert_eq!(parse_bytes(&serialize(&value)), Ok(value));
}

#[test]
fn serialized_rows_are_as_wide_as_the_skeleton() {
    let text = String::from_utf8(serialize(&parse(SKELETON).unwrap())).unwrap();
    let tail: Vec<&str> = text.lines().rev().take(2).collect();
    assert_eq!(tail[1], "1 2 3 4 5 6 7 8 9 10 11 12 13 14 15 16 17");
    assert_eq!(tail[0], "-1 -2 -3 -4 -5 -6 -7 -8 -9 -10 -11 -12 -13 -14 -15 -16 -17");
    assert!(text.starts_with("HIERARCHY\nROOT Hips\n{\nOFFSET 0.0 0.0 0.0\nCHANNELS 6 Xposition"));
    assert!(text.contains("}\nJOINT LeftArm\n{\nOFFSET 3.5 15 -1e-2\nCHANNELS 1 Zrotation\nEnd Site\n{\n"));
    assert!(text.contains("CHANNELS 0\nEnd Site\n"));
    assert!(text.contains("}\nMOTION\nFrames: 2\nFrame Time: 0.0333333\n1 2"));
}

#[test]
fn incomplete_last_row_ends_with_a_space() {
    let mut value = minimal_value();
    value.motion.frame_data.push(number("9"));
    let text = String::from_utf8(serialize(&value)).unwrap();
    assert!(text.ends_with("Frame Time: 0.0333333\n0 0 0\n9 "));
}

#[test]
fn number_accepts_decimal_literals_only() {
    for good in ["0", "-1", "+2.5", "3.", ".5", "1e5", "1.5E-3", "-0.0333333"] {
        assert!(Number::new(good.as_bytes().to_vec()).is_some(), "{}", good);
    }
    for bad in ["", "-", ".", "1e", "1e+", "e5", "1.2.3", "0x10", "inf", "NaN", "1 2", "--1"] {
        assert!(Number::new(bad.as_bytes().to_vec()).is_none(), "{}", bad);
    }
}

#[test]
fn parsed_documents_are_well_formed() {
    assert!(parse(MINIMAL).unwrap().is_well_formed());
    assert!(parse(SKELETON).unwrap().is_well_formed());
    assert!(minimal_value().is_well_formed());
}

#[test]
fn hand_built_documents_are_checked() {
    let mut value = minimal_value();
    value.hierarchy.root.name = b"Left Hip".to_vec();
    assert!(!value.is_well_formed());
    assert!(!value.hierarchy.root.is_well_formed());
    assert_ne!(parse_bytes(&serialize(&value)), Ok(value));

    let mut value = minimal_value();
    value.hierarchy.root.children = JointChildren::Joints(vec![]);
    assert!(!value.is_well_formed());

    let mut value = minimal_value();
    value.motion.frame_data.push(Number { text: b"NaN".to_vec() });
    assert!(!value.is_well_formed());
    assert!(!value.motion.is_well_formed());

    let mut value = minimal_value();
    value.hierarchy.root.offset.y = Number { text: b"".to_vec() };
    assert!(!value.is_well_formed());
    assert!(!value.hierarchy.root.offset.is_well_formed());

    let mut value = minimal_value();
    let mut site = offset("0", "0", "0");
    site.z = Number { text: b"x".to_vec() };
    let inner = leaf("Toe", vec![], offset("1", "2", "3"), site);
    value.hierarchy.root.children = JointChildren::Joints(vec![inner]);
    assert!(!value.is_well_formed());
}

#[test]
fn whole_frames_are_told_from_broken_ones() {
    assert!(parse(MINIMAL).unwrap().has_whole_frames());
    assert!(parse(SKELETON).unwrap().has_whole_frames());
    let mut value = minimal_value();
    value.motion.frame_data.push(number("9"));
    assert!(!value.has_whole_frames());
    value.motion.frame_data.push(number("9"));
    value.motion.frame_data.push(number("9"));
    assert!(!value.has_whole_frames());
    value.motion.num_frames = 2;
    assert!(value.has_whole_frames());
    value.motion.num_frames = 0;
    assert!(!value.has_whole_frames());
    value.motion.frame_data.clear();
    assert!(value.has_whole_frames());
}

#[test]
fn errors_tell_place_and_kind() {
    let syntax = ParseError::Syntax { position: 4 };
    let internal = ParseError::Internal { position: 9 };
    assert_eq!(syntax.position(), 4);
    assert_eq!(internal.position(), 9);
    assert_eq!(syntax.message(), "a word does not fit the BVH grammar");
    assert_eq!(internal.message(), "a count does not fit in 32 bits");
    let text = MINIMAL.replace("CHANNELS 3", "CHANNELS 99999999999");
    assert_eq!(parse(&text), Err(ParseError::Internal { position: 9 }));
}

#[test]
fn joint_without_channels_line_is_a_syntax_error() {
    let text = MINIMAL.replace("CHANNELS 3 Xposition Yposition Zposition\n", "");
    assert_eq!(parse(&text), Err(ParseError::Syntax { position: 8 }));
}

#[test]
fn words_after_the_closing_brace_must_start_the_motion() {
    let text = MINIMAL.replace("}\nMOTION", "}\n}\nMOTION");
    assert_eq!(parse(&text), Err(ParseError::Syntax { position: 22 }));
}

#[test]
fn canonical_text_parses_to_the_same_document() {
    let first = parse(SKELETON).unwrap();
    let text = serialize(&first);
    let second = parse_bytes(&text).unwrap();
    assert_eq!(first, second);
    assert_eq!(serialize(&second), text);
}

#[test]
fn skeleton_without_channels_puts_a_space_after_every_value() {
    let mut value = minimal_value();
    value.hierarchy.root.channels.clear();
    assert_eq!(value.hierarchy.root.total_channels(), 0);
    let text = String::from_utf8(serialize(&value)).unwrap();
    assert!(text.contains("CHANNELS 0\nEnd Site\n"));
    assert!(text.ends_with("Frame Time: 0.0333333\n0 0 0 "));
    assert_eq!(parse(&text), Ok(value));
}

use bvh::literal::{
    check_count, check_name, check_number, push_all, push_decimal, read_u32, same_bytes,
    scan_digits,
};
use bvh::text::{split_words, word_at};
use bvh::vocabulary::read_channel;
use bvh::{Channel, Keyword, Span};

#[test]
fn split_words_finds_each_word_and_its_place() {
    let text = b"  ROOT\tHips\r\n{ }\n";
    let spans = split_words(text);
    assert_eq!(
        spans,
        vec![
            Span { start: 2, end: 6 },
            Span { start: 7, end: 11 },
            Span { start: 13, end: 14 },
            Span { start: 15, end: 16 }
        ]
    );
    assert_eq!(word_at(text, &spans, 1), b"Hips");
}

#[test]
fn split_words_of_blank_text_is_empty() {
    assert_eq!(split_words(b""), vec![]);
    assert_eq!(split_words(b" \n\t\r "), vec![]);
    assert_eq!(split_words(b"x"), vec![Span { start: 0, end: 1 }]);
}

#[test]
fn keywords_are_written_as_in_a_document() {
    assert_eq!(Keyword::Hierarchy.bytes(), b"HIERARCHY".to_vec());
    assert_eq!(Keyword::Root.bytes(), b"ROOT".to_vec());
    assert_eq!(Keyword::Joint.bytes(), b"JOINT".to_vec());
    assert_eq!(Keyword::Offset.bytes(), b"OFFSET".to_vec());
    assert_eq!(Keyword::Channels.bytes(), b"CHANNELS".to_vec());
    assert_eq!(Keyword::End.bytes(), b"End".to_vec());
    assert_eq!(Keyword::Site.bytes(), b"Site".to_vec());
    assert_eq!(Keyword::Open.bytes(), b"{".to_vec());
    assert_eq!(Keyword::Close.bytes(), b"}".to_vec());
    assert_eq!(Keyword::Motion.bytes(), b"MOTION".to_vec());
    assert_eq!(Keyword::Frames.bytes(), b"Frames:".to_vec());
    assert_eq!(Keyword::Frame.bytes(), b"Frame".to_vec());
    assert_eq!(Keyword::Time.bytes(), b"Time:".to_vec());
    assert!(Keyword::Root.matches(b"ROOT"));
    assert!(!Keyword::Root.matches(b"Root"));
    assert!(!Keyword::Root.matches(b"ROOTS"));
}

#[test]
fn channel_names_are_read_and_written() {
    let all = [
        (Channel::XPosition, "Xposition"),
        (Channel::YPosition, "Yposition"),
        (Channel::ZPosition, "Zposition"),
        (Channel::XRotation, "Xrotation"),
        (Channel::YRotation, "Yrotation"),
        (Channel::ZRotation, "Zrotation"),
    ];
    for (channel, name) in all {
        assert_eq!(channel.bytes(), name.as_bytes().to_vec());
        assert_eq!(read_channel(name.as_bytes()), Some(channel));
    }
    assert_eq!(read_channel(b"Wrotation"), None);
    assert_eq!(read_channel(b"XPosition"), None);
    assert_eq!(read_channel(b""), None);
}

#[test]
fn counts_are_read_in_base_ten() {
    assert!(check_count(b"0"));
    assert!(check_count(b"007"));
    assert!(!check_count(b""));
    assert!(!check_count(b"-1"));
    assert!(!check_count(b"1.0"));
    assert_eq!(read_u32(b"0"), Some(0));
    assert_eq!(read_u32(b"007"), Some(7));
    assert_eq!(read_u32(b"1234"), Some(1234));
    assert_eq!(read_u32(b"4294967295"), Some(4294967295));
    assert_eq!(read_u32(b"4294967296"), None);
    assert_eq!(read_u32(b"99999999999999999999999999"), None);
}

#[test]
fn decimal_rendering_is_the_shortest() {
    for (n, text) in [(0u64, "0"), (7, "7"), (10, "10"), (4294967295, "4294967295"), (u64::MAX, "18446744073709551615")] {
        let mut out = b"n=".to_vec();
        push_decimal(&mut out, n);
        assert_eq!(out, format!("n={}", text).into_bytes());
    }
}

#[test]
fn push_all_appends() {
    let mut out = b"ab".to_vec();
    push_all(&mut out, b"cd");
    push_all(&mut out, b"");
    assert_eq!(out, b"abcd".to_vec());
}

#[test]
fn names_hold_name_bytes_only() {
    assert!(check_name(b"Hips"));
    assert!(check_name(b"mixamorig:Left_Arm-2.001"));
    assert!(!check_name(b""));
    assert!(!check_name(b"{"));
    assert!(!check_name(b"a}b"));
}

#[test]
fn digits_are_scanned_to_the_first_other_byte() {
    assert_eq!(scan_digits(b"123.5", 0), 3);
    assert_eq!(scan_digits(b"123.5", 3), 3);
    assert_eq!(scan_digits(b"123.5", 4), 5);
    assert_eq!(scan_digits(b"123.5", 5), 5);
    assert!(check_number(b"123.5"));
    assert!(same_bytes(b"abc", b"abc"));
    assert!(!same_bytes(b"abc", b"abd"));
    assert!(!same_bytes(b"abc", b"ab"));
}

#[test]
fn locate_gives_the_byte_where_a_word_begins() {
    let text = b"  ROOT\tHips\r\n{ }\n";
    assert_eq!(bvh::locate(text, 0), 2);
    assert_eq!(bvh::locate(text, 1), 7);
    assert_eq!(bvh::locate(text, 2), 13);
    assert_eq!(bvh::locate(text, 3), 15);
    assert_eq!(bvh::locate(text, 4), text.len());
    assert_eq!(bvh::locate(text, 400), text.len());
    assert_eq!(bvh::locate(b"", 0), 0);
}

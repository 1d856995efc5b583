use zerowire::bytes::{push_u16, push_u32, read_u16, read_u32, write_u32};
use zerowire::scan::{
    after_text, find_char, find_text, parse_number, space, split_lines, split_words, text_before,
    trimmed,
};
use zerowire::text::{
    chars_of, hex_encode, push_bool, push_byte_list, push_dec, push_dec_padded, push_hex,
    push_left, push_signed, same_text, string_of,
};

#[test]
fn white_space_is_unicodes() {
    for u in 0..=0x10FFFFu32 {
        if let Some(c) = char::from_u32(u) {
            assert_eq!(space(c), c.is_whitespace(), "{u:#x}");
        }
    }
}

const SAMPLES: [&str; 12] = [
    "",
    " ",
    "a",
    " a  bc\t d ",
    "one\ntwo\r\nthree",
    "\n",
    "\r\n\r\n",
    "tail\r",
    "x\n\ny\n",
    "\u{2003}wide\u{a0}space\u{3000}",
    "é ü\nß",
    "a\rb\n",
];

fn owned(parts: Vec<&str>) -> Vec<Vec<char>> {
    parts.iter().map(|p| p.chars().collect()).collect()
}

#[test]
fn scanning_agrees_with_std() {
    for s in SAMPLES {
        let c = chars_of(s);
        assert_eq!(string_of(&c), s);
        assert_eq!(split_words(&c), owned(s.split_whitespace().collect()));
        assert_eq!(split_lines(&c), owned(s.lines().collect()));
        assert_eq!(string_of(&trimmed(&c)), s.trim());
    }
}

#[test]
fn numbers_agree_with_std() {
    for s in ["", "+", "-1", "0", "007", "+12", "++1", "255", "256", "65535", "65536", "4294967295",
        "4294967296", "99999999999999999999", "1a", "a", "FF", "ff", "g", " 1", "1 ", "٣"]
    {
        let c = chars_of(s);
        assert_eq!(parse_number(&c, 10, 0xFF), s.parse::<u8>().ok().map(u64::from));
        assert_eq!(parse_number(&c, 10, 0xFFFF), s.parse::<u16>().ok().map(u64::from));
        assert_eq!(parse_number(&c, 10, 0xFFFF_FFFF), s.parse::<u32>().ok().map(u64::from));
        assert_eq!(parse_number(&c, 16, 0xFFFF), u16::from_str_radix(s, 16).ok().map(u64::from));
        assert_eq!(parse_number(&c, 16, 0xFF), u8::from_str_radix(s, 16).ok().map(u64::from));
    }
}

#[test]
fn searching_agrees_with_std() {
    for (s, pat) in [("abcabc", "ca"), ("aaa", "aa"), ("", ""), ("x", ""), ("", "x"), ("ab", "abc")]
    {
        let (c, p) = (chars_of(s), chars_of(pat));
        assert_eq!(find_text(&c, &p), s.find(pat));
        let behind = s.split_once(pat).map(|(_, b)| b.to_string());
        assert_eq!(after_text(&c, &p).map(|v| string_of(&v)), behind);
    }
    assert_eq!(find_char(&chars_of("a=b=c"), 2, '='), 3);
    assert_eq!(find_char(&chars_of("abc"), 0, '='), 3);
}

#[test]
fn formatting_agrees_with_std() {
    for n in [0u64, 1, 9, 10, 99, 100, 255, 4096, u32::MAX as u64, u64::MAX] {
        let mut s = String::new();
        push_dec(&mut s, n);
        assert_eq!(s, format!("{n}"));
        let mut s = String::new();
        push_hex(&mut s, n, 4);
        assert_eq!(s, format!("{n:04x}"));
        let mut s = String::new();
        push_dec_padded(&mut s, n, 6);
        assert_eq!(s, format!("{n:06}"));
    }
    for n in [0i32, 5, -1, -110, i32::MIN, i32::MAX] {
        let mut s = String::new();
        push_signed(&mut s, n);
        assert_eq!(s, format!("{n}"));
    }
    for t in ["", "ab", "exactly10!", "longer than ten", "é"] {
        let mut s = String::new();
        push_left(&mut s, t, 10);
        assert_eq!(s, format!("{t:<10}"));
    }
    let mut s = String::new();
    push_byte_list(&mut s, &[0, 10, 255]);
    push_byte_list(&mut s, &[]);
    push_bool(&mut s, true);
    push_bool(&mut s, false);
    assert_eq!(s, "[0, 10, 255][]truefalse");
    assert_eq!(hex_encode(&[0, 0xAB, 0xFF]), "00abff");
}

#[test]
fn texts_compare_by_their_characters() {
    assert!(same_text("", ""));
    assert!(same_text("ä", "ä"));
    assert!(!same_text("a", "b"));
    assert!(!same_text("a", "aa"));
}

#[test]
fn big_endian_agrees_with_std() {
    for v in [0u32, 1, 0x0102_0304, 0xFFFF_FFFF, 0x8000_0001] {
        let mut out = Vec::new();
        push_u32(&mut out, v);
        assert_eq!(out, v.to_be_bytes());
        assert_eq!(read_u32(&out, 0), v);
        let mut block = [9u8; 7];
        write_u32(&mut block, 2, v);
        assert_eq!(block[2..6], v.to_be_bytes());
        assert_eq!((block[0], block[1], block[6]), (9, 9, 9));
    }
    for v in [0u16, 0x0102, 0xFFFF] {
        let mut out = vec![7];
        push_u16(&mut out, v);
        assert_eq!(out[1..], v.to_be_bytes());
        assert_eq!(read_u16(&out, 1), v);
    }
}

#[test]
fn texts_have_an_order() {
    let before = |a: &str, b: &str| text_before(&chars_of(a), &chars_of(b));
    assert!(before("hidraw0", "hidraw1"));
    assert!(before("hidraw10", "hidraw2"));
    assert!(before("hidraw1", "hidraw10"));
    assert!(before("", "a"));
    assert!(!before("a", ""));
    assert!(!before("a", "a"));
    assert!(!before("b", "ab"));
    assert!(before("z", "\u{e9}"));
}

use prospi::offsets::{OFF_NAME, PLAYER_READ};
use prospi::order::text_before;
use prospi::process::Proc;
use prospi::text::{
    chars_are, chars_of, cstr, join_names, name_from, read_name, same_text, sane_name, trim,
    trim_chars, wide_to_string,
};
use prospi::unicode::is_white;

#[test]
fn names_are_joined_from_two_runs() {
    assert_eq!(join_names("大谷\0翔平\0余計\0".as_bytes()), "大谷 翔平");
    assert_eq!(join_names("大谷\0\0\0翔平".as_bytes()), "大谷 翔平");
    assert_eq!(join_names("大谷\0".as_bytes()), "大谷");
    assert_eq!(join_names(b"\0\0\0"), "");
    assert_eq!(join_names(b""), "");
}

#[test]
fn broken_text_shows_replacement_characters() {
    assert_eq!(cstr(&[0x41, 0xFF, 0x42, 0, 0x43]), "A\u{FFFD}B");
    assert_eq!(cstr("ナックル\0x".as_bytes()), "ナックル");
    assert_eq!(wide_to_string(&[0x5927, 0xD800, 0x41, 0, 0x42]), "大\u{FFFD}A");
    assert_eq!(wide_to_string(&[0x41, 0x42]), "AB");
}

#[test]
fn names_are_read_from_objects() {
    let mut b = vec![0u8; PLAYER_READ];
    let nm = "イチロー\0".as_bytes();
    b[OFF_NAME..OFF_NAME + nm.len()].copy_from_slice(nm);
    assert_eq!(name_from(&b), "イチロー");
    assert_eq!(name_from(&b[..OFF_NAME + 6]), "イチ");
    assert_eq!(name_from(&b[..OFF_NAME]), "");
    let mut p = Proc::empty(1, 0);
    p.hold(0x5000, &b, false);
    assert_eq!(read_name(&p, 0x5000), "イチロー");
    assert_eq!(read_name(&p, 0x9000), "");
}

#[test]
fn sane_names_are_told_from_rubbish() {
    for ok in ["大谷 翔平", "イチロー", "Ohtani", "ダルビッシュ", "ﾀﾞﾙ", "あ", "アイウエオカキクケコサシ"] {
        assert!(sane_name(ok), "{ok}");
    }
    for bad in ["", "   ", "大谷1", "a!b", "大\u{FFFD}", "アイウエオカキクケコサシス", "12345", "？"] {
        assert!(!sane_name(bad), "{bad}");
    }
}

#[test]
fn white_space_at_the_ends_goes() {
    assert_eq!(trim("  a b\t\n"), "a b");
    assert_eq!(trim("\u{3000}大谷\u{A0}\u{2028}"), "大谷");
    assert_eq!(trim("\u{200B}x"), "\u{200B}x");
    assert_eq!(trim(" \u{85} "), "");
    assert_eq!(trim_chars(" 大 "), vec!['大']);
    for c in ['\u{9}', '\u{B}', '\u{D}', ' ', '\u{1680}', '\u{2000}', '\u{200A}', '\u{202F}', '\u{205F}'] {
        let s: String = [c, 'x', c].iter().collect();
        assert_eq!(trim(&s), "x", "{:x}", c as u32);
        assert_eq!(trim(&s), s.trim());
    }
}

#[test]
fn texts_are_compared_by_characters() {
    assert!(same_text("大谷", "大谷"));
    assert!(!same_text("大谷", "大山"));
    assert!(chars_are(&vec!['a', 'b'], "ab"));
    assert!(!chars_are(&vec!['a', 'b'], "abc"));
    assert!(!chars_are(&vec!['a', 'c'], "ab"));
    assert_eq!(chars_of("大a"), vec!['大', 'a']);
    for (a, b) in [("", "a"), ("a", "ab"), ("ab", "b"), ("あ", "い"), ("Z", "a"), ("ア", "亜")] {
        assert!(text_before(a, b), "{a} {b}");
        assert!(!text_before(b, a), "{b} {a}");
        assert!(a < b);
    }
    assert!(!text_before("大谷", "大谷"));
}

#[test]
fn white_space_is_what_unicode_lists() {
    for c in '\0'..=char::MAX {
        assert_eq!(is_white(c), c.is_whitespace(), "{c:?}");
    }
}

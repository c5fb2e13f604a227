use prospi::abil::{
    abil_bit3_name, abil_bit_name, abil_illegal_vals, abil_is_graded, abil_legal_vals, abil_level,
    abil_missing, abil_name, abil_nib, abil_nibbles, abil_variant_desc, has_bit, max_abil_grades,
    set_nib_buf, write_abil_nibble,
};
use prospi::balls::{
    ball_dir, ball_name, balls_for_dir, lv, zh_name, BALL_EMPTY, BALL_NAMES, BALL_ORIGINAL,
};
use prospi::fields::{
    batting_style_from_raw, batting_style_name, pos_name, pos_of, zone_get, zone_set,
    BATTING_STYLE_NAMES, BATTING_STYLE_RAW, BATTING_STYLE_UNKNOWN, POS_NAMES,
};
use prospi::offsets::{ABIL_BYTES, OFF_ABIL2, OFF_POS};
use prospi::process::Proc;

#[test]
fn zone_squares_are_three_bit_numbers() {
    let raw: u32 = 3 | (5 << 3) | (7 << 6);
    assert_eq!(zone_get(raw, 0), 3);
    assert_eq!(zone_get(raw, 1), -3);
    assert_eq!(zone_get(raw, 2), -1);
    assert_eq!(zone_get(4, 0), -4);
    assert_eq!(zone_set(0xF800_0000, 8, -1), 0xFF00_0000);
    assert_eq!(zone_set(0, 1, -3), 5 << 3);
    for i in 0..9 {
        for v in -3i8..=3 {
            let w = zone_set(0xFFFF_FFFF, i, v);
            assert_eq!(zone_get(w, i), v);
            assert_eq!(w | (7 << (3 * i)), 0xFFFF_FFFF);
        }
    }
}

#[test]
fn batting_styles_go_both_ways() {
    for (i, &(high, low, _)) in BATTING_STYLE_RAW.iter().enumerate() {
        let c2c = if high { 0x80 } else { 0 } | 0x35;
        assert_eq!(batting_style_from_raw(c2c, low | 0xFC, 0), Some(i as u8));
        assert_eq!(batting_style_name(i as u8), BATTING_STYLE_NAMES[i]);
    }
    assert_eq!(batting_style_name(BATTING_STYLE_UNKNOWN), "未知組合");
}

#[test]
fn positions_have_names() {
    assert_eq!(POS_NAMES[0], pos_name(0));
    assert_eq!(pos_name(8), POS_NAMES[8]);
    assert_eq!(pos_name(9), "?");
    assert_eq!(pos_name(255), "?");
    let mut p = Proc::empty(1, 0);
    p.hold(0x1000 + OFF_POS as u64, &[(5 << 3) | 2, 0xFF], false);
    assert_eq!(pos_of(&p, 0x1000), 5);
    assert_eq!(pos_of(&p, 0x2000), 0);
}

#[test]
fn pitches_have_directions_and_names() {
    assert_eq!(ball_dir(0), Some(5));
    assert_eq!(ball_dir(4), Some(0));
    assert_eq!(ball_dir(13), Some(1));
    assert_eq!(ball_dir(14), Some(2));
    assert_eq!(ball_dir(BALL_ORIGINAL), None);
    assert_eq!(ball_dir(BALL_EMPTY), None);
    assert_eq!(ball_name(BALL_EMPTY), "－（空）");
    assert_eq!(ball_name(250), "★未知 ID250");
    for &(id, name) in BALL_NAMES.iter() {
        if id != BALL_EMPTY {
            assert_eq!(ball_name(id), name);
        }
    }
    for dir in 0..6 {
        let v = balls_for_dir(dir);
        assert_eq!(&v[..2], &[BALL_EMPTY, BALL_ORIGINAL]);
        assert!(v.len() > 2);
        for &id in &v[2..] {
            assert_eq!(ball_dir(id), Some(dir));
        }
    }
    assert_eq!(balls_for_dir(9), vec![BALL_EMPTY, BALL_ORIGINAL]);
}

#[test]
fn japanese_pitch_names_are_rendered() {
    assert_eq!(zh_name("無名球"), "無名球");
    let (jp, zh) = prospi::balls::JP_ZH[0];
    assert_eq!(zh_name(jp), format!("{zh}（{jp}）"));
    assert_eq!((lv(0), lv(7), lv(8)), ("G", "S", "?"));
}

#[test]
fn half_bytes_are_read_and_set() {
    let b = [0x5A, 0xF0];
    assert_eq!(abil_nib(&b, 0), 0xA);
    assert_eq!(abil_nib(&b, 1), 0x5);
    assert_eq!(abil_nib(&b, 2), 0);
    assert_eq!(abil_nib(&b, 3), 0xF);
    let mut v = vec![0x5A, 0xF0];
    set_nib_buf(&mut v, 1, 0x13);
    assert_eq!(v, vec![0x3A, 0xF0]);
    set_nib_buf(&mut v, 2, 7);
    assert_eq!(v, vec![0x3A, 0xF7]);
    assert_eq!(abil_nibbles(&[0x21, 0x43]), vec![1, 2, 3, 4]);
    assert_eq!(abil_nibbles(&[0xFF; 20]).len(), 2 * ABIL_BYTES);
    assert!(has_bit(0x8000, 15));
    assert!(!has_bit(0x8000, 14));
}

#[test]
fn ability_values_are_judged_by_what_was_seen() {
    assert_eq!(abil_legal_vals(27), vec![2, 3, 4, 6, 7]);
    assert_eq!(abil_illegal_vals(&[0x00; 14]), Vec::<(usize, u8)>::new());
    let mut v = [0u8; 14];
    v[0] = 0x04;
    v[13] = 0x10;
    assert_eq!(abil_illegal_vals(&v), vec![(0, 4), (27, 1)]);
    assert!(abil_is_graded(0));
    assert!(abil_is_graded(10));
    assert!(!abil_is_graded(11));
}

#[test]
fn abilities_have_names() {
    assert_eq!(abil_level(0), "D");
    assert_eq!(abil_level(3), "A");
    assert_eq!(abil_level(4), "⚠無效");
    assert_eq!(abil_level(13), "G");
    assert_eq!(abil_name(27), "（未確認）");
    assert_eq!(abil_name(0), prospi::abil::ABIL_KNOWN[0].1);
    assert_eq!(abil_bit3_name(0), prospi::abil::ABIL_GRADED_BIT3[0].1);
    assert_eq!(abil_bit3_name(27), "");
    let (n, b, name) = prospi::abil::ABIL_BITS[0];
    assert_eq!(abil_bit_name(n, b), Some(name));
    assert_eq!(abil_bit_name(0, 0), None);
    assert_eq!(abil_variant_desc(0, 0), "－");
    assert_eq!(abil_variant_desc(0, 5), "bit0? + bit2?");
    assert_eq!(abil_variant_desc(n, 1 << b), name);
    assert_eq!(abil_missing(0), vec![0, 1, 2, 3]);
    assert!(!abil_missing(n).contains(&b));
}

#[test]
fn grades_rise_as_far_as_was_seen() {
    let mut p = Proc::empty(1, 0);
    let obj: u64 = 0x4000;
    let mut b = [0u8; 14];
    // Field 0 at G with its extra ability, field 1 at D, fields 2 and 3 absent.
    b[0] = 0x0D;
    b[13] = 0xFF;
    p.hold(obj + OFF_ABIL2 as u64, &b, false);
    let n = max_abil_grades(&mut p, obj);
    let after = p.read(obj + OFF_ABIL2 as u64, 14).unwrap();
    assert_eq!(n, Some(9));
    // 0xB (A with the extra ability) was never seen in field 0; 0x9 (C) was.
    assert_eq!(abil_nib(&after, 0), 0x9);
    assert_eq!(abil_nib(&after, 1), 3);
    assert_eq!(abil_nib(&after, 2), 0);
    assert_eq!(abil_nib(&after, 3), 0);
    assert_eq!(after[13], 0xFF);
    assert_eq!(max_abil_grades(&mut p, obj), Some(0));
    assert_eq!(max_abil_grades(&mut p, 0x9000), None);
}

#[test]
fn one_half_byte_is_written_at_a_time() {
    let mut p = Proc::empty(1, 0);
    p.hold(0x4000 + OFF_ABIL2 as u64, &[0x12; 14], false);
    assert!(write_abil_nibble(&mut p, 0x4000, 3, 0x2F));
    let b = p.read(0x4000 + OFF_ABIL2 as u64, 3).unwrap();
    assert_eq!(b, vec![0x12, 0xF2, 0x12]);
    assert!(!write_abil_nibble(&mut p, 0x9000, 3, 1));
}

use prospi::growth::{
    add_base, apply_growth_result, exp_for_ball_grade, exp_for_speed, exp_for_stat, find_growth_in,
    find_growth_structs, find_growth_structs_fast, growth_exp, growth_pattern, growth_struct_for,
    growth_struct_ok, hot_ranges, raise_growth_extra, set_ball_exp, set_field_exp, set_growth_exp,
    set_growth_target, speed_for_exp, stat_for_exp, structs_from, write_ball_synced,
    write_def_synced, write_field_synced, write_pack_synced, write_stat_synced, GrowthHunt,
    GROWTH_BALL_OFF, GROWTH_BALL_STRIDE,
    GROWTH_EXP_MAX, GROWTH_EXP_OFF, GROWTH_EXTRA_LO, GROWTH_EXTRA_MAX, GROWTH_FIELD_OFF,
    GROWTH_FROM_PLAYER, GROWTH_THRESHOLDS, GROWTH_THRESH_OFF, GROWTH_THRESH_OFF2, SPEED_THRESH_OFF,
};
use prospi::offsets::{OFF_DEF, OFF_FIELD, OFF_NAME, OFF_STATS, PLAYER_READ};
use prospi::player::{Ball, Player};
use prospi::process::{Proc, MEM_COMMIT};

const OBJ: u64 = 0xD000_0000;
const GROWTH: u64 = OBJ + GROWTH_FROM_PLAYER;

fn put(p: &mut Proc, a: u64, vals: &[i32]) {
    for (i, v) in vals.iter().enumerate() {
        p.hold(a + 4 * i as u64, &v.to_le_bytes(), false);
    }
}

/// A player object with a growth structure behind it.
fn star() -> Proc {
    let mut p = Proc::empty(1, 0x1_4000_0000);
    let mut b = vec![0u8; PLAYER_READ];
    let nm = "大谷\0翔平\0".as_bytes();
    b[OFF_NAME..OFF_NAME + nm.len()].copy_from_slice(nm);
    p.hold(OBJ, &b, false);
    p.hold(GROWTH, &vec![0u8; 0x400], false);
    put(&mut p, GROWTH + GROWTH_THRESH_OFF, &GROWTH_THRESHOLDS);
    put(&mut p, GROWTH + GROWTH_THRESH_OFF2, &GROWTH_THRESHOLDS);
    put(&mut p, GROWTH + SPEED_THRESH_OFF, &[70600, 49600, 36100, 28100, 24100, 21600, 20100, 0]);
    p
}

fn exp(p: &Proc, i: u64) -> i32 {
    p.u32_at(GROWTH + GROWTH_EXP_OFF + 4 * i) as i32
}

#[test]
fn experience_and_ability_go_both_ways() {
    for (v, e) in [(0, 0), (19, 380), (20, 400), (40, 2000), (50, 4000), (60, 8000), (70, 16000)] {
        assert_eq!(exp_for_stat(v), e);
        assert_eq!(stat_for_exp(e), v);
    }
    assert_eq!((exp_for_stat(80), exp_for_stat(90), exp_for_stat(99)), (30000, 51000, 72600));
    assert_eq!((exp_for_stat(-5), exp_for_stat(200)), (0, 72600));
    assert_eq!((stat_for_exp(-1), stat_for_exp(GROWTH_EXP_MAX), stat_for_exp(72599)), (0, 99, 98));
    for v in 0..=99 {
        let e = exp_for_stat(v);
        assert_eq!(stat_for_exp(e), v);
        assert!(v == 0 || stat_for_exp(e - 1) == v - 1);
    }
}

#[test]
fn grades_of_pitches_have_their_experience() {
    let all: Vec<i32> = (0..9).map(exp_for_ball_grade).collect();
    assert_eq!(all, vec![0, 400, 2000, 4000, 8000, 16000, 30000, 51000, 51000]);
}

#[test]
fn growth_structures_are_known_by_both_tables() {
    let mut p = star();
    assert!(growth_struct_ok(&p, GROWTH));
    assert_eq!(growth_struct_for(&p, OBJ), Some(GROWTH));
    assert_eq!(growth_struct_for(&p, OBJ + 4), None);
    assert_eq!(growth_struct_for(&p, u64::MAX), None);
    put(&mut p, GROWTH + GROWTH_THRESH_OFF2, &[1]);
    assert!(!growth_struct_ok(&p, GROWTH));
}

#[test]
fn experience_is_set_as_a_whole() {
    let mut p = star();
    assert!(set_growth_exp(&mut p, GROWTH, 12345));
    assert_eq!(growth_exp(&p, GROWTH), vec![12345; 10]);
    assert!(set_growth_target(&mut p, GROWTH, 80));
    let e = growth_exp(&p, GROWTH);
    for (i, v) in e.iter().enumerate() {
        assert_eq!(*v, if i == 7 { GROWTH_EXP_MAX } else { 30000 }, "{i}");
    }
    assert_eq!(p.u32_at(GROWTH + GROWTH_FIELD_OFF + 28), 30000);
    assert!(set_field_exp(&mut p, GROWTH));
    for i in 0..8 {
        assert_eq!(p.u32_at(GROWTH + GROWTH_FIELD_OFF + 4 * i), 72600);
    }
    assert!(!set_growth_exp(&mut p, GROWTH + 4, 1));
    assert!(!set_growth_target(&mut p, GROWTH + 4, 1));
    assert!(!set_field_exp(&mut p, GROWTH + 4));
}

#[test]
fn only_pitches_that_are_there_are_raised() {
    let mut p = star();
    put(&mut p, GROWTH + GROWTH_EXTRA_LO, &[0, 5, -3, GROWTH_EXTRA_MAX, 400]);
    assert_eq!(raise_growth_extra(&mut p, GROWTH), 2);
    let v: Vec<i32> =
        (0..6).map(|i| p.u32_at(GROWTH + GROWTH_EXTRA_LO + 4 * i) as i32).collect();
    assert_eq!(v, vec![0, GROWTH_EXTRA_MAX, -3, GROWTH_EXTRA_MAX, GROWTH_EXTRA_MAX, 0]);
    assert_eq!(raise_growth_extra(&mut p, GROWTH), 0);
    assert_eq!(raise_growth_extra(&mut p, GROWTH + 8), 0);
}

#[test]
fn ball_speed_has_a_table_of_its_own() {
    let p = star();
    assert_eq!(exp_for_speed(&p, GROWTH, 158), 70600);
    assert_eq!(exp_for_speed(&p, GROWTH, 175), 70600 + 17 * 9000);
    assert_eq!(exp_for_speed(&p, GROWTH, 155), 49600);
    assert_eq!(exp_for_speed(&p, GROWTH, 80), 80 * 150);
    assert_eq!(exp_for_speed(&p, GROWTH, 10), 80 * 150);
    for v in 80..=175 {
        assert_eq!(speed_for_exp(&p, GROWTH, exp_for_speed(&p, GROWTH, v)), v);
    }
    assert_eq!(speed_for_exp(&p, GROWTH, 0), 80);
}

#[test]
fn abilities_and_experience_are_written_together() {
    let mut p = star();
    assert!(write_stat_synced(&mut p, OBJ, 2, 90));
    assert_eq!((p.u8_at(OBJ + OFF_STATS as u64 + 2), exp(&p, 2)), (90, 51000));
    assert!(write_stat_synced(&mut p, OBJ, 7, 50));
    assert_eq!(p.u8_at(OBJ + OFF_STATS as u64 + 7), 50);
    assert!(write_def_synced(&mut p, OBJ, 60));
    assert_eq!(p.u8_at(OBJ + OFF_DEF as u64), 60);
    assert!(growth_exp(&p, GROWTH).contains(&8000));
    assert!(write_field_synced(&mut p, OBJ, 4, 70));
    assert_eq!(p.u8_at(OBJ + OFF_FIELD as u64 + 4), 70);
    assert_eq!(p.u32_at(GROWTH + GROWTH_FIELD_OFF + 16), 16000);
    assert!(!write_field_synced(&mut p, OBJ, 8, 70));
    assert!(write_pack_synced(&mut p, OBJ, 160, 40, 0));
    let pl = Player::load(&p, OBJ).unwrap();
    assert_eq!((pl.speed, pl.stamina), (160, 40));
    assert_eq!(exp(&p, 7), 70600 + 2 * 9000);
    assert!(growth_exp(&p, GROWTH).contains(&2000));
}

#[test]
fn pitches_and_experience_are_written_together() {
    let mut p = star();
    let at = |slot: u64| GROWTH + GROWTH_BALL_OFF + slot * GROWTH_BALL_STRIDE;
    assert!(write_ball_synced(&mut p, OBJ, 0, &Ball { id: 4, power: 7, control: 6, move_: 5 }));
    assert_eq!((p.u32_at(at(0)), p.u32_at(at(0) + 4), p.u32_at(at(0) + 8)), (51000, 30000, 16000));
    put(&mut p, at(5) + 8, &[777]);
    assert!(write_ball_synced(&mut p, OBJ, 5, &Ball { id: 0, power: 3, control: 2, move_: 7 }));
    assert_eq!((p.u32_at(at(5)), p.u32_at(at(5) + 4), p.u32_at(at(5) + 8)), (4000, 2000, 777));
    assert!(write_ball_synced(&mut p, OBJ, 0, &Ball { id: 37, power: 0, control: 0, move_: 0 }));
    assert_eq!(p.u32_at(at(0)), 51000);
    assert!(set_ball_exp(&mut p, GROWTH, 1));
    assert_eq!((p.u32_at(at(1)), p.u32_at(at(1) + 8)), (51000, 51000));
}

#[test]
fn outside_the_star_mode_only_the_ability_is_written() {
    let mut p = Proc::empty(1, 0);
    p.hold(0x5000, &vec![0u8; PLAYER_READ], false);
    assert!(write_stat_synced(&mut p, 0x5000, 0, 77));
    assert!(write_pack_synced(&mut p, 0x5000, 150, 50, 0));
    assert_eq!(p.take_writes().len(), 2);
}

#[test]
fn the_result_of_full_experience_is_written_at_once() {
    let mut p = star();
    assert!(apply_growth_result(&mut p, OBJ));
    let pl = Player::load(&p, OBJ).unwrap();
    assert_eq!(pl.stats, [99; 8]);
    assert_eq!(pl.field, [99; 8]);
    assert_eq!((pl.defense, pl.speed, pl.stamina), (99, 175, 99));
    assert!(!apply_growth_result(&mut p, 0x77));
}

#[test]
fn growth_structures_are_searched_for() {
    let mut p = star();
    assert_eq!(growth_pattern().len(), 32);
    let lo = GROWTH;
    assert_eq!(find_growth_in(&p, &[(lo, 0x400)]), vec![GROWTH]);
    assert_eq!(find_growth_in(&p, &[(OBJ, PLAYER_READ as u64)]), Vec::<u64>::new());
    p.note_region(0, lo, 0x400, MEM_COMMIT, 0x04, 0);
    assert_eq!(find_growth_structs(&p), vec![GROWTH]);
    assert_eq!(find_growth_structs_fast(&p), vec![GROWTH]);
    let mut v = vec![1, 2];
    add_base(&mut v, 2);
    add_base(&mut v, 3);
    assert_eq!(v, vec![1, 2, 3]);
}

#[test]
fn hot_zones_pick_regions() {
    let r = vec![(0x100, 0x100), (0x300, 0x100), (0x500, 0x100)];
    assert_eq!(hot_ranges(&r, 0x180, 0x380), vec![(0x100, 0x100), (0x300, 0x100)]);
    assert_eq!(hot_ranges(&r, 0x200, 0x500), vec![(0x300, 0x100)]);
    assert!(hot_ranges(&r, 0x1000, 0x2000).is_empty());
}

#[test]
fn a_hunt_goes_on_until_something_is_found() {
    let p = star();
    let nothing = Proc::empty(1, 0);
    let answer = |h: &mut GrowthHunt| {
        while let Some((a, n)) = h.want() {
            h.take(p.read(a, n as usize));
        }
    };
    let mut h = GrowthHunt::new(vec![(GROWTH, 0x400)]);
    let mut turns = 0;
    loop {
        answer(&mut h);
        if h.settle(&p) {
            break;
        }
        turns += 1;
        assert_eq!(h.turn, turns);
    }
    assert_eq!(h.structs, vec![GROWTH]);

    let mut h = GrowthHunt::new(vec![(GROWTH, 0x400)]);
    for last in [false, false, true] {
        answer(&mut h);
        assert_eq!(h.settle(&nothing), last);
    }
    assert!(h.structs.is_empty());
    assert_eq!(structs_from(&p, &vec![GROWTH + GROWTH_THRESH_OFF2, 5]), Vec::<u64>::new());
}

#[test]
fn raising_pitches_touches_their_cells_alone() {
    let mut p = star();
    put(&mut p, GROWTH + GROWTH_EXTRA_LO - 4, &[7, 0, 1, 50999, 51000, 51001, -1]);
    let last = GROWTH + GROWTH_EXTRA_LO + 4 * 35;
    put(&mut p, last, &[300]);
    let before = p.read(GROWTH, 0x400).unwrap();
    assert_eq!(raise_growth_extra(&mut p, GROWTH), 3);
    let mut want = before;
    for off in [GROWTH_EXTRA_LO + 4, GROWTH_EXTRA_LO + 8, last - GROWTH] {
        let o = off as usize;
        want[o..o + 4].copy_from_slice(&GROWTH_EXTRA_MAX.to_le_bytes());
    }
    assert_eq!(p.read(GROWTH, 0x400).unwrap(), want);
    p.take_writes();
    assert_eq!(raise_growth_extra(&mut p, GROWTH), 0);
    assert!(p.take_writes().is_empty());
}

#[test]
fn the_fast_search_agrees_with_the_full_one() {
    let tables = |p: &mut Proc, base: u64| {
        p.hold(base, &vec![0u8; 0x200], false);
        put(p, base + GROWTH_THRESH_OFF, &GROWTH_THRESHOLDS);
        put(p, base + GROWTH_THRESH_OFF2, &GROWTH_THRESHOLDS);
    };
    let (cold, hot) = (0x2000_0000u64, 0x1_1000_0000u64);
    let mut p = Proc::empty(1, 0);
    tables(&mut p, cold);
    p.note_region(0, cold, 0x200, MEM_COMMIT, 0x04, 0);
    assert_eq!(find_growth_structs(&p), vec![cold]);
    assert_eq!(find_growth_structs_fast(&p), vec![cold]);
    tables(&mut p, hot);
    p.note_region(cold + 0x200, hot, 0x200, MEM_COMMIT, 0x04, 0);
    assert_eq!(find_growth_structs(&p), vec![cold, hot]);
    assert_eq!(find_growth_structs_fast(&p), vec![hot]);
    assert!(find_growth_structs_fast(&Proc::empty(1, 0)).is_empty());
}

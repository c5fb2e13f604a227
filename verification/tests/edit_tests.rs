use prospi::balls::{BALL_EMPTY, BALL_ORIGINAL};
use prospi::edit::{
    clear_rec, find_rec_index, player_is_talent, write_ball, write_batting_aggression,
    write_batting_style, write_catcher, write_pack, write_plate_discipline, write_player_talent,
    write_popularity, write_pos, write_rec, write_stat, write_zone,
};
use prospi::offsets::{
    N_REC, OFF_BALL, OFF_BATTING_AGGRESSION, OFF_BATTING_AGGRESSION_SYNC, OFF_BATTING_STYLE,
    OFF_CATCH, OFF_ORIG, OFF_PACK, OFF_PLATE_DISCIPLINE, OFF_POS, OFF_STATS, OFF_TALENT_FLAGS,
    OFF_ZONE, PLAYER_READ, REC, REC_UNUSED_SLOT,
};
use prospi::player::{Ball, Player};
use prospi::process::Proc;

const OBJ: u64 = 0x2000_0000;

fn game(fill: u8) -> Proc {
    let mut p = Proc::empty(1, 0x1_4000_0000);
    p.hold(OBJ, &vec![fill; PLAYER_READ], false);
    p
}

fn byte(p: &Proc, off: usize) -> u8 {
    p.u8_at(OBJ + off as u64)
}

fn changed(p: &Proc, fill: u8) -> Vec<usize> {
    let b = p.read(OBJ, PLAYER_READ).unwrap();
    (0..PLAYER_READ).filter(|&i| b[i] != fill).collect()
}

#[test]
fn an_ability_is_one_byte() {
    let mut p = game(0);
    assert!(write_stat(&mut p, OBJ, 3, 88));
    assert_eq!(changed(&p, 0), vec![OFF_STATS + 3]);
    assert_eq!(Player::load(&p, OBJ).unwrap().stats[3], 88);
    assert!(!write_stat(&mut p, 0x999, 3, 88));
}

#[test]
fn speed_and_stamina_share_a_word() {
    let mut p = game(0);
    assert!(write_pack(&mut p, OBJ, 154, 83, 0xC000));
    let pl = Player::load(&p, OBJ).unwrap();
    assert_eq!((pl.speed, pl.stamina, pl.pack_hi), (154, 83, 0xC000));
    assert!(write_pack(&mut p, OBJ, 300, 200, 0));
    assert_eq!(p.u16_at(OBJ + OFF_PACK as u64), 0x3FFF);
    assert!(write_pack(&mut p, OBJ, 10, 0, 0x4000));
    assert_eq!(p.u16_at(OBJ + OFF_PACK as u64), 0x4000);
}

#[test]
fn a_pitch_is_three_bytes() {
    let mut p = game(0xAA);
    assert!(write_ball(&mut p, OBJ, 2, &Ball { id: 4, power: 5, control: 6, move_: 7 }));
    assert_eq!(p.read(OBJ + OFF_BALL as u64 + 6, 3), Some(vec![4, 47, 6]));
    let b = Player::load(&p, OBJ).unwrap().balls[2];
    assert_eq!((b.id, b.power, b.control, b.move_), (4, 5, 6, 7));
    assert!(write_ball(&mut p, OBJ, 2, &Ball { id: BALL_EMPTY, power: 99, control: 9, move_: 9 }));
    assert_eq!(p.read(OBJ + OFF_BALL as u64 + 6, 3), Some(vec![BALL_EMPTY, 0, 0]));
    assert_eq!(changed(&p, 0xAA), vec![OFF_BALL + 6, OFF_BALL + 7, OFF_BALL + 8]);
}

#[test]
fn records_are_cut_or_filled_to_size() {
    let mut p = game(0x11);
    assert!(write_rec(&mut p, OBJ, 1, &[0xFF; 8], 9));
    let at = OFF_ORIG + REC;
    let r = p.read(OBJ + at as u64, REC).unwrap();
    assert_eq!(&r[..8], &[9, 0, 0, 0, 0xFF, 0xFF, 0xFF, 0xFF]);
    assert!(r[8..].iter().all(|&x| x == 0));
    assert!(write_rec(&mut p, OBJ, 1, &vec![0x22; REC + 50], 3));
    let r = p.read(OBJ + at as u64, REC).unwrap();
    assert_eq!(&r[..5], &[3, 0, 0, 0, 0x22]);
    assert_eq!(r[REC - 1], 0x22);
    assert_eq!(byte(&p, at + REC), 0x11);
    assert_eq!(byte(&p, at - 1), 0x11);
}

#[test]
fn several_slots_get_records_of_their_own() {
    let mut p = game(0);
    for i in 0..N_REC {
        assert!(clear_rec(&mut p, OBJ, i));
    }
    let pl = Player::load(&p, OBJ).unwrap();
    assert!(pl.recs.iter().all(|r| r.slot == REC_UNUSED_SLOT && r.base == BALL_EMPTY && r.name.is_empty()));
    for slot in [5usize, 0, 7] {
        let i = find_rec_index(&p, OBJ, slot).unwrap();
        assert!(write_rec(&mut p, OBJ, i, &[0; 16], slot));
    }
    assert_eq!(find_rec_index(&p, OBJ, 5), Some(0));
    assert_eq!(find_rec_index(&p, OBJ, 0), Some(1));
    assert_eq!(find_rec_index(&p, OBJ, 7), Some(2));
    assert_eq!(find_rec_index(&p, OBJ, 1), Some(3));
    for i in 0..N_REC {
        assert!(write_rec(&mut p, OBJ, i, &[0; 16], 0));
    }
    assert_eq!(find_rec_index(&p, OBJ, 1), None);
}

#[test]
fn shared_bytes_keep_their_other_bits() {
    for fill in [0x00u8, 0xFF, 0xA5] {
        let mut p = game(fill);
        assert!(write_catcher(&mut p, OBJ, 5));
        assert_eq!(byte(&p, OFF_CATCH), (fill & 0x8F) | 0x50);
        assert!(write_batting_aggression(&mut p, OBJ, 6));
        assert_eq!(byte(&p, OFF_BATTING_AGGRESSION), (fill & 0xF8) | 6);
        assert_eq!(byte(&p, OFF_BATTING_AGGRESSION_SYNC), fill);
        assert!(write_plate_discipline(&mut p, OBJ, 3));
        assert_eq!(byte(&p, OFF_PLATE_DISCIPLINE), (fill & 0xC7) | 0x18);
        assert!(write_popularity(&mut p, OBJ, true));
        assert_eq!(byte(&p, OFF_POS), (fill & 0xF8) | 2);
        assert!(write_popularity(&mut p, OBJ, false));
        assert_eq!(byte(&p, OFF_POS), (fill & 0xF8) | 1);
        assert!(write_pos(&mut p, OBJ, 8));
        assert_eq!(byte(&p, OFF_POS), (fill & 0x80) | 0x41);
        assert_eq!(byte(&p, OFF_POS + 1), fill);
        let pl = Player::load(&p, OBJ).unwrap();
        assert_eq!((pl.catcher, pl.batting_aggression, pl.plate_discipline), (5, 6, 3));
        assert_eq!((pl.pos, pl.popularity), (8, false));
    }
}

#[test]
fn what_is_no_grade_is_refused() {
    let mut p = game(0x77);
    assert!(!write_batting_aggression(&mut p, OBJ, 7));
    assert!(!write_plate_discipline(&mut p, OBJ, 7));
    assert!(!write_pos(&mut p, OBJ, 9));
    assert!(!write_batting_style(&mut p, OBJ, 7));
    assert!(changed(&p, 0x77).is_empty());
}

#[test]
fn batting_styles_are_read_back() {
    for style in 0..7u8 {
        let mut p = game(0xFF);
        assert!(write_batting_style(&mut p, OBJ, style));
        assert_eq!(Player::load(&p, OBJ).unwrap().batting_style, style);
        assert_eq!(byte(&p, OFF_CATCH) & 0x7F, 0x7F);
        assert_eq!(byte(&p, OFF_BATTING_STYLE) & 0xFC, 0xFC);
    }
}

#[test]
fn the_zone_chart_is_read_back() {
    let mut p = game(0xFF);
    let z: [i8; 9] = [3, -3, 0, 1, -1, 2, -2, 3, -3];
    assert!(write_zone(&mut p, OBJ, &z));
    assert_eq!(Player::load(&p, OBJ).unwrap().zone, z);
    assert_eq!(p.u32_at(OBJ + OFF_ZONE as u64) >> 27, 0x1F);
}

#[test]
fn the_talent_flag_is_one_bit() {
    let mut p = game(0xFF);
    assert!(player_is_talent(&p, OBJ));
    assert!(write_player_talent(&mut p, OBJ, false));
    assert!(!player_is_talent(&p, OBJ));
    assert_eq!(p.u32_at(OBJ + OFF_TALENT_FLAGS as u64), 0xFFFF_FFFD);
    assert!(write_player_talent(&mut p, OBJ, true));
    assert_eq!(p.u32_at(OBJ + OFF_TALENT_FLAGS as u64), 0xFFFF_FFFF);
}

#[test]
fn pitches_are_labelled() {
    let mut p = game(0);
    for i in 0..N_REC {
        clear_rec(&mut p, OBJ, i);
    }
    for s in 0..12 {
        write_ball(&mut p, OBJ, s, &Ball { id: BALL_EMPTY, power: 0, control: 0, move_: 0 });
    }
    write_ball(&mut p, OBJ, 0, &Ball { id: 4, power: 1, control: 1, move_: 1 });
    write_ball(&mut p, OBJ, 1, &Ball { id: 4, power: 1, control: 1, move_: 1 });
    write_ball(&mut p, OBJ, 2, &Ball { id: BALL_ORIGINAL, power: 1, control: 1, move_: 1 });
    write_ball(&mut p, OBJ, 3, &Ball { id: BALL_ORIGINAL, power: 1, control: 1, move_: 1 });
    let mut raw = vec![0u8; REC];
    raw[4..4 + 12].copy_from_slice("カーブX".as_bytes()[..10].iter().chain(&[0, 0]).copied().collect::<Vec<u8>>().as_slice());
    write_rec(&mut p, OBJ, 0, &raw, 3);
    let pl = Player::load(&p, OBJ).unwrap();
    assert_eq!(pl.ball_label(0), prospi::balls::ball_name(4));
    assert_eq!(pl.ball_label(1), format!("{}  ⚠本屬方向0", prospi::balls::ball_name(4)));
    assert_eq!(pl.ball_label(2), "原創（沒有記錄→只會顯示「原創」）");
    assert_eq!(pl.ball_label(3), "原創：カーブX");
    assert_eq!(pl.ball_label(11), "－（空）");
    assert_eq!(pl.rec_for_slot(3).unwrap().name, "カーブX");
    assert!(pl.rec_for_slot(2).is_none());
}

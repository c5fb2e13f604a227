use prospi::balls::{BALL_EMPTY, BALL_ORIGINAL};
use prospi::edit::{clear_rec, write_rec};
use prospi::growth::{
    growth_exp, GROWTH_EXP_MAX, GROWTH_EXTRA_LO, GROWTH_FROM_PLAYER, GROWTH_THRESHOLDS,
    GROWTH_THRESH_OFF, GROWTH_THRESH_OFF2,
};
use prospi::library::LibEntry;
use prospi::offsets::{
    N_BALL, N_REC, OFF_ABIL2, OFF_BALL, OFF_ITEM, OFF_NAME, OFF_TRUST, PLAYER_READ, REC,
    REC_UNUSED_SLOT,
};
use prospi::pitches::{
    all_best, all_moving, ball_option_label, ball_options, edit_ball, edit_ball_id, entry_label,
    lib_options, original_label, pick_original, rec_label, slot_label,
};
use prospi::player::{OrigRec, Player};
use prospi::process::Proc;
use prospi::skills::{
    bit_choice, clear_abil, edit_abil_bit, edit_abil_extra, edit_abil_grade, edit_max_grades,
    grade_label, grade_options, next_choice,
};
use prospi::training::{
    apply_result, edit_target, exp_label, fill_experience, growth_label, push_signed,
    raise_everything, target_label,
};
use prospi::traits::{
    academic_rank, clear_uses, clear_zone, edit_academic, edit_aggression, edit_batting_style,
    edit_book, edit_catcher, edit_defense, edit_discipline, edit_energy, edit_field, edit_grade,
    edit_item, edit_mood, edit_personality, edit_popularity, edit_pos, edit_recruit_eval,
    edit_speed, edit_stamina, edit_stat, edit_trust, edit_zone, recruit_stars,
};

const OBJ: u64 = 0x2000_0000;

fn game() -> (Proc, Player) {
    let mut p = Proc::empty(1, 0);
    let mut b = vec![0u8; PLAYER_READ];
    let nm = "大谷\0翔平\0".as_bytes();
    b[OFF_NAME..OFF_NAME + nm.len()].copy_from_slice(nm);
    for k in 0..N_BALL {
        b[OFF_BALL + 3 * k] = BALL_EMPTY;
    }
    p.hold(OBJ, &b, false);
    for i in 0..N_REC {
        clear_rec(&mut p, OBJ, i);
    }
    let pl = Player::load(&p, OBJ).unwrap();
    (p, pl)
}

fn add_growth(p: &mut Proc) -> u64 {
    let g = OBJ + GROWTH_FROM_PLAYER;
    p.hold(g, &vec![0u8; 0x400], false);
    for (i, v) in GROWTH_THRESHOLDS.iter().enumerate() {
        p.hold(g + GROWTH_THRESH_OFF + 4 * i as u64, &v.to_le_bytes(), false);
        p.hold(g + GROWTH_THRESH_OFF2 + 4 * i as u64, &v.to_le_bytes(), false);
    }
    g
}

/// What the player at hand and the game say are the same.
fn in_step(p: &Proc, cur: &Player) {
    let live = Player::load(p, OBJ).unwrap();
    assert_eq!(format!("{live:?}"), format!("{cur:?}"));
}

#[test]
fn persons_are_edited() {
    let (mut p, mut cur) = game();
    let o = edit_trust(&mut cur, &mut p, 250);
    assert_eq!((o.ok, o.what.as_str(), o.reload), (true, "信賴度 → 200", false));
    assert_eq!(p.u8_at(OBJ + OFF_TRUST as u64), 200);
    let o = edit_personality(&mut cur, &mut p, 5).unwrap();
    assert_eq!(o.what, "性格 → 天才");
    assert!(edit_personality(&mut cur, &mut p, 5).is_none());
    let o = edit_mood(&mut cur, &mut p, 3).unwrap();
    assert_eq!(o.what, "情緒 → 消沉");
    assert!(edit_mood(&mut cur, &mut p, 3).is_none());
    let o = edit_energy(&mut cur, &mut p, 501);
    assert_eq!((o.what.as_str(), cur.energy), ("體力 → 500", 500));
    let o = edit_recruit_eval(&mut cur, &mut p, 1000);
    assert_eq!((o.what.as_str(), cur.recruit_eval), ("招募評價 → 511", 511));
    let o = edit_academic(&mut cur, &mut p, 4).unwrap();
    assert_eq!((o.what.as_str(), cur.academic), ("學力 → A", 0x4B));
    assert!(edit_academic(&mut cur, &mut p, 4).is_none());
    in_step(&p, &cur);
}

#[test]
fn ranks_and_stars_have_their_ranges() {
    let ranks: Vec<Option<u8>> =
        [0, 0x23, 0x24, 0x2D, 0x2E, 0x38, 0x42, 0x4B, 0x4C].iter().map(|&v| academic_rank(v)).collect();
    assert_eq!(
        ranks,
        vec![Some(0), Some(0), Some(1), Some(1), Some(2), Some(3), Some(4), Some(4), None]
    );
    let stars: Vec<u8> =
        [0, 0x27, 0x28, 0x4F, 0x50, 0x9F, 0xA0, 0xEF, 0xF0, 0x1FF].iter().map(|&v| recruit_stars(v)).collect();
    assert_eq!(stars, vec![1, 1, 2, 2, 3, 3, 4, 4, 5, 5]);
}

#[test]
fn numbers_are_brought_into_range() {
    let (mut p, mut cur) = game();
    assert_eq!(edit_speed(&mut cur, &mut p, 300).what, "球速（含經驗值）");
    assert_eq!(cur.speed, 175);
    edit_speed(&mut cur, &mut p, 10);
    assert_eq!(cur.speed, 80);
    edit_speed(&mut cur, &mut p, 160);
    assert_eq!(edit_stamina(&mut cur, &mut p, 120).what, "耐力（含經驗值）");
    assert_eq!(cur.stamina, 99);
    assert_eq!(edit_defense(&mut cur, &mut p, 100).what, "投手適性（含經驗值）");
    assert_eq!(cur.defense, 99);
    assert_eq!(edit_field(&mut cur, &mut p, 0, 77).what, "捕手（含經驗值）");
    assert_eq!(cur.field[0], 77);
    assert_eq!(edit_stat(&mut cur, &mut p, 2, 0).what, "力量");
    assert_eq!(cur.stats[2], 1);
    assert_eq!(edit_grade(&mut cur, &mut p, 9).what, "年級");
    assert_eq!(cur.grade, 3);
    assert_eq!(edit_item(&mut cur, &mut p, 99).what, "球棒使用次數");
    assert_eq!(edit_book(&mut cur, &mut p, 4).what, "書籍使用次數");
    assert_eq!((cur.item, cur.book), (9, 4));
    in_step(&p, &cur);
    assert_eq!(clear_uses(&mut cur, &mut p).what, "使用次數歸零");
    assert_eq!(p.u16_at(OBJ + OFF_ITEM as u64), 0);
    in_step(&p, &cur);
}

#[test]
fn styles_and_grades_are_edited() {
    let (mut p, mut cur) = game();
    assert_eq!(edit_pos(&mut cur, &mut p, 5).unwrap().what, format!("主要守備位置 → {}", prospi::fields::pos_name(5)));
    assert!(edit_pos(&mut cur, &mut p, 5).is_none());
    let style = (cur.batting_style + 1) % 7;
    let o = edit_batting_style(&mut cur, &mut p, style).unwrap();
    assert_eq!(o.what, format!("打擊姿勢 → {}", prospi::fields::BATTING_STYLE_NAMES[style as usize]));
    assert!(edit_batting_style(&mut cur, &mut p, style).is_none());
    assert_eq!(edit_catcher(&mut cur, &mut p, 6).what, "捕手配球");
    assert_eq!(edit_aggression(&mut cur, &mut p, 6).what, "打擊積極性 → A");
    assert_eq!(edit_discipline(&mut cur, &mut p, 0).what, "選球眼 → G");
    assert_eq!(edit_popularity(&mut cur, &mut p, true).what, "人氣(投手/野手) → 有");
    in_step(&p, &cur);
    assert_eq!(edit_popularity(&mut cur, &mut p, false).what, "人氣(投手/野手) → 無");
    assert_eq!(edit_zone(&mut cur, &mut p, 4, -2).what, "擅長球路九宮格");
    assert_eq!(cur.zone[4], -2);
    in_step(&p, &cur);
    assert_eq!(clear_zone(&mut cur, &mut p).what, "擅長球路九宮格（歸零）");
    in_step(&p, &cur);
}

#[test]
fn a_failed_write_is_reported() {
    let (_, mut cur) = game();
    let mut gone = Proc::empty(1, 0);
    let o = edit_trust(&mut cur, &mut gone, 7);
    assert_eq!((o.ok, o.what.as_str()), (false, "信賴度 → 7"));
    assert!(!edit_pos(&mut cur, &mut gone, 7).unwrap().ok);
    assert!(!edit_max_grades(&mut gone, OBJ).ok);
}

#[test]
fn grades_on_offer_hold_no_wrong_value() {
    assert_eq!(grade_options(0), vec![5, 6, 7, 0, 1, 2, 3]);
    assert_eq!(grade_options(2), vec![0, 5, 6, 7, 1, 2, 3]);
    let opts = grade_options(0);
    let mut v = 5;
    let mut seen = Vec::new();
    for _ in 0..7 {
        seen.push(grade_label(0, v));
        v = next_choice(&opts, v);
    }
    assert_eq!(seen, vec!["G", "F", "E", "D", "C", "B", "A"]);
    assert_eq!(v, 5);
    assert_eq!(next_choice(&opts, 4), 5);
    assert_eq!(grade_label(0, 4), "?");
    assert_eq!(grade_label(3, 0), "（無）");
}

#[test]
fn special_abilities_are_edited() {
    let (mut p, mut cur) = game();
    let o = edit_abil_extra(&mut cur, &mut p, 1, true);
    assert_eq!(o.what, prospi::abil::abil_bit3_name(1));
    let o = edit_abil_grade(&mut cur, &mut p, 1, 3);
    assert_eq!(o.what, format!("{} 等級", prospi::abil::abil_name(1)));
    assert_eq!(cur.abil[0], 0xB0);
    edit_abil_extra(&mut cur, &mut p, 1, false);
    assert_eq!(cur.abil[0], 0x30);
    in_step(&p, &cur);
    let o = edit_abil_bit(&mut cur, &mut p, 27, 2, true);
    assert_eq!((cur.abil[13], o.what.as_str()), (0x40, bit_choice(27, 2)));
    let o = edit_abil_bit(&mut cur, &mut p, 27, 0, true);
    assert_eq!(cur.abil[13], 0x50);
    assert_eq!(
        o.what,
        format!("{}　⚠ n27=5 這個組合沒觀察過，若畫面卡住就重開讀檔", bit_choice(27, 0))
    );
    edit_abil_bit(&mut cur, &mut p, 27, 2, false);
    assert_eq!(cur.abil[13], 0x10);
    edit_abil_bit(&mut cur, &mut p, 27, 2, false);
    assert_eq!(cur.abil[13], 0x10);
    in_step(&p, &cur);
    assert_eq!(bit_choice(0, 0), "—");
    let o = edit_max_grades(&mut p, OBJ);
    assert_eq!((o.ok, o.reload), (true, true));
    assert!(o.what.starts_with("等級拉滿（改了 "), "{}", o.what);
    assert_eq!(clear_abil(&mut cur, &mut p).what, "特殊能力全部清空");
    assert_eq!(p.read(OBJ + OFF_ABIL2 as u64, 14), Some(vec![0; 14]));
}

#[test]
fn pitches_are_edited() {
    let (mut p, mut cur) = game();
    let o = edit_ball_id(&mut cur, &mut p, 0, 4).unwrap();
    assert_eq!((o.ok, o.reload, o.what.as_str()), (true, true, "滑球系・第1顆 球種"));
    assert_eq!((cur.balls[0].power, cur.balls[0].control, cur.balls[0].move_), (7, 7, 4));
    edit_ball_id(&mut cur, &mut p, 11, 0);
    assert_eq!((cur.balls[11].power, cur.balls[11].move_), (7, 0));
    assert!(edit_ball_id(&mut cur, &mut p, 0, 4).is_none());
    let o = edit_ball(&mut cur, &mut p, 0, 3, 2, 1);
    assert_eq!(o.what, "滑球系・第1顆 球威/控球/變化（含經驗值）");
    in_step(&p, &cur);
    edit_ball_id(&mut cur, &mut p, 0, 5);
    assert_eq!((cur.balls[0].power, cur.balls[0].move_), (3, 1));
    assert_eq!(all_best(&mut cur, &mut p).what, "全部球種 S/S");
    assert_eq!((cur.balls[0].power, cur.balls[0].control, cur.balls[0].move_), (7, 7, 1));
    assert_eq!(all_moving(&mut cur, &mut p).what, "變化量 7");
    assert_eq!((cur.balls[0].move_, cur.balls[11].move_), (7, 0));
    assert_eq!(cur.balls[1].id, BALL_EMPTY);
    in_step(&p, &cur);
    assert_eq!(slot_label(11), "直球系・第2顆");
}

#[test]
fn an_original_pitch_takes_its_record_along() {
    let (mut p, mut cur) = game();
    edit_ball_id(&mut cur, &mut p, 2, BALL_ORIGINAL);
    let mut raw = vec![0u8; REC];
    raw[4..10].copy_from_slice("魔球".as_bytes());
    let e = LibEntry {
        name: "魔球".to_string(),
        slot: 2,
        dir: 2,
        base: 14,
        kind: "自訂".to_string(),
        holder: "甲".to_string(),
        raw,
    };
    let o = pick_original(&mut p, OBJ, 2, &e);
    assert_eq!((o.ok, o.reload, o.what.as_str()), (true, true, "指叉球系・第1顆 原創「魔球」"));
    let mut cur = Player::load(&p, OBJ).unwrap();
    assert_eq!((cur.recs[0].slot, cur.recs[0].name.as_str()), (2, "魔球"));
    assert_eq!(original_label(&cur, 2), "魔球");
    assert_eq!(original_label(&cur, 3), "（未設定→畫面只顯示「原創」，點這裡挑一顆）");
    let o = edit_ball_id(&mut cur, &mut p, 2, 14).unwrap();
    assert!(o.ok);
    let after = Player::load(&p, OBJ).unwrap();
    assert_eq!((after.recs[0].slot, after.recs[0].name.as_str()), (REC_UNUSED_SLOT, ""));
    for i in 0..N_REC {
        write_rec(&mut p, OBJ, i, &[0; 4], 0);
    }
    let o = pick_original(&mut p, OBJ, 2, &e);
    assert_eq!((o.ok, o.reload, o.what.as_str()), (false, false, "12 筆原創記錄都滿了"));
    assert_eq!(
        entry_label(&e),
        format!("魔球　[自訂]　基底 {}　甲", prospi::balls::ball_name(14))
    );
    let lib = vec![e];
    assert_eq!(lib_options(&lib, false, 2), vec![0]);
    assert!(lib_options(&lib, false, 3).is_empty());
    assert_eq!(lib_options(&lib, true, 3), vec![0]);
}

#[test]
fn pitches_on_offer_depend_on_the_direction() {
    let all = ball_options(true, 0);
    assert_eq!(&all[..2], &[BALL_EMPTY, BALL_ORIGINAL]);
    assert_eq!(all.iter().filter(|&&x| x == BALL_ORIGINAL).count(), 1);
    let some = ball_options(false, 0);
    assert_eq!(some, prospi::balls::balls_for_dir(0));
    assert!(all.len() > some.len());
    assert_eq!(ball_option_label(BALL_ORIGINAL), "原創球種（下面選要哪一顆）");
    assert_eq!(ball_option_label(4), prospi::balls::ball_name(4));
}

#[test]
fn records_in_use_are_listed() {
    let r = |slot: u32, name: &str, official: bool| OrigRec {
        slot,
        name: name.to_string(),
        base: 4,
        official,
        raw: Vec::new(),
    };
    assert!(rec_label(0, &r(REC_UNUSED_SLOT, "", false)).is_none());
    assert_eq!(
        rec_label(3, &r(8, "魔球", true)).unwrap(),
        format!("　rec#3　slot8（方向2）　魔球　[官方]　基底 {}", prospi::balls::ball_name(4))
    );
    assert!(rec_label(3, &r(REC_UNUSED_SLOT, "魔球", false)).unwrap().contains("[自訂]"));
}

#[test]
fn experience_is_edited() {
    let (mut p, _) = game();
    let g = add_growth(&mut p);
    let o = edit_target(&mut p, g, 80);
    assert_eq!((o.ok, o.what.as_str()), (true, "成長經驗值 → 目標 80"));
    assert_eq!(growth_exp(&p, g)[0], 30000);
    let o = fill_experience(&mut p, g);
    assert_eq!((o.ok, o.what.as_str()), (true, "成長經驗值（推進一天後能力才會變）"));
    assert_eq!(growth_exp(&p, g), vec![GROWTH_EXP_MAX; 10]);
    p.hold(g + GROWTH_EXTRA_LO, &7u32.to_le_bytes(), false);
    let o = raise_everything(&mut p, g);
    assert_eq!((o.ok, o.what.as_str()), (true, "守位經驗值 8 格／球種經驗值 1 格"));
    let o = raise_everything(&mut p, g + 4);
    assert_eq!((o.ok, o.what.as_str()), (false, "守位經驗值 失敗／球種經驗值 0 格"));
    let o = apply_result(&mut p, OBJ);
    assert_eq!((o.ok, o.what.as_str()), (true, "立即套用（能力 99／球速 175／耐力 99）"));
    assert!(!edit_target(&mut p, g + 4, 80).ok);
    assert!(!fill_experience(&mut p, g + 4).ok);
}

#[test]
fn experience_is_shown() {
    assert_eq!(exp_label(0, 30000), "對右打擊　30000 → 80");
    assert_eq!(exp_label(7, 5), format!("{}　5", prospi::growth::GROWTH_EXP_NAMES[7]));
    assert_eq!(target_label(99), "＝ 經驗值 72600（回推 99）");
    assert_eq!(growth_label(0xD000B014), "結構 0xd000b014　＝　選手物件 +0xB014");
    let mut s = String::new();
    push_signed(&mut s, i32::MIN);
    push_signed(&mut s, 5);
    assert_eq!(s, "-21474836485");
}

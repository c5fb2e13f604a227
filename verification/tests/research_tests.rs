use prospi::library::LibEntry;
use prospi::offsets::{OFF_ABIL2, OFF_NAME, OFF_POS};
use prospi::player::Player;
use prospi::process::{Proc, MEM_COMMIT};
use prospi::research::{
    bits_text, compare, count_ones, diff_note, is_still_there, lowest_bit, parse_research_hex,
    shown_diffs, Research,
};
use prospi::show::{
    abil_dump, boost_status, grade_color, grade_of, items_label, items_patched, library_label,
    object_label, pos_color, roster_hint, roster_number, roster_size_label, row_hint, row_label,
    stranger_warning, switch_items, switched_status, team_label, team_title, zone_colors,
    zone_label, zone_next,
};

const OBJ: u64 = 0x5000_0000;

fn game() -> (Proc, Player) {
    let mut p = Proc::empty(1, 0);
    let mut b = vec![0u8; 0x2000];
    b[OFF_NAME..OFF_NAME + 6].copy_from_slice("大谷".as_bytes());
    p.hold(OBJ, &b, false);
    let pl = Player::load(&p, OBJ).unwrap();
    (p, pl)
}

#[test]
fn changes_are_found_and_reported() {
    let (mut p, pl) = game();
    let mut r = Research::new();
    assert_eq!(r.report(), None);
    assert_eq!(r.compare_after(Some(&pl), Some(&p)), "請先按「① 記錄修改前」");
    assert_eq!(r.capture_before(None, Some(&p)), "請先選一位選手");
    assert_eq!(r.capture_before(Some(&pl), None), "尚未附加遊戲行程");
    assert_eq!(
        r.capture_before(Some(&pl), Some(&p)),
        "能力研究：已記錄「大谷」修改前快照 0x2000 bytes（物件 0x50000000）"
    );
    p.hold(OBJ + 0x2D, &[0x10], false);
    p.hold(OBJ + 0x1ABC, &[0xC1], false);
    assert_eq!(r.compare_after(None, Some(&p)), "請先選一位選手");
    assert_eq!(
        r.compare_after(Some(&pl), Some(&p)),
        "能力研究：比較完成，共 2 個 byte 有變化（掃描 0x2000 bytes）"
    );
    assert_eq!(
        r.report().unwrap(),
        "player=大谷\naddr=0x50000000\nbytes=0x2000\ndiff_count=2\n\n\
         +0x002D  00 -> 10  XOR=10  bit4\n\
         +0x1ABC  00 -> C1  XOR=C1  3 bits\n"
    );
    assert_eq!(shown_diffs(&r.diffs, true).len(), 1);
    assert_eq!(shown_diffs(&r.diffs, false).len(), 2);
    let other = Player { name: "鈴木".to_string(), addr: OBJ + 8, ..Player::default() };
    assert_eq!(
        r.compare_after(Some(&other), Some(&p)),
        "能力研究：目前選中的是「鈴木」(0x50000008)，不是快照中的「大谷」(0x50000000)；請重新記錄修改前"
    );
    p.hold(OBJ + OFF_NAME as u64, "山田".as_bytes(), false);
    assert_eq!(
        r.compare_after(Some(&pl), Some(&p)),
        "比較失敗：選手位址已失效；請重新整理後重新做一輪實驗"
    );
    assert_eq!(
        r.capture_before(Some(&pl), Some(&p)),
        "記錄失敗：選手位址已失效，請先重新整理"
    );
    assert_eq!(r.clear(), "能力研究資料已清除");
    assert!(r.before.is_none() && r.diffs.is_empty());
}

#[test]
fn a_snapshot_that_cannot_be_read_is_said_so() {
    let (p, pl) = game();
    let mut r = Research::new();
    r.len = 0x4000;
    assert_eq!(r.capture_before(Some(&pl), Some(&p)), "能力研究：讀取修改前快照失敗");
    r.len = 0x1000;
    r.capture_before(Some(&pl), Some(&p));
    let mut q = Proc::empty(1, 0);
    let mut b = vec![0u8; 0x980];
    b[OFF_NAME..OFF_NAME + 6].copy_from_slice("大谷".as_bytes());
    q.hold(OBJ, &b, false);
    assert_eq!(r.compare_after(Some(&pl), Some(&q)), "能力研究：讀取修改後快照失敗");
}

#[test]
fn differences_are_listed_by_offset() {
    let d = compare(&vec![1, 2, 3, 4], &vec![1, 0, 3, 5, 9]);
    let v: Vec<(usize, u8, u8, u8)> = d.iter().map(|x| (x.off, x.before, x.after, x.xor)).collect();
    assert_eq!(v, vec![(1, 2, 0, 2), (3, 4, 5, 1)]);
    assert!(compare(&vec![7; 9], &vec![7; 9]).is_empty());
    assert_eq!((count_ones(0), count_ones(0xFF), lowest_bit(0x48)), (0, 8, 3));
    assert_eq!(bits_text(0x20), "bit5");
    assert_eq!(bits_text(0x91), "bits 0,4,7");
    assert_eq!(diff_note(OFF_ABIL2), "既有特殊能力區");
    assert_eq!(diff_note(OFF_ABIL2 + 14), "");
    assert_eq!(diff_note(OFF_POS + 1), "主要守位欄位");
}

#[test]
fn typed_numbers_are_hexadecimal() {
    assert_eq!(parse_research_hex("0x002D"), Some(0x2D));
    assert_eq!(parse_research_hex(" +0X2d "), Some(0x2D));
    assert_eq!(parse_research_hex("ff"), Some(255));
    for bad in ["", "0x", "xyz", "++1", "-1", "1 2", "10000000000000000"] {
        assert_eq!(parse_research_hex(bad), None, "{bad}");
    }
}

#[test]
fn single_bytes_are_loaded_and_written() {
    let (mut p, pl) = game();
    p.hold(OBJ + 0x2D, &[0xA5], false);
    let mut game = Some(p);
    let mut r = Research::new();
    assert_eq!(r.write_byte(Some(&pl), &mut game), "請先按「載入」確認目前 offset 與原始值");
    assert_eq!(r.load_byte(None, game.as_ref()), "請先選一位選手");
    assert_eq!(r.load_byte(Some(&pl), None), "尚未附加遊戲行程");
    assert_eq!(r.load_byte(Some(&pl), game.as_ref()), "任意 Offset：已載入「大谷」+0x002D = 0xA5");
    assert_eq!(r.value_text, "A5");
    assert_eq!(r.loaded, Some((OBJ, 0x2D, 0xA5)));
    assert_eq!(r.write_byte(None, &mut game), "請先選一位選手");
    assert_eq!(r.write_byte(Some(&pl), &mut None), "尚未附加遊戲行程");
    r.value_text = "1FF".to_string();
    assert_eq!(r.write_byte(Some(&pl), &mut game), "數值格式錯誤：請輸入 00..FF（十六進位）");
    r.value_text = "3c".to_string();
    r.offset_text = "0x2E".to_string();
    assert_eq!(r.write_byte(Some(&pl), &mut game), "Offset 已變更；請重新按「載入」再寫入");
    r.offset_text = "2d".to_string();
    assert_eq!(
        r.write_byte(Some(&pl), &mut game),
        "任意 Offset：+0x002D 已寫入 0xA5 → 0x3C（大谷）"
    );
    assert_eq!(game.as_ref().unwrap().u8_at(OBJ + 0x2D), 0x3C);
    assert_eq!(r.loaded, Some((OBJ, 0x2D, 0x3C)));
    let other = Player { addr: OBJ + 8, ..Player::default() };
    assert_eq!(
        r.write_byte(Some(&other), &mut game),
        "目前選手已切換；請重新按「載入」後再寫入"
    );
    assert_eq!(r.loaded, None);
    r.offset_text = "0x10000".to_string();
    assert_eq!(
        r.load_byte(Some(&pl), game.as_ref()),
        "Offset 格式錯誤：請輸入例如 0x002D（範圍 0x0000..0xFFFF）"
    );
    r.offset_text = "0xFFFF".to_string();
    assert_eq!(r.load_byte(Some(&pl), game.as_ref()), "任意 Offset：讀取 +0xFFFF 失敗");
}

#[test]
fn nothing_is_written_into_a_stranger() {
    let (mut p, pl) = game();
    let mut r = Research::new();
    r.load_byte(Some(&pl), Some(&p));
    assert!(is_still_there(&p, OBJ, &pl.name));
    p.hold(OBJ + OFF_NAME as u64, "山田".as_bytes(), false);
    assert!(!is_still_there(&p, OBJ, &pl.name));
    assert_eq!(r.load_byte(Some(&pl), Some(&p)), "載入失敗：選手位址已失效，請先重新整理");
    let mut game = Some(p);
    assert_eq!(r.write_byte(Some(&pl), &mut game), "寫入失敗：選手位址已失效，請先重新整理");
    assert!(game.unwrap().take_writes().is_empty());
}

#[test]
fn a_sealed_byte_is_not_written() {
    let (mut p, pl) = game();
    p.hold(OBJ + 0x2D, &[1], true);
    let mut r = Research::new();
    r.load_byte(Some(&pl), Some(&p));
    let mut game = Some(p);
    assert_eq!(r.write_byte(Some(&pl), &mut game), "任意 Offset：寫入 +0x002D 失敗");
    assert_eq!(r.loaded, Some((OBJ, 0x2D, 1)));
}

#[test]
fn colours_follow_the_game() {
    assert_eq!(grade_color("S"), (238, 238, 238));
    assert_eq!(grade_color("G"), (184, 162, 212));
    assert_eq!(grade_color("（無）"), (90, 90, 90));
    assert_eq!(pos_color(0), (235, 120, 120));
    assert_eq!(pos_color(1), (150, 160, 235));
    assert_eq!((pos_color(2), pos_color(5)), ((225, 190, 90), (225, 190, 90)));
    assert_eq!((pos_color(6), pos_color(9)), ((120, 210, 130), (160, 160, 160)));
    assert_eq!(zone_colors(1).0, (170, 38, 38));
    assert_eq!(zone_colors(-1).0, (38, 68, 176));
    assert_eq!(zone_colors(0), ((48, 48, 48), (190, 190, 190)));
}

#[test]
fn grades_have_their_ranges() {
    let at: Vec<&str> =
        [0, 19, 20, 29, 30, 39, 40, 54, 55, 69, 70, 79, 80, 89, 90, 255].iter().map(|&v| grade_of(v)).collect();
    assert_eq!(
        at,
        vec!["G", "G", "F", "F", "E", "E", "D", "D", "C", "C", "B", "B", "A", "A", "S", "S"]
    );
    assert_eq!((zone_next(2), zone_next(3), zone_next(-3)), (3, -3, -2));
    assert_eq!((zone_label(3), zone_label(-2), zone_label(0)), ("▲3".to_string(), "▼2".to_string(), "0".to_string()));
    assert_eq!(zone_label(-128), "▼128");
}

#[test]
fn rows_and_titles_are_labelled() {
    let pl = Player { name: "大谷".to_string(), addr: 0xAB0, pos: 1, ..Player::default() };
    assert_eq!(row_label(&pl, 1, false), "大谷");
    assert_eq!(row_label(&pl, 3, true), "★ 大谷　×3");
    assert_eq!(row_hint(&pl, false), "物件 0xab0");
    assert_eq!(row_hint(&pl, true), "物件 0xab0\n★ 這份帶成長經驗值結構 ＝ 明星選手的主角，編輯要用這份");
    assert_eq!((roster_number(5), roster_number(123)), ("#05".to_string(), "#123".to_string()));
    assert_eq!(
        roster_hint(5, &pl),
        format!("Roster index #05\n守備位置：{}\nPlayer Object 0xab0", prospi::fields::pos_name(1))
    );
    assert_eq!(roster_size_label(0), "Roster 原始順序：0 人（index 0..0）");
    assert_eq!(roster_size_label(20), "Roster 原始順序：20 人（index 0..19）");
    let t = "巨人".to_string();
    assert_eq!(team_label(Some(&t), 0, 28, "x"), "巨人　28 人");
    assert_eq!(team_label(None, 57, 3, "大谷"), "隊伍 57　3 人　（大谷…）");
    assert_eq!((team_title(Some(&t), 0), team_title(None, 57)), ("巨人".to_string(), "隊伍 57".to_string()));
    assert_eq!(object_label(Some(7), 0xDEAD), "Roster #07  |  Player Object: 0xDEAD");
    assert_eq!(object_label(None, 0xDEAD), "Player Object: 0xDEAD");
    assert_eq!(
        switched_status(0, 0xab),
        "已切到第 1 份副本（物件 0xab）—— 改完切換畫面看看這份有沒有生效"
    );
    assert!(stranger_warning("  ", "大谷").starts_with("⚠ 這個位址現在讀到「（空白）」，不是 大谷 —— "));
    assert!(stranger_warning("山田", "大谷").starts_with("⚠ 這個位址現在讀到「山田」，"));
    assert_eq!(abil_dump(&[0xA5; 14]), format!("現值 {}", ["a5"; 14].join(" ")));
}

#[test]
fn the_library_is_summed_up() {
    let e = |k: &str| LibEntry {
        name: String::new(),
        slot: 0,
        dir: 0,
        base: 0,
        kind: k.to_string(),
        holder: String::new(),
        raw: Vec::new(),
    };
    assert_eq!(library_label(&vec![e("自訂"), e("官方"), e("自訂"), e("")]), "球種庫 4 筆（官方 2／自訂 2）");
    assert_eq!(library_label(&Vec::new()), "球種庫 0 筆（官方 0／自訂 0）");
}

#[test]
fn the_item_switch_goes_to_and_fro() {
    let mut p = Proc::empty(1, 0);
    p.hold(0x7000, &[0xFE, 0xC0], true);
    p.note_region(0, 0x7000, 2, MEM_COMMIT, 0x20, 0);
    assert_eq!(items_patched(Some(&p), Some(0x7000)), Some(false));
    assert_eq!(items_patched(None, Some(0x7000)), None);
    assert_eq!(items_patched(Some(&p), None), None);
    assert_eq!(items_label(Some(true)), "明星選手：道具使用不消耗　✔ 生效中");
    assert_eq!(items_label(Some(false)), "明星選手：道具使用不消耗");
    assert_eq!(items_label(None), "明星選手：道具使用不消耗（找不到指令）");
    let mut game = Some(p);
    assert_eq!(switch_items(&mut game, Some(0x7000)), "道具使用不消耗 → 開：ok");
    assert_eq!(game.as_ref().unwrap().u16_at(0x7000), 0x9090);
    assert_eq!(switch_items(&mut game, Some(0x7000)), "道具使用不消耗 → 還原：ok");
    assert_eq!(game.as_ref().unwrap().u16_at(0x7000), 0xC0FE);
    assert_eq!(switch_items(&mut game, None), "道具使用不消耗 → 開：失敗");
    assert_eq!(switch_items(&mut None, Some(0x7000)), "道具使用不消耗 → 開：失敗");
    assert_eq!(boost_status(true), "已把練習效果提升設成 9999 天（畫面會顯示 99）");
    assert!(boost_status(false).starts_with("寫入失敗 —— "));
}

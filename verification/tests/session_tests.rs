use prospi::cheats::{apply_lock, proc_alive, Cheats, LockTarget};
use prospi::growth::{
    GROWTH_FROM_PLAYER, GROWTH_THRESHOLDS, GROWTH_THRESH_OFF, GROWTH_THRESH_OFF2,
};
use prospi::koshien::{
    KOSHIEN_ARRAY, KOSHIEN_COUNT, KOSHIEN_ITEMOBJ, KOSHIEN_PRACBUFF, KOSHIEN_STATIC,
    SHARED_ITEMS_CANDS, SHARED_ITEM_N,
};
use prospi::library::LibEntry;
use prospi::offsets::{
    OFF_BALL, OFF_ITEM, OFF_NAME, OFF_STATS, OFF_TEAM, PLAYER_READ, REC,
};
use prospi::player::{Ball, OrigRec, Player};
use prospi::process::Proc;
use prospi::roster::{
    copy_index, has_part, keep_reps, next_copy, previous_copy, rebuild_dups, shown_players,
    siblings, sort_shown, sorted_players, starts_position, team_group,
};
use prospi::session::{
    collected_status, load_all, may_edit, next_look, refresh_step, roster_moved, star_players, write_status,
    KoshienRosterView, Mode, Refresh, ScanMsg, Session,
};
use prospi::traits::Outcome;

const BASE: u64 = 0x1_4000_0000;
const L1: u64 = 0x3000_0000;
const MODE: u64 = 0x4000_0000;

fn object(name: &str, team: u8, stat: u8) -> Vec<u8> {
    let mut b = vec![0u8; PLAYER_READ];
    b[OFF_NAME..OFF_NAME + name.len()].copy_from_slice(name.as_bytes());
    b[OFF_TEAM] = team;
    for i in 0..8 {
        b[OFF_STATS + i] = stat;
    }
    b[OFF_ITEM] = 1;
    b
}

fn growth(p: &mut Proc, obj: u64) {
    let g = obj + GROWTH_FROM_PLAYER;
    for (i, v) in GROWTH_THRESHOLDS.iter().enumerate() {
        p.hold(g + GROWTH_THRESH_OFF + 4 * i as u64, &v.to_le_bytes(), false);
        p.hold(g + GROWTH_THRESH_OFF2 + 4 * i as u64, &v.to_le_bytes(), false);
    }
}

fn school(objs: &[u64]) -> Proc {
    let mut p = Proc::empty(77, BASE);
    p.hold(BASE + KOSHIEN_STATIC, &L1.to_le_bytes(), false);
    p.hold(L1 + 0x70, &MODE.to_le_bytes(), false);
    p.hold(MODE + KOSHIEN_COUNT, &(objs.len() as u32).to_le_bytes(), false);
    for (i, o) in objs.iter().enumerate() {
        p.hold(MODE + KOSHIEN_ARRAY + 8 * i as u64, &o.to_le_bytes(), false);
    }
    p
}

fn pl(name: &str, team: u8, addr: u64, pos: u8, speed: u16, stat: u8) -> Player {
    Player {
        name: name.to_string(),
        team,
        addr,
        pos,
        speed,
        stats: [stat; 8],
        ..Player::default()
    }
}

#[test]
fn a_running_game_starts_like_a_program() {
    let mut p = Proc::empty(1, BASE);
    assert!(!proc_alive(&p));
    p.hold(BASE, &[0x4D, 0x5A], false);
    assert!(proc_alive(&p));
    p.hold(BASE, &[0x4D, 0x5B], false);
    assert!(!proc_alive(&p));
}

#[test]
fn a_lock_holds_the_abilities() {
    let mut p = Proc::empty(1, BASE);
    p.hold(0x5000, &object("大谷", 0, 50), false);
    let mut target = Player::load(&p, 0x5000).unwrap();
    target.stats = [90; 8];
    target.speed = 160;
    target.defense = 33;
    target.abil = [7; 14];
    target.balls[0] = Ball { id: 4, power: 5, control: 6, move_: 7 };
    let t = LockTarget::of(&target);
    assert_eq!(t.balls.len(), 36);
    assert_eq!(&t.balls[..3], &[4, 47, 6]);
    let mut c = Cheats::new();
    assert!(!c.any_on());
    c.set_lock(true, &target);
    assert!(c.any_on());
    apply_lock(&mut p, &mut c);
    assert!(!c.lock_stale);
    let now = Player::load(&p, 0x5000).unwrap();
    assert_eq!((now.stats, now.speed, now.defense, now.abil), ([90; 8], 160, 33, [7; 14]));
    assert_eq!(p.u8_at(0x5000 + OFF_BALL as u64), 0);
    c.lock_balls = true;
    c.apply(&mut p);
    assert_eq!(p.read(0x5000 + OFF_BALL as u64, 3), Some(vec![4, 47, 6]));
    assert_eq!(c.ticks, 1);
}

#[test]
fn a_lock_spares_strangers() {
    let mut p = Proc::empty(1, BASE);
    p.hold(0x5000, &object("鈴木", 0, 50), false);
    let mut c = Cheats::new();
    c.set_lock(true, &pl("大谷", 0, 0x5000, 0, 150, 99));
    c.apply(&mut p);
    assert!(c.lock_stale);
    assert!(p.take_writes().is_empty());
    c.set_lock(false, &pl("大谷", 0, 0x5000, 0, 150, 99));
    assert!(!c.lock_stale && c.lock.is_none());
    c.apply(&mut p);
    assert!(p.take_writes().is_empty());
    assert_eq!(c.ticks, 2);
}

#[test]
fn a_lock_follows_its_own_player_only() {
    let mut c = Cheats::new();
    assert_eq!(c.follow(&pl("大谷", 0, 0x5000, 0, 150, 60)), None);
    assert_eq!(c.follow(&pl("鈴木", 0, 0x6000, 0, 150, 60)), Some("大谷".to_string()));
    assert_eq!(c.follow(&pl("大谷", 0, 0x5000, 0, 150, 80)), None);
    let t = c.lock.unwrap();
    assert_eq!((t.name.as_str(), t.stats[0]), ("大谷", 80));
}

#[test]
fn a_round_writes_what_is_switched_on() {
    let mut p = school(&[0x10000]);
    p.hold(0x10000, &object("佐藤", 0, 50), false);
    let items: u64 = 0x5000_0000;
    p.hold(MODE + KOSHIEN_ITEMOBJ, &items.to_le_bytes(), false);
    p.hold(items, &vec![0u8; 0x400], false);
    let shared = BASE + SHARED_ITEMS_CANDS[0];
    p.hold(shared, &vec![1u8, 0, 0, 0].repeat(SHARED_ITEM_N), false);
    let mut c = Cheats::new();
    c.apply(&mut p);
    assert!(p.take_writes().is_empty());
    c.koshien_items = true;
    c.koshien_limit = true;
    c.koshien_prac = true;
    c.shared_items = true;
    c.apply(&mut p);
    assert_eq!(p.u32_at(items + 0x0C), 99);
    assert_eq!(p.u16_at(0x10000 + OFF_ITEM as u64), 0);
    assert_eq!(p.u16_at(items + KOSHIEN_PRACBUFF), 9999);
    assert_eq!(p.u32_at(shared), 99);
    let sent: Vec<u64> = p.take_writes().iter().map(|w| w.addr).collect();
    assert_eq!(sent, vec![items + 0x0C, 0x10000 + OFF_ITEM as u64, items + KOSHIEN_PRACBUFF, shared]);
}

#[test]
fn the_list_is_filtered() {
    assert!(has_part("", ""));
    assert!(has_part("谷", "大谷"));
    assert!(!has_part("大谷", "谷"));
    assert!(has_part("bc", "abcd"));
    assert!(!has_part("ac", "abcd"));
    let list = vec![
        pl("Ohtani", 0, 1, 0, 160, 0),
        pl("SUZUKI", 0, 2, 8, 120, 90),
        pl("大谷", 0, 3, 0, 150, 0),
    ];
    assert_eq!(shown_players(&list, "  ohT ", false), vec![0]);
    assert_eq!(shown_players(&list, "uzu", false), vec![1]);
    assert_eq!(shown_players(&list, "", false), vec![0, 1, 2]);
    assert_eq!(shown_players(&list, "", true), vec![0, 2]);
    assert_eq!(shown_players(&list, "無", false), Vec::<usize>::new());
}

#[test]
fn the_list_is_sorted_by_position_and_strength() {
    let list = vec![
        pl("a", 0, 1, 8, 120, 50),
        pl("b", 0, 2, 0, 150, 10),
        pl("c", 0, 3, 8, 120, 70),
        pl("d", 0, 4, 0, 160, 10),
        pl("e", 0, 5, 8, 200, 50),
    ];
    assert_eq!(sorted_players(&list, "", false), vec![3, 1, 2, 0, 4]);
    let mut v = vec![4, 0];
    sort_shown(&list, &mut v);
    assert_eq!(v, vec![4, 0]);
    let all = vec![3, 1, 2, 0, 4];
    let lines: Vec<bool> = (0..5).map(|k| starts_position(&list, &all, k)).collect();
    assert_eq!(lines, vec![false, false, true, false, false]);
}

#[test]
fn copies_are_told_apart() {
    let mut p = Proc::empty(1, BASE);
    growth(&mut p, 0x90000);
    growth(&mut p, 0xA0000);
    let list = vec![
        pl("大谷", 1, 0x90000, 0, 160, 0),
        pl("大谷", 1, 0x50000, 0, 160, 0),
        pl("大谷", 2, 0x10000, 0, 160, 0),
        pl("鈴木", 1, 0x60000, 8, 120, 0),
        pl("鈴木", 1, 0x20000, 8, 120, 0),
        pl("佐藤", 1, 0xA0000, 8, 120, 0),
    ];
    let d = rebuild_dups(&list, Some(&p));
    assert_eq!(d.rep, vec![0, 0, 2, 4, 4, 5]);
    assert_eq!(d.count, vec![2, 2, 1, 2, 2, 1]);
    assert_eq!(d.owner, vec![true, false, false, false, false, false]);
    assert_eq!(keep_reps(&d, &vec![1, 0, 2, 3, 4, 5]), vec![0, 2, 4, 5]);
    let d = rebuild_dups(&list, None);
    assert_eq!(d.rep, vec![1, 1, 2, 4, 4, 5]);
    assert_eq!(team_group(&list, &vec![5, 2, 0], 1), vec![5, 0]);
    let s = siblings(&list, &list[0]);
    assert_eq!(s, vec![1, 0]);
    let k = copy_index(&s, Some(0));
    assert_eq!(k, 1);
    assert_eq!((next_copy(&s, k), previous_copy(&s, k)), (1, 1));
    assert_eq!((copy_index(&s, None), copy_index(&s, Some(3))), (0, 0));
}

#[test]
fn the_roster_is_looked_for_and_checked_at_its_times() {
    let step = |m, listed, a, b| refresh_step(m, listed, a, b);
    assert_eq!(step(Mode::Scan, false, 9999, 9999), Refresh::Rest);
    assert_eq!(step(Mode::Koshien, false, 999, 9999), Refresh::RetryLater);
    assert_eq!(step(Mode::Koshien, false, 1000, 0), Refresh::Retry);
    assert_eq!(step(Mode::Koshien, true, 9999, 4999), Refresh::CheckLater);
    assert_eq!(step(Mode::Koshien, true, 0, 5000), Refresh::Check);
    assert_eq!(next_look(Refresh::Rest, true), None);
    assert_eq!(next_look(Refresh::Retry, true), Some(1000));
    assert_eq!(next_look(Refresh::Check, true), Some(5000));
    assert_eq!(next_look(Refresh::Check, false), Some(1000));
    assert_eq!(next_look(Refresh::CheckLater, true), Some(5000));
    assert!(KoshienRosterView::Sorted != KoshienRosterView::Raw);
}

#[test]
fn a_session_lists_the_roster() {
    let mut p = school(&[0x10000, 0x20000, 0x30000]);
    p.hold(0x10000, &object("佐藤", 0, 50), false);
    p.hold(0x30000, &object("鈴木", 0, 60), false);
    assert_eq!(load_all(&p, &vec![0x30000, 0x20000]).len(), 1);
    let mut s = Session::new();
    assert!(s.reload_list(&p).is_none());
    let names: Vec<&str> = s.list.iter().map(|x| x.name.as_str()).collect();
    assert_eq!(names, vec!["佐藤", "鈴木"]);
    assert_eq!(s.status, "");
    s.note_found();
    assert_eq!(s.status, "已自動取得榮冠部員名單（2 人）");
    s.note_moved();
    assert_eq!(s.status, "偵測到榮冠名單更新，已自動重新載入（2 人）");
    assert!(roster_moved(&p, &s.list), "one object could not be read");
    p.hold(0x20000, &object("田中", 0, 50), false);
    s.list_roster(&p);
    assert!(!roster_moved(&p, &s.list));
    p.hold(0x10000, &object("高橋", 0, 50), false);
    assert!(roster_moved(&p, &s.list), "another name");
    assert!(!roster_moved(&Proc::empty(1, BASE), &s.list), "no roster for the moment");
    s.select(1, Some(&p));
    assert_eq!(s.cur.as_ref().unwrap().name, "田中");
    s.note_pos(4);
    assert_eq!(s.list[1].pos, 4);
    s.reload_list(&Proc::empty(1, BASE));
    assert!(s.list.is_empty() && s.sel.is_none() && s.cur.is_none());
    assert_eq!(s.status, "讀不到部員名單 —— 現在不在栄冠(高中)模式? 可改用「明星選手(掃描)」");
    s.note_found();
    assert!(s.status.starts_with("讀不到"));
}

#[test]
fn a_session_follows_a_scan() {
    let p = Proc::empty(1, BASE);
    let mut s = Session::new();
    s.mode = Mode::Star;
    assert_eq!(s.reload_list(&p), Some(true));
    assert_eq!((s.scanning, s.scan_prog), (true, (0, 1)));
    assert_eq!(s.status, "找主角中（約 5 秒）…");
    assert_eq!(s.reload_list(&p), None);
    assert!(!s.start_scan(false));
    s.scan_news(ScanMsg::Progress(3, 0), Some(&p));
    assert_eq!(s.scan_prog, (3, 1));
    s.scan_news(ScanMsg::Done(vec![pl("大谷", 1, 1, 0, 1, 1), pl("大谷", 1, 2, 0, 1, 1)]), Some(&p));
    assert_eq!(s.status, "掃描完成，找到 2 位選手");
    assert_eq!((s.scanning, s.list.len(), s.dups.count.clone()), (false, 2, vec![2, 2]));
    s.mode = Mode::Scan;
    assert_eq!(s.reload_list(&p), Some(false));
    assert_eq!(s.status, "掃描中（約 100 秒）…");
    s.scan_news(ScanMsg::Failed("壞了".to_string()), None);
    assert_eq!((s.scanning, s.status.as_str(), s.list.len()), (false, "壞了", 2));
}

#[test]
fn a_session_knows_whether_the_game_is_there() {
    let mut s = Session::new();
    assert!(s.attached(None, Ok(12)));
    assert_eq!(s.status, "已附加 pid 12");
    assert!(s.attached(Some(12), Ok(34)));
    assert_eq!(s.status, "遊戲已重開（pid 12 → 34），已自動重新附加");
    s.list = vec![pl("大谷", 1, 1, 0, 1, 1)];
    s.sel = Some(0);
    assert!(!s.attached(Some(34), Err("不在".to_string())));
    assert_eq!((s.err.as_str(), s.list.len(), s.sel), ("不在", 0, None));
    assert!(s.attached(None, Ok(5)));
    assert_eq!(s.err, "");
}

#[test]
fn a_session_reports_edits() {
    assert_eq!(write_status(true, "球速"), "已寫入 球速　※切到別的選手再切回來畫面才會重畫");
    assert_eq!(write_status(false, "球速"), "✗ 寫入失敗：球速（位址可能已失效，按「重新整理」）");
    let mut p = Proc::empty(1, BASE);
    p.hold(0x5000, &object("大谷", 0, 50), false);
    growth(&mut p, 0x5000);
    let mut s = Session::new();
    s.list = vec![pl("大谷", 0, 0x5000, 0, 0, 0)];
    s.select(0, Some(&p));
    assert_eq!(s.growth_base, Some(0x5000 + GROWTH_FROM_PLAYER));
    p.hold(0x5000 + OFF_STATS as u64, &[77], false);
    s.note_edit(&Outcome { ok: true, what: "能力".to_string(), reload: false }, Some(&p));
    assert_eq!(s.cur.as_ref().unwrap().stats[0], 50);
    s.note_edit(&Outcome { ok: false, what: "能力".to_string(), reload: true }, Some(&p));
    assert_eq!(s.cur.as_ref().unwrap().stats[0], 77);
    assert!(s.status.starts_with("✗ 寫入失敗：能力"));
    s.select(5, Some(&p));
    assert_eq!(s.sel, Some(5));
    assert_eq!(s.cur.as_ref().unwrap().stats[0], 77);
}

#[test]
fn a_session_collects_pitches() {
    let rec = |n: &str| OrigRec {
        slot: 1,
        name: n.to_string(),
        base: 4,
        official: false,
        raw: vec![0; REC],
    };
    let mut s = Session::new();
    let mut a = pl("甲", 0, 1, 0, 0, 0);
    a.recs = vec![rec("x"), rec("y")];
    let mut b = pl("乙", 0, 2, 0, 0, 0);
    b.recs = vec![rec("y"), rec("z")];
    s.list = vec![a];
    s.cur = Some(b);
    let mut lib: Vec<LibEntry> = Vec::new();
    assert_eq!(s.collect_lib(&mut lib), 3);
    assert_eq!(s.collect_lib(&mut lib), 0);
    assert_eq!(collected_status(Mode::Scan, 3, 9, "p"), "✓ 球種庫新增 3 筆，目前共 9 筆 → p");
    assert_eq!(
        collected_status(Mode::Star, 0, 9, "p"),
        "球種庫沒有新增（這些球種都已經在庫裡了）—— 目前共 9 筆　※ 切到「明星選手(全掃)」再按一次可以蒐集到更多"
    );
}

#[test]
fn star_players_stand_before_their_growth_structures() {
    let mut p = Proc::empty(1, BASE);
    p.hold(0x10000, &object("大谷", 0, 50), false);
    p.hold(0x20000, &object("大谷", 0, 50), false);
    p.hold(0x30000, &object("大谷", 0, 51), false);
    p.hold(0x40000, &object("123", 0, 51), false);
    let g = |a: u64| a + GROWTH_FROM_PLAYER;
    let v = star_players(
        &p,
        &vec![5, g(0x10000), g(0x20000), g(0x90000), g(0x40000), g(0x30000), g(0x10000)],
    );
    let at: Vec<u64> = v.iter().map(|x| x.addr).collect();
    assert_eq!(at, vec![0x10000, 0x30000, 0x10000]);
}

#[test]
fn only_the_player_at_hand_is_edited() {
    let mut p = Proc::empty(1, BASE);
    p.hold(0x5000, &object("佐藤", 1, 50), false);
    let cur = Player::load(&p, 0x5000).unwrap();
    assert!(may_edit(Some(&p), &cur));
    assert!(!may_edit(None, &cur));
    assert!(!may_edit(Some(&Proc::empty(1, BASE)), &cur));
    p.hold(0x5000, &object("鈴木", 1, 50), false);
    assert!(!may_edit(Some(&p), &cur));
    p.hold(0x5000, &object("12", 1, 50), false);
    let cur = Player { name: "12".to_string(), ..cur };
    assert!(!may_edit(Some(&p), &cur));
}

use prospi::koshien::{
    check_roster, clear_koshien_use_limits, clear_star_item_uses, koshien_item_array,
    koshien_item_obj, koshien_modeobj, koshien_roster, plausible_heap, recruit_available_regions,
    recruit_candidates, set_koshien_all_mood, set_koshien_items, set_koshien_pracbuff,
    set_shared_items, shared_items_addr, star_use_array, validated_koshien_roster, KOSHIEN_ARRAY,
    KOSHIEN_COUNT, KOSHIEN_ITEMOBJ, KOSHIEN_ITEM_N, KOSHIEN_PRACBUFF, KOSHIEN_STATIC,
    RECRUIT_PLAYER_FROM_CANDIDATE, RECRUIT_REGION_BASE, RECRUIT_REGION_STRIDE, SHARED_ITEMS_CANDS,
    SHARED_ITEM_N, STAR_USE_N, STAR_USE_PTR_CANDS,
};
use prospi::offsets::{OFF_BOOK, OFF_ITEM, OFF_MOOD, OFF_NAME, PLAYER_READ};
use prospi::process::Proc;
use prospi::recruit::{
    cave_offered, recruit_rate_100_enabled, reset_recruit_rate_patch, set_recruit_rate_100,
    set_talent_rate, talent_rate, Cave, RateAction, RECRUIT_RATE_ORIG, RECRUIT_RATE_PATCH_RVA,
    TALENT_RATE_PATCH_RVA,
};

const BASE: u64 = 0x1_4000_0000;
const L1: u64 = 0x3000_0000;
const MODE: u64 = 0x4000_0000;

fn ptr(p: &mut Proc, a: u64, v: u64) {
    p.hold(a, &v.to_le_bytes(), false);
}

fn player(p: &mut Proc, obj: u64, name: &str) {
    let mut b = vec![0u8; PLAYER_READ];
    b[OFF_NAME..OFF_NAME + name.len()].copy_from_slice(name.as_bytes());
    b[OFF_ITEM] = 1;
    b[OFF_BOOK] = 5;
    p.hold(obj, &b, false);
}

fn mode() -> Proc {
    let mut p = Proc::empty(1, BASE);
    ptr(&mut p, BASE + KOSHIEN_STATIC, L1);
    ptr(&mut p, L1 + 0x70, MODE);
    p
}

fn school(objs: &[u64]) -> Proc {
    let mut p = mode();
    p.hold(MODE + KOSHIEN_COUNT, &(objs.len() as u32).to_le_bytes(), false);
    for (i, o) in objs.iter().enumerate() {
        ptr(&mut p, MODE + KOSHIEN_ARRAY + 8 * i as u64, *o);
    }
    p
}

#[test]
fn the_mode_object_is_found_by_its_pointers() {
    assert_eq!(koshien_modeobj(&mode()), MODE);
    assert_eq!(koshien_modeobj(&Proc::empty(1, BASE)), 0);
    assert_eq!(koshien_modeobj(&Proc::empty(1, 0)), 0);
    assert!(plausible_heap(0x1000_0000));
    assert!(!plausible_heap(0x1000_0004));
    assert!(!plausible_heap(0x2_0000_0000));
    assert!(!plausible_heap(0x0FFF_FFF8));
}

#[test]
fn the_roster_leaves_empty_entries_out() {
    let p = school(&[0x5000, 0, 0x6000]);
    assert_eq!(koshien_roster(&p), vec![0x5000, 0x6000]);
    assert!(koshien_roster(&Proc::empty(1, BASE)).is_empty());
    let mut p = school(&[0x5000]);
    p.hold(MODE + KOSHIEN_COUNT, &513u32.to_le_bytes(), false);
    assert!(koshien_roster(&p).is_empty());
}

#[test]
fn a_roster_is_checked_before_it_is_used() {
    let mut p = school(&[0x10000, 0x20000]);
    player(&mut p, 0x10000, "佐藤");
    player(&mut p, 0x20000, "鈴木");
    assert_eq!(validated_koshien_roster(&p), Ok(vec![0x10000, 0x20000]));
    let none = Proc::empty(1, BASE);
    assert_eq!(
        validated_koshien_roster(&none),
        Err("榮冠球員名單尚未就緒（目前不在榮冠模式，或固定 ModeObj 尚未有效）".to_string())
    );
    assert_eq!(check_roster(&p, vec![1; 129]), Err("榮冠球員人數異常：129".to_string()));
    assert_eq!(
        check_roster(&p, vec![0x10000, 0]),
        Err("榮冠 roster #1 的 Player Object 為 0".to_string())
    );
    assert_eq!(
        check_roster(&p, vec![0x10000, 0x20000, 0x10000]),
        Err("榮冠 roster #2 出現重複 Player Object 0x10000".to_string())
    );
    match check_roster(&p, vec![0x10000, 0x30000]) {
        Err(e) => assert!(e.starts_with("榮冠 roster #1"), "{e}"),
        Ok(_) => panic!(),
    }
}

#[test]
fn an_empty_entry_makes_the_roster_unsound() {
    let mut p = school(&[0x10000, 0, 0x20000]);
    player(&mut p, 0x10000, "佐藤");
    player(&mut p, 0x20000, "鈴木");
    assert_eq!(koshien_roster(&p), vec![0x10000, 0x20000]);
    assert_eq!(
        validated_koshien_roster(&p),
        Err("榮冠 roster #1 的 Player Object 為 0".to_string())
    );
    assert_eq!(clear_koshien_use_limits(&mut p), 0);
    assert_eq!(set_koshien_all_mood(&mut p, 1), 0);
    assert!(p.take_writes().is_empty());

    let mut many = vec![0u64; 200];
    many[0] = 0x10000;
    let mut p = school(&many);
    player(&mut p, 0x10000, "佐藤");
    assert_eq!(validated_koshien_roster(&p), Err("榮冠球員人數異常：200".to_string()));
}

#[test]
fn use_limits_are_cleared_for_everyone() {
    let mut p = school(&[0x10000, 0x20000]);
    player(&mut p, 0x10000, "佐藤");
    player(&mut p, 0x20000, "鈴木");
    assert_eq!(clear_koshien_use_limits(&mut p), 2);
    for o in [0x10000u64, 0x20000] {
        assert_eq!(p.u16_at(o + OFF_ITEM as u64), 0);
    }
    assert_eq!(set_koshien_all_mood(&mut p, 3), 2);
    assert_eq!(p.u8_at(0x20000 + OFF_MOOD as u64), 3);
    assert_eq!(set_koshien_all_mood(&mut p, 4), 0);
    assert_eq!(p.u8_at(0x20000 + OFF_MOOD as u64), 3);
}

#[test]
fn an_unsound_roster_is_left_alone() {
    let mut p = school(&[0x10000, 0x20000]);
    player(&mut p, 0x10000, "佐藤");
    player(&mut p, 0x20000, "1234");
    assert_eq!(clear_koshien_use_limits(&mut p), 0);
    assert_eq!(set_koshien_all_mood(&mut p, 0), 0);
    assert!(p.take_writes().is_empty());
}

#[test]
fn items_hang_on_the_mode_object() {
    let mut p = mode();
    assert_eq!(koshien_item_obj(&p), None);
    assert!(!set_koshien_items(&mut p, 99));
    assert!(!set_koshien_pracbuff(&mut p, 9999));
    let items: u64 = 0x5000_0000;
    ptr(&mut p, MODE + KOSHIEN_ITEMOBJ, items);
    p.hold(items, &vec![0u8; 0x400], false);
    assert_eq!(koshien_item_obj(&p), Some(items));
    assert_eq!(koshien_item_array(&p), Some(items + 0x0C));
    assert!(set_koshien_items(&mut p, 99));
    assert_eq!(p.u32_at(items + 0x0C), 99);
    assert_eq!(p.u32_at(items + 0x0C + 4 * (KOSHIEN_ITEM_N as u64 - 1)), 99);
    assert_eq!(p.u32_at(items + 0x0C + 4 * KOSHIEN_ITEM_N as u64), 0);
    assert!(set_koshien_pracbuff(&mut p, 9999));
    assert_eq!(p.u16_at(items + KOSHIEN_PRACBUFF), 9999);
    assert!(set_koshien_pracbuff(&mut p, -1));
    assert_eq!(p.u16_at(items + KOSHIEN_PRACBUFF), 0xFFFF);
}

#[test]
fn shared_items_are_where_the_numbers_are_right() {
    let mut p = Proc::empty(1, BASE);
    assert_eq!(shared_items_addr(&p), None);
    let (a, b) = (BASE + SHARED_ITEMS_CANDS[0], BASE + SHARED_ITEMS_CANDS[1]);
    p.hold(a, &vec![0u8; 4 * SHARED_ITEM_N], false);
    assert_eq!(shared_items_addr(&p), None, "all zero");
    p.hold(b, &vec![0u8; 4 * SHARED_ITEM_N], false);
    p.hold(b + 8, &999u32.to_le_bytes(), false);
    assert_eq!(shared_items_addr(&p), Some(b));
    p.hold(a, &5u32.to_le_bytes(), false);
    assert_eq!(shared_items_addr(&p), Some(a));
    p.hold(a + 4, &1000u32.to_le_bytes(), false);
    assert_eq!(shared_items_addr(&p), Some(b));
    assert!(set_shared_items(&mut p, 99));
    assert_eq!(p.u32_at(b + 4 * (SHARED_ITEM_N as u64 - 1)), 99);
    assert_eq!(p.u32_at(a), 5);
}

#[test]
fn only_the_counters_of_items_are_cleared() {
    let mut p = Proc::empty(1, BASE);
    assert!(!clear_star_item_uses(&mut p));
    let arr: u64 = 0x2000_0000;
    ptr(&mut p, BASE + STAR_USE_PTR_CANDS[2], arr);
    p.hold(arr, &vec![7u8; STAR_USE_N], false);
    assert_eq!(star_use_array(&p), Some(arr));
    assert!(clear_star_item_uses(&mut p));
    assert_eq!(p.read(arr, 12), Some(vec![7, 7, 7, 0, 0, 0, 0, 0, 0, 0, 7, 7]));
    ptr(&mut p, BASE + STAR_USE_PTR_CANDS[0], 0x2000_0001);
    assert_eq!(star_use_array(&p), Some(arr));
}

#[test]
fn recruits_without_a_name_do_not_count() {
    let mut p = mode();
    let at = |r: u64, i: u64| MODE + RECRUIT_REGION_BASE + r * RECRUIT_REGION_STRIDE + (i + 1) * 8;
    for i in 0..10 {
        ptr(&mut p, at(3, i), 0);
    }
    ptr(&mut p, at(3, 2), 0x100000);
    ptr(&mut p, at(3, 5), 0x200000);
    ptr(&mut p, at(3, 7), 0x300000);
    player(&mut p, 0x100000 + RECRUIT_PLAYER_FROM_CANDIDATE, "高橋");
    player(&mut p, 0x200000 + RECRUIT_PLAYER_FROM_CANDIDATE, "未初期化");
    player(&mut p, 0x300000 + RECRUIT_PLAYER_FROM_CANDIDATE, "田中\0将大");
    assert_eq!(
        recruit_candidates(&p, 3),
        vec![
            (2, 0x100000, 0x100000 + RECRUIT_PLAYER_FROM_CANDIDATE),
            (7, 0x300000, 0x300000 + RECRUIT_PLAYER_FROM_CANDIDATE),
        ]
    );
    assert!(recruit_candidates(&p, 4).is_empty());
    assert!(recruit_candidates(&p, 49).is_empty());
    assert_eq!(recruit_available_regions(&p), vec![3]);
}

#[test]
fn the_talent_rate_is_one_byte_of_code() {
    let mut p = Proc::empty(1, BASE);
    let a = BASE + TALENT_RATE_PATCH_RVA;
    assert_eq!(talent_rate(&p), None);
    assert_eq!(set_talent_rate(&mut p, 5), Err("讀不到天才機率 patch 位址".to_string()));
    p.hold(a, &[0x83, 0xF8, 1], true);
    assert_eq!(talent_rate(&p), Some(1));
    assert_eq!(set_talent_rate(&mut p, 101), Err("天才出現機率必須介於 0～100".to_string()));
    assert_eq!(set_talent_rate(&mut p, 100), Ok(()));
    assert_eq!(talent_rate(&p), Some(100));
    p.hold(a + 2, &[200], true);
    assert_eq!(talent_rate(&p), None);
    assert_eq!(set_talent_rate(&mut p, 5), Err("天才機率目前值異常：200".to_string()));
    p.hold(a, &[0x90], true);
    assert_eq!(
        set_talent_rate(&mut p, 5),
        Err("天才機率 patch 位址驗證失敗：exe+0x5E2BF37 不是預期的 cmp eax,imm8".to_string())
    );
}

#[test]
fn the_recruiting_patch_jumps_to_a_cave_and_back() {
    let mut p = Proc::empty(7, BASE);
    let site = BASE + RECRUIT_RATE_PATCH_RVA;
    p.hold(site, &RECRUIT_RATE_ORIG, true);
    let mut c = Cave { record: None, tries: 0 };
    let first = match set_recruit_rate_100(&mut c, &mut p, true) {
        RateAction::Ask(a) => a,
        _ => panic!(),
    };
    assert_eq!(first, BASE + 0x0100_0000);
    let second = match cave_offered(&mut c, &mut p, 0) {
        RateAction::Ask(a) => a,
        _ => panic!(),
    };
    assert_eq!(second, BASE - 0x0100_0000);
    p.hold(second, &[0u8; 0x20], false);
    assert!(matches!(cave_offered(&mut c, &mut p, second), RateAction::Done));
    assert!(recruit_rate_100_enabled(&c, &p));
    let jump = p.read(site, 5).unwrap();
    assert_eq!(jump[0], 0xE9);
    let d = i32::from_le_bytes([jump[1], jump[2], jump[3], jump[4]]) as i64;
    assert_eq!((site as i64 + 5 + d) as u64, second);
    let code = p.read(second, 15).unwrap();
    assert_eq!(&code[..10], &[0xBE, 0x64, 0, 0, 0, 0xBF, 0x63, 0, 0, 0]);
    let back = i32::from_le_bytes([code[11], code[12], code[13], code[14]]) as i64;
    assert_eq!((second as i64 + 15 + back) as u64, site + 5);
    assert!(matches!(set_recruit_rate_100(&mut c, &mut p, true), RateAction::Done));
    match set_recruit_rate_100(&mut c, &mut p, false) {
        RateAction::ReleaseDone(a) => assert_eq!(a, second),
        _ => panic!(),
    }
    assert_eq!(p.read(site, 5), Some(RECRUIT_RATE_ORIG.to_vec()));
    assert!(!recruit_rate_100_enabled(&c, &p));
    assert!(matches!(reset_recruit_rate_patch(&mut c, &mut p), Ok(None)));
}

#[test]
fn the_recruiting_patch_says_why_it_failed() {
    let mut p = Proc::empty(7, BASE);
    let site = BASE + RECRUIT_RATE_PATCH_RVA;
    let mut c = Cave { record: None, tries: 0 };
    match set_recruit_rate_100(&mut c, &mut p, true) {
        RateAction::Fail(e) => assert_eq!(e, "讀不到招募機率 patch 位址"),
        _ => panic!(),
    }
    p.hold(site, &[1, 2, 3, 4, 5], true);
    match set_recruit_rate_100(&mut c, &mut p, true) {
        RateAction::Fail(e) => {
            assert_eq!(e, "招募機率 patch 位址驗證失敗：exe+0x65C6542 不是預期指令")
        }
        _ => panic!(),
    }
    p.hold(site, &RECRUIT_RATE_ORIG, true);
    assert!(matches!(set_recruit_rate_100(&mut c, &mut p, true), RateAction::Ask(_)));
    let mut asked = 1;
    loop {
        match cave_offered(&mut c, &mut p, 0) {
            RateAction::Ask(_) => asked += 1,
            RateAction::Fail(e) => {
                assert_eq!(e, "無法在招募機率程式碼附近配置 code cave");
                break;
            }
            _ => panic!(),
        }
    }
    assert_eq!(asked, 0x70 * 2);
    // Too far to jump to.
    match cave_offered(&mut c, &mut p, BASE + 0x2_0000_0000) {
        RateAction::Release(a) => assert_eq!(a, BASE + 0x2_0000_0000),
        _ => panic!(),
    }
    // A page that does not take the code.
    match cave_offered(&mut c, &mut p, BASE + 0x0100_0000) {
        RateAction::ReleaseFail(a, _) => assert_eq!(a, BASE + 0x0100_0000),
        _ => panic!(),
    }
    let mut far = Cave { record: Some((9, 0x1000)), tries: 0 };
    assert!(!recruit_rate_100_enabled(&far, &p));
    assert!(matches!(set_recruit_rate_100(&mut far, &mut p, false), RateAction::Done));
    let mut q = Proc::empty(9, BASE);
    match reset_recruit_rate_patch(&mut far, &mut q) {
        Err(e) => assert_eq!(e, "無法還原招募機率原始指令"),
        Ok(_) => panic!(),
    }
}

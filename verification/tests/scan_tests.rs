use prospi::balls::BALL_EMPTY;
use prospi::offsets::{
    N_BALL, OFF_BALL, OFF_NAME, OFF_PACK, OFF_STATS, PLAYER_READ,
};
use prospi::pattern::{
    find_code, find_code_all, hits, item_use_patched, items_patched_at, parse_pattern,
    patch_items_at, set_item_use_patch, ITEM_INC_AOB, SPEED_CAP_AOB,
};
use prospi::player::Player;
use prospi::process::{Proc, MEM_COMMIT};
use prospi::scan::{
    ball_sig_ok, drop_inner_copies, finish_scan, offer_player, player_candidates, scan_players,
    scan_players_in, scan_reports, sort_by_name, Scan,
};
use prospi::search::Search;
use prospi::sweep::{pieces, CHUNK};

fn object(name: &str, stat: u8) -> Vec<u8> {
    let mut b = vec![0u8; PLAYER_READ];
    for i in 0..8 {
        b[OFF_STATS + i] = stat;
    }
    let pack: u16 = (150 - 80) | (60 << 7);
    b[OFF_PACK..OFF_PACK + 2].copy_from_slice(&pack.to_le_bytes());
    for k in 0..N_BALL {
        b[OFF_BALL + k * 3] = BALL_EMPTY;
    }
    b[OFF_BALL] = 4;
    b[OFF_BALL + 1] = 5 * 8 + 4;
    b[OFF_BALL + 2] = 4;
    b[OFF_BALL + 15] = 0;
    b[OFF_BALL + 16] = 5 * 8;
    b[OFF_BALL + 17] = 4;
    b[OFF_NAME..OFF_NAME + name.len()].copy_from_slice(name.as_bytes());
    b
}

#[test]
fn regions_are_cut_into_overlapping_pieces() {
    let p = pieces(&[(0x1000, 0x500), (0x1_0000_0000, 2 * CHUNK + 5)], 16);
    let v: Vec<(u64, u64, u64)> = p.iter().map(|x| (x.addr, x.len, x.step)).collect();
    assert_eq!(
        v,
        vec![
            (0x1000, 0x500, 0x500),
            (0x1_0000_0000, CHUNK + 16, CHUNK),
            (0x1_0000_0000 + CHUNK, CHUNK + 5, CHUNK),
            (0x1_0000_0000 + 2 * CHUNK, 5, 5),
        ]
    );
    assert!(pieces(&[(0x1000, 0)], 16).is_empty());
}

#[test]
fn pitch_arrays_are_recognised() {
    let b = object("大谷", 50);
    assert!(ball_sig_ok(&b[OFF_BALL..OFF_BALL + 36]));
    assert!(!ball_sig_ok(&[0xFF; 36]));
    assert!(!ball_sig_ok(&[0; 36]));
}

#[test]
fn player_objects_are_found_in_memory() {
    let mut p = Proc::empty(1, 0);
    let mut mem = vec![0xEEu8; 0x8000];
    mem[0x100..0x100 + PLAYER_READ].copy_from_slice(&object("鈴木\0一朗", 60));
    mem[0x3000..0x3000 + PLAYER_READ].copy_from_slice(&object("大谷\0翔平", 70));
    p.hold(0x10_0000, &mem, false);
    let found = scan_players_in(&p, &[(0x10_0000, 0x8000)]);
    let names: Vec<&str> = found.iter().map(|x| x.name.as_str()).collect();
    assert_eq!(names, vec!["大谷 翔平", "鈴木 一朗"]);
    assert_eq!(found[0].addr, 0x10_3000);
    assert_eq!(found[1].addr, 0x10_0100);
    let c = player_candidates(&mem, 0x10_0000);
    assert!(c.contains(&0x10_0100) && c.contains(&0x10_3000));
    p.note_region(0, 0x10_0000, 0x8000, MEM_COMMIT, 0x04, 0);
    assert_eq!(scan_players(&p).len(), 2);
    let mut q = Proc::empty(1, 0);
    q.hold(0x10_0000, &mem, false);
    q.note_region(0, 0x10_0000, 0x8000, MEM_COMMIT, 0x02, 0);
    assert!(scan_players(&q).is_empty());
}

#[test]
fn the_same_player_is_found_once() {
    let mut found: Vec<Player> = Vec::new();
    offer_player(&mut found, &object("大谷", 70), 0x1000);
    offer_player(&mut found, &object("大谷", 70), 0x1000);
    assert_eq!(found.len(), 1);
    offer_player(&mut found, &object("12345", 70), 0x9000);
    assert_eq!(found.len(), 1);
    offer_player(&mut found, &object("鈴木", 70), 0x9000);
    assert_eq!(found.len(), 2);
    offer_player(&mut found, &[0; 10], 0xA000);
    assert_eq!(found.len(), 2);
}

#[test]
fn scans_are_sorted_by_name() {
    let named = |n: &str, a: u64| Player { name: n.to_string(), addr: a, ..Player::default() };
    let mut v = vec![named("b", 1), named("a", 2), named("b", 3), named("", 4)];
    sort_by_name(&mut v);
    let got: Vec<(&str, u64)> = v.iter().map(|x| (x.name.as_str(), x.addr)).collect();
    assert_eq!(got, vec![("", 4), ("a", 2), ("b", 1), ("b", 3)]);
}

#[test]
fn second_copies_inside_an_object_go() {
    let inner = prospi::offsets::REC_INNER;
    let named = |n: &str, a: u64| Player { name: n.to_string(), addr: a, ..Player::default() };
    let mut v = vec![named("a", 0x10000), named("a", 0x10000 + inner), named("b", 0x20000 + inner)];
    drop_inner_copies(&mut v);
    assert_eq!(v.len(), 2);
    let mut v = vec![named("b", 0x10000 + inner), named("a", 0x10000)];
    finish_scan(&mut v);
    assert_eq!(v.iter().map(|x| x.name.as_str()).collect::<Vec<_>>(), vec!["a", "b"]);
}

#[test]
fn progress_is_reported_to_the_end() {
    let r = scan_reports(&[(0x1000_0000, 3 * CHUNK)]);
    assert!(!r.is_empty());
    let (done, all) = r[r.len() - 1];
    assert_eq!(done, all);
    for w in r.windows(2) {
        assert!(w[0].0 <= w[1].0 && w[0].1 == w[1].1);
    }
}

#[test]
fn progress_does_not_pass_the_total() {
    let mib: u64 = 1 << 20;
    assert_eq!(scan_reports(&[(0x1000_0000, 100 * mib)]), vec![(64, 100), (100, 100)]);
    let r = scan_reports(&[(0x1000_0000, 3 * mib / 2), (0x2000_0000, 70 * mib)]);
    assert_eq!(r, vec![(1, 71), (65, 71), (71, 71)]);
    assert!(scan_reports(&[]).is_empty());
}

#[test]
fn a_scan_asks_and_is_answered() {
    let base: u64 = 0x10_0000;
    let mut p = Proc::empty(1, 0);
    let mut bytes = vec![0u8; 0x8000];
    let obj = object("大谷", 50);
    bytes[0x1000..0x1000 + obj.len()].copy_from_slice(&obj);
    p.hold(base, &bytes, false);
    let mut s = Scan::new(&[(base, 0x8000)]);
    assert_eq!(s.want(), Some((base, 0x8000)));
    assert_eq!(s.take(p.read(base, 0x8000)), None);
    assert_eq!(s.want(), Some((base + 0x1000, PLAYER_READ as u64)));
    let mut last = None;
    while let Some((a, n)) = s.want() {
        last = s.take(p.read(a, n as usize));
    }
    assert_eq!(last, Some((0, 0)));
    assert_eq!(s.take(None), None);
    let found = s.finish();
    assert_eq!(found.len(), 1);
    assert_eq!((found[0].name.as_str(), found[0].addr), ("大谷", base + 0x1000));

    let mut s = Scan::new(&[(base, 0x8000)]);
    assert_eq!(s.take(None), Some((0, 0)));
    assert_eq!(s.want(), None);
    assert!(s.finish().is_empty());
}

#[test]
fn a_search_stops_at_the_first_place_where_that_is_enough() {
    let ranges = [(0x1000u64, 8u64), (0x2000, 8)];
    let pat = || vec![Some(7u8), None];
    for first in [false, true] {
        let mut s = Search::new(&ranges, pat(), first);
        assert_eq!(s.want(), Some((0x1000, 8)));
        s.take(Some(vec![0, 7, 1, 7, 2, 0, 0, 0]));
        assert_eq!(s.want(), if first { None } else { Some((0x2000, 8)) });
        s.take(Some(vec![7, 7, 0, 0, 0, 0, 0, 7]));
        assert_eq!(s.want(), None);
        assert_eq!(s.first(), Some(0x1001));
        let all = vec![0x1001, 0x1003, 0x2000, 0x2001];
        assert_eq!(s.hits, if first { all[..2].to_vec() } else { all });
    }
    let mut s = Search::new(&ranges, pat(), true);
    s.take(None);
    s.take(None);
    assert_eq!((s.want(), s.first()), (None, None));
}

#[test]
fn patterns_are_parsed() {
    assert_eq!(parse_pattern("b9 ?? 00"), vec![Some(0xB9), None, Some(0)]);
    assert_eq!(parse_pattern("  FF\t? zz +a "), vec![Some(0xFF), None, None, Some(0x0A)]);
    assert_eq!(parse_pattern(" "), Vec::<Option<u8>>::new());
    assert_eq!(parse_pattern(SPEED_CAP_AOB).len(), 10);
    assert_eq!(
        parse_pattern(ITEM_INC_AOB),
        vec![
            None,
            None,
            Some(0x88),
            Some(0x04),
            Some(0x39),
            Some(0x48),
            Some(0x8B),
            Some(0x5C),
            Some(0x24),
            Some(0x30),
        ]
    );
}

#[test]
fn patterns_are_found_everywhere() {
    let buf = vec![1, 2, 1, 2, 1];
    assert_eq!(hits(&buf, 0x100, &vec![Some(1), None]), vec![0x100, 0x102]);
    assert_eq!(hits(&buf, 0x100, &vec![Some(2), Some(1)]), vec![0x101, 0x103]);
    assert!(hits(&buf, 0x100, &vec![None; 6]).is_empty());
}

fn code() -> Proc {
    let mut p = Proc::empty(1, 0);
    let mut mem = vec![0xCCu8; 0x200];
    mem[0x80..0x8A].copy_from_slice(&[0xFE, 0xC0, 0x88, 0x04, 0x39, 0x48, 0x8B, 0x5C, 0x24, 0x30]);
    p.hold(0x7000, &mem, true);
    p.note_region(0, 0x7000, 0x200, MEM_COMMIT, 0x20, 0);
    p
}

#[test]
fn code_is_searched_for_patterns() {
    let p = code();
    assert_eq!(find_code(&p, ITEM_INC_AOB), Some(0x7080));
    assert_eq!(find_code_all(&p, "88 04 39"), vec![0x7082]);
    assert_eq!(find_code(&p, "01 02 03"), None);
    assert_eq!(find_code_all(&p, ""), Vec::<u64>::new());
    assert_eq!(find_code(&Proc::empty(1, 0), ITEM_INC_AOB), None);
}

#[test]
fn one_place_is_the_first_of_all() {
    let mut p = Proc::empty(1, 0);
    p.hold(0x7000, &[1, 2, 1, 3, 1], true);
    p.hold(0x9000, &[1, 4], true);
    p.hold(0xB000, &[1, 5], false);
    p.note_region(0, 0x7000, 5, MEM_COMMIT, 0x20, 0);
    p.note_region(0x8000, 0x9000, 2, MEM_COMMIT, 0x40, 0);
    p.note_region(0xA000, 0xB000, 2, MEM_COMMIT, 0x04, 0);
    let all = find_code_all(&p, "01 ??");
    assert_eq!(all, vec![0x7000, 0x7002, 0x9000]);
    assert_eq!(find_code(&p, "01 ??"), Some(0x7000));
    assert_eq!(find_code(&p, "01 05"), None);
    assert!(find_code_all(&p, "01 05").is_empty());
}

#[test]
fn the_item_patch_is_made_and_undone() {
    let mut p = code();
    assert_eq!(item_use_patched(&p), Some(false));
    assert!(set_item_use_patch(&mut p, true));
    assert_eq!(item_use_patched(&p), Some(true));
    assert_eq!(items_patched_at(&p, 0x7080), Some(true));
    assert_eq!(p.read(0x7080, 3), Some(vec![0x90, 0x90, 0x88]));
    assert_eq!(find_code(&p, ITEM_INC_AOB), Some(0x7080));
    assert!(set_item_use_patch(&mut p, false));
    assert_eq!(p.read(0x7080, 3), Some(vec![0xFE, 0xC0, 0x88]));
    assert!(patch_items_at(&mut p, 0x7080, true));
    assert_eq!(item_use_patched(&p), Some(true));
    assert_eq!(items_patched_at(&p, 0x1), None);
    let mut q = Proc::empty(1, 0);
    assert_eq!(item_use_patched(&q), None);
    assert!(!set_item_use_patch(&mut q, true));
}

use prospi::library::{merge_player_into_lib, merge_recs_into_lib, sort_lib, LibEntry};
use prospi::library_file::{from_hex, lib_from_rows, lib_rows, load_lib, origlib_path, save_lib, Row};
use prospi::offsets::REC;
use prospi::player::{OrigRec, Player};
use prospi::teams::{load_teams, rename_team, save_teams, teams_from_entries, DEFAULT_TEAMS};

fn rec(slot: u32, name: &str, official: bool) -> OrigRec {
    let mut raw = vec![0u8; REC];
    raw[0] = slot as u8;
    raw[REC - 1] = 0xAB;
    OrigRec { slot, name: name.to_string(), base: 4, official, raw }
}

fn player(name: &str, recs: Vec<OrigRec>) -> Player {
    Player { name: name.to_string(), recs, ..Player::default() }
}

fn names(lib: &[LibEntry]) -> Vec<&str> {
    lib.iter().map(|e| e.name.as_str()).collect()
}

#[test]
fn every_name_is_collected_once() {
    let mut lib: Vec<LibEntry> = Vec::new();
    let players = vec![
        player("甲", vec![rec(1, "カーブ", true), rec(0, "魔球", false)]),
        player("乙", vec![rec(2, "魔球", true), rec(8, "フォーク", false)]),
    ];
    assert_eq!(merge_recs_into_lib(&mut lib, &players), 3);
    assert_eq!(names(&lib), vec!["魔球", "カーブ", "フォーク"]);
    assert_eq!((lib[0].dir, lib[1].dir, lib[2].dir), (0, 1, 2));
    assert_eq!((lib[0].kind.as_str(), lib[1].kind.as_str()), ("自訂", "官方"));
    assert_eq!((lib[0].holder.as_str(), lib[2].holder.as_str()), ("甲", "乙"));
    assert_eq!(lib[2].slot, 8);
    assert_eq!(merge_recs_into_lib(&mut lib, &players), 0);
    assert_eq!(lib.len(), 3);
    assert_eq!(merge_player_into_lib(&mut lib, &player("丙", vec![rec(5, "直球", false)])), 1);
    assert_eq!(names(&lib), vec!["魔球", "カーブ", "フォーク", "直球"]);
    assert_eq!(merge_player_into_lib(&mut lib, &player("丙", vec![rec(5, "直球", false)])), 0);
}

#[test]
fn unusable_records_are_passed_over() {
    let mut lib: Vec<LibEntry> = Vec::new();
    let mut short = rec(1, "短", false);
    short.raw.pop();
    let p = player(
        "甲",
        vec![rec(12, "空", false), rec(1, "", false), rec(1, "壊\u{FFFD}", false), short],
    );
    assert_eq!(merge_recs_into_lib(&mut lib, &[p]), 0);
    assert!(lib.is_empty());
}

#[test]
fn the_library_is_sorted_by_direction_and_name() {
    let e = |n: &str, d: u64| LibEntry {
        name: n.to_string(),
        slot: d,
        dir: d,
        base: 1,
        kind: "官方".to_string(),
        holder: String::new(),
        raw: vec![0; REC],
    };
    let mut v = vec![e("b", 1), e("a", 1), e("z", 0)];
    sort_lib(&mut v);
    assert_eq!(names(&v), vec!["z", "a", "b"]);
}

#[test]
fn the_file_gives_the_library_back() {
    let mut lib: Vec<LibEntry> = Vec::new();
    merge_recs_into_lib(
        &mut lib,
        &[player("甲 \"乙\"\n", vec![rec(3, "魔\\球", false), rec(9, "シンカー", true)])],
    );
    let txt = save_lib(&lib);
    assert!(txt.starts_with("[\n  {\n"), "{txt}");
    assert!(txt.contains("\"dir\": 3"));
    let back = load_lib(Some(&txt)).unwrap();
    assert_eq!(back.len(), 2);
    for (a, b) in lib.iter().zip(&back) {
        assert_eq!(a.name, b.name);
        assert_eq!((a.slot, a.dir, a.base), (b.slot, b.dir, b.base));
        assert_eq!((&a.kind, &a.holder, &a.raw), (&b.kind, &b.holder, &b.raw));
    }
    assert_eq!(save_lib(&[]), "[]");
}

#[test]
fn files_that_are_no_library_are_empty() {
    assert!(load_lib(None).unwrap().is_empty());
    assert!(load_lib(Some("")).unwrap().is_empty());
    assert!(load_lib(Some("{]")).unwrap().is_empty());
    assert!(load_lib(Some("{\"a\": 1}")).unwrap().is_empty());
    assert!(load_lib(Some("[1, null, {\"hex\": \"00\"}]")).unwrap().is_empty());
}

#[test]
fn rows_of_the_file_are_read_one_by_one() {
    let hex = "00".repeat(REC);
    let t = format!("[{{\"name\": \"x\", \"slot\": 300, \"dir\": 4, \"base\": 7, \"hex\": \"{hex}\"}}]");
    let rows = lib_rows(&t);
    assert_eq!(rows.len(), 1);
    let lib = lib_from_rows(&rows).unwrap();
    assert_eq!(lib.len(), 1);
    assert_eq!((lib[0].name.as_str(), lib[0].slot, lib[0].dir, lib[0].base), ("x", 300, 4, 7));
    assert_eq!((lib[0].kind.as_str(), lib[0].holder.as_str()), ("", ""));
    assert_eq!(lib_from_rows(&Vec::<Row>::new()).unwrap().len(), 0);
}

#[test]
fn hexadecimal_text_becomes_bytes() {
    assert_eq!(from_hex("00ffA5"), Some(vec![0, 0xFF, 0xA5]));
    assert_eq!(from_hex("0"), Some(vec![]));
    assert_eq!(from_hex("zz10"), Some(vec![0x10]));
    assert_eq!(from_hex("+1"), Some(vec![1]));
    assert_eq!(from_hex("1大"), None, "a cut inside a character");
}

#[test]
fn the_first_place_with_a_file_is_taken() {
    assert_eq!(origlib_path(&[false, true, true, false]), 1);
    assert_eq!(origlib_path(&[false, false, false, true]), 3);
    assert_eq!(origlib_path(&[false; 4]), 0);
    assert_eq!(origlib_path(&[true; 4]), 0);
}

#[test]
fn teams_start_from_the_known_ones() {
    let m = load_teams(None);
    assert_eq!(m.len(), DEFAULT_TEAMS.len());
    assert_eq!(m[&0], "巨人");
    assert_eq!(load_teams(Some("not json")).len(), DEFAULT_TEAMS.len());
    let m = load_teams(Some("{\"0\": \"新名\", \"57\": \"謎\", \"256\": \"x\", \"1\": \"\", \"2\": 5, \"+3\": \"y\"}"));
    assert_eq!(m[&0], "新名");
    assert_eq!(m[&57], "謎");
    assert_eq!(m[&1], "中日");
    assert_eq!(m[&2], "廣島");
    assert_eq!(m[&3], "y");
    assert_eq!(m.len(), DEFAULT_TEAMS.len() + 1);
    let m = teams_from_entries(&vec![("9".to_string(), Some("九".to_string())), ("8".to_string(), None)]);
    assert_eq!((m[&9].as_str(), m[&8].as_str()), ("九", "西武"));
}

#[test]
fn the_file_gives_the_teams_back() {
    let mut m = load_teams(None);
    rename_team(&mut m, 57, "  謎の隊 ");
    rename_team(&mut m, 0, " ");
    assert_eq!(m[&57], "謎の隊");
    assert!(!m.contains_key(&0));
    let txt = save_teams(&m);
    let back = load_teams(Some(&txt));
    assert_eq!(back[&57], "謎の隊");
    assert_eq!(back[&0], "巨人", "a known team comes back");
    assert_eq!(back.len(), m.len() + 1);
}

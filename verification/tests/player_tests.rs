use prospi::balls::BALL_EMPTY;
use prospi::offsets::{
    N_BALL, N_REC, OFF_BALL, OFF_BATTING_AGGRESSION, OFF_BATTING_AGGRESSION_SYNC, OFF_BOOK,
    OFF_CATCH, OFF_DEF, OFF_GRADE, OFF_ITEM, OFF_NAME, OFF_ORIG, OFF_PACK, OFF_PLATE_DISCIPLINE,
    OFF_PLATE_DISCIPLINE_SYNC, OFF_POS, OFF_STATS, OFF_TEAM, OFF_ZONE, PLAYER_READ,
    PLATE_DISCIPLINE_SHIFT, POPULARITY_ON, POS_SHIFT, REC, REC_BASE, CATCH_SHIFT,
};
use prospi::player::Player;

/// The bytes of a valid player object in which every field holds another value.
fn mkbuf() -> Vec<u8> {
    let mut b = vec![0u8; PLAYER_READ];
    for (i, v) in [3u8, 1, 4, 1, 5, 9, 2, 6].iter().enumerate() {
        b[0x18 + i] = *v;
        b[OFF_STATS + i] = 10 + i as u8;
    }
    b[OFF_DEF] = 71;
    let pack: u16 = (154 - 80) | (83 << 7) | 0xC000;
    b[OFF_PACK] = pack as u8;
    b[OFF_PACK + 1] = (pack >> 8) as u8;
    // The chart first: its last byte holds the plate discipline too.
    let z: u32 = 3 | (5 << 3);
    b[OFF_ZONE..OFF_ZONE + 4].copy_from_slice(&z.to_le_bytes());
    b[OFF_CATCH] = (7 << CATCH_SHIFT) | 0x80;
    b[OFF_BATTING_AGGRESSION] = 4 | 0xA0;
    b[OFF_BATTING_AGGRESSION_SYNC] = 3 | 0xA0;
    b[OFF_PLATE_DISCIPLINE] = (4 << PLATE_DISCIPLINE_SHIFT) | 0x85;
    b[OFF_PLATE_DISCIPLINE_SYNC] = 0xA0 | 3;
    b[OFF_GRADE] = 3;
    b[OFF_ITEM] = 1;
    b[OFF_BOOK] = 5;
    b[OFF_TEAM] = 7;
    let posw: u16 = (5 << POS_SHIFT) | POPULARITY_ON as u16;
    b[OFF_POS] = posw as u8;
    b[OFF_POS + 1] = (posw >> 8) as u8;
    for k in 0..N_BALL {
        b[OFF_BALL + k * 3] = BALL_EMPTY;
    }
    b[OFF_BALL] = 4;
    b[OFF_BALL + 1] = 5 * 8 + 7;
    b[OFF_BALL + 2] = 4;
    let nm = b"\xe5\xa4\xa7\xe8\xb0\xb7\x00\xe7\xbf\x94\xe5\xb9\xb3\x00";
    b[OFF_NAME..OFF_NAME + nm.len()].copy_from_slice(nm);
    b[OFF_ORIG..OFF_ORIG + 4].copy_from_slice(&0u32.to_le_bytes());
    b[OFF_ORIG + REC_BASE] = 4;
    b
}

#[test]
fn parse_reads_every_field_from_the_right_offset() {
    let pl = Player::parse(&mkbuf(), 0xDEAD0000).expect("應該解析得出來");
    assert_eq!(pl.addr, 0xDEAD0000);
    assert_eq!(pl.name, "大谷 翔平");
    assert_eq!(pl.stats, [10, 11, 12, 13, 14, 15, 16, 17]);
    assert_eq!(pl.field, [3, 1, 4, 1, 5, 9, 2, 6]);
    assert_eq!(pl.defense, 71);
    assert_eq!(pl.speed, 154);
    assert_eq!(pl.stamina, 83);
    assert_eq!(pl.pack_hi, 0xC000, "bit14-15 的旗標要原樣保留");
    assert_eq!(pl.catcher, 7, "捕手配球只能取 bit4~6，不能被同 byte 的旗標污染");
    assert_eq!(pl.batting_aggression, 4, "打擊積極性 C 應由 +0xA5B low3 解析");
    assert_eq!(pl.plate_discipline, 4, "選球眼 C 應由 +0xA53 bit3~5 解析");
    assert!(pl.popularity, "人氣應由 +0xA30 low3=2 解析");
    assert_eq!(pl.pos, 5);
    assert_eq!(pl.team, 7);
    assert_eq!(pl.grade, 3);
    assert_eq!(pl.item, 1);
    assert_eq!(pl.book, 5);
    assert_eq!(pl.zone[0], 3);
    assert_eq!(pl.zone[1], -3, "九宮格是 3-bit 二補數");
    assert_eq!(pl.balls.len(), N_BALL);
    assert_eq!((pl.balls[0].id, pl.balls[0].power, pl.balls[0].move_), (4, 5, 7));
    assert_eq!(pl.balls[1].id, BALL_EMPTY);
    assert_eq!(pl.recs.len(), N_REC);
    assert_eq!(pl.recs[0].base, 4);
}

#[test]
fn parse_rejects_short_buffer() {
    assert!(Player::parse(&vec![0u8; PLAYER_READ - 1], 0).is_none());
}

#[test]
fn player_read_covers_every_offset_parse_touches() {
    for (name, off) in [
        ("能力", OFF_STATS + 8),
        ("球種", OFF_BALL + N_BALL * 3),
        ("原創球種記錄", OFF_ORIG + N_REC * REC),
        ("姓名", OFF_NAME + 64),
        ("隊伍", OFF_TEAM + 1),
        ("守備位置", OFF_POS + 2),
        ("打擊積極性", OFF_BATTING_AGGRESSION + 1),
        ("打擊積極性同步", OFF_BATTING_AGGRESSION_SYNC + 1),
        ("選球眼", OFF_PLATE_DISCIPLINE + 1),
        ("選球眼同步", OFF_PLATE_DISCIPLINE_SYNC + 1),
        ("九宮格", OFF_ZONE + 4),
        ("年級", OFF_GRADE + 1),
        ("書籍", OFF_BOOK + 1),
    ] {
        assert!(off <= PLAYER_READ, "{name} 需要讀到 {off:#x}，超過 PLAYER_READ");
    }
}

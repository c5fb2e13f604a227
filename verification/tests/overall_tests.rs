use prospi::player::{Ball, Player};

struct Case {
    stats: [u8; 8],
    field: [u8; 8],
    /// Pitching aptitude, position, catcher's lead, batting style.
    numbers: (u8, u8, u8, u8),
    /// Ball speed, stamina, traits.
    pitching: (u16, u16, [u8; 3]),
    abil: [u8; 14],
    /// Number, power, control, movement.
    balls: [(u8, u8, u8, u8); 12],
    overall: i32,
}

const CASES: [Case; 10] = [
    Case {
        stats: [40, 34, 42, 50, 31, 32, 56, 47],
        field: [6, 23, 37, 3, 58, 32, 13, 2],
        numbers: (11, 0, 6, 3),
        pitching: (88, 30, [1, 6, 0]),
        abil: [63, 114, 31, 203, 25, 113, 23, 68, 148, 214, 73, 60, 157, 92],
        balls: [(37, 3, 5, 1), (45, 1, 0, 3), (43, 6, 5, 7), (29, 5, 4, 3), (37, 3, 1, 4), (31, 5, 7, 4), (4, 1, 6, 2), (9, 7, 6, 0), (4, 5, 5, 5), (31, 7, 1, 1), (30, 1, 0, 4), (36, 7, 4, 6)],
        overall: 538,
    },
    Case {
        stats: [115, 74, 32, 89, 75, 51, 108, 44],
        field: [63, 7, 27, 98, 36, 16, 94, 31],
        numbers: (50, 0, 6, 6),
        pitching: (143, 10, [2, 7, 6]),
        abil: [142, 70, 220, 142, 212, 183, 194, 118, 77, 42, 90, 77, 118, 119],
        balls: [(37, 7, 2, 4), (0, 2, 6, 5), (36, 5, 2, 0), (43, 6, 6, 6), (6, 7, 6, 0), (37, 1, 3, 7), (37, 1, 5, 0), (37, 0, 2, 1), (39, 0, 1, 3), (24, 2, 4, 5), (23, 7, 1, 1), (29, 7, 7, 4)],
        overall: 554,
    },
    Case {
        stats: [40, 48, 43, 73, 63, 91, 50, 96],
        field: [2, 26, 67, 46, 18, 88, 69, 3],
        numbers: (97, 0, 4, 5),
        pitching: (91, 89, [4, 5, 2]),
        abil: [182, 114, 168, 114, 99, 122, 205, 116, 102, 252, 182, 14, 14, 143],
        balls: [(16, 3, 5, 7), (22, 5, 1, 3), (37, 3, 7, 3), (13, 7, 0, 7), (22, 1, 1, 6), (12, 7, 2, 6), (21, 1, 6, 7), (5, 2, 2, 2), (37, 2, 7, 2), (38, 7, 5, 2), (35, 2, 0, 0), (41, 1, 2, 6)],
        overall: 629,
    },
    Case {
        stats: [54, 57, 33, 62, 57, 67, 94, 60],
        field: [97, 75, 41, 33, 69, 53, 106, 16],
        numbers: (7, 1, 5, 3),
        pitching: (164, 74, [6, 2, 2]),
        abil: [9, 225, 93, 2, 76, 88, 72, 242, 61, 31, 166, 247, 54, 29],
        balls: [(37, 3, 4, 0), (37, 7, 0, 1), (20, 3, 4, 7), (34, 7, 3, 4), (12, 7, 2, 6), (37, 6, 7, 5), (37, 3, 6, 1), (37, 4, 1, 2), (41, 5, 2, 4), (37, 7, 3, 1), (31, 2, 3, 2), (27, 6, 5, 6)],
        overall: 431,
    },
    Case {
        stats: [55, 75, 70, 41, 122, 76, 32, 73],
        field: [70, 58, 56, 90, 2, 49, 42, 66],
        numbers: (79, 5, 4, 4),
        pitching: (88, 14, [3, 1, 1]),
        abil: [135, 139, 20, 92, 138, 66, 216, 132, 207, 76, 253, 167, 45, 142],
        balls: [(37, 2, 6, 1), (1, 1, 4, 1), (14, 1, 4, 1), (0, 5, 6, 4), (8, 0, 3, 1), (37, 4, 0, 2), (37, 4, 4, 3), (28, 2, 4, 5), (37, 4, 0, 0), (37, 3, 7, 3), (6, 6, 7, 6), (19, 3, 3, 5)],
        overall: 534,
    },
    Case {
        stats: [42, 38, 55, 52, 33, 38, 30, 34],
        field: [32, 55, 20, 7, 10, 48, 64, 36],
        numbers: (76, 8, 3, 5),
        pitching: (117, 5, [7, 2, 2]),
        abil: [137, 228, 1, 134, 186, 168, 165, 125, 17, 158, 111, 182, 93, 0],
        balls: [(24, 1, 7, 4), (41, 3, 3, 0), (37, 4, 1, 2), (37, 0, 6, 0), (19, 3, 1, 2), (45, 6, 5, 7), (37, 4, 2, 0), (32, 6, 2, 0), (37, 3, 1, 0), (37, 2, 5, 1), (28, 0, 0, 3), (16, 0, 7, 1)],
        overall: 395,
    },
    Case {
        stats: [41, 44, 38, 44, 38, 31, 40, 38],
        field: [4, 30, 16, 4, 16, 15, 13, 14],
        numbers: (94, 0, 7, 3),
        pitching: (128, 9, [7, 4, 0]),
        abil: [101, 39, 75, 169, 130, 155, 68, 6, 246, 31, 248, 137, 50, 111],
        balls: [(31, 4, 4, 7), (29, 1, 3, 4), (37, 7, 0, 4), (4, 7, 4, 6), (37, 3, 1, 1), (37, 4, 5, 2), (40, 4, 1, 5), (37, 7, 7, 6), (37, 2, 0, 7), (28, 6, 4, 2), (22, 6, 5, 1), (0, 5, 5, 6)],
        overall: 492,
    },
    Case {
        stats: [99, 99, 99, 99, 99, 99, 99, 99],
        field: [99, 99, 99, 99, 99, 99, 99, 99],
        numbers: (99, 0, 7, 0),
        pitching: (175, 99, [7, 7, 7]),
        abil: [0, 0, 0, 0, 0, 0, 0, 0, 0, 0, 0, 0, 0, 0],
        balls: [(4, 7, 7, 7), (8, 7, 7, 7), (14, 7, 7, 7), (23, 7, 7, 7), (33, 7, 7, 7), (0, 7, 7, 7), (5, 7, 7, 7), (9, 7, 7, 7), (15, 7, 7, 7), (24, 7, 7, 7), (34, 7, 7, 7), (2, 7, 7, 7)],
        overall: 999,
    },
    Case {
        stats: [0, 0, 0, 0, 0, 0, 0, 0],
        field: [0, 0, 0, 0, 0, 0, 0, 0],
        numbers: (0, 3, 0, 1),
        pitching: (80, 0, [0, 0, 0]),
        abil: [0, 0, 0, 0, 0, 0, 0, 0, 0, 0, 0, 0, 0, 0],
        balls: [(37, 0, 0, 0), (37, 0, 0, 0), (37, 0, 0, 0), (37, 0, 0, 0), (37, 0, 0, 0), (37, 0, 0, 0), (37, 0, 0, 0), (37, 0, 0, 0), (37, 0, 0, 0), (37, 0, 0, 0), (37, 0, 0, 0), (37, 0, 0, 0)],
        overall: 0,
    },
    Case {
        stats: [0, 0, 0, 0, 0, 0, 0, 0],
        field: [0, 0, 0, 0, 0, 0, 0, 0],
        numbers: (0, 0, 0, 1),
        pitching: (80, 0, [0, 0, 0]),
        abil: [0, 0, 0, 0, 0, 0, 0, 128, 0, 8, 42, 2, 0, 0],
        balls: [(37, 0, 0, 0), (37, 0, 0, 0), (37, 0, 0, 0), (37, 0, 0, 0), (37, 0, 0, 0), (37, 0, 0, 0), (37, 0, 0, 0), (37, 0, 0, 0), (37, 0, 0, 0), (37, 0, 0, 0), (37, 0, 0, 0), (37, 0, 0, 0)],
        overall: 0,
    },
];

fn player(c: &Case) -> Player {
    Player {
        stats: c.stats,
        field: c.field,
        defense: c.numbers.0,
        pos: c.numbers.1,
        catcher: c.numbers.2,
        batting_style: c.numbers.3,
        speed: c.pitching.0,
        stamina: c.pitching.1,
        pitch_traits: c.pitching.2,
        abil: c.abil,
        balls: c
            .balls
            .iter()
            .map(|&(id, power, control, move_)| Ball { id, power, control, move_ })
            .collect(),
        ..Player::default()
    }
}

#[test]
fn ratings_come_out_as_the_game_computes_them() {
    for (i, c) in CASES.iter().enumerate() {
        assert_eq!(player(c).overall(), c.overall, "entry {i}");
    }
}

#[test]
fn a_better_number_never_takes_from_a_fielder() {
    for v in 0..99u8 {
        let mut a = Player { pos: 4, ..Player::default() };
        let mut b = Player { pos: 4, ..Player::default() };
        a.stats = [v; 8];
        b.stats = [v + 1; 8];
        assert!(a.overall() <= b.overall(), "{v}");
    }
}

#[test]
fn numbers_beyond_ninety_nine_count_as_ninety_nine() {
    let a = Player { pos: 4, stats: [99; 8], ..Player::default() };
    let b = Player { pos: 4, stats: [127; 8], ..Player::default() };
    assert_eq!(a.overall(), b.overall());
}

#[test]
fn a_better_aptitude_never_takes_from_a_fielder() {
    for c in CASES.iter() {
        let base = Player { pos: 1, ..player(c) };
        for i in 0..8 {
            let mut better = base.clone();
            better.field[i] = better.field[i].saturating_add(17);
            assert!(base.overall() <= better.overall());
            let mut better = base.clone();
            better.stats[i] = better.stats[i].saturating_add(9);
            assert!(base.overall() <= better.overall());
        }
    }
}

#[test]
fn the_slots_of_breaking_pitches_do_not_matter() {
    for c in CASES.iter() {
        let a = player(c);
        for i in 0..12 {
            for j in 0..12 {
                if i % 6 != 5 && j % 6 != 5 {
                    let mut b = a.clone();
                    b.balls.swap(i, j);
                    assert_eq!(a.overall(), b.overall());
                }
            }
        }
    }
}

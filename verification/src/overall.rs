//! The overall rating of a player, 0 to 999, as the game computes it for its
//! rosters.

use vstd::prelude::*;
use vstd::relations::{sorted_by, total_ordering};

use crate::balls::{ball_dir, BALL_EMPTY};
use crate::player::{Ball, Player};

verus! {

/// Where each special ability stands in the ability bytes: the byte, the
/// power of two below its lowest bit, the power of two of its width, and
/// whether it is signed.
pub const SPECIAL_FIELDS: [(usize, u32, u32, bool); 65] = [
    (13, 64, 2, false),
    (11, 16, 4, true),
    (5, 1, 8, true),
    (0, 8, 2, false),
    (0, 128, 2, false),
    (5, 16, 4, false),
    (1, 8, 2, false),
    (0, 1, 8, true),
    (0, 16, 8, true),
    (1, 128, 2, false),
    (2, 8, 2, false),
    (2, 128, 2, false),
    (3, 8, 2, false),
    (5, 64, 4, true),
    (3, 128, 2, false),
    (6, 1, 4, false),
    (4, 8, 2, false),
    (4, 128, 2, false),
    (6, 4, 4, true),
    (5, 8, 2, false),
    (11, 64, 2, false),
    (6, 16, 4, true),
    (11, 128, 2, false),
    (12, 1, 2, false),
    (6, 64, 4, false),
    (7, 64, 4, true),
    (12, 8, 2, false),
    (8, 1, 4, true),
    (8, 4, 4, true),
    (12, 16, 2, false),
    (8, 16, 4, false),
    (12, 32, 2, false),
    (8, 64, 4, false),
    (1, 1, 8, true),
    (9, 1, 4, true),
    (1, 16, 8, true),
    (9, 4, 4, true),
    (2, 1, 8, true),
    (2, 16, 8, true),
    (9, 16, 4, true),
    (9, 64, 4, true),
    (12, 64, 2, false),
    (10, 1, 4, true),
    (12, 128, 2, false),
    (10, 4, 4, true),
    (10, 16, 4, true),
    (10, 64, 4, true),
    (11, 1, 4, true),
    (13, 1, 2, false),
    (13, 2, 2, false),
    (3, 1, 8, true),
    (3, 16, 8, true),
    (13, 4, 2, false),
    (13, 8, 2, false),
    (11, 4, 4, true),
    (4, 1, 8, true),
    (4, 16, 8, true),
    (13, 16, 2, false),
    (13, 32, 2, false),
    (7, 1, 4, true),
    (12, 2, 2, false),
    (7, 4, 4, true),
    (7, 16, 4, false),
    (12, 4, 2, false),
    (13, 128, 2, false),
];

/// Abilities that count for everybody.
pub const COMMON_SPECIALS: [usize; 4] = [
    0x00, 0x01, 0x02, 0x3d,
];

/// Abilities that count for fielders.
pub const FIELDER_SPECIALS: [usize; 33] = [
    0x03, 0x04, 0x05, 0x06, 0x07, 0x08, 0x09, 0x0a,
    0x0b, 0x0c, 0x0d, 0x0e, 0x0f, 0x10, 0x11, 0x12,
    0x13, 0x14, 0x15, 0x16, 0x17, 0x18, 0x34, 0x35,
    0x36, 0x37, 0x38, 0x39, 0x3a, 0x3c, 0x3e, 0x3f,
    0x40,
];

/// Abilities that count for pitchers.
pub const PITCHER_SPECIALS: [usize; 28] = [
    0x19, 0x1a, 0x1b, 0x1c, 0x1d, 0x1e, 0x1f, 0x20,
    0x21, 0x22, 0x23, 0x24, 0x25, 0x26, 0x27, 0x28,
    0x29, 0x2a, 0x2b, 0x2c, 0x2d, 0x2e, 0x2f, 0x30,
    0x31, 0x32, 0x33, 0x3b,
];

/// Division that rounds towards zero.
pub open spec fn toward_zero(a: int, b: int) -> int {
    if a >= 0 {
        a / b
    } else {
        -((-a) / b)
    }
}

/// What an ability from 0 on is worth.
pub open spec fn rating(v: int) -> int {
    if v > 89 {
        (v - 90) * 20 / 10 + 101
    } else if v > 79 {
        (v - 80) * 18 / 10 + 83
    } else if v > 69 {
        (v - 70) * 16 / 10 + 67
    } else if v > 59 {
        (v - 60) * 14 / 10 + 53
    } else if v > 49 {
        (v - 50) * 12 / 10 + 41
    } else if v > 39 {
        (v - 40) * 11 / 10 + 30
    } else if v > 19 {
        v - 10
    } else {
        v / 2
    }
}

/// What a ball speed is worth.
pub open spec fn speed_rating(v: int) -> int {
    if v > 169 {
        (v - 170) * 24 / 5 + 151
    } else if v > 164 {
        (v - 165) * 22 / 5 + 129
    } else if v > 159 {
        (v - 160) * 20 / 5 + 109
    } else if v > 154 {
        (v - 155) * 18 / 5 + 91
    } else if v > 149 {
        (v - 150) * 16 / 5 + 75
    } else if v > 144 {
        (v - 145) * 15 / 5 + 60
    } else if v > 139 {
        (v - 140) * 14 / 5 + 46
    } else if v > 134 {
        (v - 135) * 13 / 5 + 33
    } else if v > 129 {
        (v - 130) * 12 / 5 + 21
    } else if v > 124 {
        (v - 125) * 11 / 5 + 10
    } else if v > 120 {
        v * 2 - 240
    } else {
        0
    }
}

/// What a pitching trait is worth.
pub open spec fn trait_rating(v: u8) -> int {
    if v == 1 || v == 2 {
        1
    } else if 3 <= v <= 6 {
        2
    } else if v == 7 {
        4
    } else {
        0
    }
}

/// The value of special ability `id`.
pub open spec fn special_value(a: Seq<u8>, id: int) -> int {
    let (byte, below, width, signed) = SPECIAL_FIELDS@[id];
    let x = a[byte as int] as int / below as int % width as int;
    if signed && x >= width / 2 {
        x - width
    } else {
        x
    }
}

/// What value `v` of special ability `id` counts for, in quarters.
pub open spec fn special_raw(id: int, v: int) -> int {
    if v == 0 {
        0
    } else if id == 0x00 || id == 0x01 || id == 0x0e || id == 0x1b || id == 0x31 || id == 0x34 || id
        == 0x39 || id == 0x3a || id == 0x3c {
        10
    } else if id == 0x02 || id == 0x26 {
        v * 15
    } else if id == 0x03 || id == 0x1a || id == 0x1d || id == 0x21 || id == 0x23 || id == 0x30 || id
        == 0x3f {
        50
    } else if id == 0x04 {
        20
    } else if id == 0x05 {
        if v == 1 {
            25
        } else if v == 2 {
            50
        } else {
            0
        }
    } else if id == 0x06 || id == 0x40 {
        60
    } else if id == 0x07 || id == 0x18 || id == 0x28 || id == 0x2e || id == 0x32 || id == 0x33 || id
        == 0x36 || id == 0x37 || id == 0x3e {
        v * 25
    } else if id == 0x08 || id == 0x25 || id == 0x38 || id == 0x3b {
        v * 30
    } else if id == 0x09 || id == 0x0b || id == 0x0c || id == 0x0d || id == 0x10 || id == 0x11 || id
        == 0x17 || id == 0x1f || id == 0x29 || id == 0x35 {
        25
    } else if id == 0x0a || id == 0x13 || id == 0x14 || id == 0x16 || id == 0x2b {
        15
    } else if id == 0x0f || id == 0x1e {
        if v == 1 {
            40
        } else if v == 2 {
            100
        } else {
            0
        }
    } else if id == 0x12 {
        if v == -1 {
            40
        } else if v == 1 {
            100
        } else {
            0
        }
    } else if id == 0x15 || id == 0x22 {
        if v == -1 {
            -30
        } else if v == 1 {
            25
        } else {
            0
        }
    } else if id == 0x19 || id == 0x24 || id == 0x2a || id == 0x2c || id == 0x2d {
        -25
    } else if id == 0x1c {
        v * 50
    } else if id == 0x20 || id == 0x3d {
        v * 10
    } else if id == 0x27 {
        if v == -1 {
            20
        } else if v == 1 {
            60
        } else {
            0
        }
    } else if id == 0x2f {
        -40
    } else {
        0
    }
}

/// A quarter of `raw`, towards zero, but not zero unless `raw` is.
pub open spec fn quarter(raw: int) -> int {
    let q = toward_zero(raw, 4);
    if raw == 0 || q != 0 {
        q
    } else if raw > 0 {
        1
    } else {
        -1
    }
}

/// What special ability `id` is worth.
pub open spec fn special_worth(a: Seq<u8>, id: int) -> int {
    quarter(special_raw(id, special_value(a, id)))
}

/// What a list of special abilities is worth.
pub open spec fn specials_worth(a: Seq<u8>, ids: Seq<usize>) -> int
    decreases ids.len(),
{
    if ids.len() == 0 {
        0
    } else {
        specials_worth(a, ids.drop_last()) + special_worth(a, ids.last() as int)
    }
}

/// What the power of a pitch is worth.
pub open spec fn power_worth(v: u8) -> int {
    let g = v % 8;
    if g == 0 {
        0
    } else if g == 1 {
        1
    } else if g == 2 {
        3
    } else if g == 3 {
        6
    } else if g == 4 {
        15
    } else if g == 5 {
        30
    } else if g == 6 {
        60
    } else {
        90
    }
}

/// What the movement of a pitch is worth.
pub open spec fn move_worth(v: u8) -> int {
    let g = v % 8;
    if g == 0 {
        0
    } else if g == 1 {
        1
    } else if g == 2 {
        3
    } else if g == 3 {
        5
    } else if g == 4 {
        12
    } else if g == 5 {
        18
    } else if g == 6 {
        25
    } else {
        32
    }
}

/// What the control of a pitch is worth.
pub open spec fn control_worth(v: u8) -> int {
    let g = v % 8;
    if g == 0 {
        0
    } else if g == 1 {
        1
    } else if g == 2 {
        2
    } else if g == 3 {
        4
    } else if g == 4 {
        6
    } else if g == 5 {
        9
    } else if g == 6 {
        12
    } else {
        18
    }
}

/// What a rare pitch is worth on top.
pub open spec fn rarity_worth(id: u8) -> int {
    if id == 2 || id == 7 || id == 12 || id == 22 || id == 27 || id == 28 || id == 32 || id == 36
        || id == 38 || id == 39 {
        3
    } else if id == 13 || id == 16 || id == 41 || id == 42 || id == 43 {
        5
    } else {
        0
    }
}

/// What the pitch in a slot is worth. In the two slots for straight balls
/// power counts half as much again and movement does not count.
pub open spec fn pitch_worth(slot: int, b: Ball) -> i32 {
    let id = (b.id % 128) as u8;
    let base = if slot == 5 || slot == 11 {
        power_worth(b.power) * 150 / 100
    } else if crate::balls::dir_of(id) != Some(5usize) {
        power_worth(b.power) + move_worth(b.move_)
    } else {
        power_worth(b.power)
    };
    (base + control_worth(b.control) + rarity_worth(id)) as i32
}

/// The worth of each pitch in the first `k` slots, empty slots left out.
pub open spec fn pitch_scores(balls: Seq<Ball>, k: int) -> Seq<i32>
    decreases k,
{
    if k <= 0 {
        seq![]
    } else {
        let rest = pitch_scores(balls, k - 1);
        if balls[k - 1].id % 128 == BALL_EMPTY {
            rest
        } else {
            rest.push(pitch_worth(k - 1, balls[k - 1]))
        }
    }
}

/// Scores from the highest to the lowest.
pub open spec fn ranked(s: Seq<i32>) -> Seq<i32> {
    s.sort_by(|a: i32, b: i32| a >= b)
}

/// How much the score in place `i` counts, in percent.
pub open spec fn weight(i: int) -> int {
    if i < 3 {
        100
    } else if i < 11 {
        120 - i * 10
    } else {
        10
    }
}

/// The weighted sum of the first `k` scores.
pub open spec fn weighted(s: Seq<i32>, k: int) -> int
    decreases k,
{
    if k <= 0 {
        0
    } else {
        weighted(s, k - 1) + s[k - 1] * weight(k - 1) / 100
    }
}

/// What all the pitches are worth: the ten best by weight, and above 300 only
/// half.
pub open spec fn pitches_worth(balls: Seq<Ball>) -> int {
    let n = if balls.len() < 12 {
        balls.len() as int
    } else {
        12
    };
    let s = ranked(pitch_scores(balls, n));
    let total = weighted(
        s,
        if s.len() < 10 {
            s.len() as int
        } else {
            10
        },
    );
    if total > 300 {
        300 + (total - 300) / 2
    } else {
        total
    }
}

/// Ability `i` of a player, at most 99.
pub open spec fn stat(pl: Player, i: int) -> int {
    if pl.stats@[i] < 99 {
        pl.stats@[i] as int
    } else {
        99
    }
}

/// What a percentage of `v` is.
pub open spec fn percent(v: int, p: int) -> int {
    v * p / 100
}

/// What the first `k` fielding aptitudes are worth: in full at the main
/// position, a tenth elsewhere.
pub open spec fn fielding_worth(pl: Player, k: int) -> int
    decreases k,
{
    if k <= 0 {
        0
    } else {
        fielding_worth(pl, k - 1) + if pl.pos == k {
            rating(pl.field@[k - 1] as int)
        } else {
            rating(pl.field@[k - 1] as int) / 10
        }
    }
}

/// What the catcher's lead is worth.
pub open spec fn lead_worth(v: u8) -> int {
    if v == 1 {
        1
    } else if v == 2 {
        3
    } else if v == 3 {
        5
    } else if v == 4 {
        8
    } else if v == 5 {
        12
    } else if v == 6 {
        17
    } else if v == 7 {
        23
    } else {
        0
    }
}

/// What a player is worth as a catcher, given the worth of the arm.
pub open spec fn catching_worth(pl: Player) -> int {
    let fit = pl.field@[0] as int;
    let arm = rating(stat(pl, 4));
    let times = if fit / 20 < 1 {
        1
    } else if fit / 20 > 4 {
        4
    } else {
        fit / 20
    };
    if fit == 0 {
        0
    } else {
        arm / 3 * fit / 100 + lead_worth(pl.catcher) * times
    }
}

/// What counts for everybody.
pub open spec fn common_worth(pl: Player) -> int {
    percent(rating(stat(pl, 7)), 40) + specials_worth(pl.abil@, COMMON_SPECIALS@)
}

/// What a player is worth in the field and at bat.
pub open spec fn fielder_worth(pl: Player) -> int {
    (rating(stat(pl, 1)) + rating(stat(pl, 0))) * 140 / 200 + percent(rating(stat(pl, 2)), 160)
        + percent(rating(stat(pl, 3)), 50) + percent(fielding_worth(pl, 8), 50) + percent(
        rating(stat(pl, 5)),
        40,
    ) + percent(rating(stat(pl, 6)), 40) + percent(rating(stat(pl, 4)), 40) + catching_worth(pl)
        + if pl.batting_style != 1 {
        3int
    } else {
        0int
    } + specials_worth(pl.abil@, FIELDER_SPECIALS@)
}

/// What a player is worth on the mound.
pub open spec fn pitcher_worth(pl: Player) -> int {
    speed_rating(pl.speed as int) + trait_rating(pl.pitch_traits@[0]) + trait_rating(
        pl.pitch_traits@[1],
    ) + trait_rating(pl.pitch_traits@[2]) + percent(rating(pl.stamina as int), 50) + percent(
        rating(pl.defense as int),
        30,
    ) + pitches_worth(pl.balls@) - 4 + specials_worth(pl.abil@, PITCHER_SPECIALS@)
}

/// The highest of the first `k` fielding aptitudes.
pub open spec fn best_field(pl: Player, k: int) -> int
    decreases k,
{
    if k <= 0 {
        0
    } else {
        let rest = best_field(pl, k - 1);
        if pl.field@[k - 1] > rest {
            pl.field@[k - 1] as int
        } else {
            rest
        }
    }
}

/// `v` brought into the range from 0 to 999.
pub open spec fn in_range(v: int) -> int {
    if v < 0 {
        0
    } else if v > 999 {
        999
    } else {
        v
    }
}

/// What a pitcher who also bats is worth, if that is more.
pub open spec fn hybrid_worth(pl: Player) -> Option<int> {
    let best = best_field(pl, 8);
    let batting = stat(pl, 0) + stat(pl, 1) + stat(pl, 2);
    let w = (best + batting) / 8;
    let hybrid = toward_zero(fielder_worth(pl) * w, 100) + toward_zero(
        pitcher_worth(pl) * (100 - w / 3),
        100,
    );
    if best >= 20 && batting >= 150 && hybrid > pitcher_worth(pl) {
        Some(hybrid)
    } else {
        None
    }
}

/// The overall rating of a player.
pub open spec fn overall_of(pl: Player) -> int {
    if pl.pos != 0 {
        in_range(common_worth(pl) + fielder_worth(pl))
    } else {
        match hybrid_worth(pl) {
            Some(h) => in_range(common_worth(pl) + h),
            None => in_range(
                common_worth(pl) + pitcher_worth(pl) + percent(rating(stat(pl, 5)), 20) + percent(
                    rating(stat(pl, 6)),
                    20,
                ) + percent(rating(stat(pl, 4)), 20),
            ),
        }
    }
}

fn rate(v: i32) -> (res: i32)
    requires
        0 <= v <= 65535,
    ensures
        res == rating(v as int),
        0 <= res <= 200000,
{
    if v > 89 {
        (v - 90) * 20 / 10 + 101
    } else if v > 79 {
        (v - 80) * 18 / 10 + 83
    } else if v > 69 {
        (v - 70) * 16 / 10 + 67
    } else if v > 59 {
        (v - 60) * 14 / 10 + 53
    } else if v > 49 {
        (v - 50) * 12 / 10 + 41
    } else if v > 39 {
        (v - 40) * 11 / 10 + 30
    } else if v > 19 {
        v - 10
    } else {
        v / 2
    }
}

fn rate_speed(v: i32) -> (res: i32)
    requires
        0 <= v <= 65535,
    ensures
        res == speed_rating(v as int),
        0 <= res <= 400000,
{
    if v > 169 {
        (v - 170) * 24 / 5 + 151
    } else if v > 164 {
        (v - 165) * 22 / 5 + 129
    } else if v > 159 {
        (v - 160) * 20 / 5 + 109
    } else if v > 154 {
        (v - 155) * 18 / 5 + 91
    } else if v > 149 {
        (v - 150) * 16 / 5 + 75
    } else if v > 144 {
        (v - 145) * 15 / 5 + 60
    } else if v > 139 {
        (v - 140) * 14 / 5 + 46
    } else if v > 134 {
        (v - 135) * 13 / 5 + 33
    } else if v > 129 {
        (v - 130) * 12 / 5 + 21
    } else if v > 124 {
        (v - 125) * 11 / 5 + 10
    } else if v > 120 {
        v * 2 - 240
    } else {
        0
    }
}

fn rate_trait(v: u8) -> (res: i32)
    ensures
        res == trait_rating(v),
        0 <= res <= 4,
{
    match v {
        1 | 2 => 1,
        3 | 4 | 5 | 6 => 2,
        7 => 4,
        _ => 0,
    }
}

proof fn special_fields_fit(id: int)
    requires
        0 <= id < 65,
    ensures
        SPECIAL_FIELDS@[id].0 < 14,
        SPECIAL_FIELDS@[id].1 >= 1,
        2 <= SPECIAL_FIELDS@[id].2 <= 4 || (SPECIAL_FIELDS@[id].2 == 8 && SPECIAL_FIELDS@[id].3),
{
    let f = SPECIAL_FIELDS@;
    assert(f[0] == (13usize, 64u32, 2u32, false));
    assert(f[1] == (11usize, 16u32, 4u32, true));
    assert(f[2] == (5usize, 1u32, 8u32, true));
    assert(f[3] == (0usize, 8u32, 2u32, false));
    assert(f[4] == (0usize, 128u32, 2u32, false));
    assert(f[5] == (5usize, 16u32, 4u32, false));
    assert(f[6] == (1usize, 8u32, 2u32, false));
    assert(f[7] == (0usize, 1u32, 8u32, true));
    assert(f[8] == (0usize, 16u32, 8u32, true));
    assert(f[9] == (1usize, 128u32, 2u32, false));
    assert(f[10] == (2usize, 8u32, 2u32, false));
    assert(f[11] == (2usize, 128u32, 2u32, false));
    assert(f[12] == (3usize, 8u32, 2u32, false));
    assert(f[13] == (5usize, 64u32, 4u32, true));
    assert(f[14] == (3usize, 128u32, 2u32, false));
    assert(f[15] == (6usize, 1u32, 4u32, false));
    assert(f[16] == (4usize, 8u32, 2u32, false));
    assert(f[17] == (4usize, 128u32, 2u32, false));
    assert(f[18] == (6usize, 4u32, 4u32, true));
    assert(f[19] == (5usize, 8u32, 2u32, false));
    assert(f[20] == (11usize, 64u32, 2u32, false));
    assert(f[21] == (6usize, 16u32, 4u32, true));
    assert(f[22] == (11usize, 128u32, 2u32, false));
    assert(f[23] == (12usize, 1u32, 2u32, false));
    assert(f[24] == (6usize, 64u32, 4u32, false));
    assert(f[25] == (7usize, 64u32, 4u32, true));
    assert(f[26] == (12usize, 8u32, 2u32, false));
    assert(f[27] == (8usize, 1u32, 4u32, true));
    assert(f[28] == (8usize, 4u32, 4u32, true));
    assert(f[29] == (12usize, 16u32, 2u32, false));
    assert(f[30] == (8usize, 16u32, 4u32, false));
    assert(f[31] == (12usize, 32u32, 2u32, false));
    assert(f[32] == (8usize, 64u32, 4u32, false));
    assert(f[33] == (1usize, 1u32, 8u32, true));
    assert(f[34] == (9usize, 1u32, 4u32, true));
    assert(f[35] == (1usize, 16u32, 8u32, true));
    assert(f[36] == (9usize, 4u32, 4u32, true));
    assert(f[37] == (2usize, 1u32, 8u32, true));
    assert(f[38] == (2usize, 16u32, 8u32, true));
    assert(f[39] == (9usize, 16u32, 4u32, true));
    assert(f[40] == (9usize, 64u32, 4u32, true));
    assert(f[41] == (12usize, 64u32, 2u32, false));
    assert(f[42] == (10usize, 1u32, 4u32, true));
    assert(f[43] == (12usize, 128u32, 2u32, false));
    assert(f[44] == (10usize, 4u32, 4u32, true));
    assert(f[45] == (10usize, 16u32, 4u32, true));
    assert(f[46] == (10usize, 64u32, 4u32, true));
    assert(f[47] == (11usize, 1u32, 4u32, true));
    assert(f[48] == (13usize, 1u32, 2u32, false));
    assert(f[49] == (13usize, 2u32, 2u32, false));
    assert(f[50] == (3usize, 1u32, 8u32, true));
    assert(f[51] == (3usize, 16u32, 8u32, true));
    assert(f[52] == (13usize, 4u32, 2u32, false));
    assert(f[53] == (13usize, 8u32, 2u32, false));
    assert(f[54] == (11usize, 4u32, 4u32, true));
    assert(f[55] == (4usize, 1u32, 8u32, true));
    assert(f[56] == (4usize, 16u32, 8u32, true));
    assert(f[57] == (13usize, 16u32, 2u32, false));
    assert(f[58] == (13usize, 32u32, 2u32, false));
    assert(f[59] == (7usize, 1u32, 4u32, true));
    assert(f[60] == (12usize, 2u32, 2u32, false));
    assert(f[61] == (7usize, 4u32, 4u32, true));
    assert(f[62] == (7usize, 16u32, 4u32, false));
    assert(f[63] == (12usize, 4u32, 2u32, false));
    assert(f[64] == (13usize, 128u32, 2u32, false));
}

fn special_count(id: usize, v: i32) -> (res: i32)
    requires
        -4 <= v <= 3,
    ensures
        res == special_raw(id as int, v as int),
        -200 <= res <= 200,
{
    if v == 0 {
        return 0;
    }
    match id {
        0x00 | 0x01 | 0x0e | 0x1b | 0x31 | 0x34 | 0x39 | 0x3a | 0x3c => 10,
        0x02 | 0x26 => v * 15,
        0x03 | 0x1a | 0x1d | 0x21 | 0x23 | 0x30 | 0x3f => 50,
        0x04 => 20,
        0x05 => if v == 1 {
            25
        } else if v == 2 {
            50
        } else {
            0
        },
        0x06 | 0x40 => 60,
        0x07 | 0x18 | 0x28 | 0x2e | 0x32 | 0x33 | 0x36 | 0x37 | 0x3e => v * 25,
        0x08 | 0x25 | 0x38 | 0x3b => v * 30,
        0x09 | 0x0b | 0x0c | 0x0d | 0x10 | 0x11 | 0x17 | 0x1f | 0x29 | 0x35 => 25,
        0x0a | 0x13 | 0x14 | 0x16 | 0x2b => 15,
        0x0f | 0x1e => if v == 1 {
            40
        } else if v == 2 {
            100
        } else {
            0
        },
        0x12 => if v == -1 {
            40
        } else if v == 1 {
            100
        } else {
            0
        },
        0x15 | 0x22 => if v == -1 {
            -30
        } else if v == 1 {
            25
        } else {
            0
        },
        0x19 | 0x24 | 0x2a | 0x2c | 0x2d => -25,
        0x1c => v * 50,
        0x20 | 0x3d => v * 10,
        0x27 => if v == -1 {
            20
        } else if v == 1 {
            60
        } else {
            0
        },
        0x2f => -40,
        _ => 0,
    }
}

fn special(a: &[u8; 14], id: usize) -> (res: i32)
    requires
        id < 65,
    ensures
        res == special_worth(a@, id as int),
        -50 <= res <= 50,
{
    let (byte, below, width, signed) = SPECIAL_FIELDS[id];
    proof {
        special_fields_fit(id as int);
    }
    let x: i32 = (a[byte] as u32 / below % width) as i32;
    let v: i32 = if signed && x >= width as i32 / 2 {
        x - width as i32
    } else {
        x
    };
    assert(v == special_value(a@, id as int));
    assert(-4 <= v <= 3);
    let raw: i32 = special_count(id, v);
    if raw == 0 {
        return 0;
    }
    let q: i32 = raw / 4;
    if q == 0 {
        if raw >= 0 {
            1
        } else {
            -1
        }
    } else {
        q
    }
}

fn specials(a: &[u8; 14], ids: &[usize]) -> (res: i32)
    requires
        ids@.len() <= 65,
        forall|i: int| 0 <= i < ids@.len() ==> #[trigger] ids@[i] < 65,
    ensures
        res == specials_worth(a@, ids@),
        -50 * ids@.len() <= res <= 50 * ids@.len(),
{
    let mut sum: i32 = 0;
    let mut i: usize = 0;
    while i < ids.len()
        invariant
            i <= ids@.len() <= 65,
            forall|i: int| 0 <= i < ids@.len() ==> #[trigger] ids@[i] < 65,
            sum == specials_worth(a@, ids@.take(i as int)),
            -50 * i <= sum <= 50 * i,
        decreases ids@.len() - i,
    {
        assert(ids@.take(i + 1).drop_last() =~= ids@.take(i as int));
        sum = sum + special(a, ids[i]);
        i += 1;
    }
    assert(ids@.take(i as int) =~= ids@);
    sum
}

fn power_of(v: u8) -> (res: i32)
    ensures
        res == power_worth(v),
        0 <= res <= 90,
{
    match v % 8 {
        0 => 0,
        1 => 1,
        2 => 3,
        3 => 6,
        4 => 15,
        5 => 30,
        6 => 60,
        _ => 90,
    }
}

fn move_of(v: u8) -> (res: i32)
    ensures
        res == move_worth(v),
        0 <= res <= 32,
{
    match v % 8 {
        0 => 0,
        1 => 1,
        2 => 3,
        3 => 5,
        4 => 12,
        5 => 18,
        6 => 25,
        _ => 32,
    }
}

fn control_of(v: u8) -> (res: i32)
    ensures
        res == control_worth(v),
        0 <= res <= 18,
{
    match v % 8 {
        0 => 0,
        1 => 1,
        2 => 2,
        3 => 4,
        4 => 6,
        5 => 9,
        6 => 12,
        _ => 18,
    }
}

fn rarity_of(id: u8) -> (res: i32)
    ensures
        res == rarity_worth(id),
        0 <= res <= 5,
{
    match id {
        2 | 7 | 12 | 22 | 27 | 28 | 32 | 36 | 38 | 39 => 3,
        13 | 16 | 41 | 42 | 43 => 5,
        _ => 0,
    }
}

fn pitch(slot: usize, b: Ball) -> (res: i32)
    ensures
        res == pitch_worth(slot as int, b),
        0 <= res <= 200,
{
    let id: u8 = b.id % 128;
    let mut score: i32 = power_of(b.power);
    if slot == 5 || slot == 11 {
        score = score * 150 / 100;
    } else if ball_dir(id) != Some(5usize) {
        score = score + move_of(b.move_);
    }
    score + control_of(b.control) + rarity_of(id)
}

proof fn falling_is_total()
    ensures
        total_ordering(|a: i32, b: i32| a >= b),
{
}

/// Puts `x` into falling scores.
fn insert_falling(s: &mut Vec<i32>, x: i32)
    requires
        sorted_by(old(s)@, |a: i32, b: i32| a >= b),
        forall|i: int| 0 <= i < old(s)@.len() ==> 0 <= #[trigger] old(s)@[i] <= 200,
        0 <= x <= 200,
    ensures
        sorted_by(final(s)@, |a: i32, b: i32| a >= b),
        final(s)@.to_multiset() == old(s)@.to_multiset().insert(x),
        final(s)@.len() == old(s)@.len() + 1,
        forall|i: int| 0 <= i < final(s)@.len() ==> 0 <= #[trigger] final(s)@[i] <= 200,
{
    let ghost falling = |a: i32, b: i32| a >= b;
    let ghost before = s@;
    let mut i: usize = 0;
    while i < s.len() && s[i] >= x
        invariant
            i <= s@.len(),
            s@ == before,
            forall|j: int| 0 <= j < i ==> #[trigger] before[j] >= x,
        decreases s@.len() - i,
    {
        i += 1;
    }
    s.insert(i, x);
    proof {
        vstd::seq_lib::to_multiset_insert(before, i as int, x);
        before.insert_ensures(i as int, x);
        assert forall|j: int, k: int| 0 <= j < k < s@.len() implies #[trigger] falling(s@[j], s@[k]) by {
            let fj = if j < i { j } else { j - 1 };
            let fk = if k < i { k } else { k - 1 };
            if j != i && k != i {
                assert(falling(before[fj], before[fk]));
            } else if j == i {
                assert(s@[k] == before[fk]);
                assert(fk >= i);
                if fk > i {
                    assert(falling(before[i as int], before[fk]));
                }
            } else {
                assert(s@[j] == before[j]);
            }
        }
        assert forall|j: int| 0 <= j < s@.len() implies 0 <= #[trigger] s@[j] <= 200 by {
            if j < i {
                assert(s@[j] == before[j]);
            } else if j > i {
                assert(s@[j] == before[j - 1]);
            }
        }
    }
}

fn pitches(balls: &Vec<Ball>) -> (res: i32)
    ensures
        res == pitches_worth(balls@),
        0 <= res <= 3000,
{
    let n: usize = if balls.len() < 12 {
        balls.len()
    } else {
        12
    };
    let ghost falling = |a: i32, b: i32| a >= b;
    let mut s: Vec<i32> = Vec::new();
    let mut k: usize = 0;
    while k < n
        invariant
            k <= n <= 12,
            n <= balls@.len(),
            falling == (|a: i32, b: i32| a >= b),
            sorted_by(s@, falling),
            s@.to_multiset() == pitch_scores(balls@, k as int).to_multiset(),
            s@.len() <= k,
            forall|i: int| 0 <= i < s@.len() ==> 0 <= #[trigger] s@[i] <= 200,
        decreases n - k,
    {
        let b = balls[k];
        if b.id % 128 != BALL_EMPTY {
            let x = pitch(k, b);
            proof {
                vstd::seq_lib::to_multiset_build(pitch_scores(balls@, k as int), x);
            }
            insert_falling(&mut s, x);
        }
        k += 1;
    }
    proof {
        let all = pitch_scores(balls@, n as int);
        falling_is_total();
        all.lemma_sort_by_ensures(falling);
        vstd::seq_lib::lemma_sorted_unique(s@, all.sort_by(falling), falling);
        assert(s@ == ranked(all));
    }
    let m: usize = if s.len() < 10 {
        s.len()
    } else {
        10
    };
    let mut total: i32 = 0;
    let mut i: usize = 0;
    while i < m
        invariant
            i <= m <= 10,
            m <= s@.len(),
            forall|i: int| 0 <= i < s@.len() ==> 0 <= #[trigger] s@[i] <= 200,
            total == weighted(s@, i as int),
            0 <= total <= 200 * i,
        decreases m - i,
    {
        let w: i32 = if i < 3 {
            100
        } else {
            120 - i as i32 * 10
        };
        let x: i32 = s[i];
        assert(0 <= x * w <= 200 * 100) by (nonlinear_arith)
            requires
                0 <= x <= 200,
                0 <= w <= 100,
        ;
        total = total + x * w / 100;
        i += 1;
    }
    if total > 300 {
        300 + (total - 300) / 2
    } else {
        total
    }
}

fn fielder_sum(
    cl: i32,
    cr: i32,
    power: i32,
    speed: i32,
    fielding: i32,
    throw_: i32,
    catch: i32,
    arm: i32,
) -> (res: i32)
    requires
        0 <= cl <= 1000,
        0 <= cr <= 1000,
        0 <= power <= 1000,
        0 <= speed <= 1000,
        0 <= fielding <= 8000,
        0 <= throw_ <= 1000,
        0 <= catch <= 1000,
        0 <= arm <= 1000,
    ensures
        res == (cl + cr) * 140 / 200 + percent(power as int, 160) + percent(speed as int, 50) + percent(
            fielding as int,
            50,
        ) + percent(throw_ as int, 40) + percent(catch as int, 40) + percent(arm as int, 40),
        0 <= res <= 20000,
{
    (cl + cr) * 140 / 200 + power * 160 / 100 + speed * 50 / 100 + fielding * 50 / 100 + throw_ * 40
        / 100 + catch * 40 / 100 + arm * 40 / 100
}

impl Player {
    fn rated(&self, i: usize) -> (res: i32)
        requires
            i < 8,
        ensures
            res == rating(stat(*self, i as int)),
            0 <= res <= 1000,
    {
        rate(self.stat_at(i))
    }

    fn stat_at(&self, i: usize) -> (res: i32)
        requires
            i < 8,
        ensures
            res == stat(*self, i as int),
            0 <= res <= 99,
    {
        if self.stats[i] < 99 {
            self.stats[i] as i32
        } else {
            99
        }
    }

    fn common(&self) -> (res: i32)
        ensures
            res == common_worth(*self),
            -1000 <= res <= 100000,
    {
        let c = COMMON_SPECIALS;
        assert(c@[0] == 0 && c@[1] == 1 && c@[2] == 2 && c@[3] == 0x3d);
        self.rated(7) * 40 / 100 + specials(&self.abil, &c)
    }

    fn catching(&self, arm: i32) -> (res: i32)
        requires
            arm == rating(stat(*self, 4)),
            0 <= arm <= 1000,
        ensures
            res == catching_worth(*self),
            0 <= res <= 3000,
    {
        let fit: i32 = self.field[0] as i32;
        if fit == 0 {
            return 0;
        }
        let times: i32 = if fit / 20 < 1 {
            1
        } else if fit / 20 > 4 {
            4
        } else {
            fit / 20
        };
        let lead: i32 = match self.catcher {
            1 => 1,
            2 => 3,
            3 => 5,
            4 => 8,
            5 => 12,
            6 => 17,
            7 => 23,
            _ => 0,
        };
        assert(0 <= arm / 3 * fit <= 334 * 255) by (nonlinear_arith)
            requires
                0 <= arm <= 1000,
                0 <= fit <= 255,
        ;
        assert(0 <= lead * times <= 92) by (nonlinear_arith)
            requires
                0 <= lead <= 23,
                1 <= times <= 4,
        ;
        arm / 3 * fit / 100 + lead * times
    }

    fn fielding(&self) -> (res: i32)
        ensures
            res == fielding_worth(*self, 8),
            0 <= res <= 8 * 1000,
    {
        let mut sum: i32 = 0;
        let mut k: usize = 0;
        while k < 8
            invariant
                k <= 8,
                sum == fielding_worth(*self, k as int),
                0 <= sum <= 1000 * k,
            decreases 8 - k,
        {
            let x: i32 = rate(self.field[k] as i32);
            k += 1;
            if self.pos as usize == k {
                sum = sum + x;
            } else {
                sum = sum + x / 10;
            }
        }
        sum
    }

    fn fielder(&self) -> (res: i32)
        ensures
            res == fielder_worth(*self),
            -10000 <= res <= 100000,
    {
        let c = FIELDER_SPECIALS;
        proof {
            fielder_ids_fit();
        }
        let cr: i32 = self.rated(0);
        let cl: i32 = self.rated(1);
        let power: i32 = self.rated(2);
        let speed: i32 = self.rated(3);
        let arm: i32 = self.rated(4);
        let throw_: i32 = self.rated(5);
        let catch: i32 = self.rated(6);
        let style: i32 = if self.batting_style != 1 {
            3
        } else {
            0
        };
        fielder_sum(cl, cr, power, speed, self.fielding(), throw_, catch, arm) + self.catching(arm)
            + style + specials(&self.abil, &c)
    }

    fn pitcher(&self) -> (res: i32)
        ensures
            res == pitcher_worth(*self),
            -10000 <= res <= 1000000,
    {
        let c = PITCHER_SPECIALS;
        proof {
            pitcher_ids_fit();
        }
        rate_speed(self.speed as i32) + rate_trait(self.pitch_traits[0]) + rate_trait(
            self.pitch_traits[1],
        ) + rate_trait(self.pitch_traits[2]) + rate(self.stamina as i32) * 50 / 100 + rate(
            self.defense as i32,
        ) * 30 / 100 + pitches(&self.balls) - 4 + specials(&self.abil, &c)
    }

    fn best_aptitude(&self) -> (res: i32)
        ensures
            res == best_field(*self, 8),
            0 <= res <= 255,
    {
        let mut best: i32 = 0;
        let mut k: usize = 0;
        while k < 8
            invariant
                k <= 8,
                best == best_field(*self, k as int),
                0 <= best <= 255,
            decreases 8 - k,
        {
            if self.field[k] as i32 > best {
                best = self.field[k] as i32;
            }
            k += 1;
        }
        best
    }

    /// The overall rating, 0 to 999.
    pub fn overall(&self) -> (res: i32)
        ensures
            res == overall_of(*self),
            0 <= res <= 999,
    {
        let common: i32 = self.common();
        let fielder: i32 = self.fielder();
        if self.pos != 0 {
            return clamp_overall(common + fielder);
        }
        let pitcher: i32 = self.pitcher();
        let best: i32 = self.best_aptitude();
        let batting: i32 = self.stat_at(0) + self.stat_at(1) + self.stat_at(2);
        if best >= 20 && batting >= 150 {
            let w: i32 = (best + batting) / 8;
            assert(-10000 * 69 <= fielder * w <= 100000 * 69) by (nonlinear_arith)
                requires
                    -10000 <= fielder <= 100000,
                    0 <= w <= 69,
            ;
            let u: i32 = 100 - w / 3;
            assert(-10000 * 100 <= pitcher * u <= 1000000 * 100) by (nonlinear_arith)
                requires
                    -10000 <= pitcher <= 1000000,
                    0 <= u <= 100,
            ;
            let hybrid: i32 = fielder * w / 100 + pitcher * u / 100;
            if hybrid > pitcher {
                return clamp_overall(common + hybrid);
            }
        }
        clamp_overall(
            common + pitcher + self.rated(5) * 20 / 100 + self.rated(6) * 20 / 100
                + self.rated(4) * 20 / 100,
        )
    }
}

fn clamp_overall(v: i32) -> (res: i32)
    ensures
        res == in_range(v as int),
{
    if v < 0 {
        0
    } else if v > 999 {
        999
    } else {
        v
    }
}

proof fn fielder_ids_fit()
    ensures
        forall|i: int| 0 <= i < 33 ==> #[trigger] FIELDER_SPECIALS@[i] < 65,
{
    let f = FIELDER_SPECIALS@;
    assert(f[0] == 0x03);
    assert(f[1] == 0x04);
    assert(f[2] == 0x05);
    assert(f[3] == 0x06);
    assert(f[4] == 0x07);
    assert(f[5] == 0x08);
    assert(f[6] == 0x09);
    assert(f[7] == 0x0a);
    assert(f[8] == 0x0b);
    assert(f[9] == 0x0c);
    assert(f[10] == 0x0d);
    assert(f[11] == 0x0e);
    assert(f[12] == 0x0f);
    assert(f[13] == 0x10);
    assert(f[14] == 0x11);
    assert(f[15] == 0x12);
    assert(f[16] == 0x13);
    assert(f[17] == 0x14);
    assert(f[18] == 0x15);
    assert(f[19] == 0x16);
    assert(f[20] == 0x17);
    assert(f[21] == 0x18);
    assert(f[22] == 0x34);
    assert(f[23] == 0x35);
    assert(f[24] == 0x36);
    assert(f[25] == 0x37);
    assert(f[26] == 0x38);
    assert(f[27] == 0x39);
    assert(f[28] == 0x3a);
    assert(f[29] == 0x3c);
    assert(f[30] == 0x3e);
    assert(f[31] == 0x3f);
    assert(f[32] == 0x40);
}

proof fn pitcher_ids_fit()
    ensures
        forall|i: int| 0 <= i < 28 ==> #[trigger] PITCHER_SPECIALS@[i] < 65,
{
    let f = PITCHER_SPECIALS@;
    assert(f[0] == 0x19);
    assert(f[1] == 0x1a);
    assert(f[2] == 0x1b);
    assert(f[3] == 0x1c);
    assert(f[4] == 0x1d);
    assert(f[5] == 0x1e);
    assert(f[6] == 0x1f);
    assert(f[7] == 0x20);
    assert(f[8] == 0x21);
    assert(f[9] == 0x22);
    assert(f[10] == 0x23);
    assert(f[11] == 0x24);
    assert(f[12] == 0x25);
    assert(f[13] == 0x26);
    assert(f[14] == 0x27);
    assert(f[15] == 0x28);
    assert(f[16] == 0x29);
    assert(f[17] == 0x2a);
    assert(f[18] == 0x2b);
    assert(f[19] == 0x2c);
    assert(f[20] == 0x2d);
    assert(f[21] == 0x2e);
    assert(f[22] == 0x2f);
    assert(f[23] == 0x30);
    assert(f[24] == 0x31);
    assert(f[25] == 0x32);
    assert(f[26] == 0x33);
    assert(f[27] == 0x3b);
}

} // verus!

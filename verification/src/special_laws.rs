//! What special abilities are worth, and where their values stand.

use vstd::prelude::*;

use crate::abil::nib;
use crate::overall::{
    quarter, special_raw, special_value, special_worth, specials_worth, COMMON_SPECIALS,
    FIELDER_SPECIALS, PITCHER_SPECIALS, SPECIAL_FIELDS,
};

verus! {

/// Where special ability `id` stands: its half byte, the weight of its lowest
/// bit, how many values it takes, and whether it can be negative.
pub open spec fn place_of(id: int) -> (int, int, int, bool) {
    if id == 0x00 {
        (27, 4, 2, false)
    } else if id == 0x01 {
        (23, 1, 4, true)
    } else if id == 0x02 {
        (10, 1, 8, true)
    } else if id == 0x03 {
        (0, 8, 2, false)
    } else if id == 0x04 {
        (1, 8, 2, false)
    } else if id == 0x05 {
        (11, 1, 4, false)
    } else if id == 0x06 {
        (2, 8, 2, false)
    } else if id == 0x07 {
        (0, 1, 8, true)
    } else if id == 0x08 {
        (1, 1, 8, true)
    } else if id == 0x09 {
        (3, 8, 2, false)
    } else if id == 0x0a {
        (4, 8, 2, false)
    } else if id == 0x0b {
        (5, 8, 2, false)
    } else if id == 0x0c {
        (6, 8, 2, false)
    } else if id == 0x0d {
        (11, 4, 4, true)
    } else if id == 0x0e {
        (7, 8, 2, false)
    } else if id == 0x0f {
        (12, 1, 4, false)
    } else if id == 0x10 {
        (8, 8, 2, false)
    } else if id == 0x11 {
        (9, 8, 2, false)
    } else if id == 0x12 {
        (12, 4, 4, true)
    } else if id == 0x13 {
        (10, 8, 2, false)
    } else if id == 0x14 {
        (23, 4, 2, false)
    } else if id == 0x15 {
        (13, 1, 4, true)
    } else if id == 0x16 {
        (23, 8, 2, false)
    } else if id == 0x17 {
        (24, 1, 2, false)
    } else if id == 0x18 {
        (13, 4, 4, false)
    } else if id == 0x19 {
        (15, 4, 4, true)
    } else if id == 0x1a {
        (24, 8, 2, false)
    } else if id == 0x1b {
        (16, 1, 4, true)
    } else if id == 0x1c {
        (16, 4, 4, true)
    } else if id == 0x1d {
        (25, 1, 2, false)
    } else if id == 0x1e {
        (17, 1, 4, false)
    } else if id == 0x1f {
        (25, 2, 2, false)
    } else if id == 0x20 {
        (17, 4, 4, false)
    } else if id == 0x21 {
        (2, 1, 8, true)
    } else if id == 0x22 {
        (18, 1, 4, true)
    } else if id == 0x23 {
        (3, 1, 8, true)
    } else if id == 0x24 {
        (18, 4, 4, true)
    } else if id == 0x25 {
        (4, 1, 8, true)
    } else if id == 0x26 {
        (5, 1, 8, true)
    } else if id == 0x27 {
        (19, 1, 4, true)
    } else if id == 0x28 {
        (19, 4, 4, true)
    } else if id == 0x29 {
        (25, 4, 2, false)
    } else if id == 0x2a {
        (20, 1, 4, true)
    } else if id == 0x2b {
        (25, 8, 2, false)
    } else if id == 0x2c {
        (20, 4, 4, true)
    } else if id == 0x2d {
        (21, 1, 4, true)
    } else if id == 0x2e {
        (21, 4, 4, true)
    } else if id == 0x2f {
        (22, 1, 4, true)
    } else if id == 0x30 {
        (26, 1, 2, false)
    } else if id == 0x31 {
        (26, 2, 2, false)
    } else if id == 0x32 {
        (6, 1, 8, true)
    } else if id == 0x33 {
        (7, 1, 8, true)
    } else if id == 0x34 {
        (26, 4, 2, false)
    } else if id == 0x35 {
        (26, 8, 2, false)
    } else if id == 0x36 {
        (22, 4, 4, true)
    } else if id == 0x37 {
        (8, 1, 8, true)
    } else if id == 0x38 {
        (9, 1, 8, true)
    } else if id == 0x39 {
        (27, 1, 2, false)
    } else if id == 0x3a {
        (27, 2, 2, false)
    } else if id == 0x3b {
        (14, 1, 4, true)
    } else if id == 0x3c {
        (24, 2, 2, false)
    } else if id == 0x3d {
        (14, 4, 4, true)
    } else if id == 0x3e {
        (15, 1, 4, false)
    } else if id == 0x3f {
        (24, 4, 2, false)
    } else if id == 0x40 {
        (27, 8, 2, false)
    } else {
        (0, 1, 1, false)
    }
}

/// What value `v` of special ability `id` counts for, in quarters of a point.
pub open spec fn points_of(id: int, v: int) -> int {
    if v == 0 {
        0
    } else if id == 0x00 {
        10
    } else if id == 0x01 {
        10
    } else if id == 0x02 {
        15 * v
    } else if id == 0x03 {
        50
    } else if id == 0x04 {
        20
    } else if id == 0x05 {
        if v == 1 {
            25
        } else if v == 2 {
            50
        } else {
            0
        }
    } else if id == 0x06 {
        60
    } else if id == 0x07 {
        25 * v
    } else if id == 0x08 {
        30 * v
    } else if id == 0x09 {
        25
    } else if id == 0x0a {
        15
    } else if id == 0x0b {
        25
    } else if id == 0x0c {
        25
    } else if id == 0x0d {
        25
    } else if id == 0x0e {
        10
    } else if id == 0x0f {
        if v == 1 {
            40
        } else if v == 2 {
            100
        } else {
            0
        }
    } else if id == 0x10 {
        25
    } else if id == 0x11 {
        25
    } else if id == 0x12 {
        if v == -1 {
            40
        } else if v == 1 {
            100
        } else {
            0
        }
    } else if id == 0x13 {
        15
    } else if id == 0x14 {
        15
    } else if id == 0x15 {
        if v == -1 {
            -30
        } else if v == 1 {
            25
        } else {
            0
        }
    } else if id == 0x16 {
        15
    } else if id == 0x17 {
        25
    } else if id == 0x18 {
        25 * v
    } else if id == 0x19 {
        -25
    } else if id == 0x1a {
        50
    } else if id == 0x1b {
        10
    } else if id == 0x1c {
        50 * v
    } else if id == 0x1d {
        50
    } else if id == 0x1e {
        if v == 1 {
            40
        } else if v == 2 {
            100
        } else {
            0
        }
    } else if id == 0x1f {
        25
    } else if id == 0x20 {
        10 * v
    } else if id == 0x21 {
        50
    } else if id == 0x22 {
        if v == -1 {
            -30
        } else if v == 1 {
            25
        } else {
            0
        }
    } else if id == 0x23 {
        50
    } else if id == 0x24 {
        -25
    } else if id == 0x25 {
        30 * v
    } else if id == 0x26 {
        15 * v
    } else if id == 0x27 {
        if v == -1 {
            20
        } else if v == 1 {
            60
        } else {
            0
        }
    } else if id == 0x28 {
        25 * v
    } else if id == 0x29 {
        25
    } else if id == 0x2a {
        -25
    } else if id == 0x2b {
        15
    } else if id == 0x2c {
        -25
    } else if id == 0x2d {
        -25
    } else if id == 0x2e {
        25 * v
    } else if id == 0x2f {
        -40
    } else if id == 0x30 {
        50
    } else if id == 0x31 {
        10
    } else if id == 0x32 {
        25 * v
    } else if id == 0x33 {
        25 * v
    } else if id == 0x34 {
        10
    } else if id == 0x35 {
        25
    } else if id == 0x36 {
        25 * v
    } else if id == 0x37 {
        25 * v
    } else if id == 0x38 {
        30 * v
    } else if id == 0x39 {
        10
    } else if id == 0x3a {
        10
    } else if id == 0x3b {
        30 * v
    } else if id == 0x3c {
        10
    } else if id == 0x3d {
        10 * v
    } else if id == 0x3e {
        25 * v
    } else if id == 0x3f {
        50
    } else if id == 0x40 {
        60
    } else {
        0
    }
}

proof fn fields_table()
    ensures
        SPECIAL_FIELDS@[0] == (13usize, 64u32, 2u32, false),
        SPECIAL_FIELDS@[1] == (11usize, 16u32, 4u32, true),
        SPECIAL_FIELDS@[2] == (5usize, 1u32, 8u32, true),
        SPECIAL_FIELDS@[3] == (0usize, 8u32, 2u32, false),
        SPECIAL_FIELDS@[4] == (0usize, 128u32, 2u32, false),
        SPECIAL_FIELDS@[5] == (5usize, 16u32, 4u32, false),
        SPECIAL_FIELDS@[6] == (1usize, 8u32, 2u32, false),
        SPECIAL_FIELDS@[7] == (0usize, 1u32, 8u32, true),
        SPECIAL_FIELDS@[8] == (0usize, 16u32, 8u32, true),
        SPECIAL_FIELDS@[9] == (1usize, 128u32, 2u32, false),
        SPECIAL_FIELDS@[10] == (2usize, 8u32, 2u32, false),
        SPECIAL_FIELDS@[11] == (2usize, 128u32, 2u32, false),
        SPECIAL_FIELDS@[12] == (3usize, 8u32, 2u32, false),
        SPECIAL_FIELDS@[13] == (5usize, 64u32, 4u32, true),
        SPECIAL_FIELDS@[14] == (3usize, 128u32, 2u32, false),
        SPECIAL_FIELDS@[15] == (6usize, 1u32, 4u32, false),
        SPECIAL_FIELDS@[16] == (4usize, 8u32, 2u32, false),
        SPECIAL_FIELDS@[17] == (4usize, 128u32, 2u32, false),
        SPECIAL_FIELDS@[18] == (6usize, 4u32, 4u32, true),
        SPECIAL_FIELDS@[19] == (5usize, 8u32, 2u32, false),
        SPECIAL_FIELDS@[20] == (11usize, 64u32, 2u32, false),
        SPECIAL_FIELDS@[21] == (6usize, 16u32, 4u32, true),
        SPECIAL_FIELDS@[22] == (11usize, 128u32, 2u32, false),
        SPECIAL_FIELDS@[23] == (12usize, 1u32, 2u32, false),
        SPECIAL_FIELDS@[24] == (6usize, 64u32, 4u32, false),
        SPECIAL_FIELDS@[25] == (7usize, 64u32, 4u32, true),
        SPECIAL_FIELDS@[26] == (12usize, 8u32, 2u32, false),
        SPECIAL_FIELDS@[27] == (8usize, 1u32, 4u32, true),
        SPECIAL_FIELDS@[28] == (8usize, 4u32, 4u32, true),
        SPECIAL_FIELDS@[29] == (12usize, 16u32, 2u32, false),
        SPECIAL_FIELDS@[30] == (8usize, 16u32, 4u32, false),
        SPECIAL_FIELDS@[31] == (12usize, 32u32, 2u32, false),
        SPECIAL_FIELDS@[32] == (8usize, 64u32, 4u32, false),
        SPECIAL_FIELDS@[33] == (1usize, 1u32, 8u32, true),
        SPECIAL_FIELDS@[34] == (9usize, 1u32, 4u32, true),
        SPECIAL_FIELDS@[35] == (1usize, 16u32, 8u32, true),
        SPECIAL_FIELDS@[36] == (9usize, 4u32, 4u32, true),
        SPECIAL_FIELDS@[37] == (2usize, 1u32, 8u32, true),
        SPECIAL_FIELDS@[38] == (2usize, 16u32, 8u32, true),
        SPECIAL_FIELDS@[39] == (9usize, 16u32, 4u32, true),
        SPECIAL_FIELDS@[40] == (9usize, 64u32, 4u32, true),
        SPECIAL_FIELDS@[41] == (12usize, 64u32, 2u32, false),
        SPECIAL_FIELDS@[42] == (10usize, 1u32, 4u32, true),
        SPECIAL_FIELDS@[43] == (12usize, 128u32, 2u32, false),
        SPECIAL_FIELDS@[44] == (10usize, 4u32, 4u32, true),
        SPECIAL_FIELDS@[45] == (10usize, 16u32, 4u32, true),
        SPECIAL_FIELDS@[46] == (10usize, 64u32, 4u32, true),
        SPECIAL_FIELDS@[47] == (11usize, 1u32, 4u32, true),
        SPECIAL_FIELDS@[48] == (13usize, 1u32, 2u32, false),
        SPECIAL_FIELDS@[49] == (13usize, 2u32, 2u32, false),
        SPECIAL_FIELDS@[50] == (3usize, 1u32, 8u32, true),
        SPECIAL_FIELDS@[51] == (3usize, 16u32, 8u32, true),
        SPECIAL_FIELDS@[52] == (13usize, 4u32, 2u32, false),
        SPECIAL_FIELDS@[53] == (13usize, 8u32, 2u32, false),
        SPECIAL_FIELDS@[54] == (11usize, 4u32, 4u32, true),
        SPECIAL_FIELDS@[55] == (4usize, 1u32, 8u32, true),
        SPECIAL_FIELDS@[56] == (4usize, 16u32, 8u32, true),
        SPECIAL_FIELDS@[57] == (13usize, 16u32, 2u32, false),
        SPECIAL_FIELDS@[58] == (13usize, 32u32, 2u32, false),
        SPECIAL_FIELDS@[59] == (7usize, 1u32, 4u32, true),
        SPECIAL_FIELDS@[60] == (12usize, 2u32, 2u32, false),
        SPECIAL_FIELDS@[61] == (7usize, 4u32, 4u32, true),
        SPECIAL_FIELDS@[62] == (7usize, 16u32, 4u32, false),
        SPECIAL_FIELDS@[63] == (12usize, 4u32, 2u32, false),
        SPECIAL_FIELDS@[64] == (13usize, 128u32, 2u32, false),
{
}

proof fn half_of_byte(x: int, d: int, w: int)
    requires
        0 <= x < 256,
        d == 1 || d == 2 || d == 4 || d == 8,
        w == 2 || w == 4 || w == 8,
        d * w <= 16,
    ensures
        x % 16 / d % w == x / d % w,
        x / 16 / d % w == x / (16 * d) % w,
{
    if d == 1 && w == 2 {
        assert(x % 16 / 1 % 2 == x / 1 % 2);
        assert(x / 16 / 1 % 2 == x / 16 % 2);
    } else if d == 1 && w == 4 {
        assert(x % 16 / 1 % 4 == x / 1 % 4);
        assert(x / 16 / 1 % 4 == x / 16 % 4);
    } else if d == 1 && w == 8 {
        assert(x % 16 / 1 % 8 == x / 1 % 8);
        assert(x / 16 / 1 % 8 == x / 16 % 8);
    } else if d == 2 && w == 2 {
        assert(x % 16 / 2 % 2 == x / 2 % 2);
        assert(x / 16 / 2 % 2 == x / 32 % 2);
    } else if d == 2 && w == 4 {
        assert(x % 16 / 2 % 4 == x / 2 % 4);
        assert(x / 16 / 2 % 4 == x / 32 % 4);
    } else if d == 2 && w == 8 {
        assert(x % 16 / 2 % 8 == x / 2 % 8);
        assert(x / 16 / 2 % 8 == x / 32 % 8);
    } else if d == 4 && w == 2 {
        assert(x % 16 / 4 % 2 == x / 4 % 2);
        assert(x / 16 / 4 % 2 == x / 64 % 2);
    } else if d == 4 && w == 4 {
        assert(x % 16 / 4 % 4 == x / 4 % 4);
        assert(x / 16 / 4 % 4 == x / 64 % 4);
    } else if d == 8 && w == 2 {
        assert(x % 16 / 8 % 2 == x / 8 % 2);
        assert(x / 16 / 8 % 2 == x / 128 % 2);
    }
}

/// A special ability stands within one half byte. Grades and abilities with an
/// opposite are read as signed numbers, the others as plain ones.
pub proof fn special_abilities_stand_in_half_bytes(a: Seq<u8>, id: int)
    requires
        a.len() == 14,
        0 <= id < 65,
    ensures
        ({
            let (n, d, w, signed) = place_of(id);
            let x = nib(a, n) as int / d % w;
            &&& 0 <= n < 28
            &&& special_value(a, id) == if signed && x >= w / 2 {
                x - w
            } else {
                x
            }
        }),
{
    fields_table();
    let (n, d, w, signed) = place_of(id);
    half_of_byte(a[n / 2] as int, d, w);
}

/// The points of each special ability.
pub proof fn special_abilities_count(id: int, v: int)
    requires
        0 <= id < 65,
        -4 <= v <= 3,
    ensures
        special_raw(id, v) == points_of(id, v),
{
}

/// An ability that is not there is worth nothing. One that counts is worth a
/// quarter of its points, rounded towards nothing but never to it, and an
/// opposite as much less as the ability is more.
pub proof fn points_are_quartered(raw: int)
    ensures
        quarter(0) == 0,
        raw >= 4 ==> 4 * quarter(raw) <= raw < 4 * quarter(raw) + 4,
        0 < raw < 4 ==> quarter(raw) == 1,
        quarter(-raw) == -quarter(raw),
{
}

/// Every special ability counts for everybody, for fielders or for pitchers, and
/// for only one of the three.
pub proof fn every_special_ability_counts_once(id: usize)
    requires
        id < 65,
    ensures
        COMMON_SPECIALS@.contains(id) <==> id <= 2 || id == 0x3d,
        PITCHER_SPECIALS@.contains(id) <==> 0x19 <= id <= 0x33 || id == 0x3b,
        FIELDER_SPECIALS@.contains(id) <==> !COMMON_SPECIALS@.contains(id)
            && !PITCHER_SPECIALS@.contains(id),
        COMMON_SPECIALS@.no_duplicates(),
        PITCHER_SPECIALS@.no_duplicates(),
        FIELDER_SPECIALS@.no_duplicates(),
{
    let c = COMMON_SPECIALS@;
    let p = PITCHER_SPECIALS@;
    let f = FIELDER_SPECIALS@;
    assert(c[0] == 0 && c[1] == 1 && c[2] == 2 && c[3] == 0x3d);
    assert(p[0] == 0x19 && p[1] == 0x1a && p[2] == 0x1b && p[3] == 0x1c && p[4] == 0x1d && p[5] == 0x1e && p[6] == 0x1f && p[7] == 0x20 && p[8] == 0x21 && p[9] == 0x22 && p[10] == 0x23 && p[11] == 0x24 && p[12] == 0x25 && p[13] == 0x26 && p[14] == 0x27 && p[15] == 0x28 && p[16] == 0x29 && p[17] == 0x2a && p[18] == 0x2b && p[19] == 0x2c && p[20] == 0x2d && p[21] == 0x2e && p[22] == 0x2f && p[23] == 0x30 && p[24] == 0x31 && p[25] == 0x32 && p[26] == 0x33 && p[27] == 0x3b);
    assert(f[0] == 0x03 && f[1] == 0x04 && f[2] == 0x05 && f[3] == 0x06 && f[4] == 0x07 && f[5] == 0x08 && f[6] == 0x09 && f[7] == 0x0a && f[8] == 0x0b && f[9] == 0x0c && f[10] == 0x0d && f[11] == 0x0e && f[12] == 0x0f && f[13] == 0x10 && f[14] == 0x11 && f[15] == 0x12 && f[16] == 0x13 && f[17] == 0x14 && f[18] == 0x15 && f[19] == 0x16 && f[20] == 0x17 && f[21] == 0x18 && f[22] == 0x34 && f[23] == 0x35 && f[24] == 0x36 && f[25] == 0x37 && f[26] == 0x38 && f[27] == 0x39 && f[28] == 0x3a && f[29] == 0x3c && f[30] == 0x3e && f[31] == 0x3f && f[32] == 0x40);
    assert forall|i: int| 0 <= i < 27 implies #[trigger] p[i] == 0x19 + i by {}
    assert forall|i: int| 0 <= i < 22 implies #[trigger] f[i] == 3 + i by {}
    assert forall|i: int| 22 <= i < 29 implies #[trigger] f[i] == 0x34 + i - 22 by {}
    if 0x19 <= id <= 0x33 {
        assert(p[id - 0x19] == id);
    } else if 3 <= id <= 0x18 {
        assert(f[id - 3] == id);
    } else if 0x34 <= id <= 0x3a {
        assert(f[id - 0x34 + 22] == id);
    }
}

/// What a list of abilities is worth is what each of them is worth.
pub proof fn abilities_add_up(a: Seq<u8>, p: Seq<usize>, q: Seq<usize>, x: usize)
    ensures
        specials_worth(a, p + q) == specials_worth(a, p) + specials_worth(a, q),
        specials_worth(a, seq![x]) == special_worth(a, x as int),
    decreases q.len(),
{
    assert(seq![x].drop_last() =~= Seq::<usize>::empty());
    assert(specials_worth(a, Seq::<usize>::empty()) == 0);
    if q.len() == 0 {
        assert(p + q =~= p);
    } else {
        abilities_add_up(a, p, q.drop_last(), x);
        assert((p + q).drop_last() =~= p + q.drop_last());
    }
}

} // verus!

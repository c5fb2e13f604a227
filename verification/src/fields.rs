//! Packed fields of a player object: the zone chart, the batting style and the
//! main position.

use vstd::prelude::*;

use crate::offsets::OFF_POS;
use crate::process::Proc;

verus! {

/// A batting style that no combination of bits stands for.
pub const BATTING_STYLE_UNKNOWN: u8 = 0xFF;

/// Names of the batting styles.
pub const BATTING_STYLE_NAMES: [&'static str; 7] = [
    "滾地球型",
    "低仰角",
    "中仰角",
    "高仰角",
    "平飛球強襲",
    "力量型打者",
    "全壘打藝術家",
];

/// For each batting style: bit 7 of the catcher byte, the low two bits of the
/// style byte, and the low three bits of the copy.
pub const BATTING_STYLE_RAW: [(bool, u8, u8); 7] = [
    (false, 0, 0),
    (true, 0, 1),
    (true, 1, 3),
    (false, 2, 4),
    (false, 1, 2),
    (true, 2, 5),
    (false, 3, 6),
];

/// Names of the positions.
pub const POS_NAMES: [&'static str; 9] = ["P", "C", "1B", "2B", "3B", "SS", "LF", "CF", "RF"];

/// Names of the eight fielding positions.
pub const FIELD_NAMES: [&'static str; 8] = [
    "捕手",
    "一壘手",
    "二壘手",
    "三壘手",
    "游擊手",
    "左外野手",
    "中外野手",
    "右外野手",
];

/// The highest ball speed that the game shows.
pub const SPEED_UI_MAX: u16 = 175;

/// The highest ability that the game shows.
pub const STAT_UI_MAX: u8 = 99;

/// Octal digit `i` of `raw`.
pub open spec fn octal(raw: nat, i: nat) -> nat
    decreases i,
{
    if i == 0 {
        raw % 8
    } else {
        octal(raw / 8, (i - 1) as nat)
    }
}

/// `raw` with octal digit `i` replaced by `d`.
pub open spec fn octal_set(raw: nat, i: nat, d: nat) -> nat
    decreases i,
{
    if i == 0 {
        raw / 8 * 8 + d
    } else {
        octal_set(raw / 8, (i - 1) as nat, d) * 8 + raw % 8
    }
}

/// Square `i` of the zone chart: a three-bit number in two's complement.
pub open spec fn zone_value(raw: u32, i: int) -> i8 {
    let d = octal(raw as nat, i as nat);
    if d >= 4 {
        (d - 8) as i8
    } else {
        d as i8
    }
}

/// The three bits for a square of the zone chart, which runs from -3 to 3.
pub open spec fn zone_digit(v: i8) -> nat {
    let c = if v < -3 {
        -3
    } else if v > 3 {
        3
    } else {
        v as int
    };
    if c < 0 {
        (c + 8) as nat
    } else {
        c as nat
    }
}

/// The zone chart with square `i` set to `v`.
pub open spec fn zone_with(raw: u32, i: int, v: i8) -> u32 {
    (octal_set(raw as nat, i as nat, zone_digit(v)) % 0x1_0000_0000) as u32
}

/// Square `i` of the zone chart.
pub fn zone_get(raw: u32, i: usize) -> (res: i8)
    requires
        i <= 10,
    ensures
        res == zone_value(raw, i as int),
{
    let mut x: u32 = raw;
    let mut k: usize = i;
    while k > 0
        invariant
            octal(raw as nat, i as nat) == octal(x as nat, k as nat),
        decreases k,
    {
        x = x / 8;
        k = k - 1;
    }
    let d: u32 = x % 8;
    if d >= 4 {
        (d as i32 - 8) as i8
    } else {
        d as i8
    }
}

/// Eight to the power `k`.
spec fn pow8(k: nat) -> nat
    decreases k,
{
    if k == 0 {
        1
    } else {
        8 * pow8((k - 1) as nat)
    }
}

proof fn pow8_bound(k: nat)
    requires
        k <= 10,
    ensures
        1 <= pow8(k) <= 0x4000_0000,
{
    reveal_with_fuel(pow8, 11);
}

/// `raw` with octal digit `i` replaced by `d`.
fn set_octal(raw: u64, i: usize, d: u64) -> (res: u64)
    requires
        i <= 10,
        d < 8,
        raw < 0x1_0000_0000,
    ensures
        res == octal_set(raw as nat, i as nat, d as nat),
        res < raw + 8 * pow8(i as nat),
    decreases i,
{
    proof {
        pow8_bound(i as nat);
    }
    if i == 0 {
        raw / 8 * 8 + d
    } else {
        set_octal(raw / 8, i - 1, d) * 8 + raw % 8
    }
}

/// The zone chart with square `i` set to `v`, which is first brought into the
/// range from -3 to 3.
pub fn zone_set(raw: u32, i: usize, v: i8) -> (res: u32)
    requires
        i <= 10,
    ensures
        res == zone_with(raw, i as int, v),
{
    let c: i8 = if v < -3 {
        -3
    } else if v > 3 {
        3
    } else {
        v
    };
    let d: u64 = if c < 0 {
        (c as i64 + 8) as u64
    } else {
        c as u64
    };
    (set_octal(raw as u64, i, d) % 0x1_0000_0000) as u32
}

/// The batting style that two fields stand for: bit 7 of one byte and the low
/// two bits of another.
pub open spec fn style_of(bit7: bool, low: int) -> Option<u8> {
    if !bit7 && low == 0 {
        Some(0)
    } else if bit7 && low == 0 {
        Some(1)
    } else if bit7 && low == 1 {
        Some(2)
    } else if !bit7 && low == 2 {
        Some(3)
    } else if !bit7 && low == 1 {
        Some(4)
    } else if bit7 && low == 2 {
        Some(5)
    } else if !bit7 && low == 3 {
        Some(6)
    } else {
        None
    }
}

/// The batting style of a player. The copy in the third byte is out of date
/// wherever only the first two were written, so it has no say.
pub fn batting_style_from_raw(c2c: u8, c2d: u8, _fb6: u8) -> (res: Option<u8>)
    ensures
        res == style_of(c2c >= 0x80, c2d as int % 4),
{
    let bit7 = c2c >= 0x80;
    let low: u8 = c2d % 4;
    let mut i: usize = 0;
    while i < BATTING_STYLE_RAW.len()
        invariant
            i <= 7,
            bit7 == (c2c >= 0x80),
            low == c2d % 4,
            forall|j: int|
                0 <= j < i ==> !((#[trigger] BATTING_STYLE_RAW@[j]).0 == bit7
                    && BATTING_STYLE_RAW@[j].1 == low),
        decreases 7 - i,
    {
        let e = BATTING_STYLE_RAW[i];
        if e.0 == bit7 && e.1 == low {
            return Some(i as u8);
        }
        i += 1;
    }
    assert(!(BATTING_STYLE_RAW@[0].0 == bit7 && BATTING_STYLE_RAW@[0].1 == low));
    assert(!(BATTING_STYLE_RAW@[1].0 == bit7 && BATTING_STYLE_RAW@[1].1 == low));
    assert(!(BATTING_STYLE_RAW@[2].0 == bit7 && BATTING_STYLE_RAW@[2].1 == low));
    assert(!(BATTING_STYLE_RAW@[3].0 == bit7 && BATTING_STYLE_RAW@[3].1 == low));
    assert(!(BATTING_STYLE_RAW@[4].0 == bit7 && BATTING_STYLE_RAW@[4].1 == low));
    assert(!(BATTING_STYLE_RAW@[5].0 == bit7 && BATTING_STYLE_RAW@[5].1 == low));
    assert(!(BATTING_STYLE_RAW@[6].0 == bit7 && BATTING_STYLE_RAW@[6].1 == low));
    None
}

/// The name of a batting style.
pub fn batting_style_name(v: u8) -> (res: &'static str)
    ensures
        res@ == if v < 7 {
            BATTING_STYLE_NAMES@[v as int]@
        } else {
            "未知組合"@
        },
{
    if v < 7 {
        BATTING_STYLE_NAMES[v as usize]
    } else {
        "未知組合"
    }
}

/// The name of a position, a question mark for a number that is none.
pub fn pos_name(v: u8) -> (res: &'static str)
    ensures
        res@ == if v < 9 {
            POS_NAMES@[v as int]@
        } else {
            "?"@
        },
{
    if v < 9 {
        POS_NAMES[v as usize]
    } else {
        "?"
    }
}

/// The main position of the player object at `obj`, 0 where it cannot be read.
pub fn pos_of(p: &Proc, obj: u64) -> (res: u8)
    ensures
        res == p@.u16_at(crate::process::at(obj, OFF_POS as int)) / 8 % 16,
{
    (p.u16_at(obj.wrapping_add(OFF_POS as u64)) / 8 % 16) as u8
}

/// A square that was set is read back, and the others stay as they were.
pub proof fn zone_set_then_get(raw: u32, i: int, v: i8, j: int)
    requires
        0 <= i < 9,
        0 <= j < 9,
    ensures
        zone_value(zone_with(raw, i, v), j) == if i == j {
            if v < -3 {
                -3
            } else if v > 3 {
                3
            } else {
                v as int
            }
        } else {
            zone_value(raw, j) as int
        },
{
    octal_of_set(raw as nat, i as nat, zone_digit(v), j as nat);
    octal_set_small(raw as nat, i as nat, zone_digit(v));
}

/// Setting a square leaves the five bits above the chart alone.
pub proof fn zone_set_keeps_high_bits(raw: u32, i: int, v: i8)
    requires
        0 <= i < 9,
    ensures
        zone_with(raw, i, v) / 0x800_0000 == raw / 0x800_0000,
{
    octal_set_small(raw as nat, i as nat, zone_digit(v));
}

proof fn octal_of_set(raw: nat, i: nat, d: nat, j: nat)
    requires
        d < 8,
    ensures
        octal(octal_set(raw, i, d), j) == if i == j {
            d
        } else {
            octal(raw, j)
        },
    decreases i,
{
    let r = octal_set(raw, i, d);
    if i == 0 {
        assert(r / 8 == raw / 8);
        assert(r % 8 == d);
    } else {
        let q = octal_set(raw / 8, (i - 1) as nat, d);
        assert(r == q * 8 + raw % 8);
        assert(r / 8 == q);
        assert(r % 8 == raw % 8);
        if j > 0 {
            octal_of_set(raw / 8, (i - 1) as nat, d, (j - 1) as nat);
        }
    }
}

/// What stands above the digit that is replaced stays.
proof fn octal_set_keeps_above(raw: nat, i: nat, d: nat, k: nat)
    requires
        i < k,
        d < 8,
    ensures
        octal_set(raw, i, d) / pow8(k) == raw / pow8(k),
    decreases k,
{
    let r = octal_set(raw, i, d);
    let below = pow8((k - 1) as nat);
    pow8_positive((k - 1) as nat);
    vstd::arithmetic::div_mod::lemma_div_denominator(r as int, 8, below as int);
    vstd::arithmetic::div_mod::lemma_div_denominator(raw as int, 8, below as int);
    if i == 0 {
        assert(r / 8 == raw / 8);
    } else {
        assert(r / 8 == octal_set(raw / 8, (i - 1) as nat, d));
        octal_set_keeps_above(raw / 8, (i - 1) as nat, d, (k - 1) as nat);
    }
}

proof fn pow8_positive(k: nat)
    ensures
        pow8(k) >= 1,
    decreases k,
{
    if k > 0 {
        pow8_positive((k - 1) as nat);
    }
}

proof fn octal_set_small(raw: nat, i: nat, d: nat)
    requires
        i < 9,
        d < 8,
        raw < 0x1_0000_0000,
    ensures
        octal_set(raw, i, d) < 0x1_0000_0000,
        octal_set(raw, i, d) / 0x800_0000 == raw / 0x800_0000,
{
    octal_set_keeps_above(raw, i, d, 9);
    assert(pow8(9) == 0x800_0000) by {
        reveal_with_fuel(pow8, 10);
    }
}

proof fn low_digits_decide(x: nat, y: nat, i: nat, k: nat)
    requires
        i < k,
        x % pow8(k) == y % pow8(k),
    ensures
        octal(x, i) == octal(y, i),
    decreases k,
{
    let z = pow8((k - 1) as nat) as int;
    pow8_positive((k - 1) as nat);
    vstd::arithmetic::div_mod::lemma_mod_breakdown(x as int, 8, z);
    vstd::arithmetic::div_mod::lemma_mod_breakdown(y as int, 8, z);
    if i > 0 {
        low_digits_decide(x / 8, y / 8, (i - 1) as nat, (k - 1) as nat);
    }
}

/// Charts with the same low twenty-seven bits have the same squares.
pub proof fn low_bits_are_the_squares(x: u32, y: u32, i: int)
    requires
        x % 0x800_0000 == y % 0x800_0000,
        0 <= i < 9,
    ensures
        zone_value(x, i) == zone_value(y, i),
{
    assert(pow8(9) == 0x800_0000) by {
        reveal_with_fuel(pow8, 10);
    }
    low_digits_decide(x as nat, y as nat, i as nat, 9);
}

} // verus!

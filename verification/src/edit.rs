//! Writing single fields of a player object.
//!
//! Fields that share a byte with others are read, changed and written back, so
//! that the other bits stay as they are.

use vstd::prelude::*;

use crate::balls::BALL_EMPTY;
use crate::fields::{zone_set, BATTING_STYLE_RAW};
use crate::offsets::{
    N_REC, OFF_BALL, OFF_BATTING_AGGRESSION, OFF_BATTING_STYLE, OFF_CATCH, OFF_ORIG, OFF_PACK,
    OFF_PLATE_DISCIPLINE, OFF_POPULARITY, OFF_POS, OFF_STATS, OFF_TALENT_FLAGS, OFF_ZONE,
    POPULARITY_OFF, POPULARITY_ON, REC, REC_BASE, REC_UNUSED_SLOT, ZONE_N,
};
use crate::player::Ball;
use crate::process::Proc;

verus! {

/// Speed and stamina as they are stored, with the flags above them.
pub open spec fn pack_word(speed: u16, stam: u16, hi: u16) -> u16 {
    let sp = if speed < 80 {
        0
    } else if speed > 207 {
        127
    } else {
        speed - 80
    };
    let st = if stam < 127 {
        stam as int
    } else {
        127
    };
    ((sp + st * 128) as u16) | hi
}

/// The three bytes of a pitch.
pub open spec fn ball_bytes(b: Ball) -> Seq<u8> {
    if b.id == BALL_EMPTY {
        seq![BALL_EMPTY, 0u8, 0u8]
    } else {
        seq![b.id, (b.power * 8 + b.move_) as u8, b.control]
    }
}

/// Where pitch `slot` of a player object stands.
pub open spec fn ball_addr(obj: u64, slot: int) -> u64 {
    crate::process::at(crate::process::at(obj, OFF_BALL as int), slot * 3)
}

/// Where record `idx` of a player object stands.
pub open spec fn rec_addr(obj: u64, idx: int) -> u64 {
    crate::process::at(crate::process::at(obj, OFF_ORIG as int), idx * REC)
}

/// The bytes of a record for a pitch slot: `raw` cut or filled up with zeros
/// to the length of a record, and the slot in front.
pub open spec fn rec_with_slot(raw: Seq<u8>, slot: usize) -> Seq<u8> {
    Seq::new(
        REC as nat,
        |i: int|
            if i < 4 {
                crate::bytes::bytes32((slot as int % 0x1_0000_0000) as u32)[i]
            } else if i < raw.len() {
                raw[i]
            } else {
                0u8
            },
    )
}

/// The bytes of a record that is not in use.
pub open spec fn blank_rec() -> Seq<u8> {
    Seq::new(
        REC as nat,
        |i: int|
            if i == 0 {
                REC_UNUSED_SLOT as u8
            } else if i == REC_BASE {
                BALL_EMPTY
            } else {
                0u8
            },
    )
}

/// The slot that record `idx` of a player object belongs to.
pub open spec fn slot_at(m: crate::process::Memory, obj: u64, idx: int) -> u32 {
    m.u32_at(rec_addr(obj, idx))
}

/// `res` is the record to use for a pitch slot: the first one that belongs to
/// the slot, else the first one that is not in use.
pub open spec fn is_rec_for(
    m: crate::process::Memory,
    obj: u64,
    slot: usize,
    res: Option<usize>,
) -> bool {
    let want = (slot as int % 0x1_0000_0000) as u32;
    match res {
        Some(i) => i < N_REC && (if slot_at(m, obj, i as int) == want {
            forall|j: int| 0 <= j < i ==> slot_at(m, obj, j) != want
        } else {
            &&& forall|j: int| 0 <= j < N_REC ==> slot_at(m, obj, j) != want
            &&& slot_at(m, obj, i as int) >= REC_UNUSED_SLOT
            &&& forall|j: int| 0 <= j < i ==> slot_at(m, obj, j) < REC_UNUSED_SLOT
        }),
        None => forall|j: int|
            0 <= j < N_REC ==> slot_at(m, obj, j) != want && slot_at(m, obj, j) < REC_UNUSED_SLOT,
    }
}

/// The catcher byte with the lead `v` in bits 4 to 6.
pub open spec fn lead_byte(cur: u8, v: u8) -> u8 {
    (cur / 128 * 128 + v % 8 * 16 + cur % 16) as u8
}

/// A byte with `v` in its low three bits.
pub open spec fn low3_byte(cur: u8, v: u8) -> u8 {
    (cur / 8 * 8 + v % 8) as u8
}

/// A byte with `v` in bits 3 to 5.
pub open spec fn mid3_byte(cur: u8, v: u8) -> u8 {
    (cur / 64 * 64 + v % 8 * 8 + cur % 8) as u8
}

/// A word with the position `v` in bits 3 to 6.
pub open spec fn pos_word(cur: u16, v: u8) -> u16 {
    (cur / 128 * 128 + v % 16 * 8 + cur % 8) as u16
}

/// The catcher byte with bit 7 as a batting style wants it.
pub open spec fn style_high(cur: u8, style: u8) -> u8 {
    (cur % 128 + if BATTING_STYLE_RAW@[style as int].0 {
        128int
    } else {
        0int
    }) as u8
}

/// The style byte with its low two bits as a batting style wants them.
pub open spec fn style_low(cur: u8, style: u8) -> u8 {
    (cur / 4 * 4 + BATTING_STYLE_RAW@[style as int].1) as u8
}

/// The zone chart with its first `k` squares set.
pub open spec fn chart_with(raw: u32, z: Seq<i8>, k: nat) -> u32
    decreases k,
{
    if k == 0 {
        raw
    } else {
        crate::fields::zone_with(chart_with(raw, z, (k - 1) as nat), k - 1, z[k - 1])
    }
}

/// The talent flags with the flag itself on or off.
pub open spec fn talent_word(cur: u32, talent: bool) -> u32 {
    (cur / 4 * 4 + if talent {
        2int
    } else {
        0int
    } + cur % 2) as u32
}

/// Writes ability `idx`.
pub fn write_stat(p: &mut Proc, obj: u64, idx: usize, v: u8) -> (res: bool)
    ensures
        ({
            let a = crate::process::at(crate::process::at(obj, OFF_STATS as int), idx as int);
            &&& res == old(p)@.accepts(a, 1)
            &&& final(p)@ == old(p)@.poke(a, seq![v])
        }),
{
    p.put_byte(obj.wrapping_add(OFF_STATS as u64).wrapping_add(idx as u64), v)
}

/// Writes speed and stamina, which are first brought into their ranges.
pub fn write_pack(p: &mut Proc, obj: u64, speed: u16, stam: u16, hi: u16) -> (res: bool)
    ensures
        ({
            let a = crate::process::at(obj, OFF_PACK as int);
            &&& res == old(p)@.accepts(a, 2)
            &&& final(p)@ == old(p)@.poke(a, crate::bytes::bytes16(pack_word(speed, stam, hi)))
        }),
{
    let sp: u16 = if speed < 80 {
        0
    } else if speed > 207 {
        127
    } else {
        speed - 80
    };
    let st: u16 = if stam < 127 {
        stam
    } else {
        127
    };
    let raw: u16 = (sp + st * 128) | hi;
    p.put_u16(obj.wrapping_add(OFF_PACK as u64), raw)
}

/// Writes a pitch into a slot.
pub fn write_ball(p: &mut Proc, obj: u64, slot: usize, b: &Ball) -> (res: bool)
    requires
        slot * 3 <= u64::MAX,
        b.id == BALL_EMPTY || b.power * 8 + b.move_ <= 255,
    ensures
        res == old(p)@.accepts(ball_addr(obj, slot as int), 3),
        final(p)@ == old(p)@.poke(ball_addr(obj, slot as int), ball_bytes(*b)),
{
    let a = obj.wrapping_add(OFF_BALL as u64).wrapping_add(slot as u64 * 3);
    let data: [u8; 3] = if b.id == BALL_EMPTY {
        [BALL_EMPTY, 0, 0]
    } else {
        [b.id, b.power * 8 + b.move_, b.control]
    };
    assert(data@ =~= ball_bytes(*b));
    p.write(a, &data)
}

/// Writes the record of an original pitch for a slot.
pub fn write_rec(p: &mut Proc, obj: u64, idx: usize, raw: &[u8], slot: usize) -> (res: bool)
    requires
        idx * REC <= u64::MAX,
    ensures
        res == old(p)@.accepts(rec_addr(obj, idx as int), REC as int),
        final(p)@ == old(p)@.poke(rec_addr(obj, idx as int), rec_with_slot(raw@, slot)),
{
    let s: u32 = (slot as u64 % 0x1_0000_0000) as u32;
    let head = crate::bytes::put32(s);
    let mut r: Vec<u8> = Vec::new();
    let mut i: usize = 0;
    while i < REC
        invariant
            i <= REC,
            head@ == crate::bytes::bytes32((slot as int % 0x1_0000_0000) as u32),
            r@ == rec_with_slot(raw@, slot).take(i as int),
        decreases REC - i,
    {
        if i < 4 {
            r.push(head[i]);
        } else if i < raw.len() {
            r.push(raw[i]);
        } else {
            r.push(0);
        }
        i += 1;
        assert(r@ =~= rec_with_slot(raw@, slot).take(i as int));
    }
    assert(r@ =~= rec_with_slot(raw@, slot));
    p.write(obj.wrapping_add(OFF_ORIG as u64).wrapping_add(idx as u64 * REC as u64), &r)
}

/// The record to use for a pitch slot: the one that already belongs to it,
/// else the first one that is not in use. This always looks at memory, never
/// at an earlier reading, so that several slots in a row get records of their
/// own.
pub fn find_rec_index(p: &Proc, obj: u64, slot: usize) -> (res: Option<usize>)
    ensures
        is_rec_for(p@, obj, slot, res),
{
    let want: u32 = (slot as u64 % 0x1_0000_0000) as u32;
    let mut free: Option<usize> = None;
    let mut i: usize = 0;
    while i < N_REC
        invariant
            i <= N_REC,
            want == slot as int % 0x1_0000_0000,
            forall|j: int| 0 <= j < i ==> slot_at(p@, obj, j) != want,
            match free {
                Some(f) => f < i && slot_at(p@, obj, f as int) >= REC_UNUSED_SLOT && forall|j: int|
                    0 <= j < f ==> slot_at(p@, obj, j) < REC_UNUSED_SLOT,
                None => forall|j: int| 0 <= j < i ==> slot_at(p@, obj, j) < REC_UNUSED_SLOT,
            },
        decreases N_REC - i,
    {
        let s: u32 = p.u32_at(
            obj.wrapping_add(OFF_ORIG as u64).wrapping_add(i as u64 * REC as u64),
        );
        assert(s == slot_at(p@, obj, i as int));
        if s == want {
            return Some(i);
        }
        if s >= REC_UNUSED_SLOT && free.is_none() {
            free = Some(i);
        }
        i += 1;
    }
    free
}

/// Marks a record as not in use.
pub fn clear_rec(p: &mut Proc, obj: u64, idx: usize) -> (res: bool)
    requires
        idx * REC <= u64::MAX,
    ensures
        res == old(p)@.accepts(rec_addr(obj, idx as int), REC as int),
        final(p)@ == old(p)@.poke(rec_addr(obj, idx as int), blank_rec()),
{
    let mut r: Vec<u8> = Vec::new();
    let mut i: usize = 0;
    while i < REC
        invariant
            i <= REC,
            r@ == blank_rec().take(i as int),
        decreases REC - i,
    {
        if i == 0 {
            r.push(REC_UNUSED_SLOT as u8);
        } else if i == REC_BASE {
            r.push(BALL_EMPTY);
        } else {
            r.push(0);
        }
        i += 1;
        assert(r@ =~= blank_rec().take(i as int));
    }
    assert(r@ =~= blank_rec());
    p.write(obj.wrapping_add(OFF_ORIG as u64).wrapping_add(idx as u64 * REC as u64), &r)
}

/// Writes the catcher's lead.
pub fn write_catcher(p: &mut Proc, obj: u64, v: u8) -> (res: bool)
    ensures
        ({
            let a = crate::process::at(obj, OFF_CATCH as int);
            &&& res == old(p)@.accepts(a, 1)
            &&& final(p)@ == old(p)@.poke(a, seq![lead_byte(old(p)@.u8_at(a), v)])
        }),
{
    let a = obj.wrapping_add(OFF_CATCH as u64);
    let cur: u8 = p.u8_at(a);
    p.put_byte(a, cur / 128 * 128 + v % 8 * 16 + cur % 16)
}

/// Writes the batting aggression. Grades above 6 are refused.
pub fn write_batting_aggression(p: &mut Proc, obj: u64, grade: u8) -> (res: bool)
    ensures
        ({
            let a = crate::process::at(obj, OFF_BATTING_AGGRESSION as int);
            if grade > 6 {
                !res && final(p)@ == old(p)@
            } else {
                &&& res == old(p)@.accepts(a, 1)
                &&& final(p)@ == old(p)@.poke(a, seq![low3_byte(old(p)@.u8_at(a), grade)])
            }
        }),
{
    if grade > 6 {
        return false;
    }
    let a = obj.wrapping_add(OFF_BATTING_AGGRESSION as u64);
    let cur: u8 = p.u8_at(a);
    p.put_byte(a, cur / 8 * 8 + grade % 8)
}

/// Writes the plate discipline. Grades above 6 are refused.
pub fn write_plate_discipline(p: &mut Proc, obj: u64, grade: u8) -> (res: bool)
    ensures
        ({
            let a = crate::process::at(obj, OFF_PLATE_DISCIPLINE as int);
            if grade > 6 {
                !res && final(p)@ == old(p)@
            } else {
                &&& res == old(p)@.accepts(a, 1)
                &&& final(p)@ == old(p)@.poke(a, seq![mid3_byte(old(p)@.u8_at(a), grade)])
            }
        }),
{
    if grade > 6 {
        return false;
    }
    let a = obj.wrapping_add(OFF_PLATE_DISCIPLINE as u64);
    let cur: u8 = p.u8_at(a);
    p.put_byte(a, cur / 64 * 64 + grade % 8 * 8 + cur % 8)
}

/// Writes the popularity. The position in the same byte stays.
pub fn write_popularity(p: &mut Proc, obj: u64, on: bool) -> (res: bool)
    ensures
        ({
            let a = crate::process::at(obj, OFF_POPULARITY as int);
            let v = if on {
                POPULARITY_ON
            } else {
                POPULARITY_OFF
            };
            &&& res == old(p)@.accepts(a, 1)
            &&& final(p)@ == old(p)@.poke(a, seq![low3_byte(old(p)@.u8_at(a), v)])
        }),
{
    let a = obj.wrapping_add(OFF_POPULARITY as u64);
    let cur: u8 = p.u8_at(a);
    let v: u8 = if on {
        POPULARITY_ON
    } else {
        POPULARITY_OFF
    };
    p.put_byte(a, cur / 8 * 8 + v)
}

/// Writes the zone chart. The five bits above it stay.
pub fn write_zone(p: &mut Proc, obj: u64, z: &[i8; 9]) -> (res: bool)
    ensures
        ({
            let a = crate::process::at(obj, OFF_ZONE as int);
            &&& res == old(p)@.accepts(a, 4)
            &&& final(p)@ == old(p)@.poke(
                a,
                crate::bytes::bytes32(chart_with(old(p)@.u32_at(a), z@, 9)),
            )
        }),
{
    let a = obj.wrapping_add(OFF_ZONE as u64);
    let mut raw: u32 = p.u32_at(a);
    let ghost start = raw;
    let mut i: usize = 0;
    while i < ZONE_N
        invariant
            i <= ZONE_N,
            raw == chart_with(start, z@, i as nat),
        decreases ZONE_N - i,
    {
        raw = zone_set(raw, i, z[i]);
        i += 1;
    }
    p.put_u32(a, raw)
}

/// Writes the main position. Numbers above 8 are refused.
pub fn write_pos(p: &mut Proc, obj: u64, v: u8) -> (res: bool)
    ensures
        ({
            let a = crate::process::at(obj, OFF_POS as int);
            if v > 8 {
                !res && final(p)@ == old(p)@
            } else {
                &&& res == old(p)@.accepts(a, 2)
                &&& final(p)@ == old(p)@.poke(
                    a,
                    crate::bytes::bytes16(pos_word(old(p)@.u16_at(a), v)),
                )
            }
        }),
{
    if v > 8 {
        return false;
    }
    let a = obj.wrapping_add(OFF_POS as u64);
    let cur: u16 = p.u16_at(a);
    p.put_u16(a, cur / 128 * 128 + v as u16 * 8 + cur % 8)
}

/// Writes the batting style. Numbers above 6 are refused.
pub fn write_batting_style(p: &mut Proc, obj: u64, style: u8) -> (res: bool)
    ensures
        ({
            let m = old(p)@;
            let a = crate::process::at(obj, OFF_CATCH as int);
            let c = crate::process::at(obj, OFF_BATTING_STYLE as int);
            if style > 6 {
                !res && final(p)@ == m
            } else if !m.accepts(a, 1) {
                !res && final(p)@ == m
            } else {
                let n = m.poke(a, seq![style_high(m.u8_at(a), style)]);
                &&& res == m.accepts(c, 1)
                &&& final(p)@ == n.poke(c, seq![style_low(m.u8_at(c), style)])
            }
        }),
{
    if style > 6 {
        return false;
    }
    let (bit7, low, _) = BATTING_STYLE_RAW[style as usize];
    assert(low <= 3) by {
        style_bits_fit(style as int);
    }
    let a = obj.wrapping_add(OFF_CATCH as u64);
    let c = obj.wrapping_add(OFF_BATTING_STYLE as u64);
    let cur: u8 = p.u8_at(a);
    let high: u8 = if bit7 {
        cur % 128 + 128
    } else {
        cur % 128
    };
    let cur2: u8 = p.u8_at(c);
    let ghost m = p@;
    if !p.put_byte(a, high) {
        return false;
    }
    proof {
        crate::process::write_keeps_access(m, a, seq![high], c, 1);
    }
    p.put_byte(c, cur2 / 4 * 4 + low)
}

proof fn style_bits_fit(i: int)
    requires
        0 <= i < 7,
    ensures
        BATTING_STYLE_RAW@[i].1 <= 3,
{
    let t = BATTING_STYLE_RAW@;
    assert(t[0].1 == 0 && t[1].1 == 0 && t[2].1 == 1 && t[3].1 == 2 && t[4].1 == 1 && t[5].1 == 2
        && t[6].1 == 3);
}

/// A recruit has the talent flag.
pub open spec fn is_talent(m: crate::process::Memory, obj: u64) -> bool {
    m.u32_at(crate::process::at(obj, OFF_TALENT_FLAGS as int)) / 2 % 2 == 1
}

/// Whether a recruit has the talent flag.
pub fn player_is_talent(p: &Proc, obj: u64) -> (res: bool)
    ensures
        res == is_talent(p@, obj),
        res == (p@.u32_at(crate::process::at(obj, OFF_TALENT_FLAGS as int)) / 2 % 2 == 1),
{
    p.u32_at(obj.wrapping_add(OFF_TALENT_FLAGS as u64)) / 2 % 2 == 1
}

proof fn second_bit(q: int, f: int, r: int)
    requires
        f == 0 || f == 2,
        0 <= r <= 1,
    ensures
        (4 * q + f + r) / 2 % 2 == f / 2,
{
    assert((4 * q + f + r) / 2 == 2 * q + f / 2);
}

/// Sets or clears the talent flag of a recruit.
pub fn write_player_talent(p: &mut Proc, obj: u64, talent: bool) -> (res: bool)
    ensures
        res ==> is_talent(final(p)@, obj) == talent,
        ({
            let a = crate::process::at(obj, OFF_TALENT_FLAGS as int);
            &&& res == old(p)@.accepts(a, 4)
            &&& final(p)@ == old(p)@.poke(
                a,
                crate::bytes::bytes32(talent_word(old(p)@.u32_at(a), talent)),
            )
        }),
{
    let a = obj.wrapping_add(OFF_TALENT_FLAGS as u64);
    let cur: u32 = p.u32_at(a);
    let flag: u32 = if talent {
        2
    } else {
        0
    };
    let w: u32 = cur / 4 * 4 + flag + cur % 2;
    proof {
        let d = crate::bytes::bytes32(w);
        if p@.accepts(a, 4) {
            crate::process::read_after_write(p@, a, d);
            crate::bytes::le_undoes_bytes(w, 0, 0);
        }
        second_bit(cur as int / 4, flag as int, cur as int % 2);
        assert(w == 4 * (cur as int / 4) + flag + cur as int % 2);
    }
    p.put_u32(a, w)
}

} // verus!

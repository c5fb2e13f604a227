//! What an edit of a player object does to the object as a whole: the field
//! that was written reads back as written, and nothing else changes.

use vstd::prelude::*;

use crate::balls::BALL_EMPTY;
use crate::bytes::{bytes16, bytes32, le16, le32, le_undoes_bytes};
use crate::edit::{
    ball_addr, ball_bytes, blank_rec, chart_with, lead_byte, low3_byte, mid3_byte, pack_word,
    pos_word, rec_addr, rec_with_slot, style_high, style_low, talent_word,
};
use crate::fields::{style_of, zone_value, BATTING_STYLE_RAW};
use crate::offsets::{
    N_BALL, N_REC, OFF_BALL, OFF_BATTING_AGGRESSION, OFF_BATTING_STYLE, OFF_CATCH, OFF_ORIG,
    OFF_PACK, OFF_PLATE_DISCIPLINE, OFF_POPULARITY, OFF_POS, OFF_STATS, OFF_TALENT_FLAGS, OFF_ZONE,
    PLAYER_READ, POPULARITY_OFF, POPULARITY_ON, REC, REC_BASE, REC_UNUSED_SLOT,
};
use crate::player::{ball_in, rec_bytes, Ball};
use crate::process::{at, object_after_write, splice, Memory};

verus! {

/// The bytes of the player object at `obj`.
pub open spec fn object(m: Memory, obj: u64) -> Seq<u8> {
    m.bytes(obj, PLAYER_READ as int)
}

/// The player object at `obj` can be read and written as a whole.
pub open spec fn editable(m: Memory, obj: u64) -> bool {
    m.accepts(obj, PLAYER_READ as int)
}

/// After a write of `data` at `off`, the object is the old one with `data` in
/// place, and can still be edited.
pub open spec fn only_changed(m: Memory, n: Memory, obj: u64, off: int, data: Seq<u8>) -> bool {
    &&& editable(n, obj)
    &&& object(n, obj) == splice(object(m, obj), off, data)
}

/// An accepted write into an object changes just the bytes that it covers.
pub proof fn write_stays_in_place(m: Memory, obj: u64, off: int, data: Seq<u8>)
    requires
        editable(m, obj),
        0 <= off,
        off + data.len() <= PLAYER_READ,
    ensures
        m.accepts(at(obj, off), data.len() as int),
        only_changed(m, m.poke(at(obj, off), data), obj, off, data),
{
    assert forall|i: int| 0 <= i < data.len() implies m.cells.dom().contains(
        #[trigger] at(at(obj, off), i),
    ) && !m.cells[at(at(obj, off), i)].sealed by {
        assert(at(at(obj, off), i) == at(obj, off + i));
        assert(m.cells.dom().contains(at(obj, off + i)));
        assert(!m.cells[at(obj, off + i)].sealed);
    }
    object_after_write(m, obj, PLAYER_READ as int, off, data);
    crate::process::write_keeps_access(m, at(obj, off), data, obj, PLAYER_READ as int);
}

/// Every address of an object reads as the object's byte.
pub proof fn byte_of_object(m: Memory, obj: u64, off: int)
    requires
        editable(m, obj),
        0 <= off < PLAYER_READ,
    ensures
        m.u8_at(at(obj, off)) == object(m, obj)[off],
{
    assert(m.cells.dom().contains(at(obj, off)));
    assert forall|i: int| 0 <= i < 1 implies m.cells.dom().contains(#[trigger] at(at(obj, off), i)) by {
        assert(at(at(obj, off), i) == at(obj, off));
    }
    assert(at(at(obj, off), 0) == at(obj, off));
}

proof fn word_of_object(m: Memory, obj: u64, off: int)
    requires
        editable(m, obj),
        0 <= off < PLAYER_READ - 1,
    ensures
        m.u16_at(at(obj, off)) == le16(object(m, obj), off),
{
    assert forall|i: int| 0 <= i < 2 implies m.cells.dom().contains(#[trigger] at(at(obj, off), i))
        && m.cells[at(at(obj, off), i)].byte == object(m, obj)[off + i] by {
        assert(at(at(obj, off), i) == at(obj, off + i));
        assert(m.cells.dom().contains(at(obj, off + i)));
    }
    assert(m.holds(at(obj, off), 2));
    assert(m.bytes(at(obj, off), 2)[0] == object(m, obj)[off]);
    assert(m.bytes(at(obj, off), 2)[1] == object(m, obj)[off + 1]);
}

/// Every four bytes of an object read as the number that they hold.
pub proof fn dword_of_object(m: Memory, obj: u64, off: int)
    requires
        editable(m, obj),
        0 <= off < PLAYER_READ - 3,
    ensures
        m.u32_at(at(obj, off)) == le32(object(m, obj), off),
{
    assert forall|i: int| 0 <= i < 4 implies m.cells.dom().contains(#[trigger] at(at(obj, off), i))
        && m.cells[at(at(obj, off), i)].byte == object(m, obj)[off + i] by {
        assert(at(at(obj, off), i) == at(obj, off + i));
        assert(m.cells.dom().contains(at(obj, off + i)));
    }
    assert(m.holds(at(obj, off), 4));
    assert(m.bytes(at(obj, off), 4)[0] == object(m, obj)[off]);
    assert(m.bytes(at(obj, off), 4)[1] == object(m, obj)[off + 1]);
    assert(m.bytes(at(obj, off), 4)[2] == object(m, obj)[off + 2]);
    assert(m.bytes(at(obj, off), 4)[3] == object(m, obj)[off + 3]);
}

/// The catcher's lead reads back; the batting style bit above it and the low
/// bits stay.
pub proof fn catcher_is_read_back(m: Memory, obj: u64, v: u8)
    requires
        editable(m, obj),
        v < 8,
    ensures
        ({
            let a = at(obj, OFF_CATCH as int);
            let data = seq![lead_byte(m.u8_at(a), v)];
            let n = m.poke(a, data);
            let (old_byte, new_byte) = (object(m, obj)[OFF_CATCH as int], object(n, obj)[OFF_CATCH as int]);
            &&& only_changed(m, n, obj, OFF_CATCH as int, data)
            &&& new_byte / 16 % 8 == v
            &&& new_byte / 128 == old_byte / 128
            &&& new_byte % 16 == old_byte % 16
        }),
{
    let a = at(obj, OFF_CATCH as int);
    byte_of_object(m, obj, OFF_CATCH as int);
    write_stays_in_place(m, obj, OFF_CATCH as int, seq![lead_byte(m.u8_at(a), v)]);
}

/// The batting aggression reads back; the bits above it stay.
pub proof fn aggression_is_read_back(m: Memory, obj: u64, grade: u8)
    requires
        editable(m, obj),
        grade <= 6,
    ensures
        ({
            let a = at(obj, OFF_BATTING_AGGRESSION as int);
            let data = seq![low3_byte(m.u8_at(a), grade)];
            let n = m.poke(a, data);
            let (old_byte, new_byte) = (
                object(m, obj)[OFF_BATTING_AGGRESSION as int],
                object(n, obj)[OFF_BATTING_AGGRESSION as int],
            );
            &&& only_changed(m, n, obj, OFF_BATTING_AGGRESSION as int, data)
            &&& new_byte % 8 == grade
            &&& new_byte / 8 == old_byte / 8
        }),
{
    let a = at(obj, OFF_BATTING_AGGRESSION as int);
    byte_of_object(m, obj, OFF_BATTING_AGGRESSION as int);
    write_stays_in_place(m, obj, OFF_BATTING_AGGRESSION as int, seq![low3_byte(m.u8_at(a), grade)]);
}

/// The plate discipline reads back; the bits on both sides stay.
pub proof fn discipline_is_read_back(m: Memory, obj: u64, grade: u8)
    requires
        editable(m, obj),
        grade <= 6,
    ensures
        ({
            let a = at(obj, OFF_PLATE_DISCIPLINE as int);
            let data = seq![mid3_byte(m.u8_at(a), grade)];
            let n = m.poke(a, data);
            let (old_byte, new_byte) = (
                object(m, obj)[OFF_PLATE_DISCIPLINE as int],
                object(n, obj)[OFF_PLATE_DISCIPLINE as int],
            );
            &&& only_changed(m, n, obj, OFF_PLATE_DISCIPLINE as int, data)
            &&& new_byte / 8 % 8 == grade
            &&& new_byte / 64 == old_byte / 64
            &&& new_byte % 8 == old_byte % 8
        }),
{
    let a = at(obj, OFF_PLATE_DISCIPLINE as int);
    byte_of_object(m, obj, OFF_PLATE_DISCIPLINE as int);
    write_stays_in_place(m, obj, OFF_PLATE_DISCIPLINE as int, seq![mid3_byte(m.u8_at(a), grade)]);
}

/// The popularity reads back; the position in the same word stays.
pub proof fn popularity_is_read_back(m: Memory, obj: u64, on: bool)
    requires
        editable(m, obj),
    ensures
        ({
            let a = at(obj, OFF_POPULARITY as int);
            let v = if on {
                POPULARITY_ON
            } else {
                POPULARITY_OFF
            };
            let data = seq![low3_byte(m.u8_at(a), v)];
            let n = m.poke(a, data);
            &&& only_changed(m, n, obj, OFF_POPULARITY as int, data)
            &&& (object(n, obj)[OFF_POPULARITY as int] % 8 == POPULARITY_ON) == on
            &&& le16(object(n, obj), OFF_POS as int) / 8 == le16(object(m, obj), OFF_POS as int) / 8
        }),
{
    let a = at(obj, OFF_POPULARITY as int);
    let v = if on {
        POPULARITY_ON
    } else {
        POPULARITY_OFF
    };
    byte_of_object(m, obj, OFF_POPULARITY as int);
    write_stays_in_place(m, obj, OFF_POPULARITY as int, seq![low3_byte(m.u8_at(a), v)]);
}

/// The main position reads back; the popularity and the bits above stay.
pub proof fn position_is_read_back(m: Memory, obj: u64, v: u8)
    requires
        editable(m, obj),
        v <= 8,
    ensures
        ({
            let a = at(obj, OFF_POS as int);
            let data = bytes16(pos_word(m.u16_at(a), v));
            let n = m.poke(a, data);
            let (old_word, new_word) = (
                le16(object(m, obj), OFF_POS as int),
                le16(object(n, obj), OFF_POS as int),
            );
            &&& only_changed(m, n, obj, OFF_POS as int, data)
            &&& new_word / 8 % 16 == v
            &&& new_word % 8 == old_word % 8
            &&& new_word / 128 == old_word / 128
            &&& object(n, obj)[OFF_POPULARITY as int] % 8 == object(m, obj)[OFF_POPULARITY as int] % 8
        }),
{
    let a = at(obj, OFF_POS as int);
    let cur = m.u16_at(a);
    let w = pos_word(cur, v);
    word_of_object(m, obj, OFF_POS as int);
    write_stays_in_place(m, obj, OFF_POS as int, bytes16(w));
    let n = m.poke(a, bytes16(w));
    let (low, high) = (object(n, obj)[OFF_POS as int], object(n, obj)[OFF_POS + 1]);
    assert(low == w % 0x100 && high == w / 0x100);
    assert(le16(object(n, obj), OFF_POS as int) == w) by {
        le_undoes_bytes(0, w, 0);
    }
    pos_bits(cur, v);
    low_three_of_word(w);
    low_three_of_word(cur);
    assert(object(m, obj)[OFF_POS as int] == cur % 0x100);
}

proof fn low_three_of_word(w: u16)
    ensures
        w % 0x100 % 8 == w % 8,
{
}

/// The batting style reads back; the catcher's lead stays.
pub proof fn style_is_read_back(m: Memory, obj: u64, style: u8)
    requires
        editable(m, obj),
        style <= 6,
    ensures
        ({
            let a = at(obj, OFF_CATCH as int);
            let c = at(obj, OFF_BATTING_STYLE as int);
            let high = seq![style_high(m.u8_at(a), style)];
            let low = seq![style_low(m.u8_at(c), style)];
            let n = m.poke(a, high).poke(c, low);
            let b = object(n, obj);
            &&& editable(n, obj)
            &&& b == splice(splice(object(m, obj), OFF_CATCH as int, high), OFF_BATTING_STYLE as int, low)
            &&& style_of(b[OFF_CATCH as int] >= 0x80, b[OFF_BATTING_STYLE as int] as int % 4) == Some(style)
            &&& b[OFF_CATCH as int] % 128 == object(m, obj)[OFF_CATCH as int] % 128
            &&& b[OFF_BATTING_STYLE as int] / 4 == object(m, obj)[OFF_BATTING_STYLE as int] / 4
        }),
{
    let a = at(obj, OFF_CATCH as int);
    let c = at(obj, OFF_BATTING_STYLE as int);
    let high = seq![style_high(m.u8_at(a), style)];
    let low = seq![style_low(m.u8_at(c), style)];
    byte_of_object(m, obj, OFF_CATCH as int);
    byte_of_object(m, obj, OFF_BATTING_STYLE as int);
    write_stays_in_place(m, obj, OFF_CATCH as int, high);
    write_stays_in_place(m.poke(a, high), obj, OFF_BATTING_STYLE as int, low);
    let t = BATTING_STYLE_RAW@;
    assert(t[0] == (false, 0u8, 0u8) && t[1] == (true, 0u8, 1u8) && t[2] == (true, 1u8, 3u8) && t[3] == (
        false,
        2u8,
        4u8,
    ) && t[4] == (false, 1u8, 2u8) && t[5] == (true, 2u8, 5u8) && t[6] == (false, 3u8, 6u8));
    let b = object(m.poke(a, high).poke(c, low), obj);
    assert(b[OFF_CATCH as int] == high[0]);
    assert(b[OFF_BATTING_STYLE as int] == low[0]);
}

proof fn chart_keeps(raw: u32, z: Seq<i8>, k: nat, j: int)
    requires
        k <= 9,
        0 <= j < 9,
        z.len() == 9,
        forall|i: int| 0 <= i < 9 ==> -3 <= #[trigger] z[i] <= 3,
    ensures
        zone_value(chart_with(raw, z, k), j) == if j < k {
            z[j]
        } else {
            zone_value(raw, j)
        },
        chart_with(raw, z, k) / 0x800_0000 == raw / 0x800_0000,
    decreases k,
{
    if k > 0 {
        chart_keeps(raw, z, (k - 1) as nat, j);
        let r = chart_with(raw, z, (k - 1) as nat);
        crate::fields::zone_set_then_get(r, k - 1, z[k - 1], j);
        crate::fields::zone_set_keeps_high_bits(r, k - 1, z[k - 1]);
    }
}

/// The zone chart reads back; the five bits above it stay.
pub proof fn zone_is_read_back(m: Memory, obj: u64, z: Seq<i8>, i: int)
    requires
        editable(m, obj),
        z.len() == 9,
        forall|i: int| 0 <= i < 9 ==> -3 <= #[trigger] z[i] <= 3,
        0 <= i < 9,
    ensures
        ({
            let a = at(obj, OFF_ZONE as int);
            let data = bytes32(chart_with(m.u32_at(a), z, 9));
            let n = m.poke(a, data);
            let new_chart = le32(object(n, obj), OFF_ZONE as int);
            &&& only_changed(m, n, obj, OFF_ZONE as int, data)
            &&& zone_value(new_chart, i) == z[i]
            &&& new_chart / 0x800_0000 == le32(object(m, obj), OFF_ZONE as int) / 0x800_0000
        }),
{
    let a = at(obj, OFF_ZONE as int);
    dword_of_object(m, obj, OFF_ZONE as int);
    let w = chart_with(m.u32_at(a), z, 9);
    write_stays_in_place(m, obj, OFF_ZONE as int, bytes32(w));
    le_undoes_bytes(w, 0, 0);
    chart_keeps(m.u32_at(a), z, 9, i);
    let b = object(m.poke(a, bytes32(w)), obj);
    assert(b[OFF_ZONE as int] == bytes32(w)[0]);
    assert(b[OFF_ZONE + 1] == bytes32(w)[1]);
    assert(b[OFF_ZONE + 2] == bytes32(w)[2]);
    assert(b[OFF_ZONE + 3] == bytes32(w)[3]);
}

/// The talent flag reads back; the other flags stay.
pub proof fn talent_is_read_back(m: Memory, obj: u64, talent: bool)
    requires
        editable(m, obj),
    ensures
        ({
            let a = at(obj, OFF_TALENT_FLAGS as int);
            let data = bytes32(talent_word(m.u32_at(a), talent));
            let n = m.poke(a, data);
            let (old_flags, new_flags) = (m.u32_at(a), n.u32_at(a));
            &&& only_changed(m, n, obj, OFF_TALENT_FLAGS as int, data)
            &&& (new_flags / 2 % 2 == 1) == talent
            &&& new_flags / 4 == old_flags / 4
            &&& new_flags % 2 == old_flags % 2
        }),
{
    let a = at(obj, OFF_TALENT_FLAGS as int);
    let cur = m.u32_at(a);
    let w = talent_word(cur, talent);
    write_stays_in_place(m, obj, OFF_TALENT_FLAGS as int, bytes32(w));
    let n = m.poke(a, bytes32(w));
    assert(n.u32_at(a) == w) by {
        dword_of_object(n, obj, OFF_TALENT_FLAGS as int);
        le_undoes_bytes(w, 0, 0);
        let b = object(n, obj);
        assert(b[OFF_TALENT_FLAGS as int] == bytes32(w)[0]);
        assert(b[OFF_TALENT_FLAGS + 1] == bytes32(w)[1]);
        assert(b[OFF_TALENT_FLAGS + 2] == bytes32(w)[2]);
        assert(b[OFF_TALENT_FLAGS + 3] == bytes32(w)[3]);
    }
    talent_bits(cur, talent);
}

proof fn talent_bits(cur: u32, talent: bool)
    ensures
        ({
            let w = talent_word(cur, talent);
            &&& (w / 2 % 2 == 1) == talent
            &&& w / 4 == cur / 4
            &&& w % 2 == cur % 2
        }),
{
    let f: int = if talent {
        1
    } else {
        0
    };
    second_bit(cur as int / 4, f, cur as int % 2);
    assert(cur as int / 4 * 4 + 3 <= u32::MAX);
    assert(talent_word(cur, talent) == 4 * (cur as int / 4) + 2 * f + cur as int % 2);
}

proof fn second_bit(q: int, f: int, b: int)
    requires
        0 <= f <= 1,
        0 <= b <= 1,
    ensures
        (4 * q + 2 * f + b) / 2 % 2 == f,
        (4 * q + 2 * f + b) / 4 == q,
        (4 * q + 2 * f + b) % 2 == b,
{
    assert((4 * q + 2 * f + b) / 2 == 2 * q + f);
}

proof fn pos_bits(cur: u16, v: u8)
    requires
        v <= 8,
    ensures
        ({
            let w = pos_word(cur, v);
            &&& w / 8 % 16 == v
            &&& w % 8 == cur % 8
            &&& w / 128 == cur / 128
        }),
{
    let q: int = cur as int / 128;
    let b: int = cur as int % 8;
    let x: int = 128 * q + 8 * v + b;
    assert(pos_word(cur, v) == x);
    assert(x % 8 == b && x / 8 == 16 * q + v);
    assert((16 * q + v) % 16 == v && (16 * q + v) / 16 == q);
}

/// An ability reads back.
pub proof fn stat_is_read_back(m: Memory, obj: u64, idx: int, v: u8)
    requires
        editable(m, obj),
        0 <= idx < 8,
    ensures
        ({
            let n = m.poke(at(at(obj, OFF_STATS as int), idx), seq![v]);
            &&& only_changed(m, n, obj, OFF_STATS + idx, seq![v])
            &&& object(n, obj)[OFF_STATS + idx] == v
        }),
{
    assert(at(at(obj, OFF_STATS as int), idx) == at(obj, OFF_STATS + idx));
    write_stays_in_place(m, obj, OFF_STATS + idx, seq![v]);
}

/// Speed, stamina and the two flags above them read back.
pub proof fn pack_is_read_back(m: Memory, obj: u64, speed: u16, stam: u16, hi: u16)
    requires
        editable(m, obj),
        80 <= speed <= 207,
        stam <= 127,
        hi % 0x4000 == 0,
    ensures
        ({
            let a = at(obj, OFF_PACK as int);
            let data = bytes16(pack_word(speed, stam, hi));
            let n = m.poke(a, data);
            let w = le16(object(n, obj), OFF_PACK as int);
            &&& only_changed(m, n, obj, OFF_PACK as int, data)
            &&& w % 128 + 80 == speed
            &&& w / 128 % 128 == stam
            &&& w / 0x4000 * 0x4000 == hi
        }),
{
    let a = at(obj, OFF_PACK as int);
    let w = pack_word(speed, stam, hi);
    write_stays_in_place(m, obj, OFF_PACK as int, bytes16(w));
    let n = m.poke(a, bytes16(w));
    assert(le16(object(n, obj), OFF_PACK as int) == w) by {
        le_undoes_bytes(0, w, 0);
        let b = object(n, obj);
        assert(b[OFF_PACK as int] == bytes16(w)[0]);
        assert(b[OFF_PACK + 1] == bytes16(w)[1]);
    }
    pack_bits(speed, stam, hi);
}

/// Speed, stamina and the flags above them stand apart in their word.
pub proof fn pack_bits(speed: u16, stam: u16, hi: u16)
    requires
        80 <= speed <= 207,
        stam <= 127,
        hi % 0x4000 == 0,
    ensures
        ({
            let w = pack_word(speed, stam, hi);
            &&& w % 128 + 80 == speed
            &&& w / 128 % 128 == stam
            &&& w / 0x4000 * 0x4000 == hi
        }),
{
    let low = (speed - 80 + stam * 128) as u16;
    assert(low < 0x4000 && hi % 0x4000 == 0 ==> (low | hi) == low + hi) by (bit_vector);
    let h: int = hi as int / 0x4000;
    let x: int = 0x4000 * h + 128 * stam + (speed - 80);
    assert(pack_word(speed, stam, hi) == x);
    assert(x % 128 == speed - 80 && x / 128 == 128 * h + stam);
    assert((128 * h + stam) % 128 == stam && x / 0x4000 == h);
}

/// A pitch reads back. Power and movement share a byte.
pub proof fn ball_is_read_back(m: Memory, obj: u64, slot: int, ball: Ball)
    requires
        editable(m, obj),
        0 <= slot < N_BALL,
        ball.id != BALL_EMPTY ==> ball.power < 32 && ball.move_ < 8,
    ensures
        ({
            let n = m.poke(ball_addr(obj, slot), ball_bytes(ball));
            &&& only_changed(m, n, obj, OFF_BALL + slot * 3, ball_bytes(ball))
            &&& ball_in(object(n, obj), slot) == if ball.id == BALL_EMPTY {
                Ball { id: BALL_EMPTY, power: 0, control: 0, move_: 0 }
            } else {
                ball
            }
        }),
{
    let o = OFF_BALL + slot * 3;
    assert(ball_addr(obj, slot) == at(obj, o));
    let data = ball_bytes(ball);
    write_stays_in_place(m, obj, o, data);
    let b = object(m.poke(at(obj, o), data), obj);
    assert(b[o] == data[0]);
    assert(b[o + 1] == data[1]);
    assert(b[o + 2] == data[2]);
}

proof fn rec_is_spliced(m: Memory, obj: u64, idx: int, data: Seq<u8>)
    requires
        editable(m, obj),
        0 <= idx < N_REC,
        data.len() == REC,
    ensures
        only_changed(m, m.poke(rec_addr(obj, idx), data), obj, OFF_ORIG + idx * REC, data),
        rec_bytes(object(m.poke(rec_addr(obj, idx), data), obj), idx) == data,
{
    let o = OFF_ORIG + idx * REC;
    assert(rec_addr(obj, idx) == at(obj, o));
    write_stays_in_place(m, obj, o, data);
    let b = object(m.poke(at(obj, o), data), obj);
    assert(rec_bytes(b, idx) =~= data);
}

/// A record of full length reads back, but for the slot in front, which is the
/// one it was written for.
pub proof fn rec_is_read_back(m: Memory, obj: u64, idx: int, raw: Seq<u8>, slot: usize)
    requires
        editable(m, obj),
        0 <= idx < N_REC,
        raw.len() == REC,
        slot <= u32::MAX,
    ensures
        ({
            let data = rec_with_slot(raw, slot);
            let n = m.poke(rec_addr(obj, idx), data);
            let r = rec_bytes(object(n, obj), idx);
            &&& only_changed(m, n, obj, OFF_ORIG + idx * REC, data)
            &&& le32(r, 0) == slot
            &&& r.skip(4) == raw.skip(4)
        }),
{
    let data = rec_with_slot(raw, slot);
    rec_is_spliced(m, obj, idx, data);
    le_undoes_bytes(slot as u32, 0, 0);
    assert(data.skip(4) =~= raw.skip(4));
}

/// A record that was cleared belongs to no slot.
pub proof fn cleared_rec_is_unused(m: Memory, obj: u64, idx: int)
    requires
        editable(m, obj),
        0 <= idx < N_REC,
    ensures
        ({
            let n = m.poke(rec_addr(obj, idx), blank_rec());
            let r = rec_bytes(object(n, obj), idx);
            &&& only_changed(m, n, obj, OFF_ORIG + idx * REC, blank_rec())
            &&& le32(r, 0) == REC_UNUSED_SLOT
            &&& r[REC_BASE as int] == BALL_EMPTY
        }),
{
    rec_is_spliced(m, obj, idx, blank_rec());
}

} // verus!

//! Where in the bytes of a player object each of its properties stands.

use vstd::prelude::*;

use crate::bytes::{le16, le32};
use crate::player::{is_player, is_rec, rec_index, OrigRec, Player};

verus! {

proof fn bits_of_byte(x: u8)
    ensures
        x & 7 == x % 8,
        (x >> 3) == x / 8,
        (x >> 3) & 7 == x / 8 % 8,
        (x >> 4) & 7 == x / 16 % 8,
        (x & 0x80 != 0) == (x >= 0x80),
        x & 3 == x % 4,
{
    assert(x & 7 == x % 8 && (x >> 3) == x / 8 && (x >> 3) & 7 == x / 8 % 8 && (x >> 4) & 7 == x / 16
        % 8 && (x & 0x80 != 0) == (x >= 0x80) && x & 3 == x % 4) by (bit_vector);
}

proof fn bits_of_word(x: u16)
    ensures
        x & 0x7F == x % 128,
        (x >> 7) & 0x7F == x / 128 % 128,
        x & 0xC000 == x / 0x4000 * 0x4000,
        (x >> 3) & 15 == x / 8 % 16,
{
    assert(x & 0x7F == x % 128 && (x >> 7) & 0x7F == x / 128 % 128 && x & 0xC000 == x / 0x4000
        * 0x4000 && (x >> 3) & 15 == x / 8 % 16) by (bit_vector);
}

proof fn bits_of_long(x: u32)
    ensures
        (x >> 22) & 7 == x / 0x40_0000 % 8,
        (x >> 25) & 7 == x / 0x200_0000 % 8,
        (x >> 28) & 7 == x / 0x1000_0000 % 8,
{
    assert((x >> 22) & 7 == x / 0x40_0000 % 8 && (x >> 25) & 7 == x / 0x200_0000 % 8 && (x >> 28) & 7
        == x / 0x1000_0000 % 8) by (bit_vector);
}

/// The whole numbers of a player object stand in bytes of their own: abilities,
/// fielding, pitching aptitude, team, and what the player is like.
pub proof fn where_plain_numbers_stand(b: Seq<u8>, obj: u64, x: Player, i: int)
    requires
        is_player(b, obj, x),
        b.len() == 0x1520,
        0 <= i < 8,
    ensures
        x.addr == obj,
        x.stats@.len() == 8 && x.stats[i] == b[0x20 + i],
        x.field@.len() == 8 && x.field[i] == b[0x18 + i],
        x.defense == b[0x28],
        x.team == b[0xA16],
        x.grade == b[0xE50],
        x.trust == b[0xE80],
        x.personality == b[0xE81],
        x.mood == b[0xE82],
        x.energy == le16(b, 0xE86),
        x.academic == b[0xE88],
        x.recruit_eval == le16(b, 0xE8C),
        x.item == b[0x1511],
        x.book == b[0x1512],
        x.abil@.len() == 14,
        forall|k: int| 0 <= k < 14 ==> #[trigger] x.abil@[k] == b[8 + k],
{
    assert(x.stats@[i] == b[0x20 + i]);
    assert(x.field@[i] == b[0x18 + i]);
}

/// The smaller numbers of a player object stand in a few bits: speed above 80
/// and stamina in seven each, position in four, and the rest in three.
pub proof fn where_bits_stand(b: Seq<u8>, obj: u64, x: Player)
    requires
        is_player(b, obj, x),
        b.len() == 0x1520,
    ensures
        ({
            let w = le16(b, 0x29);
            let p = le32(b, 0x28);
            &&& x.speed == 80 + (w & 0x7F)
            &&& x.stamina == (w >> 7) & 0x7F
            &&& x.pack_hi == w & 0xC000
            &&& x.pos == (le16(b, 0xA30) >> 3) & 15
            &&& x.catcher == (b[0x2C] >> 4) & 7
            &&& x.batting_aggression == b[0xA5B] & 7
            &&& x.plate_discipline == (b[0xA53] >> 3) & 7
            &&& x.popularity == (b[0xA30] & 7 == 2)
            &&& x.pitch_traits@.len() == 3
            &&& x.pitch_traits@[0] == (p >> 22) & 7
            &&& x.pitch_traits@[1] == (p >> 25) & 7
            &&& x.pitch_traits@[2] == (p >> 28) & 7
        }),
{
    bits_of_word(le16(b, 0x29));
    bits_of_word(le16(b, 0xA30));
    bits_of_byte(b[0x2C]);
    bits_of_byte(b[0xA5B]);
    bits_of_byte(b[0xA53]);
    bits_of_byte(b[0xA30]);
    bits_of_long(le32(b, 0x28));
}

/// The batting style stands in the top bit of one byte and the low two bits of
/// the next; one of their eight values stands for none.
pub proof fn where_the_style_stands(b: Seq<u8>, obj: u64, x: Player)
    requires
        is_player(b, obj, x),
        b.len() == 0x1520,
    ensures
        ({
            let top = b[0x2C] & 0x80 != 0;
            let low = b[0x2D] & 3;
            &&& x.batting_style == 0 <==> !top && low == 0
            &&& x.batting_style == 1 <==> top && low == 0
            &&& x.batting_style == 2 <==> top && low == 1
            &&& x.batting_style == 3 <==> !top && low == 2
            &&& x.batting_style == 4 <==> !top && low == 1
            &&& x.batting_style == 5 <==> top && low == 2
            &&& x.batting_style == 6 <==> !top && low == 3
            &&& x.batting_style == 0xFF <==> top && low == 3
        }),
{
    bits_of_byte(b[0x2C]);
    bits_of_byte(b[0x2D]);
}

/// A pitch takes three bytes: what it is, its break in the upper five bits of the
/// second with its sharpness in the lower three, and its control.
pub proof fn where_pitches_stand(b: Seq<u8>, obj: u64, x: Player, k: int)
    requires
        is_player(b, obj, x),
        b.len() == 0x1520,
        0 <= k < 12,
    ensures
        x.balls@.len() == 12,
        x.balls@[k].id == b[0x30 + 3 * k],
        x.balls@[k].power == b[0x31 + 3 * k] >> 3,
        x.balls@[k].move_ == b[0x31 + 3 * k] & 7,
        x.balls@[k].control == b[0x32 + 3 * k],
{
    let c = x.balls@[k];
    assert(c == crate::player::ball_in(b, k));
    bits_of_byte(b[0x31 + 3 * k]);
}

/// Of the zone chart each square takes three bits, the first square the lowest,
/// and half of their values stand for cold squares.
pub proof fn where_squares_stand(b: Seq<u8>, obj: u64, x: Player, i: int)
    requires
        is_player(b, obj, x),
        b.len() == 0x1520,
        0 <= i < 9,
    ensures
        x.zone@.len() == 9,
        ({
            let d = (le32(b, 0xA50) >> (3 * i) as u32) & 7;
            x.zone@[i] == if d >= 4 {
                d - 8
            } else {
                d as int
            }
        }),
{
    let raw = le32(b, 0xA50);
    octal_is_shifted(raw, i as nat);
    let s = (3 * i) as u32;
    assert((raw >> s) & 7 <= 7) by (bit_vector);
    assert(x.zone@[i] == crate::fields::zone_value(raw, i));
}

proof fn octal_is_shifted(raw: u32, i: nat)
    requires
        i <= 9,
    ensures
        crate::fields::octal(raw as nat, i) == (raw >> (3 * i) as u32) & 7,
    decreases i,
{
    if i == 0 {
        assert(raw >> 0u32 == raw) by (bit_vector);
        assert(raw & 7 == raw % 8) by (bit_vector);
    } else {
        let r = raw / 8;
        let s = (3 * (i - 1)) as u32;
        let t = (3 * i) as u32;
        octal_is_shifted(r, (i - 1) as nat);
        assert(s <= 24 && t == s + 3 ==> (raw / 8) >> s == raw >> t) by (bit_vector);
    }
}

/// A record takes 184 bytes: the slot first, then the name, and towards the end
/// whether it is official and which pitch it comes from. It is official too if
/// there is a reading for the announcer.
pub proof fn where_records_stand(b: Seq<u8>, obj: u64, x: Player, i: int)
    requires
        is_player(b, obj, x),
        b.len() == 0x1520,
        0 <= i < 12,
    ensures
        x.recs@.len() == 12,
        ({
            let r = b.subrange(0x54 + 184 * i, 0x54 + 184 * i + 184);
            let e = x.recs@[i];
            &&& e.raw@ == r
            &&& e.slot == le32(r, 0)
            &&& e.base == r[0xB4]
            &&& e.official <==> r[0x91] == 1 || !(forall|k: int|
                0x68 <= k < 0x70 ==> #[trigger] r[k] == 0)
            &&& e.name@ == crate::unicode::utf8_text(
                r.subrange(4, 0x68).take(crate::text::zero_at(r.subrange(4, 0x68))),
            )
        }),
{
    let r = b.subrange(0x54 + 184 * i, 0x54 + 184 * i + 184);
    assert(crate::player::rec_bytes(b, i) =~= r);
    assert(is_rec(crate::player::rec_bytes(b, i), x.recs@[i]));
}

/// The record of a slot is the first one that names it, and there is none just
/// if no record names it.
pub proof fn first_record_of_a_slot(recs: Seq<OrigRec>, slot: usize)
    requires
        slot < 0x1_0000_0000,
    ensures
        match rec_index(recs, slot) {
            Some(i) => 0 <= i < recs.len() && recs[i].slot == slot && forall|j: int|
                0 <= j < i ==> (#[trigger] recs[j]).slot != slot,
            None => forall|j: int| 0 <= j < recs.len() ==> (#[trigger] recs[j]).slot != slot,
        },
    decreases recs.len(),
{
    if recs.len() > 0 && recs[0].slot != slot {
        let t = recs.skip(1);
        first_record_of_a_slot(t, slot);
        match rec_index(t, slot) {
            Some(i) => {
                assert(t[i] == recs[i + 1]);
                assert forall|j: int| 0 <= j < i + 1 implies (#[trigger] recs[j]).slot != slot by {
                    if j > 0 {
                        assert(t[j - 1] == recs[j]);
                    }
                }
            },
            None => {
                assert forall|j: int| 0 <= j < recs.len() implies (#[trigger] recs[j]).slot != slot by {
                    if j > 0 {
                        assert(t[j - 1] == recs[j]);
                    }
                }
            },
        }
    }
}

} // verus!

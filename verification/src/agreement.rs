//! A player at hand and the object in the game: when the two say the same, and
//! why they still do after an edit.

use vstd::prelude::*;

use crate::balls::BALL_EMPTY;
use crate::bytes::{bytes16, bytes32, le_undoes_bytes};
use crate::edit_laws::{byte_of_object, editable, object, write_stays_in_place};
use crate::fields::zone_value;
use crate::growth::{
    ball_synced, cell, def_synced, exp_of_stat, field_synced, growth_of, pack_synced, stat_synced,
    GROWTH_EXP_OFF, GROWTH_FIELD_OFF, GROWTH_FROM_PLAYER, STAT_TO_EXP,
};
use crate::offsets::{
    N_BALL, N_REC, OFF_ABIL2, OFF_ACADEMIC, OFF_BALL, OFF_BATTING_AGGRESSION, OFF_BATTING_STYLE,
    OFF_BOOK, OFF_CATCH, OFF_DEF, OFF_ENERGY, OFF_FIELD, OFF_GRADE, OFF_ITEM, OFF_MOOD, OFF_NAME,
    OFF_ORIG, OFF_PACK, OFF_PERSONALITY, OFF_PLATE_DISCIPLINE, OFF_POPULARITY, OFF_POS,
    OFF_RECRUIT_EVAL, OFF_STATS, OFF_TRUST, OFF_ZONE, PLAYER_READ, POPULARITY_OFF,
    POPULARITY_ON, REC,
};
use crate::player::{ball_in, is_player, is_rec, rec_bytes, Ball, Player};
use crate::process::{at, splice, Memory};

verus! {

/// The player at hand says what its object in the game says, and the object can
/// be edited.
pub open spec fn in_step(m: Memory, pl: Player) -> bool {
    &&& editable(m, pl.addr)
    &&& is_player(object(m, pl.addr), pl.addr, pl)
}

/// The stretch from `lo` up to `hi` has nothing of the `n` bytes from `off` on.
spec fn clear_of(lo: int, hi: int, off: int, n: int) -> bool {
    off + n <= lo || hi <= off
}

/// Objects that differ only from `lo` up to `hi` read alike elsewhere.
proof fn rest_reads_alike(b: Seq<u8>, c: Seq<u8>, obj: u64, pl: Player, lo: int, hi: int)
    requires
        b.len() == PLAYER_READ,
        c.len() == PLAYER_READ,
        is_player(b, obj, pl),
        forall|i: int| 0 <= i < PLAYER_READ && !(lo <= i < hi) ==> #[trigger] c[i] == b[i],
    ensures
        clear_of(lo, hi, OFF_NAME as int, 64) ==> pl.name@ == crate::text::name_in(c),
        clear_of(lo, hi, OFF_STATS as int, 8) ==> pl.stats@ == c.subrange(
            OFF_STATS as int,
            OFF_STATS + 8,
        ),
        clear_of(lo, hi, OFF_FIELD as int, 8) ==> pl.field@ == c.subrange(
            OFF_FIELD as int,
            OFF_FIELD + 8,
        ),
        clear_of(lo, hi, OFF_ABIL2 as int, 14) ==> pl.abil@ == c.subrange(
            OFF_ABIL2 as int,
            OFF_ABIL2 + 14,
        ),
        clear_of(lo, hi, OFF_BALL as int, 36) ==> pl.balls@ == Seq::new(
            N_BALL as nat,
            |k: int| ball_in(c, k),
        ),
        clear_of(lo, hi, OFF_ORIG as int, N_REC * REC) ==> forall|i: int|
            0 <= i < N_REC ==> is_rec(rec_bytes(c, i), #[trigger] pl.recs@[i]),
        clear_of(lo, hi, OFF_ZONE as int, 4) ==> crate::bytes::le32(c, OFF_ZONE as int)
            == crate::bytes::le32(b, OFF_ZONE as int),
{
    if clear_of(lo, hi, OFF_NAME as int, 64) {
        assert(crate::text::name_window(c) =~= crate::text::name_window(b));
    }
    if clear_of(lo, hi, OFF_STATS as int, 8) {
        assert(pl.stats@ =~= c.subrange(OFF_STATS as int, OFF_STATS + 8));
    }
    if clear_of(lo, hi, OFF_FIELD as int, 8) {
        assert(pl.field@ =~= c.subrange(OFF_FIELD as int, OFF_FIELD + 8));
    }
    if clear_of(lo, hi, OFF_ABIL2 as int, 14) {
        assert(pl.abil@ =~= c.subrange(OFF_ABIL2 as int, OFF_ABIL2 + 14));
    }
    if clear_of(lo, hi, OFF_BALL as int, 36) {
        assert forall|k: int| 0 <= k < N_BALL implies #[trigger] ball_in(c, k) == ball_in(b, k) by {}
        assert(pl.balls@ =~= Seq::new(N_BALL as nat, |k: int| ball_in(c, k)));
    }
    if clear_of(lo, hi, OFF_ORIG as int, N_REC * REC) {
        assert forall|i: int| 0 <= i < N_REC implies is_rec(
            rec_bytes(c, i),
            #[trigger] pl.recs@[i],
        ) by {
            assert(rec_bytes(c, i) =~= rec_bytes(b, i));
        }
    }
}

/// The object after bytes were written into it.
proof fn after_a_write(m: Memory, obj: u64, off: int, data: Seq<u8>)
    requires
        editable(m, obj),
        0 <= off,
        off + data.len() <= PLAYER_READ,
    ensures
        ({
            let n = m.poke(at(obj, off), data);
            let (b, c) = (object(m, obj), object(n, obj));
            &&& editable(n, obj)
            &&& m.accepts(at(obj, off), data.len() as int)
            &&& c.len() == PLAYER_READ
            &&& forall|i: int|
                0 <= i < PLAYER_READ && !(off <= i < off + data.len()) ==> #[trigger] c[i] == b[i]
            &&& forall|i: int| 0 <= i < data.len() ==> #[trigger] c[off + i] == data[i]
        }),
{
    write_stays_in_place(m, obj, off, data);
    let n = m.poke(at(obj, off), data);
    let (b, c) = (object(m, obj), object(n, obj));
    assert(c == splice(b, off, data));
    assert forall|i: int| 0 <= i < data.len() implies #[trigger] c[off + i] == data[i] by {}
}

/// A byte of the object that stands for one number alone.
pub open spec fn is_plain(off: int) -> bool {
    ||| off == OFF_TRUST
    ||| off == OFF_PERSONALITY
    ||| off == OFF_MOOD
    ||| off == OFF_ACADEMIC
    ||| off == OFF_GRADE
    ||| off == OFF_ITEM
    ||| off == OFF_BOOK
}

/// The player with another number in a byte that stands for one alone.
pub open spec fn with_plain(pl: Player, off: int, v: u8) -> Player {
    if off == OFF_TRUST {
        Player { trust: v, ..pl }
    } else if off == OFF_PERSONALITY {
        Player { personality: v, ..pl }
    } else if off == OFF_MOOD {
        Player { mood: v, ..pl }
    } else if off == OFF_ACADEMIC {
        Player { academic: v, ..pl }
    } else if off == OFF_GRADE {
        Player { grade: v, ..pl }
    } else if off == OFF_ITEM {
        Player { item: v, ..pl }
    } else {
        Player { book: v, ..pl }
    }
}

/// Writing a number that stands alone keeps player and object in step.
pub proof fn plain_keeps_step(m: Memory, pl: Player, off: int, v: u8)
    requires
        in_step(m, pl),
        is_plain(off),
    ensures
        in_step(m.poke(at(pl.addr, off), seq![v]), with_plain(pl, off, v)),
{
    let n = m.poke(at(pl.addr, off), seq![v]);
    let (b, c) = (object(m, pl.addr), object(n, pl.addr));
    after_a_write(m, pl.addr, off, seq![v]);
    rest_reads_alike(b, c, pl.addr, pl, off, off + 1);
    assert(c[off + 0] == v);
}

/// Writing the energy keeps player and object in step.
pub proof fn energy_keeps_step(m: Memory, pl: Player, v: u16)
    requires
        in_step(m, pl),
    ensures
        in_step(
            m.poke(at(pl.addr, OFF_ENERGY as int), bytes16(v)),
            (Player { energy: v, ..pl }),
        ),
{
    let off = OFF_ENERGY as int;
    let c = object(m.poke(at(pl.addr, off), bytes16(v)), pl.addr);
    after_a_write(m, pl.addr, off, bytes16(v));
    rest_reads_alike(object(m, pl.addr), c, pl.addr, pl, off, off + 2);
    assert(c[off + 0] == bytes16(v)[0] && c[off + 1] == bytes16(v)[1]);
    le_undoes_bytes(0, v, 0);
}

/// Writing the evaluation of a recruit keeps player and object in step.
pub proof fn evaluation_keeps_step(m: Memory, pl: Player, v: u16)
    requires
        in_step(m, pl),
    ensures
        in_step(
            m.poke(at(pl.addr, OFF_RECRUIT_EVAL as int), bytes16(v)),
            (Player { recruit_eval: v, ..pl }),
        ),
{
    let off = OFF_RECRUIT_EVAL as int;
    let c = object(m.poke(at(pl.addr, off), bytes16(v)), pl.addr);
    after_a_write(m, pl.addr, off, bytes16(v));
    rest_reads_alike(object(m, pl.addr), c, pl.addr, pl, off, off + 2);
    assert(c[off + 0] == bytes16(v)[0] && c[off + 1] == bytes16(v)[1]);
    le_undoes_bytes(0, v, 0);
}

/// Clearing the uses of items and books keeps player and object in step.
pub proof fn cleared_uses_keep_step(m: Memory, pl: Player)
    requires
        in_step(m, pl),
    ensures
        in_step(
            m.poke(at(pl.addr, OFF_ITEM as int), seq![0u8, 0u8]),
            (Player { item: 0, book: 0, ..pl }),
        ),
{
    let off = OFF_ITEM as int;
    let d = seq![0u8, 0u8];
    let c = object(m.poke(at(pl.addr, off), d), pl.addr);
    after_a_write(m, pl.addr, off, d);
    rest_reads_alike(object(m, pl.addr), c, pl.addr, pl, off, off + 2);
    assert(c[off + 0] == d[0] && c[off + 1] == d[1]);
}

/// Writing the catcher's lead keeps player and object in step.
#[verifier::rlimit(60)]
pub proof fn lead_keeps_step(m: Memory, pl: Player, v: u8)
    requires
        in_step(m, pl),
        v < 8,
    ensures
        ({
            let a = at(pl.addr, OFF_CATCH as int);
            in_step(
                m.poke(a, seq![crate::edit::lead_byte(m.u8_at(a), v)]),
                (Player { catcher: v, ..pl }),
            )
        }),
{
    let off = OFF_CATCH as int;
    byte_of_object(m, pl.addr, off);
    let x = m.u8_at(at(pl.addr, off));
    let d = seq![crate::edit::lead_byte(x, v)];
    let c = object(m.poke(at(pl.addr, off), d), pl.addr);
    after_a_write(m, pl.addr, off, d);
    rest_reads_alike(object(m, pl.addr), c, pl.addr, pl, off, off + 1);
    assert(c[off + 0] == d[0]);
    lead_bits(x, v);
}

proof fn lead_bits(x: u8, v: u8)
    requires
        v < 8,
    ensures
        crate::edit::lead_byte(x, v) / 16 % 8 == v,
        (crate::edit::lead_byte(x, v) >= 0x80) == (x >= 0x80),
{
}

/// Writing the batting aggression keeps player and object in step.
#[verifier::rlimit(60)]
pub proof fn aggression_keeps_step(m: Memory, pl: Player, v: u8)
    requires
        in_step(m, pl),
        v < 8,
    ensures
        ({
            let a = at(pl.addr, OFF_BATTING_AGGRESSION as int);
            in_step(
                m.poke(a, seq![crate::edit::low3_byte(m.u8_at(a), v)]),
                (Player { batting_aggression: v, ..pl }),
            )
        }),
{
    let off = OFF_BATTING_AGGRESSION as int;
    byte_of_object(m, pl.addr, off);
    let x = m.u8_at(at(pl.addr, off));
    let d = seq![crate::edit::low3_byte(x, v)];
    low_three(x, v);
    let c = object(m.poke(at(pl.addr, off), d), pl.addr);
    after_a_write(m, pl.addr, off, d);
    rest_reads_alike(object(m, pl.addr), c, pl.addr, pl, off, off + 1);
    assert(c[off + 0] == d[0]);
}

/// Writing the plate discipline keeps player and object in step.
#[verifier::rlimit(60)]
pub proof fn discipline_keeps_step(m: Memory, pl: Player, v: u8)
    requires
        in_step(m, pl),
        v < 8,
    ensures
        ({
            let a = at(pl.addr, OFF_PLATE_DISCIPLINE as int);
            in_step(
                m.poke(a, seq![crate::edit::mid3_byte(m.u8_at(a), v)]),
                (Player { plate_discipline: v, ..pl }),
            )
        }),
{
    let off = OFF_PLATE_DISCIPLINE as int;
    byte_of_object(m, pl.addr, off);
    let x = m.u8_at(at(pl.addr, off));
    let d = seq![crate::edit::mid3_byte(x, v)];
    let (b, c) = (object(m, pl.addr), object(m.poke(at(pl.addr, off), d), pl.addr));
    after_a_write(m, pl.addr, off, d);
    rest_reads_alike(b, c, pl.addr, pl, off, off + 1);
    assert(c[off + 0] == d[0]);
    middle_three(x, v);
    let (old_chart, new_chart) = (
        crate::bytes::le32(b, OFF_ZONE as int),
        crate::bytes::le32(c, OFF_ZONE as int),
    );
    assert(old_chart % 0x800_0000 == new_chart % 0x800_0000) by {
        let low: int = b[OFF_ZONE as int] + b[OFF_ZONE + 1] * 0x100 + b[OFF_ZONE + 2] * 0x1_0000;
        assert(old_chart == low + x * 0x100_0000);
        assert(new_chart == low + d[0] * 0x100_0000);
        top_byte(low, x as int);
        top_byte(low, d[0] as int);
    }
    assert forall|i: int| 0 <= i < 9 implies #[trigger] pl.zone@[i] == zone_value(new_chart, i) by {
        crate::fields::low_bits_are_the_squares(old_chart, new_chart, i);
    }
    assert(pl.zone@ =~= Seq::new(9, |i: int| zone_value(new_chart, i)));
}

proof fn low_three(x: u8, v: u8)
    requires
        v < 8,
    ensures
        crate::edit::low3_byte(x, v) % 8 == v,
        crate::edit::low3_byte(x, v) / 8 == x / 8,
{
}

proof fn middle_three(x: u8, v: u8)
    requires
        v < 8,
    ensures
        crate::edit::mid3_byte(x, v) / 8 % 8 == v,
        crate::edit::mid3_byte(x, v) % 8 == x % 8,
{
}

/// The position does not depend on the low three bits of its word.
proof fn word_above_three(lo: int, hi: int, x: int)
    requires
        0 <= lo < 256,
        0 <= hi < 256,
        0 <= x < 256,
        x / 8 == lo / 8,
    ensures
        (x + 0x100 * hi) / 8 == (lo + 0x100 * hi) / 8,
{
}

proof fn top_byte(low: int, x: int)
    requires
        0 <= low < 0x100_0000,
        0 <= x < 256,
    ensures
        (low + x * 0x100_0000) % 0x800_0000 == low + x % 8 * 0x100_0000,
{
    let q = x / 8;
    assert(x == 8 * q + x % 8);
    assert(low + x * 0x100_0000 == 0x800_0000 * q + (low + x % 8 * 0x100_0000));
    vstd::arithmetic::div_mod::lemma_mod_multiples_vanish(
        q,
        low + x % 8 * 0x100_0000,
        0x800_0000,
    );
    vstd::arithmetic::div_mod::lemma_small_mod(
        (low + x % 8 * 0x100_0000) as nat,
        0x800_0000,
    );
}

/// Writing the popularity keeps player and object in step.
#[verifier::rlimit(60)]
pub proof fn popularity_keeps_step(m: Memory, pl: Player, on: bool)
    requires
        in_step(m, pl),
    ensures
        ({
            let a = at(pl.addr, OFF_POPULARITY as int);
            let v = if on {
                POPULARITY_ON
            } else {
                POPULARITY_OFF
            };
            in_step(
                m.poke(a, seq![crate::edit::low3_byte(m.u8_at(a), v)]),
                (Player { popularity: on, ..pl }),
            )
        }),
{
    let off = OFF_POPULARITY as int;
    let v = if on {
        POPULARITY_ON
    } else {
        POPULARITY_OFF
    };
    byte_of_object(m, pl.addr, off);
    let x = m.u8_at(at(pl.addr, off));
    let d = seq![crate::edit::low3_byte(x, v)];
    let (b, c) = (object(m, pl.addr), object(m.poke(at(pl.addr, off), d), pl.addr));
    after_a_write(m, pl.addr, off, d);
    rest_reads_alike(b, c, pl.addr, pl, off, off + 1);
    assert(c[off + 0] == d[0]);
    low_three(x, v);
    word_above_three(b[off] as int, b[off + 1] as int, c[off] as int);
    assert(crate::bytes::le16(c, OFF_POS as int) / 8 == crate::bytes::le16(b, OFF_POS as int) / 8);
}

/// Writing the main position keeps player and object in step.
pub proof fn position_keeps_step(m: Memory, pl: Player, v: u8)
    requires
        in_step(m, pl),
        v <= 8,
    ensures
        ({
            let a = at(pl.addr, OFF_POS as int);
            in_step(
                m.poke(a, bytes16(crate::edit::pos_word(m.u16_at(a), v))),
                (Player { pos: v, ..pl }),
            )
        }),
{
    let off = OFF_POS as int;
    let w = crate::edit::pos_word(m.u16_at(at(pl.addr, off)), v);
    crate::edit_laws::position_is_read_back(m, pl.addr, v);
    let (b, c) = (object(m, pl.addr), object(m.poke(at(pl.addr, off), bytes16(w)), pl.addr));
    after_a_write(m, pl.addr, off, bytes16(w));
    rest_reads_alike(b, c, pl.addr, pl, off, off + 2);
}

/// Writing the batting style keeps player and object in step.
#[verifier::rlimit(60)]
pub proof fn style_keeps_step(m: Memory, pl: Player, v: u8)
    requires
        in_step(m, pl),
        v <= 6,
    ensures
        ({
            let a = at(pl.addr, OFF_CATCH as int);
            let c = at(pl.addr, OFF_BATTING_STYLE as int);
            &&& m.accepts(a, 1) && m.accepts(c, 1)
            &&& in_step(
                m.poke(a, seq![crate::edit::style_high(m.u8_at(a), v)]).poke(
                    c,
                    seq![crate::edit::style_low(m.u8_at(c), v)],
                ),
                (Player { batting_style: v, ..pl }),
            )
        }),
{
    let (o1, o2) = (OFF_CATCH as int, OFF_BATTING_STYLE as int);
    let (a1, a2) = (at(pl.addr, o1), at(pl.addr, o2));
    let d1 = seq![crate::edit::style_high(m.u8_at(a1), v)];
    let d2 = seq![crate::edit::style_low(m.u8_at(a2), v)];
    crate::edit_laws::style_is_read_back(m, pl.addr, v);
    let n1 = m.poke(a1, d1);
    let n2 = n1.poke(a2, d2);
    after_a_write(m, pl.addr, o1, d1);
    after_a_write(m, pl.addr, o2, d2);
    after_a_write(n1, pl.addr, o2, d2);
    let (b, c) = (object(m, pl.addr), object(n2, pl.addr));
    assert forall|i: int| 0 <= i < PLAYER_READ && !(o1 <= i < o2 + 1) implies #[trigger] c[i]
        == b[i] by {
        assert(object(n1, pl.addr)[i] == b[i]);
    }
    lead_below_style(b[o1], c[o1]);
    style_reads_alike(b, c, pl, v);
}

proof fn lead_below_style(x: u8, y: u8)
    requires
        x % 128 == y % 128,
    ensures
        x / 16 % 8 == y / 16 % 8,
{
    assert(x % 128 == y % 128 ==> x / 16 % 8 == y / 16 % 8) by (bit_vector);
}

/// Objects that differ in the batting style alone.
proof fn style_reads_alike(b: Seq<u8>, c: Seq<u8>, pl: Player, v: u8)
    requires
        b.len() == PLAYER_READ,
        c.len() == PLAYER_READ,
        is_player(b, pl.addr, pl),
        forall|i: int|
            0 <= i < PLAYER_READ && !(OFF_CATCH <= i < OFF_BATTING_STYLE + 1) ==> #[trigger] c[i]
                == b[i],
        c[OFF_CATCH as int] / 16 % 8 == b[OFF_CATCH as int] / 16 % 8,
        crate::fields::style_of(
            c[OFF_CATCH as int] >= 0x80,
            c[OFF_BATTING_STYLE as int] as int % 4,
        ) == Some(v),
    ensures
        is_player(c, pl.addr, (Player { batting_style: v, ..pl })),
{
    rest_reads_alike(b, c, pl.addr, pl, OFF_CATCH as int, OFF_BATTING_STYLE + 1);
}

/// Writing the zone chart keeps player and object in step.
pub proof fn chart_keeps_step(m: Memory, pl: Player, q: Player)
    requires
        in_step(m, pl),
        q == (Player { zone: q.zone, ..pl }),
        forall|i: int| 0 <= i < 9 ==> -3 <= #[trigger] q.zone@[i] <= 3,
    ensures
        ({
            let a = at(pl.addr, OFF_ZONE as int);
            in_step(m.poke(a, bytes32(crate::edit::chart_with(m.u32_at(a), q.zone@, 9))), q)
        }),
{
    let off = OFF_ZONE as int;
    let a = at(pl.addr, off);
    let d = bytes32(crate::edit::chart_with(m.u32_at(a), q.zone@, 9));
    let (b, c) = (object(m, pl.addr), object(m.poke(a, d), pl.addr));
    after_a_write(m, pl.addr, off, d);
    rest_reads_alike(b, c, pl.addr, pl, off, off + 4);
    let (w, u) = (crate::bytes::le32(b, off), crate::bytes::le32(c, off));
    assert forall|i: int| 0 <= i < 9 implies #[trigger] q.zone@[i] == zone_value(u, i) by {
        crate::edit_laws::zone_is_read_back(m, pl.addr, q.zone@, i);
    }
    crate::edit_laws::zone_is_read_back(m, pl.addr, q.zone@, 0);
    assert(u / 0x800_0000 == w / 0x800_0000);
    assert(q.zone@ =~= Seq::new(9, |i: int| zone_value(u, i)));
    assert(u / 0x100_0000 / 8 == u / 0x800_0000 && w / 0x100_0000 / 8 == w / 0x800_0000);
    assert(u / 0x100_0000 == c[off + 3] && w / 0x100_0000 == b[off + 3]);
}

/// What is written far from the object leaves player and object in step.
pub proof fn far_write_keeps_step(m: Memory, pl: Player, a: u64, data: Seq<u8>)
    requires
        in_step(m, pl),
        forall|i: int|
            0 <= i < PLAYER_READ ==> Memory::offset(a, #[trigger] at(pl.addr, i)) >= data.len(),
    ensures
        in_step(m.poke(a, data), pl),
{
    let n = m.poke(a, data);
    crate::process::write_keeps_the_rest(m, a, data, pl.addr, PLAYER_READ as int);
    assert(m.fetch(pl.addr, PLAYER_READ as int) == Some(object(m, pl.addr)));
    assert(n.fetch(pl.addr, PLAYER_READ as int) == Some(object(n, pl.addr)));
}

/// Writing experience leaves player and object in step.
proof fn experience_keeps_step(m: Memory, pl: Player, k: int, v: u32)
    requires
        in_step(m, pl),
        0 <= k <= 0x1000,
    ensures
        in_step(m.poke(at(pl.addr, GROWTH_FROM_PLAYER + k), bytes32(v)), pl),
{
    let a = at(pl.addr, GROWTH_FROM_PLAYER + k);
    assert forall|i: int| 0 <= i < PLAYER_READ implies Memory::offset(a, #[trigger] at(pl.addr, i))
        >= bytes32(v).len() by {}
    far_write_keeps_step(m, pl, a, bytes32(v));
}

/// Writing an ability keeps player and object in step.
pub proof fn stat_keeps_step(m: Memory, pl: Player, q: Player, idx: usize, v: u8)
    requires
        in_step(m, pl),
        idx < 8,
        q == (Player { stats: q.stats, ..pl }),
        q.stats@ == pl.stats@.update(idx as int, v),
    ensures
        in_step(stat_synced(m, pl.addr, idx, v), q),
{
    let off = OFF_STATS + idx;
    let a = at(at(pl.addr, OFF_STATS as int), idx as int);
    assert(a == at(pl.addr, off));
    let n = m.poke(a, seq![v]);
    let c = object(n, pl.addr);
    after_a_write(m, pl.addr, off, seq![v]);
    rest_reads_alike(object(m, pl.addr), c, pl.addr, pl, off, off + 1);
    assert(c[off + 0] == v);
    assert(q.stats@ =~= c.subrange(OFF_STATS as int, OFF_STATS + 8));
    let t = STAT_TO_EXP@;
    assert(t[0] == 0 && t[1] == 1 && t[2] == 2 && t[3] == 3 && t[4] == 6 && t[5] == 5 && t[6] == 4
        && t[7] == -1);
    if let Some(g) = growth_of(n, pl.addr) {
        let e: int = t[idx as int] as int;
        if e >= 0 {
            assert(cell(g.wrapping_add(GROWTH_EXP_OFF), e) == at(
                pl.addr,
                GROWTH_FROM_PLAYER + (0x40 + 4 * e),
            ));
            experience_keeps_step(n, q, 0x40 + 4 * e, exp_of_stat(v as int) as u32);
        }
    }
}

/// Writing a fielding aptitude keeps player and object in step.
pub proof fn field_keeps_step(m: Memory, pl: Player, q: Player, i: usize, v: u8)
    requires
        in_step(m, pl),
        i < 8,
        q == (Player { field: q.field, ..pl }),
        q.field@ == pl.field@.update(i as int, v),
    ensures
        in_step(field_synced(m, pl.addr, i, v), q),
{
    let off = OFF_FIELD + i;
    let a = at(at(pl.addr, OFF_FIELD as int), i as int);
    assert(a == at(pl.addr, off));
    let n = m.poke(a, seq![v]);
    let c = object(n, pl.addr);
    after_a_write(m, pl.addr, off, seq![v]);
    rest_reads_alike(object(m, pl.addr), c, pl.addr, pl, off, off + 1);
    assert(c[off + 0] == v);
    assert(q.field@ =~= c.subrange(OFF_FIELD as int, OFF_FIELD + 8));
    if let Some(g) = growth_of(n, pl.addr) {
        assert(cell(g.wrapping_add(GROWTH_FIELD_OFF), i as int) == at(
            pl.addr,
            GROWTH_FROM_PLAYER + (0x68 + 4 * i),
        ));
        experience_keeps_step(n, q, 0x68 + 4 * i, exp_of_stat(v as int) as u32);
    }
}

/// Writing the pitching aptitude keeps player and object in step.
pub proof fn aptitude_keeps_step(m: Memory, pl: Player, v: u8)
    requires
        in_step(m, pl),
    ensures
        in_step(def_synced(m, pl.addr, v), (Player { defense: v, ..pl })),
{
    let off = OFF_DEF as int;
    let q = Player { defense: v, ..pl };
    let n = m.poke(at(pl.addr, off), seq![v]);
    let (b, c) = (object(m, pl.addr), object(n, pl.addr));
    after_a_write(m, pl.addr, off, seq![v]);
    rest_reads_alike(b, c, pl.addr, pl, off, off + 1);
    assert(c[off + 0] == v);
    traits_stand_higher(b, c);
    if let Some(g) = growth_of(n, pl.addr) {
        assert(cell(g.wrapping_add(GROWTH_EXP_OFF), 9) == at(pl.addr, GROWTH_FROM_PLAYER + 0x64));
        experience_keeps_step(n, q, 0x64, exp_of_stat(v as int) as u32);
    }
}

/// The traits of a pitcher stand in the last of four bytes, and in the top two
/// bits of the one before.
proof fn traits_stand_higher(b: Seq<u8>, c: Seq<u8>)
    requires
        b.len() == PLAYER_READ,
        c.len() == PLAYER_READ,
        b[OFF_DEF + 3] == c[OFF_DEF + 3],
        b[OFF_DEF + 2] / 64 == c[OFF_DEF + 2] / 64,
    ensures
        ({
            let (x, y) = (crate::bytes::le32(b, OFF_DEF as int), crate::bytes::le32(c, OFF_DEF as int));
            &&& x / 0x40_0000 % 8 == y / 0x40_0000 % 8
            &&& x / 0x200_0000 % 8 == y / 0x200_0000 % 8
            &&& x / 0x1000_0000 % 8 == y / 0x1000_0000 % 8
        }),
{
    let (x, y) = (crate::bytes::le32(b, OFF_DEF as int), crate::bytes::le32(c, OFF_DEF as int));
    high_part(b[OFF_DEF as int] as int, b[OFF_DEF + 1] as int, b[OFF_DEF + 2] as int, b[OFF_DEF
        + 3] as int);
    high_part(c[OFF_DEF as int] as int, c[OFF_DEF + 1] as int, c[OFF_DEF + 2] as int, c[OFF_DEF
        + 3] as int);
    assert(x / 0x40_0000 == y / 0x40_0000);
    assert(x / 0x200_0000 == x / 0x40_0000 / 8 && y / 0x200_0000 == y / 0x40_0000 / 8);
    assert(x / 0x1000_0000 == x / 0x40_0000 / 64 && y / 0x1000_0000 == y / 0x40_0000 / 64);
}

proof fn high_part(b0: int, b1: int, b2: int, b3: int)
    requires
        0 <= b0 < 256,
        0 <= b1 < 256,
        0 <= b2 < 256,
        0 <= b3 < 256,
    ensures
        (b0 + b1 * 0x100 + b2 * 0x1_0000 + b3 * 0x100_0000) / 0x40_0000 == b2 / 64 + b3 * 4,
{
    let q = b2 / 64;
    assert(b2 == 64 * q + b2 % 64);
}

/// Writing speed and stamina keeps player and object in step.
pub proof fn pack_keeps_step(m: Memory, pl: Player, q: Player)
    requires
        in_step(m, pl),
        q == (Player { speed: q.speed, stamina: q.stamina, ..pl }),
        80 <= q.speed <= 207,
        q.stamina <= 127,
    ensures
        in_step(pack_synced(m, pl.addr, q.speed, q.stamina, q.pack_hi), q),
{
    let off = OFF_PACK as int;
    let d = bytes16(crate::edit::pack_word(q.speed, q.stamina, q.pack_hi));
    let n = m.poke(at(pl.addr, off), d);
    let (b, c) = (object(m, pl.addr), object(n, pl.addr));
    assert(q.pack_hi % 0x4000 == 0);
    crate::edit_laws::pack_is_read_back(m, pl.addr, q.speed, q.stamina, q.pack_hi);
    after_a_write(m, pl.addr, off, d);
    rest_reads_alike(b, c, pl.addr, pl, off, off + 2);
    let (w, u) = (crate::bytes::le16(b, off), crate::bytes::le16(c, off));
    assert(u / 0x4000 == w / 0x4000);
    assert(u / 0x4000 == c[off + 1] / 64 && w / 0x4000 == b[off + 1] / 64);
    traits_stand_higher(b, c);
    assert(in_step(n, q));
    if let Some(g) = growth_of(n, pl.addr) {
        let e = g.wrapping_add(GROWTH_EXP_OFF);
        assert(cell(e, 8) == at(pl.addr, GROWTH_FROM_PLAYER + 0x60));
        assert(cell(e, 7) == at(pl.addr, GROWTH_FROM_PLAYER + 0x5C));
        let x = exp_of_stat(q.stamina as int) as u32;
        experience_keeps_step(n, q, 0x60, x);
        let n2 = n.poke(cell(e, 8), bytes32(x));
        let y = crate::bytes::pattern(crate::growth::exp_of_speed(n2, g, q.speed as i32));
        experience_keeps_step(n2, q, 0x5C, y);
    }
}

/// The pitch `b` in slot `slot` at hand is what a write of it leaves in the game.
pub open spec fn writes_as_it_is(b: Ball) -> bool {
    if b.id == BALL_EMPTY {
        b.power == 0 && b.control == 0 && b.move_ == 0
    } else {
        b.power < 32 && b.move_ < 8
    }
}

/// Writing the bytes of a pitch keeps player and object in step.
pub proof fn pitch_keeps_step(m: Memory, pl: Player, q: Player, slot: int)
    requires
        in_step(m, pl),
        0 <= slot < N_BALL,
        q == (Player { balls: q.balls, ..pl }),
        q.balls@ == pl.balls@.update(slot, q.balls@[slot]),
        writes_as_it_is(q.balls@[slot]),
    ensures
        in_step(
            m.poke(
                crate::edit::ball_addr(pl.addr, slot),
                crate::edit::ball_bytes(q.balls@[slot]),
            ),
            q,
        ),
{
    let off = OFF_BALL + slot * 3;
    let x = q.balls@[slot];
    let d = crate::edit::ball_bytes(x);
    assert(crate::edit::ball_addr(pl.addr, slot) == at(pl.addr, off));
    let (b, c) = (object(m, pl.addr), object(m.poke(at(pl.addr, off), d), pl.addr));
    crate::edit_laws::ball_is_read_back(m, pl.addr, slot, x);
    after_a_write(m, pl.addr, off, d);
    rest_reads_alike(b, c, pl.addr, pl, off, off + 3);
    assert forall|k: int| 0 <= k < N_BALL implies #[trigger] q.balls@[k] == ball_in(c, k) by {
        if k != slot {
            assert(q.balls@[k] == pl.balls@[k]);
            assert(pl.balls@[k] == ball_in(b, k));
        }
    }
    assert(q.balls@ =~= Seq::new(N_BALL as nat, |k: int| ball_in(c, k)));
}

/// Writing a pitch with the experience behind it keeps player and object in
/// step.
pub proof fn synced_pitch_keeps_step(m: Memory, pl: Player, q: Player, slot: usize)
    requires
        in_step(m, pl),
        slot < N_BALL,
        q == (Player { balls: q.balls, ..pl }),
        q.balls@ == pl.balls@.update(slot as int, q.balls@[slot as int]),
        writes_as_it_is(q.balls@[slot as int]),
    ensures
        in_step(ball_synced(m, pl.addr, slot, q.balls@[slot as int]), q),
{
    let x = q.balls@[slot as int];
    pitch_keeps_step(m, pl, q, slot as int);
    let n = m.poke(
        crate::edit::ball_addr(pl.addr, slot as int),
        crate::edit::ball_bytes(x),
    );
    if let Some(g) = growth_of(n, pl.addr) {
        let a = crate::growth::ball_cells(g, slot as int);
        let k = 0x88 + 12 * slot;
        assert(cell(a, 0) == at(pl.addr, GROWTH_FROM_PLAYER + k));
        assert(cell(a, 1) == at(pl.addr, GROWTH_FROM_PLAYER + (k + 4)));
        assert(cell(a, 2) == at(pl.addr, GROWTH_FROM_PLAYER + (k + 8)));
        let v0 = crate::growth::exp_of_grade(x.power) as u32;
        let v1 = crate::growth::exp_of_grade(x.control) as u32;
        let v2 = crate::growth::exp_of_grade(x.move_) as u32;
        experience_keeps_step(n, q, k as int, v0);
        let n1 = n.poke(cell(a, 0), bytes32(v0));
        experience_keeps_step(n1, q, k + 4, v1);
        let n2 = n1.poke(cell(a, 1), bytes32(v1));
        experience_keeps_step(n2, q, k + 8, v2);
    }
}

/// Writing a half byte of the special abilities keeps player and object in step.
pub proof fn half_byte_keeps_step(m: Memory, pl: Player, q: Player, n: int, v: u8)
    requires
        in_step(m, pl),
        0 <= n < 28,
        q == (Player { abil: q.abil, ..pl }),
        q.abil@ == crate::abil::nib_set(pl.abil@, n, v),
    ensures
        ({
            let a = at(at(pl.addr, OFF_ABIL2 as int), n / 2);
            in_step(m.poke(a, seq![crate::abil::half_set(m.u8_at(a), n, v)]), q)
        }),
{
    let off = OFF_ABIL2 + n / 2;
    let a = at(at(pl.addr, OFF_ABIL2 as int), n / 2);
    assert(a == at(pl.addr, off));
    byte_of_object(m, pl.addr, off);
    let b = object(m, pl.addr);
    assert(pl.abil@[n / 2] == b[off]);
    let d = seq![crate::abil::half_set(m.u8_at(a), n, v)];
    let c = object(m.poke(a, d), pl.addr);
    after_a_write(m, pl.addr, off, d);
    rest_reads_alike(b, c, pl.addr, pl, off, off + 1);
    assert(c[off + 0] == d[0]);
    assert(q.abil@ =~= c.subrange(OFF_ABIL2 as int, OFF_ABIL2 + 14));
}

/// Writing all special abilities keeps player and object in step.
pub proof fn abilities_keep_step(m: Memory, pl: Player, q: Player)
    requires
        in_step(m, pl),
        q == (Player { abil: q.abil, ..pl }),
    ensures
        in_step(m.poke(at(pl.addr, OFF_ABIL2 as int), q.abil@), q),
{
    let off = OFF_ABIL2 as int;
    let d = q.abil@;
    let c = object(m.poke(at(pl.addr, off), d), pl.addr);
    after_a_write(m, pl.addr, off, d);
    rest_reads_alike(object(m, pl.addr), c, pl.addr, pl, off, off + 14);
    assert forall|i: int| 0 <= i < 14 implies #[trigger] d[i] == c[off + i] by {}
    assert(q.abil@ =~= c.subrange(OFF_ABIL2 as int, OFF_ABIL2 + 14));
}

/// A reading of the object is in step with it.
pub proof fn readings_are_in_step(m: Memory, obj: u64, pl: Player)
    requires
        editable(m, obj),
        m.fetch(obj, PLAYER_READ as int) is Some,
        is_player(m.fetch(obj, PLAYER_READ as int)->0, obj, pl),
    ensures
        in_step(m, pl),
{
}

/// `y` is what the object at `obj` says.
pub open spec fn reads_as(m: Memory, obj: u64, y: Player) -> bool {
    is_player(object(m, obj), obj, y)
}

/// Record `k` in the object is the one that `slot_at` speaks of.
proof fn slot_of_record(m: Memory, obj: u64, k: int)
    requires
        editable(m, obj),
        0 <= k < N_REC,
    ensures
        crate::edit::slot_at(m, obj, k) == crate::bytes::le32(rec_bytes(object(m, obj), k), 0),
{
    let off = OFF_ORIG + k * REC;
    assert(crate::edit::rec_addr(obj, k) == at(obj, off));
    crate::edit_laws::dword_of_object(m, obj, off);
    let (b, r) = (object(m, obj), rec_bytes(object(m, obj), k));
    assert(r[0] == b[off] && r[1] == b[off + 1] && r[2] == b[off + 2] && r[3] == b[off + 3]);
}

/// The first record of a slot.
proof fn first_record_is_found(recs: Seq<crate::player::OrigRec>, slot: usize, i: int)
    requires
        0 <= i < recs.len(),
        recs[i].slot == slot as int % 0x1_0000_0000,
        forall|j: int| 0 <= j < i ==> (#[trigger] recs[j]).slot != slot as int % 0x1_0000_0000,
    ensures
        crate::player::rec_index(recs, slot) == Some(i),
    decreases i,
{
    if i > 0 {
        assert(recs[0].slot != slot as int % 0x1_0000_0000);
        let t = recs.skip(1);
        assert forall|j: int| 0 <= j < i - 1 implies (#[trigger] t[j]).slot != slot as int
            % 0x1_0000_0000 by {
            assert(t[j] == recs[j + 1]);
        }
        first_record_is_found(t, slot, i - 1);
    }
}

proof fn other_records_stay(
    b: Seq<u8>,
    c: Seq<u8>,
    obj: u64,
    x: Player,
    y: Player,
    i: int,
    k: int,
)
    requires
        b.len() == PLAYER_READ,
        c.len() == PLAYER_READ,
        is_player(b, obj, x),
        is_player(c, obj, y),
        0 <= i < N_REC,
        0 <= k < N_REC,
        k != i,
        forall|j: int|
            0 <= j < PLAYER_READ && !(OFF_ORIG + i * REC <= j < OFF_ORIG + i * REC + REC)
                ==> #[trigger] c[j] == b[j],
    ensures
        y.recs@[k].raw@ == x.recs@[k].raw@,
        y.recs@[k].slot == x.recs@[k].slot,
        x.recs@[k].slot == crate::bytes::le32(rec_bytes(b, k), 0),
{
    assert(rec_bytes(c, k) =~= rec_bytes(b, k));
    assert(is_rec(rec_bytes(c, k), y.recs@[k]));
    assert(is_rec(rec_bytes(b, k), x.recs@[k]));
}

proof fn same_elsewhere(b: Seq<u8>, c: Seq<u8>, obj: u64, x: Player, y: Player, lo: int, hi: int)
    requires
        b.len() == PLAYER_READ,
        c.len() == PLAYER_READ,
        is_player(b, obj, x),
        is_player(c, obj, y),
        OFF_ORIG <= lo,
        hi <= OFF_ORIG + N_REC * REC,
        forall|j: int| 0 <= j < PLAYER_READ && !(lo <= j < hi) ==> #[trigger] c[j] == b[j],
    ensures
        y.balls@ == x.balls@,
        y.stats@ == x.stats@,
        y.abil@ == x.abil@,
        y.name@ == x.name@,
{
    rest_reads_alike(b, c, obj, x, lo, hi);
}

proof fn given_record_in_bytes(m: Memory, obj: u64, slot: usize, i: usize, raw: Seq<u8>)
    requires
        editable(m, obj),
        slot < N_BALL,
        raw.len() == REC,
        crate::edit::is_rec_for(m, obj, slot, Some(i)),
    ensures
        ({
            let n = m.poke(
                crate::edit::rec_addr(obj, i as int),
                crate::edit::rec_with_slot(raw, slot),
            );
            let (b, c) = (object(m, obj), object(n, obj));
            &&& i < N_REC
            &&& c.len() == PLAYER_READ
            &&& crate::bytes::le32(rec_bytes(c, i as int), 0) == slot
            &&& rec_bytes(c, i as int).skip(4) == raw.skip(4)
            &&& forall|j: int|
                0 <= j < PLAYER_READ && !(OFF_ORIG + i * REC <= j < OFF_ORIG + i * REC + REC)
                    ==> #[trigger] c[j] == b[j]
            &&& forall|j: int|
                0 <= j < i ==> crate::bytes::le32(#[trigger] rec_bytes(b, j), 0) != slot
        }),
{
    let off = OFF_ORIG + i * REC;
    let d = crate::edit::rec_with_slot(raw, slot);
    assert(crate::edit::rec_addr(obj, i as int) == at(obj, off));
    crate::edit_laws::rec_is_read_back(m, obj, i as int, raw, slot);
    after_a_write(m, obj, off, d);
    let b = object(m, obj);
    assert forall|j: int| 0 <= j < i implies crate::bytes::le32(#[trigger] rec_bytes(b, j), 0)
        != slot by {
        slot_of_record(m, obj, j);
        assert(crate::edit::slot_at(m, obj, j) != slot);
    }
}

proof fn given_record_in_players(
    b: Seq<u8>,
    c: Seq<u8>,
    obj: u64,
    x: Player,
    y: Player,
    i: int,
    slot: usize,
    raw: Seq<u8>,
)
    requires
        b.len() == PLAYER_READ,
        c.len() == PLAYER_READ,
        is_player(b, obj, x),
        is_player(c, obj, y),
        0 <= i < N_REC,
        slot < N_BALL,
        raw.len() == REC,
        crate::bytes::le32(rec_bytes(c, i), 0) == slot,
        rec_bytes(c, i).skip(4) == raw.skip(4),
        forall|j: int|
            0 <= j < PLAYER_READ && !(OFF_ORIG + i * REC <= j < OFF_ORIG + i * REC + REC)
                ==> #[trigger] c[j] == b[j],
        forall|j: int| 0 <= j < i ==> crate::bytes::le32(#[trigger] rec_bytes(b, j), 0) != slot,
    ensures
        crate::player::rec_index(y.recs@, slot) == Some(i),
        y.recs@[i].slot == slot,
        y.recs@[i].raw@.len() == REC,
        y.recs@[i].raw@.skip(4) == raw.skip(4),
        forall|k: int|
            0 <= k < N_REC && k != i ==> (#[trigger] y.recs@[k]).raw@ == x.recs@[k].raw@,
        y.balls@ == x.balls@,
        y.stats@ == x.stats@,
        y.abil@ == x.abil@,
        y.name@ == x.name@,
{
    same_elsewhere(b, c, obj, x, y, OFF_ORIG + i * REC, OFF_ORIG + i * REC + REC);
    record_says(c, obj, y, i);
    assert forall|k: int| 0 <= k < N_REC && k != i implies (#[trigger] y.recs@[k]).raw@
        == x.recs@[k].raw@ by {
        other_records_stay(b, c, obj, x, y, i, k);
    }
    assert forall|j: int| 0 <= j < i implies (#[trigger] y.recs@[j]).slot != slot as int
        % 0x1_0000_0000 by {
        other_records_stay(b, c, obj, x, y, i, j);
        assert(crate::bytes::le32(rec_bytes(b, j), 0) != slot);
    }
    first_record_is_found(y.recs@, slot, i);
}

proof fn record_says(c: Seq<u8>, obj: u64, y: Player, i: int)
    requires
        c.len() == PLAYER_READ,
        is_player(c, obj, y),
        0 <= i < N_REC,
    ensures
        y.recs@.len() == N_REC,
        y.recs@[i].slot == crate::bytes::le32(rec_bytes(c, i), 0),
        y.recs@[i].raw@ == rec_bytes(c, i),
        rec_bytes(c, i).len() == REC,
{
    assert(is_rec(rec_bytes(c, i), y.recs@[i]));
}

/// An original pitch that was given to a slot is the one that the slot has when
/// the object is read again: its record is that of the library but for the slot
/// in front. The other records stay.
pub proof fn given_record_is_read(
    m: Memory,
    obj: u64,
    slot: usize,
    i: usize,
    raw: Seq<u8>,
    x: Player,
    y: Player,
)
    requires
        editable(m, obj),
        slot < N_BALL,
        raw.len() == REC,
        crate::edit::is_rec_for(m, obj, slot, Some(i)),
        reads_as(m, obj, x),
        reads_as(
            m.poke(
                crate::edit::rec_addr(obj, i as int),
                crate::edit::rec_with_slot(raw, slot),
            ),
            obj,
            y,
        ),
    ensures
        crate::player::rec_index(y.recs@, slot) == Some(i as int),
        y.recs@[i as int].slot == slot,
        y.recs@[i as int].raw@.len() == REC,
        y.recs@[i as int].raw@.skip(4) == raw.skip(4),
        forall|k: int|
            0 <= k < N_REC && k != i ==> (#[trigger] y.recs@[k]).raw@ == x.recs@[k].raw@,
        y.balls@ == x.balls@,
        y.stats@ == x.stats@,
        y.abil@ == x.abil@,
        y.name@ == x.name@,
{
    let n = m.poke(
        crate::edit::rec_addr(obj, i as int),
        crate::edit::rec_with_slot(raw, slot),
    );
    given_record_in_bytes(m, obj, slot, i, raw);
    given_record_in_players(object(m, obj), object(n, obj), obj, x, y, i as int, slot, raw);
}

proof fn experience_keeps_object(m: Memory, obj: u64, k: int, v: u32)
    requires
        editable(m, obj),
        0 <= k <= 0x1000,
    ensures
        ({
            let n = m.poke(at(obj, GROWTH_FROM_PLAYER + k), bytes32(v));
            editable(n, obj) && object(n, obj) == object(m, obj)
        }),
{
    let a = at(obj, GROWTH_FROM_PLAYER + k);
    let n = m.poke(a, bytes32(v));
    assert forall|i: int| 0 <= i < PLAYER_READ implies Memory::offset(a, #[trigger] at(obj, i))
        >= bytes32(v).len() by {}
    crate::process::write_keeps_the_rest(m, a, bytes32(v), obj, PLAYER_READ as int);
    assert(m.fetch(obj, PLAYER_READ as int) == Some(object(m, obj)));
    assert(n.fetch(obj, PLAYER_READ as int) == Some(object(n, obj)));
}

/// What a pitch looks like in the game once it is written.
pub open spec fn stored_pitch(b: Ball) -> Ball {
    if b.id == BALL_EMPTY {
        Ball { id: BALL_EMPTY, power: 0, control: 0, move_: 0 }
    } else {
        b
    }
}

proof fn synced_pitch_in_object(m: Memory, obj: u64, slot: usize, x: Ball)
    requires
        editable(m, obj),
        slot < N_BALL,
        x.id != BALL_EMPTY ==> x.power < 32 && x.move_ < 8,
    ensures
        ({
            let n = ball_synced(m, obj, slot, x);
            let (b, c) = (object(m, obj), object(n, obj));
            &&& editable(n, obj)
            &&& c.len() == PLAYER_READ
            &&& ball_in(c, slot as int) == stored_pitch(x)
            &&& forall|j: int|
                0 <= j < PLAYER_READ && !(OFF_BALL + slot * 3 <= j < OFF_BALL + slot * 3 + 3)
                    ==> #[trigger] c[j] == b[j]
        }),
{
    let off = OFF_BALL + slot * 3;
    let d = crate::edit::ball_bytes(x);
    assert(crate::edit::ball_addr(obj, slot as int) == at(obj, off));
    let n = m.poke(at(obj, off), d);
    crate::edit_laws::ball_is_read_back(m, obj, slot as int, x);
    after_a_write(m, obj, off, d);
    if let Some(g) = growth_of(n, obj) {
        let a = crate::growth::ball_cells(g, slot as int);
        let k = 0x88 + 12 * slot;
        assert(cell(a, 0) == at(obj, GROWTH_FROM_PLAYER + k));
        assert(cell(a, 1) == at(obj, GROWTH_FROM_PLAYER + (k + 4)));
        assert(cell(a, 2) == at(obj, GROWTH_FROM_PLAYER + (k + 8)));
        let v0 = crate::growth::exp_of_grade(x.power) as u32;
        let v1 = crate::growth::exp_of_grade(x.control) as u32;
        let v2 = crate::growth::exp_of_grade(x.move_) as u32;
        experience_keeps_object(n, obj, k as int, v0);
        let n1 = n.poke(cell(a, 0), bytes32(v0));
        experience_keeps_object(n1, obj, k + 4, v1);
        let n2 = n1.poke(cell(a, 1), bytes32(v1));
        experience_keeps_object(n2, obj, k + 8, v2);
    }
}

/// A pitch that was put into a slot is what the slot holds when the object is
/// read again, and the other slots hold what they held. Where the record `gone`
/// was given up with it, that record belongs to no slot any more.
pub proof fn put_pitch_is_read(
    m: Memory,
    pl: Player,
    slot: usize,
    x: Ball,
    gone: Option<int>,
    y: Player,
)
    requires
        in_step(m, pl),
        slot < N_BALL,
        x.id != BALL_EMPTY ==> x.power < 32 && x.move_ < 8,
        gone is Some ==> 0 <= gone->0 < N_REC,
        ({
            let n = ball_synced(m, pl.addr, slot, x);
            reads_as(
                match gone {
                    Some(i) => n.poke(
                        crate::edit::rec_addr(pl.addr, i),
                        crate::edit::blank_rec(),
                    ),
                    None => n,
                },
                pl.addr,
                y,
            )
        }),
    ensures
        y.balls@ == pl.balls@.update(slot as int, stored_pitch(x)),
        y.stats@ == pl.stats@,
        y.name@ == pl.name@,
        gone is Some ==> y.recs@[gone->0].slot == crate::offsets::REC_UNUSED_SLOT,
{
    let obj = pl.addr;
    let n = ball_synced(m, obj, slot, x);
    let (b, c) = (object(m, obj), object(n, obj));
    synced_pitch_in_object(m, obj, slot, x);
    match gone {
        Some(i) => {
            let off = OFF_ORIG + i * REC;
            let d = crate::edit::blank_rec();
            assert(crate::edit::rec_addr(obj, i) == at(obj, off));
            crate::edit_laws::cleared_rec_is_unused(n, obj, i);
            after_a_write(n, obj, off, d);
            let e = object(n.poke(at(obj, off), d), obj);
            record_says(e, obj, y, i);
            pitches_are_read(b, e, pl, y, slot as int, x);
        },
        None => {
            pitches_are_read(b, c, pl, y, slot as int, x);
        },
    }
}

proof fn pitches_are_read(b: Seq<u8>, c: Seq<u8>, pl: Player, y: Player, slot: int, x: Ball)
    requires
        b.len() == PLAYER_READ,
        c.len() == PLAYER_READ,
        0 <= slot < N_BALL,
        is_player(b, pl.addr, pl),
        is_player(c, pl.addr, y),
        ball_in(c, slot) == stored_pitch(x),
        forall|j: int|
            0 <= j < PLAYER_READ && !(OFF_BALL + slot * 3 <= j < OFF_BALL + slot * 3 + 3) && !(
            OFF_ORIG <= j < OFF_NAME) ==> #[trigger] c[j] == b[j],
    ensures
        y.balls@ == pl.balls@.update(slot, stored_pitch(x)),
        y.stats@ == pl.stats@,
        y.name@ == pl.name@,
{
    assert forall|k: int| 0 <= k < N_BALL implies #[trigger] y.balls@[k] == pl.balls@.update(
        slot,
        stored_pitch(x),
    )[k] by {
        assert(y.balls@[k] == ball_in(c, k));
        assert(pl.balls@[k] == ball_in(b, k));
        if k != slot {
            let o = OFF_BALL + k * 3;
            assert(c[o] == b[o] && c[o + 1] == b[o + 1] && c[o + 2] == b[o + 2]);
        }
    }
    assert(y.balls@ =~= pl.balls@.update(slot, stored_pitch(x)));
    assert(y.stats@ =~= pl.stats@);
    assert(crate::text::name_window(c) =~= crate::text::name_window(b));
}

} // verus!

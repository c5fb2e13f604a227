//! Edits of the experience that a star player's abilities are computed from.

use vstd::prelude::*;
use vstd::string::*;

use crate::digits::{push_decimal, push_hex, push_hex_up_min};
use crate::growth::{
    apply_growth_result, exp_for_stat, raise_growth_extra, set_field_exp, set_growth_exp,
    set_growth_target, stat_for_exp, EXP_IDX_SPEED, GROWTH_EXP_MAX, GROWTH_EXP_NAMES,
    GROWTH_FROM_PLAYER,
};
use crate::process::{at, Memory, Proc};
use crate::traits::{done, says, Outcome};

verus! {

/// A number that may be negative, in decimal.
pub open spec fn signed_text(v: int) -> Seq<char> {
    if v < 0 {
        "-"@ + crate::digits::decimal((-v) as nat)
    } else {
        crate::digits::decimal(v as nat)
    }
}

/// Appends a number that may be negative.
pub fn push_signed(s: &mut String, v: i32)
    ensures
        final(s)@ == old(s)@ + signed_text(v as int),
{
    if v < 0 {
        s.append("-");
        let n: i64 = -(v as i64);
        push_decimal(s, n as u64);
        assert(s@ =~= old(s)@ + signed_text(v as int));
    } else {
        push_decimal(s, v as u64);
    }
}

/// What is shown for a cell of experience: what it comes to, except for the
/// ball speed, which has a table of its own.
pub open spec fn exp_text(i: int, v: i32) -> Seq<char> {
    GROWTH_EXP_NAMES@[i]@ + "　"@ + signed_text(v as int) + if i == EXP_IDX_SPEED {
        ""@
    } else {
        " → "@ + signed_text(crate::growth::stat_of_exp(v as int))
    }
}

/// What is shown for cell `i` of the experience.
pub fn exp_label(i: usize, v: i32) -> (res: String)
    requires
        i < 10,
    ensures
        res@ == exp_text(i as int, v),
{
    proof {
        reveal_strlit("");
    }
    let mut s = GROWTH_EXP_NAMES[i].to_owned();
    s.append("　");
    push_signed(&mut s, v);
    if i != EXP_IDX_SPEED {
        s.append(" → ");
        push_signed(&mut s, stat_for_exp(v));
    }
    assert(s@ =~= exp_text(i as int, v));
    s
}

/// What is shown for a target: its experience, and what that comes to.
pub open spec fn target_text(target: i32) -> Seq<char> {
    let e = crate::growth::exp_of_stat(target as int);
    "＝ 經驗值 "@ + signed_text(e) + "（回推 "@ + signed_text(crate::growth::stat_of_exp(e)) + "）"@
}

/// What is shown for a target.
pub fn target_label(target: i32) -> (res: String)
    ensures
        res@ == target_text(target),
{
    let e: i32 = exp_for_stat(target);
    let mut s = "＝ 經驗值 ".to_owned();
    push_signed(&mut s, e);
    s.append("（回推 ");
    push_signed(&mut s, stat_for_exp(e));
    s.append("）");
    s
}

/// What is shown for a growth structure.
pub fn growth_label(base: u64) -> (res: String)
    ensures
        res@ == "結構 0x"@ + crate::digits::hex(base as nat) + "　＝　選手物件 +0x"@
            + crate::digits::hex_up_min(GROWTH_FROM_PLAYER as nat, 1),
{
    let mut s = "結構 0x".to_owned();
    push_hex(&mut s, base);
    s.append("　＝　選手物件 +0x");
    push_hex_up_min(&mut s, GROWTH_FROM_PLAYER, 1);
    s
}

/// The memory after a target was set.
pub open spec fn with_target(m: Memory, base: u64, target: i32) -> Memory {
    if crate::growth::is_growth(m, base) {
        crate::growth::put_cells(
            crate::growth::put_cells(
                m,
                base.wrapping_add(crate::growth::GROWTH_EXP_OFF),
                crate::growth::target_cells(target),
                10,
            ),
            base.wrapping_add(crate::growth::GROWTH_FIELD_OFF),
            crate::growth::same_cells(crate::growth::exp_of_stat(target as int) as i32, 8),
            8,
        )
    } else {
        m
    }
}

/// Sets the experience to what a target needs.
pub fn edit_target(p: &mut Proc, base: u64, target: i32) -> (res: Outcome)
    ensures
        final(p)@ == with_target(old(p)@, base, target),
        says(
            res,
            crate::growth::is_growth(old(p)@, base) && crate::growth::cells_accept(
                old(p)@,
                base.wrapping_add(crate::growth::GROWTH_EXP_OFF),
                10,
            ) && crate::growth::cells_accept(
                old(p)@,
                base.wrapping_add(crate::growth::GROWTH_FIELD_OFF),
                8,
            ),
            "成長經驗值 → 目標 "@ + signed_text(target as int),
        ),
{
    let ok = set_growth_target(p, base, target);
    let mut what = "成長經驗值 → 目標 ".to_owned();
    push_signed(&mut what, target);
    Outcome { ok, what, reload: false }
}

/// Fills all experience up.
pub fn fill_experience(p: &mut Proc, base: u64) -> (res: Outcome)
    ensures
        ({
            let m = old(p)@;
            let a = base.wrapping_add(crate::growth::GROWTH_EXP_OFF);
            &&& final(p)@ == if crate::growth::is_growth(m, base) {
                crate::growth::put_cells(m, a, crate::growth::same_cells(GROWTH_EXP_MAX, 10), 10)
            } else {
                m
            }
            &&& says(
                res,
                crate::growth::is_growth(m, base) && crate::growth::cells_accept(m, a, 10),
                "成長經驗值（推進一天後能力才會變）"@,
            )
        }),
{
    let ok = set_growth_exp(p, base, GROWTH_EXP_MAX);
    done(ok, "成長經驗值（推進一天後能力才會變）")
}

/// The memory after the experience of all positions was filled up.
pub open spec fn with_fields(m: Memory, base: u64) -> Memory {
    if crate::growth::is_growth(m, base) {
        crate::growth::put_cells(
            m,
            base.wrapping_add(crate::growth::GROWTH_FIELD_OFF),
            crate::growth::same_cells(crate::growth::GROWTH_FIELD_MAX, 8),
            8,
        )
    } else {
        m
    }
}

/// How many cells of the pitches are raised.
pub open spec fn raised_cells(m: Memory, base: u64) -> nat {
    if crate::growth::is_growth(m, base) {
        crate::growth::risen_count(m, base, crate::growth::GROWTH_EXTRA_N as int)
    } else {
        0
    }
}

/// Fills up the experience of all positions, and that of the pitches that are
/// there.
pub fn raise_everything(p: &mut Proc, base: u64) -> (res: Outcome)
    ensures
        ({
            let m = old(p)@;
            let n = with_fields(m, base);
            let f = crate::growth::is_growth(m, base) && crate::growth::cells_accept(
                m,
                base.wrapping_add(crate::growth::GROWTH_FIELD_OFF),
                8,
            );
            let k = raised_cells(n, base);
            &&& final(p)@ == if crate::growth::is_growth(n, base) {
                crate::growth::risen(n, base, crate::growth::GROWTH_EXTRA_N as int)
            } else {
                n
            }
            &&& says(
                res,
                f || k > 0,
                "守位經驗值 "@ + if f {
                    "8 格"@
                } else {
                    "失敗"@
                } + "／球種經驗值 "@ + crate::digits::decimal(k) + " 格"@,
            )
        }),
{
    let f = set_field_exp(p, base);
    let n: usize = raise_growth_extra(p, base);
    let mut what = "守位經驗值 ".to_owned();
    if f {
        what.append("8 格");
    } else {
        what.append("失敗");
    }
    what.append("／球種經驗值 ");
    push_decimal(&mut what, n as u64);
    what.append(" 格");
    Outcome { ok: f || n > 0, what, reload: false }
}

/// The memory after the result of full experience was written into an object.
pub open spec fn with_result(m: Memory, obj: u64) -> Memory {
    let pack = at(obj, crate::offsets::OFF_PACK as int);
    let hi = (m.u16_at(pack) / 0x4000 * 0x4000) as u16;
    if crate::text::is_sane(crate::text::name_at(m, obj)) {
        m.poke(
            at(obj, crate::offsets::OFF_STATS as int),
            crate::growth::same_bytes_seq(99, 8),
        ).poke(pack, crate::bytes::bytes16(crate::edit::pack_word(175, 99, hi))).poke(
            at(obj, crate::offsets::OFF_DEF as int),
            seq![99u8],
        ).poke(
            at(obj, crate::offsets::OFF_FIELD as int),
            crate::growth::same_bytes_seq(99, 8),
        )
    } else {
        m
    }
}

/// Writes the result of full experience into a player object at once.
pub fn apply_result(p: &mut Proc, obj: u64) -> (res: Outcome)
    ensures
        final(p)@ == with_result(old(p)@, obj),
        says(
            res,
            crate::text::is_sane(crate::text::name_at(old(p)@, obj)) && old(p)@.accepts(
                at(obj, crate::offsets::OFF_STATS as int),
                8,
            ) && old(p)@.accepts(at(obj, crate::offsets::OFF_PACK as int), 2) && old(p)@.accepts(
                at(obj, crate::offsets::OFF_DEF as int),
                1,
            ) && old(p)@.accepts(at(obj, crate::offsets::OFF_FIELD as int), 8),
            "立即套用（能力 99／球速 175／耐力 99）"@,
        ),
{
    let ok = apply_growth_result(p, obj);
    done(ok, "立即套用（能力 99／球速 175／耐力 99）")
}

/// Whoever reads a player after the result of full experience was written reads
/// 99 for every ability, 175 for the speed, and 99 for the stamina, the pitching
/// aptitude and the fielding at all eight positions.
pub proof fn result_is_read(m: Memory, obj: u64, y: crate::player::Player, i: int)
    requires
        crate::edit_laws::editable(m, obj),
        crate::text::is_sane(crate::text::name_at(m, obj)),
        crate::agreement::reads_as(with_result(m, obj), obj, y),
        0 <= i < 8,
    ensures
        y.stats[i] == 99,
        y.field[i] == 99,
        y.speed == 175,
        y.stamina == 99,
        y.defense == 99,
{
    let pack = at(obj, crate::offsets::OFF_PACK as int);
    let hi = (m.u16_at(pack) / 0x4000 * 0x4000) as u16;
    let w = crate::edit::pack_word(175, 99, hi);
    let full = crate::growth::same_bytes_seq(99, 8);
    let m1 = m.poke(at(obj, crate::offsets::OFF_STATS as int), full);
    let m2 = m1.poke(pack, crate::bytes::bytes16(w));
    let m3 = m2.poke(at(obj, crate::offsets::OFF_DEF as int), seq![99u8]);
    crate::edit_laws::write_stays_in_place(m, obj, crate::offsets::OFF_STATS as int, full);
    crate::edit_laws::write_stays_in_place(
        m1,
        obj,
        crate::offsets::OFF_PACK as int,
        crate::bytes::bytes16(w),
    );
    crate::edit_laws::write_stays_in_place(m2, obj, crate::offsets::OFF_DEF as int, seq![99u8]);
    crate::edit_laws::write_stays_in_place(m3, obj, crate::offsets::OFF_FIELD as int, full);
    crate::bytes::le_undoes_bytes(0, w, 0);
    crate::edit_laws::pack_bits(175, 99, hi);
    let b = crate::edit_laws::object(with_result(m, obj), obj);
    assert(b[crate::offsets::OFF_STATS + i] == 99);
    assert(b[crate::offsets::OFF_FIELD + i] == 99);
    assert(b[crate::offsets::OFF_DEF as int] == 99);
    assert(b[crate::offsets::OFF_PACK as int] == crate::bytes::bytes16(w)[0]);
    assert(b[crate::offsets::OFF_PACK + 1] == crate::bytes::bytes16(w)[1]);
}

} // verus!

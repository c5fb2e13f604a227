//! Edits that write an ability together with the experience behind it: what the
//! game computes from the experience is what was written, and all other
//! experience stays.

use vstd::prelude::*;

use crate::abil::STAT_NAMES;
use crate::balls::BALL_EMPTY;
use crate::bytes::{bytes32, signed};
use crate::edit_laws::{editable, object, write_stays_in_place};
use crate::growth::{
    ball_cells, ball_synced, cell, def_synced, exp_cells, exp_of_grade, exp_of_speed, exp_of_stat,
    field_synced, growth_of, pack_synced, speed_of_exp, speed_threshold, stat_of_exp,
    stat_synced, with_ball_exp, GROWTH_EXP_NAMES, GROWTH_EXP_OFF, GROWTH_FIELD_OFF,
    GROWTH_FROM_PLAYER, GROWTH_THRESH_OFF, GROWTH_THRESH_OFF2, STAT_TO_EXP,
};
use crate::growth_laws::{exp_comes_to_its_speed, exp_comes_to_its_stat, speed_table_fits};
use crate::offsets::{OFF_BALL, OFF_DEF, OFF_FIELD, OFF_PACK, OFF_STATS, PLAYER_READ};
use crate::player::Ball;
use crate::process::{at, splice, write_keeps_access, write_keeps_the_rest, Memory};

verus! {

/// Number `i` of those that stand one after another from `off` on in the growth
/// structure of the player object at `obj`.
pub open spec fn growth_cell(m: Memory, obj: u64, off: u64, i: int) -> i32 {
    signed(m.u32_at(at(obj, GROWTH_FROM_PLAYER + off + 4 * i)))
}

/// The experience of a star player, from its ten abilities to the pitches, can
/// be written.
pub open spec fn trainable(m: Memory, obj: u64) -> bool {
    &&& editable(m, obj)
    &&& growth_of(m, obj) is Some
    &&& m.accepts(at(obj, GROWTH_FROM_PLAYER + GROWTH_EXP_OFF), 0x118 - 0x40)
}

/// Nothing but `data` at `off` of the player object changed as far as the object
/// goes, and the growth structure is still there.
pub open spec fn object_got(m: Memory, n: Memory, obj: u64, off: int, data: Seq<u8>) -> bool {
    &&& object(n, obj) == splice(object(m, obj), off, data)
    &&& trainable(n, obj)
}

/// What stands in the growth structure does not change with the object.
proof fn object_write_spares_growth(m: Memory, obj: u64, off: int, data: Seq<u8>, k: int)
    requires
        trainable(m, obj),
        0 <= off,
        off + data.len() <= PLAYER_READ,
        0 <= k <= 0x178 - 4,
    ensures
        ({
            let n = m.poke(at(obj, off), data);
            &&& object_got(m, n, obj, off, data)
            &&& growth_of(n, obj) == growth_of(m, obj)
            &&& n.u32_at(at(obj, GROWTH_FROM_PLAYER + k)) == m.u32_at(
                at(obj, GROWTH_FROM_PLAYER + k),
            )
        }),
{
    let a = at(obj, off);
    let g = growth_of(m, obj)->0;
    write_stays_in_place(m, obj, off, data);
    let t1 = g.wrapping_add(GROWTH_THRESH_OFF);
    let t2 = g.wrapping_add(GROWTH_THRESH_OFF2);
    let c = at(obj, GROWTH_FROM_PLAYER + k);
    let e = at(obj, GROWTH_FROM_PLAYER + GROWTH_EXP_OFF);
    assert forall|i: int| 0 <= i < 32 implies Memory::offset(a, #[trigger] at(t1, i))
        >= data.len() by {}
    assert forall|i: int| 0 <= i < 32 implies Memory::offset(a, #[trigger] at(t2, i))
        >= data.len() by {}
    assert forall|i: int| 0 <= i < 4 implies Memory::offset(a, #[trigger] at(c, i))
        >= data.len() by {}
    write_keeps_the_rest(m, a, data, t1, 32);
    write_keeps_the_rest(m, a, data, t2, 32);
    write_keeps_the_rest(m, a, data, c, 4);
    write_keeps_access(m, a, data, e, 0x118 - 0x40);
}

/// A number written into the experience reads back, all other numbers of the
/// growth structure stay, and so does the object.
proof fn growth_write_spares_the_rest(m: Memory, obj: u64, w: int, v: u32, k: int)
    requires
        trainable(m, obj),
        0x40 <= w <= 0x118 - 4,
        0 <= k <= 0x178 - 4,
        k == w || k + 4 <= w || w + 4 <= k,
    ensures
        ({
            let n = m.poke(at(obj, GROWTH_FROM_PLAYER + w), bytes32(v));
            &&& object(n, obj) == object(m, obj)
            &&& trainable(n, obj)
            &&& growth_of(n, obj) == growth_of(m, obj)
            &&& n.u32_at(at(obj, GROWTH_FROM_PLAYER + k)) == if k == w {
                v
            } else {
                m.u32_at(at(obj, GROWTH_FROM_PLAYER + k))
            }
        }),
{
    let a = at(obj, GROWTH_FROM_PLAYER + w);
    let d = bytes32(v);
    let n = m.poke(a, d);
    let g = growth_of(m, obj)->0;
    let t1 = g.wrapping_add(GROWTH_THRESH_OFF);
    let t2 = g.wrapping_add(GROWTH_THRESH_OFF2);
    let c = at(obj, GROWTH_FROM_PLAYER + k);
    let e = at(obj, GROWTH_FROM_PLAYER + GROWTH_EXP_OFF);
    assert forall|i: int| 0 <= i < 4 implies m.cells.dom().contains(#[trigger] at(a, i))
        && !m.cells[at(a, i)].sealed by {
        assert(at(a, i) == at(e, w - 0x40 + i));
        assert(m.cells.dom().contains(at(e, w - 0x40 + i)));
        assert(!m.cells[at(e, w - 0x40 + i)].sealed);
    }
    assert(m.accepts(a, 4));
    assert forall|i: int| 0 <= i < 32 implies Memory::offset(a, #[trigger] at(t1, i))
        >= d.len() by {}
    assert forall|i: int| 0 <= i < 32 implies Memory::offset(a, #[trigger] at(t2, i))
        >= d.len() by {}
    assert forall|i: int| 0 <= i < PLAYER_READ implies Memory::offset(a, #[trigger] at(obj, i))
        >= d.len() by {}
    write_keeps_the_rest(m, a, d, t1, 32);
    write_keeps_the_rest(m, a, d, t2, 32);
    write_keeps_the_rest(m, a, d, obj, PLAYER_READ as int);
    assert(object(n, obj) == object(m, obj)) by {
        assert(m.fetch(obj, PLAYER_READ as int) == Some(object(m, obj)));
        assert(n.fetch(obj, PLAYER_READ as int) == Some(object(n, obj)));
    }
    write_keeps_access(m, a, d, e, 0x118 - 0x40);
    if k == w {
        crate::process::read_after_write(m, a, d);
        crate::bytes::le_undoes_bytes(v, 0, 0);
    } else {
        assert forall|i: int| 0 <= i < 4 implies Memory::offset(a, #[trigger] at(c, i))
            >= d.len() by {}
        write_keeps_the_rest(m, a, d, c, 4);
    }
}

/// Where the names of the abilities and those of their experience agree.
proof fn names_tell_the_cell(idx: int, i: int)
    requires
        0 <= idx < 8,
        0 <= i < 10,
    ensures
        GROWTH_EXP_NAMES@[i]@ == STAT_NAMES@[idx]@ <==> STAT_TO_EXP@[idx] == i,
{
    let t = STAT_TO_EXP@;
    assert(t[0] == 0 && t[1] == 1 && t[2] == 2 && t[3] == 3 && t[4] == 6 && t[5] == 5 && t[6] == 4
        && t[7] == -1);
    let (s, e) = (STAT_NAMES@, GROWTH_EXP_NAMES@);
    assert(s[0] == "對右打擊" && s[1] == "對左打擊" && s[2] == "力量" && s[3] == "速度" && s[4]
        == "臂力" && s[5] == "傳球" && s[6] == "接球" && s[7] == "疲勞消除");
    assert(e[0] == "對右打擊" && e[1] == "對左打擊" && e[2] == "力量" && e[3] == "速度" && e[4]
        == "接球" && e[5] == "傳球" && e[6] == "臂力" && e[7] == "球速" && e[8] == "耐力" && e[9]
        == "投手適性");
    reveal_strlit("對右打擊");
    reveal_strlit("對左打擊");
    reveal_strlit("力量");
    reveal_strlit("速度");
    reveal_strlit("臂力");
    reveal_strlit("傳球");
    reveal_strlit("接球");
    reveal_strlit("疲勞消除");
    reveal_strlit("球速");
    reveal_strlit("耐力");
    reveal_strlit("投手適性");
    assert("對右打擊"@[1] == '右' && "對左打擊"@[1] == '左' && "力量"@[0] == '力' && "速度"@[0]
        == '速' && "臂力"@[0] == '臂' && "傳球"@[0] == '傳' && "接球"@[0] == '接' && "疲勞消除"@[1]
        == '勞' && "球速"@[0] == '球' && "耐力"@[0] == '耐' && "投手適性"@[1] == '手');
    assert("對右打擊"@[0] == '對' && "對左打擊"@[0] == '對' && "疲勞消除"@[0] == '疲' && "投手適性"@[0]
        == '投');
}

/// The growth structure of a star player.
pub open spec fn growth_at(obj: u64) -> u64 {
    at(obj, GROWTH_FROM_PLAYER as int)
}

proof fn ability_cell(m: Memory, obj: u64, i: int)
    requires
        growth_of(m, obj) is Some,
        0 <= i < 10,
    ensures
        growth_of(m, obj) == Some(growth_at(obj)),
        exp_cells(m, growth_at(obj))[i] == growth_cell(m, obj, GROWTH_EXP_OFF, i),
        cell(growth_at(obj).wrapping_add(GROWTH_EXP_OFF), i) == at(
            obj,
            GROWTH_FROM_PLAYER + (0x40 + 4 * i),
        ),
{
}

/// Writing an ability of a star player writes that ability and the experience
/// of the same name, from which the game computes the ability again. No other
/// experience changes: none at all for an ability that has none.
pub proof fn stat_lasts(m: Memory, obj: u64, idx: usize, v: u8, i: int)
    requires
        trainable(m, obj),
        idx < 8,
        0 <= i < 10,
    ensures
        ({
            let n = stat_synced(m, obj, idx, v);
            let (x, y) = (exp_cells(m, growth_at(obj))[i], exp_cells(n, growth_at(obj))[i]);
            &&& object_got(m, n, obj, OFF_STATS + idx, seq![v])
            &&& if GROWTH_EXP_NAMES@[i]@ == STAT_NAMES@[idx as int]@ {
                stat_of_exp(y as int) == if v < 99 {
                    v as int
                } else {
                    99
                }
            } else {
                y == x
            }
        }),
{
    let a = at(at(obj, OFF_STATS as int), idx as int);
    assert(a == at(obj, OFF_STATS + idx));
    let n = m.poke(a, seq![v]);
    object_write_spares_growth(m, obj, OFF_STATS + idx, seq![v], 0x40 + 4 * i);
    names_tell_the_cell(idx as int, i);
    let e: int = STAT_TO_EXP@[idx as int] as int;
    let t = STAT_TO_EXP@;
    assert(t[0] == 0 && t[1] == 1 && t[2] == 2 && t[3] == 3 && t[4] == 6 && t[5] == 5 && t[6] == 4
        && t[7] == -1);
    ability_cell(m, obj, i);
    ability_cell(n, obj, i);
    if e >= 0 {
        ability_cell(n, obj, e);
        growth_write_spares_the_rest(
            n,
            obj,
            0x40 + 4 * e,
            exp_of_stat(v as int) as u32,
            0x40 + 4 * i,
        );
        ability_cell(stat_synced(m, obj, idx, v), obj, i);
        exp_comes_to_its_stat(v as int);
    }
}

/// The names of the three kinds of experience that no ability of the list of
/// eight has.
proof fn names_of_the_pitcher(i: int)
    requires
        0 <= i < 10,
    ensures
        GROWTH_EXP_NAMES@[i]@ == "球速"@ <==> i == 7,
        GROWTH_EXP_NAMES@[i]@ == "耐力"@ <==> i == 8,
        GROWTH_EXP_NAMES@[i]@ == "投手適性"@ <==> i == 9,
{
    let e = GROWTH_EXP_NAMES@;
    assert(e[0] == "對右打擊" && e[1] == "對左打擊" && e[2] == "力量" && e[3] == "速度" && e[4]
        == "接球" && e[5] == "傳球" && e[6] == "臂力" && e[7] == "球速" && e[8] == "耐力" && e[9]
        == "投手適性");
    reveal_strlit("對右打擊");
    reveal_strlit("對左打擊");
    reveal_strlit("力量");
    reveal_strlit("速度");
    reveal_strlit("臂力");
    reveal_strlit("傳球");
    reveal_strlit("接球");
    reveal_strlit("球速");
    reveal_strlit("耐力");
    reveal_strlit("投手適性");
    assert("對右打擊"@[0] == '對' && "對左打擊"@[0] == '對' && "力量"@[0] == '力' && "速度"@[0]
        == '速' && "臂力"@[0] == '臂' && "傳球"@[0] == '傳' && "接球"@[0] == '接' && "球速"@[0] == '球'
        && "耐力"@[0] == '耐' && "投手適性"@[0] == '投');
}

/// Writing the pitching aptitude of a star player writes it and the experience
/// of that name, from which the game computes it again, and no other
/// experience.
pub proof fn pitching_aptitude_lasts(m: Memory, obj: u64, v: u8, i: int)
    requires
        trainable(m, obj),
        0 <= i < 10,
    ensures
        ({
            let n = def_synced(m, obj, v);
            let (x, y) = (exp_cells(m, growth_at(obj))[i], exp_cells(n, growth_at(obj))[i]);
            &&& object_got(m, n, obj, OFF_DEF as int, seq![v])
            &&& if GROWTH_EXP_NAMES@[i]@ == "投手適性"@ {
                stat_of_exp(y as int) == if v < 99 {
                    v as int
                } else {
                    99
                }
            } else {
                y == x
            }
        }),
{
    let n = m.poke(at(obj, OFF_DEF as int), seq![v]);
    object_write_spares_growth(m, obj, OFF_DEF as int, seq![v], 0x40 + 4 * i);
    names_of_the_pitcher(i);
    ability_cell(m, obj, i);
    ability_cell(n, obj, i);
    ability_cell(n, obj, 9);
    growth_write_spares_the_rest(n, obj, 0x64, exp_of_stat(v as int) as u32, 0x40 + 4 * i);
    ability_cell(def_synced(m, obj, v), obj, i);
    exp_comes_to_its_stat(v as int);
}

/// Writing a fielding aptitude of a star player writes it and the experience at
/// that position, from which the game computes it again. The experience at
/// other positions stays, and so does that of the ten abilities.
pub proof fn fielding_aptitude_lasts(m: Memory, obj: u64, f: usize, v: u8, i: int, j: int)
    requires
        trainable(m, obj),
        f < 8,
        0 <= i < 10,
        0 <= j < 8,
    ensures
        ({
            let n = field_synced(m, obj, f, v);
            &&& object_got(m, n, obj, OFF_FIELD + f, seq![v])
            &&& exp_cells(n, growth_at(obj))[i] == exp_cells(m, growth_at(obj))[i]
            &&& if j == f {
                stat_of_exp(growth_cell(n, obj, GROWTH_FIELD_OFF, j) as int) == if v < 99 {
                    v as int
                } else {
                    99
                }
            } else {
                growth_cell(n, obj, GROWTH_FIELD_OFF, j) == growth_cell(
                    m,
                    obj,
                    GROWTH_FIELD_OFF,
                    j,
                )
            }
        }),
{
    let a = at(at(obj, OFF_FIELD as int), f as int);
    assert(a == at(obj, OFF_FIELD + f));
    let n = m.poke(a, seq![v]);
    object_write_spares_growth(m, obj, OFF_FIELD + f, seq![v], 0x40 + 4 * i);
    object_write_spares_growth(m, obj, OFF_FIELD + f, seq![v], 0x68 + 4 * j);
    ability_cell(m, obj, i);
    ability_cell(n, obj, i);
    assert(cell(growth_at(obj).wrapping_add(GROWTH_FIELD_OFF), f as int) == at(
        obj,
        GROWTH_FROM_PLAYER + (0x68 + 4 * f),
    ));
    let w = exp_of_stat(v as int) as u32;
    growth_write_spares_the_rest(n, obj, 0x68 + 4 * f, w, 0x40 + 4 * i);
    growth_write_spares_the_rest(n, obj, 0x68 + 4 * f, w, 0x68 + 4 * j);
    ability_cell(field_synced(m, obj, f, v), obj, i);
    exp_comes_to_its_stat(v as int);
}

proof fn same_speed_table(m: Memory, n: Memory, g: u64, obj: u64)
    requires
        g == growth_at(obj),
        forall|l: int|
            0 <= l < 8 ==> #[trigger] speed_threshold(n, g, l) == speed_threshold(m, g, l),
        speed_table_fits(m, g),
    ensures
        speed_table_fits(n, g),
{
    assert(speed_threshold(n, g, 0) == speed_threshold(m, g, 0));
    assert(speed_threshold(n, g, 1) == speed_threshold(m, g, 1));
    assert(speed_threshold(n, g, 2) == speed_threshold(m, g, 2));
    assert(speed_threshold(n, g, 3) == speed_threshold(m, g, 3));
    assert(speed_threshold(n, g, 4) == speed_threshold(m, g, 4));
    assert(speed_threshold(n, g, 5) == speed_threshold(m, g, 5));
    assert(speed_threshold(n, g, 6) == speed_threshold(m, g, 6));
    assert(speed_threshold(n, g, 7) == speed_threshold(m, g, 7));
}

/// Neither the object nor the cells of the two experiences reach the thresholds
/// for the ball speed.
proof fn speed_table_is_spared(m: Memory, obj: u64, data: Seq<u8>, w: u32, u: u32)
    requires
        trainable(m, obj),
        data.len() == 2,
    ensures
        ({
            let g = growth_at(obj);
            let n = m.poke(at(obj, OFF_PACK as int), data);
            let n2 = n.poke(at(obj, GROWTH_FROM_PLAYER + 0x60), bytes32(w));
            let n3 = n2.poke(at(obj, GROWTH_FROM_PLAYER + 0x5C), bytes32(u));
            forall|l: int|
                0 <= l < 8 ==> #[trigger] speed_threshold(n3, g, l) == speed_threshold(m, g, l)
                    && speed_threshold(n2, g, l) == speed_threshold(m, g, l)
        }),
{
    let g = growth_at(obj);
    let n = m.poke(at(obj, OFF_PACK as int), data);
    let n2 = n.poke(at(obj, GROWTH_FROM_PLAYER + 0x60), bytes32(w));
    let n3 = n2.poke(at(obj, GROWTH_FROM_PLAYER + 0x5C), bytes32(u));
    assert forall|l: int| 0 <= l < 8 implies #[trigger] speed_threshold(n3, g, l)
        == speed_threshold(m, g, l) && speed_threshold(n2, g, l) == speed_threshold(m, g, l) by {
        assert(cell(g.wrapping_add(crate::growth::SPEED_THRESH_OFF), l) == at(
            obj,
            GROWTH_FROM_PLAYER + (0x158 + 4 * l),
        ));
        object_write_spares_growth(m, obj, OFF_PACK as int, data, 0x158 + 4 * l);
        growth_write_spares_the_rest(n, obj, 0x60, w, 0x158 + 4 * l);
        growth_write_spares_the_rest(n2, obj, 0x5C, u, 0x158 + 4 * l);
    }
}

proof fn stored_speed_comes_back(m: Memory, n2: Memory, n3: Memory, obj: u64, speed: u16)
    requires
        speed_table_fits(m, growth_at(obj)),
        forall|l: int|
            0 <= l < 8 ==> #[trigger] speed_threshold(n3, growth_at(obj), l) == speed_threshold(
                m,
                growth_at(obj),
                l,
            ) && speed_threshold(n2, growth_at(obj), l) == speed_threshold(m, growth_at(obj), l),
    ensures
        ({
            let g = growth_at(obj);
            speed_of_exp(n3, g, exp_of_speed(n2, g, speed as i32)) == if speed < 80 {
                80
            } else {
                speed as int
            }
        }),
{
    let g = growth_at(obj);
    same_speed_table(m, n3, g, obj);
    let l = crate::growth::speed_level(if speed < 80 { 80 } else { speed as int });
    assert(speed_threshold(n3, g, l) == speed_threshold(n2, g, l));
    assert(exp_of_speed(n3, g, speed as i32) == exp_of_speed(n2, g, speed as i32));
    exp_comes_to_its_speed(n3, g, speed as i32);
}

/// Writing speed and stamina of a star player writes both and the experience of
/// the two names, from which the game computes them again, and no other
/// experience.
#[verifier::spinoff_prover]
#[verifier::rlimit(60)]
pub proof fn speed_and_stamina_last(
    m: Memory,
    obj: u64,
    speed: u16,
    stam: u16,
    hi: u16,
    i: int,
)
    requires
        trainable(m, obj),
        0 <= i < 10,
        speed_table_fits(m, growth_at(obj)),
    ensures
        ({
            let n = pack_synced(m, obj, speed, stam, hi);
            let (x, y) = (exp_cells(m, growth_at(obj))[i], exp_cells(n, growth_at(obj))[i]);
            &&& object_got(
                m,
                n,
                obj,
                OFF_PACK as int,
                crate::bytes::bytes16(crate::edit::pack_word(speed, stam, hi)),
            )
            &&& if GROWTH_EXP_NAMES@[i]@ == "球速"@ {
                speed_of_exp(n, growth_at(obj), y) == if speed < 80 {
                    80
                } else {
                    speed as int
                }
            } else if GROWTH_EXP_NAMES@[i]@ == "耐力"@ {
                stat_of_exp(y as int) == if stam < 99 {
                    stam as int
                } else {
                    99
                }
            } else {
                y == x
            }
        }),
{
    let g = growth_at(obj);
    let data = crate::bytes::bytes16(crate::edit::pack_word(speed, stam, hi));
    let n = m.poke(at(obj, OFF_PACK as int), data);
    object_write_spares_growth(m, obj, OFF_PACK as int, data, 0x40 + 4 * i);
    names_of_the_pitcher(i);
    ability_cell(m, obj, i);
    ability_cell(n, obj, i);
    ability_cell(n, obj, 8);
    let w = exp_of_stat(stam as int) as u32;
    let n2 = n.poke(at(obj, GROWTH_FROM_PLAYER + 0x60), bytes32(w));
    growth_write_spares_the_rest(n, obj, 0x60, w, 0x40 + 4 * i);
    ability_cell(n2, obj, 7);
    ability_cell(n2, obj, i);
    let e = exp_of_speed(n2, g, speed as i32);
    let u = crate::bytes::pattern(e);
    growth_write_spares_the_rest(n2, obj, 0x5C, u, 0x40 + 4 * i);
    let n3 = n2.poke(at(obj, GROWTH_FROM_PLAYER + 0x5C), bytes32(u));
    assert(pack_synced(m, obj, speed, stam, hi) == n3);
    ability_cell(n3, obj, i);
    assert(signed(u) == e);
    speed_table_is_spared(m, obj, data, w, u);
    stored_speed_comes_back(m, n2, n3, obj, speed);
    exp_comes_to_its_stat(stam as int);
}

/// The three numbers behind a pitch: power, control and movement.
pub open spec fn pitch_cell(m: Memory, obj: u64, slot: int, j: int) -> i32 {
    growth_cell(m, obj, 0x88, 3 * slot + j)
}

/// The experience is enough for a grade, G being 0 and S being 7, and not enough
/// for the next one.
pub open spec fn is_grade(exp: int, g: int) -> bool {
    let t = crate::growth::GROWTH_THRESHOLDS@;
    t[7 - g] <= exp && (g < 7 ==> exp < t[6 - g])
}

proof fn grade_has_its_experience(g: u8)
    ensures
        is_grade(
            exp_of_grade(g) as int,
            if g < 7 {
                g as int
            } else {
                7
            },
        ),
        0 <= exp_of_grade(g) <= 51000,
{
    let t = crate::growth::GROWTH_THRESHOLDS@;
    assert(t[0] == 51000 && t[1] == 30000 && t[2] == 16000 && t[3] == 8000 && t[4] == 4000 && t[5]
        == 2000 && t[6] == 400 && t[7] == 0);
}

proof fn pitch_experience(n: Memory, obj: u64, slot: usize, b: Ball, q: int)
    requires
        trainable(n, obj),
        slot < 12,
        0 <= q < 54,
    ensures
        ({
            let t = with_ball_exp(n, growth_at(obj), slot, b);
            let k = GROWTH_FROM_PLAYER + (0x40 + 4 * q);
            let w = 18 + 3 * slot;
            &&& object(t, obj) == object(n, obj)
            &&& trainable(t, obj)
            &&& t.u32_at(at(obj, k)) == if q == w {
                exp_of_grade(b.power) as u32
            } else if q == w + 1 {
                exp_of_grade(b.control) as u32
            } else if q == w + 2 && slot % 6 != 5 {
                exp_of_grade(b.move_) as u32
            } else {
                n.u32_at(at(obj, k))
            }
        }),
{
    let g = growth_at(obj);
    let w = 0x40 + 4 * (18 + 3 * slot);
    let k = 0x40 + 4 * q;
    let a = ball_cells(g, slot as int);
    assert(cell(a, 0) == at(obj, GROWTH_FROM_PLAYER + w));
    assert(cell(a, 1) == at(obj, GROWTH_FROM_PLAYER + (w + 4)));
    assert(cell(a, 2) == at(obj, GROWTH_FROM_PLAYER + (w + 8)));
    let v0 = exp_of_grade(b.power) as u32;
    let v1 = exp_of_grade(b.control) as u32;
    let v2 = exp_of_grade(b.move_) as u32;
    let n1 = n.poke(cell(a, 0), bytes32(v0));
    let n2 = n1.poke(cell(a, 1), bytes32(v1));
    growth_write_spares_the_rest(n, obj, w, v0, k);
    growth_write_spares_the_rest(n1, obj, w + 4, v1, k);
    growth_write_spares_the_rest(n2, obj, w + 8, v2, k);
}

/// Writing a pitch of a star player writes it and the experience behind it, so
/// that power, control and movement keep the grades that were written. A
/// straight ball has no experience of movement, an empty slot gets none at all,
/// and the experience of other pitches and of the abilities stays.
pub proof fn pitch_lasts(m: Memory, obj: u64, slot: usize, b: Ball, s: int, j: int, i: int)
    requires
        trainable(m, obj),
        slot < 12,
        0 <= s < 12,
        0 <= j < 3,
        0 <= i < 10,
    ensures
        ({
            let n = ball_synced(m, obj, slot, b);
            let (x, y) = (pitch_cell(m, obj, s, j), pitch_cell(n, obj, s, j));
            let grade = if j == 0 {
                b.power
            } else if j == 1 {
                b.control
            } else {
                b.move_
            };
            &&& object_got(m, n, obj, OFF_BALL + slot * 3, crate::edit::ball_bytes(b))
            &&& exp_cells(n, growth_at(obj))[i] == exp_cells(m, growth_at(obj))[i]
            &&& if b.id != BALL_EMPTY && s == slot && !(j == 2 && slot % 6 == 5) {
                is_grade(
                    y as int,
                    if grade < 7 {
                        grade as int
                    } else {
                        7
                    },
                )
            } else {
                y == x
            }
        }),
{
    let data = crate::edit::ball_bytes(b);
    assert(crate::edit::ball_addr(obj, slot as int) == at(obj, OFF_BALL + slot * 3));
    let n = m.poke(at(obj, OFF_BALL + slot * 3), data);
    let q = 18 + 3 * s + j;
    assert(GROWTH_FROM_PLAYER + 0x88 + 4 * (3 * s + j) == GROWTH_FROM_PLAYER + (0x40 + 4 * q));
    object_write_spares_growth(m, obj, OFF_BALL + slot * 3, data, 0x40 + 4 * q);
    object_write_spares_growth(m, obj, OFF_BALL + slot * 3, data, 0x40 + 4 * i);
    ability_cell(m, obj, i);
    ability_cell(n, obj, i);
    if b.id != BALL_EMPTY {
        grade_has_its_experience(b.power);
        grade_has_its_experience(b.control);
        grade_has_its_experience(b.move_);
        pitch_experience(n, obj, slot, b, q);
        pitch_experience(n, obj, slot, b, i);
        ability_cell(ball_synced(m, obj, slot, b), obj, i);
    }
}

} // verus!

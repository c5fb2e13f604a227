//! How experience and abilities belong together, and what the edits of a
//! growth structure leave alone.

use vstd::prelude::*;

use crate::bytes::{bytes32, le_undoes_bytes, signed};
use crate::growth::{
    can_rise, cell, cells_accept, exp_of_grade, exp_of_speed, exp_of_stat, found_fast, found_hot, found_in,
    is_growth, leads_to, level_of_exp, put_cells, regions_of_turn, risen, risen_count, rising,
    speed_level, speed_of_exp, speed_threshold, stat_of_exp, structs_in, tables_in, target_cells,
    threshold_bytes, threshold_pattern, wrapped, EXP_IDX_SPEED, GROWTH_EXP_OFF, GROWTH_EXTRA_LO, GROWTH_FIELD_OFF,
    GROWTH_EXTRA_MAX, GROWTH_EXTRA_N, GROWTH_HOT_ZONES, GROWTH_THRESH_OFF, GROWTH_THRESH_OFF2,
    SPEED_BASE, SPEED_DENOM,
};
use crate::pattern_laws::{every_fit_is_found, more_regions_find_more};
use crate::process::{at, Memory};

verus! {

/// The experience for an ability comes to that ability.
pub proof fn exp_comes_to_its_stat(v: int)
    ensures
        stat_of_exp(exp_of_stat(v)) == if v < 0 {
            0
        } else if v > 99 {
            99
        } else {
            v
        },
{
}

/// An ability is reached just from its experience on.
pub proof fn exp_is_the_least(v: int, exp: int)
    requires
        0 <= v <= 99,
        0 <= exp,
    ensures
        stat_of_exp(exp) >= v <==> exp >= exp_of_stat(v),
{
}

/// More experience never comes to less.
pub proof fn stat_is_monotone(a: int, b: int)
    requires
        a <= b,
    ensures
        stat_of_exp(a) <= stat_of_exp(b),
        0 <= stat_of_exp(a) <= 99,
{
}

/// The thresholds of a growth structure leave room for each level, and full
/// speed fits thirty-two bits.
pub open spec fn speed_table_fits(m: Memory, base: u64) -> bool {
    let t = |l: int| speed_threshold(m, base, l) as int;
    &&& t(7) >= -1_000_000_000
    &&& t(0) <= 1_000_000_000
    &&& t(1) + (158 - 155) * 7000 <= t(0)
    &&& t(2) + (155 - 152) * 4500 <= t(1)
    &&& t(3) + (152 - 148) * 2000 <= t(2)
    &&& t(4) + (148 - 144) * 1000 <= t(3)
    &&& t(5) + (144 - 139) * 500 <= t(4)
    &&& t(6) + (139 - 134) * 300 <= t(5)
    &&& t(7) + 134 * 150 <= t(6)
}

proof fn speed_tables()
    ensures
        SPEED_BASE@ == seq![158i32, 155, 152, 148, 144, 139, 134, 0],
        SPEED_DENOM@ == seq![9000i32, 7000, 4500, 2000, 1000, 500, 300, 150],
{
    assert(SPEED_BASE@ =~= seq![158i32, 155, 152, 148, 144, 139, 134, 0]);
    assert(SPEED_DENOM@ =~= seq![9000i32, 7000, 4500, 2000, 1000, 500, 300, 150]);
}

proof fn level_is_found(m: Memory, base: u64, exp: i32, k: int, l: int)
    requires
        0 <= k <= l <= 7,
        forall|j: int| k <= j < l ==> exp < #[trigger] speed_threshold(m, base, j),
        l == 7 || exp >= speed_threshold(m, base, l),
    ensures
        level_of_exp(m, base, exp, k) == l,
    decreases l - k,
{
    if k < l {
        assert(exp < speed_threshold(m, base, k));
        level_is_found(m, base, exp, k + 1, l);
    }
}

/// The experience for a speed lies between the threshold of its level and the
/// one above.
proof fn exp_stays_in_its_level(m: Memory, base: u64, w: int)
    requires
        speed_table_fits(m, base),
        80 <= w <= 65535,
    ensures
        ({
            let l = speed_level(w);
            let t = speed_threshold(m, base, l);
            let gain = (w - SPEED_BASE@[l]) * SPEED_DENOM@[l];
            &&& 0 <= gain <= 600_000_000
            &&& forall|j: int| 0 <= j < l ==> t + gain < #[trigger] speed_threshold(m, base, j)
        }),
{
    speed_tables();
    let l = speed_level(w);
    let b: int = SPEED_BASE@[l] as int;
    let d: int = SPEED_DENOM@[l] as int;
    let (t0, t1, t2, t3) = (
        speed_threshold(m, base, 0),
        speed_threshold(m, base, 1),
        speed_threshold(m, base, 2),
        speed_threshold(m, base, 3),
    );
    let (t4, t5, t6, t7) = (
        speed_threshold(m, base, 4),
        speed_threshold(m, base, 5),
        speed_threshold(m, base, 6),
        speed_threshold(m, base, 7),
    );
    if l == 0 {
        assert((w - b) * d == (w - 158) * 9000);
    } else if l == 1 {
        assert((w - b) * d == (w - 155) * 7000);
    } else if l == 2 {
        assert((w - b) * d == (w - 152) * 4500);
    } else if l == 3 {
        assert((w - b) * d == (w - 148) * 2000);
    } else if l == 4 {
        assert((w - b) * d == (w - 144) * 1000);
    } else if l == 5 {
        assert((w - b) * d == (w - 139) * 500);
    } else if l == 6 {
        assert((w - b) * d == (w - 134) * 300);
    } else if l == 7 {
        assert((w - b) * d == (w - 0) * 150);
    }
}

/// The experience for a ball speed comes to that speed.
pub proof fn exp_comes_to_its_speed(m: Memory, base: u64, v: i32)
    requires
        speed_table_fits(m, base),
        v <= 65535,
    ensures
        speed_of_exp(m, base, exp_of_speed(m, base, v)) == if v < 80 {
            80
        } else {
            v as int
        },
{
    let w: int = if v < 80 {
        80
    } else {
        v as int
    };
    let l = speed_level(w);
    let t: int = speed_threshold(m, base, l) as int;
    let gain: int = (w - SPEED_BASE@[l]) * SPEED_DENOM@[l];
    exp_stays_in_its_level(m, base, w);
    thresholds_are_bounded(m, base, l);
    small_stays(t + gain);
    let e = (t + gain) as i32;
    assert(exp_of_speed(m, base, v) == e);
    level_is_found(m, base, e, 0, l);
    small_stays(e - t);
    speed_from_gain(w);
}

proof fn small_stays(x: int)
    requires
        -0x8000_0000 <= x <= 0x7FFF_FFFF,
    ensures
        wrapped(x) == x,
{
}

proof fn speed_from_gain(w: int)
    requires
        80 <= w,
    ensures
        ({
            let l = speed_level(w);
            let gain = (w - SPEED_BASE@[l]) * SPEED_DENOM@[l];
            &&& gain >= 0
            &&& SPEED_BASE@[l] + gain / SPEED_DENOM@[l] as int == w
        }),
{
    speed_tables();
    let l = speed_level(w);
    let b: int = SPEED_BASE@[l] as int;
    let d: int = SPEED_DENOM@[l] as int;
    assert((w - b) * d / d == w - b && (w - b) * d >= 0) by (nonlinear_arith)
        requires
            d > 0,
            w >= b,
    ;
}

proof fn thresholds_are_bounded(m: Memory, base: u64, l: int)
    requires
        speed_table_fits(m, base),
        0 <= l < 8,
    ensures
        -1_000_000_000 <= speed_threshold(m, base, l) <= 1_000_000_000,
{
}

/// Two cells of one array do not overlap.
proof fn cells_are_apart(a: u64, i: int, j: int, k: int)
    requires
        0 <= i < 1000,
        0 <= j < 1000,
        i != j,
        0 <= k < 4,
    ensures
        Memory::offset(cell(a, i), at(cell(a, j), k)) >= 4,
{
}

/// A number that was written into a cell is read back, and other cells of the
/// array stay as they were.
proof fn cell_after_poke(m: Memory, a: u64, i: int, v: u32, j: int)
    requires
        0 <= i < 1000,
        0 <= j < 1000,
        m.accepts(cell(a, i), 4),
    ensures
        m.poke(cell(a, i), bytes32(v)).u32_at(cell(a, j)) == if i == j {
            v
        } else {
            m.u32_at(cell(a, j))
        },
{
    if i == j {
        crate::process::read_after_write(m, cell(a, i), bytes32(v));
        le_undoes_bytes(v, 0, 0);
    } else {
        assert forall|k: int| 0 <= k < 4 implies Memory::offset(
            cell(a, i),
            #[trigger] at(cell(a, j), k),
        ) >= bytes32(v).len() by {
            cells_are_apart(a, i, j, k);
        }
        crate::process::write_keeps_the_rest(m, cell(a, i), bytes32(v), cell(a, j), 4);
    }
}

proof fn put_cells_access(m: Memory, a: u64, vals: Seq<u32>, k: int, b: u64, n: int)
    requires
        0 <= n <= u64::MAX,
    ensures
        put_cells(m, a, vals, k).accepts(b, n) == m.accepts(b, n),
    decreases k,
{
    if k > 0 {
        put_cells_access(m, a, vals, k - 1, b, n);
        crate::process::write_keeps_access(
            put_cells(m, a, vals, k - 1),
            cell(a, k - 1),
            bytes32(vals[k - 1]),
            b,
            n,
        );
    }
}

/// Numbers that were written into an array are read back.
pub proof fn cells_are_read_back(m: Memory, a: u64, vals: Seq<u32>, k: int, i: int)
    requires
        0 <= k <= 1000,
        0 <= i < 1000,
        cells_accept(m, a, k),
    ensures
        put_cells(m, a, vals, k).u32_at(cell(a, i)) == if i < k {
            vals[i]
        } else {
            m.u32_at(cell(a, i))
        },
    decreases k,
{
    if k > 0 {
        assert(m.accepts(cell(a, k - 1), 4));
        cells_are_read_back(m, a, vals, k - 1, i);
        put_cells_access(m, a, vals, k - 1, cell(a, k - 1), 4);
        cell_after_poke(put_cells(m, a, vals, k - 1), a, k - 1, vals[k - 1], i);
    }
}

/// A write below the tables of a growth structure leaves the structure valid.
proof fn poke_keeps_growth(m: Memory, base: u64, off: int, v: u32)
    requires
        is_growth(m, base),
        0 <= off,
        off + 4 <= GROWTH_THRESH_OFF,
    ensures
        is_growth(m.poke(at(base, off), bytes32(v)), base),
{
    let a = at(base, off);
    let t1 = base.wrapping_add(GROWTH_THRESH_OFF);
    let t2 = base.wrapping_add(GROWTH_THRESH_OFF2);
    assert forall|i: int| 0 <= i < 32 implies Memory::offset(a, #[trigger] at(t1, i)) >= bytes32(
        v,
    ).len() by {}
    assert forall|i: int| 0 <= i < 32 implies Memory::offset(a, #[trigger] at(t2, i)) >= bytes32(
        v,
    ).len() by {}
    crate::process::write_keeps_the_rest(m, a, bytes32(v), t1, 32);
    crate::process::write_keeps_the_rest(m, a, bytes32(v), t2, 32);
}

/// Writing experience leaves a growth structure a growth structure.
pub proof fn writing_experience_keeps_growth(
    m: Memory,
    base: u64,
    off: u64,
    vals: Seq<u32>,
    k: int,
)
    requires
        is_growth(m, base),
        0 <= k,
        off + 4 * k <= GROWTH_THRESH_OFF,
    ensures
        is_growth(put_cells(m, base.wrapping_add(off), vals, k), base),
    decreases k,
{
    if k > 0 {
        let a = base.wrapping_add(off);
        writing_experience_keeps_growth(m, base, off, vals, k - 1);
        assert(cell(a, k - 1) == at(base, off + 4 * (k - 1)));
        poke_keeps_growth(put_cells(m, a, vals, k - 1), base, off + 4 * (k - 1), vals[k - 1]);
    }
}

/// After a target was set, the experience of every ability but the ball speed
/// comes to the target.
pub proof fn target_is_reached(m: Memory, base: u64, target: i32, i: int)
    requires
        cells_accept(m, base.wrapping_add(GROWTH_EXP_OFF), 10),
        0 <= i < 10,
        i != EXP_IDX_SPEED,
        0 <= target <= 99,
    ensures
        ({
            let a = base.wrapping_add(GROWTH_EXP_OFF);
            let n = put_cells(m, a, target_cells(target), 10);
            stat_of_exp(signed(n.u32_at(cell(a, i))) as int) == target
        }),
{
    let a = base.wrapping_add(GROWTH_EXP_OFF);
    cells_are_read_back(m, a, target_cells(target), 10, i);
    exp_comes_to_its_stat(target as int);
}

proof fn risen_access(m: Memory, base: u64, k: int, b: u64, n: int)
    requires
        0 <= n <= u64::MAX,
    ensures
        risen(m, base, k).accepts(b, n) == m.accepts(b, n),
    decreases k,
{
    if k > 0 {
        risen_access(m, base, k - 1, b, n);
        crate::process::write_keeps_access(
            risen(m, base, k - 1),
            cell(base.wrapping_add(GROWTH_EXTRA_LO), k - 1),
            bytes32(GROWTH_EXTRA_MAX as u32),
            b,
            n,
        );
    }
}

/// Raising pitches sets just those cells to the highest that hold experience
/// below it. A cell of zero stays zero, and nothing goes above the highest.
pub proof fn raising_keeps_missing_pitches(m: Memory, base: u64, k: int, i: int)
    requires
        0 <= k <= GROWTH_EXTRA_N,
        0 <= i < GROWTH_EXTRA_N,
        cells_accept(m, base.wrapping_add(GROWTH_EXTRA_LO), GROWTH_EXTRA_N as int),
    ensures
        ({
            let c = cell(base.wrapping_add(GROWTH_EXTRA_LO), i);
            risen(m, base, k).u32_at(c) == if i < k && can_rise(m, c) {
                GROWTH_EXTRA_MAX as u32
            } else {
                m.u32_at(c)
            }
        }),
    decreases k,
{
    if k > 0 {
        let a = base.wrapping_add(GROWTH_EXTRA_LO);
        let n = risen(m, base, k - 1);
        raising_keeps_missing_pitches(m, base, k - 1, i);
        raising_keeps_missing_pitches(m, base, k - 1, k - 1);
        assert(m.accepts(cell(a, k - 1), 4));
        risen_access(m, base, k - 1, cell(a, k - 1), 4);
        cell_after_poke(n, a, k - 1, GROWTH_EXTRA_MAX as u32, i);
    }
}

/// Cell `i` of the pitches holds experience below the highest and can be
/// written.
pub open spec fn is_raised(m: Memory, base: u64, i: int) -> bool {
    let c = cell(base.wrapping_add(GROWTH_EXTRA_LO), i);
    can_rise(m, c) && m.accepts(c, 4)
}

/// Whether the first `k` cells were raised or not has no effect on the later
/// ones.
proof fn later_cells_stay(m: Memory, base: u64, k: int, i: int)
    requires
        0 <= k <= i < GROWTH_EXTRA_N,
    ensures
        risen(m, base, k).u32_at(cell(base.wrapping_add(GROWTH_EXTRA_LO), i)) == m.u32_at(
            cell(base.wrapping_add(GROWTH_EXTRA_LO), i),
        ),
    decreases k,
{
    if k > 0 {
        let a = base.wrapping_add(GROWTH_EXTRA_LO);
        let n = risen(m, base, k - 1);
        later_cells_stay(m, base, k - 1, i);
        if n.accepts(cell(a, k - 1), 4) {
            cell_after_poke(n, a, k - 1, GROWTH_EXTRA_MAX as u32, i);
        }
    }
}

/// The step for cell `k - 1` raises it if it is to be raised, and else does
/// nothing.
proof fn step_of_raising(m: Memory, base: u64, k: int)
    requires
        0 < k <= GROWTH_EXTRA_N,
    ensures
        ({
            let c = cell(base.wrapping_add(GROWTH_EXTRA_LO), k - 1);
            let n = risen(m, base, k - 1);
            &&& n.u32_at(c) == m.u32_at(c)
            &&& n.accepts(c, 4) == m.accepts(c, 4)
            &&& risen(m, base, k) == if is_raised(m, base, k - 1) {
                n.stored(c, bytes32(GROWTH_EXTRA_MAX as u32), false)
            } else {
                n
            }
        }),
{
    let c = cell(base.wrapping_add(GROWTH_EXTRA_LO), k - 1);
    later_cells_stay(m, base, k - 1, k - 1);
    risen_access(m, base, k - 1, c, 4);
}

proof fn raised_cell_holds(m: Memory, base: u64, k: int, i: int)
    requires
        0 <= k <= GROWTH_EXTRA_N,
        0 <= i < GROWTH_EXTRA_N,
    ensures
        ({
            let c = cell(base.wrapping_add(GROWTH_EXTRA_LO), i);
            risen(m, base, k).u32_at(c) == if i < k && is_raised(m, base, i) {
                GROWTH_EXTRA_MAX as u32
            } else {
                m.u32_at(c)
            }
        }),
    decreases k,
{
    if k > 0 {
        let a = base.wrapping_add(GROWTH_EXTRA_LO);
        let n = risen(m, base, k - 1);
        raised_cell_holds(m, base, k - 1, i);
        step_of_raising(m, base, k);
        if is_raised(m, base, k - 1) {
            cell_after_poke(n, a, k - 1, GROWTH_EXTRA_MAX as u32, i);
        }
    }
}

proof fn other_bytes_stay(m: Memory, base: u64, k: int, x: u64)
    requires
        0 <= k <= GROWTH_EXTRA_N,
        m.cells.dom().contains(x),
        forall|i: int|
            0 <= i < k && #[trigger] is_raised(m, base, i) ==> Memory::offset(
                cell(base.wrapping_add(GROWTH_EXTRA_LO), i),
                x,
            ) >= 4,
    ensures
        risen(m, base, k).cells[x] == m.cells[x],
    decreases k,
{
    if k > 0 {
        other_bytes_stay(m, base, k - 1, x);
        step_of_raising(m, base, k);
        same_addresses(m, base, k - 1);
    }
}

proof fn same_addresses(m: Memory, base: u64, k: int)
    ensures
        risen(m, base, k).cells.dom() == m.cells.dom(),
    decreases k,
{
    if k > 0 {
        same_addresses(m, base, k - 1);
        assert(risen(m, base, k).cells.dom() =~= m.cells.dom());
    }
}

proof fn raised_cells_are_counted(m: Memory, base: u64, k: int)
    requires
        0 <= k <= GROWTH_EXTRA_N,
    ensures
        risen_count(m, base, k) == Seq::new(k as nat, |i: int| i).filter(
            |i: int| is_raised(m, base, i),
        ).len(),
    decreases k,
{
    let raised = |i: int| is_raised(m, base, i);
    let all = Seq::new(k as nat, |i: int| i);
    reveal(Seq::filter);
    if k > 0 {
        raised_cells_are_counted(m, base, k - 1);
        step_of_raising(m, base, k);
        assert(all.drop_last() =~= Seq::new((k - 1) as nat, |i: int| i));
    }
}

proof fn raising_keeps_growth(m: Memory, base: u64, k: int)
    requires
        0 <= k <= GROWTH_EXTRA_N,
        is_growth(m, base),
    ensures
        is_growth(risen(m, base, k), base),
    decreases k,
{
    if k > 0 {
        let a = base.wrapping_add(GROWTH_EXTRA_LO);
        raising_keeps_growth(m, base, k - 1);
        assert(cell(a, k - 1) == at(base, GROWTH_EXTRA_LO + 4 * (k - 1)));
        poke_keeps_growth(
            risen(m, base, k - 1),
            base,
            GROWTH_EXTRA_LO + 4 * (k - 1),
            GROWTH_EXTRA_MAX as u32,
        );
    }
}

/// Raising the pitches brings each cell that holds experience below the highest
/// to the highest. Every other cell stays, and so does every byte outside the
/// cells that were raised.
pub proof fn raising_touches_those_cells_alone(m: Memory, base: u64, i: int, x: u64)
    requires
        0 <= i < GROWTH_EXTRA_N,
    ensures
        ({
            let a = base.wrapping_add(GROWTH_EXTRA_LO);
            let n = risen(m, base, GROWTH_EXTRA_N as int);
            &&& n.u32_at(cell(a, i)) == if is_raised(m, base, i) {
                GROWTH_EXTRA_MAX as u32
            } else {
                m.u32_at(cell(a, i))
            }
            &&& n.cells.dom() == m.cells.dom()
            &&& m.cells.dom().contains(x) && (forall|j: int|
                0 <= j < GROWTH_EXTRA_N && #[trigger] is_raised(m, base, j) ==> Memory::offset(
                    cell(a, j),
                    x,
                ) >= 4) ==> n.cells[x] == m.cells[x]
        }),
{
    let a = base.wrapping_add(GROWTH_EXTRA_LO);
    raised_cell_holds(m, base, GROWTH_EXTRA_N as int, i);
    same_addresses(m, base, GROWTH_EXTRA_N as int);
    if m.cells.dom().contains(x) && forall|j: int|
        0 <= j < GROWTH_EXTRA_N && #[trigger] is_raised(m, base, j) ==> Memory::offset(
            cell(a, j),
            x,
        ) >= 4 {
        other_bytes_stay(m, base, GROWTH_EXTRA_N as int, x);
    }
}

/// The number that raising the pitches gives is that of the cells that it
/// raises.
pub proof fn raising_counts_what_it_raises(m: Memory, base: u64)
    ensures
        risen_count(m, base, GROWTH_EXTRA_N as int) == Seq::new(
            GROWTH_EXTRA_N as nat,
            |i: int| i,
        ).filter(|i: int| is_raised(m, base, i)).len(),
{
    raised_cells_are_counted(m, base, GROWTH_EXTRA_N as int);
}

proof fn nothing_left_to_raise(m: Memory, base: u64, k: int)
    requires
        0 <= k <= GROWTH_EXTRA_N,
        forall|i: int| 0 <= i < GROWTH_EXTRA_N ==> !#[trigger] is_raised(m, base, i),
    ensures
        risen(m, base, k) == m,
        risen_count(m, base, k) == 0,
    decreases k,
{
    if k > 0 {
        nothing_left_to_raise(m, base, k - 1);
        assert(!is_raised(m, base, k - 1));
    }
}

/// Raising the pitches a second time changes nothing and counts none. The
/// growth structure stays one.
pub proof fn second_raising_of_pitches_does_nothing(m: Memory, base: u64)
    requires
        is_growth(m, base),
    ensures
        ({
            let n = risen(m, base, GROWTH_EXTRA_N as int);
            &&& is_growth(n, base)
            &&& risen(n, base, GROWTH_EXTRA_N as int) == n
            &&& risen_count(n, base, GROWTH_EXTRA_N as int) == 0
        }),
{
    let n = risen(m, base, GROWTH_EXTRA_N as int);
    raising_keeps_growth(m, base, GROWTH_EXTRA_N as int);
    assert forall|i: int| 0 <= i < GROWTH_EXTRA_N implies !#[trigger] is_raised(n, base, i) by {
        raised_cell_holds(m, base, GROWTH_EXTRA_N as int, i);
        risen_access(
            m,
            base,
            GROWTH_EXTRA_N as int,
            cell(base.wrapping_add(GROWTH_EXTRA_LO), i),
            4,
        );
    }
    nothing_left_to_raise(n, base, GROWTH_EXTRA_N as int);
}

/// What is found in fewer regions is found in all.
proof fn found_in_more(m: Memory, part: Seq<(u64, u64)>, all: Seq<(u64, u64)>, base: u64)
    requires
        forall|i: int| 0 <= i < part.len() ==> all.contains(#[trigger] part[i]),
        found_in(m, part, base),
    ensures
        found_in(m, all, base),
{
    let t = tables_in(m, part);
    let i = choose|i: int| 0 <= i < t.len() && leads_to(m, #[trigger] t[i], base);
    assert(t.contains(t[i]));
    more_regions_find_more(m, part, all, 32, threshold_pattern(), t[i]);
    let u = tables_in(m, all);
    let j = choose|j: int| 0 <= j < u.len() && u[j] == t[i];
    assert(leads_to(m, u[j], base));
}

/// The fast search finds nothing but what the full search finds, each once, in
/// the order of their addresses, and it finds nothing only where the full search
/// does.
pub proof fn fast_search_agrees_with_the_full_one(
    m: Memory,
    all: Seq<(u64, u64)>,
    fast: Seq<u64>,
    full: Seq<u64>,
)
    requires
        found_fast(m, all, fast),
        structs_in(m, all, full),
    ensures
        forall|base: u64| #[trigger] fast.contains(base) ==> full.contains(base),
        fast.len() == 0 <==> full.len() == 0,
        rising(fast),
        forall|i: int| 0 <= i < fast.len() ==> is_growth(m, #[trigger] fast[i]),
{
    let z = GROWTH_HOT_ZONES@;
    let turn: int = if found_hot(m, all, 0) {
        0
    } else if found_hot(m, all, 1) {
        1
    } else {
        2
    };
    let part = regions_of_turn(all, turn);
    assert forall|i: int| 0 <= i < part.len() implies all.contains(#[trigger] part[i]) by {
        if turn < 2 {
            let (lo, hi) = z[turn];
            assert(part.contains(part[i]));
            all.lemma_filter_contains_rev(
                |r: (u64, u64)| r.0.wrapping_add(r.1) > lo && r.0 < hi,
                part[i],
            );
        }
    }
    assert forall|base: u64| #[trigger] fast.contains(base) implies full.contains(base) by {
        found_in_more(m, part, all, base);
    }
    if turn < 2 {
        let base = choose|base: u64| found_in(m, part, base);
        assert(found_in(m, part, base));
        assert(fast.contains(base));
    }
    if fast.len() > 0 {
        assert(fast.contains(fast[0]));
        assert(full.contains(fast[0]));
    }
    if full.len() > 0 && turn == 2 {
        assert(full.contains(full[0]));
        assert(fast.contains(full[0]));
    }
    assert forall|i: int| 0 <= i < fast.len() implies is_growth(m, #[trigger] fast[i]) by {
        assert(fast.contains(fast[i]));
        assert(found_in(m, part, fast[i]));
    }
}

/// A search finds every growth structure whose first table lies in a region
/// that can be read.
pub proof fn every_structure_is_found(
    m: Memory,
    ranges: Seq<(u64, u64)>,
    found: Seq<u64>,
    base: u64,
    r: int,
    from: int,
)
    requires
        structs_in(m, ranges, found),
        is_growth(m, base),
        base + GROWTH_THRESH_OFF <= u64::MAX,
        0 <= r < ranges.len(),
        0 <= from,
        from + 32 <= ranges[r].1,
        at(ranges[r].0, from) == base + GROWTH_THRESH_OFF,
        m.holds(ranges[r].0, ranges[r].1 as int),
    ensures
        found.contains(base),
{
    let a = at(ranges[r].0, from);
    let pat = threshold_pattern();
    assert(m.bytes(a, 32) == threshold_bytes());
    every_fit_is_found(m, ranges, pat, r, from);
    let t = tables_in(m, ranges);
    let i = choose|i: int| 0 <= i < t.len() && t[i] == a;
    assert(leads_to(m, t[i], base));
    assert(found_in(m, ranges, base));
}

/// How much experience the next point of an ability takes.
pub open spec fn next_point(v: int) -> int {
    if v < 20 {
        20
    } else if v < 40 {
        80
    } else if v < 50 {
        200
    } else if v < 60 {
        400
    } else if v < 70 {
        800
    } else if v < 80 {
        1400
    } else if v < 90 {
        2100
    } else {
        2400
    }
}

/// An ability starts at nothing, and each point takes the same experience up to
/// the next threshold. Experience short of the next point comes to the last one
/// that was reached.
pub proof fn what_each_point_takes(v: int, d: int)
    requires
        0 <= v < 99,
        0 <= d < next_point(v),
    ensures
        exp_of_stat(0) == 0,
        exp_of_stat(v + 1) - exp_of_stat(v) == next_point(v),
        stat_of_exp(exp_of_stat(v) + d) == v,
{
}

/// Experience beyond the last point comes to 99, and less than none to 0.
pub proof fn ability_has_its_bounds(exp: int)
    ensures
        exp >= 72600 ==> stat_of_exp(exp) == 99,
        exp <= 0 ==> stat_of_exp(exp) == 0,
        exp_of_stat(99) == 72600,
{
}

/// A grade of a pitch takes what the ability takes at which that grade starts.
pub proof fn what_each_grade_takes(g: u8)
    ensures
        g == 0 ==> exp_of_grade(g) == exp_of_stat(0),
        g == 1 ==> exp_of_grade(g) == exp_of_stat(20),
        g == 2 ==> exp_of_grade(g) == exp_of_stat(40),
        g == 3 ==> exp_of_grade(g) == exp_of_stat(50),
        g == 4 ==> exp_of_grade(g) == exp_of_stat(60),
        g == 5 ==> exp_of_grade(g) == exp_of_stat(70),
        g == 6 ==> exp_of_grade(g) == exp_of_stat(80),
        g >= 7 ==> exp_of_grade(g) == exp_of_stat(90) && exp_of_grade(g)
            == GROWTH_EXTRA_MAX,
{
}

/// How much experience the next km/h of ball speed takes.
pub open spec fn next_speed(v: int) -> int {
    if v < 134 {
        150
    } else if v < 139 {
        300
    } else if v < 144 {
        500
    } else if v < 148 {
        1000
    } else if v < 152 {
        2000
    } else if v < 155 {
        4500
    } else if v < 158 {
        7000
    } else {
        9000
    }
}

/// Each level of ball speed starts at its threshold, and within a level each
/// km/h takes the same experience. A speed below 80 takes what 80 takes.
pub proof fn what_each_speed_takes(m: Memory, base: u64, v: i32)
    requires
        speed_table_fits(m, base),
        80 <= v < 65535,
    ensures
        v == 158 ==> exp_of_speed(m, base, v) == speed_threshold(m, base, 0),
        v == 155 ==> exp_of_speed(m, base, v) == speed_threshold(m, base, 1),
        v == 152 ==> exp_of_speed(m, base, v) == speed_threshold(m, base, 2),
        v == 148 ==> exp_of_speed(m, base, v) == speed_threshold(m, base, 3),
        v == 144 ==> exp_of_speed(m, base, v) == speed_threshold(m, base, 4),
        v == 139 ==> exp_of_speed(m, base, v) == speed_threshold(m, base, 5),
        v == 134 ==> exp_of_speed(m, base, v) == speed_threshold(m, base, 6),
        v == 80 ==> exp_of_speed(m, base, v) == speed_threshold(m, base, 7) + 12000,
        next_speed(v as int) == next_speed(v + 1) ==> exp_of_speed(m, base, (v + 1) as i32)
            - exp_of_speed(m, base, v) == next_speed(v as int),
        exp_of_speed(m, base, v) + next_speed(v as int) <= exp_of_speed(m, base, (v + 1) as i32),
        forall|w: i32| w < 80 ==> #[trigger] exp_of_speed(m, base, w) == exp_of_speed(m, base, 80),
{
    plain_exp_of_speed(m, base, v);
    plain_exp_of_speed(m, base, (v + 1) as i32);
    gain_in_level(v as int);
    gain_in_level(v + 1);
    thresholds_by_level(m, base);
}

/// What a speed gains within its level, level by level.
proof fn gain_in_level(v: int)
    requires
        80 <= v,
    ensures
        ({
            let l = speed_level(v);
            let g = (v - SPEED_BASE@[l]) * SPEED_DENOM@[l];
            &&& 158 <= v ==> l == 0 && g == (v - 158) * 9000 && SPEED_BASE@[l] == 158 && SPEED_DENOM@[l] == 9000
            &&& 155 <= v < 158 ==> l == 1 && g == (v - 155) * 7000 && SPEED_BASE@[l] == 155 && SPEED_DENOM@[l] == 7000
            &&& 152 <= v < 155 ==> l == 2 && g == (v - 152) * 4500 && SPEED_BASE@[l] == 152 && SPEED_DENOM@[l] == 4500
            &&& 148 <= v < 152 ==> l == 3 && g == (v - 148) * 2000 && SPEED_BASE@[l] == 148 && SPEED_DENOM@[l] == 2000
            &&& 144 <= v < 148 ==> l == 4 && g == (v - 144) * 1000 && SPEED_BASE@[l] == 144 && SPEED_DENOM@[l] == 1000
            &&& 139 <= v < 144 ==> l == 5 && g == (v - 139) * 500 && SPEED_BASE@[l] == 139 && SPEED_DENOM@[l] == 500
            &&& 134 <= v < 139 ==> l == 6 && g == (v - 134) * 300 && SPEED_BASE@[l] == 134 && SPEED_DENOM@[l] == 300
            &&& v < 134 ==> l == 7 && g == (v - 0) * 150 && SPEED_BASE@[l] == 0 && SPEED_DENOM@[l] == 150
        }),
{
    speed_tables();
    assert(SPEED_BASE@[0] == 158 && SPEED_DENOM@[0] == 9000);
    assert(SPEED_BASE@[1] == 155 && SPEED_DENOM@[1] == 7000);
    assert(SPEED_BASE@[2] == 152 && SPEED_DENOM@[2] == 4500);
    assert(SPEED_BASE@[3] == 148 && SPEED_DENOM@[3] == 2000);
    assert(SPEED_BASE@[4] == 144 && SPEED_DENOM@[4] == 1000);
    assert(SPEED_BASE@[5] == 139 && SPEED_DENOM@[5] == 500);
    assert(SPEED_BASE@[6] == 134 && SPEED_DENOM@[6] == 300);
    assert(SPEED_BASE@[7] == 0 && SPEED_DENOM@[7] == 150);
}

proof fn plain_exp_of_speed(m: Memory, base: u64, v: i32)
    requires
        speed_table_fits(m, base),
        80 <= v <= 65535,
    ensures
        ({
            let l = speed_level(v as int);
            exp_of_speed(m, base, v) == speed_threshold(m, base, l) + (v - SPEED_BASE@[l])
                * SPEED_DENOM@[l]
        }),
        SPEED_BASE@ == seq![158i32, 155, 152, 148, 144, 139, 134, 0],
        SPEED_DENOM@ == seq![9000i32, 7000, 4500, 2000, 1000, 500, 300, 150],
        -1_000_000_000 <= exp_of_speed(m, base, v) <= 1_700_000_000,
{
    speed_tables();
    let l = speed_level(v as int);
    thresholds_are_bounded(m, base, l);
    exp_stays_in_its_level(m, base, v as int);
    small_stays(speed_threshold(m, base, l) + (v - SPEED_BASE@[l]) * SPEED_DENOM@[l]);
}

/// Experience short of the next km/h comes to the last one that was reached.
pub proof fn speed_is_kept_up_to_the_next(m: Memory, base: u64, v: i32, d: int)
    requires
        speed_table_fits(m, base),
        80 <= v < 65535,
        0 <= d < next_speed(v as int),
    ensures
        speed_of_exp(m, base, (exp_of_speed(m, base, v) + d) as i32) == v,
{
    plain_exp_of_speed(m, base, v);
    let l = speed_level(v as int);
    let t = speed_threshold(m, base, l) as int;
    let e = (exp_of_speed(m, base, v) + d) as i32;
    gain_in_level(v as int);
    thresholds_are_bounded(m, base, l);
    assert forall|j: int| 0 <= j < l implies e < #[trigger] speed_threshold(m, base, j) by {
        what_each_speed_takes(m, base, v);
        thresholds_fall(m, base, v as int, j);
    }
    level_is_found(m, base, e, 0, l);
    small_stays(e - t);
    kept_speed(v as int, d);
}

proof fn thresholds_fall(m: Memory, base: u64, v: int, j: int)
    requires
        speed_table_fits(m, base),
        80 <= v,
        0 <= j < speed_level(v),
    ensures
        ({
            let l = speed_level(v);
            speed_threshold(m, base, l) + (v - SPEED_BASE@[l]) * SPEED_DENOM@[l] + next_speed(v)
                <= speed_threshold(m, base, j)
        }),
{
    gain_in_level(v);
    thresholds_by_level(m, base);
}

proof fn thresholds_by_level(m: Memory, base: u64)
    requires
        speed_table_fits(m, base),
    ensures
        speed_threshold(m, base, 1) + 3 * 7000 <= speed_threshold(m, base, 0),
        speed_threshold(m, base, 2) + 3 * 4500 <= speed_threshold(m, base, 1),
        speed_threshold(m, base, 3) + 4 * 2000 <= speed_threshold(m, base, 2),
        speed_threshold(m, base, 4) + 4 * 1000 <= speed_threshold(m, base, 3),
        speed_threshold(m, base, 5) + 5 * 500 <= speed_threshold(m, base, 4),
        speed_threshold(m, base, 6) + 5 * 300 <= speed_threshold(m, base, 5),
        speed_threshold(m, base, 7) + 134 * 150 <= speed_threshold(m, base, 6),
{
    let t = |l: int| speed_threshold(m, base, l) as int;
    assert(t(0) == speed_threshold(m, base, 0));
    assert(t(1) == speed_threshold(m, base, 1));
    assert(t(2) == speed_threshold(m, base, 2));
    assert(t(3) == speed_threshold(m, base, 3));
    assert(t(4) == speed_threshold(m, base, 4));
    assert(t(5) == speed_threshold(m, base, 5));
    assert(t(6) == speed_threshold(m, base, 6));
    assert(t(7) == speed_threshold(m, base, 7));
}

proof fn kept_speed(v: int, d: int)
    requires
        80 <= v,
        0 <= d < next_speed(v),
    ensures
        ({
            let l = speed_level(v);
            SPEED_BASE@[l] + crate::overall::toward_zero(
                (v - SPEED_BASE@[l]) * SPEED_DENOM@[l] + d,
                SPEED_DENOM@[l] as int,
            ) == v
        }),
{
    gain_in_level(v);
}

/// A target sets the ball speed to the highest experience and every fielding
/// position to what the target takes.
pub proof fn target_covers_the_field(m: Memory, base: u64, target: i32, i: int)
    requires
        is_growth(m, base),
        cells_accept(m, base.wrapping_add(GROWTH_EXP_OFF), 10),
        cells_accept(m, base.wrapping_add(GROWTH_FIELD_OFF), 8),
        0 <= i < 8,
        0 <= target <= 99,
    ensures
        ({
            let n = crate::training::with_target(m, base, target);
            stat_of_exp(
                signed(n.u32_at(cell(base.wrapping_add(GROWTH_FIELD_OFF), i))) as int,
            ) == target
        }),
{
    let a = base.wrapping_add(GROWTH_EXP_OFF);
    let f = base.wrapping_add(GROWTH_FIELD_OFF);
    let n = put_cells(m, a, target_cells(target), 10);
    assert forall|k: int| 0 <= k < 8 implies n.accepts(#[trigger] cell(f, k), 4) by {
        put_cells_access(m, a, target_cells(target), 10, cell(f, k), 4);
    }
    let vals = crate::growth::same_cells(exp_of_stat(target as int) as i32, 8);
    cells_are_read_back(n, f, vals, 8, i);
    exp_comes_to_its_stat(target as int);
}

} // verus!

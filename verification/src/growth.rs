//! Growth: the experience that the star mode turns into abilities.
//!
//! In that mode abilities are derived: the game recomputes them from the
//! experience at every turn. An ability that is to last needs its experience
//! written too.

use vstd::prelude::*;

use crate::bytes::{put32, to_pattern, to_signed};
use crate::edit::{write_ball, write_pack, write_stat};
use crate::balls::BALL_EMPTY;
use crate::offsets::{N_BALL, OFF_DEF, OFF_FIELD, OFF_PACK, OFF_STATS};
use crate::pattern::search_image;
use crate::player::Ball;
use crate::process::Proc;
use crate::search::Search;
use crate::text::{read_name, sane_name};

verus! {

/// Within a growth structure: the first table of thresholds.
pub const GROWTH_THRESH_OFF: u64 = 0x118;

/// Within a growth structure: the second table of thresholds, a copy.
pub const GROWTH_THRESH_OFF2: u64 = 0x138;

/// The experience from which each level starts, the highest level first.
pub const GROWTH_THRESHOLDS: [i32; 8] = [51000, 30000, 16000, 8000, 4000, 2000, 400, 0];

/// The ability at the start of each level.
pub const GROWTH_BASE: [i32; 8] = [90, 80, 70, 60, 50, 40, 20, 0];

/// The experience that one point takes on each level.
pub const GROWTH_DENOM: [i32; 8] = [2400, 2100, 1400, 800, 400, 200, 80, 20];

/// Within a growth structure: the experience of ten abilities.
pub const GROWTH_EXP_OFF: u64 = 0x40;

pub const GROWTH_EXP_N: usize = 10;

/// Names of the ten abilities.
pub const GROWTH_EXP_NAMES: [&'static str; 10] = [
    "對右打擊",
    "對左打擊",
    "力量",
    "速度",
    "接球",
    "傳球",
    "臂力",
    "球速",
    "耐力",
    "投手適性",
];

/// The experience for a ball speed of 175.
pub const GROWTH_EXP_MAX: i32 = 223600;

/// From a player object to its growth structure.
pub const GROWTH_FROM_PLAYER: u64 = 0xB014;

/// What full experience comes to.
pub const GROWTH_RESULT_STAT: u8 = 99;

pub const GROWTH_RESULT_SPEED: u16 = 175;

pub const GROWTH_RESULT_STAMINA: u16 = 99;

/// Within a growth structure: the experience at eight fielding positions.
pub const GROWTH_FIELD_OFF: u64 = 0x68;

pub const GROWTH_FIELD_N: usize = 8;

pub const GROWTH_FIELD_MAX: i32 = 72600;

/// Within a growth structure: the experience of pitches, first and last cell.
pub const GROWTH_EXTRA_LO: u64 = 0x88;

pub const GROWTH_EXTRA_HI: u64 = 0x114;

/// The highest experience of a pitch. More brings the game down.
pub const GROWTH_EXTRA_MAX: i32 = 51000;

/// Within a growth structure: three cells for each pitch slot.
pub const GROWTH_BALL_OFF: u64 = 0x88;

pub const GROWTH_BALL_STRIDE: u64 = 12;

/// For each ability of a player object the cell of its experience, -1 for
/// none.
pub const STAT_TO_EXP: [i8; 8] = [0, 1, 2, 3, 6, 5, 4, -1];

pub const EXP_IDX_PITCHER_DEF: usize = 9;

pub const EXP_IDX_SPEED: usize = 7;

pub const EXP_IDX_STAMINA: usize = 8;

/// Within a growth structure: the thresholds for the ball speed.
pub const SPEED_THRESH_OFF: u64 = 0x158;

pub const SPEED_BASE: [i32; 8] = [158, 155, 152, 148, 144, 139, 134, 0];

pub const SPEED_DENOM: [i32; 8] = [9000, 7000, 4500, 2000, 1000, 500, 300, 150];

pub const SPEED_MIN: i32 = 80;

/// Where player objects of the star mode mostly stand.
pub const GROWTH_HOT_ZONES: [(u64, u64); 2] = [
    (0x1_0000_0000, 0x1_3000_0000),
    (0xd000_0000, 0xf000_0000),
];

/// The ability that experience comes to.
pub open spec fn stat_of_exp(exp: int) -> int {
    let v = if exp >= 51000 {
        90 + (exp - 51000) / 2400
    } else if exp >= 30000 {
        80 + (exp - 30000) / 2100
    } else if exp >= 16000 {
        70 + (exp - 16000) / 1400
    } else if exp >= 8000 {
        60 + (exp - 8000) / 800
    } else if exp >= 4000 {
        50 + (exp - 4000) / 400
    } else if exp >= 2000 {
        40 + (exp - 2000) / 200
    } else if exp >= 400 {
        20 + (exp - 400) / 80
    } else if exp >= 0 {
        exp / 20
    } else {
        0
    };
    if v > 99 {
        99
    } else {
        v
    }
}

/// The experience from which on an ability is reached.
pub open spec fn exp_of_stat(v: int) -> int {
    if v >= 99 {
        72600
    } else if v >= 90 {
        51000 + (v - 90) * 2400
    } else if v >= 80 {
        30000 + (v - 80) * 2100
    } else if v >= 70 {
        16000 + (v - 70) * 1400
    } else if v >= 60 {
        8000 + (v - 60) * 800
    } else if v >= 50 {
        4000 + (v - 50) * 400
    } else if v >= 40 {
        2000 + (v - 40) * 200
    } else if v >= 20 {
        400 + (v - 20) * 80
    } else if v >= 0 {
        v * 20
    } else {
        0
    }
}

/// The experience from which on a grade of a pitch is reached, G being 0 and
/// S being 7.
pub open spec fn exp_of_grade(g: u8) -> i32 {
    if g >= 7 {
        51000
    } else if g == 6 {
        30000
    } else if g == 5 {
        16000
    } else if g == 4 {
        8000
    } else if g == 3 {
        4000
    } else if g == 2 {
        2000
    } else if g == 1 {
        400
    } else {
        0
    }
}

/// The bytes of the table of thresholds.
pub open spec fn threshold_bytes() -> Seq<u8> {
    Seq::new(32, |i: int| crate::bytes::bytes32(GROWTH_THRESHOLDS@[i / 4] as u32)[i % 4])
}

/// There is a growth structure at `base`: both tables of thresholds are there.
pub open spec fn is_growth(m: crate::process::Memory, base: u64) -> bool {
    &&& m.fetch(base.wrapping_add(GROWTH_THRESH_OFF), 32) == Some(threshold_bytes())
    &&& m.fetch(base.wrapping_add(GROWTH_THRESH_OFF2), 32) == Some(threshold_bytes())
}

/// The growth structure of a player object.
pub open spec fn growth_of(m: crate::process::Memory, player: u64) -> Option<u64> {
    if player + GROWTH_FROM_PLAYER > u64::MAX {
        None
    } else if is_growth(m, (player + GROWTH_FROM_PLAYER) as u64) {
        Some((player + GROWTH_FROM_PLAYER) as u64)
    } else {
        None
    }
}

/// Cell `i` of an array of thirty-two-bit numbers.
pub open spec fn cell(a: u64, i: int) -> u64 {
    crate::process::at(a, i * 4)
}

/// The first `k` cells of an array take a number.
pub open spec fn cells_accept(m: crate::process::Memory, a: u64, k: int) -> bool {
    forall|i: int| 0 <= i < k ==> m.accepts(#[trigger] cell(a, i), 4)
}

/// The memory after the first `k` of some numbers were written into an array,
/// up to the first cell that does not take its number.
pub open spec fn put_cells(
    m: crate::process::Memory,
    a: u64,
    vals: Seq<u32>,
    k: int,
) -> crate::process::Memory
    decreases k,
{
    if k <= 0 {
        m
    } else if cells_accept(m, a, k - 1) {
        put_cells(m, a, vals, k - 1).poke(
            cell(a, k - 1),
            crate::bytes::bytes32(vals[k - 1]),
        )
    } else {
        put_cells(m, a, vals, k - 1)
    }
}

/// `n` times the same number.
pub open spec fn same_cells(v: i32, n: int) -> Seq<u32> {
    Seq::new(n as nat, |i: int| crate::bytes::pattern(v))
}

/// A number as thirty-two bits hold it.
pub open spec fn wrapped(x: int) -> i32 {
    crate::bytes::signed((x % 0x1_0000_0000) as u32)
}

/// Threshold `i` for the ball speed.
pub open spec fn speed_threshold(m: crate::process::Memory, base: u64, i: int) -> i32 {
    crate::bytes::signed(m.u32_at(cell(base.wrapping_add(SPEED_THRESH_OFF), i)))
}

/// The level of a ball speed.
pub open spec fn speed_level(v: int) -> int {
    if v >= 158 {
        0
    } else if v >= 155 {
        1
    } else if v >= 152 {
        2
    } else if v >= 148 {
        3
    } else if v >= 144 {
        4
    } else if v >= 139 {
        5
    } else if v >= 134 {
        6
    } else {
        7
    }
}

/// The experience for a ball speed, which is at least 80.
pub open spec fn exp_of_speed(m: crate::process::Memory, base: u64, v: i32) -> i32 {
    let w = if v < 80 {
        80
    } else {
        v as int
    };
    let l = speed_level(w);
    wrapped(speed_threshold(m, base, l) + (w - SPEED_BASE@[l]) * SPEED_DENOM@[l])
}

/// The level that experience comes to, going by the thresholds from `l` on.
pub open spec fn level_of_exp(m: crate::process::Memory, base: u64, exp: i32, l: int) -> int
    decreases 7 - l,
{
    if l >= 7 || exp >= speed_threshold(m, base, l) {
        l
    } else {
        level_of_exp(m, base, exp, l + 1)
    }
}

/// The ball speed that experience comes to, at least 80.
pub open spec fn speed_of_exp(m: crate::process::Memory, base: u64, exp: i32) -> int {
    let l = level_of_exp(m, base, exp, 0);
    let v = SPEED_BASE@[l] + crate::overall::toward_zero(
        wrapped(exp - speed_threshold(m, base, l)) as int,
        SPEED_DENOM@[l] as int,
    );
    if v < 80 {
        80
    } else {
        v
    }
}

/// The cell of a growth structure holds experience that can be raised: the
/// pitch is there, and not at its highest grade.
pub open spec fn can_rise(m: crate::process::Memory, a: u64) -> bool {
    0 < crate::bytes::signed(m.u32_at(a)) < GROWTH_EXTRA_MAX
}

/// The memory after the first `k` cells of the pitches were raised.
pub open spec fn risen(m: crate::process::Memory, base: u64, k: int) -> crate::process::Memory
    decreases k,
{
    if k <= 0 {
        m
    } else {
        let n = risen(m, base, k - 1);
        let a = cell(base.wrapping_add(GROWTH_EXTRA_LO), k - 1);
        if can_rise(n, a) {
            n.poke(a, crate::bytes::bytes32(GROWTH_EXTRA_MAX as u32))
        } else {
            n
        }
    }
}

/// How many of the first `k` cells of the pitches are raised.
pub open spec fn risen_count(m: crate::process::Memory, base: u64, k: int) -> nat
    decreases k,
{
    if k <= 0 {
        0
    } else {
        let n = risen(m, base, k - 1);
        let a = cell(base.wrapping_add(GROWTH_EXTRA_LO), k - 1);
        risen_count(m, base, k - 1) + if can_rise(n, a) && n.accepts(a, 4) {
            1nat
        } else {
            0nat
        }
    }
}

/// Number of cells of the pitches.
pub const GROWTH_EXTRA_N: usize = 36;

fn level_for_exp(exp: i32) -> (res: usize)
    ensures
        res <= 7,
        exp >= 0 ==> exp >= GROWTH_THRESHOLDS@[res as int],
        res > 0 ==> exp < GROWTH_THRESHOLDS@[res - 1],
        exp < 0 ==> res == 7,
{
    let mut l: usize = 0;
    while l < 7 && exp < GROWTH_THRESHOLDS[l]
        invariant
            l <= 7,
            l > 0 ==> exp < GROWTH_THRESHOLDS@[l - 1],
        decreases 7 - l,
    {
        l += 1;
    }
    proof {
        growth_tables();
    }
    l
}

proof fn growth_tables()
    ensures
        GROWTH_THRESHOLDS@ == seq![51000i32, 30000, 16000, 8000, 4000, 2000, 400, 0],
        GROWTH_BASE@ == seq![90i32, 80, 70, 60, 50, 40, 20, 0],
        GROWTH_DENOM@ == seq![2400i32, 2100, 1400, 800, 400, 200, 80, 20],
        SPEED_BASE@ == seq![158i32, 155, 152, 148, 144, 139, 134, 0],
        SPEED_DENOM@ == seq![9000i32, 7000, 4500, 2000, 1000, 500, 300, 150],
{
    assert(GROWTH_THRESHOLDS@ =~= seq![51000i32, 30000, 16000, 8000, 4000, 2000, 400, 0]);
    assert(GROWTH_BASE@ =~= seq![90i32, 80, 70, 60, 50, 40, 20, 0]);
    assert(GROWTH_DENOM@ =~= seq![2400i32, 2100, 1400, 800, 400, 200, 80, 20]);
    assert(SPEED_BASE@ =~= seq![158i32, 155, 152, 148, 144, 139, 134, 0]);
    assert(SPEED_DENOM@ =~= seq![9000i32, 7000, 4500, 2000, 1000, 500, 300, 150]);
}

/// The ability that experience comes to.
pub fn stat_for_exp(exp: i32) -> (res: i32)
    ensures
        res == stat_of_exp(exp as int),
        0 <= res <= 99,
{
    if exp < 0 {
        return 0;
    }
    let l: usize = level_for_exp(exp);
    proof {
        growth_tables();
    }
    let v: i32 = GROWTH_BASE[l] + (exp - GROWTH_THRESHOLDS[l]) / GROWTH_DENOM[l];
    if v > 99 {
        99
    } else {
        v
    }
}

/// The experience from which on an ability is reached.
pub fn exp_for_stat(v: i32) -> (res: i32)
    ensures
        res == exp_of_stat(v as int),
        0 <= res <= 72600,
{
    let w: i32 = if v < 0 {
        0
    } else if v > 99 {
        99
    } else {
        v
    };
    let mut l: usize = 0;
    while l < 7 && w < GROWTH_BASE[l]
        invariant
            l <= 7,
            l > 0 ==> w < GROWTH_BASE@[l - 1],
        decreases 7 - l,
    {
        l += 1;
    }
    proof {
        growth_tables();
    }
    let d: i32 = GROWTH_DENOM[l];
    let x: i32 = w - GROWTH_BASE[l];
    assert(0 <= x <= 19);
    assert(0 <= x * d <= 19 * 2400) by (nonlinear_arith)
        requires
            0 <= x <= 19,
            0 <= d <= 2400,
    ;
    let exp: i32 = GROWTH_THRESHOLDS[l] + x * d;
    assert(exp == exp_of_stat(v as int));
    proof {
        exp_is_bounded(v as int);
    }
    exp
}

proof fn exp_is_bounded(v: int)
    ensures
        0 <= exp_of_stat(v) <= 72600,
{
}

/// The experience from which on a grade of a pitch is reached.
pub fn exp_for_ball_grade(g: u8) -> (res: i32)
    ensures
        res == exp_of_grade(g),
{
    let i: usize = if g < 7 {
        g as usize
    } else {
        7
    };
    proof {
        growth_tables();
    }
    GROWTH_THRESHOLDS[7 - i]
}

fn threshold_table() -> (res: Vec<u8>)
    ensures
        res@ == threshold_bytes(),
{
    let mut out: Vec<u8> = Vec::new();
    let mut i: usize = 0;
    while i < 8
        invariant
            i <= 8,
            out@ == threshold_bytes().take(4 * i as int),
        decreases 8 - i,
    {
        proof {
            growth_tables();
        }
        let mut w = put32(GROWTH_THRESHOLDS[i] as u32);
        out.append(&mut w);
        i += 1;
        assert(out@ =~= threshold_bytes().take(4 * i as int));
    }
    assert(out@ =~= threshold_bytes());
    out
}

fn same_bytes(a: &Vec<u8>, b: &Vec<u8>) -> (res: bool)
    ensures
        res == (a@ == b@),
{
    if a.len() != b.len() {
        return false;
    }
    let mut i: usize = 0;
    while i < a.len()
        invariant
            i <= a@.len() == b@.len(),
            forall|j: int| 0 <= j < i ==> a@[j] == b@[j],
        decreases a@.len() - i,
    {
        if a[i] != b[i] {
            return false;
        }
        i += 1;
    }
    assert(a@ =~= b@);
    true
}

/// Whether there is a growth structure at `base`. Both tables have to be
/// there: the second one alone would be taken for a structure that starts too
/// late.
pub fn growth_struct_ok(p: &Proc, base: u64) -> (res: bool)
    ensures
        res == is_growth(p@, base),
{
    let want = threshold_table();
    match p.read(base.wrapping_add(GROWTH_THRESH_OFF), 32) {
        Some(b) => {
            if !same_bytes(&b, &want) {
                return false;
            }
        },
        None => {
            return false;
        },
    }
    match p.read(base.wrapping_add(GROWTH_THRESH_OFF2), 32) {
        Some(b) => same_bytes(&b, &want),
        None => false,
    }
}

/// The growth structure of a player object.
pub fn growth_struct_for(p: &Proc, player: u64) -> (res: Option<u64>)
    ensures
        res == growth_of(p@, player),
{
    if player > u64::MAX - GROWTH_FROM_PLAYER {
        return None;
    }
    let base = player + GROWTH_FROM_PLAYER;
    if growth_struct_ok(p, base) {
        Some(base)
    } else {
        None
    }
}

/// The experience of the ten abilities.
pub open spec fn exp_cells(m: crate::process::Memory, base: u64) -> Seq<i32> {
    Seq::new(
        GROWTH_EXP_N as nat,
        |i: int| crate::bytes::signed(m.u32_at(cell(base.wrapping_add(GROWTH_EXP_OFF), i))),
    )
}

/// The experience of the ten abilities.
pub fn growth_exp(p: &Proc, base: u64) -> (res: Vec<i32>)
    ensures
        res@ == exp_cells(p@, base),
        res@ == Seq::new(
            GROWTH_EXP_N as nat,
            |i: int| crate::bytes::signed(p@.u32_at(cell(base.wrapping_add(GROWTH_EXP_OFF), i))),
        ),
{
    let ghost all = exp_cells(p@, base);
    let mut out: Vec<i32> = Vec::new();
    let mut i: usize = 0;
    while i < GROWTH_EXP_N
        invariant
            i <= GROWTH_EXP_N,
            all == exp_cells(p@, base),
            out@ == all.take(i as int),
        decreases GROWTH_EXP_N - i,
    {
        out.push(
            to_signed(p.u32_at(base.wrapping_add(GROWTH_EXP_OFF).wrapping_add(i as u64 * 4))),
        );
        i += 1;
        assert(out@ =~= all.take(i as int));
    }
    assert(out@ =~= all);
    out
}

proof fn put_cells_keeps_access(
    m: crate::process::Memory,
    a: u64,
    vals: Seq<u32>,
    k: int,
    b: u64,
    n: int,
)
    requires
        0 <= n <= u64::MAX,
    ensures
        put_cells(m, a, vals, k).accepts(b, n) == m.accepts(b, n),
    decreases k,
{
    if k > 0 {
        put_cells_keeps_access(m, a, vals, k - 1, b, n);
        crate::process::write_keeps_access(
            put_cells(m, a, vals, k - 1),
            cell(a, k - 1),
            crate::bytes::bytes32(vals[k - 1]),
            b,
            n,
        );
    }
}

/// Writes numbers into an array, up to the first cell that does not take its
/// number.
fn write_cells(p: &mut Proc, a: u64, vals: &Vec<u32>) -> (res: bool)
    requires
        vals@.len() <= 1000,
    ensures
        res == cells_accept(old(p)@, a, vals@.len() as int),
        final(p)@ == put_cells(old(p)@, a, vals@, vals@.len() as int),
{
    let ghost m = p@;
    let mut i: usize = 0;
    while i < vals.len()
        invariant
            i <= vals@.len() <= 1000,
            m == old(p)@,
            cells_accept(m, a, i as int),
            p@ == put_cells(m, a, vals@, i as int),
        decreases vals@.len() - i,
    {
        proof {
            put_cells_keeps_access(m, a, vals@, i as int, cell(a, i as int), 4);
        }
        if !p.put_u32(a.wrapping_add(i as u64 * 4), vals[i]) {
            proof {
                assert(!m.accepts(cell(a, i as int), 4));
                stuck(m, a, vals@, i as int, vals@.len() as int);
            }
            return false;
        }
        i += 1;
    }
    true
}

/// Once a cell has not taken its number, nothing more is written.
proof fn stuck(m: crate::process::Memory, a: u64, vals: Seq<u32>, i: int, k: int)
    requires
        0 <= i < k,
        !m.accepts(cell(a, i), 4),
        cells_accept(m, a, i),
    ensures
        put_cells(m, a, vals, k) == put_cells(m, a, vals, i),
        !cells_accept(m, a, k),
    decreases k,
{
    if k == i + 1 {
        put_cells_keeps_access(m, a, vals, i, cell(a, i), 4);
    } else {
        stuck(m, a, vals, i, k - 1);
    }
}

fn fill(v: i32, n: usize) -> (res: Vec<u32>)
    ensures
        res@ == same_cells(v, n as int),
{
    let w: u32 = to_pattern(v);
    let mut out: Vec<u32> = Vec::new();
    let mut i: usize = 0;
    while i < n
        invariant
            i <= n,
            w == crate::bytes::pattern(v),
            out@ == same_cells(v, i as int),
        decreases n - i,
    {
        out.push(w);
        i += 1;
        assert(out@ =~= same_cells(v, i as int));
    }
    out
}

/// Sets the experience of the ten abilities. Where there is no growth
/// structure any more, nothing is written.
pub fn set_growth_exp(p: &mut Proc, base: u64, val: i32) -> (res: bool)
    ensures
        ({
            let m = old(p)@;
            let a = base.wrapping_add(GROWTH_EXP_OFF);
            if is_growth(m, base) {
                &&& res == cells_accept(m, a, 10)
                &&& final(p)@ == put_cells(m, a, same_cells(val, 10), 10)
            } else {
                !res && final(p)@ == m
            }
        }),
{
    if !growth_struct_ok(p, base) {
        return false;
    }
    write_cells(p, base.wrapping_add(GROWTH_EXP_OFF), &fill(val, GROWTH_EXP_N))
}

/// `n` times the same byte.
pub open spec fn same_bytes_seq(v: u8, n: int) -> Seq<u8> {
    Seq::new(n as nat, |i: int| v)
}

/// Writes what full experience comes to into a player object. Where the name
/// is not sane, nothing is written.
pub fn apply_growth_result(p: &mut Proc, player: u64) -> (res: bool)
    ensures
        ({
            let m = old(p)@;
            let stats = crate::process::at(player, OFF_STATS as int);
            let pack = crate::process::at(player, OFF_PACK as int);
            let def = crate::process::at(player, OFF_DEF as int);
            let field = crate::process::at(player, OFF_FIELD as int);
            let hi = (m.u16_at(pack) / 0x4000 * 0x4000) as u16;
            if !crate::text::is_sane(crate::text::name_at(m, player)) {
                !res && final(p)@ == m
            } else {
                &&& res == (m.accepts(stats, 8) && m.accepts(pack, 2) && m.accepts(def, 1)
                    && m.accepts(field, 8))
                &&& final(p)@ == m.poke(stats, same_bytes_seq(99, 8)).poke(
                    pack,
                    crate::bytes::bytes16(crate::edit::pack_word(175, 99, hi)),
                ).poke(def, seq![99u8]).poke(field, same_bytes_seq(99, 8))
            }
        }),
{
    let name = read_name(p, player);
    if !sane_name(name.as_str()) {
        return false;
    }
    let ghost m = p@;
    let stats = player.wrapping_add(OFF_STATS as u64);
    let pack = player.wrapping_add(OFF_PACK as u64);
    let def = player.wrapping_add(OFF_DEF as u64);
    let field = player.wrapping_add(OFF_FIELD as u64);
    let hi: u16 = p.u16_at(pack) / 0x4000 * 0x4000;
    let v = GROWTH_RESULT_STAT;
    let full: [u8; 8] = [v, v, v, v, v, v, v, v];
    assert(full@ =~= same_bytes_seq(99, 8));
    let ok1 = p.write(stats, &full);
    let ghost m1 = p@;
    let ok2 = write_pack(p, player, GROWTH_RESULT_SPEED, GROWTH_RESULT_STAMINA, hi);
    let ghost m2 = p@;
    let ok3 = p.put_byte(def, v);
    let ghost m3 = p@;
    let ok4 = p.write(field, &full);
    proof {
        let w = crate::bytes::bytes16(crate::edit::pack_word(175, 99, hi));
        crate::process::write_keeps_access(m, stats, full@, pack, 2);
        crate::process::write_keeps_access(m, stats, full@, def, 1);
        crate::process::write_keeps_access(m, stats, full@, field, 8);
        crate::process::write_keeps_access(m1, pack, w, def, 1);
        crate::process::write_keeps_access(m1, pack, w, field, 8);
        crate::process::write_keeps_access(m2, def, seq![99u8], field, 8);
    }
    ok1 && ok2 && ok3 && ok4
}

/// Sets the experience at the eight fielding positions to the highest.
pub fn set_field_exp(p: &mut Proc, base: u64) -> (res: bool)
    ensures
        ({
            let m = old(p)@;
            let a = base.wrapping_add(GROWTH_FIELD_OFF);
            if is_growth(m, base) {
                &&& res == cells_accept(m, a, 8)
                &&& final(p)@ == put_cells(m, a, same_cells(GROWTH_FIELD_MAX, 8), 8)
            } else {
                !res && final(p)@ == m
            }
        }),
{
    if !growth_struct_ok(p, base) {
        return false;
    }
    write_cells(p, base.wrapping_add(GROWTH_FIELD_OFF), &fill(GROWTH_FIELD_MAX, GROWTH_FIELD_N))
}

/// Where the experience of a pitch slot stands.
pub open spec fn ball_cells(base: u64, slot: int) -> u64 {
    crate::process::at(base.wrapping_add(GROWTH_BALL_OFF), slot * GROWTH_BALL_STRIDE)
}

/// How many cells a pitch slot has: straight balls have no movement.
pub open spec fn ball_cell_count(slot: int) -> int {
    if slot % 6 == 5 {
        2
    } else {
        3
    }
}

/// Sets the experience of a pitch slot to the highest. The slot has to hold a
/// pitch.
pub fn set_ball_exp(p: &mut Proc, base: u64, slot: usize) -> (res: bool)
    ensures
        ({
            let m = old(p)@;
            let a = ball_cells(base, slot as int);
            let n = ball_cell_count(slot as int);
            if slot < N_BALL && is_growth(m, base) {
                &&& res == cells_accept(m, a, n)
                &&& final(p)@ == put_cells(m, a, same_cells(GROWTH_EXTRA_MAX, n), n)
            } else {
                !res && final(p)@ == m
            }
        }),
{
    if slot >= N_BALL || !growth_struct_ok(p, base) {
        return false;
    }
    let n: usize = if slot % 6 == 5 {
        2
    } else {
        3
    };
    let a = base.wrapping_add(GROWTH_BALL_OFF).wrapping_add(slot as u64 * GROWTH_BALL_STRIDE);
    write_cells(p, a, &fill(GROWTH_EXTRA_MAX, n))
}

/// Raises the experience of every pitch that is there to the highest, and says
/// how many cells that changed. A cell of zero belongs to no pitch, and giving
/// it experience would bring the game down.
pub fn raise_growth_extra(p: &mut Proc, base: u64) -> (res: usize)
    ensures
        ({
            let m = old(p)@;
            if is_growth(m, base) {
                &&& res == risen_count(m, base, GROWTH_EXTRA_N as int)
                &&& final(p)@ == risen(m, base, GROWTH_EXTRA_N as int)
            } else {
                res == 0 && final(p)@ == m
            }
        }),
{
    if !growth_struct_ok(p, base) {
        return 0;
    }
    let ghost m = p@;
    let a = base.wrapping_add(GROWTH_EXTRA_LO);
    let mut n: usize = 0;
    let mut i: usize = 0;
    while i < GROWTH_EXTRA_N
        invariant
            i <= GROWTH_EXTRA_N,
            a == base.wrapping_add(GROWTH_EXTRA_LO),
            p@ == risen(m, base, i as int),
            n == risen_count(m, base, i as int),
            n <= i,
        decreases GROWTH_EXTRA_N - i,
    {
        let c = a.wrapping_add(i as u64 * 4);
        let cur: i32 = to_signed(p.u32_at(c));
        if cur > 0 && cur < GROWTH_EXTRA_MAX {
            if p.put_u32(c, GROWTH_EXTRA_MAX as u32) {
                n += 1;
            }
        }
        i += 1;
    }
    n
}

fn wrap(x: i64) -> (res: i32)
    requires
        -0x1_0000_0000_0000 <= x <= 0x1_0000_0000_0000,
    ensures
        res == wrapped(x as int),
{
    let y: i64 = x + 0x1_0000_0000_0000;
    let u: u64 = y as u64 % 0x1_0000_0000;
    assert(u == x as int % 0x1_0000_0000) by {
        vstd::arithmetic::div_mod::lemma_mod_multiples_vanish(0x1_0000, x as int, 0x1_0000_0000);
    }
    to_signed(u as u32)
}

fn read_threshold(p: &Proc, base: u64, i: usize) -> (res: i32)
    requires
        i < 8,
    ensures
        res == speed_threshold(p@, base, i as int),
{
    to_signed(p.u32_at(base.wrapping_add(SPEED_THRESH_OFF).wrapping_add(i as u64 * 4)))
}

/// The experience for a ball speed. Its thresholds stand in the growth
/// structure itself.
pub fn exp_for_speed(p: &Proc, base: u64, v: i32) -> (res: i32)
    ensures
        res == exp_of_speed(p@, base, v),
{
    let w: i32 = if v < SPEED_MIN {
        SPEED_MIN
    } else {
        v
    };
    let mut l: usize = 0;
    while l < 7 && w < SPEED_BASE[l]
        invariant
            l <= 7,
            l > 0 ==> w < SPEED_BASE@[l - 1],
        decreases 7 - l,
    {
        l += 1;
    }
    proof {
        growth_tables();
    }
    assert(l == speed_level(w as int));
    let t: i64 = read_threshold(p, base, l) as i64;
    let d: i64 = SPEED_DENOM[l] as i64;
    let x: i64 = w as i64 - SPEED_BASE[l] as i64;
    assert(0 <= x * d <= 0x8000_0000 * 9000) by (nonlinear_arith)
        requires
            0 <= x <= 0x8000_0000,
            0 <= d <= 9000,
    ;
    wrap(t + x * d)
}

/// The ball speed that experience comes to.
pub fn speed_for_exp(p: &Proc, base: u64, exp: i32) -> (res: i32)
    ensures
        res == speed_of_exp(p@, base, exp),
{
    let mut l: usize = 0;
    let mut t: i32 = read_threshold(p, base, 0);
    while l < 7 && exp < t
        invariant
            l <= 7,
            t == speed_threshold(p@, base, l as int),
            level_of_exp(p@, base, exp, 0) == level_of_exp(p@, base, exp, l as int),
        decreases 7 - l,
    {
        l += 1;
        t = read_threshold(p, base, l);
    }
    proof {
        growth_tables();
    }
    let x: i32 = wrap(exp as i64 - t as i64);
    let d: i32 = SPEED_DENOM[l];
    let q: i32 = x / d;
    assert(-0x1000_0000 <= q <= 0x1000_0000) by (nonlinear_arith)
        requires
            -0x8000_0000 <= x <= 0x7FFF_FFFF,
            d >= 150,
            q == if x >= 0 {
                x as int / d as int
            } else {
                -((-x) / d as int)
            },
    ;
    let v: i32 = SPEED_BASE[l] + q;
    if v < SPEED_MIN {
        SPEED_MIN
    } else {
        v
    }
}

/// The memory after an ability and the experience behind it were written.
pub open spec fn stat_synced(
    m: crate::process::Memory,
    obj: u64,
    idx: usize,
    v: u8,
) -> crate::process::Memory {
    let a = crate::process::at(crate::process::at(obj, OFF_STATS as int), idx as int);
    let n = m.poke(a, seq![v]);
    match growth_of(n, obj) {
        Some(g) => if STAT_TO_EXP@[idx as int] >= 0 {
            n.poke(
                cell(g.wrapping_add(GROWTH_EXP_OFF), STAT_TO_EXP@[idx as int] as int),
                crate::bytes::bytes32(exp_of_stat(v as int) as u32),
            )
        } else {
            n
        },
        None => n,
    }
}

/// The memory after speed and stamina and the experience behind them were
/// written.
pub open spec fn pack_synced(
    m: crate::process::Memory,
    obj: u64,
    speed: u16,
    stam: u16,
    hi: u16,
) -> crate::process::Memory {
    let a = crate::process::at(obj, OFF_PACK as int);
    let n = m.poke(a, crate::bytes::bytes16(crate::edit::pack_word(speed, stam, hi)));
    match growth_of(n, obj) {
        Some(g) => {
            let e = g.wrapping_add(GROWTH_EXP_OFF);
            let n2 = n.poke(
                cell(e, EXP_IDX_STAMINA as int),
                crate::bytes::bytes32(exp_of_stat(stam as int) as u32),
            );
            n2.poke(
                cell(e, EXP_IDX_SPEED as int),
                crate::bytes::bytes32(crate::bytes::pattern(exp_of_speed(n2, g, speed as i32))),
            )
        },
        None => n,
    }
}

/// The memory after the pitching aptitude and the experience behind it were
/// written.
pub open spec fn def_synced(m: crate::process::Memory, obj: u64, v: u8) -> crate::process::Memory {
    let n = m.poke(crate::process::at(obj, OFF_DEF as int), seq![v]);
    match growth_of(n, obj) {
        Some(g) => n.poke(
            cell(g.wrapping_add(GROWTH_EXP_OFF), EXP_IDX_PITCHER_DEF as int),
            crate::bytes::bytes32(exp_of_stat(v as int) as u32),
        ),
        None => n,
    }
}

/// The memory after a fielding aptitude and the experience behind it were
/// written.
pub open spec fn field_synced(
    m: crate::process::Memory,
    obj: u64,
    i: usize,
    v: u8,
) -> crate::process::Memory {
    let a = crate::process::at(crate::process::at(obj, OFF_FIELD as int), i as int);
    let n = m.poke(a, seq![v]);
    match growth_of(n, obj) {
        Some(g) => n.poke(
            cell(g.wrapping_add(GROWTH_FIELD_OFF), i as int),
            crate::bytes::bytes32(exp_of_stat(v as int) as u32),
        ),
        None => n,
    }
}

/// The memory after a pitch and the experience behind it were written.
pub open spec fn ball_synced(
    m: crate::process::Memory,
    obj: u64,
    slot: usize,
    b: Ball,
) -> crate::process::Memory {
    let n = m.poke(crate::edit::ball_addr(obj, slot as int), crate::edit::ball_bytes(b));
    match growth_of(n, obj) {
        Some(g) => if b.id != BALL_EMPTY {
            with_ball_exp(n, g, slot, b)
        } else {
            n
        },
        None => n,
    }
}

/// Writes an ability and the experience behind it. Outside the star mode there
/// is no experience, and only the ability is written.
pub fn write_stat_synced(p: &mut Proc, obj: u64, idx: usize, v: u8) -> (res: bool)
    requires
        growth_of(
            old(p)@.poke(
                crate::process::at(crate::process::at(obj, OFF_STATS as int), idx as int),
                seq![v],
            ),
            obj,
        ) is Some ==> idx < 8,
    ensures
        ({
            let a = crate::process::at(crate::process::at(obj, OFF_STATS as int), idx as int);
            &&& res == old(p)@.accepts(a, 1)
            &&& final(p)@ == stat_synced(old(p)@, obj, idx, v)
        }),
{
    let ok = write_stat(p, obj, idx, v);
    if let Some(g) = growth_struct_for(p, obj) {
        let e: i8 = STAT_TO_EXP[idx];
        assert(e <= 6) by {
            stat_cells(idx as int);
        }
        if e >= 0 {
            let exp: u32 = exp_for_stat(v as i32) as u32;
            p.put_u32(g.wrapping_add(GROWTH_EXP_OFF).wrapping_add(e as u64 * 4), exp);
        }
    }
    ok
}

proof fn stat_cells(idx: int)
    requires
        0 <= idx < 8,
    ensures
        -1 <= STAT_TO_EXP@[idx] <= 6,
{
    let t = STAT_TO_EXP@;
    assert(t[0] == 0 && t[1] == 1 && t[2] == 2 && t[3] == 3 && t[4] == 6 && t[5] == 5 && t[6] == 4 && t[7]
        == -1);
}

/// Writes speed and stamina and the experience behind them.
pub fn write_pack_synced(p: &mut Proc, obj: u64, speed: u16, stam: u16, hi: u16) -> (res: bool)
    ensures
        ({
            let a = crate::process::at(obj, OFF_PACK as int);
            &&& res == old(p)@.accepts(a, 2)
            &&& final(p)@ == pack_synced(old(p)@, obj, speed, stam, hi)
        }),
{
    let ok = write_pack(p, obj, speed, stam, hi);
    if let Some(g) = growth_struct_for(p, obj) {
        let e = g.wrapping_add(GROWTH_EXP_OFF);
        let for_stam: u32 = exp_for_stat(stam as i32) as u32;
        p.put_u32(e.wrapping_add(EXP_IDX_STAMINA as u64 * 4), for_stam);
        let for_speed: u32 = to_pattern(exp_for_speed(p, g, speed as i32));
        p.put_u32(e.wrapping_add(EXP_IDX_SPEED as u64 * 4), for_speed);
    }
    ok
}

/// Writes the pitching aptitude and the experience behind it.
pub fn write_def_synced(p: &mut Proc, obj: u64, v: u8) -> (res: bool)
    ensures
        ({
            let a = crate::process::at(obj, OFF_DEF as int);
            &&& res == old(p)@.accepts(a, 1)
            &&& final(p)@ == def_synced(old(p)@, obj, v)
        }),
{
    let ok = p.put_byte(obj.wrapping_add(OFF_DEF as u64), v);
    if let Some(g) = growth_struct_for(p, obj) {
        let exp: u32 = exp_for_stat(v as i32) as u32;
        p.put_u32(
            g.wrapping_add(GROWTH_EXP_OFF).wrapping_add(EXP_IDX_PITCHER_DEF as u64 * 4),
            exp,
        );
    }
    ok
}

/// Writes a fielding aptitude and the experience behind it. There are eight.
pub fn write_field_synced(p: &mut Proc, obj: u64, i: usize, v: u8) -> (res: bool)
    ensures
        ({
            let a = crate::process::at(crate::process::at(obj, OFF_FIELD as int), i as int);
            if i >= GROWTH_FIELD_N {
                !res && final(p)@ == old(p)@
            } else {
                &&& res == old(p)@.accepts(a, 1)
                &&& final(p)@ == field_synced(old(p)@, obj, i, v)
            }
        }),
{
    if i >= GROWTH_FIELD_N {
        return false;
    }
    let ok = p.put_byte(obj.wrapping_add(OFF_FIELD as u64).wrapping_add(i as u64), v);
    if let Some(g) = growth_struct_for(p, obj) {
        let exp: u32 = exp_for_stat(v as i32) as u32;
        p.put_u32(g.wrapping_add(GROWTH_FIELD_OFF).wrapping_add(i as u64 * 4), exp);
    }
    ok
}

/// The memory after the experience of a pitch was written.
pub open spec fn with_ball_exp(
    n: crate::process::Memory,
    g: u64,
    slot: usize,
    b: Ball,
) -> crate::process::Memory {
    let a = ball_cells(g, slot as int);
    let n1 = n.poke(cell(a, 0), crate::bytes::bytes32(exp_of_grade(b.power) as u32));
    let n2 = n1.poke(cell(a, 1), crate::bytes::bytes32(exp_of_grade(b.control) as u32));
    if slot % 6 != 5 {
        n2.poke(cell(a, 2), crate::bytes::bytes32(exp_of_grade(b.move_) as u32))
    } else {
        n2
    }
}

/// Writes a pitch into a slot and the experience behind it. An empty slot gets
/// no experience, and a straight ball none for movement.
pub fn write_ball_synced(p: &mut Proc, obj: u64, slot: usize, b: &Ball) -> (res: bool)
    requires
        slot * GROWTH_BALL_STRIDE <= u64::MAX,
        b.id == BALL_EMPTY || b.power * 8 + b.move_ <= 255,
    ensures
        res == old(p)@.accepts(crate::edit::ball_addr(obj, slot as int), 3),
        final(p)@ == ball_synced(old(p)@, obj, slot, *b),
{
    let ok = write_ball(p, obj, slot, b);
    if b.id == BALL_EMPTY {
        return ok;
    }
    if let Some(g) = growth_struct_for(p, obj) {
        let a = g.wrapping_add(GROWTH_BALL_OFF).wrapping_add(slot as u64 * GROWTH_BALL_STRIDE);
        assert(cell(a, 0) == a);
        p.put_u32(a, exp_for_ball_grade(b.power) as u32);
        p.put_u32(a.wrapping_add(4), exp_for_ball_grade(b.control) as u32);
        if slot % 6 != 5 {
            p.put_u32(a.wrapping_add(8), exp_for_ball_grade(b.move_) as u32);
        }
    }
    ok
}

/// The experience of the ten abilities for a target: the ball speed gets the
/// highest, the others what the target takes.
pub open spec fn target_cells(target: i32) -> Seq<u32> {
    Seq::new(
        10,
        |i: int|
            if i == EXP_IDX_SPEED {
                GROWTH_EXP_MAX as u32
            } else {
                exp_of_stat(target as int) as u32
            },
    )
}

/// Sets the experience of the ten abilities and of the fielding positions so
/// that they come to `target`.
pub fn set_growth_target(p: &mut Proc, base: u64, target: i32) -> (res: bool)
    ensures
        ({
            let m = old(p)@;
            let a = base.wrapping_add(GROWTH_EXP_OFF);
            let f = base.wrapping_add(GROWTH_FIELD_OFF);
            let n = put_cells(m, a, target_cells(target), 10);
            if is_growth(m, base) {
                &&& res == (cells_accept(m, a, 10) && cells_accept(m, f, 8))
                &&& final(p)@ == put_cells(
                    n,
                    f,
                    same_cells(exp_of_stat(target as int) as i32, 8),
                    8,
                )
            } else {
                !res && final(p)@ == m
            }
        }),
{
    if !growth_struct_ok(p, base) {
        return false;
    }
    let ghost m = p@;
    let exp: i32 = exp_for_stat(target);
    let mut vals: Vec<u32> = Vec::new();
    let mut i: usize = 0;
    while i < GROWTH_EXP_N
        invariant
            i <= GROWTH_EXP_N,
            exp == exp_of_stat(target as int),
            0 <= exp <= 72600,
            vals@ == target_cells(target).take(i as int),
        decreases GROWTH_EXP_N - i,
    {
        if i == EXP_IDX_SPEED {
            vals.push(GROWTH_EXP_MAX as u32);
        } else {
            vals.push(exp as u32);
        }
        i += 1;
        assert(vals@ =~= target_cells(target).take(i as int));
    }
    assert(vals@ =~= target_cells(target));
    let a = base.wrapping_add(GROWTH_EXP_OFF);
    let f = base.wrapping_add(GROWTH_FIELD_OFF);
    let ok_stat = write_cells(p, a, &vals);
    proof {
        assert forall|k: int| 0 <= k < 8 implies put_cells(m, a, vals@, 10).accepts(
            #[trigger] cell(f, k),
            4,
        ) == m.accepts(cell(f, k), 4) by {
            put_cells_keeps_access(m, a, vals@, 10, cell(f, k), 4);
        }
    }
    let ok_field = write_cells(p, f, &fill(exp, GROWTH_FIELD_N));
    ok_stat && ok_field
}

/// The table of thresholds as a pattern.
pub open spec fn threshold_pattern() -> Seq<Option<u8>> {
    Seq::new(32, |i: int| Some(threshold_bytes()[i]))
}

/// Where in some regions a table of thresholds stands.
pub open spec fn tables_in(m: crate::process::Memory, ranges: Seq<(u64, u64)>) -> Seq<u64> {
    crate::pattern::all_hits(m, crate::sweep::all_pieces(ranges, 32), threshold_pattern())
}

/// The table at `a` is the first one of the growth structure at `base`.
pub open spec fn leads_to(m: crate::process::Memory, a: u64, base: u64) -> bool {
    a >= GROWTH_THRESH_OFF && base == a - GROWTH_THRESH_OFF && is_growth(m, base)
}

/// There is a growth structure at `base`, and its first table is in one of the
/// regions.
pub open spec fn found_in(m: crate::process::Memory, ranges: Seq<(u64, u64)>, base: u64) -> bool {
    exists|i: int|
        0 <= i < tables_in(m, ranges).len() && leads_to(m, #[trigger] tables_in(m, ranges)[i], base)
}

/// Rising without repetition.
pub open spec fn rising(s: Seq<u64>) -> bool {
    forall|i: int, j: int| 0 <= i < j < s.len() ==> s[i] < s[j]
}

/// The growth structures of some regions, each once, in the order of their
/// addresses.
pub open spec fn structs_in(m: crate::process::Memory, ranges: Seq<(u64, u64)>, s: Seq<u64>) -> bool {
    &&& rising(s)
    &&& forall|base: u64| #[trigger] s.contains(base) <==> found_in(m, ranges, base)
}

/// The regions that reach into a hot zone.
pub open spec fn hot(ranges: Seq<(u64, u64)>, lo: u64, hi: u64) -> Seq<(u64, u64)> {
    ranges.filter(|r: (u64, u64)| r.0.wrapping_add(r.1) > lo && r.0 < hi)
}

/// The table of thresholds as a pattern to search for.
pub fn growth_pattern() -> (res: Vec<Option<u8>>)
    ensures
        res@ == threshold_pattern(),
{
    let t = threshold_table();
    let mut out: Vec<Option<u8>> = Vec::new();
    let mut i: usize = 0;
    while i < 32
        invariant
            i <= 32,
            t@ == threshold_bytes(),
            out@ == threshold_pattern().take(i as int),
        decreases 32 - i,
    {
        out.push(Some(t[i]));
        i += 1;
        assert(out@ =~= threshold_pattern().take(i as int));
    }
    assert(out@ =~= threshold_pattern());
    out
}

/// Puts an address into its place, unless it is there already.
pub fn add_base(out: &mut Vec<u64>, base: u64)
    requires
        rising(old(out)@),
    ensures
        rising(final(out)@),
        forall|x: u64| #[trigger]
            final(out)@.contains(x) <==> (old(out)@.contains(x) || x == base),
{
    let ghost before = out@;
    let mut i: usize = 0;
    while i < out.len() && out[i] < base
        invariant
            i <= out@.len(),
            out@ == before,
            forall|j: int| 0 <= j < i ==> before[j] < base,
        decreases out@.len() - i,
    {
        i += 1;
    }
    if i < out.len() && out[i] == base {
        assert(before.contains(base));
        return;
    }
    out.insert(i, base);
    proof {
        before.insert_ensures(i as int, base);
        let after = out@;
        assert forall|a: int, b: int| 0 <= a < b < after.len() implies after[a] < after[b] by {
            let fa = if a < i {
                a
            } else {
                a - 1
            };
            let fb = if b < i {
                b
            } else {
                b - 1
            };
            if a != i && b != i {
                assert(after[a] == before[fa] && after[b] == before[fb]);
            } else if a == i {
                assert(after[b] == before[fb]);
                assert(before[i as int] > base);
                if fb > i {
                    assert(before[i as int] < before[fb]);
                }
            } else {
                assert(after[a] == before[a]);
            }
        }
        assert forall|x: u64| #[trigger] after.contains(x) <==> (before.contains(x) || x == base) by {
            if before.contains(x) {
                let k = choose|k: int| 0 <= k < before.len() && before[k] == x;
                if k < i {
                    assert(after[k] == x);
                } else {
                    assert(after[k + 1] == x);
                }
            }
            if x == base {
                assert(after[i as int] == base);
            }
            if after.contains(x) && x != base {
                let k = choose|k: int| 0 <= k < after.len() && after[k] == x;
                if k < i {
                    assert(before[k] == x);
                } else {
                    assert(before[k - 1] == x);
                }
            }
        }
    }
}

/// The growth structures that some tables lead to, each once, in the order of
/// their addresses.
pub open spec fn led_to(m: crate::process::Memory, tables: Seq<u64>, s: Seq<u64>) -> bool {
    &&& rising(s)
    &&& forall|base: u64| #[trigger]
        s.contains(base) <==> exists|i: int|
            0 <= i < tables.len() && leads_to(m, #[trigger] tables[i], base)
}

/// Some table leads to a growth structure.
pub open spec fn lead_somewhere(m: crate::process::Memory, tables: Seq<u64>) -> bool {
    exists|i: int|
        0 <= i < tables.len() && (#[trigger] tables[i]) >= GROWTH_THRESH_OFF && is_growth(
            m,
            (tables[i] - GROWTH_THRESH_OFF) as u64,
        )
}

proof fn led_somewhere(m: crate::process::Memory, tables: Seq<u64>, s: Seq<u64>)
    requires
        led_to(m, tables, s),
    ensures
        lead_somewhere(m, tables) == (s.len() > 0),
{
    if s.len() > 0 {
        assert(s.contains(s[0]));
    }
    if lead_somewhere(m, tables) {
        let i = choose|i: int|
            0 <= i < tables.len() && (#[trigger] tables[i]) >= GROWTH_THRESH_OFF && is_growth(
                m,
                (tables[i] - GROWTH_THRESH_OFF) as u64,
            );
        let base = (tables[i] - GROWTH_THRESH_OFF) as u64;
        assert(leads_to(m, tables[i], base));
        assert(s.contains(base));
    }
}

/// The growth structures that some tables lead to. A table that is not the
/// first of two leads nowhere.
pub fn structs_from(p: &Proc, tables: &Vec<u64>) -> (res: Vec<u64>)
    ensures
        led_to(p@, tables@, res@),
{
    let mut out: Vec<u64> = Vec::new();
    let mut k: usize = 0;
    while k < tables.len()
        invariant
            k <= tables@.len(),
            rising(out@),
            forall|base: u64| #[trigger]
                out@.contains(base) <==> exists|j: int|
                    0 <= j < k && leads_to(p@, #[trigger] tables@[j], base),
        decreases tables@.len() - k,
    {
        let a = tables[k];
        if a >= GROWTH_THRESH_OFF {
            let b = a - GROWTH_THRESH_OFF;
            if growth_struct_ok(p, b) {
                add_base(&mut out, b);
                assert(leads_to(p@, tables@[k as int], b));
            }
        }
        k += 1;
    }
    out
}

/// The growth structures of some regions.
pub fn find_growth_in(p: &Proc, ranges: &[(u64, u64)]) -> (res: Vec<u64>)
    ensures
        structs_in(p@, ranges@, res@),
{
    let mut s = Search::new(ranges, growth_pattern(), false);
    search_image(p, &mut s);
    let out = structs_from(p, &s.hits);
    assert(s.hits@ == tables_in(p@, ranges@));
    out
}

/// The growth structures of the whole game.
pub fn find_growth_structs(p: &Proc) -> (res: Vec<u64>)
    ensures
        structs_in(p@, crate::process::writable_part(p@.layout), res@),
{
    find_growth_in(p, &p.writable_ranges())
}

/// The regions that reach into a hot zone.
pub fn hot_ranges(ranges: &Vec<(u64, u64)>, lo: u64, hi: u64) -> (res: Vec<(u64, u64)>)
    ensures
        res@ == hot(ranges@, lo, hi),
{
    let ghost keep = |r: (u64, u64)| r.0.wrapping_add(r.1) > lo && r.0 < hi;
    let mut out: Vec<(u64, u64)> = Vec::new();
    let mut i: usize = 0;
    while i < ranges.len()
        invariant
            i <= ranges@.len(),
            keep == (|r: (u64, u64)| r.0.wrapping_add(r.1) > lo && r.0 < hi),
            out@ == ranges@.take(i as int).filter(keep),
        decreases ranges@.len() - i,
    {
        proof {
            reveal(Seq::filter);
            assert(ranges@.take(i + 1).drop_last() =~= ranges@.take(i as int));
        }
        let r = ranges[i];
        if r.0.wrapping_add(r.1) > lo && r.0 < hi {
            out.push(r);
        }
        i += 1;
    }
    assert(ranges@.take(i as int) =~= ranges@);
    out
}

/// A growth structure was found in hot zone `z`.
pub open spec fn found_hot(m: crate::process::Memory, ranges: Seq<(u64, u64)>, z: int) -> bool {
    exists|base: u64|
        found_in(m, hot(ranges, GROWTH_HOT_ZONES@[z].0, GROWTH_HOT_ZONES@[z].1), base)
}

/// What a fast search of some regions gives: the growth structures of the first
/// hot zone that has any, else those of all the regions.
pub open spec fn found_fast(m: crate::process::Memory, all: Seq<(u64, u64)>, s: Seq<u64>) -> bool {
    let z = GROWTH_HOT_ZONES@;
    if found_hot(m, all, 0) {
        structs_in(m, hot(all, z[0].0, z[0].1), s)
    } else if found_hot(m, all, 1) {
        structs_in(m, hot(all, z[1].0, z[1].1), s)
    } else {
        structs_in(m, all, s)
    }
}

/// The regions that are searched in turn `z`: those of the two hot zones, and
/// then all of them.
pub open spec fn regions_of_turn(all: Seq<(u64, u64)>, z: int) -> Seq<(u64, u64)> {
    if z < 2 {
        hot(all, GROWTH_HOT_ZONES@[z].0, GROWTH_HOT_ZONES@[z].1)
    } else {
        all
    }
}

/// A search for growth structures that is under way, turn by turn.
pub struct GrowthHunt {
    /// All regions.
    pub all: Vec<(u64, u64)>,
    /// The turn that it has come to.
    pub turn: usize,
    /// The search for tables of this turn.
    pub search: Search,
    /// What was found.
    pub structs: Vec<u64>,
}

impl GrowthHunt {
    /// Turn `turn` has just begun.
    pub open spec fn begins(self, all: Seq<(u64, u64)>, turn: int) -> bool {
        &&& self.all@ == all
        &&& self.turn == turn
        &&& self.search.pieces@ == crate::sweep::all_pieces(regions_of_turn(all, turn), 32)
        &&& self.search.pat@ == threshold_pattern()
        &&& !self.search.first_only
        &&& self.search.next == 0
        &&& self.search.hits@.len() == 0
        &&& self.structs@.len() == 0
        &&& forall|m: crate::process::Memory| #[trigger] self.search.finds(m)
    }

    fn at_turn(all: Vec<(u64, u64)>, turn: usize) -> (res: GrowthHunt)
        ensures
            res.begins(all@, turn as int),
    {
        let search = if turn < 2 {
            let (lo, hi) = GROWTH_HOT_ZONES[turn];
            Search::new(&hot_ranges(&all, lo, hi), growth_pattern(), false)
        } else {
            Search::new(&all, growth_pattern(), false)
        };
        GrowthHunt { all, turn, search, structs: Vec::new() }
    }

    /// A hunt through some regions that has just begun.
    pub fn new(all: Vec<(u64, u64)>) -> (res: GrowthHunt)
        ensures
            res.begins(all@, 0),
    {
        GrowthHunt::at_turn(all, 0)
    }

    /// What is to be read next: address and length. `None` when the tables of
    /// this turn are known.
    pub fn want(&self) -> (res: Option<(u64, u64)>)
        ensures
            res == self.search.wanted(),
    {
        self.search.want()
    }

    /// Takes what was read, `None` where it could not be.
    pub fn take(&mut self, answer: Option<Vec<u8>>)
        ensures
            *final(self) == (GrowthHunt { search: final(self).search, ..*old(self) }),
            old(self).search.answered(crate::search::said(answer), final(self).search),
    {
        self.search.take(answer);
    }

    /// Ends the turn, `p` holding what stands at the tables that were found. If
    /// they lead to growth structures, or this was the last turn, those are
    /// what was found and the hunt is over. Else the next turn begins.
    pub fn settle(&mut self, p: &Proc) -> (res: bool)
        ensures
            ({
                let a = *old(self);
                let b = *final(self);
                if res {
                    &&& b == (GrowthHunt { structs: b.structs, ..a })
                    &&& led_to(p@, a.search.hits@, b.structs@)
                } else {
                    b.begins(a.all@, a.turn + 1)
                }
            }),
            res == (old(self).turn >= 2 || lead_somewhere(p@, old(self).search.hits@)),
    {
        let found = structs_from(p, &self.search.hits);
        proof {
            led_somewhere(p@, self.search.hits@, found@);
        }
        if found.len() > 0 || self.turn >= 2 {
            self.structs = found;
            true
        } else {
            let mut all: Vec<(u64, u64)> = Vec::new();
            std::mem::swap(&mut all, &mut self.all);
            *self = GrowthHunt::at_turn(all, self.turn + 1);
            false
        }
    }
}

/// The growth structures of the first hot zone that has any, else those of the
/// whole game.
pub fn find_growth_structs_fast(p: &Proc) -> (res: Vec<u64>)
    ensures
        found_fast(p@, crate::process::writable_part(p@.layout), res@),
{
    let mut h = GrowthHunt::new(p.writable_ranges());
    let ghost all = crate::process::writable_part(p@.layout);
    loop
        invariant
            all == crate::process::writable_part(p@.layout),
            h.turn <= 2,
            h.begins(all, h.turn as int),
            forall|y: int| 0 <= y < h.turn ==> !#[trigger] found_hot(p@, all, y),
        decreases 2 - h.turn,
    {
        let ghost z = h.turn as int;
        let ghost part = regions_of_turn(all, z);
        search_image(p, &mut h.search);
        let ghost tables = h.search.hits@;
        assert(tables == tables_in(p@, part));
        let over = h.settle(p);
        proof {
            if lead_somewhere(p@, tables) {
                let i = choose|i: int|
                    0 <= i < tables.len() && (#[trigger] tables[i]) >= GROWTH_THRESH_OFF
                        && is_growth(p@, (tables[i] - GROWTH_THRESH_OFF) as u64);
                assert(leads_to(p@, tables[i], (tables[i] - GROWTH_THRESH_OFF) as u64));
                assert(found_in(p@, part, (tables[i] - GROWTH_THRESH_OFF) as u64));
            }
            if z < 2 {
                assert(found_hot(p@, all, z) == lead_somewhere(p@, tables));
            }
        }
        if over {
            assert(structs_in(p@, part, h.structs@));
            return h.structs;
        }
    }
}

} // verus!

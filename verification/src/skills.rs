//! Edits of a player's special abilities: grades, the abilities that share
//! their fields, and abilities of one bit.

use vstd::prelude::*;
use vstd::string::*;

use crate::abil::{
    abil_bit3_name, abil_bit_name, abil_level, abil_name, abil_nib, has_bit, max_abil_grades,
    write_abil_nibble, ABIL_SEEN_VALS,
};
use crate::abil_laws::half_byte_is_read_back;
use crate::agreement::{abilities_keep_step, half_byte_keeps_step, in_step};
use crate::digits::push_decimal;
use crate::offsets::{ABIL_BYTES, ABIL_OFF, OFF_ABIL2};
use crate::player::Player;
use crate::process::{at, Memory, Proc};
use crate::traits::{done, done_with, says, wrote, Outcome};

verus! {

/// A field whose ability a player may not have at all.
pub open spec fn is_optional(n: int) -> bool {
    n == 2 || n == 3
}

/// The grades on offer for field `n`, the lowest first. The value that is no
/// grade is not among them. Where the ability is optional, 0 stands for not
/// having it.
pub open spec fn grades_for(n: int) -> Seq<u8> {
    if is_optional(n) {
        seq![0u8, 5, 6, 7, 1, 2, 3]
    } else {
        seq![5u8, 6, 7, 0, 1, 2, 3]
    }
}

/// The choice after `v`, going round; the first one where `v` is none.
pub open spec fn choice_after(opts: Seq<u8>, v: u8) -> u8 {
    match place_in(opts, v, 0) {
        Some(k) => opts[if k + 1 == opts.len() {
            0
        } else {
            k + 1
        }],
        None => opts[0],
    }
}

/// The first place of `v` in `opts` from `k` on.
pub open spec fn place_in(opts: Seq<u8>, v: u8, k: int) -> Option<int>
    decreases opts.len() - k,
{
    if k < 0 || k >= opts.len() {
        None
    } else if opts[k] == v {
        Some(k)
    } else {
        place_in(opts, v, k + 1)
    }
}

/// What is shown for a grade of field `n`.
pub open spec fn grade_text(n: int, v: u8) -> Seq<char> {
    if place_in(grades_for(n), v, 0) is None {
        "?"@
    } else if is_optional(n) && v == 0 {
        "（無）"@
    } else {
        crate::abil::ABIL_LEVELS@[(v % 8) as int]@
    }
}

/// The grades on offer for field `n`.
pub fn grade_options(n: usize) -> (res: Vec<u8>)
    ensures
        res@ == grades_for(n as int),
{
    let v: Vec<u8> = if n == 2 || n == 3 {
        vec![0, 5, 6, 7, 1, 2, 3]
    } else {
        vec![5, 6, 7, 0, 1, 2, 3]
    };
    assert(v@ =~= grades_for(n as int));
    v
}

fn find_choice(opts: &Vec<u8>, v: u8) -> (res: Option<usize>)
    ensures
        match res {
            Some(k) => place_in(opts@, v, 0) == Some(k as int) && k < opts@.len(),
            None => place_in(opts@, v, 0) is None,
        },
{
    let mut k: usize = 0;
    while k < opts.len()
        invariant
            k <= opts@.len(),
            place_in(opts@, v, 0) == place_in(opts@, v, k as int),
        decreases opts@.len() - k,
    {
        if opts[k] == v {
            return Some(k);
        }
        k += 1;
    }
    None
}

/// The choice after `v`, going round; the first one where `v` is none.
pub fn next_choice(opts: &Vec<u8>, v: u8) -> (res: u8)
    requires
        opts@.len() > 0,
    ensures
        res == choice_after(opts@, v),
{
    match find_choice(opts, v) {
        Some(k) => if k == opts.len() - 1 {
            opts[0]
        } else {
            opts[k + 1]
        },
        None => opts[0],
    }
}

/// What is shown for a grade of field `n`.
pub fn grade_label(n: usize, v: u8) -> (res: &'static str)
    ensures
        res@ == grade_text(n as int, v),
{
    let opts = grade_options(n);
    match find_choice(&opts, v) {
        Some(_) => if (n == 2 || n == 3) && v == 0 {
            "（無）"
        } else {
            abil_level(v)
        },
        None => "?",
    }
}

/// From a grade on offer one goes to a grade on offer, never to the value that
/// is none.
pub proof fn grades_go_round(n: int, v: u8)
    requires
        place_in(grades_for(n), v, 0) is Some,
    ensures
        place_in(grades_for(n), choice_after(grades_for(n), v), 0) is Some,
        choice_after(grades_for(n), v) % 8 != 4,
{
    reveal_with_fuel(place_in, 9);
}

/// A half byte with another grade and the same fourth bit.
pub open spec fn with_grade(nib: u8, lv: u8) -> u8 {
    (nib / 8 * 8 + lv) as u8
}

/// A half byte with the same grade and another fourth bit.
pub open spec fn with_extra(nib: u8, on: bool) -> u8 {
    (nib % 8 + if on {
        8int
    } else {
        0int
    }) as u8
}

/// The weight of a bit.
pub open spec fn weight(b: u8) -> int {
    if b == 0 {
        1
    } else if b == 1 {
        2
    } else if b == 2 {
        4
    } else {
        8
    }
}

/// A half byte with bit `b` on or off.
pub open spec fn with_bit(nib: u8, b: u8, on: bool) -> u8 {
    if crate::abil::bit(nib as nat, b as nat) == on {
        nib
    } else if on {
        (nib + weight(b)) as u8
    } else {
        (nib - weight(b)) as u8
    }
}

/// Half byte `n` of a player was set to `v`, in the game and at hand.
pub open spec fn set_half(
    x: Player,
    y: Player,
    before: Memory,
    after: Memory,
    n: int,
    v: u8,
    ok: bool,
) -> bool {
    let a = at(at(x.addr, OFF_ABIL2 as int), n / 2);
    &&& y == (Player { abil: y.abil, ..x })
    &&& y.abil@ == crate::abil::nib_set(x.abil@, n, v)
    &&& after == before.poke(a, seq![crate::abil::half_set(before.u8_at(a), n, v)])
    &&& ok == before.accepts(a, 1)
}

fn set_half_byte(cur: &mut Player, p: &mut Proc, n: usize, v: u8) -> (res: bool)
    requires
        n < 28,
    ensures
        in_step(old(p)@, *old(cur)) ==> in_step(final(p)@, *final(cur)),
        set_half(*old(cur), *final(cur), old(p)@, final(p)@, n as int, v, res),
{
    let ok = write_abil_nibble(p, cur.addr, n, v);
    let i: usize = n / 2;
    let x: u8 = cur.abil[i];
    let y: u8 = if n % 2 == 0 {
        x / 16 * 16 + v % 16
    } else {
        x % 16 + v % 16 * 16
    };
    cur.abil[i] = y;
    assert(cur.abil@ =~= crate::abil::nib_set(old(cur).abil@, n as int, v));
    proof {
        if in_step(old(p)@, *old(cur)) {
            half_byte_keeps_step(old(p)@, *old(cur), *cur, n as int, v);
        }
    }
    ok
}

proof fn one_half_byte_changes(b: Seq<u8>, n: int, v: u8)
    requires
        b.len() == 14,
        0 <= n < 28,
        v < 16,
    ensures
        crate::abil::nib(crate::abil::nib_set(b, n, v), n) == v,
        forall|k: int|
            0 <= k < 28 && k != n ==> #[trigger] crate::abil::nib(crate::abil::nib_set(b, n, v), k)
                == crate::abil::nib(b, k),
{
    half_byte_is_read_back(b, n, v, n);
    assert forall|k: int| 0 <= k < 28 && k != n implies #[trigger] crate::abil::nib(
        crate::abil::nib_set(b, n, v),
        k,
    ) == crate::abil::nib(b, k) by {
        half_byte_is_read_back(b, n, v, k);
    }
}

/// Sets the grade of a field to one of those on offer. The ability in its
/// fourth bit stays. The game crashes on 4, which is no grade.
pub fn edit_abil_grade(cur: &mut Player, p: &mut Proc, n: usize, lv: u8) -> (res: Outcome)
    requires
        n < 28,
        lv < 8,
        lv != 4,
    ensures
        in_step(old(p)@, *old(cur)) ==> in_step(final(p)@, *final(cur)),
        ({
            let (x, y) = (
                crate::abil::nib(old(cur).abil@, n as int),
                crate::abil::nib(final(cur).abil@, n as int),
            );
            y % 8 == lv && y / 8 == x / 8
        }),
        forall|k: int|
            0 <= k < 28 && k != n ==> #[trigger] crate::abil::nib(final(cur).abil@, k)
                == crate::abil::nib(old(cur).abil@, k),
        ({
            let v = with_grade(crate::abil::nib(old(cur).abil@, n as int), lv);
            &&& set_half(*old(cur), *final(cur), old(p)@, final(p)@, n as int, v, res.ok)
            &&& says(
                res,
                res.ok,
                match crate::abil::field_name(crate::abil::ABIL_KNOWN@, n) {
                    Some(s) => s,
                    None => "（未確認）"@,
                } + " 等級"@,
            )
        }),
{
    let nib: u8 = abil_nib(&cur.abil, n);
    let v: u8 = nib / 8 * 8 + lv;
    let ok = set_half_byte(cur, p, n, v);
    proof {
        one_half_byte_changes(old(cur).abil@, n as int, v);
    }
    done_with(ok, abil_name(n), " 等級")
}

/// Sets the ability in the fourth bit of a graded field. The grade stays.
pub fn edit_abil_extra(cur: &mut Player, p: &mut Proc, n: usize, on: bool) -> (res: Outcome)
    requires
        n < 28,
    ensures
        in_step(old(p)@, *old(cur)) ==> in_step(final(p)@, *final(cur)),
        ({
            let (x, y) = (
                crate::abil::nib(old(cur).abil@, n as int),
                crate::abil::nib(final(cur).abil@, n as int),
            );
            y % 8 == x % 8 && (y >= 8) == on
        }),
        forall|k: int|
            0 <= k < 28 && k != n ==> #[trigger] crate::abil::nib(final(cur).abil@, k)
                == crate::abil::nib(old(cur).abil@, k),
        ({
            let v = with_extra(crate::abil::nib(old(cur).abil@, n as int), on);
            &&& set_half(*old(cur), *final(cur), old(p)@, final(p)@, n as int, v, res.ok)
            &&& says(
                res,
                res.ok,
                match crate::abil::field_name(crate::abil::ABIL_GRADED_BIT3@, n) {
                    Some(s) => s,
                    None => ""@,
                },
            )
        }),
{
    let nib: u8 = abil_nib(&cur.abil, n);
    let extra: u8 = if on {
        8
    } else {
        0
    };
    let ok = set_half_byte(cur, p, n, nib % 8 + extra);
    proof {
        one_half_byte_changes(old(cur).abil@, n as int, (nib % 8 + extra) as u8);
    }
    done(ok, abil_bit3_name(n))
}

/// What is said of a bit that was set or cleared, with a warning where the
/// value that results was never seen.
pub open spec fn bit_report(name: Seq<char>, n: int, v: u8) -> Seq<char> {
    if crate::abil::seen(n, v as int) {
        name
    } else {
        name + "　⚠ n"@ + crate::digits::decimal(n as nat) + "="@ + crate::digits::decimal(v as nat)
            + " 這個組合沒觀察過，若畫面卡住就重開讀檔"@
    }
}

/// What is shown for bit `b` of field `n`.
pub open spec fn bit_label(n: usize, b: u8) -> Seq<char> {
    match crate::abil::bit_name(crate::abil::ABIL_BITS@, n, b) {
        Some(s) => s,
        None => "—"@,
    }
}

/// What is shown for bit `b` of field `n`.
pub fn bit_choice(n: usize, b: u8) -> (res: &'static str)
    ensures
        res@ == bit_label(n, b),
{
    match abil_bit_name(n, b) {
        Some(s) => s,
        None => "—",
    }
}

/// Sets or clears a bit of a field.
pub fn edit_abil_bit(cur: &mut Player, p: &mut Proc, n: usize, b: u8, on: bool) -> (res: Outcome)
    requires
        n < 28,
        b < 4,
    ensures
        in_step(old(p)@, *old(cur)) ==> in_step(final(p)@, *final(cur)),
        forall|k: u8|
            k < 4 ==> #[trigger] crate::abil::bit(
                crate::abil::nib(final(cur).abil@, n as int) as nat,
                k as nat,
            ) == if k == b {
                on
            } else {
                crate::abil::bit(crate::abil::nib(old(cur).abil@, n as int) as nat, k as nat)
            },
        forall|k: int|
            0 <= k < 28 && k != n ==> #[trigger] crate::abil::nib(final(cur).abil@, k)
                == crate::abil::nib(old(cur).abil@, k),
        ({
            let v = with_bit(crate::abil::nib(old(cur).abil@, n as int), b, on);
            &&& set_half(*old(cur), *final(cur), old(p)@, final(p)@, n as int, v, res.ok)
            &&& says(res, res.ok, bit_report(bit_label(n, b), n as int, v))
        }),
{
    let nib: u8 = abil_nib(&cur.abil, n);
    let w: u8 = if b == 0 {
        1
    } else if b == 1 {
        2
    } else if b == 2 {
        4
    } else {
        8
    };
    let is_on = has_bit(nib as u16, b);
    proof {
        bits_of_half(nib, b);
    }
    let v: u8 = if is_on == on {
        nib
    } else if on {
        nib + w
    } else {
        nib - w
    };
    let ok = set_half_byte(cur, p, n, v);
    proof {
        one_half_byte_changes(old(cur).abil@, n as int, v);
        assert forall|k: u8| k < 4 implies #[trigger] crate::abil::bit(v as nat, k as nat) == if k
            == b {
            on
        } else {
            crate::abil::bit(nib as nat, k as nat)
        } by {
            only_that_bit_changes(nib, b, on, k);
        }
    }
    let mut what = bit_choice(n, b).to_owned();
    if !has_bit(ABIL_SEEN_VALS[n], v) {
        what.append("　⚠ n");
        push_decimal(&mut what, n as u64);
        what.append("=");
        push_decimal(&mut what, v as u64);
        what.append(" 這個組合沒觀察過，若畫面卡住就重開讀檔");
    }
    Outcome { ok, what, reload: false }
}

proof fn bits_of_half(v: u8, b: u8)
    requires
        v < 16,
        b < 4,
    ensures
        crate::abil::bit(v as nat, b as nat) ==> v >= weight(b),
        !crate::abil::bit(v as nat, b as nat) ==> v + weight(b) < 16,
{
    reveal_with_fuel(crate::abil::bit, 5);
}

/// A bit that was set or cleared is so, and the other bits of its half byte
/// stay.
pub proof fn only_that_bit_changes(v: u8, b: u8, on: bool, k: u8)
    requires
        v < 16,
        b < 4,
        k < 4,
    ensures
        with_bit(v, b, on) < 16,
        crate::abil::bit(with_bit(v, b, on) as nat, k as nat) == if k == b {
            on
        } else {
            crate::abil::bit(v as nat, k as nat)
        },
{
    reveal_with_fuel(crate::abil::bit, 5);
    bits_of_half(v, b);
}

/// Takes all special abilities away.
pub fn clear_abil(cur: &mut Player, p: &mut Proc) -> (res: Outcome)
    ensures
        in_step(old(p)@, *old(cur)) ==> in_step(final(p)@, *final(cur)),
        ({
            let zeros = Seq::new(14, |i: int| 0u8);
            &&& *final(cur) == (Player { abil: final(cur).abil, ..*old(cur) })
            &&& final(cur).abil@ == zeros
            &&& wrote(old(p)@, final(p)@, old(cur).addr, OFF_ABIL2, zeros, res.ok)
            &&& says(res, res.ok, "特殊能力全部清空"@)
        }),
{
    let zeros: [u8; 14] = [0, 0, 0, 0, 0, 0, 0, 0, 0, 0, 0, 0, 0, 0];
    assert(zeros@ =~= Seq::new(14, |i: int| 0u8));
    let ok = p.write(cur.addr.wrapping_add(OFF_ABIL2 as u64), &zeros);
    cur.abil = zeros;
    proof {
        if in_step(old(p)@, *old(cur)) {
            abilities_keep_step(old(p)@, *old(cur), *cur);
        }
    }
    done(ok, "特殊能力全部清空")
}

/// Raises all grades as far as seen values go. The player has to be read again.
pub fn edit_max_grades(p: &mut Proc, obj: u64) -> (res: Outcome)
    ensures
        ({
            let a = at(obj, ABIL_OFF as int);
            let got = old(p)@.fetch(a, ABIL_BYTES as int);
            &&& res.reload
            &&& res.ok == (got is Some && old(p)@.accepts(a, ABIL_BYTES as int))
            &&& final(p)@ == match got {
                Some(b) => old(p)@.poke(a, crate::abil::raised_bytes(b, 11)),
                None => old(p)@,
            }
            &&& res.what@ == if res.ok {
                "等級拉滿（改了 "@ + crate::digits::decimal(crate::abil::raised_count(got->0, 11))
                    + " 格，附加能力保留）"@
            } else {
                "等級拉滿失敗"@
            }
        }),
{
    match max_abil_grades(p, obj) {
        Some(k) => {
            let mut what = "等級拉滿（改了 ".to_owned();
            push_decimal(&mut what, k as u64);
            what.append(" 格，附加能力保留）");
            Outcome { ok: true, what, reload: true }
        },
        None => Outcome { ok: false, what: "等級拉滿失敗".to_owned(), reload: true },
    }
}

} // verus!

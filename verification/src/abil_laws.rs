//! What holds of the half bytes of the special abilities, and of raising their
//! grades.

use vstd::prelude::*;

use crate::abil::{
    best_from, nib, nib_set, raised, raised_bytes, raised_count, seen, ABIL_SEEN_VALS,
    GRADE_ORDER,
};

verus! {

/// A half byte that was set reads back as its low half, and every other half
/// byte stays.
pub proof fn half_byte_is_read_back(b: Seq<u8>, n: int, v: u8, k: int)
    requires
        0 <= n < 2 * b.len(),
        0 <= k < 2 * b.len(),
    ensures
        nib_set(b, n, v).len() == b.len(),
        nib(nib_set(b, n, v), k) == if k == n {
            (v % 16) as u8
        } else {
            nib(b, k)
        },
{
}

/// Setting a half byte to what it holds changes nothing.
pub proof fn same_half_byte_changes_nothing(b: Seq<u8>, n: int)
    requires
        0 <= n < 2 * b.len(),
    ensures
        nib_set(b, n, nib(b, n)) == b,
{
    assert(nib_set(b, n, nib(b, n)) =~= b);
}

/// Where a grade stands, from 0 for G to 6 for A; -1 for the value that is
/// none.
pub open spec fn grade_rank(v: u8) -> int {
    if v % 8 == 4 {
        -1
    } else if v % 8 >= 5 {
        v % 8 - 5
    } else {
        v % 8 + 3
    }
}

proof fn grade_order()
    ensures
        GRADE_ORDER@ == seq![3u8, 2, 1, 0, 7, 6, 5],
{
    assert(GRADE_ORDER@ =~= seq![3u8, 2, 1, 0, 7, 6, 5]);
}

proof fn best_is_fit(n: int, cur: u8, k: nat)
    requires
        cur < 16,
        k <= 7,
        cur % 8 != 4 ==> grade_rank(cur) <= 6 - k,
    ensures
        ({
            let w = best_from(n, cur, k);
            &&& w < 16
            &&& w / 8 == cur / 8
            &&& w == cur || w == 0 || seen(n, w as int)
            &&& w % 8 == 4 ==> w == cur
            &&& cur % 8 != 4 ==> grade_rank(w) >= grade_rank(cur)
        }),
    decreases 7 - k,
{
    grade_order();
    if k < 7 {
        let want = (cur / 8 * 8 + GRADE_ORDER@[k as int]) as u8;
        if !(want == cur || want == 0 || seen(n, want as int)) {
            best_is_fit(n, cur, k + 1);
        }
    }
}

/// Raising a graded field keeps its fourth bit, gives only what was there, is
/// empty, or was seen on a real player, never the grade that is none, and
/// never a lower grade.
pub proof fn raising_is_safe(n: int, cur: u8)
    requires
        cur < 16,
    ensures
        ({
            let w = raised(n, cur);
            &&& w < 16
            &&& w / 8 == cur / 8
            &&& w == cur || w == 0 || seen(n, w as int)
            &&& w % 8 == 4 ==> w == cur
            &&& cur % 8 != 4 ==> grade_rank(w) >= grade_rank(cur)
        }),
{
    best_is_fit(n, cur, 0);
}

proof fn best_again(n: int, cur: u8, k: nat)
    requires
        cur < 16,
        k <= 7,
        cur % 8 != 4 ==> grade_rank(cur) <= 6 - k,
    ensures
        best_from(n, best_from(n, cur, k), k) == best_from(n, cur, k),
    decreases 7 - k,
{
    grade_order();
    best_is_fit(n, cur, k);
    if k < 7 {
        let want = (cur / 8 * 8 + GRADE_ORDER@[k as int]) as u8;
        if !(want == cur || want == 0 || seen(n, want as int)) {
            best_is_fit(n, cur, k + 1);
            best_again(n, cur, k + 1);
            let w = best_from(n, cur, k + 1);
            assert((w / 8 * 8 + GRADE_ORDER@[k as int]) as u8 == want);
            assert(want != w);
        }
    }
}

/// A field that was raised is not raised further.
pub proof fn raising_twice_changes_nothing(n: int, cur: u8)
    requires
        cur < 16,
    ensures
        raised(n, raised(n, cur)) == raised(n, cur),
{
    best_again(n, cur, 0);
}

proof fn best_is_highest(n: int, cur: u8, k: nat, u: u8)
    requires
        cur < 16,
        u < 16,
        k <= 7,
        cur % 8 != 4 ==> grade_rank(cur) <= 6 - k,
        u / 8 == cur / 8,
        u % 8 != 4,
        grade_rank(u) <= 6 - k,
        seen(n, u as int) || u == 0 || u == cur,
    ensures
        grade_rank(u) <= grade_rank(best_from(n, cur, k)),
    decreases 7 - k,
{
    grade_order();
    best_is_fit(n, cur, k);
    if k < 7 {
        let want = (cur / 8 * 8 + GRADE_ORDER@[k as int]) as u8;
        if !(want == cur || want == 0 || seen(n, want as int)) {
            assert(want != u);
            best_is_highest(n, cur, k + 1, u);
        }
    }
}

/// A field is raised as far as seen values go: no value with the same fourth
/// bit that was seen in the field, is zero, or was there before has a higher
/// grade.
pub proof fn raising_reaches_the_highest(n: int, cur: u8, u: u8)
    requires
        0 <= n <= 10,
        cur < 16,
        !((n == 2 || n == 3) && cur == 0),
        u < 16,
        u / 8 == cur / 8,
        u % 8 != 4,
        seen(n, u as int) || u == 0 || u == cur,
    ensures
        grade_rank(u) <= grade_rank(raised(n, cur)),
{
    best_is_highest(n, cur, 0, u);
}

/// A field whose fourth bit is clear ends at grade A, unless its ability may be
/// missing and is.
pub proof fn plain_fields_end_at_the_highest_grade(n: int, cur: u8)
    requires
        0 <= n <= 10,
        cur < 8,
        !((n == 2 || n == 3) && cur == 0),
    ensures
        raised(n, cur) == 3,
{
    let t = ABIL_SEEN_VALS@;
    assert(t[0] == 0x03EF && t[1] == 0x8BCF && t[2] == 0x01EF && t[3] == 0x01EF && t[4] == 0x01CF
        && t[5] == 0x81EF && t[6] == 0x01CF && t[7] == 0x01CF && t[8] == 0x038F && t[9] == 0xCFCF
        && t[10] == 0x01EF);
    reveal_with_fuel(crate::abil::bit, 4);
    assert(seen(n, 3));
    raising_reaches_the_highest(n, cur, 3);
    raising_is_safe(n, cur);
}

/// An optional ability that a player does not have is not given to it.
pub proof fn raising_gives_no_optional_ability(n: int)
    requires
        n == 2 || n == 3,
    ensures
        raised(n, 0) == 0,
{
}

/// Raising the first `k` fields raises each of them and leaves every other half
/// byte alone.
pub proof fn raising_stays_in_its_fields(b: Seq<u8>, k: nat, j: int)
    requires
        k <= 2 * b.len(),
        0 <= j < 2 * b.len(),
    ensures
        raised_bytes(b, k).len() == b.len(),
        nib(raised_bytes(b, k), j) == if j < k {
            raised(j, nib(b, j))
        } else {
            nib(b, j)
        },
    decreases k,
{
    if k > 0 {
        let n = (k - 1) as nat;
        raising_stays_in_its_fields(b, n, j);
        raising_stays_in_its_fields(b, n, k - 1);
        let r = raised_bytes(b, n);
        raising_is_safe(k - 1, nib(r, k - 1));
        half_byte_is_read_back(r, k - 1, raised(k - 1, nib(r, k - 1)), j);
    }
}

proof fn changes_are_counted(b: Seq<u8>, k: nat)
    requires
        k <= 2 * b.len(),
    ensures
        raised_count(b, k) == Seq::new(k, |i: int| i).filter(
            |i: int| raised(i, nib(b, i)) != nib(b, i),
        ).len(),
    decreases k,
{
    let all = Seq::new(k, |i: int| i);
    reveal(Seq::filter);
    if k > 0 {
        changes_are_counted(b, (k - 1) as nat);
        raising_stays_in_its_fields(b, (k - 1) as nat, k - 1);
        assert(all.drop_last() =~= Seq::new((k - 1) as nat, |i: int| i));
    }
}

/// Raising the grades of a player leaves every field that is not graded alone.
/// Each graded field keeps its fourth bit and ends at the highest grade that was
/// seen with it, an ability that may be missing and is aside. The number that
/// is given is that of the graded fields that changed.
pub proof fn grades_are_raised_throughout(b: Seq<u8>, j: int, u: u8)
    requires
        b.len() == 14,
        0 <= j < 28,
        u < 16,
    ensures
        ({
            let (x, y) = (nib(b, j), nib(raised_bytes(b, 11), j));
            &&& raised_bytes(b, 11).len() == 14
            &&& j > 10 ==> y == x
            &&& j <= 10 ==> y / 8 == x / 8
            &&& (j == 2 || j == 3) && x == 0 ==> y == 0
            &&& j <= 10 && !((j == 2 || j == 3) && x == 0) && u / 8 == x / 8 && u % 8 != 4 && (seen(
                j,
                u as int,
            ) || u == 0 || u == x) ==> grade_rank(u) <= grade_rank(y)
            &&& raised_count(b, 11) == Seq::new(11, |i: int| i).filter(
                |i: int| nib(raised_bytes(b, 11), i) != nib(b, i),
            ).len()
        }),
{
    let x = nib(b, j);
    raising_stays_in_its_fields(b, 11, j);
    raising_is_safe(j, x);
    if j <= 10 && !((j == 2 || j == 3) && x == 0) && u / 8 == x / 8 && u % 8 != 4 && (seen(
        j,
        u as int,
    ) || u == 0 || u == x) {
        raising_reaches_the_highest(j, x, u);
    }
    changes_are_counted(b, 11);
    let all = Seq::new(11, |i: int| i);
    let f = |i: int| raised(i, nib(b, i)) != nib(b, i);
    let g = |i: int| nib(raised_bytes(b, 11), i) != nib(b, i);
    assert forall|i: int| 0 <= i < 11 implies f(i) == #[trigger] g(i) by {
        raising_stays_in_its_fields(b, 11, i);
    }
    same_filter(all, f, g);
}

proof fn same_filter(s: Seq<int>, f: spec_fn(int) -> bool, g: spec_fn(int) -> bool)
    requires
        forall|i: int| 0 <= i < s.len() ==> f(s[i]) == g(#[trigger] s[i]),
    ensures
        s.filter(f) == s.filter(g),
    decreases s.len(),
{
    reveal(Seq::filter);
    if s.len() > 0 {
        let d = s.drop_last();
        assert forall|i: int| 0 <= i < d.len() implies f(d[i]) == g(#[trigger] d[i]) by {
            assert(d[i] == s[i]);
        }
        same_filter(d, f, g);
        assert(f(s[s.len() - 1]) == g(s[s.len() - 1]));
    }
}

/// Raising grades a second time changes no field.
pub proof fn second_raising_counts_none(b: Seq<u8>, k: nat)
    requires
        k <= 11,
        b.len() >= 6,
    ensures
        raised_bytes(raised_bytes(b, 11), k) == raised_bytes(b, 11),
        raised_count(raised_bytes(b, 11), k) == 0,
    decreases k,
{
    if k > 0 {
        let r = raised_bytes(b, 11);
        second_raising_counts_none(b, (k - 1) as nat);
        raising_stays_in_its_fields(b, 11, k - 1);
        raising_twice_changes_nothing(k - 1, nib(b, k - 1));
        same_half_byte_changes_nothing(r, k - 1);
    }
}

} // verus!

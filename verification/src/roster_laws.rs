//! What a list of players shows, and what its copies have in common.

use vstd::prelude::*;

use crate::order::{in_order, is_order, placed};
use crate::player::Player;
use crate::process::Memory;
use crate::roster::{
    by_addr, by_place, copies, copies_below, copy_count, is_owner, shown, stands_at, tells_apart,
    Dups,
};

verus! {

/// Entries in an order, those that tie as they are numbered.
spec fn strictly(s: Seq<usize>, lt: spec_fn(usize, usize) -> bool) -> bool {
    forall|i: int, j: int|
        #![trigger s[i], s[j]]
        0 <= i < j < s.len() ==> lt(s[i], s[j]) || (!lt(s[j], s[i]) && s[i] < s[j])
}

proof fn placed_strictly(s: Seq<usize>, x: usize, lt: spec_fn(usize, usize) -> bool)
    requires
        is_order(lt),
        strictly(s, lt),
        forall|i: int| 0 <= i < s.len() ==> #[trigger] s[i] < x,
    ensures
        strictly(placed(s, x, lt), lt),
        placed(s, x, lt).len() == s.len() + 1,
        forall|y: usize| #[trigger] placed(s, x, lt).contains(y) <==> (y == x || s.contains(y)),
    decreases s.len(),
{
    let r = placed(s, x, lt);
    if s.len() > 0 && lt(x, s.last()) {
        let d = s.drop_last();
        assert forall|i: int| 0 <= i < d.len() implies #[trigger] d[i] < x by {
            assert(d[i] == s[i]);
        }
        assert forall|i: int, j: int|
            #![trigger d[i], d[j]]
            0 <= i < j < d.len() implies lt(d[i], d[j]) || (!lt(d[j], d[i]) && d[i] < d[j]) by {
            assert(d[i] == s[i] && d[j] == s[j]);
        }
        placed_strictly(d, x, lt);
        let q = placed(d, x, lt);
        assert(r =~= q.push(s.last()));
        assert forall|i: int, j: int|
            #![trigger r[i], r[j]]
            0 <= i < j < r.len() implies lt(r[i], r[j]) || (!lt(r[j], r[i]) && r[i] < r[j]) by {
            assert(r[i] == q[i]);
            if j < q.len() {
                assert(r[j] == q[j]);
            } else {
                assert(q.contains(q[i]));
                if q[i] != x {
                    let k = choose|k: int| 0 <= k < d.len() && d[k] == q[i];
                    assert(s[k] == q[i] && s[s.len() - 1] == r[j]);
                }
            }
        }
        assert forall|y: usize| #[trigger] r.contains(y) <==> (y == x || s.contains(y)) by {
            if r.contains(y) {
                let k = choose|k: int| 0 <= k < r.len() && r[k] == y;
                if k < q.len() {
                    assert(q[k] == y);
                    assert(q.contains(y));
                    if y != x {
                        let n = choose|n: int| 0 <= n < d.len() && d[n] == y;
                        assert(s[n] == y);
                    }
                } else {
                    assert(s[s.len() - 1] == y);
                }
            }
            if y == x || s.contains(y) {
                if y != x && y != s.last() {
                    let n = choose|n: int| 0 <= n < s.len() && s[n] == y;
                    assert(d[n] == y);
                }
                if y != x && y == s.last() {
                    assert(r[r.len() - 1] == y);
                } else {
                    assert(q.contains(y));
                    let k = choose|k: int| 0 <= k < q.len() && q[k] == y;
                    assert(r[k] == y);
                }
            }
        }
    } else {
        assert(r =~= s.push(x));
        assert forall|i: int, j: int|
            #![trigger r[i], r[j]]
            0 <= i < j < r.len() implies lt(r[i], r[j]) || (!lt(r[j], r[i]) && r[i] < r[j]) by {
            assert(r[i] == s[i]);
            if j < s.len() {
                assert(r[j] == s[j]);
            } else {
                let l = s[s.len() - 1];
                assert(!lt(x, l));
                if i < s.len() - 1 {
                    assert(!lt(l, s[i]));
                    assert(!lt(x, s[i]));
                }
            }
        }
        assert forall|y: usize| #[trigger] r.contains(y) <==> (y == x || s.contains(y)) by {
            if r.contains(y) {
                let k = choose|k: int| 0 <= k < r.len() && r[k] == y;
                if k < s.len() {
                    assert(s[k] == y);
                }
            }
            if y == x {
                assert(r[s.len() as int] == y);
            } else if s.contains(y) {
                let k = choose|k: int| 0 <= k < s.len() && s[k] == y;
                assert(r[k] == y);
            }
        }
    }
}

proof fn sorted_strictly(s: Seq<usize>, lt: spec_fn(usize, usize) -> bool)
    requires
        is_order(lt),
        forall|i: int, j: int| 0 <= i < j < s.len() ==> s[i] < s[j],
    ensures
        strictly(in_order(s, lt), lt),
        in_order(s, lt).len() == s.len(),
        forall|y: usize| #[trigger] in_order(s, lt).contains(y) <==> s.contains(y),
    decreases s.len(),
{
    if s.len() > 0 {
        let d = s.drop_last();
        assert forall|i: int, j: int| 0 <= i < j < d.len() implies d[i] < d[j] by {
            assert(s[i] < s[j]);
        }
        sorted_strictly(d, lt);
        let q = in_order(d, lt);
        let x = s.last();
        assert forall|i: int| 0 <= i < q.len() implies #[trigger] q[i] < x by {
            assert(q.contains(q[i]));
            let k = choose|k: int| 0 <= k < d.len() && d[k] == q[i];
            assert(s[k] < s[s.len() - 1]);
        }
        placed_strictly(q, x, lt);
        assert forall|y: usize| #[trigger] in_order(s, lt).contains(y) <==> s.contains(y) by {
            assert(in_order(s, lt).contains(y) <==> (y == x || q.contains(y)));
            assert(q.contains(y) <==> d.contains(y));
            if d.contains(y) {
                let k = choose|k: int| 0 <= k < d.len() && d[k] == y;
                assert(s[k] == y);
            }
            if y == x {
                assert(s[s.len() - 1] == y);
            }
            if s.contains(y) && y != x {
                let k = choose|k: int| 0 <= k < s.len() && s[k] == y;
                assert(d[k] == y);
            }
        }
    }
}

/// Every entry is shown in whose name, in lower case, the text looked for
/// stands somewhere, if it is a pitcher or fielders are shown too; no other is.
/// The shown ones keep the order of the list, and none comes twice.
pub proof fn who_is_shown(list: Seq<Player>, f: Seq<char>, only_pitchers: bool, i: usize)
    requires
        list.len() <= usize::MAX,
    ensures
        shown(list, f, only_pitchers, list.len() as int).contains(i) <==> {
            let s = crate::unicode::lowered(list[i as int].name@);
            &&& i < list.len()
            &&& only_pitchers ==> list[i as int].pos == 0
            &&& exists|j: int|
                0 <= j <= s.len() - f.len() && #[trigger] s.subrange(j, j + f.len()) == f
        },
        ({
            let r = shown(list, f, only_pitchers, list.len() as int);
            forall|a: int, b: int| 0 <= a < b < r.len() ==> r[a] < r[b]
        }),
{
    shown_below(list, f, only_pitchers, list.len() as int, i);
    if i < list.len() {
        let s = crate::unicode::lowered(list[i as int].name@);
        if crate::roster::is_part(f, s) {
            let j = choose|j: int| #[trigger] stands_at(f, s, j);
            assert(s.subrange(j, j + f.len()) == f);
        }
        if exists|j: int| 0 <= j <= s.len() - f.len() && #[trigger] s.subrange(j, j + f.len()) == f {
            let j = choose|j: int|
                0 <= j <= s.len() - f.len() && #[trigger] s.subrange(j, j + f.len()) == f;
            assert(stands_at(f, s, j));
        }
    }
}

proof fn shown_below(list: Seq<Player>, f: Seq<char>, only_pitchers: bool, k: int, i: usize)
    requires
        0 <= k <= list.len() <= usize::MAX,
    ensures
        shown(list, f, only_pitchers, k).contains(i) <==> i < k && crate::roster::is_shown(
            list[i as int],
            f,
            only_pitchers,
        ),
        ({
            let r = shown(list, f, only_pitchers, k);
            &&& forall|a: int, b: int| 0 <= a < b < r.len() ==> r[a] < r[b]
            &&& forall|a: int| 0 <= a < r.len() ==> #[trigger] r[a] < k
        }),
    decreases k,
{
    if k > 0 {
        shown_below(list, f, only_pitchers, k - 1, i);
        let q = shown(list, f, only_pitchers, k - 1);
        let r = shown(list, f, only_pitchers, k);
        if crate::roster::is_shown(list[k - 1], f, only_pitchers) {
            assert(r =~= q.push((k - 1) as usize));
            pushed_above(q, (k - 1) as usize, i);
        }
    }
}

proof fn pushed_above(q: Seq<usize>, x: usize, i: usize)
    requires
        forall|a: int, b: int| 0 <= a < b < q.len() ==> q[a] < q[b],
        forall|a: int| 0 <= a < q.len() ==> #[trigger] q[a] < x,
    ensures
        ({
            let r = q.push(x);
            &&& forall|a: int, b: int| 0 <= a < b < r.len() ==> r[a] < r[b]
            &&& forall|a: int| 0 <= a < r.len() ==> #[trigger] r[a] <= x
            &&& r.contains(i) <==> (i == x || q.contains(i))
        }),
{
    let r = q.push(x);
    assert forall|a: int, b: int| 0 <= a < b < r.len() implies r[a] < r[b] by {
        assert(r[a] == q[a]);
        if b < q.len() {
            assert(r[b] == q[b]);
        }
    }
    assert forall|a: int| 0 <= a < r.len() implies #[trigger] r[a] <= x by {
        if a < q.len() {
            assert(r[a] == q[a]);
        }
    }
    if r.contains(i) {
        let k = choose|k: int| 0 <= k < r.len() && r[k] == i;
        if k < q.len() {
            assert(q[k] == i);
        }
    }
    if i == x {
        assert(r[q.len() as int] == i);
    } else if q.contains(i) {
        let k = choose|k: int| 0 <= k < q.len() && q[k] == i;
        assert(r[k] == i);
    }
}

/// In the sorted list the positions rise. Of two pitchers the faster one comes
/// first, of two fielders of a position the one with the better contact, and
/// those who are alike come as they are listed. Sorting shows the same entries.
pub proof fn how_players_are_sorted(
    list: Seq<Player>,
    f: Seq<char>,
    only_pitchers: bool,
    i: int,
    j: int,
)
    requires
        list.len() <= usize::MAX,
        0 <= i < j < shown(list, f, only_pitchers, list.len() as int).len(),
    ensures
        ({
            let all = shown(list, f, only_pitchers, list.len() as int);
            let r = in_order(all, by_place(list));
            let (x, y) = (list[r[i] as int], list[r[j] as int]);
            &&& r.len() == all.len()
            &&& forall|e: usize| #[trigger] r.contains(e) <==> all.contains(e)
            &&& x.pos <= y.pos
            &&& x.pos == y.pos && x.pos == 0 ==> x.speed >= y.speed && (x.speed == y.speed ==> r[i]
                < r[j])
            &&& x.pos == y.pos && x.pos != 0 ==> x.stats[0] >= y.stats[0] && (x.stats[0]
                == y.stats[0] ==> r[i] < r[j])
        }),
{
    let all = shown(list, f, only_pitchers, list.len() as int);
    let lt = by_place(list);
    shown_below(list, f, only_pitchers, list.len() as int, 0);
    crate::roster::place_is_an_order(list);
    sorted_strictly(all, lt);
    let r = in_order(all, lt);
    assert(lt(r[i], r[j]) || (!lt(r[j], r[i]) && r[i] < r[j]));
}

proof fn copies_are_found(list: Seq<Player>, pl: Player, k: int, i: usize)
    requires
        0 <= k <= list.len() <= usize::MAX,
    ensures
        copies_below(list, pl, k).contains(i) <==> i < k && copies(list[i as int], pl),
        copies_below(list, pl, k).len() == copy_count(list, pl, k),
        ({
            let r = copies_below(list, pl, k);
            &&& forall|a: int, b: int| 0 <= a < b < r.len() ==> r[a] < r[b]
            &&& forall|a: int| 0 <= a < r.len() ==> #[trigger] r[a] < k
        }),
    decreases k,
{
    if k > 0 {
        copies_are_found(list, pl, k - 1, i);
        let q = copies_below(list, pl, k - 1);
        let r = copies_below(list, pl, k);
        if copies(list[k - 1], pl) {
            assert(r =~= q.push((k - 1) as usize));
            pushed_above(q, (k - 1) as usize, i);
        }
    }
}

/// The copies of a player are the entries with its team and its name. They come
/// by address, those at one address as they are listed, and as many as are
/// counted.
pub proof fn which_copies_there_are(list: Seq<Player>, pl: Player, e: usize, i: int, j: int)
    requires
        list.len() <= usize::MAX,
    ensures
        ({
            let r = in_order(copies_below(list, pl, list.len() as int), by_addr(list));
            &&& r.contains(e) <==> (e < list.len() && list[e as int].team == pl.team
                && list[e as int].name@ == pl.name@)
            &&& r.len() == copy_count(list, pl, list.len() as int)
            &&& 0 <= i < j < r.len() ==> {
                ||| list[r[i] as int].addr < list[r[j] as int].addr
                ||| list[r[i] as int].addr == list[r[j] as int].addr && r[i] < r[j]
            }
        }),
{
    let all = copies_below(list, pl, list.len() as int);
    let lt = by_addr(list);
    copies_are_found(list, pl, list.len() as int, e);
    assert(is_order(lt));
    sorted_strictly(all, lt);
    let r = in_order(all, lt);
    assert(r.contains(e) <==> all.contains(e));
    if 0 <= i < j < r.len() {
        assert(lt(r[i], r[j]) || (!lt(r[j], r[i]) && r[i] < r[j]));
    }
}

proof fn two_copies_are_counted(list: Seq<Player>, i: int, j: int)
    requires
        list.len() <= usize::MAX,
        0 <= i < list.len(),
        0 <= j < list.len(),
        i != j,
        copies(list[j], list[i]),
    ensures
        copy_count(list, list[i], list.len() as int) > 1,
{
    let r = copies_below(list, list[i], list.len() as int);
    copies_are_found(list, list[i], list.len() as int, i as usize);
    copies_are_found(list, list[i], list.len() as int, j as usize);
    let a = choose|a: int| 0 <= a < r.len() && r[a] == i as usize;
    let b = choose|b: int| 0 <= b < r.len() && r[b] == j as usize;
    assert(a != b);
}

proof fn counted_copies_are_two(list: Seq<Player>, i: int) -> (j: int)
    requires
        list.len() <= usize::MAX,
        0 <= i < list.len(),
        copy_count(list, list[i], list.len() as int) > 1,
    ensures
        0 <= j < list.len(),
        j != i,
        copies(list[j], list[i]),
{
    let r = copies_below(list, list[i], list.len() as int);
    copies_are_found(list, list[i], list.len() as int, i as usize);
    assert(r[0] < r[1]);
    let k = if r[0] == i {
        1
    } else {
        0int
    };
    copies_are_found(list, list[i], list.len() as int, r[k]);
    assert(r.contains(r[k]));
    r[k] as int
}

/// The entry that stands for a player has its team and its name. It carries a
/// growth structure if any copy does, and no copy that is its equal in that
/// lies at a lower address.
pub proof fn who_stands_for_a_player(
    list: Seq<Player>,
    m: Memory,
    d: Dups,
    i: int,
    j: int,
)
    requires
        list.len() <= usize::MAX,
        tells_apart(list, Some(m), d),
        0 <= i < list.len(),
        0 <= j < list.len(),
        list[j].team == list[i].team,
        list[j].name@ == list[i].name@,
    ensures
        ({
            let r = d.rep@[i] as int;
            let (x, y) = (list[r], list[j]);
            let kept = crate::growth::growth_of(m, x.addr) is Some;
            let other = crate::growth::growth_of(m, y.addr) is Some;
            &&& 0 <= r < list.len()
            &&& x.team == list[i].team && x.name@ == list[i].name@
            &&& other ==> kept
            &&& other == kept ==> x.addr <= y.addr && (x.addr == y.addr ==> r <= j)
        }),
{
    let r = d.rep@[i] as int;
    assert(crate::roster::stands_for(list, Some(m), i, r));
    if r != j {
        two_copies_are_counted(list, r, j);
        two_copies_are_counted(list, j, r);
        assert(copies(list[j], list[i]));
        if crate::growth::growth_of(m, list[j].addr) is Some {
            assert(is_owner(list, Some(m), j));
            assert(is_owner(list, Some(m), r));
            assert(crate::roster::can_stand_for(list, Some(m), i, j));
        } else if crate::growth::growth_of(m, list[r].addr) is None {
            assert(!is_owner(list, Some(m), r));
            assert(crate::roster::can_stand_for(list, Some(m), i, j));
        }
    }
}

/// Without a game the copy at the lowest address stands for a player, and no
/// entry is marked.
pub proof fn lowest_copy_stands_without_a_game(list: Seq<Player>, d: Dups, i: int, j: int)
    requires
        list.len() <= usize::MAX,
        tells_apart(list, None, d),
        0 <= i < list.len(),
        0 <= j < list.len(),
        list[j].team == list[i].team,
        list[j].name@ == list[i].name@,
    ensures
        ({
            let r = d.rep@[i] as int;
            &&& 0 <= r < list.len()
            &&& list[r].team == list[i].team && list[r].name@ == list[i].name@
            &&& list[r].addr <= list[j].addr && (list[r].addr == list[j].addr ==> r <= j)
            &&& !d.owner@[i]
        }),
{
    let r = d.rep@[i] as int;
    assert(crate::roster::stands_for(list, None, i, r));
    assert(d.owner@[i] == is_owner(list, None, i));
    if r != j {
        assert(copies(list[j], list[i]));
        assert(crate::roster::can_stand_for(list, None, i, j));
    }
}

/// An entry is marked just if it carries a growth structure and has a copy
/// elsewhere in the list.
pub proof fn which_entries_are_marked(list: Seq<Player>, m: Memory, d: Dups, i: int)
    requires
        list.len() <= usize::MAX,
        tells_apart(list, Some(m), d),
        0 <= i < list.len(),
    ensures
        d.owner@[i] <==> {
            &&& crate::growth::growth_of(m, list[i].addr) is Some
            &&& exists|j: int|
                #![trigger list[j]]
                0 <= j < list.len() && j != i && list[j].team == list[i].team && list[j].name@
                    == list[i].name@
        },
        d.count@[i] > 1 <==> exists|j: int|
            #![trigger list[j]]
            0 <= j < list.len() && j != i && list[j].team == list[i].team && list[j].name@
                == list[i].name@,
        d.count@[i] == in_order(
            copies_below(list, list[i], list.len() as int),
            by_addr(list),
        ).len(),
{
    assert(d.owner@[i] == is_owner(list, Some(m), i));
    assert(d.count@[i] == copy_count(list, list[i], list.len() as int));
    which_copies_there_are(list, list[i], 0, 0, 0);
    if copy_count(list, list[i], list.len() as int) > 1 {
        let j = counted_copies_are_two(list, i);
        assert(copies(list[j], list[i]));
    }
    if exists|j: int|
        #![trigger list[j]]
        0 <= j < list.len() && j != i && list[j].team == list[i].team && list[j].name@
            == list[i].name@ {
        let j = choose|j: int|
            #![trigger list[j]]
            0 <= j < list.len() && j != i && list[j].team == list[i].team && list[j].name@
                == list[i].name@;
        two_copies_are_counted(list, i, j);
    }
}

/// Going on through the copies reaches each of them: the place after `k` is the
/// next one, and after the last comes the first.
pub proof fn going_round(k: int, n: int)
    requires
        0 <= k < n,
    ensures
        crate::roster::place_after(k, n) == (k + 1) % n,
        crate::roster::place_before(k, n) == (k + n - 1) % n,
{
    if k + 1 < n {
        vstd::arithmetic::div_mod::lemma_small_mod((k + 1) as nat, n as nat);
    } else {
        vstd::arithmetic::div_mod::lemma_mod_self_0(n);
    }
    if k == 0 {
        vstd::arithmetic::div_mod::lemma_small_mod((n - 1) as nat, n as nat);
    } else {
        vstd::arithmetic::div_mod::lemma_small_mod((k - 1) as nat, n as nat);
        vstd::arithmetic::div_mod::lemma_mod_add_multiples_vanish(k - 1, n);
        assert((k - 1 + n) == k + n - 1);
    }
}

} // verus!

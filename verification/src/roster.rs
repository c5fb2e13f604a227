//! The list of players: which of them are shown, in what order, and how the
//! copies that the game keeps of one player are told apart.

use vstd::prelude::*;

use crate::growth::growth_struct_for;
use crate::order::in_order;
use crate::player::Player;
use crate::process::Proc;
use crate::text::{chars_of, trim};
use crate::unicode::lowercase;

verus! {

/// `part` stands somewhere in `s`.
pub open spec fn is_part(part: Seq<char>, s: Seq<char>) -> bool {
    exists|i: int| #[trigger] stands_at(part, s, i)
}

/// `part` stands in `s` from `i` on.
pub open spec fn stands_at(part: Seq<char>, s: Seq<char>, i: int) -> bool {
    0 <= i && i + part.len() <= s.len() && s.subrange(i, i + part.len()) == part
}

/// What is looked for: what was typed, without white space around it and in
/// lower case.
pub open spec fn sought(filter: Seq<char>) -> Seq<char> {
    crate::unicode::lowered(crate::text::trimmed(filter))
}

/// A player is shown whose name in lower case has `f` in it, unless only
/// pitchers are.
pub open spec fn is_shown(pl: Player, f: Seq<char>, only_pitchers: bool) -> bool {
    &&& is_part(f, crate::unicode::lowered(pl.name@))
    &&& !only_pitchers || pl.pos == 0
}

/// The players below `k` that are shown.
pub open spec fn shown(list: Seq<Player>, f: Seq<char>, only_pitchers: bool, k: int) -> Seq<usize>
    decreases k,
{
    if k <= 0 {
        seq![]
    } else {
        let rest = shown(list, f, only_pitchers, k - 1);
        if is_shown(list[k - 1], f, only_pitchers) {
            rest.push((k - 1) as usize)
        } else {
            rest
        }
    }
}

/// What players of a position are ranked by.
pub open spec fn strength(pl: Player) -> int {
    if pl.pos == 0 {
        pl.speed as int
    } else {
        pl.stats[0] as int
    }
}

/// By position, the stronger first.
pub open spec fn by_place(list: Seq<Player>) -> spec_fn(usize, usize) -> bool {
    |a: usize, b: usize|
        {
            let (x, y) = (list[a as int], list[b as int]);
            x.pos < y.pos || (x.pos == y.pos && strength(x) > strength(y))
        }
}

/// Two entries are copies of one player.
pub open spec fn copies(a: Player, b: Player) -> bool {
    a.team == b.team && a.name@ == b.name@
}

/// How many of the entries below `k` are copies of `pl`.
pub open spec fn copy_count(list: Seq<Player>, pl: Player, k: int) -> nat
    decreases k,
{
    if k <= 0 {
        0
    } else {
        copy_count(list, pl, k - 1) + if copies(list[k - 1], pl) {
            1nat
        } else {
            0nat
        }
    }
}

/// Entry `a` stands before entry `b` among copies: by address, then as listed.
pub open spec fn stands_before(list: Seq<Player>, a: int, b: int) -> bool {
    list[a].addr < list[b].addr || (list[a].addr == list[b].addr && a < b)
}

/// Entry `i` has copies and carries a growth structure.
pub open spec fn is_owner(list: Seq<Player>, m: Option<crate::process::Memory>, i: int) -> bool {
    &&& m is Some
    &&& copy_count(list, list[i], list.len() as int) > 1
    &&& crate::growth::growth_of(m->0, list[i].addr) is Some
}

/// Entry `r` can stand for entry `i`: it is a copy, and carries a growth
/// structure if any copy does.
pub open spec fn can_stand_for(
    list: Seq<Player>,
    m: Option<crate::process::Memory>,
    i: int,
    r: int,
) -> bool {
    &&& 0 <= r < list.len()
    &&& copies(list[r], list[i])
    &&& is_owner(list, m, r) || forall|j: int|
        0 <= j < list.len() && copies(#[trigger] list[j], list[i]) ==> !is_owner(list, m, j)
}

/// Entry `r` stands for entry `i`: the first of those that can.
pub open spec fn stands_for(
    list: Seq<Player>,
    m: Option<crate::process::Memory>,
    i: int,
    r: int,
) -> bool {
    &&& can_stand_for(list, m, i, r)
    &&& forall|j: int| #[trigger]
        can_stand_for(list, m, i, j) && j != r ==> stands_before(list, r, j)
}

/// Which entries are copies of each other.
pub struct Dups {
    /// For each entry, the one that stands for it.
    pub rep: Vec<usize>,
    /// For each entry, how many copies there are, itself among them.
    pub count: Vec<usize>,
    /// The entries among several copies that carry a growth structure. That is
    /// the copy that the game computes the abilities of its star player from.
    pub owner: Vec<bool>,
}

/// `d` tells the copies of a list apart.
pub open spec fn tells_apart(
    list: Seq<Player>,
    m: Option<crate::process::Memory>,
    d: Dups,
) -> bool {
    &&& d.rep@.len() == list.len()
    &&& d.count@.len() == list.len()
    &&& d.owner@.len() == list.len()
    &&& forall|i: int| #![trigger d.rep@[i]]
        0 <= i < list.len() ==> stands_for(list, m, i, d.rep@[i] as int)
    &&& forall|i: int| #![trigger d.count@[i]]
        0 <= i < list.len() ==> d.count@[i] == copy_count(list, list[i], list.len() as int)
    &&& forall|i: int| #![trigger d.owner@[i]]
        0 <= i < list.len() ==> d.owner@[i] == is_owner(list, m, i)
}

/// Whether `part` stands somewhere in `s`.
pub fn has_part(part: &str, s: &str) -> (res: bool)
    ensures
        res == is_part(part@, s@),
{
    let f = chars_of(part);
    let t = chars_of(s);
    if f.len() > t.len() {
        assert forall|i: int| !#[trigger] stands_at(part@, s@, i) by {}
        return false;
    }
    let n: usize = t.len();
    let last: usize = n - f.len();
    let mut i: usize = 0;
    loop
        invariant
            f@ == part@,
            t@ == s@,
            n == t@.len(),
            last == t@.len() - f@.len(),
            i <= last,
            forall|j: int| 0 <= j < i ==> !#[trigger] stands_at(part@, s@, j),
        decreases last - i,
    {
        let mut k: usize = 0;
        while k < f.len() && t[i + k] == f[k]
            invariant
                k <= f@.len(),
                n == t@.len(),
                i + f@.len() <= n,
                forall|j: int| 0 <= j < k ==> #[trigger] f@[j] == t@[i + j],
            decreases f@.len() - k,
        {
            k += 1;
        }
        if k == f.len() {
            assert(t@.subrange(i as int, i + f@.len()) =~= f@);
            assert(stands_at(part@, s@, i as int));
            return true;
        }
        assert(t@.subrange(i as int, i + f@.len())[k as int] != f@[k as int]);
        if i == last {
            assert forall|j: int| !#[trigger] stands_at(part@, s@, j) by {}
            return false;
        }
        i += 1;
    }
}

fn shows(pl: &Player, f: &str, only_pitchers: bool) -> (res: bool)
    ensures
        res == is_shown(*pl, f@, only_pitchers),
{
    if only_pitchers && pl.pos != 0 {
        return false;
    }
    let low = lowercase(pl.name.as_str());
    has_part(f, low.as_str())
}

/// The players to show, as they are listed. What was typed filters them, and
/// changes neither their numbers nor their order.
pub fn shown_players(list: &Vec<Player>, filter: &str, only_pitchers: bool) -> (res: Vec<usize>)
    ensures
        res@ == shown(list@, sought(filter@), only_pitchers, list@.len() as int),
{
    let f = lowercase(trim(filter));
    let mut out: Vec<usize> = Vec::new();
    let mut i: usize = 0;
    while i < list.len()
        invariant
            i <= list@.len(),
            f@ == sought(filter@),
            out@ == shown(list@, f@, only_pitchers, i as int),
        decreases list@.len() - i,
    {
        if shows(&list[i], f.as_str(), only_pitchers) {
            out.push(i);
        }
        i += 1;
    }
    out
}

/// Whether entry `a` comes before entry `b`.
fn is_before(list: &Vec<Player>, a: usize, b: usize) -> (res: bool)
    requires
        a < list@.len(),
        b < list@.len(),
    ensures
        res == by_place(list@)(a, b),
{
    let (x, y) = (&list[a], &list[b]);
    let sx: u16 = if x.pos == 0 {
        x.speed
    } else {
        x.stats[0] as u16
    };
    let sy: u16 = if y.pos == 0 {
        y.speed
    } else {
        y.stats[0] as u16
    };
    x.pos < y.pos || (x.pos == y.pos && sx > sy)
}

proof fn shown_are_entries(list: Seq<Player>, f: Seq<char>, only_pitchers: bool, k: int)
    requires
        0 <= k <= list.len() <= usize::MAX,
    ensures
        forall|j: int|
            0 <= j < shown(list, f, only_pitchers, k).len() ==> (#[trigger] shown(
                list,
                f,
                only_pitchers,
                k,
            )[j]) < k,
    decreases k,
{
    if k > 0 {
        shown_are_entries(list, f, only_pitchers, k - 1);
        let rest = shown(list, f, only_pitchers, k - 1);
        let all = shown(list, f, only_pitchers, k);
        assert forall|j: int| 0 <= j < all.len() implies (#[trigger] all[j]) < k by {
            if j < rest.len() {
                assert(all[j] == rest[j]);
            }
        }
    }
}

/// Puts the shown players in order: by position, the stronger first, and
/// otherwise as they are listed. The list itself stays as it is.
pub fn sort_shown(list: &Vec<Player>, v: &mut Vec<usize>)
    requires
        forall|j: int| 0 <= j < old(v)@.len() ==> (#[trigger] old(v)@[j]) < list@.len(),
    ensures
        final(v)@ == in_order(old(v)@, by_place(list@)),
        final(v)@.len() == old(v)@.len(),
        forall|j: int| 0 <= j < final(v)@.len() ==> (#[trigger] final(v)@[j]) < list@.len(),
{
    let ghost start = v@;
    let ghost lt = by_place(list@);
    let n: usize = v.len();
    let mut i: usize = 0;
    assert(v@ =~= in_order(start.take(0), lt) + start.skip(0));
    while i < n
        invariant
            i <= n == start.len(),
            lt == by_place(list@),
            v@ == in_order(start.take(i as int), lt) + start.skip(i as int),
            in_order(start.take(i as int), lt).len() == i,
            forall|j: int| 0 <= j < v@.len() ==> (#[trigger] v@[j]) < list@.len(),
        decreases n - i,
    {
        let ghost s = in_order(start.take(i as int), lt);
        let ghost before = v@;
        let x: usize = v[i];
        assert(start.take(i + 1).drop_last() =~= start.take(i as int));
        assert(x == start[i as int]);
        let mut j: usize = i;
        while j > 0 && is_before(list, x, v[j - 1])
            invariant
                j <= i < n == v@.len(),
                lt == by_place(list@),
                x < list@.len(),
                v@ == before,
                v@ == s + start.skip(i as int),
                s.len() == i,
                forall|k: int| 0 <= k < v@.len() ==> (#[trigger] v@[k]) < list@.len(),
                forall|k: int| j <= k < i ==> lt(x, #[trigger] s[k]),
            decreases j,
        {
            assert(s[j - 1] == v@[j - 1]);
            j -= 1;
        }
        proof {
            if j > 0 {
                assert(s[j - 1] == v@[j - 1]);
            }
            crate::order::placed_at(s, x, lt, j as int);
            s.insert_ensures(j as int, x);
        }
        let _ = v.remove(i);
        v.insert(j, x);
        assert(v@ =~= s.insert(j as int, x) + start.skip(i + 1));
        assert forall|k: int| 0 <= k < v@.len() implies (#[trigger] v@[k]) < list@.len() by {
            if k < j {
                assert(v@[k] == before[k]);
            } else if k > j && k <= i {
                assert(v@[k] == before[k - 1]);
            } else if k > i {
                assert(v@[k] == before[k]);
            }
        }
        i += 1;
    }
    assert(start.take(i as int) =~= start);
    assert(v@ =~= in_order(start, lt));
}

/// The order by place is one in which entries can tie, so that sorting by it
/// puts them in order and keeps those that tie as they were.
pub proof fn place_is_an_order(list: Seq<Player>)
    ensures
        crate::order::is_order(by_place(list)),
{
}

/// The players to show, in order.
pub fn sorted_players(list: &Vec<Player>, filter: &str, only_pitchers: bool) -> (res: Vec<usize>)
    ensures
        res@ == in_order(
            shown(list@, sought(filter@), only_pitchers, list@.len() as int),
            by_place(list@),
        ),
        forall|j: int| 0 <= j < res@.len() ==> (#[trigger] res@[j]) < list@.len(),
{
    let mut v = shown_players(list, filter, only_pitchers);
    proof {
        assert(list.len() <= usize::MAX);
        shown_are_entries(list@, sought(filter@), only_pitchers, list@.len() as int);
    }
    sort_shown(list, &mut v);
    v
}

fn are_copies(a: &Player, b: &Player) -> (res: bool)
    ensures
        res == copies(*a, *b),
{
    a.team == b.team && a.name == b.name
}

fn count_copies(list: &Vec<Player>, i: usize) -> (res: usize)
    requires
        i < list@.len(),
    ensures
        res == copy_count(list@, list@[i as int], list@.len() as int),
{
    let mut n: usize = 0;
    let mut k: usize = 0;
    while k < list.len()
        invariant
            i < list@.len(),
            n <= k <= list@.len(),
            n == copy_count(list@, list@[i as int], k as int),
        decreases list@.len() - k,
    {
        if are_copies(&list[k], &list[i]) {
            n += 1;
        }
        k += 1;
    }
    n
}

/// Whether one of the copies of entry `i` is marked.
fn any_marked(list: &Vec<Player>, mark: &Vec<bool>, i: usize) -> (res: bool)
    requires
        i < list@.len(),
        mark@.len() == list@.len(),
    ensures
        res == exists|j: int|
            0 <= j < list@.len() && copies(#[trigger] list@[j], list@[i as int]) && mark@[j],
{
    let mut k: usize = 0;
    while k < list.len()
        invariant
            i < list@.len(),
            k <= list@.len() == mark@.len(),
            forall|j: int|
                0 <= j < k ==> !(copies(#[trigger] list@[j], list@[i as int]) && mark@[j]),
        decreases list@.len() - k,
    {
        if mark[k] && are_copies(&list[k], &list[i]) {
            assert(copies(list@[k as int], list@[i as int]));
            return true;
        }
        k += 1;
    }
    false
}

/// The first copy of entry `i` by address; among the marked ones, if any is.
fn first_copy(list: &Vec<Player>, mark: &Vec<bool>, i: usize) -> (res: usize)
    requires
        i < list@.len(),
        mark@.len() == list@.len(),
    ensures
        ({
            let x = list@[i as int];
            let any = exists|j: int|
                0 <= j < list@.len() && copies(#[trigger] list@[j], x) && mark@[j];
            &&& res < list@.len()
            &&& copies(list@[res as int], x)
            &&& any ==> mark@[res as int]
            &&& forall|j: int|
                0 <= j < list@.len() && copies(#[trigger] list@[j], x) && (any ==> mark@[j]) && j
                    != res ==> stands_before(list@, res as int, j)
        }),
{
    let any = any_marked(list, mark, i);
    let ghost x = list@[i as int];
    let mut best: Option<usize> = None;
    let mut k: usize = 0;
    while k < list.len()
        invariant
            i < list@.len(),
            x == list@[i as int],
            k <= list@.len() == mark@.len(),
            match best {
                Some(b) => {
                    &&& b < k
                    &&& copies(list@[b as int], x)
                    &&& any ==> mark@[b as int]
                    &&& forall|j: int|
                        0 <= j < k && copies(#[trigger] list@[j], x) && (any ==> mark@[j]) && j != b
                            ==> stands_before(list@, b as int, j)
                },
                None => forall|j: int|
                    0 <= j < k ==> !(copies(#[trigger] list@[j], x) && (any ==> mark@[j])),
            },
        decreases list@.len() - k,
    {
        let fits: bool = (!any || mark[k]) && are_copies(&list[k], &list[i]);
        if fits {
            best = match best {
                Some(b) => if list[k].addr < list[b].addr {
                    Some(k)
                } else {
                    Some(b)
                },
                None => Some(k),
            };
        }
        k += 1;
    }
    match best {
        Some(b) => b,
        None => {
            proof {
                assert(copies(list@[i as int], x));
                if any {
                    let j = choose|j: int|
                        0 <= j < list@.len() && copies(#[trigger] list@[j], x) && mark@[j];
                    assert(copies(list@[j], x) && mark@[j]);
                }
            }
            i
        },
    }
}

/// Tells the copies of a list apart. The game keeps up to four copies of a
/// player, and only one of them counts: the one with a growth structure, or
/// else, as far as is known, the one at the lowest address.
pub fn rebuild_dups(list: &Vec<Player>, p: Option<&Proc>) -> (res: Dups)
    ensures
        tells_apart(
            list@,
            match p {
                Some(p) => Some(p@),
                None => None,
            },
            res,
        ),
{
    let ghost m = match p {
        Some(p) => Some(p@),
        None => None,
    };
    let n: usize = list.len();
    let mut count: Vec<usize> = Vec::new();
    let mut owner: Vec<bool> = Vec::new();
    let mut i: usize = 0;
    while i < n
        invariant
            i <= n == list@.len(),
            m == match p {
                Some(p) => Some(p@),
                None => None,
            },
            count@.len() == i,
            owner@.len() == i,
            forall|j: int| #![trigger count@[j]]
                0 <= j < i ==> count@[j] == copy_count(list@, list@[j], list@.len() as int),
            forall|j: int| #![trigger owner@[j]]
                0 <= j < i ==> owner@[j] == is_owner(list@, m, j),
        decreases n - i,
    {
        let c: usize = count_copies(list, i);
        let own: bool = match p {
            Some(p) => c > 1 && growth_struct_for(p, list[i].addr).is_some(),
            None => false,
        };
        count.push(c);
        owner.push(own);
        i += 1;
    }
    let mut rep: Vec<usize> = Vec::new();
    let mut k: usize = 0;
    while k < n
        invariant
            k <= n == list@.len(),
            rep@.len() == k,
            owner@.len() == n,
            forall|j: int| #![trigger owner@[j]]
                0 <= j < n ==> owner@[j] == is_owner(list@, m, j),
            forall|j: int| #![trigger rep@[j]]
                0 <= j < k ==> stands_for(list@, m, j, rep@[j] as int),
        decreases n - k,
    {
        let r: usize = first_copy(list, &owner, k);
        proof {
            first_copy_stands(list@, m, owner@, k as int, r as int);
        }
        rep.push(r);
        k += 1;
    }
    Dups { rep, count, owner }
}

proof fn first_copy_stands(
    list: Seq<Player>,
    m: Option<crate::process::Memory>,
    mark: Seq<bool>,
    i: int,
    r: int,
)
    requires
        0 <= i < list.len(),
        0 <= r < list.len(),
        mark.len() == list.len(),
        forall|j: int| #![trigger mark[j]] 0 <= j < list.len() ==> mark[j] == is_owner(list, m, j),
        copies(list[r], list[i]),
        ({
            let x = list[i];
            let any = exists|j: int|
                0 <= j < list.len() && copies(#[trigger] list[j], x) && mark[j];
            &&& any ==> mark[r]
            &&& forall|j: int|
                0 <= j < list.len() && copies(#[trigger] list[j], x) && (any ==> mark[j]) && j != r
                    ==> stands_before(list, r, j)
        }),
    ensures
        stands_for(list, m, i, r),
{
    let x = list[i];
    let any = exists|j: int| 0 <= j < list.len() && copies(#[trigger] list[j], x) && mark[j];
    if !any {
        assert forall|j: int| 0 <= j < list.len() && copies(#[trigger] list[j], x) implies !is_owner(
            list,
            m,
            j,
        ) by {
            assert(!mark[j]);
        }
    } else {
        let w = choose|j: int| 0 <= j < list.len() && copies(#[trigger] list[j], x) && mark[j];
        assert(copies(list[w], x) && is_owner(list, m, w));
        assert(mark[r]);
        assert(is_owner(list, m, r));
    }
    assert(can_stand_for(list, m, i, r));
    assert forall|j: int| #[trigger] can_stand_for(list, m, i, j) && j != r implies stands_before(
        list,
        r,
        j,
    ) by {
        assert(copies(list[j], x));
        if any {
            let w = choose|j: int| 0 <= j < list.len() && copies(#[trigger] list[j], x) && mark[j];
            assert(copies(list[w], x) && is_owner(list, m, w));
            assert(is_owner(list, m, j));
            assert(mark[j]);
        }
    }
}

/// Of the entries in `v`, those that stand for themselves.
pub fn keep_reps(d: &Dups, v: &Vec<usize>) -> (res: Vec<usize>)
    requires
        forall|j: int| 0 <= j < v@.len() ==> (#[trigger] v@[j]) < d.rep@.len(),
    ensures
        res@ == v@.filter(|i: usize| d.rep@[i as int] == i),
{
    let ghost keep = |i: usize| d.rep@[i as int] == i;
    let mut out: Vec<usize> = Vec::new();
    let mut k: usize = 0;
    assert(v@.take(0).filter(keep) =~= out@) by {
        reveal(Seq::filter);
    }
    while k < v.len()
        invariant
            k <= v@.len(),
            keep == (|i: usize| d.rep@[i as int] == i),
            forall|j: int| 0 <= j < v@.len() ==> (#[trigger] v@[j]) < d.rep@.len(),
            out@ == v@.take(k as int).filter(keep),
        decreases v@.len() - k,
    {
        proof {
            reveal(Seq::filter);
            assert(v@.take(k + 1).drop_last() =~= v@.take(k as int));
        }
        let i: usize = v[k];
        if d.rep[i] == i {
            out.push(i);
        }
        k += 1;
    }
    assert(v@.take(k as int) =~= v@);
    out
}

/// Of the entries in `v`, those of a team.
pub fn team_group(list: &Vec<Player>, v: &Vec<usize>, team: u8) -> (res: Vec<usize>)
    requires
        forall|j: int| 0 <= j < v@.len() ==> (#[trigger] v@[j]) < list@.len(),
    ensures
        res@ == v@.filter(|i: usize| list@[i as int].team == team),
{
    let ghost keep = |i: usize| list@[i as int].team == team;
    let mut out: Vec<usize> = Vec::new();
    let mut k: usize = 0;
    assert(v@.take(0).filter(keep) =~= out@) by {
        reveal(Seq::filter);
    }
    while k < v.len()
        invariant
            k <= v@.len(),
            keep == (|i: usize| list@[i as int].team == team),
            forall|j: int| 0 <= j < v@.len() ==> (#[trigger] v@[j]) < list@.len(),
            out@ == v@.take(k as int).filter(keep),
        decreases v@.len() - k,
    {
        proof {
            reveal(Seq::filter);
            assert(v@.take(k + 1).drop_last() =~= v@.take(k as int));
        }
        let i: usize = v[k];
        if list[i].team == team {
            out.push(i);
        }
        k += 1;
    }
    assert(v@.take(k as int) =~= v@);
    out
}

/// Whether a line is drawn above entry `k` of `v`: where the position changes.
pub fn starts_position(list: &Vec<Player>, v: &Vec<usize>, k: usize) -> (res: bool)
    requires
        k < v@.len(),
        forall|j: int| 0 <= j < v@.len() ==> (#[trigger] v@[j]) < list@.len(),
    ensures
        res == (k > 0 && list@[v@[k as int] as int].pos != list@[v@[k - 1] as int].pos),
{
    k > 0 && list[v[k]].pos != list[v[k - 1]].pos
}

/// The entries below `k` that are copies of `pl`.
pub open spec fn copies_below(list: Seq<Player>, pl: Player, k: int) -> Seq<usize>
    decreases k,
{
    if k <= 0 {
        seq![]
    } else {
        let rest = copies_below(list, pl, k - 1);
        if copies(list[k - 1], pl) {
            rest.push((k - 1) as usize)
        } else {
            rest
        }
    }
}

/// By address.
pub open spec fn by_addr(list: Seq<Player>) -> spec_fn(usize, usize) -> bool {
    |a: usize, b: usize| list[a as int].addr < list[b as int].addr
}

/// All copies of a player, by address.
pub fn siblings(list: &Vec<Player>, pl: &Player) -> (res: Vec<usize>)
    ensures
        res@ == in_order(copies_below(list@, *pl, list@.len() as int), by_addr(list@)),
        forall|j: int| 0 <= j < res@.len() ==> (#[trigger] res@[j]) < list@.len(),
{
    let ghost lt = by_addr(list@);
    let mut v: Vec<usize> = Vec::new();
    let mut i: usize = 0;
    while i < list.len()
        invariant
            i <= list@.len(),
            lt == by_addr(list@),
            v@ == in_order(copies_below(list@, *pl, i as int), lt),
            forall|j: int| 0 <= j < v@.len() ==> (#[trigger] v@[j]) < list@.len(),
        decreases list@.len() - i,
    {
        if are_copies(&list[i], pl) {
            let ghost s = v@;
            let ghost all = copies_below(list@, *pl, i + 1);
            assert(all.drop_last() =~= copies_below(list@, *pl, i as int));
            let mut j: usize = v.len();
            while j > 0 && list[i].addr < list[v[j - 1]].addr
                invariant
                    j <= v@.len(),
                    i < list@.len(),
                    v@ == s,
                    lt == by_addr(list@),
                    forall|k: int| 0 <= k < v@.len() ==> (#[trigger] v@[k]) < list@.len(),
                    forall|k: int| j <= k < v@.len() ==> lt(i, #[trigger] s[k]),
                decreases j,
            {
                j -= 1;
            }
            proof {
                crate::order::placed_at(s, i, lt, j as int);
                s.insert_ensures(j as int, i);
            }
            v.insert(j, i);
            assert forall|k: int| 0 <= k < v@.len() implies (#[trigger] v@[k]) < list@.len() by {
                if k < j {
                    assert(v@[k] == s[k]);
                } else if k > j {
                    assert(v@[k] == s[k - 1]);
                }
            }
        }
        i += 1;
    }
    v
}

/// Which of the copies is chosen.
pub fn copy_index(sibs: &Vec<usize>, sel: Option<usize>) -> (res: usize)
    ensures
        if sel is Some && sibs@.contains(sel->0) {
            &&& res < sibs@.len()
            &&& sibs@[res as int] == sel->0
            &&& forall|j: int| 0 <= j < res ==> sibs@[j] != sel->0
        } else {
            res == 0
        },
{
    let x: usize = match sel {
        Some(x) => x,
        None => {
            return 0;
        },
    };
    let mut k: usize = 0;
    while k < sibs.len()
        invariant
            k <= sibs@.len(),
            sel == Some(x),
            forall|j: int| 0 <= j < k ==> sibs@[j] != x,
        decreases sibs@.len() - k,
    {
        if sibs[k] == x {
            assert(sibs@.contains(x));
            return k;
        }
        k += 1;
    }
    assert(!sibs@.contains(x));
    0
}

/// The place after `k` of `n`, going round.
pub open spec fn place_after(k: int, n: int) -> int {
    if k + 1 == n {
        0
    } else {
        k + 1
    }
}

/// The place before `k` of `n`, going round.
pub open spec fn place_before(k: int, n: int) -> int {
    if k == 0 {
        n - 1
    } else {
        k - 1
    }
}

/// The copy after place `k`, going round.
pub fn next_copy(sibs: &Vec<usize>, k: usize) -> (res: usize)
    requires
        k < sibs@.len(),
    ensures
        res == sibs@[place_after(k as int, sibs@.len() as int)],
{
    if k == sibs.len() - 1 {
        sibs[0]
    } else {
        sibs[k + 1]
    }
}

/// The copy before place `k`, going round.
pub fn previous_copy(sibs: &Vec<usize>, k: usize) -> (res: usize)
    requires
        k < sibs@.len(),
    ensures
        res == sibs@[place_before(k as int, sibs@.len() as int)],
{
    if k == 0 {
        sibs[sibs.len() - 1]
    } else {
        sibs[k - 1]
    }
}

/// Copies have the same entry to stand for them, and that entry stands for
/// itself: of each player just one copy is kept.
pub proof fn one_stands_for_all(
    list: Seq<Player>,
    m: Option<crate::process::Memory>,
    d: Dups,
    i: int,
    j: int,
)
    requires
        tells_apart(list, m, d),
        0 <= i < list.len(),
        0 <= j < list.len(),
    ensures
        copies(list[i], list[j]) == (d.rep@[i] == d.rep@[j]),
        d.rep@[d.rep@[i] as int] == d.rep@[i],
{
    let (r, s) = (d.rep@[i] as int, d.rep@[j] as int);
    assert(stands_for(list, m, i, r));
    assert(stands_for(list, m, j, s));
    if copies(list[i], list[j]) {
        same_standing(list, m, i, j, s);
        same_standing(list, m, j, i, r);
        if r != s {
            assert(stands_before(list, r, s));
            assert(stands_before(list, s, r));
        }
    }
    let t = d.rep@[r] as int;
    assert(stands_for(list, m, r, t));
    same_standing(list, m, i, r, t);
    same_standing(list, m, r, i, r);
    if t != r {
        assert(stands_before(list, r, t));
        assert(stands_before(list, t, r));
    }
}

proof fn same_standing(
    list: Seq<Player>,
    m: Option<crate::process::Memory>,
    i: int,
    j: int,
    r: int,
)
    requires
        0 <= i < list.len(),
        0 <= j < list.len(),
        copies(list[i], list[j]),
    ensures
        can_stand_for(list, m, i, r) == can_stand_for(list, m, j, r),
{
}

/// Going to the next copy and back again ends where it began.
pub proof fn copies_go_round(k: int, n: int)
    requires
        0 <= k < n,
    ensures
        0 <= place_after(k, n) < n,
        0 <= place_before(k, n) < n,
        place_before(place_after(k, n), n) == k,
        place_after(place_before(k, n), n) == k,
{
}

} // verus!

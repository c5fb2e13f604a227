//! The library of original pitches.

use vstd::prelude::*;
use vstd::string::*;

use crate::offsets::{N_BALL, REC};
use crate::order::text_before;
use crate::player::{OrigRec, Player};
use crate::text::chars_of;

verus! {

/// An original pitch of the library.
#[derive(Clone, Debug)]
pub struct LibEntry {
    pub name: String,
    /// The slot in which the pitch was found.
    pub slot: u64,
    /// The direction that the pitch belongs to.
    pub dir: u64,
    /// The pitch that it is based on.
    pub base: u8,
    pub kind: String,
    /// The player on whom the pitch was found.
    pub holder: String,
    /// The bytes of its record.
    pub raw: Vec<u8>,
}

/// What an entry of the library says.
#[verifier::ext_equal]
pub ghost struct Entry {
    pub name: Seq<char>,
    pub slot: u64,
    pub dir: u64,
    pub base: u8,
    pub kind: Seq<char>,
    pub holder: Seq<char>,
    pub raw: Seq<u8>,
}

impl View for LibEntry {
    type V = Entry;

    open spec fn view(&self) -> Entry {
        Entry {
            name: self.name@,
            slot: self.slot,
            dir: self.dir,
            base: self.base,
            kind: self.kind@,
            holder: self.holder@,
            raw: self.raw@,
        }
    }
}

/// What the entries of a library say.
pub open spec fn views(lib: Seq<LibEntry>) -> Seq<Entry> {
    lib.map_values(|e: LibEntry| e@)
}

/// The order of the library: by direction, then by name.
pub open spec fn entry_lt() -> spec_fn(Entry, Entry) -> bool {
    |a: Entry, b: Entry| a.dir < b.dir || (a.dir == b.dir && crate::order::text_lt(a.name, b.name))
}

/// Entries in the order of the library.
pub open spec fn by_place(s: Seq<Entry>) -> Seq<Entry> {
    crate::order::in_order(s, entry_lt())
}

/// An entry of that name is there.
pub open spec fn has_name(s: Seq<Entry>, name: Seq<char>) -> bool {
    exists|i: int| 0 <= i < s.len() && (#[trigger] s[i]).name == name
}

/// The record is in use, whole, and has a name that could be read.
pub open spec fn is_usable(r: OrigRec) -> bool {
    &&& r.slot < N_BALL
    &&& r.raw@.len() == REC
    &&& r.name@.len() > 0
    &&& !r.name@.contains('\u{FFFD}')
}

/// The entry that a record of a player makes.
pub open spec fn entry_of(r: OrigRec, holder: Seq<char>) -> Entry {
    Entry {
        name: r.name@,
        slot: r.slot as u64,
        dir: (r.slot % 6) as u64,
        base: r.base,
        kind: if r.official {
            "官方"@
        } else {
            "自訂"@
        },
        holder,
        raw: r.raw@,
    }
}

/// The library with a record added, if it is usable and its name is new.
pub open spec fn with_rec(s: Seq<Entry>, r: OrigRec, holder: Seq<char>) -> Seq<Entry> {
    if is_usable(r) && !has_name(s, r.name@) {
        s.push(entry_of(r, holder))
    } else {
        s
    }
}

/// The library with the first `k` records of a player added.
pub open spec fn with_recs(s: Seq<Entry>, pl: Player, k: int) -> Seq<Entry>
    decreases k,
{
    if k <= 0 {
        s
    } else {
        with_rec(with_recs(s, pl, k - 1), pl.recs@[k - 1], pl.name@)
    }
}

/// The library with the records of the first `k` players added.
pub open spec fn with_players(s: Seq<Entry>, players: Seq<Player>, k: int) -> Seq<Entry>
    decreases k,
{
    if k <= 0 {
        s
    } else {
        let pl = players[k - 1];
        with_recs(with_players(s, players, k - 1), pl, pl.recs@.len() as int)
    }
}

/// The library after a merge: sorted anew if anything was added.
pub open spec fn merged(s: Seq<Entry>, players: Seq<Player>) -> Seq<Entry> {
    let all = with_players(s, players, players.len() as int);
    if all.len() > s.len() {
        by_place(all)
    } else {
        s
    }
}

fn name_is_new(lib: &Vec<LibEntry>, name: &String) -> (res: bool)
    ensures
        res == !has_name(views(lib@), name@),
{
    let mut i: usize = 0;
    while i < lib.len()
        invariant
            i <= lib@.len(),
            forall|j: int| 0 <= j < i ==> (#[trigger] views(lib@)[j]).name != name@,
        decreases lib@.len() - i,
    {
        if lib[i].name == *name {
            assert(views(lib@)[i as int].name == name@);
            return false;
        }
        i += 1;
    }
    true
}

fn rec_is_usable(r: &OrigRec) -> (res: bool)
    ensures
        res == is_usable(*r),
{
    if r.slot as usize >= N_BALL || r.raw.len() != REC || r.name.as_str().is_empty() {
        return false;
    }
    let c = chars_of(r.name.as_str());
    let mut i: usize = 0;
    while i < c.len()
        invariant
            i <= c@.len(),
            c@ == r.name@,
            forall|j: int| 0 <= j < i ==> c@[j] != '\u{FFFD}',
        decreases c@.len() - i,
    {
        if c[i] == '\u{FFFD}' {
            assert(c@[i as int] == '\u{FFFD}');
            return false;
        }
        i += 1;
    }
    true
}

fn copy_bytes(b: &Vec<u8>) -> (res: Vec<u8>)
    ensures
        res@ == b@,
{
    let res = vstd::slice::slice_to_vec(b.as_slice());
    assert(res@ =~= b@);
    res
}

/// Whether entry `a` comes before entry `b`.
fn entry_before(a: &LibEntry, b: &LibEntry) -> (res: bool)
    ensures
        res == entry_lt()(a@, b@),
{
    a.dir < b.dir || (a.dir == b.dir && text_before(a.name.as_str(), b.name.as_str()))
}

/// Puts the entries in the order of the library.
pub fn sort_lib(v: &mut Vec<LibEntry>)
    ensures
        views(final(v)@) == by_place(views(old(v)@)),
{
    let ghost start = views(v@);
    let ghost lt = entry_lt();
    let n: usize = v.len();
    let mut i: usize = 0;
    assert(start.take(0) =~= Seq::empty());
    assert(views(v@) =~= by_place(start.take(0)) + start.skip(0));
    while i < n
        invariant
            i <= n == start.len() == v@.len(),
            lt == entry_lt(),
            views(v@) == by_place(start.take(i as int)) + start.skip(i as int),
            by_place(start.take(i as int)).len() == i,
        decreases n - i,
    {
        let ghost s = by_place(start.take(i as int));
        let ghost x = start[i as int];
        assert(start.take(i + 1).drop_last() =~= start.take(i as int));
        assert(views(v@)[i as int] == x);
        let mut j: usize = i;
        while j > 0 && entry_before(&v[i], &v[j - 1])
            invariant
                j <= i < n == v@.len(),
                lt == entry_lt(),
                views(v@) == s + start.skip(i as int),
                s.len() == i,
                views(v@)[i as int] == x,
                forall|k: int| j <= k < i ==> lt(x, #[trigger] s[k]),
            decreases j,
        {
            assert(s[j - 1] == views(v@)[j - 1]);
            j -= 1;
        }
        proof {
            if j > 0 {
                assert(s[j - 1] == views(v@)[j - 1]);
            }
            crate::order::placed_at(s, x, lt, j as int);
            s.insert_ensures(j as int, x);
        }
        let ghost before = views(v@);
        let e = v.remove(i);
        v.insert(j, e);
        assert(views(v@) =~= before.remove(i as int).insert(j as int, x));
        assert(views(v@) =~= s.insert(j as int, x) + start.skip(i + 1));
        i += 1;
    }
    assert(start.take(i as int) =~= start);
    assert(views(v@) =~= by_place(start));
}

/// The records of a player only add to what is there.
pub proof fn recs_only_add(s: Seq<Entry>, pl: Player, k: int)
    ensures
        s.is_prefix_of(with_recs(s, pl, k)),
    decreases k,
{
    if k > 0 {
        recs_only_add(s, pl, k - 1);
        let a = with_recs(s, pl, k - 1);
        let b = with_recs(s, pl, k);
        assert(s =~= b.take(s.len() as int)) by {
            assert(s =~= a.take(s.len() as int));
        }
    } else {
        assert(s =~= s.take(s.len() as int));
    }
}

/// A merge only adds to what is there.
pub proof fn players_only_add(s: Seq<Entry>, players: Seq<Player>, k: int)
    ensures
        s.is_prefix_of(with_players(s, players, k)),
    decreases k,
{
    if k > 0 {
        players_only_add(s, players, k - 1);
        let a = with_players(s, players, k - 1);
        let pl = players[k - 1];
        recs_only_add(a, pl, pl.recs@.len() as int);
        let b = with_players(s, players, k);
        assert(s =~= b.take(s.len() as int)) by {
            assert(s =~= a.take(s.len() as int));
            assert(a =~= b.take(a.len() as int));
        }
    } else {
        assert(s =~= s.take(s.len() as int));
    }
}

/// Adds the original pitches of a player behind the library, each name once.
fn add_recs(lib: &mut Vec<LibEntry>, pl: &Player)
    ensures
        views(final(lib)@) == with_recs(views(old(lib)@), *pl, pl.recs@.len() as int),
{
    let ghost here = views(lib@);
    let mut k: usize = 0;
    while k < pl.recs.len()
        invariant
            k <= pl.recs@.len(),
            views(lib@) == with_recs(here, *pl, k as int),
        decreases pl.recs@.len() - k,
    {
        let r = &pl.recs[k];
        if rec_is_usable(r) && name_is_new(lib, &r.name) {
            let kind = if r.official {
                "官方".to_owned()
            } else {
                "自訂".to_owned()
            };
            let ghost before = lib@;
            let e = LibEntry {
                name: r.name.clone(),
                slot: r.slot as u64,
                dir: (r.slot % 6) as u64,
                base: r.base,
                kind,
                holder: pl.name.clone(),
                raw: copy_bytes(&r.raw),
            };
            assert(e@ =~= entry_of(*r, pl.name@));
            lib.push(e);
            assert(views(lib@) =~= views(before).push(entry_of(*r, pl.name@)));
        }
        k += 1;
    }
}

/// Sorts the library anew if it has grown beyond `n` entries, and says by how
/// many.
fn settle(lib: &mut Vec<LibEntry>, n: usize) -> (res: usize)
    requires
        n <= old(lib)@.len(),
    ensures
        res == old(lib)@.len() - n,
        final(lib)@.len() == old(lib)@.len(),
        views(final(lib)@) == if old(lib)@.len() > n {
            by_place(views(old(lib)@))
        } else {
            views(old(lib)@)
        },
{
    let ghost all = views(lib@);
    let added: usize = lib.len() - n;
    if added > 0 {
        sort_lib(lib);
        proof {
            entry_order();
            crate::order::sorting_orders(all, entry_lt());
            assert(views(lib@).len() == lib@.len());
        }
    }
    added
}

/// Adds the original pitches of some players to the library, each name once,
/// and says how many were added.
pub fn merge_recs_into_lib(lib: &mut Vec<LibEntry>, players: &[Player]) -> (res: usize)
    ensures
        views(final(lib)@) == merged(views(old(lib)@), players@),
        res == final(lib)@.len() - old(lib)@.len(),
        res == with_players(views(old(lib)@), players@, players@.len() as int).len() - old(
            lib,
        )@.len(),
{
    let ghost start = views(lib@);
    let n: usize = lib.len();
    let mut i: usize = 0;
    while i < players.len()
        invariant
            i <= players@.len(),
            views(lib@) == with_players(start, players@, i as int),
        decreases players@.len() - i,
    {
        add_recs(lib, &players[i]);
        i += 1;
    }
    let ghost all = views(lib@);
    proof {
        players_only_add(start, players@, i as int);
        assert(all.len() == start.len() ==> all =~= start);
        assert(all.len() == lib@.len());
    }
    settle(lib, n)
}

/// Adds the original pitches of one player to the library.
pub fn merge_player_into_lib(lib: &mut Vec<LibEntry>, pl: &Player) -> (res: usize)
    ensures
        views(final(lib)@) == merged(views(old(lib)@), seq![*pl]),
        res == final(lib)@.len() - old(lib)@.len(),
{
    let ghost start = views(lib@);
    let n: usize = lib.len();
    add_recs(lib, pl);
    let ghost all = views(lib@);
    proof {
        assert(with_players(start, seq![*pl], 0) == start);
        assert(all == with_players(start, seq![*pl], 1));
        players_only_add(start, seq![*pl], 1);
        assert(all.len() == start.len() ==> all =~= start);
        assert(all.len() == lib@.len());
    }
    settle(lib, n)
}

/// The order of the library is one in which entries of one direction and one
/// name tie.
pub proof fn entry_order()
    ensures
        crate::order::is_order(entry_lt()),
{
    let lt = entry_lt();
    assert forall|a: Entry, b: Entry| #![trigger lt(a, b)] lt(a, b) implies !lt(b, a) by {
        crate::order::text_order(a.name, b.name, b.name);
    }
    assert forall|a: Entry, b: Entry, c: Entry|
        #![trigger lt(a, b), lt(b, c)]
        !lt(a, b) && !lt(b, c) implies !lt(a, c) by {
        crate::order::text_order(a.name, b.name, c.name);
    }
}

} // verus!

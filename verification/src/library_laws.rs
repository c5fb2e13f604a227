//! What holds of the library of original pitches: nothing is lost or doubled
//! by a merge, and a file gives back what was saved in it.

use vstd::prelude::*;

use crate::digits::{digit, digit_value, hex_low, numeral, value_of};
use crate::json::{entry, parsed, Json};
use crate::library::{
    by_place, entry_lt, entry_of, entry_order, has_name, is_usable, merged, with_players, with_rec,
    with_recs, Entry,
};
use crate::library_file::{
    cuts_well, entries_in, entry_in, entry_table, hex_of, lib_in, lib_json, or_empty, pair_value,
    raw_of, row_in, rows_cut_well, rows_in, unhex, RowView,
};
use crate::offsets::REC;
use crate::player::{OrigRec, Player};

verus! {

/// No two entries have the same name.
pub open spec fn names_differ(s: Seq<Entry>) -> bool {
    forall|i: int, j: int|
        0 <= i < j < s.len() ==> (#[trigger] s[i]).name != (#[trigger] s[j]).name
}

proof fn recs_keep_names_apart(s: Seq<Entry>, pl: Player, k: int)
    requires
        names_differ(s),
    ensures
        names_differ(with_recs(s, pl, k)),
    decreases k,
{
    if k > 0 {
        recs_keep_names_apart(s, pl, k - 1);
    }
}

proof fn players_keep_names_apart(s: Seq<Entry>, players: Seq<Player>, k: int)
    requires
        names_differ(s),
    ensures
        names_differ(with_players(s, players, k)),
    decreases k,
{
    if k > 0 {
        players_keep_names_apart(s, players, k - 1);
        let pl = players[k - 1];
        recs_keep_names_apart(with_players(s, players, k - 1), pl, pl.recs@.len() as int);
    }
}

proof fn names_as_multiset(s: Seq<Entry>, t: Seq<Entry>)
    requires
        names_differ(s),
        s.to_multiset() == t.to_multiset(),
        s.len() == t.len(),
    ensures
        names_differ(t),
{
    broadcast use vstd::seq_lib::group_to_multiset_ensures;

    assert forall|i: int, j: int| 0 <= i < j < t.len() implies (#[trigger] t[i]).name != (
    #[trigger] t[j]).name by {
        if t[i].name == t[j].name {
            assert(t.to_multiset().count(t[i]) > 0) by {
                assert(t.contains(t[i]));
            }
            assert(t.to_multiset().count(t[j]) > 0) by {
                assert(t.contains(t[j]));
            }
            assert(s.contains(t[i]) && s.contains(t[j]));
            let a = choose|a: int| 0 <= a < s.len() && s[a] == t[i];
            let b = choose|b: int| 0 <= b < s.len() && s[b] == t[j];
            if a < b {
                assert(s[a].name != s[b].name);
            } else if b < a {
                assert(s[b].name != s[a].name);
            }
            assert(t[i] == t[j]);
            single_in(s, a);
            twice_in(t, i, j);
        }
    }
}

proof fn single_in(s: Seq<Entry>, a: int)
    requires
        names_differ(s),
        0 <= a < s.len(),
    ensures
        s.to_multiset().count(s[a]) <= 1,
    decreases s.len(),
{
    broadcast use vstd::seq_lib::group_to_multiset_ensures;

    let d = s.drop_last();
    assert(s =~= d.push(s.last()));
    assert(forall|i: int| 0 <= i < d.len() ==> d[i] == s[i]);
    assert(names_differ(d)) by {
        assert forall|i: int, j: int| 0 <= i < j < d.len() implies (#[trigger] d[i]).name != (
        #[trigger] d[j]).name by {
            assert(s[i].name != s[j].name);
        }
    }
    if a < s.len() - 1 {
        single_in(d, a);
        assert(s[a].name != s[s.len() - 1].name);
    } else {
        if d.contains(s[a]) {
            let k = choose|k: int| 0 <= k < d.len() && d[k] == s[a];
            assert(s[k].name != s[s.len() - 1].name);
        }
        assert(d.to_multiset().count(s[a]) == 0);
    }
}

proof fn twice_in(t: Seq<Entry>, i: int, j: int)
    requires
        0 <= i < j < t.len(),
        t[i] == t[j],
    ensures
        t.to_multiset().count(t[i]) >= 2,
    decreases t.len(),
{
    broadcast use vstd::seq_lib::group_to_multiset_ensures;

    let d = t.drop_last();
    assert(t =~= d.push(t.last()));
    if j < t.len() - 1 {
        assert(d[i] == t[i] && d[j] == t[j]);
        twice_in(d, i, j);
    } else {
        assert(d[i] == t[i]);
        assert(d.contains(t[i]));
        assert(d.to_multiset().count(t[i]) >= 1);
    }
}

/// A merge gives no name twice.
pub proof fn merge_keeps_names_apart(s: Seq<Entry>, players: Seq<Player>)
    requires
        names_differ(s),
    ensures
        names_differ(merged(s, players)),
{
    let all = with_players(s, players, players.len() as int);
    players_keep_names_apart(s, players, players.len() as int);
    entry_order();
    crate::order::sorting_orders(all, entry_lt());
    names_as_multiset(all, by_place(all));
}

proof fn recs_add_names(s: Seq<Entry>, pl: Player, k: int, name: Seq<char>)
    ensures
        has_name(s, name) ==> has_name(with_recs(s, pl, k), name),
        forall|i: int|
            0 <= i < k && is_usable(#[trigger] pl.recs@[i]) ==> has_name(
                with_recs(s, pl, k),
                pl.recs@[i].name@,
            ),
    decreases k,
{
    if k > 0 {
        recs_add_names(s, pl, k - 1, name);
        let a = with_recs(s, pl, k - 1);
        let b = with_recs(s, pl, k);
        let r = pl.recs@[k - 1];
        step_keeps_names(a, r, pl.name@, name);
        assert forall|i: int| 0 <= i < k && is_usable(#[trigger] pl.recs@[i]) implies has_name(
            b,
            pl.recs@[i].name@,
        ) by {
            if i < k - 1 {
                step_keeps_names(a, r, pl.name@, pl.recs@[i].name@);
            } else {
                step_adds_its_name(a, r, pl.name@);
            }
        }
    }
}

proof fn step_keeps_names(s: Seq<Entry>, r: OrigRec, holder: Seq<char>, name: Seq<char>)
    ensures
        has_name(s, name) ==> has_name(with_rec(s, r, holder), name),
{
    if has_name(s, name) {
        let i = choose|i: int| 0 <= i < s.len() && (#[trigger] s[i]).name == name;
        assert(with_rec(s, r, holder)[i].name == name);
    }
}

proof fn step_adds_its_name(s: Seq<Entry>, r: OrigRec, holder: Seq<char>)
    requires
        is_usable(r),
    ensures
        has_name(with_rec(s, r, holder), r.name@),
{
    let t = with_rec(s, r, holder);
    if !has_name(s, r.name@) {
        assert(t[t.len() - 1].name == r.name@);
    }
}

proof fn players_add_names(s: Seq<Entry>, players: Seq<Player>, k: int, name: Seq<char>)
    ensures
        has_name(s, name) ==> has_name(with_players(s, players, k), name),
        forall|p: int, i: int|
            0 <= p < k && 0 <= i < players[p].recs@.len() && is_usable(
                #[trigger] players[p].recs@[i],
            ) ==> has_name(with_players(s, players, k), players[p].recs@[i].name@),
    decreases k,
{
    if k > 0 {
        let a = with_players(s, players, k - 1);
        let pl = players[k - 1];
        let n = pl.recs@.len() as int;
        players_add_names(s, players, k - 1, name);
        recs_add_names(a, pl, n, name);
        assert forall|p: int, i: int|
            0 <= p < k && 0 <= i < players[p].recs@.len() && is_usable(
                #[trigger] players[p].recs@[i],
            ) implies has_name(with_players(s, players, k), players[p].recs@[i].name@) by {
            if p < k - 1 {
                recs_add_names(a, pl, n, players[p].recs@[i].name@);
            } else {
                assert(is_usable(pl.recs@[i]));
            }
        }
    }
}

proof fn names_survive_sorting(s: Seq<Entry>, name: Seq<char>)
    requires
        has_name(s, name),
    ensures
        has_name(by_place(s), name),
{
    broadcast use vstd::seq_lib::group_to_multiset_ensures;

    entry_order();
    crate::order::sorting_orders(s, entry_lt());
    let i = choose|i: int| 0 <= i < s.len() && (#[trigger] s[i]).name == name;
    let t = by_place(s);
    assert(s.contains(s[i]));
    assert(s.to_multiset().count(s[i]) > 0);
    assert(t.to_multiset().count(s[i]) > 0);
    assert(t.contains(s[i]));
    let k = choose|k: int| 0 <= k < t.len() && t[k] == s[i];
    assert(t[k].name == name);
}

/// After a merge every name that was there is there, and so is the name of
/// every usable record of the players.
pub proof fn merge_has_every_name(
    s: Seq<Entry>,
    players: Seq<Player>,
    name: Seq<char>,
    p: int,
    i: int,
)
    requires
        0 <= p < players.len(),
        0 <= i < players[p].recs@.len(),
    ensures
        has_name(s, name) ==> has_name(merged(s, players), name),
        is_usable(players[p].recs@[i]) ==> has_name(
            merged(s, players),
            players[p].recs@[i].name@,
        ),
{
    let n = players.len() as int;
    let all = with_players(s, players, n);
    let r = players[p].recs@[i];
    players_add_names(s, players, n, name);
    if all.len() > s.len() {
        if has_name(s, name) {
            names_survive_sorting(all, name);
        }
        if is_usable(r) {
            names_survive_sorting(all, r.name@);
        }
    } else {
        crate::library::players_only_add(s, players, n);
        assert(all =~= s);
    }
}

/// An entry that the first `k` records of a player added comes from one of them,
/// the first of its name.
proof fn recs_are_the_source(s: Seq<Entry>, pl: Player, k: int, j: int) -> (i: int)
    requires
        0 <= k <= pl.recs@.len(),
        s.len() <= j < with_recs(s, pl, k).len(),
    ensures
        0 <= i < k,
        is_usable(pl.recs@[i]),
        with_recs(s, pl, k)[j] == entry_of(pl.recs@[i], pl.name@),
        !has_name(s, pl.recs@[i].name@),
        forall|x: int|
            0 <= x < i && is_usable(#[trigger] pl.recs@[x]) ==> pl.recs@[x].name@
                != pl.recs@[i].name@,
    decreases k,
{
    let a = with_recs(s, pl, k - 1);
    if j < a.len() {
        recs_are_the_source(s, pl, k - 1, j)
    } else {
        let r = pl.recs@[k - 1];
        recs_add_names(s, pl, k - 1, r.name@);
        k - 1
    }
}

proof fn players_are_the_source(s: Seq<Entry>, players: Seq<Player>, k: int, j: int) -> (res: (
    int,
    int,
))
    requires
        0 <= k <= players.len(),
        s.len() <= j < with_players(s, players, k).len(),
    ensures
        0 <= res.0 < k,
        0 <= res.1 < players[res.0].recs@.len(),
        is_usable(players[res.0].recs@[res.1]),
        with_players(s, players, k)[j] == entry_of(
            players[res.0].recs@[res.1],
            players[res.0].name@,
        ),
        !has_name(s, players[res.0].recs@[res.1].name@),
        forall|q: int, x: int|
            0 <= q <= res.0 && 0 <= x < players[q].recs@.len() && (q < res.0 || x < res.1)
                && is_usable(#[trigger] players[q].recs@[x]) ==> players[q].recs@[x].name@
                != players[res.0].recs@[res.1].name@,
    decreases k,
{
    let a = with_players(s, players, k - 1);
    let pl = players[k - 1];
    let n = pl.recs@.len() as int;
    if j < a.len() {
        assert(with_players(s, players, k)[j] == a[j]) by {
            crate::library::recs_only_add(a, pl, n);
            let b = with_players(s, players, k);
            assert(a =~= b.take(a.len() as int));
            assert(b.take(a.len() as int)[j] == b[j]);
        }
        players_are_the_source(s, players, k - 1, j)
    } else {
        let i = recs_are_the_source(a, pl, n, j);
        players_add_names(s, players, k - 1, pl.recs@[i].name@);
        (k - 1, i)
    }
}

/// Sorting the library loses no entry and adds none.
proof fn sorting_keeps_entries(s: Seq<Entry>, e: Entry)
    ensures
        by_place(s).contains(e) == s.contains(e),
        by_place(s).len() == s.len(),
{
    broadcast use vstd::seq_lib::group_to_multiset_ensures;

    entry_order();
    crate::order::sorting_orders(s, entry_lt());
    assert(s.to_multiset().count(e) > 0 <==> s.contains(e));
    assert(by_place(s).to_multiset().count(e) > 0 <==> by_place(s).contains(e));
}

/// An entry that a merge adds says what a record of one of the players says: its
/// name, its slot, its base, its bytes, and whose it is. The record is in use,
/// whole and has a name that could be read and that was not there, and no such
/// record before it has that name.
pub proof fn new_entries_come_from_records(s: Seq<Entry>, players: Seq<Player>, e: Entry) -> (res: (
    int,
    int,
))
    requires
        merged(s, players).contains(e),
        !s.contains(e),
    ensures
        ({
            let (p, i) = res;
            let pl = players[p];
            let r = pl.recs@[i];
            &&& 0 <= p < players.len()
            &&& 0 <= i < pl.recs@.len()
            &&& r.slot < 12 && r.raw@.len() == REC && r.name@.len() > 0 && !r.name@.contains(
                '\u{FFFD}',
            )
            &&& forall|j: int| 0 <= j < s.len() ==> (#[trigger] s[j]).name != r.name@
            &&& forall|q: int, x: int|
                0 <= q <= p && 0 <= x < players[q].recs@.len() && (q < p || x < i) ==> {
                    let o = #[trigger] players[q].recs@[x];
                    o.slot < 12 && o.raw@.len() == REC && !o.name@.contains('\u{FFFD}') ==> o.name@
                        != r.name@
                }
            &&& e.name == r.name@
            &&& e.slot == r.slot
            &&& e.dir == r.slot % 6
            &&& e.base == r.base
            &&& e.raw == r.raw@
            &&& e.holder == pl.name@
            &&& e.kind == if r.official {
                "官方"@
            } else {
                "自訂"@
            }
        }),
{
    let n = players.len() as int;
    let all = with_players(s, players, n);
    crate::library::players_only_add(s, players, n);
    sorting_keeps_entries(all, e);
    assert(all.len() == s.len() ==> all =~= s);
    let j = choose|j: int| 0 <= j < all.len() && all[j] == e;
    assert(all.take(s.len() as int) =~= s);
    if j < s.len() {
        assert(s[j] == e);
    }
    let (p, i) = players_are_the_source(s, players, n, j);
    assert forall|q: int, x: int|
        0 <= q <= p && 0 <= x < players[q].recs@.len() && (q < p || x < i) implies {
        let o = #[trigger] players[q].recs@[x];
        o.slot < 12 && o.raw@.len() == REC && !o.name@.contains('\u{FFFD}') ==> o.name@
            != players[p].recs@[i].name@
    } by {
        assert(is_usable(players[q].recs@[x]) ==> players[q].recs@[x].name@
            != players[p].recs@[i].name@);
    }
    (p, i)
}

/// A merge keeps every entry. It takes in every record that is in use, whole
/// and has a name that could be read, unless an entry of that name is there. If
/// anything was added, the entries stand in order of direction, and within one
/// direction in order of name.
pub proof fn merge_collects_every_record(
    s: Seq<Entry>,
    players: Seq<Player>,
    e: Entry,
    p: int,
    i: int,
)
    requires
        0 <= p < players.len(),
        0 <= i < players[p].recs@.len(),
    ensures
        s.contains(e) ==> merged(s, players).contains(e),
        merged(s, players).len() >= s.len(),
        ({
            let r = players[p].recs@[i];
            r.slot < 12 && r.raw@.len() == REC && r.name@.len() > 0 && !r.name@.contains('\u{FFFD}')
                ==> exists|j: int|
                0 <= j < merged(s, players).len() && (#[trigger] merged(s, players)[j]).name
                    == r.name@
        }),
        merged(s, players).len() > s.len() ==> forall|x: int, y: int|
            0 <= x < y < merged(s, players).len() ==> {
                let (a, b) = (#[trigger] merged(s, players)[x], #[trigger] merged(s, players)[y]);
                a.dir < b.dir || (a.dir == b.dir && !crate::order::text_lt(b.name, a.name))
            },
{
    let n = players.len() as int;
    let all = with_players(s, players, n);
    let r = players[p].recs@[i];
    merge_has_every_name(s, players, r.name@, p, i);
    crate::library::players_only_add(s, players, n);
    sorting_keeps_entries(all, e);
    assert(all.take(s.len() as int) =~= s);
    if s.contains(e) {
        let j = choose|j: int| 0 <= j < s.len() && s[j] == e;
        assert(all.take(s.len() as int)[j] == all[j]);
        assert(all.contains(e));
    }
    entry_order();
    let lt = entry_lt();
    crate::order::sorting_orders(all, lt);
    let t = merged(s, players);
    if t.len() > s.len() {
        assert forall|x: int, y: int| 0 <= x < y < t.len() implies {
            let (a, b) = (#[trigger] t[x], #[trigger] t[y]);
            a.dir < b.dir || (a.dir == b.dir && !crate::order::text_lt(b.name, a.name))
        } by {
            assert(!lt(t[y], t[x]));
        }
    }
}

/// A merge that has nothing new to take in leaves the library as it is, order
/// and all.
pub proof fn merge_of_known_names_changes_nothing(s: Seq<Entry>, players: Seq<Player>)
    requires
        forall|p: int, i: int|
            0 <= p < players.len() && 0 <= i < players[p].recs@.len() ==> exists|j: int|
                0 <= j < s.len() && (#[trigger] s[j]).name == (
                #[trigger] players[p].recs@[i]).name@,
    ensures
        merged(s, players) == s,
{
    assert forall|p: int, i: int|
        0 <= p < players.len() && 0 <= i < players[p].recs@.len() && is_usable(
            #[trigger] players[p].recs@[i],
        ) implies has_name(s, players[p].recs@[i].name@) by {}
    nothing_new_in_players(s, players, players.len() as int);
}

proof fn nothing_new_in_recs(s: Seq<Entry>, pl: Player, k: int)
    requires
        forall|i: int|
            0 <= i < k && is_usable(#[trigger] pl.recs@[i]) ==> has_name(s, pl.recs@[i].name@),
    ensures
        with_recs(s, pl, k) == s,
    decreases k,
{
    if k > 0 {
        nothing_new_in_recs(s, pl, k - 1);
        assert(is_usable(pl.recs@[k - 1]) ==> has_name(s, pl.recs@[k - 1].name@));
    }
}

proof fn nothing_new_in_players(s: Seq<Entry>, players: Seq<Player>, k: int)
    requires
        forall|p: int, i: int|
            0 <= p < k && 0 <= i < players[p].recs@.len() && is_usable(
                #[trigger] players[p].recs@[i],
            ) ==> has_name(s, players[p].recs@[i].name@),
    ensures
        with_players(s, players, k) == s,
    decreases k,
{
    if k > 0 {
        nothing_new_in_players(s, players, k - 1);
        let pl = players[k - 1];
        assert forall|i: int| 0 <= i < pl.recs@.len() && is_usable(
            #[trigger] pl.recs@[i],
        ) implies has_name(s, pl.recs@[i].name@) by {
            assert(is_usable(players[k - 1].recs@[i]));
        }
        nothing_new_in_recs(s, pl, pl.recs@.len() as int);
    }
}

/// Merging the same players a second time changes nothing.
pub proof fn merging_twice_changes_nothing(s: Seq<Entry>, players: Seq<Player>)
    ensures
        merged(merged(s, players), players) == merged(s, players),
{
    let t = merged(s, players);
    assert forall|p: int, i: int|
        0 <= p < players.len() && 0 <= i < players[p].recs@.len() && is_usable(
            #[trigger] players[p].recs@[i],
        ) implies has_name(t, players[p].recs@[i].name@) by {
        merge_has_every_name(s, players, seq![], p, i);
    }
    nothing_new_in_players(t, players, players.len() as int);
}

proof fn digits_are_read(x: int)
    requires
        0 <= x < 16,
    ensures
        digit_value(digit(x)) == Some(x),
        digit(x) != '+',
        '0' <= digit(x) <= 'f',
{
}

proof fn pair_is_read(b: u8)
    ensures
        ({
            let (h, l) = (digit(b as int / 16), digit(b as int % 16));
            pair_value(h as u8, l as u8) == Some(b)
        }),
{
    let (x, y) = (b as int / 16, b as int % 16);
    let (h, l) = (digit(x), digit(y));
    digits_are_read(x);
    digits_are_read(y);
    let t = seq![h as u8 as char, l as u8 as char];
    assert(h as u8 as char == h && l as u8 as char == l);
    assert(t[0] == h && t[1] == l);
    assert(crate::digits::all_digits(t, 16)) by {
        assert forall|i: int| 0 <= i < t.len() implies (#[trigger] digit_value(t[i])) is Some
            && digit_value(t[i])->0 < 16 by {
            if i == 0 {
                assert(t[i] == h);
            } else {
                assert(t[i] == l);
            }
        }
    }
    assert(value_of(t, 16) == b) by {
        let u = t.drop_last();
        assert(u =~= seq![h]);
        assert(u.drop_last() =~= Seq::<char>::empty());
        assert(value_of(u.drop_last(), 16) == 0);
        assert(value_of(u, 16) == x);
        assert(value_of(t, 16) == x * 16 + y);
    }
    assert(numeral(t, 16, 255) == Some(b as int));
}

proof fn hex_digits(raw: Seq<u8>, i: int)
    requires
        0 <= i < raw.len(),
    ensures
        hex_of(raw).len() == 2 * raw.len(),
        hex_of(raw)[2 * i] == digit(raw[i] as int / 16),
        hex_of(raw)[2 * i + 1] == digit(raw[i] as int % 16),
    decreases raw.len(),
{
    let d = raw.drop_last();
    let b = raw.last() as nat;
    let tail = hex_low(b, 2);
    reveal_with_fuel(hex_low, 3);
    assert(tail =~= seq![digit((b / 16 % 16) as int), digit((b % 16) as int)]);
    if d.len() > 0 {
        hex_digits(d, if i < d.len() {
            i
        } else {
            0
        });
    } else {
        assert(hex_of(d) =~= Seq::<char>::empty());
    }
}

proof fn hex_is_ascii(raw: Seq<u8>)
    ensures
        vstd::utf8::is_ascii_chars(hex_of(raw)),
        hex_of(raw).len() == 2 * raw.len(),
{
    let h = hex_of(raw);
    if raw.len() > 0 {
        hex_digits(raw, 0);
    }
    assert forall|k: int| 0 <= k < h.len() implies '\0' <= #[trigger] h[k] <= '\u{7f}' by {
        let i = k / 2;
        hex_digits(raw, i);
        digits_are_read(raw[i] as int / 16);
        digits_are_read(raw[i] as int % 16);
        if k % 2 == 0 {
            assert(k == 2 * i);
        } else {
            assert(k == 2 * i + 1);
        }
    }
}

/// Bytes written in hexadecimal are read back.
pub proof fn hex_is_read_back(raw: Seq<u8>)
    ensures
        cuts_well(hex_of(raw)),
        raw_of(hex_of(raw)) == raw,
{
    let h = hex_of(raw);
    let t = vstd::utf8::encode_utf8(h);
    hex_is_ascii(raw);
    vstd::utf8::is_ascii_chars_encode_utf8(h);
    vstd::utf8::encode_utf8_valid_utf8(h);
    assert forall|i: int| 0 <= i <= t.len() as int / 2 implies
        #[trigger] vstd::utf8::is_char_boundary(t, 2 * i) by {
        vstd::utf8::is_char_boundary_start_end_of_seq(t);
        if 2 * i < t.len() {
            assert(h[2 * i] as u8 == t[2 * i]);
            assert(t[2 * i] < 0x80);
            vstd::utf8::is_char_boundary_iff_not_is_continuation_byte(t, 2 * i);
        }
    }
    pairs_are_read(raw, raw.len() as int);
    assert(raw.take(raw.len() as int) =~= raw);
}

proof fn pairs_are_read(raw: Seq<u8>, k: int)
    requires
        0 <= k <= raw.len(),
    ensures
        unhex(vstd::utf8::encode_utf8(hex_of(raw)), k) == raw.take(k),
    decreases k,
{
    let h = hex_of(raw);
    let t = vstd::utf8::encode_utf8(h);
    if k > 0 {
        pairs_are_read(raw, k - 1);
        hex_is_ascii(raw);
        vstd::utf8::is_ascii_chars_encode_utf8(h);
        hex_digits(raw, k - 1);
        pair_is_read(raw[k - 1]);
        assert(h[2 * k - 2] as u8 == t[2 * k - 2]);
        assert(h[2 * k - 1] as u8 == t[2 * k - 1]);
        assert(raw.take(k - 1).push(raw[k - 1]) =~= raw.take(k));
    } else {
        assert(raw.take(0) =~= Seq::<u8>::empty());
    }
}

proof fn row_is_read_back(e: Entry)
    ensures
        entry_in(row_in(Json::Table(entry_table(e)))) == e,
        cuts_well(or_empty(row_in(Json::Table(entry_table(e))).hex)),
{
    reveal_strlit("name");
    reveal_strlit("slot");
    reveal_strlit("dir");
    reveal_strlit("base");
    reveal_strlit("kind");
    reveal_strlit("holder");
    reveal_strlit("hex");
    assert("name"@[0] == 'n' && "slot"@[0] == 's' && "dir"@[0] == 'd' && "base"@[0] == 'b' && "kind"@[0]
        == 'k' && "holder"@[0] == 'h' && "hex"@[0] == 'h' && "holder"@.len() == 6 && "hex"@.len() == 3);
    let j = Json::Table(entry_table(e));
    assert(entry(j, "name"@) == Json::Text(e.name));
    assert(entry(j, "slot"@) == Json::Count(e.slot));
    assert(entry(j, "dir"@) == Json::Count(e.dir));
    assert(entry(j, "base"@) == Json::Count(e.base as u64));
    assert(entry(j, "kind"@) == Json::Text(e.kind));
    assert(entry(j, "holder"@) == Json::Text(e.holder));
    assert(entry(j, "hex"@) == Json::Text(hex_of(e.raw)));
    hex_is_read_back(e.raw);
    assert(entry_in(row_in(j)) =~= e);
}

proof fn rows_are_read_back(s: Seq<Entry>, k: int)
    requires
        0 <= k <= s.len(),
    ensures
        entries_in(rows_in(lib_json(s)), k) == s.take(k).filter(|e: Entry| e.raw.len() == REC),
    decreases k,
{
    let whole = |e: Entry| e.raw.len() == REC;
    reveal(Seq::filter);
    if k > 0 {
        rows_are_read_back(s, k - 1);
        row_is_read_back(s[k - 1]);
        assert(s.take(k).drop_last() =~= s.take(k - 1));
        assert(rows_in(lib_json(s))[k - 1] == row_in(Json::Table(entry_table(s[k - 1]))));
    }
}

/// A file gives back the library that was saved in it, in order. Entries
/// without a whole record are the only ones that are lost.
pub proof fn file_gives_the_library_back(s: Seq<Entry>, text: Seq<char>)
    requires
        parsed(text) == Some(lib_json(s)),
    ensures
        rows_cut_well(crate::library_file::rows_of_file(text)),
        lib_in(crate::library_file::rows_of_file(text)) == by_place(
            s.filter(|e: Entry| e.raw.len() == REC),
        ),
{
    let rows = rows_in(lib_json(s));
    assert forall|i: int| 0 <= i < rows.len() implies cuts_well(or_empty((#[trigger] rows[i]).hex)) by {
        row_is_read_back(s[i]);
    }
    rows_are_read_back(s, s.len() as int);
    assert(s.take(s.len() as int) =~= s);
}

proof fn whole_rows_are_kept(rows: Seq<RowView>, k: int, e: Entry)
    requires
        0 <= k <= rows.len(),
    ensures
        entries_in(rows, k).contains(e) <==> e.raw.len() == REC && exists|i: int|
            0 <= i < k && entry_in(#[trigger] rows[i]) == e,
    decreases k,
{
    if k > 0 {
        whole_rows_are_kept(rows, k - 1, e);
        let rest = entries_in(rows, k - 1);
        let all = entries_in(rows, k);
        let x = entry_in(rows[k - 1]);
        if all.contains(e) {
            let j = choose|j: int| 0 <= j < all.len() && all[j] == e;
            if j < rest.len() {
                assert(rest[j] == e);
            }
        }
        if rest.contains(e) {
            let j = choose|j: int| 0 <= j < rest.len() && rest[j] == e;
            assert(all[j] == e);
        }
        if x == e && e.raw.len() == REC {
            assert(all[rest.len() as int] == e);
        }
    }
}

/// An entry holds what a row says. What is missing in the row counts as empty or
/// 0, and of the pitch it comes from only the low byte counts.
pub open spec fn is_row_of(r: RowView, e: Entry) -> bool {
    &&& r.name is Some ==> e.name == r.name->0
    &&& r.slot is Some ==> e.slot == r.slot->0
    &&& r.dir is Some ==> e.dir == r.dir->0
    &&& r.base is Some ==> e.base == r.base->0 % 256
    &&& r.kind is Some ==> e.kind == r.kind->0
    &&& r.holder is Some ==> e.holder == r.holder->0
    &&& r.hex is Some ==> e.raw == raw_of(r.hex->0)
    &&& r.name is None ==> e.name.len() == 0
    &&& r.slot is None ==> e.slot == 0
    &&& r.dir is None ==> e.dir == 0
    &&& r.base is None ==> e.base == 0
    &&& r.kind is None ==> e.kind.len() == 0
    &&& r.holder is None ==> e.holder.len() == 0
    &&& r.hex is None ==> e.raw == raw_of(Seq::empty())
}

proof fn row_says(r: RowView, e: Entry)
    ensures
        is_row_of(r, e) <==> entry_in(r) == e,
{
    if is_row_of(r, e) {
        let x = entry_in(r);
        assert(x.name =~= e.name);
        assert(x.kind =~= e.kind);
        assert(x.holder =~= e.holder);
    }
}

/// The library in a file has an entry for each row with a whole record, and for
/// nothing else.
pub proof fn which_rows_are_read(rows: Seq<RowView>, e: Entry)
    ensures
        lib_in(rows).contains(e) <==> e.raw.len() == 184 && exists|i: int|
            0 <= i < rows.len() && is_row_of(#[trigger] rows[i], e),
{
    whole_rows_are_kept(rows, rows.len() as int, e);
    sorting_keeps_entries(entries_in(rows, rows.len() as int), e);
    assert forall|i: int| 0 <= i < rows.len() implies is_row_of(#[trigger] rows[i], e) == (entry_in(
        rows[i],
    ) == e) by {
        row_says(rows[i], e);
    }
}

} // verus!

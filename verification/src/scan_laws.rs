//! What a scan for player objects finds, and how far it says it has come.

use vstd::prelude::*;

use crate::offsets::{OFF_BALL, OFF_STATS, PLAYER_READ};
use crate::player::{is_player, Player};
use crate::process::{at, Memory};
use crate::scan::{
    alike, all_looks, by_name, gathered, good_at, is_new, is_outer, last_name_at, looks_in,
    looks_like_player, name_lt, outer_only, piece_looks, pitches_at, reports, scanned, starts,
    total_size, SCAN_OVER,
};
use crate::sweep::{
    all_pieces, done_after, nothing_is_missed, piece_at, pieces_come_from_regions, pieces_stay_inside,
    region_is_cut, region_pieces, Piece,
};

verus! {

proof fn looks_are_reported(b: Seq<u8>, addr: u64, n: int, q: int)
    requires
        0 <= q < n,
        looks_like_player(b, q),
    ensures
        looks_in(b, addr, n).contains(at(addr, q)),
    decreases n,
{
    let all = looks_in(b, addr, n);
    let rest = looks_in(b, addr, n - 1);
    if q < n - 1 {
        looks_are_reported(b, addr, n - 1, q);
        let j = choose|j: int| 0 <= j < rest.len() && rest[j] == at(addr, q);
        assert(all[j] == at(addr, q));
    } else {
        assert(all[rest.len() as int] == at(addr, q));
    }
}

proof fn pieces_are_looked_at(m: Memory, ps: Seq<Piece>, k: int, a: u64)
    requires
        0 <= k < ps.len(),
        piece_looks(m, ps[k]).contains(a),
    ensures
        all_looks(m, ps).contains(a),
    decreases ps.len(),
{
    let rest = all_looks(m, ps.drop_last());
    let last = piece_looks(m, ps.last());
    if k < ps.len() - 1 {
        assert(ps.drop_last()[k] == ps[k]);
        pieces_are_looked_at(m, ps.drop_last(), k, a);
        let j = choose|j: int| 0 <= j < rest.len() && rest[j] == a;
        assert((rest + last)[j] == a);
    } else {
        let j = choose|j: int| 0 <= j < last.len() && last[j] == a;
        assert((rest + last)[rest.len() + j] == a);
    }
}

proof fn looks_depend_on_the_object(b: Seq<u8>, q: int, o: Seq<u8>)
    requires
        looks_like_player(o, 0),
        0 <= q,
        forall|i: int| 0 <= i < OFF_BALL + 36 ==> b[q + i] == #[trigger] o[i],
    ensures
        looks_like_player(b, q),
{
    assert forall|k: int| 0 <= k < 12 implies {
        &&& #[trigger] b[q + OFF_BALL + 3 * k] == o[OFF_BALL + 3 * k]
        &&& b[q + OFF_BALL + 3 * k + 1] == o[OFF_BALL + 3 * k + 1]
        &&& b[q + OFF_BALL + 3 * k + 2] == o[OFF_BALL + 3 * k + 2]
    } by {
        assert(b[q + (OFF_BALL + 3 * k)] == o[OFF_BALL + 3 * k]);
        assert(b[q + (OFF_BALL + 3 * k + 1)] == o[OFF_BALL + 3 * k + 1]);
        assert(b[q + (OFF_BALL + 3 * k + 2)] == o[OFF_BALL + 3 * k + 2]);
    }
    assert(b[q + (OFF_BALL + 15)] == o[OFF_BALL + 15]);
    assert forall|k: int|
        0 <= k < 6 && #[trigger] b[q + OFF_BALL + 3 * k]
            == crate::balls::BALL_EMPTY implies b[q + OFF_BALL + 3 * (k + 6)]
        == crate::balls::BALL_EMPTY by {
        assert(b[q + OFF_BALL + 3 * k] == o[OFF_BALL + 3 * k]);
        assert(b[q + OFF_BALL + 3 * (k + 6)] == o[OFF_BALL + 3 * (k + 6)]);
    }
    let e = choose|k: int|
        0 <= k < 12 && #[trigger] o[0 + OFF_BALL + 3 * k] == crate::balls::BALL_EMPTY;
    assert(b[q + OFF_BALL + 3 * e] == crate::balls::BALL_EMPTY);
    assert forall|i: int| q + OFF_STATS <= i < q + OFF_STATS + 8 implies 1 <= #[trigger] b[i]
        <= 127 by {
        assert(b[q + (i - q)] == o[i - q]);
    }
}

/// Two readings of one object are alike, and alike to the same players.
proof fn readings_are_alike(b: Seq<u8>, a: u64, x: Player, y: Player)
    requires
        is_player(b, a, x),
        is_player(b, a, y),
    ensures
        alike(x, y),
        forall|z: Player| alike(z, x) <==> #[trigger] alike(z, y),
{
    assert(x.balls@ == y.balls@);
    assert(x.stats@ == y.stats@);
    assert forall|z: Player| alike(z, x) <==> #[trigger] alike(z, y) by {}
}

proof fn nothing_good_is_left_out(m: Memory, list: Seq<u64>, found: Seq<Player>, a: u64, pl: Player)
    requires
        gathered(m, list, found),
        list.contains(a),
        good_at(m, a),
        is_player(m.bytes(a, PLAYER_READ as int), a, pl),
    ensures
        !is_new(found, pl),
    decreases list.len(),
{
    let b = m.bytes(a, PLAYER_READ as int);
    let rest = list.drop_last();
    if rest.contains(a) {
        if gathered(m, rest, found) {
            nothing_good_is_left_out(m, rest, found, a, pl);
        } else {
            nothing_good_is_left_out(m, rest, found.drop_last(), a, pl);
            let i = choose|i: int|
                0 <= i < found.drop_last().len() && alike(#[trigger] found.drop_last()[i], pl);
            assert(alike(found[i], pl));
        }
    } else {
        let j = choose|j: int| 0 <= j < list.len() && list[j] == a;
        if j < list.len() - 1 {
            assert(rest[j] == a);
        }
        assert(list.last() == a);
        if gathered(m, rest, found) && exists|x: Player| #[trigger]
            is_player(b, a, x) && !is_new(found, x) {
            let x = choose|x: Player| #[trigger] is_player(b, a, x) && !is_new(found, x);
            readings_are_alike(b, a, x, pl);
            let i = choose|i: int| 0 <= i < found.len() && alike(#[trigger] found[i], x);
            assert(alike(found[i], pl));
        } else {
            readings_are_alike(b, a, found.last(), pl);
            assert(alike(found[found.len() - 1], pl));
        }
    }
}

/// A scan finds every player: an object in one of its regions that looks like a
/// player and has a sane name is found, or one like it is. The region has to be
/// readable, and the object's pitches must not end it.
pub proof fn every_player_is_found(
    m: Memory,
    ranges: Seq<(u64, u64)>,
    r: int,
    from: int,
    found: Seq<Player>,
    pl: Player,
)
    requires
        0 <= r < ranges.len(),
        0 <= from,
        from + OFF_BALL + 36 < ranges[r].1,
        m.holds(ranges[r].0, ranges[r].1 as int),
        good_at(m, at(ranges[r].0, from)),
        looks_like_player(m.bytes(at(ranges[r].0, from), PLAYER_READ as int), 0),
        is_player(m.bytes(at(ranges[r].0, from), PLAYER_READ as int), at(ranges[r].0, from), pl),
        gathered(m, all_looks(m, all_pieces(ranges, SCAN_OVER as int)), found),
    ensures
        exists|i: int| 0 <= i < found.len() && alike(#[trigger] found[i], pl),
{
    let (b, size) = ranges[r];
    let a = at(b, from);
    let over = SCAN_OVER as int;
    let span = OFF_BALL + 37;
    nothing_is_missed(b, size, over, from, span);
    let k = from / crate::sweep::CHUNK as int;
    let ps = all_pieces(ranges, over);
    let p = region_pieces(b, size, over, 0)[k];
    pieces_stay_inside(b, size, over, 0, k);
    region_is_cut(ranges, over, r, k);
    let n = p.len as int;
    let q = from - k * crate::sweep::CHUNK;
    assert(p.addr == at(b, k * crate::sweep::CHUNK));
    assert(m.holds(p.addr, n)) by {
        assert forall|i: int| 0 <= i < n implies m.cells.dom().contains(#[trigger] at(p.addr, i)) by {
            assert(at(p.addr, i) == at(b, k * crate::sweep::CHUNK + i));
            assert(m.cells.dom().contains(at(b, k * crate::sweep::CHUNK + i)));
        }
    }
    let buf = m.bytes(p.addr, n);
    let o = m.bytes(a, PLAYER_READ as int);
    assert(at(p.addr, q) == a);
    assert forall|i: int| 0 <= i < OFF_BALL + 36 implies buf[q + i] == #[trigger] o[i] by {
        assert(at(p.addr, q + i) == at(a, i));
    }
    looks_depend_on_the_object(buf, q, o);
    looks_are_reported(buf, p.addr, starts(buf), q);
    let j = choose|j: int| 0 <= j < ps.len() && ps[j] == p;
    pieces_are_looked_at(m, ps, j, a);
    nothing_good_is_left_out(m, all_looks(m, ps), found, a, pl);
}

/// What the thirty-six bytes of the pitches have to be: each of the twelve slots
/// holds a pitch number up to 45, power and movement up to 63 and control up to
/// 7; an empty slot, which is number 37, holds nothing else; the sixth slot is
/// not empty and some slot is; and a slot of the second row is empty where the
/// one above it is. Nothing else counts: not how good a pitch is.
pub proof fn pitches_are_known_by_their_bytes(b: Seq<u8>, q: int)
    ensures
        pitches_at(b, q) <==> {
            &&& forall|k: int|
                0 <= k < 12 ==> #[trigger] b[q + 3 * k] <= 45 && b[q + 3 * k + 1] <= 63 && b[q + 3
                    * k + 2] <= 7
            &&& forall|k: int|
                0 <= k < 12 && #[trigger] b[q + 3 * k] == 37 ==> b[q + 3 * k + 1] == 0 && b[q + 3
                    * k + 2] == 0
            &&& b[q + 15] != 37
            &&& exists|k: int| 0 <= k < 12 && #[trigger] b[q + 3 * k] == 37
            &&& forall|k: int|
                0 <= k < 6 && #[trigger] b[q + 3 * k] == 37 ==> b[q + 3 * (k + 6)] == 37
        },
{
}

/// Giving a pitch other power, movement or control within their ranges makes a
/// player neither more nor less one.
pub proof fn how_good_a_pitch_is_does_not_count(b: Seq<u8>, q: int, k: int, x: u8, y: u8)
    requires
        0 <= q,
        q + 36 <= b.len(),
        0 <= k < 12,
        b[q + 3 * k] != 37,
        b[q + 3 * k + 1] <= 63,
        b[q + 3 * k + 2] <= 7,
        x <= 63,
        y <= 7,
    ensures
        pitches_at(b.update(q + 3 * k + 1, x).update(q + 3 * k + 2, y), q) == pitches_at(b, q),
{
    let c = b.update(q + 3 * k + 1, x).update(q + 3 * k + 2, y);
    assert forall|j: int| 0 <= j < 12 implies #[trigger] c[q + 3 * j] == b[q + 3 * j] by {}
    assert forall|j: int| 0 <= j < 12 && j != k implies c[q + 3 * j + 1] == b[q + 3 * j + 1] && c[q
        + 3 * j + 2] == b[q + 3 * j + 2] && #[trigger] c[q + 3 * j] == b[q + 3 * j] by {}
    assert(c[q + 3 * 5] == b[q + 3 * 5]);
    assert forall|j: int| 0 <= j < 6 implies #[trigger] c[q + 3 * (j + 6)] == b[q + 3 * (j + 6)] by {}
    assert(pitches_at(b, q) ==> pitches_at(c, q)) by {
        if pitches_at(b, q) {
            let e = choose|j: int|
                0 <= j < 12 && #[trigger] b[q + 3 * j] == crate::balls::BALL_EMPTY;
            assert(c[q + 3 * e] == crate::balls::BALL_EMPTY);
            assert forall|j: int| 0 <= j < 12 implies {
                &&& #[trigger] c[q + 3 * j] <= crate::balls::BALL_MAX_ID
                &&& c[q + 3 * j + 1] <= 63
                &&& c[q + 3 * j + 2] <= 7
                &&& c[q + 3 * j] == crate::balls::BALL_EMPTY ==> c[q + 3 * j + 1] == 0 && c[q + 3
                    * j + 2] == 0
            } by {
                assert(b[q + 3 * j] == c[q + 3 * j]);
            }
            assert forall|j: int|
                0 <= j < 6 && #[trigger] c[q + 3 * j]
                    == crate::balls::BALL_EMPTY implies c[q + 3 * (j + 6)]
                == crate::balls::BALL_EMPTY by {
                assert(b[q + 3 * j] == c[q + 3 * j]);
            }
        }
    }
    assert(pitches_at(c, q) ==> pitches_at(b, q)) by {
        if pitches_at(c, q) {
            let e = choose|j: int|
                0 <= j < 12 && #[trigger] c[q + 3 * j] == crate::balls::BALL_EMPTY;
            assert(b[q + 3 * e] == crate::balls::BALL_EMPTY);
            assert forall|j: int| 0 <= j < 12 implies {
                &&& #[trigger] b[q + 3 * j] <= crate::balls::BALL_MAX_ID
                &&& b[q + 3 * j + 1] <= 63
                &&& b[q + 3 * j + 2] <= 7
                &&& b[q + 3 * j] == crate::balls::BALL_EMPTY ==> b[q + 3 * j + 1] == 0 && b[q + 3
                    * j + 2] == 0
            } by {
                assert(c[q + 3 * j] == b[q + 3 * j]);
            }
            assert forall|j: int|
                0 <= j < 6 && #[trigger] b[q + 3 * j]
                    == crate::balls::BALL_EMPTY implies b[q + 3 * (j + 6)]
                == crate::balls::BALL_EMPTY by {
                assert(c[q + 3 * j] == b[q + 3 * j]);
            }
        }
    }
}

/// A place where an object of the right bytes stands is a candidate, whatever
/// its pitches are worth.
proof fn right_bytes_look_right(o: Seq<u8>)
    requires
        forall|k: int|
            0 <= k < 12 ==> #[trigger] o[OFF_BALL + 3 * k] <= 45 && o[OFF_BALL + 3 * k + 1] <= 63
                && o[OFF_BALL + 3 * k + 2] <= 7,
        forall|k: int|
            0 <= k < 12 && #[trigger] o[OFF_BALL + 3 * k] == 37 ==> o[OFF_BALL + 3 * k + 1] == 0
                && o[OFF_BALL + 3 * k + 2] == 0,
        o[OFF_BALL + 15] != 37,
        exists|k: int| 0 <= k < 12 && #[trigger] o[OFF_BALL + 3 * k] == 37,
        forall|k: int|
            0 <= k < 6 && #[trigger] o[OFF_BALL + 3 * k] == 37 ==> o[OFF_BALL + 3 * (k + 6)] == 37,
        forall|i: int| 0 <= i < 8 ==> 1 <= #[trigger] o[OFF_STATS + i] <= 127,
    ensures
        looks_like_player(o, 0),
{
    let e = choose|k: int| 0 <= k < 12 && #[trigger] o[OFF_BALL + 3 * k] == 37;
    assert(o[0 + OFF_BALL + 3 * e] == 37);
    assert forall|i: int| 0 + OFF_STATS <= i < 0 + OFF_STATS + 8 implies 1 <= #[trigger] o[i]
        <= 127 by {
        assert(1 <= o[OFF_STATS + (i - OFF_STATS)] <= 127);
    }
}

/// Found players are what the memory holds at their addresses, and have sane
/// names. No two of them are alike.
proof fn found_are_players(m: Memory, list: Seq<u64>, found: Seq<Player>, i: int)
    requires
        gathered(m, list, found),
        0 <= i < found.len(),
    ensures
        list.contains(found[i].addr),
        good_at(m, found[i].addr),
        is_player(m.bytes(found[i].addr, PLAYER_READ as int), found[i].addr, found[i]),
        forall|j: int| 0 <= j < i ==> !alike(#[trigger] found[j], found[i]),
    decreases list.len(),
{
    let rest = list.drop_last();
    if list.len() > 0 {
        if gathered(m, rest, found) {
            found_are_players(m, rest, found, i);
            let j = choose|j: int| 0 <= j < rest.len() && rest[j] == found[i].addr;
            assert(list[j] == found[i].addr);
        } else if i < found.len() - 1 {
            found_are_players(m, rest, found.drop_last(), i);
            let j = choose|j: int| 0 <= j < rest.len() && rest[j] == found[i].addr;
            assert(list[j] == found[i].addr);
            assert forall|j: int| 0 <= j < i implies !alike(#[trigger] found[j], found[i]) by {
                assert(found.drop_last()[j] == found[j]);
            }
        } else {
            assert(list[list.len() - 1] == found[i].addr);
            assert forall|j: int| 0 <= j < i implies !alike(#[trigger] found[j], found[i]) by {
                assert(found.drop_last()[j] == found[j]);
            }
        }
    }
}

/// What is kept of the found players is listed, and nothing else is.
proof fn listed_is_what_is_kept(found: Seq<Player>, pl: Player)
    ensures
        by_name(outer_only(found)).contains(pl) <==> found.contains(pl) && is_outer(found, pl),
{
    broadcast use vstd::seq_lib::group_to_multiset_ensures;

    let s = outer_only(found);
    let lt = name_lt();
    let keep = |x: Player| is_outer(found, x);
    name_order();
    crate::order::sorting_orders(s, lt);
    let r = by_name(s);
    assert(r.to_multiset().count(pl) > 0 <==> r.contains(pl));
    assert(s.to_multiset().count(pl) > 0 <==> s.contains(pl));
    if found.contains(pl) && is_outer(found, pl) {
        let i = choose|i: int| 0 <= i < found.len() && found[i] == pl;
        found.lemma_filter_contains(keep, i);
    }
    if s.contains(pl) {
        found.lemma_filter_contains_rev(keep, pl);
        let k = choose|k: int| 0 <= k < s.len() && s[k] == pl;
        found.lemma_filter_pred(keep, k);
    }
}

proof fn name_order()
    ensures
        crate::order::is_order(name_lt()),
{
    let lt = name_lt();
    assert forall|a: Player, b: Player| #![trigger lt(a, b)] lt(a, b) implies !lt(b, a) by {
        crate::order::text_order(a.name@, b.name@, b.name@);
    }
    assert forall|a: Player, b: Player, c: Player|
        #![trigger lt(a, b), lt(b, c)]
        !lt(a, b) && !lt(b, c) implies !lt(a, c) by {
        crate::order::text_order(a.name@, b.name@, c.name@);
    }
}

proof fn copy_has_its_first(found: Seq<Player>, a: u64, name: Seq<char>) -> (k: int)
    requires
        last_name_at(found, a) == Some(name),
    ensures
        0 <= k < found.len(),
        found[k].addr == a,
        found[k].name@ == name,
    decreases found.len(),
{
    if found.last().addr == a {
        found.len() - 1
    } else {
        copy_has_its_first(found.drop_last(), a, name)
    }
}

/// For every found player one of that name is kept.
proof fn one_of_the_name_is_kept(found: Seq<Player>, i: int) -> (k: int)
    requires
        0 <= i < found.len(),
    ensures
        0 <= k < found.len(),
        found[k].name@ == found[i].name@,
        is_outer(found, found[k]),
    decreases found[i].addr,
{
    if is_outer(found, found[i]) {
        i
    } else {
        let j = copy_has_its_first(
            found,
            (found[i].addr - crate::offsets::REC_INNER) as u64,
            found[i].name@,
        );
        one_of_the_name_is_kept(found, j)
    }
}

/// A scan lists every player. Let an object of one of its regions have a sane
/// name, eight abilities from 1 to 127 and twelve pitch slots in range, the
/// sixth taken, some slot empty, empty slots zeroed, none of the second row
/// taken under an empty one of the first. Then a player of that name is listed,
/// however good the pitches are. If no object of that name stands where the
/// first copy of one like it would, then the listed one has the same abilities,
/// the same speed and the same pitches. The region has to be readable, and the
/// object's pitches must not end it.
pub proof fn every_player_is_listed(
    m: Memory,
    ranges: Seq<(u64, u64)>,
    r: int,
    from: int,
    res: Seq<Player>,
    pl: Player,
)
    requires
        scanned(m, ranges, res),
        0 <= r < ranges.len(),
        0 <= from,
        from + OFF_BALL + 36 < ranges[r].1,
        m.holds(ranges[r].0, ranges[r].1 as int),
        m.holds(at(ranges[r].0, from), PLAYER_READ as int),
        ({
            let o = m.bytes(at(ranges[r].0, from), PLAYER_READ as int);
            &&& is_player(o, at(ranges[r].0, from), pl)
            &&& crate::text::is_sane(pl.name@)
            &&& forall|k: int|
                0 <= k < 12 ==> #[trigger] o[OFF_BALL + 3 * k] <= 45 && o[OFF_BALL + 3 * k + 1]
                    <= 63 && o[OFF_BALL + 3 * k + 2] <= 7
            &&& forall|k: int|
                0 <= k < 12 && #[trigger] o[OFF_BALL + 3 * k] == 37 ==> o[OFF_BALL + 3 * k + 1] == 0
                    && o[OFF_BALL + 3 * k + 2] == 0
            &&& o[OFF_BALL + 15] != 37
            &&& exists|k: int| 0 <= k < 12 && #[trigger] o[OFF_BALL + 3 * k] == 37
            &&& forall|k: int|
                0 <= k < 6 && #[trigger] o[OFF_BALL + 3 * k] == 37 ==> o[OFF_BALL + 3 * (k + 6)]
                    == 37
            &&& forall|i: int| 0 <= i < 8 ==> 1 <= #[trigger] o[OFF_STATS + i] <= 127
        }),
    ensures
        exists|i: int| 0 <= i < res.len() && (#[trigger] res[i]).name@ == pl.name@,
        (forall|x: u64, y: Player|
            x >= crate::offsets::REC_INNER && #[trigger] is_player(
                m.bytes(x, PLAYER_READ as int),
                x,
                y,
            ) && y.name@ == pl.name@ ==> crate::text::name_in(
                m.bytes((x - crate::offsets::REC_INNER) as u64, PLAYER_READ as int),
            ) != pl.name@) ==> exists|i: int|
            {
                let y = #[trigger] res[i];
                &&& 0 <= i < res.len()
                &&& y.name@ == pl.name@
                &&& y.stats@ == pl.stats@
                &&& y.speed == pl.speed
                &&& y.balls@.len() == pl.balls@.len()
                &&& forall|k: int|
                    0 <= k < 12 ==> (#[trigger] y.balls@[k]).id == pl.balls@[k].id
                        && y.balls@[k].power == pl.balls@[k].power && y.balls@[k].control
                        == pl.balls@[k].control
            },
{
    let list = all_looks(m, all_pieces(ranges, SCAN_OVER as int));
    let found = choose|found: Seq<Player>| #[trigger]
        gathered(m, list, found) && res == by_name(outer_only(found));
    let o = m.bytes(at(ranges[r].0, from), PLAYER_READ as int);
    right_bytes_look_right(o);
    every_player_is_found(m, ranges, r, from, found, pl);
    let f = choose|f: int| 0 <= f < found.len() && alike(#[trigger] found[f], pl);
    let k = one_of_the_name_is_kept(found, f);
    assert(found.contains(found[k]));
    listed_is_what_is_kept(found, found[k]);
    let i = choose|i: int| 0 <= i < res.len() && res[i] == found[k];
    assert(res[i].name@ == pl.name@);
    if forall|x: u64, y: Player|
        x >= crate::offsets::REC_INNER && #[trigger] is_player(m.bytes(x, PLAYER_READ as int), x, y)
            && y.name@ == pl.name@ ==> crate::text::name_in(
            m.bytes((x - crate::offsets::REC_INNER) as u64, PLAYER_READ as int),
        ) != pl.name@ {
        found_are_players(m, list, found, f);
        if !is_outer(found, found[f]) {
            let x = (found[f].addr - crate::offsets::REC_INNER) as u64;
            let j = copy_has_its_first(found, x, found[f].name@);
            found_are_players(m, list, found, j);
        }
        assert(found.contains(found[f]));
        listed_is_what_is_kept(found, found[f]);
        let i = choose|i: int| 0 <= i < res.len() && res[i] == found[f];
        assert(alike(res[i], pl));
    }
}

proof fn looks_come_from_the_buffer(b: Seq<u8>, addr: u64, n: int, a: u64) -> (q: int)
    requires
        looks_in(b, addr, n).contains(a),
    ensures
        0 <= q < n,
        looks_like_player(b, q),
        a == at(addr, q),
    decreases n,
{
    let all = looks_in(b, addr, n);
    let rest = looks_in(b, addr, n - 1);
    let j = choose|j: int| 0 <= j < all.len() && all[j] == a;
    if j < rest.len() {
        assert(rest[j] == a);
        looks_come_from_the_buffer(b, addr, n - 1, a)
    } else {
        n - 1
    }
}

proof fn looks_come_from_pieces(m: Memory, ps: Seq<Piece>, a: u64) -> (k: int)
    requires
        all_looks(m, ps).contains(a),
    ensures
        0 <= k < ps.len(),
        piece_looks(m, ps[k]).contains(a),
    decreases ps.len(),
{
    let all = all_looks(m, ps);
    let rest = all_looks(m, ps.drop_last());
    let last = piece_looks(m, ps.last());
    let j = choose|j: int| 0 <= j < all.len() && all[j] == a;
    if j < rest.len() {
        assert(rest[j] == a);
        looks_come_from_pieces(m, ps.drop_last(), a)
    } else {
        assert(last[j - rest.len()] == a);
        ps.len() - 1
    }
}

/// Where a candidate lies and what its bytes are like.
proof fn candidate_lies_in_a_region(m: Memory, ranges: Seq<(u64, u64)>, a: u64) -> (region: int)
    requires
        all_looks(m, all_pieces(ranges, SCAN_OVER as int)).contains(a),
    ensures
        0 <= region < ranges.len(),
        Memory::offset(ranges[region].0, a) + OFF_BALL + 36 < ranges[region].1,
        looks_like_player(m.bytes(a, PLAYER_READ as int), 0),
{
    let ps = all_pieces(ranges, SCAN_OVER as int);
    let k = looks_come_from_pieces(m, ps, a);
    let p = ps[k];
    let b = m.bytes(p.addr, p.len as int);
    let q = looks_come_from_the_buffer(b, p.addr, starts(b), a);
    let (region, x) = pieces_come_from_regions(ranges, SCAN_OVER as int, k);
    let (base, size) = ranges[region];
    pieces_stay_inside(base, size, SCAN_OVER as int, 0, x);
    let off = x * crate::sweep::CHUNK;
    assert(off >= 0) by (nonlinear_arith)
        requires
            x >= 0,
            off == x * crate::sweep::CHUNK,
    ;
    assert(p.addr == at(base, off));
    assert(a == at(base, off + q));
    assert(Memory::offset(base, a) == off + q);
    let o = m.bytes(a, PLAYER_READ as int);
    assert forall|y: int| 0 <= y < OFF_BALL + 36 implies o[0 + y] == #[trigger] b.skip(q)[y] by {
        assert(at(p.addr, q + y) == at(a, y));
    }
    assert(looks_like_player(b.skip(q), 0)) by {
        let c = b.skip(q);
        assert forall|y: int| 0 <= y < OFF_BALL + 36 implies #[trigger] c[y] == b[q + y] by {}
        looks_of_a_tail(b, q, c);
    }
    looks_depend_on_the_object(o, 0, b.skip(q));
    region
}

proof fn looks_of_a_tail(b: Seq<u8>, q: int, c: Seq<u8>)
    requires
        looks_like_player(b, q),
        forall|y: int| 0 <= y < OFF_BALL + 36 ==> #[trigger] c[y] == b[q + y],
    ensures
        looks_like_player(c, 0),
{
    assert forall|k: int| 0 <= k < 12 implies {
        &&& #[trigger] c[0 + OFF_BALL + 3 * k] == b[q + OFF_BALL + 3 * k]
        &&& c[0 + OFF_BALL + 3 * k + 1] == b[q + OFF_BALL + 3 * k + 1]
        &&& c[0 + OFF_BALL + 3 * k + 2] == b[q + OFF_BALL + 3 * k + 2]
    } by {
        assert(c[OFF_BALL + 3 * k] == b[q + (OFF_BALL + 3 * k)]);
        assert(c[OFF_BALL + 3 * k + 1] == b[q + (OFF_BALL + 3 * k + 1)]);
        assert(c[OFF_BALL + 3 * k + 2] == b[q + (OFF_BALL + 3 * k + 2)]);
    }
    assert(c[OFF_BALL + 15] == b[q + (OFF_BALL + 15)]);
    let e = choose|k: int|
        0 <= k < 12 && #[trigger] b[q + OFF_BALL + 3 * k] == crate::balls::BALL_EMPTY;
    assert(c[0 + OFF_BALL + 3 * e] == crate::balls::BALL_EMPTY);
    assert forall|k: int|
        0 <= k < 6 && #[trigger] c[0 + OFF_BALL + 3 * k]
            == crate::balls::BALL_EMPTY implies c[0 + OFF_BALL + 3 * (k + 6)]
        == crate::balls::BALL_EMPTY by {
        assert(b[q + OFF_BALL + 3 * k] == c[0 + OFF_BALL + 3 * k]);
        assert(c[0 + OFF_BALL + 3 * (k + 6)] == b[q + OFF_BALL + 3 * (k + 6)]);
    }
    assert forall|i: int| 0 + OFF_STATS <= i < 0 + OFF_STATS + 8 implies 1 <= #[trigger] c[i]
        <= 127 by {
        assert(c[i] == b[q + i]);
    }
}

proof fn numbers_of_a_candidate(o: Seq<u8>, a: u64, pl: Player)
    requires
        o.len() == PLAYER_READ,
        looks_like_player(o, 0),
        is_player(o, a, pl),
    ensures
        forall|k: int|
            0 <= k < 12 ==> (#[trigger] pl.balls@[k]).id <= 45 && pl.balls@[k].power <= 7
                && pl.balls@[k].control <= 7,
        forall|k: int| 0 <= k < 8 ==> 1 <= #[trigger] pl.stats@[k] <= 127,
        pl.balls@[5].id != 37,
{
    assert forall|k: int| 0 <= k < 12 implies (#[trigger] pl.balls@[k]).id <= 45
        && pl.balls@[k].power <= 7 && pl.balls@[k].control <= 7 by {
        assert(pl.balls@[k] == crate::player::ball_in(o, k));
        assert(o[0 + OFF_BALL + 3 * k] <= 45);
    }
    assert forall|k: int| 0 <= k < 8 implies 1 <= #[trigger] pl.stats@[k] <= 127 by {
        assert(pl.stats@[k] == o[OFF_STATS + k]);
    }
    assert(pl.balls@[5] == crate::player::ball_in(o, 5));
}

/// Every listed player is what the memory holds at its address, which lies in
/// one of the regions that were scanned. Its name is sane, its abilities and
/// pitches are in range.
pub proof fn only_players_are_listed(
    m: Memory,
    ranges: Seq<(u64, u64)>,
    res: Seq<Player>,
    i: int,
) -> (region: int)
    requires
        scanned(m, ranges, res),
        0 <= i < res.len(),
    ensures
        ({
            let pl = res[i];
            &&& 0 <= region < ranges.len()
            &&& Memory::offset(ranges[region].0, pl.addr) + OFF_BALL + 36 < ranges[region].1
            &&& m.holds(pl.addr, PLAYER_READ as int)
            &&& is_player(m.bytes(pl.addr, PLAYER_READ as int), pl.addr, pl)
            &&& crate::text::is_sane(pl.name@)
            &&& forall|k: int|
                0 <= k < 12 ==> (#[trigger] pl.balls@[k]).id <= 45 && pl.balls@[k].power <= 7
                    && pl.balls@[k].control <= 7
            &&& forall|k: int| 0 <= k < 8 ==> 1 <= #[trigger] pl.stats@[k] <= 127
            &&& pl.balls@[5].id != 37
        }),
{
    let list = all_looks(m, all_pieces(ranges, SCAN_OVER as int));
    let found = choose|found: Seq<Player>| #[trigger]
        gathered(m, list, found) && res == by_name(outer_only(found));
    let pl = res[i];
    assert(res.contains(pl));
    listed_is_what_is_kept(found, pl);
    let f = choose|f: int| 0 <= f < found.len() && found[f] == pl;
    found_are_players(m, list, found, f);
    numbers_of_a_candidate_at(m, ranges, pl);
    candidate_lies_in_a_region(m, ranges, pl.addr)
}

proof fn numbers_of_a_candidate_at(m: Memory, ranges: Seq<(u64, u64)>, pl: Player)
    requires
        all_looks(m, all_pieces(ranges, SCAN_OVER as int)).contains(pl.addr),
        is_player(m.bytes(pl.addr, PLAYER_READ as int), pl.addr, pl),
    ensures
        forall|k: int|
            0 <= k < 12 ==> (#[trigger] pl.balls@[k]).id <= 45 && pl.balls@[k].power <= 7
                && pl.balls@[k].control <= 7,
        forall|k: int| 0 <= k < 8 ==> 1 <= #[trigger] pl.stats@[k] <= 127,
        pl.balls@[5].id != 37,
{
    let region = candidate_lies_in_a_region(m, ranges, pl.addr);
    numbers_of_a_candidate(m.bytes(pl.addr, PLAYER_READ as int), pl.addr, pl);
}

/// The listed players stand in the order of their names, and no two of them have
/// the same name, abilities, speed and pitches.
pub proof fn listed_players_differ(
    m: Memory,
    ranges: Seq<(u64, u64)>,
    res: Seq<Player>,
    i: int,
    j: int,
)
    requires
        scanned(m, ranges, res),
        0 <= i < j < res.len(),
    ensures
        !crate::order::text_lt(res[j].name@, res[i].name@),
        !({
            let (x, y) = (res[i], res[j]);
            &&& x.name@ == y.name@
            &&& x.stats@ == y.stats@
            &&& x.speed == y.speed
            &&& forall|k: int|
                0 <= k < 12 ==> (#[trigger] x.balls@[k]).id == y.balls@[k].id && x.balls@[k].power
                    == y.balls@[k].power && x.balls@[k].control == y.balls@[k].control
        }),
{
    let list = all_looks(m, all_pieces(ranges, SCAN_OVER as int));
    let found = choose|found: Seq<Player>| #[trigger]
        gathered(m, list, found) && res == by_name(outer_only(found));
    assert(res.contains(res[i]));
    assert(res.contains(res[j]));
    listed_is_what_is_kept(found, res[i]);
    listed_is_what_is_kept(found, res[j]);
    let f = choose|f: int| 0 <= f < found.len() && found[f] == res[i];
    let g = choose|g: int| 0 <= g < found.len() && found[g] == res[j];
    crate::scan::scan_is_sorted_by_name(found, i, j);
    found_are_players(m, list, found, f);
    found_are_players(m, list, found, g);
    listed_once(m, list, found, i, j);
    let (x, y) = (res[i], res[j]);
    assert(x.balls@.len() == 12 && y.balls@.len() == 12);
    if f < g {
        assert(!alike(found[f], found[g]));
    } else {
        assert(!alike(found[g], found[f]));
        if alike(x, y) {
            alike_both_ways(x, y);
        }
    }
    assert(!alike(x, y));
}

proof fn kept_once(found: Seq<Player>, keep: spec_fn(Player) -> bool)
    requires
        found.no_duplicates(),
    ensures
        found.filter(keep).no_duplicates(),
    decreases found.len(),
{
    reveal(Seq::filter);
    if found.len() > 0 {
        let d = found.drop_last();
        kept_once(d, keep);
        let f = d.filter(keep);
        if f.contains(found.last()) {
            d.lemma_filter_contains_rev(keep, found.last());
            let k = choose|k: int| 0 <= k < d.len() && d[k] == found.last();
            assert(found[k] == found[found.len() - 1]);
        }
    }
}

proof fn listed_once(m: Memory, list: Seq<u64>, found: Seq<Player>, i: int, j: int)
    requires
        gathered(m, list, found),
        0 <= i < j < by_name(outer_only(found)).len(),
    ensures
        by_name(outer_only(found))[i] != by_name(outer_only(found))[j],
{
    broadcast use vstd::seq_lib::group_to_multiset_ensures;

    assert forall|x: int, y: int| 0 <= x < found.len() && 0 <= y < found.len() && x
        != y implies found[x] != found[y] by {
        let (lo, hi) = if x < y {
            (x, y)
        } else {
            (y, x)
        };
        found_are_players(m, list, found, hi);
        assert(!alike(found[lo], found[hi]));
        assert(alike(found[hi], found[hi]));
    }
    let s = outer_only(found);
    kept_once(found, |x: Player| is_outer(found, x));
    name_order();
    crate::order::sorting_orders(s, name_lt());
    s.lemma_multiset_has_no_duplicates();
    by_name(s).lemma_multiset_has_no_duplicates_conv();
}

proof fn alike_both_ways(a: Player, b: Player)
    requires
        alike(a, b),
    ensures
        alike(b, a),
{
    assert forall|k: int| 0 <= k < b.balls@.len() implies {
        &&& (#[trigger] b.balls@[k]).id == a.balls@[k].id
        &&& b.balls@[k].power == a.balls@[k].power
        &&& b.balls@[k].control == a.balls@[k].control
    } by {
        assert(a.balls@[k].id == b.balls@[k].id);
    }
}

/// How many bytes some regions have together.
pub open spec fn size_of_all(ranges: Seq<(u64, u64)>) -> int
    decreases ranges.len(),
{
    if ranges.len() == 0 {
        0
    } else {
        size_of_all(ranges.drop_last()) + ranges.last().1
    }
}

proof fn size_is_kept(ranges: Seq<(u64, u64)>)
    requires
        size_of_all(ranges) <= u64::MAX,
    ensures
        0 <= size_of_all(ranges),
        total_size(ranges) == size_of_all(ranges),
    decreases ranges.len(),
{
    if ranges.len() > 0 {
        size_is_kept(ranges.drop_last());
    }
}

proof fn done_of_both(p: Seq<Piece>, q: Seq<Piece>, k: int)
    requires
        0 <= k <= p.len() + q.len(),
    ensures
        done_after(p + q, k) == if k <= p.len() {
            done_after(p, k)
        } else {
            done_after(p, p.len() as int) + done_after(q, k - p.len())
        },
    decreases k,
{
    if k > 0 {
        done_of_both(p, q, k - 1);
        if k == p.len() + 1 {
            assert(done_after(q, 1) == done_after(q, 0) + q[0].step);
        }
    }
}

proof fn done_with_a_region(b: u64, size: u64, over: int, off: int)
    requires
        0 <= off,
    ensures
        ({
            let r = region_pieces(b, size, over, off);
            done_after(r, r.len() as int) == if off < size {
                size - off
            } else {
                0
            }
        }),
    decreases
            if off < size {
                size - off
            } else {
                0
            },
{
    let r = region_pieces(b, size, over, off);
    if off < size {
        let first = seq![piece_at(b, size, over, off)];
        let rest = region_pieces(b, size, over, off + crate::sweep::CHUNK);
        done_with_a_region(b, size, over, off + crate::sweep::CHUNK);
        done_of_both(first, rest, r.len() as int);
        assert(done_after(first, 1) == done_after(first, 0) + first[0].step);
        if rest.len() == 0 {
            assert(done_after(rest, 0) == 0);
        }
    }
}

proof fn done_with_all(ranges: Seq<(u64, u64)>, over: int)
    ensures
        ({
            let ps = all_pieces(ranges, over);
            done_after(ps, ps.len() as int) == size_of_all(ranges)
        }),
    decreases ranges.len(),
{
    if ranges.len() > 0 {
        let rest = all_pieces(ranges.drop_last(), over);
        let last = region_pieces(ranges.last().0, ranges.last().1, over, 0);
        done_with_all(ranges.drop_last(), over);
        done_with_a_region(ranges.last().0, ranges.last().1, over, 0);
        done_of_both(rest, last, (rest.len() + last.len()) as int);
        if last.len() == 0 {
            assert(done_after(last, 0) == 0);
        }
    }
}

proof fn done_never_falls(ps: Seq<Piece>, i: int, j: int)
    requires
        0 <= i <= j <= ps.len(),
    ensures
        0 <= done_after(ps, i) <= done_after(ps, j),
    decreases j,
{
    if j > 0 {
        if i < j {
            done_never_falls(ps, i, j - 1);
        } else {
            done_never_falls(ps, i - 1, j - 1);
        }
    }
}

/// What a scan reports as done never falls and never passes what there is in
/// all, and at the end everything is done.
pub proof fn progress_ends_at_the_total(ranges: Seq<(u64, u64)>, i: int, j: int)
    requires
        size_of_all(ranges) <= u64::MAX,
        0 <= i <= j < reports(
            all_pieces(ranges, SCAN_OVER as int),
            total_size(ranges),
        ).len(),
    ensures
        ({
            let r = reports(all_pieces(ranges, SCAN_OVER as int), total_size(ranges));
            let all = size_of_all(ranges) / 0x10_0000;
            &&& r[i].0 <= r[j].0 <= r[j].1
            &&& r[j].1 == all
            &&& r.last() == (all as u64, all as u64)
        }),
{
    let ps = all_pieces(ranges, SCAN_OVER as int);
    let n = ps.len() as int;
    size_is_kept(ranges);
    done_with_all(ranges, SCAN_OVER as int);
    done_never_falls(ps, i + 1, j + 1);
    done_never_falls(ps, j + 1, n);
    done_never_falls(ps, n, n);
}

} // verus!

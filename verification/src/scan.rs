//! Finding player objects in memory by what they look like.

use vstd::prelude::*;

use crate::balls::{BALL_EMPTY, BALL_MAX_ID};
use crate::offsets::{OFF_BALL, OFF_STATS, PLAYER_READ, REC_INNER};
use crate::order::text_before;
use crate::player::Player;
use crate::process::Proc;
use crate::sweep::{pieces, Piece};
use crate::text::{name_from, sane_name};

verus! {

/// How far a piece of a scan reaches into the next one.
pub const SCAN_OVER: usize = 0x1000;

/// The bytes from `q` on can be the pitches of a player. The sixth slot is
/// never empty, some slot is, no number is out of range, an empty slot is
/// empty throughout, and a second pitch comes with a first one.
pub open spec fn pitches_at(b: Seq<u8>, q: int) -> bool {
    &&& b[q + 15] != BALL_EMPTY
    &&& forall|k: int|
        0 <= k < 12 ==> {
            &&& #[trigger] b[q + 3 * k] <= BALL_MAX_ID
            &&& b[q + 3 * k + 1] <= 63
            &&& b[q + 3 * k + 2] <= 7
            &&& b[q + 3 * k] == BALL_EMPTY ==> b[q + 3 * k + 1] == 0 && b[q + 3 * k + 2] == 0
        }
    &&& exists|k: int| 0 <= k < 12 && #[trigger] b[q + 3 * k] == BALL_EMPTY
    &&& forall|k: int|
        0 <= k < 6 && #[trigger] b[q + 3 * k] == BALL_EMPTY ==> b[q + 3 * (k + 6)] == BALL_EMPTY
}

/// The eight abilities from `q` on are in range.
pub open spec fn stats_at(b: Seq<u8>, q: int) -> bool {
    forall|i: int| q <= i < q + 8 ==> 1 <= #[trigger] b[i] <= 127
}

/// A player object can start at `ob` of a buffer.
pub open spec fn looks_like_player(b: Seq<u8>, ob: int) -> bool {
    pitches_at(b, ob + OFF_BALL) && stats_at(b, ob + OFF_STATS)
}

/// Where among the first `n` places of a buffer from `addr` on a player object
/// can start.
pub open spec fn looks_in(b: Seq<u8>, addr: u64, n: int) -> Seq<u64>
    decreases n,
{
    if n <= 0 {
        seq![]
    } else {
        let rest = looks_in(b, addr, n - 1);
        if looks_like_player(b, n - 1) {
            rest.push(crate::process::at(addr, n - 1))
        } else {
            rest
        }
    }
}

/// How many places of a buffer a player object can start at.
pub open spec fn starts(b: Seq<u8>) -> int {
    if b.len() > 36 + OFF_BALL {
        b.len() - 36 - OFF_BALL
    } else {
        0
    }
}

/// Where in one piece of memory player objects can start.
pub open spec fn piece_looks(m: crate::process::Memory, p: Piece) -> Seq<u64> {
    match m.fetch(p.addr, p.len as int) {
        Some(b) => looks_in(b, p.addr, starts(b)),
        None => seq![],
    }
}

/// Where in several pieces of memory player objects can start.
pub open spec fn all_looks(m: crate::process::Memory, ps: Seq<Piece>) -> Seq<u64>
    decreases ps.len(),
{
    if ps.len() == 0 {
        seq![]
    } else {
        all_looks(m, ps.drop_last()) + piece_looks(m, ps.last())
    }
}

/// Two readings are of the same player: same name, abilities, speed and
/// pitches.
pub open spec fn alike(a: Player, b: Player) -> bool {
    &&& a.name@ == b.name@
    &&& a.stats@ == b.stats@
    &&& a.speed == b.speed
    &&& a.balls@.len() == b.balls@.len()
    &&& forall|k: int|
        0 <= k < a.balls@.len() ==> {
            &&& (#[trigger] a.balls@[k]).id == b.balls@[k].id
            &&& a.balls@[k].power == b.balls@[k].power
            &&& a.balls@[k].control == b.balls@[k].control
        }
}

/// No player of a list is like `pl`.
pub open spec fn is_new(found: Seq<Player>, pl: Player) -> bool {
    forall|i: int| 0 <= i < found.len() ==> !alike(#[trigger] found[i], pl)
}

/// The bytes at `a` are those of a player object with a sane name.
pub open spec fn good_at(m: crate::process::Memory, a: u64) -> bool {
    m.fetch(a, PLAYER_READ as int) is Some && crate::text::is_sane(
        crate::text::name_in(m.bytes(a, PLAYER_READ as int)),
    )
}

/// `found` holds the player objects at some addresses, in their order, each
/// that is like an earlier one left out.
pub open spec fn gathered(m: crate::process::Memory, at: Seq<u64>, found: Seq<Player>) -> bool
    decreases at.len(),
{
    if at.len() == 0 {
        found.len() == 0
    } else {
        let a = at.last();
        let rest = at.drop_last();
        ||| !good_at(m, a) && gathered(m, rest, found)
        ||| good_at(m, a) && gathered(m, rest, found) && exists|pl: Player|
            #[trigger] crate::player::is_player(m.bytes(a, PLAYER_READ as int), a, pl) && !is_new(
                found,
                pl,
            )
        ||| good_at(m, a) && found.len() > 0 && gathered(m, rest, found.drop_last())
            && crate::player::is_player(m.bytes(a, PLAYER_READ as int), a, found.last()) && is_new(
            found.drop_last(),
            found.last(),
        )
    }
}

/// The name of the last player of a list that stands at `a`.
pub open spec fn last_name_at(v: Seq<Player>, a: u64) -> Option<Seq<char>>
    decreases v.len(),
{
    if v.len() == 0 {
        None
    } else if v.last().addr == a {
        Some(v.last().name@)
    } else {
        last_name_at(v.drop_last(), a)
    }
}

/// `pl` is not the second copy of a player of the list.
pub open spec fn is_outer(v: Seq<Player>, pl: Player) -> bool {
    pl.addr < REC_INNER || last_name_at(v, (pl.addr - REC_INNER) as u64) != Some(pl.name@)
}

/// The players of a list without second copies.
pub open spec fn outer_only(v: Seq<Player>) -> Seq<Player> {
    v.filter(|pl: Player| is_outer(v, pl))
}

/// Players in the order of their names.
pub open spec fn name_lt() -> spec_fn(Player, Player) -> bool {
    |a: Player, b: Player| crate::order::text_lt(a.name@, b.name@)
}

/// Players sorted by name.
pub open spec fn by_name(v: Seq<Player>) -> Seq<Player> {
    crate::order::in_order(v, name_lt())
}

/// What a scan of some regions gives.
pub open spec fn scanned(
    m: crate::process::Memory,
    ranges: Seq<(u64, u64)>,
    res: Seq<Player>,
) -> bool {
    exists|found: Seq<Player>| #[trigger]
        gathered(m, all_looks(m, crate::sweep::all_pieces(ranges, SCAN_OVER as int)), found) && res
            == by_name(outer_only(found))
}

/// The thirty-six bytes can be the pitches of a player.
pub fn ball_sig_ok(b: &[u8]) -> (res: bool)
    requires
        b@.len() >= 36,
    ensures
        res == pitches_at(b@, 0),
{
    pitches_ok(b, 0)
}

fn pitches_ok(b: &[u8], q: usize) -> (res: bool)
    requires
        q + 36 <= b@.len(),
    ensures
        res == pitches_at(b@, q as int),
{
    let n: usize = b.len();
    assert(q + 36 <= n);
    if b[q + 15] == BALL_EMPTY {
        return false;
    }
    let mut any = false;
    let mut k: usize = 0;
    while k < 12
        invariant
            k <= 12,
            q + 36 <= n,
            n == b@.len(),
            b@[q + 15] != BALL_EMPTY,
            forall|j: int|
                0 <= j < k ==> {
                    &&& #[trigger] b@[q + 3 * j] <= BALL_MAX_ID
                    &&& b@[q + 3 * j + 1] <= 63
                    &&& b@[q + 3 * j + 2] <= 7
                    &&& b@[q + 3 * j] == BALL_EMPTY ==> b@[q + 3 * j + 1] == 0 && b@[q + 3 * j + 2]
                        == 0
                },
            any == exists|j: int| 0 <= j < k && #[trigger] b@[q + 3 * j] == BALL_EMPTY,
        decreases 12 - k,
    {
        let (id, pw, ct) = (b[q + 3 * k], b[q + 3 * k + 1], b[q + 3 * k + 2]);
        assert(b@[q + 3 * k as int] == id);
        if id > BALL_MAX_ID || pw > 63 || ct > 7 {
            return false;
        }
        if id == BALL_EMPTY {
            if pw != 0 || ct != 0 {
                return false;
            }
            any = true;
        }
        k += 1;
    }
    if !any {
        return false;
    }
    let mut j: usize = 0;
    while j < 6
        invariant
            j <= 6,
            q + 36 <= n,
            n == b@.len(),
            forall|i: int|
                0 <= i < j && #[trigger] b@[q + 3 * i] == BALL_EMPTY ==> b@[q + 3 * (i + 6)]
                    == BALL_EMPTY,
        decreases 6 - j,
    {
        if b[q + 3 * j] == BALL_EMPTY && b[q + 3 * (j + 6)] != BALL_EMPTY {
            assert(b@[q + 3 * j as int] == BALL_EMPTY);
            return false;
        }
        j += 1;
    }
    true
}

fn stats_ok(b: &[u8], q: usize) -> (res: bool)
    requires
        q + 8 <= b@.len(),
    ensures
        res == stats_at(b@, q as int),
{
    let n: usize = b.len();
    assert(q + 8 <= n);
    let mut i: usize = q;
    while i < q + 8
        invariant
            q <= i <= q + 8,
            q + 8 <= n == b@.len(),
            forall|j: int| q <= j < i ==> 1 <= #[trigger] b@[j] <= 127,
        decreases q + 8 - i,
    {
        if b[i] < 1 || b[i] > 127 {
            assert(b@[i as int] < 1 || b@[i as int] > 127);
            return false;
        }
        i += 1;
    }
    true
}

/// Where in a buffer from `addr` on player objects can start.
pub fn player_candidates(buf: &[u8], addr: u64) -> (res: Vec<u64>)
    ensures
        res@ == looks_in(buf@, addr, starts(buf@)),
{
    let mut out: Vec<u64> = Vec::new();
    let len: usize = buf.len();
    if len <= 36 + OFF_BALL {
        return out;
    }
    let n: usize = len - 36 - OFF_BALL;
    let mut ob: usize = 0;
    while ob < n
        invariant
            ob <= n,
            len == buf@.len(),
            n == len - 36 - OFF_BALL,
            out@ == looks_in(buf@, addr, ob as int),
        decreases n - ob,
    {
        if pitches_ok(buf, ob + OFF_BALL) && stats_ok(buf, ob + OFF_STATS) {
            out.push(addr.wrapping_add(ob as u64));
        }
        ob += 1;
    }
    out
}

fn same_stats(a: &[u8; 8], b: &[u8; 8]) -> (res: bool)
    ensures
        res == (a@ == b@),
{
    let mut i: usize = 0;
    while i < 8
        invariant
            i <= 8,
            forall|j: int| 0 <= j < i ==> a@[j] == b@[j],
        decreases 8 - i,
    {
        if a[i] != b[i] {
            return false;
        }
        i += 1;
    }
    assert(a@ =~= b@);
    true
}

fn are_alike(a: &Player, b: &Player) -> (res: bool)
    ensures
        res == alike(*a, *b),
{
    if a.name != b.name || !same_stats(&a.stats, &b.stats) || a.speed != b.speed || a.balls.len()
        != b.balls.len() {
        return false;
    }
    let mut k: usize = 0;
    while k < a.balls.len()
        invariant
            k <= a.balls@.len() == b.balls@.len(),
            forall|j: int|
                0 <= j < k ==> {
                    &&& (#[trigger] a.balls@[j]).id == b.balls@[j].id
                    &&& a.balls@[j].power == b.balls@[j].power
                    &&& a.balls@[j].control == b.balls@[j].control
                },
        decreases a.balls@.len() - k,
    {
        let (x, y) = (a.balls[k], b.balls[k]);
        if x.id != y.id || x.power != y.power || x.control != y.control {
            assert(a.balls@[k as int] == x);
            return false;
        }
        k += 1;
    }
    true
}

fn player_is_new(found: &Vec<Player>, pl: &Player) -> (res: bool)
    ensures
        res == is_new(found@, *pl),
{
    let mut i: usize = 0;
    while i < found.len()
        invariant
            i <= found@.len(),
            forall|j: int| 0 <= j < i ==> !alike(#[trigger] found@[j], *pl),
        decreases found@.len() - i,
    {
        if are_alike(&found[i], pl) {
            assert(alike(found@[i as int], *pl));
            return false;
        }
        i += 1;
    }
    true
}

/// `after` is `before` with the player whose object at `addr` has the bytes
/// `raw`, unless the name is not sane or a player like it is there already.
pub open spec fn offered(before: Seq<Player>, raw: Seq<u8>, addr: u64, after: Seq<Player>) -> bool {
    let good = raw.len() >= PLAYER_READ && crate::text::is_sane(crate::text::name_in(raw));
    ||| !good && after == before
    ||| good && after == before && exists|pl: Player| #[trigger]
        crate::player::is_player(raw, addr, pl) && !is_new(before, pl)
    ||| good && after.len() == before.len() + 1 && after.drop_last() == before
        && crate::player::is_player(raw, addr, after.last()) && is_new(before, after.last())
}

/// Adds the player whose object has the bytes `raw` to those that were found,
/// unless the name is not sane or a player like it is there already.
pub fn offer_player(found: &mut Vec<Player>, raw: &[u8], addr: u64)
    ensures
        offered(old(found)@, raw@, addr, final(found)@),
{
    let name = name_from(raw);
    if !sane_name(name.as_str()) {
        return;
    }
    match Player::parse(raw, addr) {
        Some(pl) => {
            if player_is_new(found, &pl) {
                found.push(pl);
                assert(found@.drop_last() =~= old(found)@);
            } else {
                assert(crate::player::is_player(raw@, addr, pl) && !is_new(old(found)@, pl));
            }
        },
        None => {},
    }
}

/// Whether `pl` is not the second copy of a player of the list.
fn outer(v: &Vec<Player>, i: usize) -> (res: bool)
    requires
        i < v@.len(),
    ensures
        res == is_outer(v@, v@[i as int]),
{
    if v[i].addr < REC_INNER {
        return true;
    }
    let a = v[i].addr - REC_INNER;
    let mut k: usize = v.len();
    assert(v@.take(k as int) =~= v@);
    while k > 0
        invariant
            k <= v@.len(),
            i < v@.len(),
            v@[i as int].addr >= REC_INNER,
            a == v@[i as int].addr - REC_INNER,
            last_name_at(v@, a) == last_name_at(v@.take(k as int), a),
        decreases k,
    {
        assert(v@.take(k as int).drop_last() =~= v@.take(k - 1));
        if v[k - 1].addr == a {
            return v[k - 1].name != v[i].name;
        }
        k -= 1;
    }
    true
}

/// Drops every player that is the second copy of another one of the list: the
/// game's records hold each player twice, and the second copy is out of date.
pub fn drop_inner_copies(v: &mut Vec<Player>)
    ensures
        final(v)@ == outer_only(old(v)@),
{
    let ghost start = v@;
    let ghost keep = |pl: Player| is_outer(start, pl);
    let n: usize = v.len();
    let mut flags: Vec<bool> = Vec::new();
    let mut i: usize = 0;
    while i < n
        invariant
            i <= n == v@.len(),
            v@ == start,
            flags@.len() == i,
            forall|j: int| 0 <= j < i ==> #[trigger] flags@[j] == is_outer(start, start[j]),
        decreases n - i,
    {
        flags.push(outer(v, i));
        i += 1;
    }
    let mut k: usize = 0;
    let mut at: usize = 0;
    assert(start.take(0).filter(keep) =~= Seq::empty()) by {
        reveal(Seq::filter);
    }
    assert(v@ =~= start.take(0).filter(keep) + start.skip(0));
    while k < n
        invariant
            k <= n == start.len() == flags@.len(),
            keep == (|pl: Player| is_outer(start, pl)),
            forall|j: int| 0 <= j < n ==> #[trigger] flags@[j] == is_outer(start, start[j]),
            v@ == start.take(k as int).filter(keep) + start.skip(k as int),
            at == start.take(k as int).filter(keep).len(),
        decreases n - k,
    {
        let ghost done = start.take(k as int).filter(keep);
        proof {
            reveal(Seq::filter);
            assert(start.take(k + 1).drop_last() =~= start.take(k as int));
            assert(v@[at as int] == start[k as int]);
        }
        if flags[k] {
            at += 1;
            assert(done.push(start[k as int]) + start.skip(k + 1) =~= done + start.skip(k as int));
        } else {
            v.remove(at);
            assert(v@ =~= done + start.skip(k + 1));
        }
        k += 1;
    }
    assert(start.take(k as int) =~= start);
    assert(v@ =~= outer_only(start));
}

/// Sorts players by name. Players of the same name stay in their order.
pub fn sort_by_name(v: &mut Vec<Player>)
    ensures
        final(v)@ == by_name(old(v)@),
{
    let ghost start = v@;
    let ghost lt = name_lt();
    let n: usize = v.len();
    let mut i: usize = 0;
    assert(v@ =~= by_name(start.take(0)) + start.skip(0));
    while i < n
        invariant
            i <= n == start.len(),
            lt == name_lt(),
            v@ == by_name(start.take(i as int)) + start.skip(i as int),
            by_name(start.take(i as int)).len() == i,
        decreases n - i,
    {
        let ghost s = by_name(start.take(i as int));
        let ghost x = start[i as int];
        assert(start.take(i + 1).drop_last() =~= start.take(i as int));
        assert(v@[i as int] == x);
        let mut j: usize = i;
        while j > 0 && text_before(v[i].name.as_str(), v[j - 1].name.as_str())
            invariant
                j <= i < n == v@.len(),
                lt == name_lt(),
                v@ == s + start.skip(i as int),
                s.len() == i,
                v@[i as int] == x,
                forall|k: int| j <= k < i ==> lt(x, #[trigger] s[k]),
            decreases j,
        {
            assert(s[j - 1] == v@[j - 1]);
            j -= 1;
        }
        proof {
            if j > 0 {
                assert(s[j - 1] == v@[j - 1]);
            }
            crate::order::placed_at(s, x, lt, j as int);
            s.insert_ensures(j as int, x);
        }
        let pl = v.remove(i);
        v.insert(j, pl);
        assert(v@ =~= s.insert(j as int, x) + start.skip(i + 1));
        i += 1;
    }
    assert(start.take(i as int) =~= start);
    assert(v@ =~= by_name(start));
}

/// Puts the players that a scan has found into their final form.
pub fn finish_scan(found: &mut Vec<Player>)
    ensures
        final(found)@ == by_name(outer_only(old(found)@)),
{
    drop_inner_copies(found);
    sort_by_name(found);
}

/// What is reported after each piece of a scan: how much is done and how much
/// there is, in mebibytes.
pub open spec fn reports(ps: Seq<Piece>, total: u64) -> Seq<(u64, u64)> {
    Seq::new(
        ps.len(),
        |i: int|
            (
                (crate::sweep::done_after(ps, i + 1) % 0x1_0000_0000_0000_0000 / 0x10_0000) as u64,
                (total / 0x10_0000) as u64,
            ),
    )
}

/// The size of all regions together.
pub open spec fn total_size(ranges: Seq<(u64, u64)>) -> u64
    decreases ranges.len(),
{
    if ranges.len() == 0 {
        0
    } else {
        total_size(ranges.drop_last()).wrapping_add(ranges.last().1)
    }
}

/// What is reported after each piece of a scan of some regions.
pub fn scan_reports(ranges: &[(u64, u64)]) -> (res: Vec<(u64, u64)>)
    ensures
        res@ == reports(
            crate::sweep::all_pieces(ranges@, SCAN_OVER as int),
            total_size(ranges@),
        ),
{
    let mut total: u64 = 0;
    let mut r: usize = 0;
    while r < ranges.len()
        invariant
            r <= ranges@.len(),
            total == total_size(ranges@.take(r as int)),
        decreases ranges@.len() - r,
    {
        assert(ranges@.take(r + 1).drop_last() =~= ranges@.take(r as int));
        total = total.wrapping_add(ranges[r].1);
        r += 1;
    }
    assert(ranges@.take(r as int) =~= ranges@);
    let ps = pieces(ranges, SCAN_OVER);
    let mut done: u64 = 0;
    let mut out: Vec<(u64, u64)> = Vec::new();
    let mut i: usize = 0;
    while i < ps.len()
        invariant
            i <= ps@.len(),
            done == crate::sweep::done_after(ps@, i as int) % 0x1_0000_0000_0000_0000,
            out@ == reports(ps@, total).take(i as int),
        decreases ps@.len() - i,
    {
        proof {
            let x = crate::sweep::done_after(ps@, i as int);
            let s = ps@[i as int].step as int;
            vstd::arithmetic::div_mod::lemma_add_mod_noop(x, s, 0x1_0000_0000_0000_0000);
        }
        done = done.wrapping_add(ps[i].step);
        out.push((done / 0x10_0000, total / 0x10_0000));
        i += 1;
        assert(out@ =~= reports(ps@, total).take(i as int));
    }
    assert(out@ =~= reports(ps@, total));
    out
}

/// A scan that is under way, one read at a time. Whoever can read the game asks
/// what is wanted next, reads it, and hands the bytes over.
pub struct Scan {
    /// The pieces of memory to go through, in order.
    pub pieces: Vec<Piece>,
    /// What is reported after each of them.
    pub reports: Vec<(u64, u64)>,
    /// How many pieces were answered.
    pub next: usize,
    /// Where in the last of them player objects can start.
    pub starts: Vec<u64>,
    /// How many of those were answered.
    pub seen: usize,
    /// The players that were found.
    pub found: Vec<Player>,
}

impl Scan {
    /// The numbers of what was answered are in range.
    pub open spec fn is_valid(self) -> bool {
        &&& self.reports@.len() == self.pieces@.len()
        &&& self.next <= self.pieces@.len()
        &&& self.seen <= self.starts@.len()
        &&& self.next == 0 ==> self.starts@.len() == 0
    }

    /// What is to be read next: the player objects that can start in the last
    /// piece, and then the next piece.
    pub open spec fn wanted(self) -> Option<(u64, u64)> {
        if self.seen < self.starts@.len() {
            Some((self.starts@[self.seen as int], PLAYER_READ as u64))
        } else if self.next < self.pieces@.len() {
            Some((self.pieces@[self.next as int].addr, self.pieces@[self.next as int].len))
        } else {
            None
        }
    }

    /// The scan after an answer to what was wanted.
    pub open spec fn answered(self, answer: Option<Seq<u8>>, after: Scan) -> bool {
        if self.seen < self.starts@.len() {
            &&& after == (Scan { seen: after.seen, found: after.found, ..self })
            &&& after.seen == self.seen + 1
            &&& match answer {
                Some(raw) => offered(
                    self.found@,
                    raw,
                    self.starts@[self.seen as int],
                    after.found@,
                ),
                None => after.found@ == self.found@,
            }
        } else if self.next < self.pieces@.len() {
            &&& after == (Scan { next: after.next, starts: after.starts, seen: 0, ..self })
            &&& after.next == self.next + 1
            &&& after.starts@ == match answer {
                Some(b) => looks_in(b, self.pieces@[self.next as int].addr, starts(b)),
                None => seq![],
            }
        } else {
            after == self
        }
    }

    /// The addresses that the scan has been told of.
    pub open spec fn told(self, m: crate::process::Memory) -> Seq<u64> {
        if self.next == 0 {
            seq![]
        } else {
            all_looks(m, self.pieces@.take(self.next - 1)) + self.starts@.take(self.seen as int)
        }
    }

    /// What was found so far is what the memory holds where the scan has been.
    pub open spec fn finds(self, m: crate::process::Memory) -> bool {
        &&& self.is_valid()
        &&& self.next > 0 ==> self.starts@ == piece_looks(m, self.pieces@[self.next - 1])
        &&& gathered(m, self.told(m), self.found@)
    }

    /// A scan of some regions that has just begun.
    pub fn new(ranges: &[(u64, u64)]) -> (res: Scan)
        ensures
            res.is_valid(),
            res.pieces@ == crate::sweep::all_pieces(ranges@, SCAN_OVER as int),
            res.reports@ == reports(res.pieces@, total_size(ranges@)),
            res.next == 0,
            res.starts@.len() == 0,
            res.seen == 0,
            res.found@.len() == 0,
            forall|m: crate::process::Memory| #[trigger] res.finds(m),
    {
        Scan {
            pieces: pieces(ranges, SCAN_OVER),
            reports: scan_reports(ranges),
            next: 0,
            starts: Vec::new(),
            seen: 0,
            found: Vec::new(),
        }
    }

    /// What is to be read next: address and length.
    pub fn want(&self) -> (res: Option<(u64, u64)>)
        ensures
            res == self.wanted(),
    {
        if self.seen < self.starts.len() {
            Some((self.starts[self.seen], PLAYER_READ as u64))
        } else if self.next < self.pieces.len() {
            let p = self.pieces[self.next];
            Some((p.addr, p.len))
        } else {
            None
        }
    }

    /// Takes what was read, `None` where it could not be. When a piece is done
    /// with, what is to be reported is returned.
    pub fn take(&mut self, answer: Option<Vec<u8>>) -> (res: Option<(u64, u64)>)
        requires
            old(self).is_valid(),
        ensures
            final(self).is_valid(),
            old(self).answered(crate::search::said(answer), *final(self)),
            res == if old(self).wanted() is Some && final(self).seen == final(self).starts@.len() {
                Some(final(self).reports@[final(self).next - 1])
            } else {
                None
            },
    {
        if self.seen < self.starts.len() {
            let n: usize = self.starts.len();
            let a = self.starts[self.seen];
            if let Some(raw) = &answer {
                offer_player(&mut self.found, raw, a);
            }
            assert(self.seen < n);
            self.seen = self.seen + 1;
        } else if self.next < self.pieces.len() {
            let n: usize = self.pieces.len();
            let p = self.pieces[self.next];
            self.starts = match &answer {
                Some(buf) => player_candidates(buf, p.addr),
                None => Vec::new(),
            };
            assert(answer is None ==> self.starts@ =~= seq![]);
            self.seen = 0;
            assert(self.next < n);
            self.next = self.next + 1;
        } else {
            return None;
        }
        if self.seen == self.starts.len() {
            Some(self.reports[self.next - 1])
        } else {
            None
        }
    }

    /// The players that were found, sorted by name.
    pub fn finish(self) -> (res: Vec<Player>)
        ensures
            res@ == by_name(outer_only(self.found@)),
    {
        let mut found = self.found;
        finish_scan(&mut found);
        found
    }
}

/// A scan that is answered out of a memory finds what that memory holds.
pub proof fn scan_answers_add_up(m: crate::process::Memory, a: Scan, b: Scan)
    requires
        a.finds(m),
        a.wanted() is Some,
        a.answered(m.fetch((a.wanted()->0).0, (a.wanted()->0).1 as int), b),
        b.is_valid(),
    ensures
        b.finds(m),
{
    if a.seen < a.starts@.len() {
        let x = a.starts@[a.seen as int];
        let upto = b.told(m);
        assert(upto.drop_last() =~= a.told(m));
        assert(upto.last() == x);
        if m.fetch(x, PLAYER_READ as int) is Some {
            assert(m.fetch(x, PLAYER_READ as int)->0 == m.bytes(x, PLAYER_READ as int));
        }
    } else {
        told_of_whole_pieces(m, a);
        assert(b.starts@.take(0) =~= seq![]);
        assert(b.told(m) =~= a.told(m));
    }
}

proof fn told_of_whole_pieces(m: crate::process::Memory, s: Scan)
    requires
        s.finds(m),
        s.seen == s.starts@.len(),
    ensures
        s.told(m) == all_looks(m, s.pieces@.take(s.next as int)),
{
    if s.next > 0 {
        assert(s.pieces@.take(s.next as int).drop_last() =~= s.pieces@.take(s.next - 1));
        assert(s.pieces@.take(s.next as int).last() == s.pieces@[s.next - 1]);
        assert(s.starts@.take(s.seen as int) =~= s.starts@);
    } else {
        assert(s.pieces@.take(0) =~= seq![]);
    }
}

/// A scan that wants nothing more has gone through all of its pieces.
pub proof fn finished_scan_is_complete(m: crate::process::Memory, s: Scan)
    requires
        s.finds(m),
        s.wanted() is None,
    ensures
        gathered(m, all_looks(m, s.pieces@), s.found@),
{
    told_of_whole_pieces(m, s);
    assert(s.pieces@.take(s.next as int) =~= s.pieces@);
}

/// The player objects of some regions, sorted by name.
pub fn scan_players_in(p: &Proc, ranges: &[(u64, u64)]) -> (res: Vec<Player>)
    ensures
        scanned(p@, ranges@, res@),
{
    let mut s = Scan::new(ranges);
    loop
        invariant
            s.pieces@ == crate::sweep::all_pieces(ranges@, SCAN_OVER as int),
            s.finds(p@),
        ensures
            s.wanted() is None,
        decreases s.pieces@.len() - s.next, s.starts@.len() - s.seen,
    {
        match s.want() {
            Some((a, n)) => {
                let ghost before = s;
                let _ = s.take(p.read_range(a, n));
                proof {
                    scan_answers_add_up(p@, before, s);
                }
            },
            None => {
                break;
            },
        }
    }
    proof {
        finished_scan_is_complete(p@, s);
    }
    s.finish()
}

/// The player objects of the whole game, sorted by name.
pub fn scan_players(p: &Proc) -> (res: Vec<Player>)
    ensures
        scanned(p@, crate::process::writable_part(p@.layout), res@),
{
    scan_players_in(p, &p.writable_ranges())
}

/// No player of the result of a scan is the second copy of a player that was
/// found, and the names are in order.
pub proof fn scan_is_sorted_by_name(found: Seq<Player>, i: int, j: int)
    requires
        0 <= i < j < by_name(outer_only(found)).len(),
    ensures
        !crate::order::text_lt(
            by_name(outer_only(found))[j].name@,
            by_name(outer_only(found))[i].name@,
        ),
        is_outer(found, by_name(outer_only(found))[i]),
{
    broadcast use vstd::seq_lib::group_to_multiset_ensures;

    let s = outer_only(found);
    let lt = name_lt();
    assert(crate::order::is_order(lt)) by {
        assert forall|a: Player, b: Player| #![trigger lt(a, b)] lt(a, b) implies !lt(b, a) by {
            crate::order::text_order(a.name@, b.name@, b.name@);
        }
        assert forall|a: Player, b: Player, c: Player|
            #![trigger lt(a, b), lt(b, c)]
            !lt(a, b) && !lt(b, c) implies !lt(a, c) by {
            crate::order::text_order(a.name@, b.name@, c.name@);
        }
    }
    crate::order::sorting_orders(s, lt);
    let r = by_name(s);
    assert(!lt(r[j], r[i]));
    assert(r.to_multiset().count(r[i]) > 0) by {
        assert(r.contains(r[i]));
    }
    assert(s.contains(r[i]));
    let k = choose|k: int| 0 <= k < s.len() && s[k] == r[i];
    found.lemma_filter_pred(|pl: Player| is_outer(found, pl), k);
}

} // verus!

//! What holds of searching for a pattern and patching what was found.

use vstd::prelude::*;

use crate::pattern::{
    all_hits, byte_wanted, code_hits, code_site, code_sites, fits, hits_in, item_bytes, item_site, pattern_of, piece_hits,
    places, word_end, words, ITEM_INC_AOB,
};
use crate::process::{at, Memory};
use crate::sweep::{
    all_pieces, nothing_is_missed, pieces_come_from_regions, pieces_stay_inside, region_is_cut,
    region_pieces, Piece,
};

verus! {

/// Every place of a buffer that fits the pattern is reported by a search.
pub proof fn hits_are_the_fits(buf: Seq<u8>, addr: u64, pat: Seq<Option<u8>>, n: int, q: int)
    requires
        0 <= q < n,
        fits(buf, q, pat),
    ensures
        hits_in(buf, addr, pat, n).contains(at(addr, q)),
    decreases n,
{
    let all = hits_in(buf, addr, pat, n);
    let rest = hits_in(buf, addr, pat, n - 1);
    if q < n - 1 {
        hits_are_the_fits(buf, addr, pat, n - 1, q);
        let j = choose|j: int| 0 <= j < rest.len() && rest[j] == at(addr, q);
        assert(all[j] == at(addr, q));
    } else {
        assert(all[rest.len() as int] == at(addr, q));
    }
}

/// Every place that a search of a buffer reports fits the pattern.
pub proof fn hits_fit(buf: Seq<u8>, addr: u64, pat: Seq<Option<u8>>, n: int, j: int)
    requires
        0 <= j < hits_in(buf, addr, pat, n).len(),
    ensures
        exists|q: int|
            0 <= q < n && #[trigger] fits(buf, q, pat) && hits_in(buf, addr, pat, n)[j] == at(addr, q),
    decreases n,
{
    if n > 0 {
        let rest = hits_in(buf, addr, pat, n - 1);
        if j < rest.len() {
            hits_fit(buf, addr, pat, n - 1, j);
            let q = choose|q: int| 0 <= q < n - 1 && #[trigger] fits(buf, q, pat) && rest[j] == at(addr, q);
            assert(fits(buf, q, pat));
        } else {
            assert(fits(buf, n - 1, pat));
        }
    }
}

proof fn hits_of_pieces(m: Memory, ps: Seq<Piece>, pat: Seq<Option<u8>>, k: int, a: u64)
    requires
        0 <= k < ps.len(),
        piece_hits(m, ps[k], pat).contains(a),
    ensures
        all_hits(m, ps, pat).contains(a),
    decreases ps.len(),
{
    let rest = all_hits(m, ps.drop_last(), pat);
    let last = piece_hits(m, ps.last(), pat);
    if k < ps.len() - 1 {
        assert(ps.drop_last()[k] == ps[k]);
        hits_of_pieces(m, ps.drop_last(), pat, k, a);
        let j = choose|j: int| 0 <= j < rest.len() && rest[j] == a;
        assert((rest + last)[j] == a);
    } else {
        let j = choose|j: int| 0 <= j < last.len() && last[j] == a;
        assert((rest + last)[rest.len() + j] == a);
    }
}

/// What is found in several pieces is found in one of them.
proof fn hits_come_from_pieces(m: Memory, ps: Seq<Piece>, pat: Seq<Option<u8>>, a: u64) -> (k: int)
    requires
        all_hits(m, ps, pat).contains(a),
    ensures
        0 <= k < ps.len(),
        piece_hits(m, ps[k], pat).contains(a),
    decreases ps.len(),
{
    let all = all_hits(m, ps, pat);
    let rest = all_hits(m, ps.drop_last(), pat);
    let last = piece_hits(m, ps.last(), pat);
    let j = choose|j: int| 0 <= j < all.len() && all[j] == a;
    if j < rest.len() {
        assert(rest[j] == a);
        hits_come_from_pieces(m, ps.drop_last(), pat, a)
    } else {
        assert(last[j - rest.len()] == a);
        ps.len() - 1
    }
}

/// What a search of regions finds lies in one of them and fits the pattern.
pub proof fn every_find_fits(
    m: Memory,
    ranges: Seq<(u64, u64)>,
    over: int,
    pat: Seq<Option<u8>>,
    a: u64,
) -> (res: (int, int))
    requires
        0 <= over,
        all_hits(m, all_pieces(ranges, over), pat).contains(a),
    ensures
        0 <= res.0 < ranges.len(),
        0 <= res.1,
        res.1 + pat.len() <= ranges[res.0].1,
        a == at(ranges[res.0].0, res.1),
        m.holds(a, pat.len() as int),
        fits(m.bytes(a, pat.len() as int), 0, pat),
{
    let ps = all_pieces(ranges, over);
    let i = hits_come_from_pieces(m, ps, pat, a);
    let (r, k) = pieces_come_from_regions(ranges, over, i);
    let (b, size) = ranges[r];
    let p = ps[i];
    pieces_stay_inside(b, size, over, 0, k);
    let n = p.len as int;
    let buf = m.bytes(p.addr, n);
    let h = piece_hits(m, p, pat);
    let j = choose|j: int| 0 <= j < h.len() && h[j] == a;
    hits_fit(buf, p.addr, pat, places(buf, pat), j);
    let q = choose|q: int|
        0 <= q < places(buf, pat) && #[trigger] fits(buf, q, pat) && h[j] == at(p.addr, q);
    let from = k * crate::sweep::CHUNK + q;
    assert(a == at(b, from));
    assert forall|x: int| 0 <= x < pat.len() implies m.cells.dom().contains(#[trigger] at(a, x))
        && m.cells[at(a, x)].byte == buf[q + x] by {
        assert(at(a, x) == at(p.addr, q + x));
        assert(m.cells.dom().contains(at(p.addr, q + x)));
    }
    let o = m.bytes(a, pat.len() as int);
    assert forall|x: int| 0 <= x < pat.len() implies (#[trigger] pat[x] is Some ==> o[0 + x]
        == pat[x]->0) by {
        assert(o[x] == m.cells[at(a, x)].byte);
    }
    (r, from)
}

/// A search of fewer regions finds nothing that a search of all does not.
pub proof fn more_regions_find_more(
    m: Memory,
    part: Seq<(u64, u64)>,
    all: Seq<(u64, u64)>,
    over: int,
    pat: Seq<Option<u8>>,
    a: u64,
)
    requires
        forall|i: int| 0 <= i < part.len() ==> all.contains(#[trigger] part[i]),
        all_hits(m, all_pieces(part, over), pat).contains(a),
    ensures
        all_hits(m, all_pieces(all, over), pat).contains(a),
{
    let i = hits_come_from_pieces(m, all_pieces(part, over), pat, a);
    let (r, k) = pieces_come_from_regions(part, over, i);
    let p = all_pieces(part, over)[i];
    assert(all.contains(part[r]));
    let s = choose|s: int| 0 <= s < all.len() && all[s] == part[r];
    region_is_cut(all, over, s, k);
    let ps = all_pieces(all, over);
    let j = choose|j: int| 0 <= j < ps.len() && ps[j] == p;
    hits_of_pieces(m, ps, pat, j, a);
}

/// A search of regions misses nothing: a place that fits the pattern is found,
/// wherever in a readable region it lies.
pub proof fn every_fit_is_found(
    m: Memory,
    ranges: Seq<(u64, u64)>,
    pat: Seq<Option<u8>>,
    r: int,
    from: int,
)
    requires
        0 <= r < ranges.len(),
        0 <= from,
        0 < pat.len(),
        from + pat.len() <= ranges[r].1,
        m.holds(ranges[r].0, ranges[r].1 as int),
        fits(m.bytes(at(ranges[r].0, from), pat.len() as int), 0, pat),
    ensures
        all_hits(m, all_pieces(ranges, pat.len() as int), pat).contains(at(ranges[r].0, from)),
{
    let (b, size) = ranges[r];
    let a = at(b, from);
    let over = pat.len() as int;
    nothing_is_missed(b, size, over, from, over);
    let k = from / crate::sweep::CHUNK as int;
    let ps = all_pieces(ranges, over);
    let p = region_pieces(b, size, over, 0)[k];
    pieces_stay_inside(b, size, over, 0, k);
    region_is_cut(ranges, over, r, k);
    let n = p.len as int;
    let q = from - k * crate::sweep::CHUNK;
    assert(m.holds(p.addr, n)) by {
        assert forall|i: int| 0 <= i < n implies m.cells.dom().contains(#[trigger] at(p.addr, i)) by {
            assert(at(p.addr, i) == at(b, k * crate::sweep::CHUNK + i));
            assert(m.cells.dom().contains(at(b, k * crate::sweep::CHUNK + i)));
        }
    }
    let buf = m.bytes(p.addr, n);
    let o = m.bytes(a, over);
    assert(at(p.addr, q) == a);
    assert forall|i: int| 0 <= i < pat.len() implies (#[trigger] pat[i] is Some ==> buf[q + i]
        == pat[i]->0) by {
        assert(at(p.addr, q + i) == at(a, i));
        assert(o[0 + i] == m.cells[at(a, i)].byte);
    }
    hits_are_the_fits(buf, p.addr, pat, places(buf, pat), q);
    let j = choose|j: int| 0 <= j < ps.len() && ps[j] == p;
    hits_of_pieces(m, ps, pat, j, a);
}

/// Every place that a search of the code gives lies in an executable region and
/// fits the pattern.
pub proof fn every_code_site_fits(m: Memory, pat: Seq<Option<u8>>, a: u64)
    requires
        code_sites(m, pat).contains(a),
    ensures
        exists|j: int|
            0 <= j < m.layout.len() && crate::process::can_execute((#[trigger] m.layout[j]).2)
                && Memory::offset(m.layout[j].0, a) + pat.len() <= m.layout[j].1,
        m.holds(a, pat.len() as int),
        fits(m.bytes(a, pat.len() as int), 0, pat),
{
    let runs = |r: (u64, u64, u32, u32)| crate::process::can_execute(r.2);
    let kept = m.layout.filter(runs);
    let (r, from) = every_find_fits(
        m,
        crate::process::code_part(m.layout),
        pat.len() as int,
        pat,
        a,
    );
    m.layout.lemma_filter_pred(runs, r);
    assert(kept.contains(kept[r]));
    m.layout.lemma_filter_contains_rev(runs, kept[r]);
    let j = choose|j: int| 0 <= j < m.layout.len() && m.layout[j] == kept[r];
    assert(Memory::offset(m.layout[j].0, a) == from);
}

/// A search of the code gives every place in an executable region that fits the
/// pattern, as far as the region can be read.
pub proof fn every_code_fit_is_given(m: Memory, pat: Seq<Option<u8>>, j: int, from: int)
    requires
        0 < pat.len(),
        0 <= j < m.layout.len(),
        crate::process::can_execute(m.layout[j].2),
        0 <= from,
        from + pat.len() <= m.layout[j].1,
        m.holds(m.layout[j].0, m.layout[j].1 as int),
        fits(m.bytes(at(m.layout[j].0, from), pat.len() as int), 0, pat),
    ensures
        code_sites(m, pat).contains(at(m.layout[j].0, from)),
{
    let runs = |r: (u64, u64, u32, u32)| crate::process::can_execute(r.2);
    let kept = m.layout.filter(runs);
    m.layout.lemma_filter_contains(runs, j);
    let r = choose|r: int| 0 <= r < kept.len() && kept[r] == m.layout[j];
    every_fit_is_found(m, crate::process::code_part(m.layout), pat, r, from);
}

/// The search for one place gives the first of those that the search for all
/// gives, and nothing only where that gives nothing.
pub proof fn one_site_is_the_first_of_all(m: Memory, pat: Seq<Option<u8>>)
    requires
        0 < pat.len(),
    ensures
        code_site(m, pat) == if code_sites(m, pat).len() > 0 {
            Some(code_sites(m, pat)[0])
        } else {
            None
        },
{
}

/// Stopping the count of item uses and restoring it leaves the code as it was.
pub proof fn item_patch_is_undone(m: Memory, a: u64)
    requires
        m.fetch(a, 2) == Some(item_bytes(false)),
    ensures
        m.poke_code(a, item_bytes(true)).fetch(a, 2) == Some(item_bytes(true)),
        m.poke_code(a, item_bytes(true)).poke_code(a, item_bytes(false)).cells == m.cells,
{
    let on = m.poke_code(a, item_bytes(true));
    let off = on.poke_code(a, item_bytes(false));
    assert(m.holds(a, 2));
    assert(m.bytes(a, 2) == item_bytes(false));
    assert forall|i: int| 0 <= i < 2 implies on.cells.dom().contains(#[trigger] at(a, i))
        && on.cells[at(a, i)].byte == 0x90 by {
        assert(m.cells.dom().contains(at(a, i)));
        assert(Memory::offset(a, at(a, i)) == i);
    }
    assert(on.bytes(a, 2) =~= item_bytes(true));
    assert(on.holds(a, 2));
    assert forall|k: u64| #[trigger] m.cells.dom().contains(k) implies off.cells[k] == m.cells[k] by {
        let i = Memory::offset(a, k);
        if i < 2 {
            assert(k == at(a, i));
            assert(m.bytes(a, 2)[i] == m.cells[at(a, i)].byte);
        }
    }
    assert(off.cells =~= m.cells);
}

/// The first two bytes of the pattern are open, and the others differ from what
/// is patched in.
pub open spec fn leaves_room(pat: Seq<Option<u8>>, data: Seq<u8>) -> bool {
    &&& 2 <= pat.len() <= u64::MAX
    &&& data.len() == 2
    &&& pat[0] is None
    &&& pat[1] is None
    &&& forall|i: int|
        0 <= i < pat.len() ==> (#[trigger] pat[i] is Some ==> pat[i]->0 != data[0] && pat[i]->0
            != data[1])
}

/// What fits after a patch fitted before it.
proof fn patch_makes_no_fit(
    m: Memory,
    s: u64,
    data: Seq<u8>,
    p: Piece,
    pat: Seq<Option<u8>>,
    q: int,
)
    requires
        leaves_room(pat, data),
        m.fetch(p.addr, p.len as int) is Some,
        0 <= q < places(m.bytes(p.addr, p.len as int), pat),
        fits(m.poke_code(s, data).bytes(p.addr, p.len as int), q, pat),
    ensures
        fits(m.bytes(p.addr, p.len as int), q, pat),
{
    let n = m.poke_code(s, data);
    let (x, y) = (m.bytes(p.addr, p.len as int), n.bytes(p.addr, p.len as int));
    assert forall|i: int| 0 <= i < pat.len() implies (#[trigger] pat[i] is Some ==> x[q + i]
        == pat[i]->0) by {
        if pat[i] is Some {
            let k = at(p.addr, q + i);
            assert(y[q + i] == n.cells[k].byte);
            assert(m.cells.dom().contains(k));
        }
    }
}

/// The place that is patched fits as before.
proof fn patch_keeps_the_fit(
    m: Memory,
    s: u64,
    data: Seq<u8>,
    p: Piece,
    pat: Seq<Option<u8>>,
    q: int,
)
    requires
        leaves_room(pat, data),
        m.fetch(p.addr, p.len as int) is Some,
        0 <= q < places(m.bytes(p.addr, p.len as int), pat),
        s == at(p.addr, q),
        fits(m.bytes(p.addr, p.len as int), q, pat),
    ensures
        fits(m.poke_code(s, data).bytes(p.addr, p.len as int), q, pat),
{
    let n = m.poke_code(s, data);
    let (x, y) = (m.bytes(p.addr, p.len as int), n.bytes(p.addr, p.len as int));
    assert forall|i: int| 0 <= i < pat.len() implies (#[trigger] pat[i] is Some ==> y[q + i]
        == pat[i]->0) by {
        if pat[i] is Some {
            let k = at(p.addr, q + i);
            assert(m.cells.dom().contains(k));
            assert(k == at(s, i));
            assert(Memory::offset(s, k) == i);
            assert(x[q + i] == m.cells[k].byte);
        }
    }
}

proof fn patch_keeps_first_hit_in(
    m: Memory,
    s: u64,
    data: Seq<u8>,
    p: Piece,
    pat: Seq<Option<u8>>,
    n: int,
)
    requires
        leaves_room(pat, data),
        m.fetch(p.addr, p.len as int) is Some,
        n <= places(m.bytes(p.addr, p.len as int), pat),
        hits_in(m.bytes(p.addr, p.len as int), p.addr, pat, n).len() > 0
            ==> hits_in(m.bytes(p.addr, p.len as int), p.addr, pat, n)[0] == s,
    ensures
        ({
            let h = hits_in(m.bytes(p.addr, p.len as int), p.addr, pat, n);
            let k = hits_in(m.poke_code(s, data).bytes(p.addr, p.len as int), p.addr, pat, n);
            &&& (h.len() > 0) == (k.len() > 0)
            &&& k.len() > 0 ==> k[0] == s
        }),
    decreases n,
{
    let x = m.bytes(p.addr, p.len as int);
    let y = m.poke_code(s, data).bytes(p.addr, p.len as int);
    if n > 0 {
        let hr = hits_in(x, p.addr, pat, n - 1);
        let kr = hits_in(y, p.addr, pat, n - 1);
        let h = hits_in(x, p.addr, pat, n);
        let k = hits_in(y, p.addr, pat, n);
        if hr.len() > 0 {
            assert(h[0] == hr[0]);
        }
        patch_keeps_first_hit_in(m, s, data, p, pat, n - 1);
        if fits(y, n - 1, pat) {
            patch_makes_no_fit(m, s, data, p, pat, n - 1);
        }
        if hr.len() > 0 {
            assert(k[0] == kr[0]);
        } else if fits(x, n - 1, pat) {
            assert(h[0] == at(p.addr, n - 1));
            patch_keeps_the_fit(m, s, data, p, pat, n - 1);
            assert(k[0] == at(p.addr, n - 1));
        }
    }
}

proof fn patch_keeps_first_hit(
    m: Memory,
    s: u64,
    data: Seq<u8>,
    ps: Seq<Piece>,
    pat: Seq<Option<u8>>,
)
    requires
        leaves_room(pat, data),
        all_hits(m, ps, pat).len() > 0 ==> all_hits(m, ps, pat)[0] == s,
    ensures
        ({
            let h = all_hits(m, ps, pat);
            let k = all_hits(m.poke_code(s, data), ps, pat);
            &&& (h.len() > 0) == (k.len() > 0)
            &&& k.len() > 0 ==> k[0] == s
        }),
    decreases ps.len(),
{
    if ps.len() > 0 {
        let n = m.poke_code(s, data);
        let p = ps.last();
        let hr = all_hits(m, ps.drop_last(), pat);
        let kr = all_hits(n, ps.drop_last(), pat);
        if hr.len() > 0 {
            assert(all_hits(m, ps, pat)[0] == hr[0]);
        }
        patch_keeps_first_hit(m, s, data, ps.drop_last(), pat);
        crate::process::write_keeps_access(m, s, data, p.addr, p.len as int);
        if hr.len() > 0 {
            assert(all_hits(n, ps, pat)[0] == kr[0]);
        } else {
            assert(all_hits(m, ps, pat) =~= piece_hits(m, p, pat));
            assert(all_hits(n, ps, pat) =~= piece_hits(n, p, pat));
            if m.fetch(p.addr, p.len as int) is Some {
                patch_keeps_first_hit_in(
                    m,
                    s,
                    data,
                    p,
                    pat,
                    places(m.bytes(p.addr, p.len as int), pat),
                );
            }
        }
    }
}

/// A place that was found and patched in its open bytes is found again.
pub proof fn patched_place_is_found_again(m: Memory, data: Seq<u8>, pat: Seq<Option<u8>>)
    requires
        leaves_room(pat, data),
        code_hits(m, pat).len() > 0,
    ensures
        ({
            let s = code_hits(m, pat)[0];
            let n = m.poke_code(s, data);
            code_hits(n, pat).len() > 0 && code_hits(n, pat)[0] == s
        }),
{
    let s = code_hits(m, pat)[0];
    let ps = crate::sweep::all_pieces(crate::process::code_part(m.layout), pat.len() as int);
    patch_keeps_first_hit(m, s, data, ps, pat);
}

proof fn two_letter_word(s: Seq<char>)
    requires
        s.len() >= 2,
        !crate::unicode::white(s[0]),
        !crate::unicode::white(s[1]),
        s.len() > 2 ==> crate::unicode::white(s[2]),
    ensures
        words(s) == seq![s.take(2)] + words(s.skip(2)),
        s.len() > 2 ==> words(s.skip(2)) == words(s.skip(3)),
{
    let r = s.skip(1);
    assert(r[0] == s[1]);
    let r2 = r.skip(1);
    assert(r2 =~= s.skip(2));
    if s.len() > 2 {
        assert(r2[0] == s[2]);
        assert(r2.skip(1) =~= s.skip(3));
    }
    assert(word_end(r2) == 0);
    assert(word_end(r) == 1);
    assert(word_end(s) == 2);
}

proof fn wanted_byte(t: Seq<char>, hi: int, lo: int)
    requires
        t.len() == 2,
        crate::digits::digit_value(t[0]) == Some(hi),
        crate::digits::digit_value(t[1]) == Some(lo),
        0 <= hi < 16,
        0 <= lo < 16,
    ensures
        byte_wanted(t) == Some((hi * 16 + lo) as u8),
{
    assert(t.drop_last() =~= seq![t[0]]);
    assert(seq![t[0]].drop_last() =~= Seq::<char>::empty());
    assert(crate::digits::value_of(Seq::<char>::empty(), 16) == 0);
    assert(crate::digits::value_of(seq![t[0]], 16) == hi);
    assert(crate::digits::value_of(t, 16) == hi * 16 + lo);
    assert(crate::digits::all_digits(t, 16));
}

proof fn words_by_threes(s: Seq<char>, i: int)
    requires
        s.len() == 29,
        forall|k: int| 0 <= k < 29 ==> #[trigger] crate::unicode::white(s[k]) == (k % 3 == 2),
        0 <= i < 10,
    ensures
        words(s.skip(3 * i)) == Seq::new(
            (10 - i) as nat,
            |j: int| s.subrange(3 * (i + j), 3 * (i + j) + 2),
        ),
    decreases 10 - i,
{
    let r = s.skip(3 * i);
    assert(r[0] == s[3 * i] && r[1] == s[3 * i + 1]);
    assert(crate::unicode::white(s[3 * i]) == false);
    assert(crate::unicode::white(s[3 * i + 1]) == false);
    if i < 9 {
        assert(r[2] == s[3 * i + 2]);
        assert(crate::unicode::white(s[3 * i + 2]));
    }
    two_letter_word(r);
    assert(r.take(2) =~= s.subrange(3 * i, 3 * i + 2));
    if i < 9 {
        assert(r.skip(3) =~= s.skip(3 * (i + 1)));
        words_by_threes(s, i + 1);
    } else {
        assert(r.skip(2) =~= Seq::<char>::empty());
    }
    assert(words(r) =~= Seq::new(
        (10 - i) as nat,
        |j: int| s.subrange(3 * (i + j), 3 * (i + j) + 2),
    ));
}

/// What the pattern of the item counter asks for.
pub proof fn item_pattern()
    ensures
        pattern_of(ITEM_INC_AOB@) == seq![
            None,
            None,
            Some(0x88u8),
            Some(0x04u8),
            Some(0x39u8),
            Some(0x48u8),
            Some(0x8Bu8),
            Some(0x5Cu8),
            Some(0x24u8),
            Some(0x30u8),
        ],
{
    reveal_strlit("?? ?? 88 04 39 48 8b 5c 24 30");
    reveal(crate::unicode::white);
    let s = ITEM_INC_AOB@;
    assert(s.len() == 29);
    assert(s.skip(0) =~= s);
    words_by_threes(s, 0);
    let t = |i: int| s.subrange(3 * i, 3 * i + 2);
    assert(byte_wanted(t(0)) is None);
    assert(byte_wanted(t(1)) is None);
    wanted_byte(t(2), 8, 8);
    wanted_byte(t(3), 0, 4);
    wanted_byte(t(4), 3, 9);
    wanted_byte(t(5), 4, 8);
    wanted_byte(t(6), 8, 11);
    wanted_byte(t(7), 5, 12);
    wanted_byte(t(8), 2, 4);
    wanted_byte(t(9), 3, 0);
    assert(pattern_of(s) =~= seq![
        None,
        None,
        Some(0x88u8),
        Some(0x04u8),
        Some(0x39u8),
        Some(0x48u8),
        Some(0x8Bu8),
        Some(0x5Cu8),
        Some(0x24u8),
        Some(0x30u8),
    ]);
}

/// The item counter is found again after its counting was stopped or restored.
pub proof fn item_counter_is_found_again(m: Memory, on: bool)
    requires
        item_site(m) is Some,
    ensures
        item_site(m.poke_code(item_site(m)->0, item_bytes(on))) == item_site(m),
{
    item_pattern();
    patched_place_is_found_again(m, item_bytes(on), pattern_of(ITEM_INC_AOB@));
}

proof fn word_comes_first(w: Seq<char>, rest: Seq<char>)
    requires
        forall|i: int| 0 <= i < w.len() ==> !crate::unicode::white(#[trigger] w[i]),
        rest.len() > 0 ==> crate::unicode::white(rest[0]),
    ensures
        word_end(w + rest) == w.len(),
    decreases w.len(),
{
    let s = w + rest;
    if w.len() > 0 {
        let t = w.skip(1);
        assert(s.skip(1) =~= t + rest);
        assert(s[0] == w[0]);
        assert forall|i: int| 0 <= i < t.len() implies !crate::unicode::white(#[trigger] t[i]) by {
            assert(t[i] == w[i + 1]);
        }
        word_comes_first(t, rest);
    }
}

/// Each word of a pattern is one byte of it, white space of any length sets the
/// words apart, and white space alone is no word.
pub proof fn each_word_is_a_byte(w: Seq<char>, c: char, rest: Seq<char>)
    requires
        w.len() > 0,
        forall|i: int| 0 <= i < w.len() ==> !crate::unicode::white(#[trigger] w[i]),
        crate::unicode::white(c),
    ensures
        pattern_of(w) == seq![byte_wanted(w)],
        pattern_of(w + (seq![c] + rest)) == seq![byte_wanted(w)] + pattern_of(rest),
        pattern_of(seq![c] + rest) == pattern_of(rest),
        pattern_of(Seq::empty()) == Seq::<Option<u8>>::empty(),
{
    let none = Seq::<char>::empty();
    let more = seq![c] + rest;
    assert(more[0] == c);
    assert(more.skip(1) =~= rest);
    word_comes_first(w, none);
    word_comes_first(w, more);
    assert(w + none =~= w);
    assert(w.take(w.len() as int) =~= w);
    assert(w.skip(w.len() as int) =~= none);
    assert(words(none) =~= Seq::<Seq<char>>::empty());
    assert(words(w) =~= seq![w]);
    assert(pattern_of(w) =~= seq![byte_wanted(w)]);
    let s = w + more;
    assert(s[0] == w[0]);
    assert(s.take(w.len() as int) =~= w);
    assert(s.skip(w.len() as int) =~= more);
    assert(words(more) == words(rest));
    assert(!crate::unicode::white(w[0]));
    assert(words(s) == seq![w] + words(more));
    assert(pattern_of(s) =~= seq![byte_wanted(w)] + pattern_of(rest));
    assert(pattern_of(none) =~= Seq::<Option<u8>>::empty());
}

/// Two hexadecimal digits ask for that byte, and a question mark in front for any.
pub proof fn what_a_word_asks_for(t: Seq<char>, hi: int, lo: int)
    requires
        t.len() == 2,
    ensures
        0 <= hi < 16 && 0 <= lo < 16 && crate::digits::digit_value(t[0]) == Some(hi)
            && crate::digits::digit_value(t[1]) == Some(lo) ==> byte_wanted(t) == Some(
            (16 * hi + lo) as u8,
        ),
        t[0] == '?' ==> byte_wanted(t) is None,
{
    if 0 <= hi < 16 && 0 <= lo < 16 && crate::digits::digit_value(t[0]) == Some(hi)
        && crate::digits::digit_value(t[1]) == Some(lo) {
        wanted_byte(t, hi, lo);
    }
}

/// A pattern fits where every byte that it asks for stands; bytes that it does
/// not ask for do not matter.
pub proof fn what_a_fit_is(buf: Seq<u8>, other: Seq<u8>, q: int, pat: Seq<Option<u8>>, k: int)
    requires
        fits(buf, q, pat),
        0 <= k < pat.len(),
        forall|i: int| 0 <= i < pat.len() && i != k ==> #[trigger] other[q + i] == buf[q + i],
    ensures
        pat[k] is Some ==> buf[q + k] == pat[k]->0,
        fits(other, q, pat) <==> pat[k] is None || other[q + k] == pat[k]->0,
{
    assert(pat[k] is Some ==> buf[q + k] == pat[k]->0);
    if pat[k] is None || other[q + k] == pat[k]->0 {
        assert forall|i: int| 0 <= i < pat.len() implies (#[trigger] pat[i] is Some ==> other[q + i]
            == pat[i]->0) by {
            if i != k {
                assert(other[q + i] == buf[q + i]);
            }
        }
    }
}

} // verus!

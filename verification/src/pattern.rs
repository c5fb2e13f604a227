//! Searching code for byte patterns, and the patch that rests on such a search.

use vstd::prelude::*;
use vstd::string::*;

use crate::digits::read_numeral;
use crate::process::Proc;
use crate::search::{answers_add_up, finished_search_is_complete, Search};
use crate::sweep::Piece;
use crate::text::chars_of;
use crate::unicode::is_white;

verus! {

/// Where the ball speed is held down to 175 when it is set.
pub const SPEED_CAP_AOB: &'static str = "b9 ?? 00 00 00 3b d8 0f 4d c3";

/// Where it is held down a first time, when it is converted.
pub const SPEED_CAP_AOB2: &'static str = "bd ?? 00 00 00 44 3b fd 44 0f 4f fd";

/// The highest ball speed that fits the seven bits.
pub const SPEED_CAP_MAX: u8 = 207;

/// Where abilities are held down to 99.
pub const STAT_CAP_AOB: &'static str = "b8 ?? 00 00 00 0f 49 fd";

/// Where the use of an item is counted. The first two bytes are left open, so
/// that the pattern still fits once they are patched.
pub const ITEM_INC_AOB: &'static str = "?? ?? 88 04 39 48 8b 5c 24 30";

/// How many characters stand before the first white space.
pub open spec fn word_end(s: Seq<char>) -> int
    decreases s.len(),
{
    if s.len() == 0 || crate::unicode::white(s[0]) {
        0
    } else {
        1 + word_end(s.skip(1))
    }
}

/// The words of a text, which white space sets apart.
pub open spec fn words(s: Seq<char>) -> Seq<Seq<char>>
    decreases s.len(),
    via words_shrink
{
    if s.len() == 0 {
        seq![]
    } else if crate::unicode::white(s[0]) {
        words(s.skip(1))
    } else {
        seq![s.take(word_end(s))] + words(s.skip(word_end(s)))
    }
}

#[via_fn]
proof fn words_shrink(s: Seq<char>) {
    word_end_bounds(s);
}

proof fn word_end_bounds(s: Seq<char>)
    ensures
        0 <= word_end(s) <= s.len(),
        s.len() > 0 && !crate::unicode::white(s[0]) ==> word_end(s) > 0,
    decreases s.len(),
{
    if s.len() > 0 {
        word_end_bounds(s.skip(1));
    }
}

/// The byte that a word of a pattern asks for: any byte for a question mark,
/// and for whatever is no byte in hexadecimal.
pub open spec fn byte_wanted(t: Seq<char>) -> Option<u8> {
    if t[0] == '?' {
        None
    } else {
        match crate::digits::numeral(t, 16, 255) {
            Some(v) => Some(v as u8),
            None => None,
        }
    }
}

/// The bytes that a pattern asks for.
pub open spec fn pattern_of(s: Seq<char>) -> Seq<Option<u8>> {
    words(s).map_values(|t: Seq<char>| byte_wanted(t))
}

/// The pattern fits the bytes from `q` on.
pub open spec fn fits(buf: Seq<u8>, q: int, pat: Seq<Option<u8>>) -> bool {
    forall|i: int|
        0 <= i < pat.len() ==> (#[trigger] pat[i] is Some ==> buf[q + i] == pat[i]->0)
}

/// How many places of `buf` the pattern can start at.
pub open spec fn places(buf: Seq<u8>, pat: Seq<Option<u8>>) -> int {
    if buf.len() >= pat.len() {
        buf.len() - pat.len() + 1
    } else {
        0
    }
}

/// Where among the first `n` places of a buffer from `addr` on the pattern fits.
pub open spec fn hits_in(buf: Seq<u8>, addr: u64, pat: Seq<Option<u8>>, n: int) -> Seq<u64>
    decreases n,
{
    if n <= 0 {
        seq![]
    } else {
        let rest = hits_in(buf, addr, pat, n - 1);
        if fits(buf, n - 1, pat) {
            rest.push(crate::process::at(addr, n - 1))
        } else {
            rest
        }
    }
}

/// Where in one piece of memory the pattern fits. A piece that cannot be read
/// as a whole has no place.
pub open spec fn piece_hits(m: crate::process::Memory, p: Piece, pat: Seq<Option<u8>>) -> Seq<u64> {
    match m.fetch(p.addr, p.len as int) {
        Some(buf) => hits_in(buf, p.addr, pat, places(buf, pat)),
        None => seq![],
    }
}

/// Where in several pieces of memory the pattern fits.
pub open spec fn all_hits(
    m: crate::process::Memory,
    ps: Seq<Piece>,
    pat: Seq<Option<u8>>,
) -> Seq<u64>
    decreases ps.len(),
{
    if ps.len() == 0 {
        seq![]
    } else {
        all_hits(m, ps.drop_last(), pat) + piece_hits(m, ps.last(), pat)
    }
}

/// Where in the game's code a pattern fits.
pub open spec fn code_hits(m: crate::process::Memory, pat: Seq<Option<u8>>) -> Seq<u64> {
    all_hits(
        m,
        crate::sweep::all_pieces(crate::process::code_part(m.layout), pat.len() as int),
        pat,
    )
}

/// The first place in the game's code that a pattern fits.
pub open spec fn code_site(m: crate::process::Memory, pat: Seq<Option<u8>>) -> Option<u64> {
    if code_hits(m, pat).len() > 0 {
        Some(code_hits(m, pat)[0])
    } else {
        None
    }
}

/// All the places in the game's code that a pattern fits. An empty pattern
/// fits nowhere.
pub open spec fn code_sites(m: crate::process::Memory, pat: Seq<Option<u8>>) -> Seq<u64> {
    if pat.len() == 0 {
        seq![]
    } else {
        code_hits(m, pat)
    }
}

/// Reads a pattern: bytes in hexadecimal, and question marks for any byte.
pub fn parse_pattern(s: &str) -> (res: Vec<Option<u8>>)
    ensures
        res@ == pattern_of(s@),
{
    let c = chars_of(s);
    let ghost f = |t: Seq<char>| byte_wanted(t);
    let mut out: Vec<Option<u8>> = Vec::new();
    let mut i: usize = 0;
    assert(c@.skip(0) =~= c@);
    assert(out@ + words(c@).map_values(f) =~= pattern_of(s@));
    while i < c.len()
        invariant
            i <= c@.len(),
            f == (|t: Seq<char>| byte_wanted(t)),
            out@ + words(c@.skip(i as int)).map_values(f) == pattern_of(s@),
        decreases c@.len() - i,
    {
        let ghost rest = c@.skip(i as int);
        if is_white(c[i]) {
            assert(rest.skip(1) =~= c@.skip(i + 1));
            i += 1;
        } else {
            let mut t: Vec<char> = Vec::new();
            let mut e: usize = i;
            while e < c.len() && !is_white(c[e])
                invariant
                    i <= e <= c@.len(),
                    rest == c@.skip(i as int),
                    t@ == c@.subrange(i as int, e as int),
                    word_end(rest) == (e - i) + word_end(c@.skip(e as int)),
                decreases c@.len() - e,
            {
                assert(c@.skip(e as int).skip(1) =~= c@.skip(e + 1));
                t.push(c[e]);
                e += 1;
                assert(t@ =~= c@.subrange(i as int, e as int));
            }
            proof {
                word_end_bounds(rest);
                assert(rest.take(word_end(rest)) =~= t@);
                assert(rest.skip(word_end(rest)) =~= c@.skip(e as int));
            }
            let want: Option<u8> = if t[0] == '?' {
                None
            } else {
                match read_numeral(&t, 16, 255) {
                    Some(v) => Some(v as u8),
                    None => None,
                }
            };
            assert(want == byte_wanted(t@));
            let ghost before = out@;
            let ghost tail = words(c@.skip(e as int));
            out.push(want);
            assert(out@ + tail.map_values(f) =~= before + (seq![t@] + tail).map_values(f));
            i = e;
        }
    }
    assert(words(c@.skip(i as int)) =~= Seq::<Seq<char>>::empty());
    assert(out@ =~= pattern_of(s@));
    out
}

fn fits_at(buf: &Vec<u8>, q: usize, pat: &Vec<Option<u8>>) -> (res: bool)
    requires
        q + pat@.len() <= buf@.len(),
    ensures
        res == fits(buf@, q as int, pat@),
{
    let n: usize = buf.len();
    let mut i: usize = 0;
    while i < pat.len()
        invariant
            i <= pat@.len(),
            q + pat@.len() <= buf@.len() == n,
            forall|j: int|
                0 <= j < i ==> (#[trigger] pat@[j] is Some ==> buf@[q + j] == pat@[j]->0),
        decreases pat@.len() - i,
    {
        if let Some(v) = pat[i] {
            if buf[q + i] != v {
                assert(pat@[i as int] is Some);
                return false;
            }
        }
        i += 1;
    }
    true
}

/// Where in a buffer from `addr` on a pattern fits.
pub fn hits(buf: &Vec<u8>, addr: u64, pat: &Vec<Option<u8>>) -> (res: Vec<u64>)
    ensures
        res@ == hits_in(buf@, addr, pat@, places(buf@, pat@)),
{
    let mut out: Vec<u64> = Vec::new();
    if buf.len() < pat.len() {
        return out;
    }
    let last: usize = buf.len() - pat.len();
    let mut q: usize = 0;
    loop
        invariant_except_break
            q <= last,
            out@ == hits_in(buf@, addr, pat@, q as int),
        invariant
            last == buf@.len() - pat@.len(),
        ensures
            out@ == hits_in(buf@, addr, pat@, last + 1),
        decreases last - q,
    {
        if fits_at(buf, q, pat) {
            out.push(addr.wrapping_add(q as u64));
        }
        if q == last {
            break;
        }
        q += 1;
    }
    out
}

/// The first place in the game's code that a pattern fits.
pub fn find_code(p: &Proc, pat_str: &str) -> (res: Option<u64>)
    ensures
        res == code_site(p@, pattern_of(pat_str@)),
{
    let mut s = Search::new(&p.exec_ranges(), parse_pattern(pat_str), true);
    search_image(p, &mut s);
    s.first()
}

/// Answers a search out of an image.
pub(crate) fn search_image(p: &Proc, s: &mut Search)
    requires
        old(s).finds(p@),
    ensures
        *final(s) == (Search { next: final(s).next, hits: final(s).hits, ..*old(s) }),
        final(s).finds(p@),
        final(s).wanted() is None,
        ({
            let all = all_hits(p@, final(s).pieces@, final(s).pat@);
            &&& (all.len() > 0) == (final(s).hits@.len() > 0)
            &&& all.len() > 0 ==> final(s).hits@[0] == all[0]
            &&& !final(s).first_only ==> final(s).hits@ == all
        }),
{
    loop
        invariant
            *s == (Search { next: s.next, hits: s.hits, ..*old(s) }),
            s.finds(p@),
        ensures
            s.wanted() is None,
        decreases s.pieces@.len() - s.next,
    {
        match s.want() {
            Some((a, n)) => {
                let ghost before = *s;
                s.take(p.read_range(a, n));
                proof {
                    answers_add_up(p@, before, *s);
                }
            },
            None => {
                break;
            },
        }
    }
    proof {
        finished_search_is_complete(p@, *s);
    }
}

/// What the first pieces hold comes first.
pub(crate) proof fn hits_grow(m: crate::process::Memory, ps: Seq<Piece>, pat: Seq<Option<u8>>, k: int)
    requires
        0 <= k <= ps.len(),
    ensures
        all_hits(m, ps.take(k), pat).is_prefix_of(all_hits(m, ps, pat)),
    decreases ps.len() - k,
{
    if k < ps.len() {
        hits_grow(m, ps, pat, k + 1);
        assert(ps.take(k + 1).drop_last() =~= ps.take(k));
        let a = all_hits(m, ps.take(k), pat);
        let b = all_hits(m, ps.take(k + 1), pat);
        let c = all_hits(m, ps, pat);
        assert(a =~= c.take(a.len() as int)) by {
            assert(b =~= c.take(b.len() as int));
            assert(a =~= b.take(a.len() as int));
        }
    } else {
        assert(ps.take(k) =~= ps);
    }
}

/// All the places in the game's code that a pattern fits. An empty pattern
/// fits nowhere.
pub fn find_code_all(p: &Proc, pat_str: &str) -> (res: Vec<u64>)
    ensures
        res@ == code_sites(p@, pattern_of(pat_str@)),
{
    let pat = parse_pattern(pat_str);
    if pat.len() == 0 {
        return Vec::new();
    }
    let mut s = Search::new(&p.exec_ranges(), pat, false);
    search_image(p, &mut s);
    s.hits
}

/// The two bytes that count the use of an item, on and off.
pub open spec fn item_bytes(on: bool) -> Seq<u8> {
    if on {
        seq![0x90u8, 0x90u8]
    } else {
        seq![0xFEu8, 0xC0u8]
    }
}

/// Where the use of an item is counted.
pub open spec fn item_site(m: crate::process::Memory) -> Option<u64> {
    code_site(m, pattern_of(ITEM_INC_AOB@))
}

/// Whether the use of items goes uncounted, the place being known. Unknown
/// where it cannot be read.
pub fn items_patched_at(p: &Proc, a: u64) -> (res: Option<bool>)
    ensures
        match p@.fetch(a, 2) {
            Some(b) => res == Some(b == item_bytes(true)),
            None => res is None,
        },
{
    match p.read(a, 2) {
        Some(b) => {
            let on = b[0] == 0x90 && b[1] == 0x90;
            assert(on == (b@ =~= item_bytes(true)));
            Some(on)
        },
        None => None,
    }
}

/// Whether the use of items goes uncounted. Unknown where the place cannot be
/// found or read.
pub fn item_use_patched(p: &Proc) -> (res: Option<bool>)
    ensures
        match item_site(p@) {
            Some(a) => match p@.fetch(a, 2) {
                Some(b) => res == Some(b == item_bytes(true)),
                None => res is None,
            },
            None => res is None,
        },
{
    match find_code(p, ITEM_INC_AOB) {
        Some(a) => items_patched_at(p, a),
        None => None,
    }
}

/// Stops or restores the counting of item uses, the place being known.
pub fn patch_items_at(p: &mut Proc, a: u64, on: bool) -> (res: bool)
    ensures
        res == old(p)@.holds(a, 2),
        final(p)@ == old(p)@.poke_code(a, item_bytes(on)),
{
    let data: [u8; 2] = if on {
        [0x90, 0x90]
    } else {
        [0xFE, 0xC0]
    };
    assert(data@ =~= item_bytes(on));
    p.write_code(a, &data)
}

/// Stops or restores the counting of item uses.
pub fn set_item_use_patch(p: &mut Proc, on: bool) -> (res: bool)
    ensures
        match item_site(old(p)@) {
            Some(a) => {
                &&& res == old(p)@.holds(a, 2)
                &&& final(p)@ == old(p)@.poke_code(a, item_bytes(on))
            },
            None => !res && final(p)@ == old(p)@,
        },
{
    match find_code(p, ITEM_INC_AOB) {
        Some(a) => patch_items_at(p, a, on),
        None => false,
    }
}

} // verus!

//! Names in player objects, and small operations on text.

use vstd::prelude::*;
use vstd::string::*;

use crate::offsets::OFF_NAME;
use crate::process::Proc;
use crate::unicode::{is_white, utf16_lossy, utf8_lossy};

verus! {

/// How many bytes stand before the first zero byte.
pub open spec fn zero_at(s: Seq<u8>) -> int
    decreases s.len(),
{
    if s.len() == 0 || s[0] == 0 {
        0
    } else {
        1 + zero_at(s.skip(1))
    }
}

/// The nonempty stretches between zero bytes, in order.
pub open spec fn runs(s: Seq<u8>) -> Seq<Seq<u8>>
    decreases s.len(),
    via runs_shrink
{
    if s.len() == 0 {
        seq![]
    } else if s[0] == 0 {
        runs(s.skip(1))
    } else {
        seq![s.take(zero_at(s))] + runs(s.skip(zero_at(s)))
    }
}

#[via_fn]
proof fn runs_shrink(s: Seq<u8>) {
    zero_at_bounds(s);
}

proof fn zero_at_bounds(s: Seq<u8>)
    ensures
        0 <= zero_at(s) <= s.len(),
        zero_at(s) < s.len() ==> s[zero_at(s)] == 0,
        forall|i: int| 0 <= i < zero_at(s) ==> s[i] != 0,
        s.len() > 0 && s[0] != 0 ==> zero_at(s) > 0,
    decreases s.len(),
{
    if s.len() > 0 && s[0] != 0 {
        let t = s.skip(1);
        zero_at_bounds(t);
        assert(forall|i: int| 0 <= i < t.len() ==> t[i] == s[i + 1]);
        assert forall|i: int| 0 <= i < zero_at(s) implies s[i] != 0 by {
            if i > 0 {
                assert(t[i - 1] == s[i]);
            }
        }
    }
}

/// A family name and a given name, each up to a zero byte, with a blank
/// between them. One that is missing is left out.
pub open spec fn full_name(window: Seq<u8>) -> Seq<char> {
    let r = runs(window);
    if r.len() == 0 {
        seq![]
    } else if r.len() == 1 {
        crate::unicode::utf8_text(r[0])
    } else {
        crate::unicode::utf8_text(r[0]) + seq![' '] + crate::unicode::utf8_text(r[1])
    }
}

/// The part of a player object in which the name stands.
pub open spec fn name_window(b: Seq<u8>) -> Seq<u8> {
    let end = if OFF_NAME + 64 <= b.len() {
        OFF_NAME + 64
    } else {
        b.len() as int
    };
    if OFF_NAME >= end {
        seq![]
    } else {
        b.subrange(OFF_NAME as int, end)
    }
}

/// The name in the bytes of a player object.
pub open spec fn name_in(b: Seq<u8>) -> Seq<char> {
    full_name(name_window(b))
}

/// The characters of `s` that are not white space.
pub open spec fn solid(s: Seq<char>) -> Seq<char> {
    s.filter(|c: char| !crate::unicode::white(c))
}

/// A character that names are made of.
pub open spec fn name_char(c: char) -> bool {
    ||| '\u{3040}' <= c <= '\u{30FF}'
    ||| '\u{4E00}' <= c <= '\u{9FFF}'
    ||| '\u{FF66}' <= c <= '\u{FF9F}'
    ||| crate::unicode::alphabetic(c)
}

/// A text that can be the name of a player: one to twelve characters besides
/// white space, all of them fit for a name and none a replacement character.
pub open spec fn is_sane(nm: Seq<char>) -> bool {
    let s = solid(nm);
    &&& 0 < s.len() <= 12
    &&& !s.contains('\u{FFFD}')
    &&& forall|i: int| 0 <= i < s.len() ==> name_char(#[trigger] s[i])
}

/// `s` without the white space at its ends.
pub open spec fn trimmed(s: Seq<char>) -> Seq<char>
    decreases s.len(),
{
    if s.len() > 0 && crate::unicode::white(s[0]) {
        trimmed(s.skip(1))
    } else if s.len() > 0 && crate::unicode::white(s.last()) {
        trimmed(s.drop_last())
    } else {
        s
    }
}

/// The first of the units up to a zero unit, as text.
pub open spec fn wide_text(w: Seq<u16>) -> Seq<char> {
    crate::unicode::utf16_text(w.take(wide_end(w)))
}

/// How many units stand before the first zero unit.
pub open spec fn wide_end(w: Seq<u16>) -> int
    decreases w.len(),
{
    if w.len() == 0 || w[0] == 0 {
        0
    } else {
        1 + wide_end(w.skip(1))
    }
}

/// The characters of a text.
pub fn chars_of(s: &str) -> (res: Vec<char>)
    ensures
        res@ == s@,
{
    let mut out: Vec<char> = Vec::new();
    for c in it: s.chars()
        invariant
            out@ == it.seq().take(it.index() as int),
            it.seq() == s@,
    {
        out.push(c);
        assert(out@ =~= it.seq().take(it.index() as int + 1));
    }
    assert(out@ =~= s@);
    out
}

/// Whether two texts are the same.
pub fn same_text(a: &str, b: &str) -> (res: bool)
    ensures
        res == (a@ == b@),
{
    a.to_owned() == b.to_owned()
}

/// The units up to the first zero unit, as text.
pub fn wide_to_string(w: &[u16]) -> (res: String)
    ensures
        res@ == wide_text(w@),
{
    let mut n: usize = 0;
    assert(w@.skip(0) =~= w@);
    while n < w.len() && w[n] != 0
        invariant
            n <= w@.len(),
            wide_end(w@) == n + wide_end(w@.skip(n as int)),
        decreases w@.len() - n,
    {
        assert(w@.skip(n as int).skip(1) =~= w@.skip(n + 1));
        n += 1;
    }
    utf16_lossy(vstd::slice::slice_subrange(w, 0, n))
}

/// The bytes up to the first zero byte, as text.
pub fn cstr(b: &[u8]) -> (res: String)
    ensures
        res@ == crate::unicode::utf8_text(b@.take(zero_at(b@))),
{
    let e: usize = find_zero(b, 0);
    assert(b@.skip(0) =~= b@);
    utf8_lossy(vstd::slice::slice_subrange(b, 0, e))
}

/// Where the first zero byte from `from` on lies, or the end.
fn find_zero(b: &[u8], from: usize) -> (res: usize)
    requires
        from <= b@.len(),
    ensures
        from <= res <= b@.len(),
        res == from + zero_at(b@.skip(from as int)),
{
    let mut e: usize = from;
    while e < b.len() && b[e] != 0
        invariant
            from <= e <= b@.len(),
            from + zero_at(b@.skip(from as int)) == e + zero_at(b@.skip(e as int)),
        decreases b@.len() - e,
    {
        assert(b@.skip(e as int).skip(1) =~= b@.skip(e + 1));
        e += 1;
    }
    e
}

/// The next run at or after `from`: where it starts and where it ends.
fn next_run(b: &[u8], from: usize) -> (res: Option<(usize, usize)>)
    requires
        from <= b@.len(),
    ensures
        match res {
            Some((i, e)) => {
                &&& from <= i < e <= b@.len()
                &&& runs(b@.skip(from as int)) == seq![b@.subrange(i as int, e as int)] + runs(
                    b@.skip(e as int),
                )
            },
            None => runs(b@.skip(from as int)) == Seq::<Seq<u8>>::empty(),
        },
{
    let mut i: usize = from;
    while i < b.len() && b[i] == 0
        invariant
            from <= i <= b@.len(),
            runs(b@.skip(from as int)) == runs(b@.skip(i as int)),
        decreases b@.len() - i,
    {
        assert(b@.skip(i as int).skip(1) =~= b@.skip(i + 1));
        i += 1;
    }
    if i == b.len() {
        return None;
    }
    let ghost s = b@.skip(i as int);
    proof {
        zero_at_bounds(s);
    }
    let e = find_zero(b, i);
    assert(s.take(zero_at(s)) =~= b@.subrange(i as int, e as int));
    assert(s.skip(zero_at(s)) =~= b@.skip(e as int));
    Some((i, e))
}

/// A family name and a given name out of the bytes that hold them.
pub fn join_names(b: &[u8]) -> (res: String)
    ensures
        res@ == full_name(b@),
{
    assert(b@.skip(0) =~= b@);
    let (i, e) = match next_run(b, 0) {
        Some(r) => r,
        None => {
            return String::new();
        },
    };
    let mut s = utf8_lossy(vstd::slice::slice_subrange(b, i, e));
    match next_run(b, e) {
        Some((j, f)) => {
            proof {
                reveal_strlit(" ");
            }
            s.append(" ");
            s.append(utf8_lossy(vstd::slice::slice_subrange(b, j, f)).as_str());
            assert(" "@ =~= seq![' ']);
        },
        None => {},
    }
    s
}

/// The name in the bytes of a player object.
pub fn name_from(b: &[u8]) -> (res: String)
    ensures
        res@ == name_in(b@),
{
    let end: usize = if OFF_NAME + 64 <= b.len() {
        OFF_NAME + 64
    } else {
        b.len()
    };
    if OFF_NAME >= end {
        return String::new();
    }
    join_names(vstd::slice::slice_subrange(b, OFF_NAME, end))
}

/// The name of the player object at `obj`, empty where it cannot be read.
pub open spec fn name_at(m: crate::process::Memory, obj: u64) -> Seq<char> {
    match m.fetch(crate::process::at(obj, OFF_NAME as int), 64) {
        Some(b) => full_name(b),
        None => seq![],
    }
}

/// The name of the player object at `obj`, empty where it cannot be read.
pub fn read_name(p: &Proc, obj: u64) -> (res: String)
    ensures
        res@ == name_at(p@, obj),
{
    match p.read(obj.wrapping_add(OFF_NAME as u64), 64) {
        Some(b) => join_names(&b),
        None => String::new(),
    }
}

/// Whether `nm` can be the name of a player. Bytes at an address that is no
/// longer a player object hardly ever pass.
pub fn sane_name(nm: &str) -> (res: bool)
    ensures
        res == is_sane(nm@),
{
    let c = chars_of(nm);
    let ghost keep = |c: char| !crate::unicode::white(c);
    let mut s: Vec<char> = Vec::new();
    let mut i: usize = 0;
    while i < c.len()
        invariant
            i <= c@.len(),
            keep == (|c: char| !crate::unicode::white(c)),
            s@ == c@.take(i as int).filter(keep),
        decreases c@.len() - i,
    {
        proof {
            reveal(Seq::filter);
            assert(c@.take(i + 1).drop_last() =~= c@.take(i as int));
        }
        if !is_white(c[i]) {
            s.push(c[i]);
        }
        i += 1;
    }
    assert(c@.take(i as int) =~= c@);
    if s.len() == 0 || s.len() > 12 {
        return false;
    }
    let mut k: usize = 0;
    while k < s.len()
        invariant
            k <= s@.len(),
            s@ == solid(nm@),
            0 < s@.len() <= 12,
            forall|j: int| 0 <= j < k ==> name_char(#[trigger] s@[j]) && s@[j] != '\u{FFFD}',
        decreases s@.len() - k,
    {
        let x = s[k];
        let fit = ('\u{3040}' <= x && x <= '\u{30FF}') || ('\u{4E00}' <= x && x <= '\u{9FFF}') || (
        '\u{FF66}' <= x && x <= '\u{FF9F}') || x.is_alphabetic();
        if x == '\u{FFFD}' || !fit {
            assert(s@[k as int] == x);
            return false;
        }
        k += 1;
    }
    true
}

/// `s` without the white space at its ends.
pub fn trim<'a>(s: &'a str) -> (res: &'a str)
    ensures
        res@ == trimmed(s@),
{
    let c = chars_of(s);
    let mut lo: usize = 0;
    let mut hi: usize = c.len();
    assert(c@.subrange(0, hi as int) =~= c@);
    while lo < hi && is_white(c[lo])
        invariant
            lo <= hi == c@.len(),
            trimmed(c@) == trimmed(c@.subrange(lo as int, hi as int)),
        decreases hi - lo,
    {
        assert(c@.subrange(lo as int, hi as int).skip(1) =~= c@.subrange(lo + 1, hi as int));
        lo += 1;
    }
    while lo < hi && is_white(c[hi - 1])
        invariant
            lo <= hi <= c@.len(),
            lo < hi ==> !crate::unicode::white(c@[lo as int]),
            trimmed(c@) == trimmed(c@.subrange(lo as int, hi as int)),
        decreases hi - lo,
    {
        assert(c@.subrange(lo as int, hi as int).drop_last() =~= c@.subrange(lo as int, hi - 1));
        hi -= 1;
    }
    s.substring_char(lo, hi)
}

/// The characters of `s` without the white space at its ends.
pub fn trim_chars(s: &str) -> (res: Vec<char>)
    ensures
        res@ == trimmed(s@),
{
    chars_of(trim(s))
}

/// Whether `c` holds just the characters of `s`.
pub fn chars_are(c: &Vec<char>, s: &str) -> (res: bool)
    ensures
        res == (c@ == s@),
{
    let d = chars_of(s);
    if c.len() != d.len() {
        return false;
    }
    let mut i: usize = 0;
    while i < c.len()
        invariant
            i <= c@.len() == d@.len(),
            d@ == s@,
            forall|j: int| 0 <= j < i ==> c@[j] == d@[j],
        decreases c@.len() - i,
    {
        if c[i] != d[i] {
            return false;
        }
        i += 1;
    }
    assert(c@ =~= s@);
    true
}

} // verus!

//! What names, trimming and the order of texts come to.

use vstd::prelude::*;

use crate::order::text_lt;
use crate::text::{full_name, is_sane, runs, solid, trimmed, wide_end, wide_text, zero_at};
use crate::unicode::{alphabetic, utf16_text, utf8_text, white};

verus! {

/// The first difference decides which of two texts comes first, by the code
/// points there. A text comes before every longer one that starts with it, and
/// not before itself.
pub proof fn first_difference_decides(a: Seq<char>, b: Seq<char>, i: int)
    requires
        0 <= i <= a.len(),
        i <= b.len(),
        forall|k: int| 0 <= k < i ==> a[k] == b[k],
    ensures
        i < a.len() && i < b.len() && (a[i] as int) < (b[i] as int) ==> text_lt(a, b) && !text_lt(
            b,
            a,
        ),
        i == a.len() && i < b.len() ==> text_lt(a, b) && !text_lt(b, a),
        i == a.len() && i == b.len() ==> !text_lt(a, b),
    decreases i,
{
    if i > 0 {
        let (x, y) = (a.skip(1), b.skip(1));
        assert(a[0] == b[0]);
        assert forall|k: int| 0 <= k < i - 1 implies x[k] == y[k] by {
            assert(a[k + 1] == b[k + 1]);
        }
        first_difference_decides(x, y, i - 1);
    }
}

/// Trimming takes white space off the ends and nothing else: what is left is a
/// stretch of the text with white space only around it, and it neither starts
/// nor ends with any.
pub proof fn trimming_takes_off_the_ends(s: Seq<char>) -> (r: (int, int))
    ensures
        0 <= r.0 <= r.1 <= s.len(),
        trimmed(s) == s.subrange(r.0, r.1),
        forall|k: int| 0 <= k < r.0 ==> white(#[trigger] s[k]),
        forall|k: int| r.1 <= k < s.len() ==> white(#[trigger] s[k]),
        trimmed(s).len() > 0 ==> !white(trimmed(s)[0]) && !white(trimmed(s).last()),
    decreases s.len(),
{
    if s.len() > 0 && white(s[0]) {
        let t = s.skip(1);
        let q = trimming_takes_off_the_ends(t);
        let r = (q.0 + 1, q.1 + 1);
        assert(t.subrange(q.0, q.1) =~= s.subrange(r.0, r.1));
        assert forall|k: int| 0 <= k < r.0 implies white(#[trigger] s[k]) by {
            if k > 0 {
                assert(t[k - 1] == s[k]);
            }
        }
        assert forall|k: int| r.1 <= k < s.len() implies white(#[trigger] s[k]) by {
            assert(t[k - 1] == s[k]);
        }
        r
    } else if s.len() > 0 && white(s.last()) {
        let t = s.drop_last();
        let r = trimming_takes_off_the_ends(t);
        assert(t.subrange(r.0, r.1) =~= s.subrange(r.0, r.1));
        assert forall|k: int| 0 <= k < r.0 implies white(#[trigger] s[k]) by {
            assert(t[k] == s[k]);
        }
        assert forall|k: int| r.1 <= k < s.len() implies white(#[trigger] s[k]) by {
            if k < t.len() {
                assert(t[k] == s[k]);
            }
        }
        r
    } else {
        assert(s.subrange(0, s.len() as int) =~= s);
        (0, s.len() as int)
    }
}

/// What counts as white space: what Unicode lists as such, the ideographic
/// space among it, and no letter, digit or kana.
pub proof fn what_white_space_is(c: char)
    ensures
        white(' ') && white('\t') && white('\n') && white('\r') && white('\u{3000}') && white(
            '\u{A0}',
        ),
        '!' <= c <= '~' ==> !white(c),
        '\u{3001}' <= c ==> !white(c),
{
    reveal(white);
}

proof fn solid_of_joined(a: Seq<char>, b: Seq<char>)
    ensures
        solid(a + b) == solid(a) + solid(b),
{
    Seq::filter_distributes_over_add(a, b, |c: char| !white(c));
}

proof fn nothing_white(s: Seq<char>)
    requires
        forall|i: int| 0 <= i < s.len() ==> !white(#[trigger] s[i]),
    ensures
        solid(s) == s,
    decreases s.len(),
{
    reveal(Seq::filter);
    if s.len() > 0 {
        let d = s.drop_last();
        assert forall|i: int| 0 <= i < d.len() implies !white(#[trigger] d[i]) by {
            assert(d[i] == s[i]);
        }
        nothing_white(d);
        assert(s =~= d.push(s.last()));
        assert(!white(s[s.len() - 1]));
    }
}

/// White space anywhere in a name does not bear on whether it can be one.
pub proof fn white_space_does_not_count(a: Seq<char>, w: char, b: Seq<char>)
    requires
        white(w),
    ensures
        is_sane(a + seq![w] + b) == is_sane(a + b),
{
    solid_of_joined(a + seq![w], b);
    solid_of_joined(a, seq![w]);
    solid_of_joined(a, b);
    let s = seq![w];
    reveal(Seq::filter);
    assert(s.drop_last() =~= Seq::<char>::empty());
    assert(s.last() == w);
    assert(solid(s.drop_last()) =~= Seq::<char>::empty());
    assert(solid(s) =~= Seq::<char>::empty());
    assert(solid(a) + solid(s) =~= solid(a));
}

/// A text without white space can be a name just if it has one to twelve
/// characters and each is a kana, a Chinese character or otherwise a letter.
pub proof fn what_can_be_a_name(s: Seq<char>)
    requires
        forall|i: int| 0 <= i < s.len() ==> !white(#[trigger] s[i]),
    ensures
        is_sane(s) == (1 <= s.len() <= 12 && forall|i: int|
            0 <= i < s.len() ==> {
                let c = #[trigger] s[i];
                &&& c as int != 0xFFFD
                &&& {
                    ||| 0x3040 <= c as int <= 0x30FF
                    ||| 0x4E00 <= c as int <= 0x9FFF
                    ||| 0xFF66 <= c as int <= 0xFF9F
                    ||| alphabetic(c)
                }
            }),
{
    nothing_white(s);
    if is_sane(s) {
        assert forall|i: int| 0 <= i < s.len() implies (#[trigger] s[i]) as int != 0xFFFD by {
            assert(s.contains(s[i]));
        }
        assert(forall|i: int|
            0 <= i < s.len() ==> crate::text::name_char(#[trigger] s[i]));
    }
    if 1 <= s.len() <= 12 && forall|i: int|
        0 <= i < s.len() ==> {
            let c = #[trigger] s[i];
            &&& c as int != 0xFFFD
            &&& {
                ||| 0x3040 <= c as int <= 0x30FF
                ||| 0x4E00 <= c as int <= 0x9FFF
                ||| 0xFF66 <= c as int <= 0xFF9F
                ||| alphabetic(c)
            }
        } {
        if s.contains('\u{FFFD}') {
            let i = choose|i: int| 0 <= i < s.len() && s[i] == '\u{FFFD}';
            assert(s[i] as int != 0xFFFD);
        }
        assert forall|i: int| 0 <= i < s.len() implies crate::text::name_char(#[trigger] s[i]) by {
            let c = s[i];
            assert(c as int != 0xFFFD);
        }
    }
}

proof fn zero_comes_after(f: Seq<u8>, rest: Seq<u8>)
    requires
        forall|i: int| 0 <= i < f.len() ==> f[i] != 0,
        rest.len() > 0 ==> rest[0] == 0,
    ensures
        zero_at(f + rest) == f.len(),
    decreases f.len(),
{
    let s = f + rest;
    if f.len() > 0 {
        let t = f.skip(1);
        assert(s.skip(1) =~= t + rest);
        assert forall|i: int| 0 <= i < t.len() implies t[i] != 0 by {
            assert(f[i + 1] != 0);
        }
        assert(s[0] == f[0]);
        zero_comes_after(t, rest);
    }
}

proof fn zeros_are_skipped(z: Seq<u8>, rest: Seq<u8>)
    requires
        forall|i: int| 0 <= i < z.len() ==> z[i] == 0,
    ensures
        runs(z + rest) == runs(rest),
    decreases z.len(),
{
    let s = z + rest;
    if z.len() > 0 {
        let t = z.skip(1);
        assert(s.skip(1) =~= t + rest);
        assert(s[0] == z[0]);
        assert forall|i: int| 0 <= i < t.len() implies t[i] == 0 by {
            assert(z[i + 1] == 0);
        }
        zeros_are_skipped(t, rest);
    } else {
        assert(s =~= rest);
    }
}

proof fn run_comes_first(f: Seq<u8>, rest: Seq<u8>)
    requires
        f.len() > 0,
        forall|i: int| 0 <= i < f.len() ==> f[i] != 0,
        rest.len() > 0 ==> rest[0] == 0,
    ensures
        runs(f + rest) == seq![f] + runs(rest),
{
    let s = f + rest;
    zero_comes_after(f, rest);
    assert(s[0] == f[0]);
    assert(s.take(f.len() as int) =~= f);
    assert(s.skip(f.len() as int) =~= rest);
}

/// A family name and a given name with zero bytes between them are read as the
/// two with one blank between them, whatever zero bytes stand before them and
/// whatever stands behind the zero byte after them.
pub proof fn two_names_are_joined(
    lead: Seq<u8>,
    family: Seq<u8>,
    gap: Seq<u8>,
    given: Seq<u8>,
    rest: Seq<u8>,
)
    requires
        forall|i: int| 0 <= i < lead.len() ==> lead[i] == 0,
        forall|i: int| 0 <= i < gap.len() ==> gap[i] == 0,
        forall|i: int| 0 <= i < family.len() ==> family[i] != 0,
        forall|i: int| 0 <= i < given.len() ==> given[i] != 0,
        family.len() > 0,
        given.len() > 0,
        gap.len() > 0,
        rest.len() > 0 ==> rest[0] == 0,
    ensures
        full_name(lead + (family + (gap + (given + rest)))) == utf8_text(family) + seq![' ']
            + utf8_text(given),
{
    let after = gap + (given + rest);
    zeros_are_skipped(lead, family + after);
    assert(after[0] == gap[0]);
    run_comes_first(family, after);
    zeros_are_skipped(gap, given + rest);
    run_comes_first(given, rest);
    let r = runs(lead + (family + after));
    assert(r =~= seq![family, given] + runs(rest));
    assert(r[0] == family && r[1] == given);
}

/// Where only one name is there it is read alone, and where there is none the
/// name is empty.
pub proof fn one_name_stands_alone(lead: Seq<u8>, name: Seq<u8>, rest: Seq<u8>)
    requires
        forall|i: int| 0 <= i < lead.len() ==> lead[i] == 0,
        forall|i: int| 0 <= i < name.len() ==> name[i] != 0,
        forall|i: int| 0 <= i < rest.len() ==> rest[i] == 0,
    ensures
        name.len() > 0 ==> full_name(lead + (name + rest)) == utf8_text(name),
        full_name(lead) == Seq::<char>::empty(),
{
    let none = Seq::<u8>::empty();
    zeros_are_skipped(lead, none);
    assert(lead + none =~= lead);
    zeros_are_skipped(rest, none);
    assert(rest + none =~= rest);
    if name.len() > 0 {
        zeros_are_skipped(lead, name + rest);
        run_comes_first(name, rest);
        let r = runs(lead + (name + rest));
        assert(r =~= seq![name]);
    }
}

/// A text in units ends before the first zero unit, or with the last unit.
pub proof fn wide_text_ends_at_a_zero(u: Seq<u16>, rest: Seq<u16>)
    requires
        forall|i: int| 0 <= i < u.len() ==> u[i] != 0,
        rest.len() > 0 ==> rest[0] == 0,
    ensures
        wide_text(u + rest) == utf16_text(u),
{
    wide_zero_comes_after(u, rest);
    assert((u + rest).take(u.len() as int) =~= u);
}

proof fn wide_zero_comes_after(u: Seq<u16>, rest: Seq<u16>)
    requires
        forall|i: int| 0 <= i < u.len() ==> u[i] != 0,
        rest.len() > 0 ==> rest[0] == 0,
    ensures
        wide_end(u + rest) == u.len(),
    decreases u.len(),
{
    let s = u + rest;
    if u.len() > 0 {
        let t = u.skip(1);
        assert(s.skip(1) =~= t + rest);
        assert forall|i: int| 0 <= i < t.len() implies t[i] != 0 by {
            assert(u[i + 1] != 0);
        }
        assert(s[0] == u[0]);
        wide_zero_comes_after(t, rest);
    }
}

/// A text up to its zero byte is read as that text, whatever follows.
pub proof fn text_ends_at_a_zero(f: Seq<u8>, rest: Seq<u8>)
    requires
        forall|i: int| 0 <= i < f.len() ==> f[i] != 0,
        rest.len() > 0 ==> rest[0] == 0,
    ensures
        (f + rest).take(zero_at(f + rest)) == f,
{
    zero_comes_after(f, rest);
    assert((f + rest).take(f.len() as int) =~= f);
}

/// The name of a player object stands in the 64 bytes from 0x914 on, both in
/// the bytes of the object and in memory.
pub proof fn where_the_name_stands(b: Seq<u8>, m: crate::process::Memory, obj: u64)
    ensures
        b.len() >= 0x954 ==> crate::text::name_in(b) == full_name(b.subrange(0x914, 0x954)),
        ({
            let got = m.fetch(crate::process::at(obj, 0x914), 64);
            crate::text::name_at(m, obj) == if got is Some {
                full_name(got->0)
            } else {
                Seq::empty()
            }
        }),
{
}

} // verus!

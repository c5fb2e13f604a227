//! What the tables give: grades, pitches, special abilities and teams.

use vstd::prelude::*;

use crate::abil::{bit, bit_name, field_name, legal, nib, nibbles, seen, unseen, ABIL_SEEN_VALS};
use crate::balls::{
    choices, dir_of, entry_for, rendering, BALL_EMPTY, BALL_NAMES, BALL_ORIGINAL,
};
use crate::research::{lowest_from, ones};
use crate::show::grade_letter;
use crate::teams::{from_table, team_id, with_entries};

verus! {

/// The lowest ability has grade G, and the grade goes up just at 20, 30, 40, 55,
/// 70, 80 and 90, one letter at a time.
pub proof fn where_grades_go_up(v: u8)
    ensures
        grade_letter(0) == "G"@,
        v < 255 && v != 19 && v != 29 && v != 39 && v != 54 && v != 69 && v != 79 && v != 89
            ==> grade_letter((v + 1) as u8) == grade_letter(v),
        grade_letter(20) == "F"@ && grade_letter(30) == "E"@ && grade_letter(40) == "D"@
            && grade_letter(55) == "C"@ && grade_letter(70) == "B"@ && grade_letter(80) == "A"@
            && grade_letter(90) == "S"@,
{
}

/// The text for a number is that of the first entry with it, and there is none
/// just if no entry has it.
pub proof fn first_text_counts(t: Seq<(u8, &'static str)>, id: u8, i: int)
    ensures
        0 <= i < t.len() && t[i].0 == id && (forall|j: int|
            0 <= j < i ==> (#[trigger] t[j]).0 != id) ==> entry_for(t, id) == Some(t[i].1@),
        entry_for(t, id) is None <==> forall|j: int| 0 <= j < t.len() ==> (#[trigger] t[j]).0 != id,
    decreases t.len(),
{
    if t.len() > 0 {
        let s = t.skip(1);
        first_text_counts(s, id, i - 1);
        assert(forall|j: int| 0 <= j < s.len() ==> s[j] == t[j + 1]);
        if 0 < i < t.len() && t[i].0 == id && (forall|j: int|
            0 <= j < i ==> (#[trigger] t[j]).0 != id) {
            assert(t[0].0 != id);
            assert(s[i - 1] == t[i]);
            assert forall|j: int| 0 <= j < i - 1 implies (#[trigger] s[j]).0 != id by {
                assert(t[j + 1].0 != id);
            }
        }
        if entry_for(t, id) is None {
            assert forall|j: int| 0 <= j < t.len() implies (#[trigger] t[j]).0 != id by {
                if j > 0 {
                    assert(s[j - 1] == t[j]);
                }
            }
        }
        if forall|j: int| 0 <= j < t.len() ==> (#[trigger] t[j]).0 != id {
            assert(t[0].0 != id);
            assert forall|j: int| 0 <= j < s.len() implies (#[trigger] s[j]).0 != id by {
                assert(t[j + 1].0 != id);
            }
        }
    }
}

/// The name of a field is that of the first entry with it, and there is none just
/// if no entry has it.
pub proof fn first_name_counts(t: Seq<(usize, &'static str)>, n: usize, i: int)
    ensures
        0 <= i < t.len() && t[i].0 == n && (forall|j: int|
            0 <= j < i ==> (#[trigger] t[j]).0 != n) ==> field_name(t, n) == Some(t[i].1@),
        field_name(t, n) is None <==> forall|j: int| 0 <= j < t.len() ==> (#[trigger] t[j]).0 != n,
    decreases t.len(),
{
    if t.len() > 0 {
        let s = t.skip(1);
        first_name_counts(s, n, i - 1);
        assert(forall|j: int| 0 <= j < s.len() ==> s[j] == t[j + 1]);
        if 0 < i < t.len() && t[i].0 == n && (forall|j: int|
            0 <= j < i ==> (#[trigger] t[j]).0 != n) {
            assert(t[0].0 != n);
            assert(s[i - 1] == t[i]);
            assert forall|j: int| 0 <= j < i - 1 implies (#[trigger] s[j]).0 != n by {
                assert(t[j + 1].0 != n);
            }
        }
        if field_name(t, n) is None {
            assert forall|j: int| 0 <= j < t.len() implies (#[trigger] t[j]).0 != n by {
                if j > 0 {
                    assert(s[j - 1] == t[j]);
                }
            }
        }
        if forall|j: int| 0 <= j < t.len() ==> (#[trigger] t[j]).0 != n {
            assert(t[0].0 != n);
            assert forall|j: int| 0 <= j < s.len() implies (#[trigger] s[j]).0 != n by {
                assert(t[j + 1].0 != n);
            }
        }
    }
}

/// The name of a bit is that of the first entry with its field and its number,
/// and there is none just if no entry has both.
pub proof fn first_bit_counts(t: Seq<(usize, u8, &'static str)>, n: usize, b: u8, i: int)
    ensures
        0 <= i < t.len() && t[i].0 == n && t[i].1 == b && (forall|j: int|
            0 <= j < i ==> !((#[trigger] t[j]).0 == n && t[j].1 == b)) ==> bit_name(t, n, b) == Some(
            t[i].2@,
        ),
        bit_name(t, n, b) is None <==> forall|j: int|
            0 <= j < t.len() ==> !((#[trigger] t[j]).0 == n && t[j].1 == b),
    decreases t.len(),
{
    if t.len() > 0 {
        let s = t.skip(1);
        first_bit_counts(s, n, b, i - 1);
        assert(forall|j: int| 0 <= j < s.len() ==> s[j] == t[j + 1]);
        if 0 < i < t.len() && t[i].0 == n && t[i].1 == b && (forall|j: int|
            0 <= j < i ==> !((#[trigger] t[j]).0 == n && t[j].1 == b)) {
            assert(!(t[0].0 == n && t[0].1 == b));
            assert(s[i - 1] == t[i]);
            assert forall|j: int| 0 <= j < i - 1 implies !((#[trigger] s[j]).0 == n && s[j].1 == b) by {
                assert(!(t[j + 1].0 == n && t[j + 1].1 == b));
            }
        }
        if bit_name(t, n, b) is None {
            assert forall|j: int| 0 <= j < t.len() implies !((#[trigger] t[j]).0 == n && t[j].1
                == b) by {
                if j > 0 {
                    assert(s[j - 1] == t[j]);
                }
            }
        }
        if forall|j: int| 0 <= j < t.len() ==> !((#[trigger] t[j]).0 == n && t[j].1 == b) {
            assert(!(t[0].0 == n && t[0].1 == b));
            assert forall|j: int| 0 <= j < s.len() implies !((#[trigger] s[j]).0 == n && s[j].1
                == b) by {
                assert(!(t[j + 1].0 == n && t[j + 1].1 == b));
            }
        }
    }
}

/// The rendering of a name is that of the first entry with it, and there is none
/// just if no entry has it.
pub proof fn first_rendering_counts(t: Seq<(&'static str, &'static str)>, n: Seq<char>, i: int)
    ensures
        0 <= i < t.len() && t[i].0@ == n && (forall|j: int|
            0 <= j < i ==> (#[trigger] t[j]).0@ != n) ==> rendering(t, n) == Some(t[i].1@),
        rendering(t, n) is None <==> forall|j: int| 0 <= j < t.len() ==> (#[trigger] t[j]).0@ != n,
    decreases t.len(),
{
    if t.len() > 0 {
        let s = t.skip(1);
        first_rendering_counts(s, n, i - 1);
        assert(forall|j: int| 0 <= j < s.len() ==> s[j] == t[j + 1]);
        if 0 < i < t.len() && t[i].0@ == n && (forall|j: int|
            0 <= j < i ==> (#[trigger] t[j]).0@ != n) {
            assert(t[0].0@ != n);
            assert(s[i - 1] == t[i]);
            assert forall|j: int| 0 <= j < i - 1 implies (#[trigger] s[j]).0@ != n by {
                assert(t[j + 1].0@ != n);
            }
        }
        if rendering(t, n) is None {
            assert forall|j: int| 0 <= j < t.len() implies (#[trigger] t[j]).0@ != n by {
                if j > 0 {
                    assert(s[j - 1] == t[j]);
                }
            }
        }
        if forall|j: int| 0 <= j < t.len() ==> (#[trigger] t[j]).0@ != n {
            assert(t[0].0@ != n);
            assert forall|j: int| 0 <= j < s.len() implies (#[trigger] s[j]).0@ != n by {
                assert(t[j + 1].0@ != n);
            }
        }
    }
}

/// Which family a pitch belongs to: straight balls, then sliders, curves,
/// forks, sinkers and shooting balls, by their numbers. What is left has none.
pub proof fn families_of_pitches(id: u8)
    ensures
        dir_of(id) == Some(5usize) <==> id <= 3 || id == 38 || id == 39 || id == 40,
        dir_of(id) == Some(0usize) <==> 4 <= id <= 7,
        dir_of(id) == Some(1usize) <==> 8 <= id <= 13 || id == 41,
        dir_of(id) == Some(2usize) <==> 14 <= id <= 22 || id == 42,
        dir_of(id) == Some(3usize) <==> 23 <= id <= 32 || id == 43,
        dir_of(id) == Some(4usize) <==> 33 <= id <= 35,
        dir_of(id) is None <==> id == 36 || id == 37 || id >= 44,
{
}

/// A direction offers none, the original pitch and every named pitch of its own
/// family, and nothing else.
pub proof fn what_a_direction_offers(dir: usize, id: u8)
    ensures
        choices(dir).contains(id) <==> {
            ||| id == BALL_EMPTY
            ||| id == BALL_ORIGINAL
            ||| dir_of(id) == Some(dir) && exists|i: int|
                0 <= i < BALL_NAMES@.len() && (#[trigger] BALL_NAMES@[i]).0 == id
        },
{
    let keep = |e: (u8, &'static str)| e.0 != BALL_ORIGINAL && dir_of(e.0) == Some(dir);
    let t = BALL_NAMES@;
    let kept = t.filter(keep);
    let c = choices(dir);
    if c.contains(id) {
        let k = choose|k: int| 0 <= k < c.len() && c[k] == id;
        if k >= 2 {
            t.lemma_filter_pred(keep, k - 2);
            t.lemma_filter_contains_rev(keep, kept[k - 2]);
            let i = choose|i: int| 0 <= i < t.len() && t[i] == kept[k - 2];
            assert(t[i].0 == id);
        }
    }
    if id == BALL_EMPTY {
        assert(c[0] == id);
    } else if id == BALL_ORIGINAL {
        assert(c[1] == id);
    } else if dir_of(id) == Some(dir) && exists|i: int|
        0 <= i < t.len() && (#[trigger] t[i]).0 == id {
        let i = choose|i: int| 0 <= i < t.len() && (#[trigger] t[i]).0 == id;
        t.lemma_filter_contains(keep, i);
        let k = choose|k: int| 0 <= k < kept.len() && kept[k] == t[i];
        assert(c[k + 2] == id);
    }
}

/// Bits are counted from the lowest, each worth twice the one before.
pub proof fn bits_are_shifted(v: u16, b: u16)
    requires
        b < 16,
    ensures
        bit(v as nat, b as nat) == ((v >> b) & 1 == 1),
    decreases b,
{
    if b == 0 {
        assert(v >> 0u16 == v) by (bit_vector);
        assert(v & 1 == v % 2) by (bit_vector);
    } else {
        let c = (b - 1) as u16;
        let h = v / 2;
        bits_are_shifted(h, c);
        assert(c < 15 && b == c + 1 ==> (v / 2) >> c == v >> b) by (bit_vector);
    }
}

/// The values that can be chosen for a field are those from 1 to 15 whose bit is
/// set in the field's table entry, each once and by size.
pub proof fn what_can_be_chosen(n: int, v: u8, i: int, j: int)
    requires
        0 <= n < 28,
    ensures
        legal(n).contains(v) <==> 1 <= v <= 15 && (ABIL_SEEN_VALS@[n] >> v as u16) & 1 == 1,
        0 <= i < j < legal(n).len() ==> legal(n)[i] < legal(n)[j],
{
    let all = Seq::new(15, |i: int| (i + 1) as u8);
    let keep = |v: u8| seen(n, v as int);
    let kept = all.filter(keep);
    if legal(n).contains(v) {
        let k = choose|k: int| 0 <= k < kept.len() && kept[k] == v;
        all.lemma_filter_pred(keep, k);
        all.lemma_filter_contains_rev(keep, v);
        let q = choose|q: int| 0 <= q < all.len() && all[q] == v;
        bits_are_shifted(ABIL_SEEN_VALS@[n], v as u16);
    }
    if 1 <= v <= 15 && (ABIL_SEEN_VALS@[n] >> v as u16) & 1 == 1 {
        bits_are_shifted(ABIL_SEEN_VALS@[n], v as u16);
        assert(all[v - 1] == v);
        all.lemma_filter_contains(keep, v - 1);
    }
    if 0 <= i < j < kept.len() {
        filter_keeps_rising(all, keep, i, j);
    }
}

proof fn filter_keeps_rising(s: Seq<u8>, keep: spec_fn(u8) -> bool, i: int, j: int)
    requires
        forall|a: int, b: int| 0 <= a < b < s.len() ==> s[a] < s[b],
        0 <= i < j < s.filter(keep).len(),
    ensures
        s.filter(keep)[i] < s.filter(keep)[j],
    decreases s.len(),
{
    reveal(Seq::filter);
    if s.len() > 0 {
        let d = s.drop_last();
        let r = d.filter(keep);
        assert forall|a: int, b: int| 0 <= a < b < d.len() implies d[a] < d[b] by {
            assert(s[a] < s[b]);
        }
        if j < r.len() {
            filter_keeps_rising(d, keep, i, j);
        } else {
            d.lemma_filter_contains_rev(keep, r[i]);
            let a = choose|a: int| 0 <= a < d.len() && d[a] == r[i];
            assert(s[a] < s[s.len() - 1]);
        }
    }
}

/// The half bytes that are listed as never seen are just those whose value has no
/// bit in their field's table entry.
pub proof fn which_values_are_listed(v: Seq<u8>, k: nat, n: usize, x: u8)
    requires
        v.len() >= 14,
        k <= 28,
    ensures
        unseen(v, k).contains((n, x)) <==> n < k && x == nib(v, n as int) && !seen(
            n as int,
            x as int,
        ),
        nibbles(v).len() == 28,
    decreases k,
{
    if k > 0 {
        which_values_are_listed(v, (k - 1) as nat, n, x);
        let rest = unseen(v, (k - 1) as nat);
        let all = unseen(v, k);
        let e = ((k - 1) as usize, nibbles(v)[k - 1]);
        assert(nibbles(v)[k - 1] == nib(v, k - 1));
        if all.contains((n, x)) {
            let i = choose|i: int| 0 <= i < all.len() && all[i] == (n, x);
            if i < rest.len() {
                assert(rest[i] == (n, x));
            }
        }
        if rest.contains((n, x)) {
            let i = choose|i: int| 0 <= i < rest.len() && rest[i] == (n, x);
            assert(all[i] == (n, x));
        }
        if !seen(k - 1, e.1 as int) {
            assert(all[rest.len() as int] == e);
        }
    }
}

/// A half byte is four bits, the lower four of each byte first.
pub proof fn what_half_bytes_are(b: Seq<u8>, k: int)
    requires
        0 <= k < b.len(),
    ensures
        nib(b, 2 * k) == b[k] & 15,
        nib(b, 2 * k + 1) == b[k] >> 4,
{
    let x = b[k];
    assert(x & 15 == x % 16 && x >> 4 == x / 16) by (bit_vector);
    assert((2 * k + 1) / 2 == k);
}

/// The lowest bit that is set has no other set below it, and where none is set
/// there are eight below.
pub proof fn nothing_is_set_below(v: u8, k: nat)
    requires
        k <= 8,
    ensures
        k <= lowest_from(v, k) <= 8,
        lowest_from(v, k) < 8 ==> bit(v as nat, lowest_from(v, k)),
        forall|j: nat| k <= j < lowest_from(v, k) ==> !#[trigger] bit(v as nat, j),
    decreases 8 - k,
{
    if k < 8 && !bit(v as nat, k) {
        nothing_is_set_below(v, k + 1);
    }
}

/// As many bits are counted as are set.
pub proof fn set_bits_are_counted(v: u8, k: nat)
    requires
        k <= 8,
    ensures
        ones(v, k) == Seq::new(k, |i: int| i).filter(|i: int| bit(v as nat, i as nat)).len(),
    decreases k,
{
    reveal(Seq::filter);
    if k > 0 {
        let s = Seq::new(k, |i: int| i);
        set_bits_are_counted(v, (k - 1) as nat);
        assert(s.drop_last() =~= Seq::new((k - 1) as nat, |i: int| i));
        assert(s.last() == k - 1);
    }
}

/// A table of teams gives each number the name of its last entry, and no number
/// that has none.
pub proof fn last_name_of_a_team_counts(t: Seq<(u8, &'static str)>, k: int, id: u8, i: int)
    requires
        0 <= k <= t.len(),
    ensures
        from_table(t, k).dom().contains(id) <==> exists|j: int|
            0 <= j < k && (#[trigger] t[j]).0 == id,
        0 <= i < k && t[i].0 == id && (forall|j: int| i < j < k ==> (#[trigger] t[j]).0 != id)
            ==> from_table(t, k)[id] == t[i].1@,
    decreases k,
{
    if k > 0 {
        last_name_of_a_team_counts(t, k - 1, id, i);
        if t[k - 1].0 == id {
            assert(exists|j: int| 0 <= j < k && (#[trigger] t[j]).0 == id);
        }
    }
}

/// An entry of a file names a team: the last one for it that has a text counts.
/// A team that no entry names keeps the name it had.
pub proof fn last_entry_of_a_team_counts(
    m: Map<u8, Seq<char>>,
    pairs: Seq<(Seq<char>, Option<Seq<char>>)>,
    k: int,
    id: u8,
    i: int,
)
    requires
        0 <= k <= pairs.len(),
        -1 <= i < k,
        i >= 0 ==> team_id(pairs[i].0) == Some(id) && pairs[i].1 is Some && pairs[i].1->0.len() > 0,
        forall|j: int|
            i < j < k ==> !(team_id((#[trigger] pairs[j]).0) == Some(id) && pairs[j].1 is Some
                && pairs[j].1->0.len() > 0),
    ensures
        i >= 0 ==> with_entries(m, pairs, k).dom().contains(id) && with_entries(m, pairs, k)[id]
            == pairs[i].1->0,
        i < 0 ==> with_entries(m, pairs, k).dom().contains(id) == m.dom().contains(id) && (
        m.dom().contains(id) ==> with_entries(m, pairs, k)[id] == m[id]),
    decreases k,
{
    if k > 0 && i < k - 1 {
        last_entry_of_a_team_counts(m, pairs, k - 1, id, i);
        assert(!(team_id(pairs[k - 1].0) == Some(id) && pairs[k - 1].1 is Some
            && pairs[k - 1].1->0.len() > 0));
    }
}

} // verus!

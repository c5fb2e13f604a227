//! Numbers as they are written, read and stored.

use vstd::prelude::*;

use crate::bytes::{bytes16, bytes32, le16, le32, le64, pattern, pattern16, signed};
use crate::digits::{
    all_digits, decimal, digit, digit_value, hex, hex_low, hex_up, hex_up_min, numeral, upper_digit,
    value_of,
};
use crate::research::{typed_byte, typed_hex, typed_offset};
use crate::text::trimmed;
use crate::unicode::white;

verus! {

/// Sixteen to the power of `k`.
pub open spec fn pow16(k: nat) -> nat
    decreases k,
{
    if k == 0 {
        1
    } else {
        16 * pow16((k - 1) as nat)
    }
}

proof fn one_more_digit(r: Seq<char>, c: char, radix: int)
    requires
        all_digits(r, radix),
        digit_value(c) is Some,
        digit_value(c)->0 < radix,
    ensures
        all_digits(r.push(c), radix),
        value_of(r.push(c), radix) == value_of(r, radix) * radix + digit_value(c)->0,
{
    let t = r.push(c);
    assert(t.drop_last() =~= r);
    assert forall|i: int| 0 <= i < t.len() implies (#[trigger] digit_value(t[i])) is Some
        && digit_value(t[i])->0 < radix by {
        if i < r.len() {
            assert(t[i] == r[i]);
        }
    }
}

/// A decimal numeral is read as its number, and has no zero in front.
pub proof fn decimal_is_read(n: nat)
    ensures
        all_digits(decimal(n), 10),
        value_of(decimal(n), 10) == n,
        decimal(n).len() > 0,
        n > 0 ==> decimal(n)[0] != '0',
        n == 0 ==> decimal(n) == seq!['0'],
    decreases n,
{
    let none = Seq::<char>::empty();
    if n < 10 {
        one_more_digit(none, digit(n as int), 10);
        assert(none.push(digit(n as int)) =~= decimal(n));
    } else {
        decimal_is_read(n / 10);
        one_more_digit(decimal(n / 10), digit((n % 10) as int), 10);
        assert(decimal(n)[0] == decimal(n / 10)[0]);
    }
}

/// A hexadecimal numeral is read as its number, is in lower case and has no zero
/// in front.
pub proof fn hexadecimal_is_read(n: nat)
    ensures
        all_digits(hex(n), 16),
        value_of(hex(n), 16) == n,
        hex(n).len() > 0,
        n > 0 ==> hex(n)[0] != '0',
        n == 0 ==> hex(n) == seq!['0'],
        forall|i: int| 0 <= i < hex(n).len() ==> !('A' <= #[trigger] hex(n)[i] <= 'F'),
    decreases n,
{
    let none = Seq::<char>::empty();
    if n < 16 {
        one_more_digit(none, digit(n as int), 16);
        assert(none.push(digit(n as int)) =~= hex(n));
    } else {
        let r = hex(n / 16);
        hexadecimal_is_read(n / 16);
        one_more_digit(r, digit((n % 16) as int), 16);
        assert(hex(n)[0] == r[0]);
        assert forall|i: int| 0 <= i < hex(n).len() implies !('A' <= #[trigger] hex(n)[i] <= 'F') by {
            if i < r.len() {
                assert(hex(n)[i] == r[i]);
            }
        }
    }
}

/// Digits of a fixed number are read as what is left of the number at that
/// width, in the case that was asked for.
pub proof fn fixed_digits_are_read(n: nat, width: nat)
    ensures
        hex_low(n, width).len() == width,
        hex_up(n, width).len() == width,
        all_digits(hex_low(n, width), 16),
        all_digits(hex_up(n, width), 16),
        value_of(hex_low(n, width), 16) == n % pow16(width),
        value_of(hex_up(n, width), 16) == n % pow16(width),
        forall|i: int| 0 <= i < width ==> !('A' <= #[trigger] hex_low(n, width)[i] <= 'F'),
        forall|i: int| 0 <= i < width ==> !('a' <= #[trigger] hex_up(n, width)[i] <= 'f'),
    decreases width,
{
    if width > 0 {
        let w = (width - 1) as nat;
        let (a, b) = (hex_low(n / 16, w), hex_up(n / 16, w));
        let d = (n % 16) as int;
        fixed_digits_are_read(n / 16, w);
        one_more_digit(a, digit(d), 16);
        one_more_digit(b, upper_digit(d), 16);
        pow16_is_positive(w);
        vstd::arithmetic::div_mod::lemma_mod_breakdown(n as int, 16, pow16(w) as int);
        assert forall|i: int| 0 <= i < width implies !('A' <= #[trigger] hex_low(n, width)[i] <= 'F') by {
            if i < w {
                assert(hex_low(n, width)[i] == a[i]);
            }
        }
        assert forall|i: int| 0 <= i < width implies !('a' <= #[trigger] hex_up(n, width)[i] <= 'f') by {
            if i < w {
                assert(hex_up(n, width)[i] == b[i]);
            }
        }
    }
}

proof fn pow16_is_positive(k: nat)
    ensures
        pow16(k) > 0,
    decreases k,
{
    if k > 0 {
        pow16_is_positive((k - 1) as nat);
    }
}

/// A numeral with a least width is read as its number, however long it gets. It
/// is in upper case, has at least that many digits, and a zero in front only to
/// fill them up.
pub proof fn padded_digits_are_read(n: nat, width: nat)
    ensures
        hex_up_min(n, width).len() >= width,
        all_digits(hex_up_min(n, width), 16),
        value_of(hex_up_min(n, width), 16) == n,
        forall|i: int| 0 <= i < hex_up_min(n, width).len() ==> !('a' <= #[trigger] hex_up_min(
            n,
            width,
        )[i] <= 'f'),
        hex_up_min(n, width).len() > width ==> hex_up_min(n, width)[0] != '0',
    decreases n, width,
{
    if n > 0 || width > 0 {
        let w = if width == 0 {
            0
        } else {
            (width - 1) as nat
        };
        let r = hex_up_min(n / 16, w);
        let t = hex_up_min(n, width);
        padded_digits_are_read(n / 16, w);
        one_more_digit(r, upper_digit((n % 16) as int), 16);
        assert forall|i: int| 0 <= i < t.len() implies !('a' <= #[trigger] t[i] <= 'f') by {
            if i < r.len() {
                assert(t[i] == r[i]);
            }
        }
        if t.len() > width {
            if r.len() > 0 {
                assert(t[0] == r[0]);
                if width == 0 {
                } else {
                    assert(r.len() > w);
                }
            } else {
                assert(width == 0);
                if n / 16 > 0 {
                    assert(r.len() > 0) by {
                        reveal_with_fuel(hex_up_min, 2);
                    }
                }
                assert(n / 16 == 0);
            }
        }
    }
}

/// Whatever is a digit in either case is read as the same number, and nothing
/// else is a digit.
pub proof fn what_a_digit_is(c: char)
    ensures
        digit_value(c) is Some <==> ('0' <= c <= '9' || 'a' <= c <= 'f' || 'A' <= c <= 'F'),
        forall|d: int|
            0 <= d < 16 ==> (#[trigger] digit_value(digit(d))) == Some(d) && digit_value(upper_digit(d))
                == Some(d),
        digit(0) == '0' && digit(9) == '9' && digit(10) == 'a' && digit(15) == 'f',
        upper_digit(0) == '0' && upper_digit(9) == '9' && upper_digit(10) == 'A' && upper_digit(15)
            == 'F',
{
}

/// A numeral is read just if there are digits, and nothing else, behind a plus
/// sign that may stand in front, and if it does not exceed what is allowed. One
/// more digit behind it counts as much again as the base says.
pub proof fn what_a_numeral_is(t: Seq<char>, radix: int, max: int, c: char)
    requires
        2 <= radix <= 16,
    ensures
        numeral(Seq::empty(), radix, max) is None,
        numeral(seq!['+'], radix, max) is None,
        t.len() > 0 && t[0] != '+' ==> numeral(seq!['+'] + t, radix, max) == numeral(t, radix, max),
        numeral(t, radix, max) is Some ==> 0 <= numeral(t, radix, max)->0 <= max,
        numeral(t, radix, max) is Some && digit_value(c) is Some && digit_value(c)->0 < radix
            && numeral(t, radix, max)->0 * radix + digit_value(c)->0 <= max ==> numeral(
            t.push(c),
            radix,
            max,
        ) == Some(numeral(t, radix, max)->0 * radix + digit_value(c)->0),
        t.len() > 0 && (digit_value(c) is None || digit_value(c)->0 >= radix) ==> numeral(
            t.push(c),
            radix,
            max,
        ) is None,
{
    assert(seq!['+'].skip(1) =~= Seq::<char>::empty());
    assert((seq!['+'] + t).skip(1) =~= t);
    let d = if t.len() > 0 && t[0] == '+' {
        t.skip(1)
    } else {
        t
    };
    if numeral(t, radix, max) is Some {
        value_is_not_negative(d, radix);
        assert(t.push(c)[0] == t[0]);
        assert(t[0] == '+' ==> t.push(c).skip(1) =~= d.push(c));
        if digit_value(c) is Some && digit_value(c)->0 < radix {
            one_more_digit(d, c, radix);
        }
    }
    if t.len() > 0 && (digit_value(c) is None || digit_value(c)->0 >= radix) {
        let u = t.push(c);
        assert(u[0] == t[0]);
        let e = if u[0] == '+' {
            u.skip(1)
        } else {
            u
        };
        assert(e[e.len() - 1] == c);
        assert(!all_digits(e, radix)) by {
            if all_digits(e, radix) {
                assert(digit_value(e[e.len() - 1]) is Some);
            }
        }
    }
}

proof fn value_is_not_negative(t: Seq<char>, radix: int)
    requires
        radix >= 2,
        all_digits(t, radix),
    ensures
        value_of(t, radix) >= 0,
    decreases t.len(),
{
    if t.len() > 0 {
        let d = t.drop_last();
        assert forall|i: int| 0 <= i < d.len() implies (#[trigger] digit_value(d[i])) is Some
            && digit_value(d[i])->0 < radix by {
            assert(d[i] == t[i]);
            assert(digit_value(t[i]) is Some);
        }
        value_is_not_negative(d, radix);
        assert(digit_value(t[t.len() - 1]) is Some);
        assert(value_of(d, radix) * radix >= 0) by (nonlinear_arith)
            requires
                value_of(d, radix) >= 0,
                radix >= 2,
        ;
    }
}

proof fn white_in_front(w: Seq<char>, s: Seq<char>)
    requires
        forall|i: int| 0 <= i < w.len() ==> white(#[trigger] w[i]),
    ensures
        trimmed(w + s) == trimmed(s),
    decreases w.len(),
{
    if w.len() > 0 {
        let v = w.skip(1);
        assert((w + s).skip(1) =~= v + s);
        assert((w + s)[0] == w[0]);
        assert forall|i: int| 0 <= i < v.len() implies white(#[trigger] v[i]) by {
            assert(v[i] == w[i + 1]);
        }
        white_in_front(v, s);
    } else {
        assert(w + s =~= s);
    }
}

proof fn white_behind(s: Seq<char>, w: Seq<char>)
    requires
        forall|i: int| 0 <= i < w.len() ==> white(#[trigger] w[i]),
        s.len() > 0,
        !white(s[0]),
        !white(s.last()),
    ensures
        trimmed(s + w) == s,
    decreases w.len(),
{
    if w.len() > 0 {
        let v = w.drop_last();
        let t = s + w;
        assert(t.drop_last() =~= s + v);
        assert(t[0] == s[0]);
        assert(t.last() == w[w.len() - 1]);
        assert forall|i: int| 0 <= i < v.len() implies white(#[trigger] v[i]) by {
            assert(v[i] == w[i]);
        }
        white_behind(s, v);
    } else {
        assert(s + w =~= s);
    }
}

/// Hexadecimal digits that were typed are read as their number, whatever white
/// space is around them and whether or not a plus sign, and then `0x` or `0X`,
/// stands in front.
pub proof fn typed_digits_are_read(
    before: Seq<char>,
    plus: bool,
    x: int,
    d: Seq<char>,
    after: Seq<char>,
)
    requires
        forall|i: int| 0 <= i < before.len() ==> white(#[trigger] before[i]),
        forall|i: int| 0 <= i < after.len() ==> white(#[trigger] after[i]),
        d.len() > 0,
        all_digits(d, 16),
        value_of(d, 16) <= 0xFFFF_FFFF_FFFF_FFFF,
    ensures
        ({
            let front = if plus {
                seq!['+']
            } else {
                seq![]
            };
            let mark = if x == 1 {
                seq!['0', 'x']
            } else if x == 2 {
                seq!['0', 'X']
            } else {
                seq![]
            };
            typed_hex(before + (front + mark + d + after)) == Some(value_of(d, 16))
        }),
{
    reveal(white);
    let front = if plus {
        seq!['+']
    } else {
        seq![]
    };
    let mark = if x == 1 {
        seq!['0', 'x']
    } else if x == 2 {
        seq!['0', 'X']
    } else {
        seq![]
    };
    let core = front + mark + d;
    assert(digit_value(d[0]) is Some);
    assert(digit_value(d[d.len() - 1]) is Some);
    assert(core.last() == d[d.len() - 1]);
    if plus {
        assert(core[0] == '+');
        assert(core.skip(1) =~= mark + d);
    } else if x == 1 || x == 2 {
        assert(core[0] == '0');
    } else {
        assert(core =~= d);
    }
    white_in_front(before, core + after);
    white_behind(core, after);
    assert(front + mark + d + after =~= core + after);
    let t = mark + d;
    assert(crate::research::without_plus(core) =~= t);
    if x == 1 || x == 2 {
        assert(t[0] == '0' && t[1] == mark[1]);
        assert(t.skip(2) =~= d);
    } else {
        assert(t =~= d);
        if d.len() >= 2 {
            assert(digit_value(d[1]) is Some);
        }
    }
    assert(crate::research::without_0x(t) =~= d);
}

/// Text that has no digit in it, or something else behind its digits, is read
/// as no number.
pub proof fn stray_text_is_no_number(d: Seq<char>, c: char)
    requires
        digit_value(c) is None,
        !white(c),
        c != 'x' && c != 'X' && c != '+',
    ensures
        typed_hex(d.push(c)) is None,
        typed_hex(Seq::empty()) is None,
{
    let s = d.push(c);
    let t = trimmed(s);
    let r = crate::text_laws::trimming_takes_off_the_ends(s);
    assert(r.1 == s.len()) by {
        if r.1 < s.len() {
            assert(white(s[s.len() - 1]));
        }
    }
    assert(r.0 < s.len()) by {
        if r.0 >= s.len() {
            assert(white(s[s.len() - 1]));
        }
    }
    assert(t.last() == c);
    let u = crate::research::without_plus(t);
    assert(u.len() > 0 ==> u.last() == c);
    let v = crate::research::without_0x(u);
    assert(v.len() > 0 ==> v.last() == c);
    if v.len() > 0 && all_digits(v, 16) {
        assert(digit_value(v[v.len() - 1]) is Some);
    }
}

/// A typed byte is a number up to 0xFF, a typed offset one up to 0xFFFF.
pub proof fn what_bytes_and_offsets_are(t: Seq<char>)
    ensures
        typed_byte(t) is Some <==> typed_hex(t) is Some && typed_hex(t)->0 <= 0xFF,
        typed_hex(t) is Some && 0 <= typed_hex(t)->0 <= 0xFF ==> typed_byte(t)->0 == typed_hex(t)->0,
        typed_offset(t) == if typed_hex(t) is Some && typed_hex(t)->0 <= 0xFFFF {
            typed_hex(t)
        } else {
            None
        },
{
}

/// Stored numbers have their lowest byte first, and each byte counts 256 times
/// the one before.
pub proof fn lowest_byte_comes_first(s: Seq<u8>, o: int)
    requires
        0 <= o,
        o + 8 <= s.len(),
    ensures
        le16(s, o) == s[o] + 256 * s[o + 1],
        le32(s, o) == s[o] + 256 * s[o + 1] + 0x1_0000 * s[o + 2] + 0x100_0000 * s[o + 3],
        le64(s, o) == le32(s, o) + 0x1_0000_0000 * le32(s, o + 4),
{
}

/// Numbers are stored in as many bytes as they have, and are read again.
pub proof fn stored_numbers_are_read(w: u16, v: u32, i: i32, j: i16)
    ensures
        bytes16(w).len() == 2 && bytes16(w)[0] == w % 256 && bytes16(w)[1] == w / 256,
        bytes32(v).len() == 4 && bytes32(v)[0] == v % 256 && bytes32(v)[3] == v / 0x100_0000,
        le16(bytes16(w), 0) == w,
        le32(bytes32(v), 0) == v,
        signed(pattern(i)) == i,
        i >= 0 ==> pattern(i) == i,
        i < 0 ==> pattern(i) == 0x1_0000_0000 + i,
        j >= 0 ==> pattern16(j) == j,
        j < 0 ==> pattern16(j) == 0x1_0000 + j,
{
    crate::bytes::le_undoes_bytes(v, w, i);
}

} // verus!

//! Numbers written as text and read back: decimal and hexadecimal digits.

use vstd::prelude::*;
use vstd::string::*;

verus! {

/// The lower-case digit that stands for `d` in any base up to sixteen.
pub open spec fn digit(d: int) -> char {
    if d < 10 {
        (48 + d) as char
    } else {
        (87 + d) as char
    }
}

/// The upper-case digit that stands for `d` in any base up to sixteen.
pub open spec fn upper_digit(d: int) -> char {
    if d < 10 {
        (48 + d) as char
    } else {
        (55 + d) as char
    }
}

/// The decimal numeral of `n`.
pub open spec fn decimal(n: nat) -> Seq<char>
    decreases n,
{
    if n < 10 {
        seq![digit(n as int)]
    } else {
        decimal(n / 10).push(digit((n % 10) as int))
    }
}

/// The lower-case hexadecimal numeral of `n`.
pub open spec fn hex(n: nat) -> Seq<char>
    decreases n,
{
    if n < 16 {
        seq![digit(n as int)]
    } else {
        hex(n / 16).push(digit((n % 16) as int))
    }
}

/// The last `width` lower-case hexadecimal digits of `n`, leading zeros kept.
pub open spec fn hex_low(n: nat, width: nat) -> Seq<char>
    decreases width,
{
    if width == 0 {
        seq![]
    } else {
        hex_low(n / 16, (width - 1) as nat).push(digit((n % 16) as int))
    }
}

/// The last `width` upper-case hexadecimal digits of `n`, leading zeros kept.
pub open spec fn hex_up(n: nat, width: nat) -> Seq<char>
    decreases width,
{
    if width == 0 {
        seq![]
    } else {
        hex_up(n / 16, (width - 1) as nat).push(upper_digit((n % 16) as int))
    }
}

/// The upper-case hexadecimal numeral of `n`, with leading zeros up to `width`
/// digits.
pub open spec fn hex_up_min(n: nat, width: nat) -> Seq<char>
    decreases n, width,
{
    if n == 0 && width == 0 {
        seq![]
    } else {
        hex_up_min(
            n / 16,
            if width == 0 {
                0
            } else {
                (width - 1) as nat
            },
        ).push(upper_digit((n % 16) as int))
    }
}

/// The value of a hexadecimal digit of either case.
pub open spec fn digit_value(c: char) -> Option<int> {
    if '0' <= c && c <= '9' {
        Some(c as int - 48)
    } else if 'a' <= c && c <= 'f' {
        Some(c as int - 87)
    } else if 'A' <= c && c <= 'F' {
        Some(c as int - 55)
    } else {
        None
    }
}

/// Whether every character of `t` is a digit of base `radix` (at most sixteen).
pub open spec fn all_digits(t: Seq<char>, radix: int) -> bool {
    forall|i: int| 0 <= i < t.len() ==> (#[trigger] digit_value(t[i])) is Some && digit_value(t[i])->0 < radix
}

/// The number whose digits in base `radix` are `t`, most significant first.
pub open spec fn value_of(t: Seq<char>, radix: int) -> int
    decreases t.len(),
{
    if t.len() == 0 {
        0
    } else {
        value_of(t.drop_last(), radix) * radix + digit_value(t.last())->0
    }
}

/// An unsigned numeral in base `radix`: at least one digit, a `+` in front
/// allowed, the value no larger than `max`.
pub open spec fn numeral(t: Seq<char>, radix: int, max: int) -> Option<int> {
    let d = if t.len() > 0 && t[0] == '+' {
        t.skip(1)
    } else {
        t
    };
    if d.len() > 0 && all_digits(d, radix) && value_of(d, radix) <= max {
        Some(value_of(d, radix))
    } else {
        None
    }
}

fn digit_text(d: u64) -> (res: &'static str)
    requires
        d < 16,
    ensures
        res@ == seq![digit(d as int)],
{
    proof {
        reveal_strlit("0");
        reveal_strlit("1");
        reveal_strlit("2");
        reveal_strlit("3");
        reveal_strlit("4");
        reveal_strlit("5");
        reveal_strlit("6");
        reveal_strlit("7");
        reveal_strlit("8");
        reveal_strlit("9");
        reveal_strlit("a");
        reveal_strlit("b");
        reveal_strlit("c");
        reveal_strlit("d");
        reveal_strlit("e");
        reveal_strlit("f");
    }
    match d {
        0 => "0",
        1 => "1",
        2 => "2",
        3 => "3",
        4 => "4",
        5 => "5",
        6 => "6",
        7 => "7",
        8 => "8",
        9 => "9",
        10 => "a",
        11 => "b",
        12 => "c",
        13 => "d",
        14 => "e",
        _ => "f",
    }
}

fn upper_digit_text(d: u64) -> (res: &'static str)
    requires
        d < 16,
    ensures
        res@ == seq![upper_digit(d as int)],
{
    proof {
        reveal_strlit("A");
        reveal_strlit("B");
        reveal_strlit("C");
        reveal_strlit("D");
        reveal_strlit("E");
        reveal_strlit("F");
    }
    match d {
        10 => "A",
        11 => "B",
        12 => "C",
        13 => "D",
        14 => "E",
        15 => "F",
        _ => digit_text(d),
    }
}

/// Appends the decimal numeral of `n`.
pub fn push_decimal(s: &mut String, n: u64)
    ensures
        final(s)@ == old(s)@ + decimal(n as nat),
    decreases n,
{
    if n >= 10 {
        push_decimal(s, n / 10);
    }
    s.append(digit_text(n % 10));
    assert(s@ =~= old(s)@ + decimal(n as nat));
}

/// Appends the lower-case hexadecimal numeral of `n`.
pub fn push_hex(s: &mut String, n: u64)
    ensures
        final(s)@ == old(s)@ + hex(n as nat),
    decreases n,
{
    if n >= 16 {
        push_hex(s, n / 16);
    }
    s.append(digit_text(n % 16));
    assert(s@ =~= old(s)@ + hex(n as nat));
}

/// Appends the last `width` lower-case hexadecimal digits of `n`.
pub fn push_hex_low(s: &mut String, n: u64, width: u8)
    ensures
        final(s)@ == old(s)@ + hex_low(n as nat, width as nat),
    decreases width,
{
    if width > 0 {
        push_hex_low(s, n / 16, width - 1);
        s.append(digit_text(n % 16));
    }
    assert(s@ =~= old(s)@ + hex_low(n as nat, width as nat));
}

/// Appends the last `width` upper-case hexadecimal digits of `n`.
pub fn push_hex_up(s: &mut String, n: u64, width: u8)
    ensures
        final(s)@ == old(s)@ + hex_up(n as nat, width as nat),
    decreases width,
{
    if width > 0 {
        push_hex_up(s, n / 16, width - 1);
        s.append(upper_digit_text(n % 16));
    }
    assert(s@ =~= old(s)@ + hex_up(n as nat, width as nat));
}

/// Appends the upper-case hexadecimal numeral of `n`, with leading zeros up to
/// `width` digits.
pub fn push_hex_up_min(s: &mut String, n: u64, width: u8)
    ensures
        final(s)@ == old(s)@ + hex_up_min(n as nat, width as nat),
    decreases n, width,
{
    if n > 0 || width > 0 {
        let rest: u8 = if width == 0 {
            0
        } else {
            width - 1
        };
        push_hex_up_min(s, n / 16, rest);
        s.append(upper_digit_text(n % 16));
    }
    assert(s@ =~= old(s)@ + hex_up_min(n as nat, width as nat));
}

/// The value of a hexadecimal digit of either case, if `c` is one.
pub fn read_digit(c: char) -> (res: Option<u8>)
    ensures
        match res {
            Some(v) => digit_value(c) == Some(v as int),
            None => digit_value(c) is None,
        },
{
    let u: u32 = c as u32;
    if '0' <= c && c <= '9' {
        Some((u - 48) as u8)
    } else if 'a' <= c && c <= 'f' {
        Some((u - 87) as u8)
    } else if 'A' <= c && c <= 'F' {
        Some((u - 55) as u8)
    } else {
        None
    }
}

proof fn value_is_monotone(t: Seq<char>, i: int, radix: int)
    requires
        0 <= i <= t.len(),
        1 <= radix,
        all_digits(t, radix),
    ensures
        0 <= value_of(t.take(i), radix) <= value_of(t, radix),
    decreases t.len() - i, i,
{
    if i < t.len() {
        let a = t.take(i);
        let b = t.take(i + 1);
        assert(b.drop_last() =~= a);
        assert(b.last() == t[i]);
        assert(digit_value(t[i]) is Some);
        value_is_monotone(t, i + 1, radix);
        value_is_nonnegative(a, radix);
        assert(value_of(a, radix) * radix >= value_of(a, radix)) by (nonlinear_arith)
            requires
                value_of(a, radix) >= 0,
                radix >= 1,
        ;
    } else {
        assert(t.take(i) =~= t);
        value_is_nonnegative(t, radix);
    }
}

proof fn value_is_nonnegative(t: Seq<char>, radix: int)
    requires
        1 <= radix,
        all_digits(t, radix),
    ensures
        0 <= value_of(t, radix),
    decreases t.len(),
{
    if t.len() > 0 {
        assert(forall|i: int| 0 <= i < t.drop_last().len() ==> t.drop_last()[i] == t[i]);
        value_is_nonnegative(t.drop_last(), radix);
        assert(digit_value(t[t.len() - 1]) is Some);
        assert(value_of(t.drop_last(), radix) * radix >= 0) by (nonlinear_arith)
            requires
                value_of(t.drop_last(), radix) >= 0,
                radix >= 1,
        ;
    }
}

/// Reads an unsigned numeral in base `radix` out of `t`.
///
/// This accepts what the integer types' own `from_str_radix` accepts: digits
/// of either case, one leading `+`, and nothing that is above `max`.
pub fn read_numeral(t: &Vec<char>, radix: u64, max: u64) -> (res: Option<u64>)
    requires
        2 <= radix <= 16,
    ensures
        match res {
            Some(v) => numeral(t@, radix as int, max as int) == Some(v as int),
            None => numeral(t@, radix as int, max as int) is None,
        },
{
    let start: usize = if t.len() > 0 && t[0] == '+' {
        1
    } else {
        0
    };
    let ghost d = t@.skip(start as int);
    assert(start == 0 ==> d =~= t@);
    if start == t.len() {
        return None;
    }
    let mut v: u64 = 0;
    let mut i: usize = start;
    assert(d.take(0) =~= seq![]);
    while i < t.len()
        invariant
            2 <= radix <= 16,
            start <= i <= t.len(),
            d == t@.skip(start as int),
            numeral(t@, radix as int, max as int) == if d.len() > 0 && all_digits(d, radix as int)
                && value_of(d, radix as int) <= max {
                Some(value_of(d, radix as int))
            } else {
                None::<int>
            },
            forall|j: int|
                0 <= j < i - start ==> (#[trigger] digit_value(d[j])) is Some && digit_value(d[j])->0
                    < radix,
            v == value_of(d.take(i - start), radix as int),
            v <= max,
        decreases t.len() - i,
    {
        let ghost k = i - start;
        assert(d[k] == t@[i as int]);
        let x = match read_digit(t[i]) {
            Some(x) => x,
            None => {
                return None;
            },
        };
        if x as u64 >= radix {
            return None;
        }
        assert(d.take(k + 1).drop_last() =~= d.take(k));
        assert(value_of(d.take(k + 1), radix as int) == v * radix + x);
        proof {
            if all_digits(d, radix as int) {
                value_is_monotone(d, k + 1, radix as int);
            }
        }
        assert(0 <= v * radix <= u64::MAX * 16) by (nonlinear_arith)
            requires
                0 <= v <= u64::MAX,
                2 <= radix <= 16,
        ;
        let w: u128 = v as u128 * radix as u128 + x as u128;
        if w > max as u128 {
            return None;
        }
        v = w as u64;
        i += 1;
    }
    assert(d.take(t.len() - start) =~= d);
    Some(v)
}

} // verus!

//! Special abilities: twenty-eight half bytes, one ability field each.
//!
//! A graded field holds a grade in its low three bits and an ability of its
//! own in the fourth. The other fields hold four abilities, one per bit. A
//! value that no real player carries can bring the game down, so edits keep to
//! values that were seen.

use vstd::prelude::*;
use vstd::string::*;

use crate::digits::push_decimal;
use crate::offsets::{ABIL_BYTES, ABIL_OFF, OFF_ABIL2};
use crate::process::Proc;

verus! {

/// The grade that the low three bits of a graded field stand for: signed, with
/// D as zero. The fifth entry is outside the game's own table.
pub const ABIL_LEVELS: [&'static str; 8] = ["D", "C", "B", "A", "⚠無效", "G", "F", "E"];

/// Names of the graded fields.
pub const ABIL_KNOWN: [(usize, &'static str); 11] = [
    (0, "短打"),
    (1, "得分機會"),
    (2, "犀利度"),
    (3, "尾勁"),
    (4, "對危機"),
    (5, "快速投球"),
    (6, "抗壓性"),
    (7, "對左打者"),
    (8, "跑壘"),
    (9, "盜壘"),
    (10, "抗傷能力"),
];

/// The ability in the fourth bit of each graded field.
pub const ABIL_GRADED_BIT3: [(usize, &'static str); 11] = [
    (0, "巧打型打者"),
    (1, "壞球追擊"),
    (2, "高速擊球"),
    (3, "機會創造者"),
    (4, "界外球纏鬥"),
    (5, "代打"),
    (6, "逆境"),
    (7, "觸身球"),
    (8, "出人意料"),
    (9, "安打高手"),
    (10, "滿壘男"),
];

/// Graded fields in which grade zero means that the ability is missing. In the
/// others it is a D.
pub const ABIL_GRADED_OPTIONAL: [usize; 2] = [2, 3];

/// Field, bit and name of the abilities that take one bit each.
pub const ABIL_BITS: [(usize, u8, &'static str); 68] = [
    (11, 0, "致勝一擊"),
    (11, 1, "全力的致勝一擊"),
    (11, 2, "對變化球○"),
    (11, 3, "對直球○"),
    (12, 0, "存在感"),
    (12, 1, "威壓感[野手]"),
    (12, 2, "廣角打法"),
    (12, 3, "拉打型打者"),
    (13, 0, "纏鬥"),
    (13, 1, "三振"),
    (13, 2, "連續開轟"),
    (13, 3, "再來一發"),
    (14, 0, "擊球反應○"),
    (14, 1, "擊球反應▼"),
    (14, 2, "短打衝刺○"),
    (14, 3, "短打衝刺▼"),
    (15, 0, "雷射肩"),
    (15, 1, "高速雷射肩"),
    (15, 2, "拉鋸戰"),
    (15, 3, "拉鋸戰✕"),
    (16, 0, "飛球型投手"),
    (16, 1, "滾地球型投手"),
    (16, 2, "援護○"),
    (16, 3, "援護✕"),
    (17, 0, "存在感"),
    (17, 1, "威壓感[投手]"),
    (17, 2, "牽制○"),
    (17, 3, "牽制◎"),
    (18, 0, "逃遁球"),
    (18, 1, "容易挨轟"),
    (18, 2, "動搖(輕)"),
    (18, 3, "動搖(重)"),
    (19, 0, "出手"),
    (19, 1, "狂野球"),
    (19, 2, "對跑者○"),
    (19, 3, "對跑者✕"),
    (20, 0, "四壞球(輕)"),
    (20, 1, "四壞球(重)"),
    (20, 2, "噴射球旋轉(輕)"),
    (20, 3, "噴射球旋轉(重)"),
    (21, 0, "慢熱型(輕)"),
    (21, 1, "慢熱型(重)"),
    (21, 2, "球速穩定○"),
    (21, 3, "球速穩定✕"),
    (22, 0, "近勝情怯(輕)"),
    (22, 1, "近勝情怯(重)"),
    (22, 2, "內野安打○"),
    (22, 3, "內野安打✕"),
    (23, 0, "午場比賽"),
    (23, 1, "晚場比賽"),
    (23, 2, "推打"),
    (23, 3, "再見英雄"),
    (24, 0, "第一球"),
    (24, 1, "死守本壘"),
    (24, 2, "守備職人"),
    (24, 3, "奪三振"),
    (25, 0, "變換檔位"),
    (25, 1, "攻擊內角"),
    (25, 2, "緊急登板○"),
    (25, 3, "漸入佳境"),
    (26, 0, "藏球"),
    (26, 1, "力量分配"),
    (26, 2, "頭部滑壘"),
    (26, 3, "神之手"),
    (27, 0, "盜壘頭部滑壘"),
    (27, 1, "衝回本壘"),
    (27, 2, "大場面"),
    (27, 3, "哥吉拉"),
];

/// Fields that nothing uses: there are none.
pub const ABIL_UNUSED: [usize; 0] = [];

/// For each field the values that were seen on real players, one bit per value.
pub const ABIL_SEEN_VALS: [u16; 28] = [
    0x03EF, 0x8BCF, 0x01EF, 0x01EF,
    0x01CF, 0x81EF, 0x01CF, 0x01CF,
    0x038F, 0xCFCF, 0x01EF, 0x5157,
    0xD05F, 0x93BB, 0x903B, 0x101F,
    0xB0BB, 0x0317, 0xB10B, 0xB0FF,
    0x900B, 0x9099, 0x1019, 0x311B,
    0x0337, 0x1FFF, 0x111F, 0x00DD,
];

/// Grades from A down to G, as the low three bits hold them.
pub const GRADE_ORDER: [u8; 7] = [3, 2, 1, 0, 7, 6, 5];

/// The graded fields.
pub const ABIL_GRADED: [usize; 11] = [0, 1, 2, 3, 4, 5, 6, 7, 8, 9, 10];

/// Names of the eight abilities that are plain numbers.
pub const STAT_NAMES: [&'static str; 8] = ["對右打擊", "對左打擊", "力量", "速度", "臂力", "傳球", "接球", "疲勞消除"];

/// Bit `b` of `v`.
pub open spec fn bit(v: nat, b: nat) -> bool
    decreases b,
{
    if b == 0 {
        v % 2 == 1
    } else {
        bit(v / 2, (b - 1) as nat)
    }
}

/// Half byte `n` of `b`, the low half of each byte first.
pub open spec fn nib(b: Seq<u8>, n: int) -> u8 {
    if n % 2 == 0 {
        (b[n / 2] % 16) as u8
    } else {
        (b[n / 2] / 16) as u8
    }
}

/// `x` with its low or high half replaced by the low half of `v`.
pub open spec fn half_set(x: u8, n: int, v: u8) -> u8 {
    if n % 2 == 0 {
        (x / 16 * 16 + v % 16) as u8
    } else {
        (x % 16 + v % 16 * 16) as u8
    }
}

/// `b` with half byte `n` replaced by the low half of `v`.
pub open spec fn nib_set(b: Seq<u8>, n: int, v: u8) -> Seq<u8> {
    b.update(n / 2, half_set(b[n / 2], n, v))
}

/// Value `v` was seen in field `n`.
pub open spec fn seen(n: int, v: int) -> bool {
    bit(ABIL_SEEN_VALS@[n] as nat, v as nat)
}

/// The name of bit `b` of field `n` in a table.
pub open spec fn bit_name(t: Seq<(usize, u8, &'static str)>, n: usize, b: u8) -> Option<Seq<char>>
    decreases t.len(),
{
    if t.len() == 0 {
        None
    } else if t[0].0 == n && t[0].1 == b {
        Some(t[0].2@)
    } else {
        bit_name(t.skip(1), n, b)
    }
}

/// What is shown for bit `b` of field `n`.
pub open spec fn bit_text(n: usize, b: u8) -> Seq<char> {
    match bit_name(ABIL_BITS@, n, b) {
        Some(s) => s,
        None => "bit"@ + crate::digits::decimal(b as nat) + "?"@,
    }
}

/// What is shown for the first `k` bits of `v`, with a plus sign between two.
pub open spec fn bits_text(n: usize, v: u8, k: nat) -> Seq<char>
    decreases k,
{
    if k == 0 {
        seq![]
    } else {
        let rest = bits_text(n, v, (k - 1) as nat);
        let name = bit_text(n, (k - 1) as u8);
        if !bit(v as nat, (k - 1) as nat) {
            rest
        } else if exists|j: nat| j < k - 1 && bit(v as nat, j) {
            rest + " + "@ + name
        } else {
            name
        }
    }
}

/// What is shown for the value `v` of field `n`.
pub open spec fn variant_text(n: usize, v: u8) -> Seq<char> {
    if exists|j: nat| j < 4 && bit(v as nat, j) {
        bits_text(n, v, 4)
    } else {
        "－"@
    }
}

/// Whether bit `b` of `v` is set.
pub fn has_bit(v: u16, b: u8) -> (res: bool)
    ensures
        res == bit(v as nat, b as nat),
{
    let mut x: u16 = v;
    let mut k: u8 = b;
    while k > 0
        invariant
            bit(v as nat, b as nat) == bit(x as nat, k as nat),
        decreases k,
    {
        x = x / 2;
        k = k - 1;
    }
    x % 2 == 1
}

/// The name of bit `b` of field `n`.
pub fn abil_bit_name(n: usize, b: u8) -> (res: Option<&'static str>)
    ensures
        match res {
            Some(s) => bit_name(ABIL_BITS@, n, b) == Some(s@),
            None => bit_name(ABIL_BITS@, n, b) is None,
        },
{
    let ghost t = ABIL_BITS@;
    let mut i: usize = 0;
    assert(t.skip(0) =~= t);
    while i < ABIL_BITS.len()
        invariant
            t == ABIL_BITS@,
            i <= t.len(),
            bit_name(t, n, b) == bit_name(t.skip(i as int), n, b),
        decreases t.len() - i,
    {
        let e = ABIL_BITS[i];
        assert(t.skip(i as int)[0] == e);
        assert(t.skip(i as int).skip(1) =~= t.skip(i + 1));
        if e.0 == n && e.1 == b {
            return Some(e.2);
        }
        i += 1;
    }
    None
}

/// What is shown for the value `v` of field `n`: every bit that is set.
pub fn abil_variant_desc(n: usize, v: u8) -> (res: String)
    ensures
        res@ == variant_text(n, v),
{
    let mut out = String::new();
    let mut any = false;
    let mut b: u8 = 0;
    while b < 4
        invariant
            b <= 4,
            out@ == bits_text(n, v, b as nat),
            any == exists|j: nat| j < b && bit(v as nat, j),
        decreases 4 - b,
    {
        if has_bit(v as u16, b) {
            if any {
                out.append(" + ");
            } else {
                assert(bits_text(n, v, b as nat) =~= seq![]) by {
                    nothing_set(n, v, b as nat);
                }
            }
            match abil_bit_name(n, b) {
                Some(s) => {
                    out.append(s);
                },
                None => {
                    out.append("bit");
                    push_decimal(&mut out, b as u64);
                    out.append("?");
                },
            }
            any = true;
            assert(out@ =~= bits_text(n, v, (b + 1) as nat));
            assert(bit(v as nat, b as nat));
        }
        b += 1;
    }
    if any {
        out
    } else {
        "－".to_owned()
    }
}

proof fn nothing_set(n: usize, v: u8, k: nat)
    requires
        !exists|j: nat| j < k && bit(v as nat, j),
    ensures
        bits_text(n, v, k) == Seq::<char>::empty(),
    decreases k,
{
    if k > 0 {
        assert(!bit(v as nat, (k - 1) as nat));
        nothing_set(n, v, (k - 1) as nat);
    }
}

/// The bits of field `n` whose ability is not known.
pub fn abil_missing(n: usize) -> (res: Vec<u8>)
    ensures
        res@ == seq![0u8, 1, 2, 3].filter(|b: u8| bit_name(ABIL_BITS@, n, b) is None),
{
    let ghost keep = |b: u8| bit_name(ABIL_BITS@, n, b) is None;
    let ghost all = seq![0u8, 1, 2, 3];
    let mut out: Vec<u8> = Vec::new();
    let mut b: u8 = 0;
    while b < 4
        invariant
            b <= 4,
            keep == (|b: u8| bit_name(ABIL_BITS@, n, b) is None),
            all == seq![0u8, 1, 2, 3],
            out@ == all.take(b as int).filter(keep),
        decreases 4 - b,
    {
        proof {
            reveal(Seq::filter);
            assert(all.take(b + 1).drop_last() =~= all.take(b as int));
            assert(all[b as int] == b);
        }
        if abil_bit_name(n, b).is_none() {
            out.push(b);
        }
        b += 1;
    }
    assert(all.take(4) =~= all);
    out
}

/// Replaces half byte `n` of `b` by the low half of `v`.
pub fn set_nib_buf(b: &mut [u8], n: usize, v: u8)
    requires
        n / 2 < old(b)@.len(),
    ensures
        final(b)@ == nib_set(old(b)@, n as int, v),
{
    let i: usize = n / 2;
    let x = b[i];
    let y: u8 = if n % 2 == 0 {
        x / 16 * 16 + v % 16
    } else {
        x % 16 + v % 16 * 16
    };
    b[i] = y;
}

/// Half byte `n` of `b`.
pub fn abil_nib(b: &[u8], n: usize) -> (res: u8)
    requires
        n / 2 < b@.len(),
    ensures
        res == nib(b@, n as int),
{
    if n % 2 == 0 {
        b[n / 2] % 16
    } else {
        b[n / 2] / 16
    }
}

/// The values from 1 on that were seen in field `n`.
pub open spec fn legal(n: int) -> Seq<u8> {
    Seq::new(15, |i: int| (i + 1) as u8).filter(|v: u8| seen(n, v as int))
}

/// The values from 1 on that were seen in field `n`.
pub fn abil_legal_vals(n: usize) -> (res: Vec<u8>)
    requires
        n < 28,
    ensures
        res@ == legal(n as int),
{
    let ghost keep = |v: u8| seen(n as int, v as int);
    let ghost all = Seq::new(15, |i: int| (i + 1) as u8);
    let w: u16 = ABIL_SEEN_VALS[n];
    let mut out: Vec<u8> = Vec::new();
    let mut v: u8 = 1;
    while v < 16
        invariant
            1 <= v <= 16,
            w == ABIL_SEEN_VALS@[n as int],
            keep == (|v: u8| seen(n as int, v as int)),
            all == Seq::new(15, |i: int| (i + 1) as u8),
            out@ == all.take(v - 1).filter(keep),
        decreases 16 - v,
    {
        proof {
            reveal(Seq::filter);
            assert(all.take(v as int).drop_last() =~= all.take(v - 1));
            assert(all[v - 1] == v);
        }
        if has_bit(w, v) {
            out.push(v);
        }
        v += 1;
    }
    assert(all.take(15) =~= all);
    out
}

/// The half bytes of the abilities, the low half of each byte first.
pub open spec fn nibbles(b: Seq<u8>) -> Seq<u8> {
    let n = if b.len() < ABIL_BYTES {
        b.len() as int
    } else {
        ABIL_BYTES as int
    };
    Seq::new((2 * n) as nat, |i: int| nib(b, i))
}

/// The half bytes of the abilities, the low half of each byte first.
pub fn abil_nibbles(b: &[u8]) -> (res: Vec<u8>)
    ensures
        res@ == nibbles(b@),
{
    let mut v: Vec<u8> = Vec::new();
    let mut i: usize = 0;
    while i < b.len() && i < ABIL_BYTES
        invariant
            i <= b@.len(),
            i <= ABIL_BYTES,
            v@ == Seq::new((2 * i) as nat, |k: int| nib(b@, k)),
        decreases b@.len() - i,
    {
        v.push(b[i] % 16);
        v.push(b[i] / 16);
        assert((2 * i) / 2 == i && (2 * i + 1) / 2 == i);
        i += 1;
        assert(v@ =~= Seq::new((2 * i) as nat, |k: int| nib(b@, k)));
    }
    v
}

/// Field and value of every half byte whose value was never seen.
pub open spec fn unseen(v: Seq<u8>, k: nat) -> Seq<(usize, u8)>
    decreases k,
{
    if k == 0 {
        seq![]
    } else {
        let rest = unseen(v, (k - 1) as nat);
        let x = nibbles(v)[k - 1];
        if seen(k - 1, x as int) {
            rest
        } else {
            rest.push(((k - 1) as usize, x))
        }
    }
}

/// Field and value of every half byte whose value was never seen.
pub fn abil_illegal_vals(v: &[u8]) -> (res: Vec<(usize, u8)>)
    ensures
        res@ == unseen(v@, nibbles(v@).len()),
{
    let x = abil_nibbles(v);
    let mut out: Vec<(usize, u8)> = Vec::new();
    let mut i: usize = 0;
    while i < x.len()
        invariant
            x@ == nibbles(v@),
            x@.len() <= 28,
            i <= x@.len(),
            out@ == unseen(v@, i as nat),
        decreases x@.len() - i,
    {
        if !has_bit(ABIL_SEEN_VALS[i], x[i]) {
            out.push((i, x[i]));
        }
        i += 1;
    }
    out
}

/// Whether field `n` is graded.
pub fn abil_is_graded(n: usize) -> (res: bool)
    ensures
        res == (n <= 10),
        res == ABIL_GRADED@.contains(n),
{
    proof {
        if n <= 10 {
            assert(ABIL_GRADED@[n as int] == n);
        }
    }
    n <= 10
}

/// The name that a table gives for `n`: that of the first entry.
pub open spec fn field_name(t: Seq<(usize, &'static str)>, n: usize) -> Option<Seq<char>>
    decreases t.len(),
{
    if t.len() == 0 {
        None
    } else if t[0].0 == n {
        Some(t[0].1@)
    } else {
        field_name(t.skip(1), n)
    }
}

/// The name of field `n`.
pub fn abil_name(n: usize) -> (res: &'static str)
    ensures
        res@ == match field_name(ABIL_KNOWN@, n) {
            Some(s) => s,
            None => "（未確認）"@,
        },
{
    let ghost t = ABIL_KNOWN@;
    let mut i: usize = 0;
    assert(t.skip(0) =~= t);
    while i < ABIL_KNOWN.len()
        invariant
            t == ABIL_KNOWN@,
            i <= t.len(),
            field_name(t, n) == field_name(t.skip(i as int), n),
        decreases t.len() - i,
    {
        let e = ABIL_KNOWN[i];
        assert(t.skip(i as int)[0] == e);
        assert(t.skip(i as int).skip(1) =~= t.skip(i + 1));
        if e.0 == n {
            return e.1;
        }
        i += 1;
    }
    "（未確認）"
}

/// The ability in the fourth bit of graded field `n`.
pub fn abil_bit3_name(n: usize) -> (res: &'static str)
    ensures
        res@ == match field_name(ABIL_GRADED_BIT3@, n) {
            Some(s) => s,
            None => ""@,
        },
{
    let ghost t = ABIL_GRADED_BIT3@;
    let mut i: usize = 0;
    assert(t.skip(0) =~= t);
    while i < ABIL_GRADED_BIT3.len()
        invariant
            t == ABIL_GRADED_BIT3@,
            i <= t.len(),
            field_name(t, n) == field_name(t.skip(i as int), n),
        decreases t.len() - i,
    {
        let e = ABIL_GRADED_BIT3[i];
        assert(t.skip(i as int)[0] == e);
        assert(t.skip(i as int).skip(1) =~= t.skip(i + 1));
        if e.0 == n {
            return e.1;
        }
        i += 1;
    }
    ""
}

/// The grade in the low three bits of `v`.
pub fn abil_level(v: u8) -> (res: &'static str)
    ensures
        res@ == ABIL_LEVELS@[(v % 8) as int]@,
{
    ABIL_LEVELS[(v % 8) as usize]
}

/// The highest value for field `n` from grade `k` of the order on: the first
/// one that is already there, is zero, or was seen.
pub open spec fn best_from(n: int, cur: u8, k: nat) -> u8
    decreases 7 - k,
{
    if k >= 7 {
        cur
    } else {
        let want = (cur / 8 * 8 + GRADE_ORDER@[k as int]) as u8;
        if want == cur || want == 0 || seen(n, want as int) {
            want
        } else {
            best_from(n, cur, k + 1)
        }
    }
}

/// The value to which field `n` is raised. The fourth bit stays as it is, and
/// an ability that may be missing and is, stays missing.
pub open spec fn raised(n: int, cur: u8) -> u8 {
    if (n == 2 || n == 3) && cur == 0 {
        cur
    } else {
        best_from(n, cur, 0)
    }
}

/// The abilities with the first `k` graded fields raised.
pub open spec fn raised_bytes(b: Seq<u8>, k: nat) -> Seq<u8>
    decreases k,
{
    if k == 0 {
        b
    } else {
        let r = raised_bytes(b, (k - 1) as nat);
        nib_set(r, k - 1, raised(k - 1, nib(r, k - 1)))
    }
}

/// How many of the first `k` graded fields are raised.
pub open spec fn raised_count(b: Seq<u8>, k: nat) -> nat
    decreases k,
{
    if k == 0 {
        0
    } else {
        let r = raised_bytes(b, (k - 1) as nat);
        let cur = nib(r, k - 1);
        raised_count(b, (k - 1) as nat) + if raised(k - 1, cur) == cur {
            0nat
        } else {
            1nat
        }
    }
}

fn best_value(n: usize, cur: u8) -> (res: u8)
    requires
        n <= 10,
        cur < 16,
    ensures
        res == raised(n as int, cur),
        res < 16,
{
    if (n == 2 || n == 3) && cur == 0 {
        return cur;
    }
    let w: u16 = ABIL_SEEN_VALS[n];
    let mut k: usize = 0;
    while k < 7
        invariant
            k <= 7,
            n <= 10,
            cur < 16,
            w == ABIL_SEEN_VALS@[n as int],
            !((n == 2 || n == 3) && cur == 0),
            raised(n as int, cur) == best_from(n as int, cur, k as nat),
        decreases 7 - k,
    {
        let g = GRADE_ORDER[k];
        assert(g <= 7) by {
            grades_fit(k as int);
        }
        let want: u8 = cur / 8 * 8 + g;
        if want == cur || want == 0 || has_bit(w, want) {
            return want;
        }
        k += 1;
    }
    cur
}

proof fn grades_fit(k: int)
    requires
        0 <= k < 7,
    ensures
        GRADE_ORDER@[k] <= 7,
        GRADE_ORDER@[k] != 4,
{
    assert(GRADE_ORDER@[0] == 3 && GRADE_ORDER@[1] == 2 && GRADE_ORDER@[2] == 1 && GRADE_ORDER@[3]
        == 0 && GRADE_ORDER@[4] == 7 && GRADE_ORDER@[5] == 6 && GRADE_ORDER@[6] == 5);
}

proof fn half_bytes_fit(b: Seq<u8>, n: int)
    ensures
        nib(b, n) < 16,
{
}

/// Raises the graded fields of a player as far as seen values go, in one
/// write, and says how many fields that changed. The game rewrites a whole
/// half byte when a grade rises, and the ability in its fourth bit goes with
/// it; a field at its highest grade is not rewritten any more.
pub fn max_abil_grades(p: &mut Proc, obj: u64) -> (res: Option<usize>)
    ensures
        ({
            let a = crate::process::at(obj, ABIL_OFF as int);
            match old(p)@.fetch(a, ABIL_BYTES as int) {
                None => res is None && final(p)@ == old(p)@,
                Some(b) => {
                    &&& final(p)@ == old(p)@.poke(a, raised_bytes(b, 11))
                    &&& match res {
                        Some(n) => old(p)@.accepts(a, ABIL_BYTES as int) && n == raised_count(b, 11),
                        None => !old(p)@.accepts(a, ABIL_BYTES as int),
                    }
                },
            }
        }),
{
    let a = obj.wrapping_add(ABIL_OFF as u64);
    let mut b = match p.read(a, ABIL_BYTES) {
        Some(b) => b,
        None => {
            return None;
        },
    };
    let ghost start = b@;
    let mut changed: usize = 0;
    let mut n: usize = 0;
    while n < 11
        invariant
            n <= 11,
            start.len() == ABIL_BYTES,
            b@ == raised_bytes(start, n as nat),
            b@.len() == ABIL_BYTES,
            changed == raised_count(start, n as nat),
            changed <= n,
        decreases 11 - n,
    {
        let cur = abil_nib(&b, n);
        proof {
            half_bytes_fit(b@, n as int);
        }
        let want = best_value(n, cur);
        if want != cur {
            changed += 1;
        }
        set_nib_buf(&mut b, n, want);
        n += 1;
    }
    if p.write(a, &b) {
        Some(changed)
    } else {
        None
    }
}

/// Writes half byte `n` of a player's abilities and leaves the other half of
/// its byte alone.
pub fn write_abil_nibble(p: &mut Proc, obj: u64, n: usize, v: u8) -> (res: bool)
    ensures
        ({
            let a = crate::process::at(crate::process::at(obj, OFF_ABIL2 as int), n as int / 2);
            &&& res == old(p)@.accepts(a, 1)
            &&& final(p)@ == old(p)@.poke(a, seq![half_set(old(p)@.u8_at(a), n as int, v)])
        }),
{
    let a = obj.wrapping_add(OFF_ABIL2 as u64).wrapping_add((n / 2) as u64);
    let x = p.u8_at(a);
    let y: u8 = if n % 2 == 0 {
        x / 16 * 16 + v % 16
    } else {
        x % 16 + v % 16 * 16
    };
    p.put_byte(a, y)
}

} // verus!

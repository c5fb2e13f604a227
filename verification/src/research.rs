//! Finding out what the bytes of a player object mean: snapshots before and
//! after a change in the game, and single bytes read and written by offset.

use vstd::prelude::*;
use vstd::string::*;

use crate::abil::has_bit;
use crate::digits::{
    push_decimal, push_hex, push_hex_up, push_hex_up_min, read_digit, read_numeral,
};
use crate::player::Player;
use crate::process::Proc;
use crate::text::{read_name, sane_name, trim_chars};

verus! {

/// The bytes of a player object at some time.
pub struct ResearchSnapshot {
    pub addr: u64,
    pub name: String,
    pub data: Vec<u8>,
}

/// A byte that differs between two snapshots.
#[derive(Clone, Copy, Debug)]
pub struct ResearchDiff {
    pub off: usize,
    pub before: u8,
    pub after: u8,
    pub xor: u8,
}

/// What is being looked into.
pub struct Research {
    /// The snapshot before the change.
    pub before: Option<ResearchSnapshot>,
    /// What the last comparison found.
    pub diffs: Vec<ResearchDiff>,
    /// How many bytes a snapshot takes.
    pub len: usize,
    /// The offset of the single byte, as typed.
    pub offset_text: String,
    /// The value of the single byte, as typed.
    pub value_text: String,
    /// The single byte that was loaded: player object, offset, value.
    pub loaded: Option<(u64, u64, u8)>,
}

/// The object still belongs to the player of that name.
pub open spec fn still_there(m: crate::process::Memory, obj: u64, name: Seq<char>) -> bool {
    let live = crate::text::name_at(m, obj);
    live == name && crate::text::is_sane(live)
}

/// Whether the object still belongs to the player of that name. Objects move
/// when the game loads a save, and the old address is somebody else's.
pub fn is_still_there(p: &Proc, obj: u64, name: &String) -> (res: bool)
    ensures
        res == still_there(p@, obj, name@),
{
    let live = read_name(p, obj);
    live == *name && sane_name(live.as_str())
}

/// The bytes below `k` that differ.
pub open spec fn diffs_of(a: Seq<u8>, b: Seq<u8>, k: int) -> Seq<ResearchDiff>
    decreases k,
{
    if k <= 0 {
        seq![]
    } else {
        let rest = diffs_of(a, b, k - 1);
        let (x, y) = (a[k - 1], b[k - 1]);
        if x == y {
            rest
        } else {
            rest.push(ResearchDiff { off: (k - 1) as usize, before: x, after: y, xor: x ^ y })
        }
    }
}

/// The smaller of two lengths.
pub open spec fn shorter(a: Seq<u8>, b: Seq<u8>) -> int {
    if a.len() < b.len() {
        a.len() as int
    } else {
        b.len() as int
    }
}

/// Finds the bytes that differ between two snapshots.
pub fn compare(a: &Vec<u8>, b: &Vec<u8>) -> (res: Vec<ResearchDiff>)
    ensures
        res@ == diffs_of(a@, b@, shorter(a@, b@)),
{
    let n: usize = if a.len() < b.len() {
        a.len()
    } else {
        b.len()
    };
    let mut out: Vec<ResearchDiff> = Vec::new();
    let mut i: usize = 0;
    while i < n
        invariant
            i <= n,
            n == shorter(a@, b@),
            out@ == diffs_of(a@, b@, i as int),
        decreases n - i,
    {
        let (x, y) = (a[i], b[i]);
        if x != y {
            out.push(ResearchDiff { off: i, before: x, after: y, xor: x ^ y });
        }
        i += 1;
    }
    out
}

/// Some entry stands for offset `i`.
pub open spec fn names_offset(d: Seq<ResearchDiff>, i: int) -> bool {
    exists|j: int| 0 <= j < d.len() && (#[trigger] d[j]).off == i
}

/// A comparison names the changed bytes, all of them and no others, by rising
/// offset and each with what it was and what it is.
pub proof fn comparison_names_the_changes(a: Seq<u8>, b: Seq<u8>, k: int)
    requires
        0 <= k <= shorter(a, b),
        k <= usize::MAX,
    ensures
        forall|j: int|
            0 <= j < diffs_of(a, b, k).len() ==> {
                let d = #[trigger] diffs_of(a, b, k)[j];
                &&& d.off < k
                &&& d.before == a[d.off as int]
                &&& d.after == b[d.off as int]
                &&& d.before != d.after
                &&& d.xor == d.before ^ d.after
            },
        forall|i: int, j: int|
            0 <= i < j < diffs_of(a, b, k).len() ==> (#[trigger] diffs_of(a, b, k)[i]).off < (
            #[trigger] diffs_of(a, b, k)[j]).off,
        forall|i: int|
            0 <= i < k ==> (#[trigger] a[i] != b[i]) == names_offset(diffs_of(a, b, k), i),
    decreases k,
{
    if k > 0 {
        comparison_names_the_changes(a, b, k - 1);
        let rest = diffs_of(a, b, k - 1);
        let all = diffs_of(a, b, k);
        assert forall|i: int| 0 <= i < k implies (#[trigger] a[i] != b[i]) == names_offset(
            all,
            i,
        ) by {
            if a[k - 1] != b[k - 1] {
                assert(all[rest.len() as int].off == k - 1);
                if i < k - 1 {
                    if names_offset(rest, i) {
                        let j = choose|j: int| 0 <= j < rest.len() && (#[trigger] rest[j]).off == i;
                        assert(all[j].off == i);
                    }
                    if names_offset(all, i) {
                        let j = choose|j: int| 0 <= j < all.len() && (#[trigger] all[j]).off == i;
                        assert(rest[j].off == i);
                    }
                }
            } else if i == k - 1 {
                assert(!names_offset(rest, i));
            }
        }
    }
}

/// Nothing is found to have changed in a snapshot compared with itself.
pub proof fn nothing_changes_in_itself(a: Seq<u8>, k: int)
    ensures
        diffs_of(a, a, k).len() == 0,
    decreases k,
{
    if k > 0 {
        nothing_changes_in_itself(a, k - 1);
    }
}

/// How many of the low `k` bits of `v` are set.
pub open spec fn ones(v: u8, k: nat) -> nat
    decreases k,
{
    if k == 0 {
        0
    } else {
        ones(v, (k - 1) as nat) + if crate::abil::bit(v as nat, (k - 1) as nat) {
            1nat
        } else {
            0nat
        }
    }
}

/// The lowest bit of `v` that is set, from bit `k` on.
pub open spec fn lowest_from(v: u8, k: nat) -> nat
    decreases 8 - k,
{
    if k >= 8 || crate::abil::bit(v as nat, k) {
        k
    } else {
        lowest_from(v, k + 1)
    }
}

/// How many bits of `v` are set.
pub fn count_ones(v: u8) -> (res: u8)
    ensures
        res == ones(v, 8),
        res <= 8,
{
    let mut n: u8 = 0;
    let mut k: u8 = 0;
    while k < 8
        invariant
            k <= 8,
            n == ones(v, k as nat),
            n <= k,
        decreases 8 - k,
    {
        if has_bit(v as u16, k) {
            n += 1;
        }
        k += 1;
    }
    n
}

/// The lowest bit of `v` that is set.
pub fn lowest_bit(v: u8) -> (res: u8)
    ensures
        res == lowest_from(v, 0),
{
    let mut k: u8 = 0;
    while k < 8 && !has_bit(v as u16, k)
        invariant
            k <= 8,
            lowest_from(v, 0) == lowest_from(v, k as nat),
        decreases 8 - k,
    {
        k += 1;
    }
    k
}

/// What a report says of the bits that changed.
pub open spec fn changed_bits(xor: u8) -> Seq<char> {
    if ones(xor, 8) == 1 {
        "bit"@ + crate::digits::decimal(lowest_from(xor, 0))
    } else {
        crate::digits::decimal(ones(xor, 8)) + " bits"@
    }
}

/// The bits of `v` below `k` that are set, with commas between them.
pub open spec fn bit_list(v: u8, k: nat) -> Seq<char>
    decreases k,
{
    if k == 0 {
        seq![]
    } else {
        let rest = bit_list(v, (k - 1) as nat);
        if !crate::abil::bit(v as nat, (k - 1) as nat) {
            rest
        } else if ones(v, (k - 1) as nat) > 0 {
            rest + ","@ + crate::digits::decimal((k - 1) as nat)
        } else {
            crate::digits::decimal((k - 1) as nat)
        }
    }
}

/// What the table of differences says of the bits that changed.
pub open spec fn bits_cell(xor: u8) -> Seq<char> {
    if ones(xor, 8) == 1 {
        "bit"@ + crate::digits::decimal(lowest_from(xor, 0))
    } else {
        "bits "@ + bit_list(xor, 8)
    }
}

proof fn no_bits_listed(v: u8, k: nat)
    requires
        ones(v, k) == 0,
    ensures
        bit_list(v, k) == Seq::<char>::empty(),
    decreases k,
{
    if k > 0 {
        no_bits_listed(v, (k - 1) as nat);
    }
}

/// What the table of differences says of the bits that changed.
pub fn bits_text(xor: u8) -> (res: String)
    ensures
        res@ == bits_cell(xor),
{
    if count_ones(xor) == 1 {
        let mut s = "bit".to_owned();
        push_decimal(&mut s, lowest_bit(xor) as u64);
        return s;
    }
    let mut s = "bits ".to_owned();
    let ghost head = s@;
    let mut n: u8 = 0;
    let mut k: u8 = 0;
    while k < 8
        invariant
            k <= 8,
            n == ones(xor, k as nat),
            n <= k,
            s@ == head + bit_list(xor, k as nat),
        decreases 8 - k,
    {
        let ghost before = bit_list(xor, k as nat);
        if has_bit(xor as u16, k) {
            if n > 0 {
                s.append(",");
            } else {
                proof {
                    no_bits_listed(xor, k as nat);
                }
            }
            push_decimal(&mut s, k as u64);
            n += 1;
            assert(s@ =~= head + bit_list(xor, (k + 1) as nat));
        }
        k += 1;
    }
    s
}

/// What is known of the place of a difference.
pub fn diff_note(off: usize) -> (res: &'static str)
    ensures
        res@ == if 0x08 <= off < 0x16 {
            "既有特殊能力區"@
        } else if off == 0xA30 || off == 0xA31 {
            "主要守位欄位"@
        } else {
            ""@
        },
{
    if off >= 0x08 && off < 0x16 {
        "既有特殊能力區"
    } else if off == 0xA30 || off == 0xA31 {
        "主要守位欄位"
    } else {
        ""
    }
}

/// One line of a report.
pub open spec fn report_line(d: ResearchDiff) -> Seq<char> {
    "+0x"@ + crate::digits::hex_up_min(d.off as nat, 4) + "  "@ + crate::digits::hex_up(
        d.before as nat,
        2,
    ) + " -> "@ + crate::digits::hex_up(d.after as nat, 2) + "  XOR="@ + crate::digits::hex_up(
        d.xor as nat,
        2,
    ) + "  "@ + changed_bits(d.xor) + "\n"@
}

/// The lines of a report for the first `k` differences.
pub open spec fn report_lines(diffs: Seq<ResearchDiff>, k: int) -> Seq<char>
    decreases k,
{
    if k <= 0 {
        seq![]
    } else {
        report_lines(diffs, k - 1) + report_line(diffs[k - 1])
    }
}

/// The report of a comparison.
pub open spec fn report_text(s: ResearchSnapshot, diffs: Seq<ResearchDiff>) -> Seq<char> {
    "player="@ + s.name@ + "\naddr=0x"@ + crate::digits::hex(s.addr as nat) + "\nbytes=0x"@
        + crate::digits::hex(s.data@.len()) + "\ndiff_count="@ + crate::digits::decimal(diffs.len())
        + "\n\n"@ + report_lines(diffs, diffs.len() as int)
}

/// `t` without a prefix of one or the other form, if it has one.
pub open spec fn without_0x(t: Seq<char>) -> Seq<char> {
    if t.len() >= 2 && t[0] == '0' && (t[1] == 'x' || t[1] == 'X') {
        t.skip(2)
    } else {
        t
    }
}

/// `t` without one leading plus sign.
pub open spec fn without_plus(t: Seq<char>) -> Seq<char> {
    if t.len() >= 1 && t[0] == '+' {
        t.skip(1)
    } else {
        t
    }
}

/// The number that was typed: hexadecimal digits, with `0x` and a plus sign
/// allowed in front.
pub open spec fn typed_hex(text: Seq<char>) -> Option<int> {
    let t = without_0x(without_plus(crate::text::trimmed(text)));
    if t.len() > 0 && crate::digits::all_digits(t, 16) {
        crate::digits::numeral(t, 16, 0xFFFF_FFFF_FFFF_FFFF)
    } else {
        None
    }
}

fn skip_chars(c: &Vec<char>, n: usize) -> (res: Vec<char>)
    requires
        n <= c@.len(),
    ensures
        res@ == c@.skip(n as int),
{
    let mut out: Vec<char> = Vec::new();
    let mut i: usize = n;
    while i < c.len()
        invariant
            n <= i <= c@.len(),
            out@ == c@.subrange(n as int, i as int),
        decreases c@.len() - i,
    {
        out.push(c[i]);
        i += 1;
        assert(out@ =~= c@.subrange(n as int, i as int));
    }
    assert(out@ =~= c@.skip(n as int));
    out
}

/// Reads a number that was typed.
pub fn parse_research_hex(text: &str) -> (res: Option<u64>)
    ensures
        match res {
            Some(v) => typed_hex(text@) == Some(v as int),
            None => typed_hex(text@) is None,
        },
{
    let mut t = trim_chars(text);
    if t.len() >= 1 && t[0] == '+' {
        t = skip_chars(&t, 1);
    }
    if t.len() >= 2 && t[0] == '0' && (t[1] == 'x' || t[1] == 'X') {
        t = skip_chars(&t, 2);
    }
    if t.len() == 0 {
        return None;
    }
    let mut i: usize = 0;
    while i < t.len()
        invariant
            i <= t@.len(),
            t@ == without_0x(without_plus(crate::text::trimmed(text@))),
            forall|j: int|
                0 <= j < i ==> (#[trigger] crate::digits::digit_value(t@[j])) is Some
                    && crate::digits::digit_value(t@[j])->0 < 16,
        decreases t@.len() - i,
    {
        if read_digit(t[i]).is_none() {
            assert(crate::digits::digit_value(t@[i as int]) is None);
            return None;
        }
        i += 1;
    }
    read_numeral(&t, 16, 0xFFFF_FFFF_FFFF_FFFF)
}

/// The differences below `k` that are shown: all, or those of a single bit.
pub open spec fn shown(diffs: Seq<ResearchDiff>, single: bool, k: int) -> Seq<ResearchDiff>
    decreases k,
{
    if k <= 0 {
        seq![]
    } else {
        let rest = shown(diffs, single, k - 1);
        if !single || ones(diffs[k - 1].xor, 8) == 1 {
            rest.push(diffs[k - 1])
        } else {
            rest
        }
    }
}

/// The differences that are shown: all, or those of a single bit.
pub fn shown_diffs(diffs: &Vec<ResearchDiff>, single: bool) -> (res: Vec<ResearchDiff>)
    ensures
        res@ == shown(diffs@, single, diffs@.len() as int),
{
    let mut out: Vec<ResearchDiff> = Vec::new();
    let mut i: usize = 0;
    while i < diffs.len()
        invariant
            i <= diffs@.len(),
            out@ == shown(diffs@, single, i as int),
        decreases diffs@.len() - i,
    {
        let d = diffs[i];
        if !single || count_ones(d.xor) == 1 {
            out.push(d);
        }
        i += 1;
    }
    out
}

/// What is said where no player is chosen.
pub open spec fn no_player() -> Seq<char> {
    "請先選一位選手"@
}

/// What is said where the game is not attached.
pub open spec fn no_game() -> Seq<char> {
    "尚未附加遊戲行程"@
}

/// What is said of a snapshot that was taken.
pub open spec fn captured_text(name: Seq<char>, got: nat, obj: u64) -> Seq<char> {
    "能力研究：已記錄「"@ + name + "」修改前快照 0x"@ + crate::digits::hex(got) + " bytes（物件 0x"@
        + crate::digits::hex(obj as nat) + "）"@
}

/// What is said where another player is chosen than the one of the snapshot.
pub open spec fn other_player_text(name: Seq<char>, obj: u64, s: ResearchSnapshot) -> Seq<char> {
    "能力研究：目前選中的是「"@ + name + "」(0x"@ + crate::digits::hex(obj as nat)
        + ")，不是快照中的「"@ + s.name@ + "」(0x"@ + crate::digits::hex(s.addr as nat)
        + ")；請重新記錄修改前"@
}

/// What is said of a comparison.
pub open spec fn compared_text(found: nat, n: nat) -> Seq<char> {
    "能力研究：比較完成，共 "@ + crate::digits::decimal(found) + " 個 byte 有變化（掃描 0x"@
        + crate::digits::hex(n) + " bytes）"@
}

/// The offset that was typed, if it can be one.
pub open spec fn typed_offset(text: Seq<char>) -> Option<int> {
    match typed_hex(text) {
        Some(v) => if v <= 0xFFFF {
            Some(v)
        } else {
            None
        },
        None => None,
    }
}

/// An offset as it is shown.
pub open spec fn offset_text(off: u64) -> Seq<char> {
    "+0x"@ + crate::digits::hex_up_min(off as nat, 4)
}

/// What is said of a byte that was loaded.
pub open spec fn loaded_text(name: Seq<char>, off: u64, v: u8) -> Seq<char> {
    "任意 Offset：已載入「"@ + name + "」"@ + offset_text(off) + " = 0x"@ + crate::digits::hex_up(
        v as nat,
        2,
    )
}

/// What is said of a byte that was written.
pub open spec fn written_text(off: u64, before: u8, after: u8, name: Seq<char>) -> Seq<char> {
    "任意 Offset："@ + offset_text(off) + " 已寫入 0x"@ + crate::digits::hex_up(before as nat, 2)
        + " → 0x"@ + crate::digits::hex_up(after as nat, 2) + "（"@ + name + "）"@
}

fn push_offset(s: &mut String, off: u64)
    ensures
        final(s)@ == old(s)@ + offset_text(off),
{
    s.append("+0x");
    push_hex_up_min(s, off, 4);
    assert(s@ =~= old(s)@ + offset_text(off));
}

impl Research {
    /// Nothing is being looked into.
    pub fn new() -> (res: Research)
        ensures
            res.before is None,
            res.diffs@.len() == 0,
            res.len == 0x2000,
            res.offset_text@ == "0x002D"@,
            res.value_text@.len() == 0,
            res.loaded is None,
    {
        Research {
            before: None,
            diffs: Vec::new(),
            len: 0x2000,
            offset_text: "0x002D".to_owned(),
            value_text: String::new(),
            loaded: None,
        }
    }

    /// Takes the snapshot before the change, and says what came of it.
    pub fn capture_before(&mut self, cur: Option<&Player>, p: Option<&Proc>) -> (res: String)
        ensures
            ({
                let a = *old(self);
                let b = *final(self);
                let kept = b.before == a.before && b.diffs@ == a.diffs@;
                &&& b.len == a.len
                &&& b.offset_text == a.offset_text
                &&& b.value_text == a.value_text
                &&& b.loaded == a.loaded
                &&& match (cur, p) {
                    (None, _) => kept && res@ == no_player(),
                    (Some(_), None) => kept && res@ == no_game(),
                    (Some(pl), Some(p)) => if !still_there(p@, pl.addr, pl.name@) {
                        kept && res@ == "記錄失敗：選手位址已失效，請先重新整理"@
                    } else {
                        match p@.fetch(pl.addr, a.len as int) {
                            Some(data) => {
                                &&& b.before is Some
                                &&& b.before->0.addr == pl.addr
                                &&& b.before->0.name@ == pl.name@
                                &&& b.before->0.data@ == data
                                &&& b.diffs@.len() == 0
                                &&& res@ == captured_text(pl.name@, data.len(), pl.addr)
                            },
                            None => kept && res@ == "能力研究：讀取修改前快照失敗"@,
                        }
                    },
                }
            }),
    {
        let pl = match cur {
            Some(pl) => pl,
            None => {
                return "請先選一位選手".to_owned();
            },
        };
        let p = match p {
            Some(p) => p,
            None => {
                return "尚未附加遊戲行程".to_owned();
            },
        };
        if !is_still_there(p, pl.addr, &pl.name) {
            return "記錄失敗：選手位址已失效，請先重新整理".to_owned();
        }
        match p.read(pl.addr, self.len) {
            Some(data) => {
                let got: usize = data.len();
                let mut s = "能力研究：已記錄「".to_owned();
                s.append(pl.name.as_str());
                s.append("」修改前快照 0x");
                push_hex(&mut s, got as u64);
                s.append(" bytes（物件 0x");
                push_hex(&mut s, pl.addr);
                s.append("）");
                self.before = Some(
                    ResearchSnapshot { addr: pl.addr, name: pl.name.clone(), data },
                );
                self.diffs = Vec::new();
                s
            },
            None => "能力研究：讀取修改前快照失敗".to_owned(),
        }
    }

    /// Compares the object with the snapshot, and says what came of it.
    pub fn compare_after(&mut self, cur: Option<&Player>, p: Option<&Proc>) -> (res: String)
        ensures
            ({
                let a = *old(self);
                let b = *final(self);
                &&& b.before == a.before
                &&& b.len == a.len
                &&& b.offset_text == a.offset_text
                &&& b.value_text == a.value_text
                &&& b.loaded == a.loaded
                &&& match (a.before, cur, p) {
                    (None, _, _) => b.diffs@ == a.diffs@ && res@ == "請先按「① 記錄修改前」"@,
                    (Some(_), None, _) => b.diffs@ == a.diffs@ && res@ == no_player(),
                    (Some(s), Some(pl), p) => if pl.addr != s.addr || pl.name@ != s.name@ {
                        b.diffs@ == a.diffs@ && res@ == other_player_text(pl.name@, pl.addr, s)
                    } else {
                        match p {
                            None => b.diffs@ == a.diffs@ && res@ == no_game(),
                            Some(p) => if !still_there(p@, pl.addr, pl.name@) {
                                &&& b.diffs@ == a.diffs@
                                &&& res@
                                    == "比較失敗：選手位址已失效；請重新整理後重新做一輪實驗"@
                            } else {
                                match p@.fetch(pl.addr, s.data@.len() as int) {
                                    Some(now) => {
                                        &&& b.diffs@ == diffs_of(s.data@, now, now.len() as int)
                                        &&& res@ == compared_text(b.diffs@.len(), now.len())
                                    },
                                    None => b.diffs@ == a.diffs@ && res@
                                        == "能力研究：讀取修改後快照失敗"@,
                                }
                            },
                        }
                    },
                }
            }),
    {
        let snap = match &self.before {
            Some(s) => s,
            None => {
                return "請先按「① 記錄修改前」".to_owned();
            },
        };
        let pl = match cur {
            Some(pl) => pl,
            None => {
                return "請先選一位選手".to_owned();
            },
        };
        if pl.addr != snap.addr || pl.name != snap.name {
            let mut s = "能力研究：目前選中的是「".to_owned();
            s.append(pl.name.as_str());
            s.append("」(0x");
            push_hex(&mut s, pl.addr);
            s.append(")，不是快照中的「");
            s.append(snap.name.as_str());
            s.append("」(0x");
            push_hex(&mut s, snap.addr);
            s.append(")；請重新記錄修改前");
            return s;
        }
        let p = match p {
            Some(p) => p,
            None => {
                return "尚未附加遊戲行程".to_owned();
            },
        };
        if !is_still_there(p, pl.addr, &pl.name) {
            return "比較失敗：選手位址已失效；請重新整理後重新做一輪實驗".to_owned();
        }
        match p.read(pl.addr, snap.data.len()) {
            Some(now) => {
                let diffs = compare(&snap.data, &now);
                let mut s = "能力研究：比較完成，共 ".to_owned();
                push_decimal(&mut s, diffs.len() as u64);
                s.append(" 個 byte 有變化（掃描 0x");
                push_hex(&mut s, now.len() as u64);
                s.append(" bytes）");
                self.diffs = diffs;
                s
            },
            None => "能力研究：讀取修改後快照失敗".to_owned(),
        }
    }

    /// Forgets the snapshot and what was found.
    pub fn clear(&mut self) -> (res: String)
        ensures
            final(self).before is None,
            final(self).diffs@.len() == 0,
            final(self).len == old(self).len,
            final(self).offset_text == old(self).offset_text,
            final(self).value_text == old(self).value_text,
            final(self).loaded == old(self).loaded,
            res@ == "能力研究資料已清除"@,
    {
        self.before = None;
        self.diffs = Vec::new();
        "能力研究資料已清除".to_owned()
    }

    /// The report of the last comparison, `None` without a snapshot.
    pub fn report(&self) -> (res: Option<String>)
        ensures
            match self.before {
                Some(snap) => res is Some && res->0@ == report_text(snap, self.diffs@),
                None => res is None,
            },
    {
        let snap = match &self.before {
            Some(s) => s,
            None => {
                return None;
            },
        };
        let mut s = "player=".to_owned();
        s.append(snap.name.as_str());
        s.append("\naddr=0x");
        push_hex(&mut s, snap.addr);
        s.append("\nbytes=0x");
        push_hex(&mut s, snap.data.len() as u64);
        s.append("\ndiff_count=");
        push_decimal(&mut s, self.diffs.len() as u64);
        s.append("\n\n");
        let ghost head = s@;
        let mut i: usize = 0;
        while i < self.diffs.len()
            invariant
                i <= self.diffs@.len(),
                s@ == head + report_lines(self.diffs@, i as int),
            decreases self.diffs@.len() - i,
        {
            let ghost before = s@;
            let d = self.diffs[i];
            push_report_line(&mut s, d);
            i += 1;
            assert(s@ =~= head + report_lines(self.diffs@, i as int));
        }
        Some(s)
    }

    /// Loads the byte at the offset that was typed, and says what came of it.
    pub fn load_byte(&mut self, cur: Option<&Player>, p: Option<&Proc>) -> (res: String)
        ensures
            ({
                let a = *old(self);
                let b = *final(self);
                let kept = b.loaded == a.loaded && b.value_text == a.value_text;
                &&& b.before == a.before
                &&& b.diffs@ == a.diffs@
                &&& b.len == a.len
                &&& b.offset_text == a.offset_text
                &&& match (typed_offset(a.offset_text@), cur, p) {
                    (None, _, _) => kept && res@
                        == "Offset 格式錯誤：請輸入例如 0x002D（範圍 0x0000..0xFFFF）"@,
                    (Some(_), None, _) => kept && res@ == no_player(),
                    (Some(_), Some(_), None) => kept && res@ == no_game(),
                    (Some(off), Some(pl), Some(p)) => if !still_there(p@, pl.addr, pl.name@) {
                        kept && res@ == "載入失敗：選手位址已失效，請先重新整理"@
                    } else {
                        match p@.fetch(crate::process::at(pl.addr, off), 1) {
                            Some(d) => {
                                &&& b.loaded == Some((pl.addr, off as u64, d[0]))
                                &&& b.value_text@ == crate::digits::hex_up(d[0] as nat, 2)
                                &&& res@ == loaded_text(pl.name@, off as u64, d[0])
                            },
                            None => kept && res@ == "任意 Offset：讀取 "@ + offset_text(off as u64)
                                + " 失敗"@,
                        }
                    },
                }
            }),
    {
        let off: u64 = match parse_research_hex(self.offset_text.as_str()) {
            Some(v) => v,
            None => {
                return "Offset 格式錯誤：請輸入例如 0x002D（範圍 0x0000..0xFFFF）".to_owned();
            },
        };
        if off > 0xFFFF {
            return "Offset 格式錯誤：請輸入例如 0x002D（範圍 0x0000..0xFFFF）".to_owned();
        }
        let pl = match cur {
            Some(pl) => pl,
            None => {
                return "請先選一位選手".to_owned();
            },
        };
        let p = match p {
            Some(p) => p,
            None => {
                return "尚未附加遊戲行程".to_owned();
            },
        };
        if !is_still_there(p, pl.addr, &pl.name) {
            return "載入失敗：選手位址已失效，請先重新整理".to_owned();
        }
        match p.read(pl.addr.wrapping_add(off), 1) {
            Some(d) => {
                let v: u8 = d[0];
                self.loaded = Some((pl.addr, off, v));
                let mut t = String::new();
                push_hex_up(&mut t, v as u64, 2);
                assert(t@ =~= crate::digits::hex_up(v as nat, 2));
                self.value_text = t;
                let mut s = "任意 Offset：已載入「".to_owned();
                s.append(pl.name.as_str());
                s.append("」");
                push_offset(&mut s, off);
                s.append(" = 0x");
                push_hex_up(&mut s, v as u64, 2);
                s
            },
            None => {
                let mut s = "任意 Offset：讀取 ".to_owned();
                push_offset(&mut s, off);
                s.append(" 失敗");
                s
            },
        }
    }
}

/// What stands in the way of writing the byte that was loaded, `None` where
/// nothing does. The game's memory counts only at the end.
pub open spec fn write_refusal(r: Research, cur: Option<Player>, m: Option<crate::process::Memory>)
    -> Option<Seq<char>> {
    match (r.loaded, cur) {
        (None, _) => Some("請先按「載入」確認目前 offset 與原始值"@),
        (Some(_), None) => Some(no_player()),
        (Some((obj, off, _)), Some(pl)) => if pl.addr != obj {
            Some("目前選手已切換；請重新按「載入」後再寫入"@)
        } else if typed_hex(r.offset_text@) != Some(off as int) {
            Some("Offset 已變更；請重新按「載入」再寫入"@)
        } else if typed_byte(r.value_text@) is None {
            Some("數值格式錯誤：請輸入 00..FF（十六進位）"@)
        } else {
            match m {
                None => Some(no_game()),
                Some(m) => if !still_there(m, obj, pl.name@) {
                    Some("寫入失敗：選手位址已失效，請先重新整理"@)
                } else {
                    None
                },
            }
        },
    }
}

/// The byte that was typed, if it is one.
pub open spec fn typed_byte(text: Seq<char>) -> Option<u8> {
    match typed_hex(text) {
        Some(v) => if v <= 0xFF {
            Some(v as u8)
        } else {
            None
        },
        None => None,
    }
}

/// The loaded byte belongs to another player than the chosen one.
pub open spec fn is_switched(r: Research, cur: Option<Player>) -> bool {
    r.loaded is Some && cur is Some && cur->0.addr != (r.loaded->0).0
}

/// The memory of a game that may not be attached.
pub open spec fn memory_of(p: Option<Proc>) -> Option<crate::process::Memory> {
    match p {
        Some(p) => Some(p@),
        None => None,
    }
}

impl Research {
    /// Writes the typed byte where one was loaded, and says what came of it.
    /// Only the byte that is on show is written: the chosen player, the typed
    /// offset and the name in the game must be those of the loaded byte.
    pub fn write_byte(&mut self, cur: Option<&Player>, p: &mut Option<Proc>) -> (res: String)
        ensures
            (*final(p)) is Some == (*old(p)) is Some,
            ({
                let a = *old(self);
                let b = *final(self);
                let chosen = match cur {
                    Some(pl) => Some(*pl),
                    None => None,
                };
                let refusal = write_refusal(a, chosen, memory_of(*old(p)));
                &&& b.before == a.before
                &&& b.diffs@ == a.diffs@
                &&& b.len == a.len
                &&& b.offset_text == a.offset_text
                &&& b.value_text == a.value_text
                &&& match refusal {
                    Some(text) => {
                        &&& res@ == text
                        &&& *final(p) == *old(p)
                        &&& b.loaded == if is_switched(a, chosen) {
                            None
                        } else {
                            a.loaded
                        }
                    },
                    None => {
                        let (obj, off, before) = a.loaded->0;
                        let byte = typed_byte(a.value_text@)->0;
                        let m = (*old(p))->0@;
                        let to = crate::process::at(obj, off as int);
                        &&& (*final(p))->0@ == m.poke(to, seq![byte])
                        &&& if m.accepts(to, 1) {
                            &&& b.loaded == Some((obj, off, byte))
                            &&& res@ == written_text(off, before, byte, cur->0.name@)
                        } else {
                            &&& b.loaded == a.loaded
                            &&& res@ == "任意 Offset：寫入 "@ + offset_text(off) + " 失敗"@
                        }
                    },
                }
            }),
    {
        let (obj, off, before) = match self.loaded {
            Some(v) => v,
            None => {
                return "請先按「載入」確認目前 offset 與原始值".to_owned();
            },
        };
        let pl = match cur {
            Some(pl) => pl,
            None => {
                return "請先選一位選手".to_owned();
            },
        };
        if pl.addr != obj {
            self.loaded = None;
            return "目前選手已切換；請重新按「載入」後再寫入".to_owned();
        }
        let same: bool = match parse_research_hex(self.offset_text.as_str()) {
            Some(v) => v == off,
            None => false,
        };
        if !same {
            return "Offset 已變更；請重新按「載入」再寫入".to_owned();
        }
        let byte: u8 = match parse_research_hex(self.value_text.as_str()) {
            Some(v) => if v <= 0xFF {
                v as u8
            } else {
                return "數值格式錯誤：請輸入 00..FF（十六進位）".to_owned();
            },
            None => {
                return "數值格式錯誤：請輸入 00..FF（十六進位）".to_owned();
            },
        };
        match p {
            Some(p) => {
                if !is_still_there(p, obj, &pl.name) {
                    return "寫入失敗：選手位址已失效，請先重新整理".to_owned();
                }
                let data: [u8; 1] = [byte];
                assert(data@ =~= seq![byte]);
                if p.write(obj.wrapping_add(off), &data) {
                    self.loaded = Some((obj, off, byte));
                    let mut s = "任意 Offset：".to_owned();
                    push_offset(&mut s, off);
                    s.append(" 已寫入 0x");
                    push_hex_up(&mut s, before as u64, 2);
                    s.append(" → 0x");
                    push_hex_up(&mut s, byte as u64, 2);
                    s.append("（");
                    s.append(pl.name.as_str());
                    s.append("）");
                    s
                } else {
                    let mut s = "任意 Offset：寫入 ".to_owned();
                    push_offset(&mut s, off);
                    s.append(" 失敗");
                    s
                }
            },
            None => "尚未附加遊戲行程".to_owned(),
        }
    }
}

fn push_report_line(s: &mut String, d: ResearchDiff)
    ensures
        final(s)@ == old(s)@ + report_line(d),
{
    s.append("+0x");
    push_hex_up_min(s, d.off as u64, 4);
    s.append("  ");
    push_hex_up(s, d.before as u64, 2);
    s.append(" -> ");
    push_hex_up(s, d.after as u64, 2);
    s.append("  XOR=");
    push_hex_up(s, d.xor as u64, 2);
    s.append("  ");
    let n: u8 = count_ones(d.xor);
    if n == 1 {
        s.append("bit");
        push_decimal(s, lowest_bit(d.xor) as u64);
    } else {
        push_decimal(s, n as u64);
        s.append(" bits");
    }
    s.append("\n");
    assert(s@ =~= old(s)@ + report_line(d));
}

/// A byte that was loaded stands ready to be written back: what is shown for
/// it reads as the byte itself.
pub proof fn loaded_byte_reads_back(v: u8)
    ensures
        typed_byte(crate::digits::hex_up(v as nat, 2)) == Some(v),
{
    reveal(crate::unicode::white);
    reveal_with_fuel(crate::digits::hex_up, 3);
    let (hi, lo) = (v as int / 16, v as int % 16);
    let t = crate::digits::hex_up(v as nat, 2);
    assert(t =~= seq![crate::digits::upper_digit(hi), crate::digits::upper_digit(lo)]);
    assert(crate::digits::digit_value(t[0]) == Some(hi));
    assert(crate::digits::digit_value(t[1]) == Some(lo));
    assert(crate::text::trimmed(t) == t);
    assert(t.drop_last() =~= seq![t[0]]);
    assert(seq![t[0]].drop_last() =~= Seq::<char>::empty());
    assert(crate::digits::value_of(Seq::<char>::empty(), 16) == 0);
    assert(crate::digits::value_of(seq![t[0]], 16) == hi);
    assert(crate::digits::value_of(t, 16) == hi * 16 + lo);
    assert(crate::digits::all_digits(t, 16));
    assert(typed_hex(t) == Some(v as int));
}

} // verus!

//! The high-school mode: its roster, its recruits and its items.

use vstd::prelude::*;
use vstd::string::*;

use crate::bytes::{get32, put16, put32, to_pattern16};
use crate::digits::{push_decimal, push_hex};
use crate::offsets::{OFF_ITEM, OFF_MOOD};
use crate::process::Proc;
use crate::text::{chars_are, read_name, sane_name, trim_chars};

verus! {

/// Where the mode's root pointer stands in the main module.
pub const KOSHIEN_STATIC: u64 = 0x139C5EA0;

/// Within the mode object: how many players there are.
pub const KOSHIEN_COUNT: u64 = 0x185448;

/// Within the mode object: the pointers to the players.
pub const KOSHIEN_ARRAY: u64 = 0x185450;

/// Within the mode object: the first region of recruits.
pub const RECRUIT_REGION_BASE: u64 = 0x185F78;

pub const RECRUIT_REGION_STRIDE: u64 = 0x60;

/// Number of recruits in a region.
pub const RECRUIT_CANDIDATE_N: usize = 10;

/// Within a recruit: the player object.
pub const RECRUIT_PLAYER_FROM_CANDIDATE: u64 = 0x18;

/// Number of regions.
pub const RECRUIT_REGION_N: usize = 49;

/// Within the mode object: the pointer to the item object.
pub const KOSHIEN_ITEMOBJ: u64 = 0x185438;

/// Number of kinds of items.
pub const KOSHIEN_ITEM_N: usize = 221;

/// Where the items that all modes share may stand in the main module, the
/// newest place first.
pub const SHARED_ITEMS_CANDS: [u64; 2] = [0x19AECCE0, 0x1974D280];

pub const SHARED_ITEMS: u64 = 0x19AECCE0;

/// Number of shared kinds of items.
pub const SHARED_ITEM_N: usize = 49;

/// Where the pointer to the item use counters may stand in the main module,
/// the newest place first.
pub const STAR_USE_PTR_CANDS: [u64; 3] = [0x1999C138, 0x195FC798, 0x195FFA98];

pub const STAR_USE_PTR: u64 = 0x1999C138;

/// Number of counters.
pub const STAR_USE_N: usize = 0x110;

/// The first and the last counter that belong to items.
pub const STAR_USE_RANGE: (usize, usize) = (3, 9);

/// Within the item object: how many days the training boost lasts.
pub const KOSHIEN_PRACBUFF: u64 = 0x382;

/// More days than the mode has.
pub const KOSHIEN_PRACBUFF_DAYS: i16 = 9999;

/// The mode object, 0 outside the mode.
pub open spec fn modeobj(m: crate::process::Memory) -> u64 {
    let l1 = m.u64_at(m.base.wrapping_add(KOSHIEN_STATIC));
    if m.base == 0 || l1 == 0 {
        0
    } else {
        m.u64_at(l1.wrapping_add(0x70))
    }
}

/// An address that can be an object on the game's heap.
pub open spec fn on_heap(a: u64) -> bool {
    0x1000_0000 <= a < 0x2_0000_0000 && a % 8 == 0
}

/// The pointers in the first `n` entries of the roster, empty entries left out.
pub open spec fn entries(m: crate::process::Memory, mode: u64, n: int) -> Seq<u64>
    decreases n,
{
    if n <= 0 {
        seq![]
    } else {
        let rest = entries(m, mode, n - 1);
        let o = m.u64_at(crate::process::at(mode.wrapping_add(KOSHIEN_ARRAY), (n - 1) * 8));
        if o == 0 {
            rest
        } else {
            rest.push(o)
        }
    }
}

/// The players of the roster. There are none outside the mode, and none where
/// the count cannot be right.
pub open spec fn roster(m: crate::process::Memory) -> Seq<u64> {
    let mode = modeobj(m);
    let n = m.u32_at(mode.wrapping_add(KOSHIEN_COUNT));
    if mode == 0 || n == 0 || n > 512 {
        seq![]
    } else {
        entries(m, mode, n as int)
    }
}

/// The entries of the roster as they stand, empty ones among them. There are
/// none outside the mode, and none where the count cannot be right.
pub open spec fn slots(m: crate::process::Memory) -> Seq<u64> {
    let mode = modeobj(m);
    let n = m.u32_at(mode.wrapping_add(KOSHIEN_COUNT));
    if mode == 0 || n == 0 || n > 512 {
        seq![]
    } else {
        Seq::new(
            n as nat,
            |i: int| m.u64_at(crate::process::at(mode.wrapping_add(KOSHIEN_ARRAY), i * 8)),
        )
    }
}

/// What is wrong with entry `i` of a list of players.
pub open spec fn complaint(m: crate::process::Memory, list: Seq<u64>, i: int) -> Option<Seq<char>> {
    if list[i] == 0 {
        Some("榮冠 roster #"@ + crate::digits::decimal(i as nat) + " 的 Player Object 為 0"@)
    } else if exists|j: int| 0 <= j < i && #[trigger] list[j] == list[i] {
        Some(
            "榮冠 roster #"@ + crate::digits::decimal(i as nat) + " 出現重複 Player Object 0x"@
                + crate::digits::hex(list[i] as nat),
        )
    } else if !crate::text::is_sane(crate::text::name_at(m, list[i])) {
        Some(
            "榮冠 roster #"@ + crate::digits::decimal(i as nat) + " 的 Player Object 驗證失敗 (0x"@
                + crate::digits::hex(list[i] as nat) + ")"@,
        )
    } else {
        None
    }
}

/// What is wrong with a list of players as a whole.
pub open spec fn list_complaint(list: Seq<u64>) -> Option<Seq<char>> {
    if list.len() == 0 {
        Some("榮冠球員名單尚未就緒（目前不在榮冠模式，或固定 ModeObj 尚未有效）"@)
    } else if list.len() > 128 {
        Some("榮冠球員人數異常："@ + crate::digits::decimal(list.len()))
    } else {
        None
    }
}

/// The list is fit for changes to every player on it.
pub open spec fn sound(m: crate::process::Memory, list: Seq<u64>) -> bool {
    &&& list_complaint(list) is None
    &&& forall|i: int| 0 <= i < list.len() ==> (#[trigger] complaint(m, list, i)) is None
}

/// `e` is the first complaint about a list.
pub open spec fn first_complaint(m: crate::process::Memory, list: Seq<u64>, e: Seq<char>) -> bool {
    match list_complaint(list) {
        Some(c) => e == c,
        None => exists|i: int|
            0 <= i < list.len() && #[trigger] complaint(m, list, i) == Some(e) && forall|j: int|
                0 <= j < i ==> (#[trigger] complaint(m, list, j)) is None,
    }
}

/// Recruit `i` of a region.
pub open spec fn candidate(m: crate::process::Memory, mode: u64, region: int, i: int) -> u64 {
    m.u64_at(
        crate::process::at(
            mode.wrapping_add(RECRUIT_REGION_BASE),
            region * RECRUIT_REGION_STRIDE + (i + 1) * 8,
        ),
    )
}

/// The recruit is there and has a name of its own.
pub open spec fn is_recruit(m: crate::process::Memory, c: u64) -> bool {
    let name = crate::text::name_at(m, c.wrapping_add(RECRUIT_PLAYER_FROM_CANDIDATE));
    &&& c >= 0x10000
    &&& crate::text::is_sane(name)
    &&& crate::text::trimmed(name) != "未初期化"@
}

/// The recruits among the first `n` of a region: number, recruit, player object.
pub open spec fn recruits(
    m: crate::process::Memory,
    mode: u64,
    region: int,
    n: int,
) -> Seq<(usize, u64, u64)>
    decreases n,
{
    if n <= 0 {
        seq![]
    } else {
        let rest = recruits(m, mode, region, n - 1);
        let c = candidate(m, mode, region, n - 1);
        if is_recruit(m, c) {
            rest.push(((n - 1) as usize, c, c.wrapping_add(RECRUIT_PLAYER_FROM_CANDIDATE)))
        } else {
            rest
        }
    }
}

/// The recruits of a region.
pub open spec fn region_recruits(m: crate::process::Memory, region: int) -> Seq<(usize, u64, u64)> {
    if region >= RECRUIT_REGION_N || m.base == 0 || modeobj(m) < 0x10000 {
        seq![]
    } else {
        recruits(m, modeobj(m), region, RECRUIT_CANDIDATE_N as int)
    }
}

/// Numbers of items that can be right: none above 999, and not all zero.
pub open spec fn plausible_items(b: Seq<u8>) -> bool {
    &&& forall|i: int| 0 <= i < SHARED_ITEM_N ==> #[trigger] crate::bytes::le32(b, 4 * i) <= 999
    &&& exists|i: int| 0 <= i < SHARED_ITEM_N && #[trigger] crate::bytes::le32(b, 4 * i) > 0
}

/// The shared items can stand at `a`.
pub open spec fn items_at(m: crate::process::Memory, a: u64) -> bool {
    m.fetch(a, 4 * SHARED_ITEM_N) is Some && plausible_items(m.fetch(a, 4 * SHARED_ITEM_N)->0)
}

/// Where the shared items stand.
pub open spec fn shared_items(m: crate::process::Memory) -> Option<u64> {
    let a = m.base.wrapping_add(SHARED_ITEMS_CANDS@[0]);
    let b = m.base.wrapping_add(SHARED_ITEMS_CANDS@[1]);
    if m.base == 0 {
        None
    } else if items_at(m, a) {
        Some(a)
    } else if items_at(m, b) {
        Some(b)
    } else {
        None
    }
}

/// Where the item use counters stand, going by candidate `k`.
pub open spec fn counters_by(m: crate::process::Memory, k: int) -> Option<u64> {
    let a = m.u64_at(m.base.wrapping_add(STAR_USE_PTR_CANDS@[k]));
    if on_heap(a) && m.fetch(a, STAR_USE_N as int) is Some {
        Some(a)
    } else {
        None
    }
}

/// Where the item use counters stand.
pub open spec fn counters(m: crate::process::Memory) -> Option<u64> {
    if m.base == 0 {
        None
    } else if counters_by(m, 0) is Some {
        counters_by(m, 0)
    } else if counters_by(m, 1) is Some {
        counters_by(m, 1)
    } else {
        counters_by(m, 2)
    }
}

/// The item object, where there is one.
pub open spec fn item_obj(m: crate::process::Memory) -> Option<u64> {
    let o = m.u64_at(modeobj(m).wrapping_add(KOSHIEN_ITEMOBJ));
    if modeobj(m) == 0 || o == 0 {
        None
    } else {
        Some(o)
    }
}

/// Where the numbers of items stand.
pub open spec fn item_array(m: crate::process::Memory) -> Option<u64> {
    match item_obj(m) {
        Some(o) => Some(o.wrapping_add(0x0C)),
        None => None,
    }
}

/// Number `i` of those that stand one after another from `a` on.
pub open spec fn number_at(m: crate::process::Memory, a: u64, i: int) -> u32 {
    m.u32_at(crate::process::at(a, 4 * i))
}

/// `n` times the four bytes of `val`.
pub open spec fn repeated(val: u32, n: int) -> Seq<u8> {
    Seq::new((4 * n) as nat, |i: int| crate::bytes::bytes32(val)[i % 4])
}

/// The memory after `data` was written at `off` of every object of a list.
pub open spec fn poke_each(
    m: crate::process::Memory,
    list: Seq<u64>,
    off: int,
    data: Seq<u8>,
) -> crate::process::Memory
    decreases list.len(),
{
    if list.len() == 0 {
        m
    } else {
        poke_each(m, list.drop_last(), off, data).poke(crate::process::at(list.last(), off), data)
    }
}

/// How many objects of a list take `n` bytes at `off`.
pub open spec fn count_taking(m: crate::process::Memory, list: Seq<u64>, off: int, n: int) -> nat
    decreases list.len(),
{
    if list.len() == 0 {
        0
    } else {
        count_taking(m, list.drop_last(), off, n) + if m.accepts(
            crate::process::at(list.last(), off),
            n,
        ) {
            1nat
        } else {
            0nat
        }
    }
}

/// The mode object, 0 outside the mode.
pub fn koshien_modeobj(p: &Proc) -> (res: u64)
    ensures
        res == modeobj(p@),
{
    if p.base == 0 {
        return 0;
    }
    let l1 = p.u64_at(p.base.wrapping_add(KOSHIEN_STATIC));
    if l1 == 0 {
        return 0;
    }
    p.u64_at(l1.wrapping_add(0x70))
}

/// Whether an address can be an object on the game's heap.
pub fn plausible_heap(a: u64) -> (res: bool)
    ensures
        res == on_heap(a),
{
    0x1000_0000 <= a && a < 0x2_0000_0000 && a % 8 == 0
}

/// The recruits of a region: number, recruit, player object. A recruit whose
/// name the game has not set yet does not count.
pub fn recruit_candidates(p: &Proc, region: usize) -> (res: Vec<(usize, u64, u64)>)
    ensures
        res@ == region_recruits(p@, region as int),
{
    let mut out: Vec<(usize, u64, u64)> = Vec::new();
    if region >= RECRUIT_REGION_N || p.base == 0 {
        return out;
    }
    let mode = koshien_modeobj(p);
    if mode < 0x10000 {
        return out;
    }
    let first = mode.wrapping_add(RECRUIT_REGION_BASE);
    let mut i: usize = 0;
    while i < RECRUIT_CANDIDATE_N
        invariant
            i <= RECRUIT_CANDIDATE_N,
            region < RECRUIT_REGION_N,
            first == mode.wrapping_add(RECRUIT_REGION_BASE),
            out@ == recruits(p@, mode, region as int, i as int),
        decreases RECRUIT_CANDIDATE_N - i,
    {
        let c = p.u64_at(
            first.wrapping_add(region as u64 * RECRUIT_REGION_STRIDE + (i as u64 + 1) * 8),
        );
        assert(c == candidate(p@, mode, region as int, i as int));
        if c >= 0x10000 {
            let obj = c.wrapping_add(RECRUIT_PLAYER_FROM_CANDIDATE);
            let name = read_name(p, obj);
            if sane_name(name.as_str()) && !chars_are(&trim_chars(name.as_str()), "未初期化") {
                out.push((i, c, obj));
            }
        }
        i += 1;
    }
    out
}

/// The regions that have recruits.
pub fn recruit_available_regions(p: &Proc) -> (res: Vec<usize>)
    ensures
        res@ == Seq::new(RECRUIT_REGION_N as nat, |r: int| r as usize).filter(
            |r: usize| region_recruits(p@, r as int).len() > 0,
        ),
{
    let ghost keep = |r: usize| region_recruits(p@, r as int).len() > 0;
    let ghost all = Seq::new(RECRUIT_REGION_N as nat, |r: int| r as usize);
    let mut out: Vec<usize> = Vec::new();
    let mut r: usize = 0;
    while r < RECRUIT_REGION_N
        invariant
            r <= RECRUIT_REGION_N,
            keep == (|r: usize| region_recruits(p@, r as int).len() > 0),
            all == Seq::new(RECRUIT_REGION_N as nat, |r: int| r as usize),
            out@ == all.take(r as int).filter(keep),
        decreases RECRUIT_REGION_N - r,
    {
        proof {
            reveal(Seq::filter);
            assert(all.take(r + 1).drop_last() =~= all.take(r as int));
            assert(all[r as int] == r);
        }
        if recruit_candidates(p, r).len() > 0 {
            out.push(r);
        }
        r += 1;
    }
    assert(all.take(r as int) =~= all);
    out
}

/// The players of the roster. There are none outside the mode.
pub fn koshien_roster(p: &Proc) -> (res: Vec<u64>)
    ensures
        res@ == roster(p@),
{
    let mut out: Vec<u64> = Vec::new();
    let mode = koshien_modeobj(p);
    if mode == 0 {
        return out;
    }
    let n: u32 = p.u32_at(mode.wrapping_add(KOSHIEN_COUNT));
    if n == 0 || n > 512 {
        return out;
    }
    let mut i: u32 = 0;
    while i < n
        invariant
            i <= n <= 512,
            out@ == entries(p@, mode, i as int),
        decreases n - i,
    {
        let o = p.u64_at(mode.wrapping_add(KOSHIEN_ARRAY).wrapping_add(i as u64 * 8));
        if o != 0 {
            out.push(o);
        }
        i += 1;
    }
    out
}

/// Checks that every player of a list can be changed safely: none is missing,
/// none is there twice, and all have names.
pub fn check_roster(p: &Proc, list: Vec<u64>) -> (res: Result<Vec<u64>, String>)
    ensures
        match res {
            Ok(l) => l@ == list@ && sound(p@, list@),
            Err(e) => first_complaint(p@, list@, e@),
        },
{
    if list.len() == 0 {
        return Err("榮冠球員名單尚未就緒（目前不在榮冠模式，或固定 ModeObj 尚未有效）".to_owned());
    }
    if list.len() > 128 {
        let mut s = "榮冠球員人數異常：".to_owned();
        push_decimal(&mut s, list.len() as u64);
        return Err(s);
    }
    let mut i: usize = 0;
    while i < list.len()
        invariant
            i <= list@.len(),
            0 < list@.len() <= 128,
            forall|j: int| 0 <= j < i ==> (#[trigger] complaint(p@, list@, j)) is None,
        decreases list@.len() - i,
    {
        let obj = list[i];
        let mut s = "榮冠 roster #".to_owned();
        push_decimal(&mut s, i as u64);
        if obj == 0 {
            s.append(" 的 Player Object 為 0");
            assert(complaint(p@, list@, i as int) == Some(s@));
            return Err(s);
        }
        let mut twice = false;
        let mut j: usize = 0;
        while j < i
            invariant
                j <= i < list@.len(),
                obj == list@[i as int],
                twice == exists|k: int| 0 <= k < j && #[trigger] list@[k] == obj,
            decreases i - j,
        {
            if list[j] == obj {
                twice = true;
            }
            j += 1;
        }
        if twice {
            s.append(" 出現重複 Player Object 0x");
            push_hex(&mut s, obj);
            assert(complaint(p@, list@, i as int) == Some(s@));
            return Err(s);
        }
        let name = read_name(p, obj);
        if !sane_name(name.as_str()) {
            s.append(" 的 Player Object 驗證失敗 (0x");
            push_hex(&mut s, obj);
            s.append(")");
            assert(complaint(p@, list@, i as int) == Some(s@));
            return Err(s);
        }
        i += 1;
    }
    Ok(list)
}

/// The entries of the roster as they stand, empty ones among them.
fn roster_slots(p: &Proc) -> (res: Vec<u64>)
    ensures
        res@ == slots(p@),
{
    let mut out: Vec<u64> = Vec::new();
    let mode = koshien_modeobj(p);
    if mode == 0 {
        return out;
    }
    let n: u32 = p.u32_at(mode.wrapping_add(KOSHIEN_COUNT));
    if n == 0 || n > 512 {
        return out;
    }
    let mut i: u32 = 0;
    while i < n
        invariant
            i <= n <= 512,
            n != 0,
            mode != 0,
            mode == modeobj(p@),
            n == p@.u32_at(mode.wrapping_add(KOSHIEN_COUNT)),
            out@ == slots(p@).take(i as int),
        decreases n - i,
    {
        out.push(p.u64_at(mode.wrapping_add(KOSHIEN_ARRAY).wrapping_add(i as u64 * 8)));
        i += 1;
        assert(out@ =~= slots(p@).take(i as int));
    }
    assert(slots(p@).take(n as int) =~= slots(p@));
    out
}

/// The roster, if every player on it can be changed safely. Unlike
/// [`koshien_roster`] it is refused as a whole where an entry is empty, so that
/// nothing is written while the game is still putting it together.
pub fn validated_koshien_roster(p: &Proc) -> (res: Result<Vec<u64>, String>)
    ensures
        match res {
            Ok(l) => l@ == slots(p@) && sound(p@, slots(p@)),
            Err(e) => first_complaint(p@, slots(p@), e@),
        },
{
    check_roster(p, roster_slots(p))
}

fn items_plausible(b: &Vec<u8>) -> (res: bool)
    requires
        b@.len() == 4 * SHARED_ITEM_N,
    ensures
        res == plausible_items(b@),
{
    let mut any = false;
    let mut i: usize = 0;
    while i < SHARED_ITEM_N
        invariant
            i <= SHARED_ITEM_N,
            b@.len() == 4 * SHARED_ITEM_N,
            forall|j: int| 0 <= j < i ==> #[trigger] crate::bytes::le32(b@, 4 * j) <= 999,
            any == exists|j: int| 0 <= j < i && #[trigger] crate::bytes::le32(b@, 4 * j) > 0,
        decreases SHARED_ITEM_N - i,
    {
        let v: u32 = get32(b, 4 * i);
        assert(v == crate::bytes::le32(b@, 4 * i as int));
        if v > 999 {
            return false;
        }
        if v > 0 {
            any = true;
        }
        i += 1;
    }
    any
}

fn items_stand_at(p: &Proc, a: u64) -> (res: bool)
    ensures
        res == items_at(p@, a),
{
    match p.read(a, 4 * SHARED_ITEM_N) {
        Some(b) => items_plausible(&b),
        None => false,
    }
}

/// Where the shared items stand. A place that holds anything but numbers of
/// items is not taken.
pub fn shared_items_addr(p: &Proc) -> (res: Option<u64>)
    ensures
        res == shared_items(p@),
{
    if p.base == 0 {
        return None;
    }
    let a = p.base.wrapping_add(SHARED_ITEMS_CANDS[0]);
    if items_stand_at(p, a) {
        return Some(a);
    }
    let b = p.base.wrapping_add(SHARED_ITEMS_CANDS[1]);
    if items_stand_at(p, b) {
        return Some(b);
    }
    None
}

/// Where the item use counters stand.
pub fn star_use_array(p: &Proc) -> (res: Option<u64>)
    ensures
        res == counters(p@),
{
    if p.base == 0 {
        return None;
    }
    let mut k: usize = 0;
    while k < 3
        invariant
            k <= 3,
            p.base != 0,
            forall|j: int| 0 <= j < k ==> (#[trigger] counters_by(p@, j)) is None,
        decreases 3 - k,
    {
        let a = p.u64_at(p.base.wrapping_add(STAR_USE_PTR_CANDS[k]));
        if plausible_heap(a) && p.read(a, STAR_USE_N).is_some() {
            assert(counters_by(p@, k as int) == Some(a));
            return Some(a);
        }
        assert(counters_by(p@, k as int) is None);
        k += 1;
    }
    assert(counters_by(p@, 0) is None && counters_by(p@, 1) is None && counters_by(p@, 2) is None);
    None
}

/// The item object, where there is one.
pub fn koshien_item_obj(p: &Proc) -> (res: Option<u64>)
    ensures
        res == item_obj(p@),
{
    let mode = koshien_modeobj(p);
    if mode == 0 {
        return None;
    }
    let o = p.u64_at(mode.wrapping_add(KOSHIEN_ITEMOBJ));
    if o == 0 {
        None
    } else {
        Some(o)
    }
}

/// Where the numbers of items stand.
pub fn koshien_item_array(p: &Proc) -> (res: Option<u64>)
    ensures
        res == item_array(p@),
        res == match item_obj(p@) {
            Some(o) => Some(o.wrapping_add(0x0C)),
            None => None,
        },
{
    match koshien_item_obj(p) {
        Some(o) => Some(o.wrapping_add(0x0C)),
        None => None,
    }
}

/// How many days the training boost lasts, going by the item object.
pub open spec fn boost_days(m: crate::process::Memory, o: u64) -> int {
    m.u16_at(o.wrapping_add(KOSHIEN_PRACBUFF)) as int
}

/// Sets how many days the training boost lasts.
pub fn set_koshien_pracbuff(p: &mut Proc, days: i16) -> (res: bool)
    ensures
        res && days >= 0 ==> boost_days(final(p)@, item_obj(old(p)@)->0) == days,
        match item_obj(old(p)@) {
            Some(o) => {
                let a = o.wrapping_add(KOSHIEN_PRACBUFF);
                &&& res == old(p)@.accepts(a, 2)
                &&& final(p)@ == old(p)@.poke(
                    a,
                    crate::bytes::bytes16(crate::bytes::pattern16(days)),
                )
            },
            None => !res && final(p)@ == old(p)@,
        },
{
    match koshien_item_obj(p) {
        Some(o) => {
            proof {
                let a = o.wrapping_add(KOSHIEN_PRACBUFF);
                let w = crate::bytes::pattern16(days);
                if p@.accepts(a, 2) {
                    crate::process::read_after_write(p@, a, crate::bytes::bytes16(w));
                    crate::bytes::le_undoes_bytes(0, w, 0);
                }
            }
            p.write(o.wrapping_add(KOSHIEN_PRACBUFF), &put16(to_pattern16(days)))
        },
        None => false,
    }
}

fn repeat(val: u32, n: usize) -> (res: Vec<u8>)
    requires
        n <= 1000,
    ensures
        res@ == repeated(val, n as int),
{
    let w = put32(val);
    let mut out: Vec<u8> = Vec::new();
    let mut i: usize = 0;
    while i < 4 * n
        invariant
            i <= 4 * n,
            n <= 1000,
            w@ == crate::bytes::bytes32(val),
            out@ == repeated(val, n as int).take(i as int),
        decreases 4 * n - i,
    {
        out.push(w[i % 4]);
        i += 1;
        assert(out@ =~= repeated(val, n as int).take(i as int));
    }
    assert(out@ =~= repeated(val, n as int));
    out
}

/// Numbers that were written one after another read back.
pub proof fn numbers_are_read(m: crate::process::Memory, a: u64, val: u32, n: int)
    requires
        0 < n <= 1000,
    ensures
        m.accepts(a, 4 * n) ==> forall|i: int|
            0 <= i < n ==> #[trigger] number_at(m.poke(a, repeated(val, n)), a, i) == val,
{
    let d = repeated(val, n);
    let w = m.poke(a, d);
    if m.accepts(a, 4 * n) {
        crate::process::read_after_write(m, a, d);
        crate::bytes::le_undoes_bytes(val, 0, 0);
        assert forall|i: int| 0 <= i < n implies #[trigger] number_at(w, a, i) == val by {
            let c = crate::process::at(a, 4 * i);
            assert forall|k: int| 0 <= k < 4 implies w.cells.dom().contains(
                #[trigger] crate::process::at(c, k),
            ) && w.cells[crate::process::at(c, k)].byte == crate::bytes::bytes32(val)[k] by {
                let x = 4 * i + k;
                assert(crate::process::at(c, k) == crate::process::at(a, x));
                assert(w.cells.dom().contains(crate::process::at(a, x)));
                assert(w.bytes(a, 4 * n)[x] == d[x]);
                assert(x % 4 == k);
            }
            assert(w.bytes(c, 4) =~= crate::bytes::bytes32(val));
        }
    }
}

/// Sets the number of every kind of item.
pub fn set_koshien_items(p: &mut Proc, val: u32) -> (res: bool)
    ensures
        res ==> forall|i: int|
            0 <= i < 221 ==> #[trigger] number_at(final(p)@, item_array(old(p)@)->0, i) == val,
        match item_obj(old(p)@) {
            Some(o) => {
                let a = o.wrapping_add(0x0C);
                &&& res == old(p)@.accepts(a, 4 * KOSHIEN_ITEM_N)
                &&& final(p)@ == old(p)@.poke(a, repeated(val, KOSHIEN_ITEM_N as int))
            },
            None => !res && final(p)@ == old(p)@,
        },
{
    match koshien_item_array(p) {
        Some(a) => {
            proof {
                numbers_are_read(p@, a, val, KOSHIEN_ITEM_N as int);
            }
            p.write(a, &repeat(val, KOSHIEN_ITEM_N))
        },
        None => false,
    }
}

/// Sets the number of every shared kind of item.
pub fn set_shared_items(p: &mut Proc, val: u32) -> (res: bool)
    ensures
        res ==> forall|i: int|
            0 <= i < 49 ==> #[trigger] number_at(final(p)@, shared_items(old(p)@)->0, i) == val,
        match shared_items(old(p)@) {
            Some(a) => {
                &&& res == old(p)@.accepts(a, 4 * SHARED_ITEM_N)
                &&& final(p)@ == old(p)@.poke(a, repeated(val, SHARED_ITEM_N as int))
            },
            None => !res && final(p)@ == old(p)@,
        },
{
    match shared_items_addr(p) {
        Some(a) => {
            proof {
                numbers_are_read(p@, a, val, SHARED_ITEM_N as int);
            }
            p.write(a, &repeat(val, SHARED_ITEM_N))
        },
        None => false,
    }
}

proof fn poke_each_keeps_access(
    m: crate::process::Memory,
    list: Seq<u64>,
    off: int,
    data: Seq<u8>,
    a: u64,
    n: int,
)
    requires
        0 <= n <= u64::MAX,
    ensures
        poke_each(m, list, off, data).accepts(a, n) == m.accepts(a, n),
    decreases list.len(),
{
    if list.len() > 0 {
        let rest = poke_each(m, list.drop_last(), off, data);
        poke_each_keeps_access(m, list.drop_last(), off, data, a, n);
        crate::process::write_keeps_access(
            rest,
            crate::process::at(list.last(), off),
            data,
            a,
            n,
        );
    }
}

/// Where the same byte is written throughout, every object that takes it has it.
pub proof fn each_object_gets(
    m: crate::process::Memory,
    list: Seq<u64>,
    off: int,
    data: Seq<u8>,
    v: u8,
    i: int,
    k: int,
)
    requires
        0 <= i < list.len(),
        0 <= off,
        0 <= k < data.len(),
        off + data.len() <= crate::offsets::PLAYER_READ,
        forall|j: int| 0 <= j < data.len() ==> #[trigger] data[j] == v,
        crate::edit_laws::editable(m, list[i]),
    ensures
        crate::edit_laws::object(poke_each(m, list, off, data), list[i])[off + k] == v,
    decreases list.len(),
{
    let a = crate::process::at(list[i], off + k);
    let n = list.len() - 1;
    let rest = poke_each(m, list.drop_last(), off, data);
    let b = crate::process::at(list.last(), off);
    let all = rest.poke(b, data);
    let len = crate::offsets::PLAYER_READ as int;
    poke_each_keeps_access(m, list.drop_last(), off, data, list[i], len);
    assert(rest.cells.dom().contains(a)) by {
        assert(rest.accepts(list[i], len));
        assert(rest.cells.dom().contains(crate::process::at(list[i], off + k)));
    }
    if i < n {
        each_object_gets(m, list.drop_last(), off, data, v, i, k);
        assert(rest.cells[a].byte == v);
    } else {
        crate::edit_laws::write_stays_in_place(rest, list[i], off, data);
        assert(crate::process::Memory::offset(b, a) == k);
    }
    assert(all.cells[a].byte == v);
}

/// Writes `data` at `off` of every object of a list and counts the successes.
fn write_each(p: &mut Proc, list: &Vec<u64>, off: usize, data: &[u8]) -> (res: usize)
    ensures
        final(p)@ == poke_each(old(p)@, list@, off as int, data@),
        res == count_taking(old(p)@, list@, off as int, data@.len() as int),
{
    let ghost m = p@;
    let n: usize = data.len();
    let mut done: usize = 0;
    let mut i: usize = 0;
    while i < list.len()
        invariant
            i <= list@.len(),
            n == data@.len(),
            p@ == poke_each(m, list@.take(i as int), off as int, data@),
            done == count_taking(m, list@.take(i as int), off as int, data@.len() as int),
            done <= i,
        decreases list@.len() - i,
    {
        let ghost k = list@.take(i as int);
        assert(list@.take(i + 1).drop_last() =~= k);
        let a = list[i].wrapping_add(off as u64);
        proof {
            poke_each_keeps_access(m, k, off as int, data@, a, data@.len() as int);
        }
        if p.write(a, data) {
            done += 1;
        }
        i += 1;
    }
    assert(list@.take(i as int) =~= list@);
    done
}

/// Lets every player of the roster use items and books again, and says for how
/// many that worked. A roster that is not sound is left alone.
pub fn clear_koshien_use_limits(p: &mut Proc) -> (res: usize)
    ensures
        forall|i: int, y: crate::player::Player|
            #![trigger crate::agreement::reads_as(final(p)@, slots(old(p)@)[i], y)]
            sound(old(p)@, slots(old(p)@)) && 0 <= i < slots(old(p)@).len()
                && crate::edit_laws::editable(old(p)@, slots(old(p)@)[i])
                && crate::agreement::reads_as(final(p)@, slots(old(p)@)[i], y) ==> y.item == 0
                && y.book == 0,
        ({
            let m = old(p)@;
            if sound(m, slots(m)) {
                &&& final(p)@ == poke_each(m, slots(m), OFF_ITEM as int, seq![0u8, 0u8])
                &&& res == count_taking(m, slots(m), OFF_ITEM as int, 2)
            } else {
                res == 0 && final(p)@ == m
            }
        }),
{
    match validated_koshien_roster(p) {
        Ok(list) => {
            let data: [u8; 2] = [0, 0];
            assert(data@ =~= seq![0u8, 0u8]);
            proof {
                assert forall|i: int, y: crate::player::Player|
                    #![trigger crate::agreement::reads_as(poke_each(p@, list@, OFF_ITEM as int, data@), list@[i], y)]
                    0 <= i < list@.len() && crate::edit_laws::editable(p@, list@[i])
                        && crate::agreement::reads_as(
                        poke_each(p@, list@, OFF_ITEM as int, data@),
                        list@[i],
                        y,
                    ) implies y.item == 0 && y.book == 0 by {
                    each_object_gets(p@, list@, OFF_ITEM as int, data@, 0, i, 0);
                    each_object_gets(p@, list@, OFF_ITEM as int, data@, 0, i, 1);
                }
            }
            write_each(p, &list, OFF_ITEM, &data)
        },
        Err(e) => {
            proof {
                complaint_means_unsound(p@, slots(p@), e@);
            }
            0
        },
    }
}

/// Sets the mood of every player of the roster, and says for how many that
/// worked. Moods above 3 are refused, and a roster that is not sound is left
/// alone.
pub fn set_koshien_all_mood(p: &mut Proc, mood: u8) -> (res: usize)
    ensures
        forall|i: int, y: crate::player::Player|
            #![trigger crate::agreement::reads_as(final(p)@, slots(old(p)@)[i], y)]
            mood <= 3 && sound(old(p)@, slots(old(p)@)) && 0 <= i < slots(old(p)@).len()
                && crate::edit_laws::editable(old(p)@, slots(old(p)@)[i])
                && crate::agreement::reads_as(final(p)@, slots(old(p)@)[i], y) ==> y.mood == mood,
        ({
            let m = old(p)@;
            if mood <= 3 && sound(m, slots(m)) {
                &&& final(p)@ == poke_each(m, slots(m), OFF_MOOD as int, seq![mood])
                &&& res == count_taking(m, slots(m), OFF_MOOD as int, 1)
            } else {
                res == 0 && final(p)@ == m
            }
        }),
{
    if mood > 3 {
        return 0;
    }
    match validated_koshien_roster(p) {
        Ok(list) => {
            let data: [u8; 1] = [mood];
            assert(data@ =~= seq![mood]);
            proof {
                assert forall|i: int, y: crate::player::Player|
                    #![trigger crate::agreement::reads_as(poke_each(p@, list@, OFF_MOOD as int, data@), list@[i], y)]
                    0 <= i < list@.len() && crate::edit_laws::editable(p@, list@[i])
                        && crate::agreement::reads_as(
                        poke_each(p@, list@, OFF_MOOD as int, data@),
                        list@[i],
                        y,
                    ) implies y.mood == mood by {
                    each_object_gets(p@, list@, OFF_MOOD as int, data@, mood, i, 0);
                }
            }
            write_each(p, &list, OFF_MOOD, &data)
        },
        Err(e) => {
            proof {
                complaint_means_unsound(p@, slots(p@), e@);
            }
            0
        },
    }
}

proof fn complaint_means_unsound(m: crate::process::Memory, list: Seq<u64>, e: Seq<char>)
    requires
        first_complaint(m, list, e),
    ensures
        !sound(m, list),
{
}

/// Counter `k` of the item use counters.
pub open spec fn counter_at(m: crate::process::Memory, arr: u64, k: int) -> u8 {
    m.u8_at(crate::process::at(arr, k))
}

proof fn one_counter(m: crate::process::Memory, arr: u64, k: int)
    requires
        0 <= k < 0x110,
        m.accepts(crate::process::at(arr, 3), 7),
    ensures
        counter_at(m.poke(crate::process::at(arr, 3), Seq::new(7, |i: int| 0u8)), arr, k) == if 3
            <= k <= 9 {
            0
        } else {
            counter_at(m, arr, k)
        },
{
    let a = crate::process::at(arr, 3);
    let b = crate::process::at(arr, k);
    let d = Seq::new(7, |i: int| 0u8);
    let n = m.poke(a, d);
    if 3 <= k <= 9 {
        crate::process::read_after_write(m, a, d);
        assert(b == crate::process::at(a, k - 3));
        assert(n.cells.dom().contains(crate::process::at(a, k - 3)));
        assert(n.bytes(a, 7)[k - 3] == 0);
        assert(crate::process::at(b, 0) == b);
        assert(n.holds(b, 1));
        assert(n.bytes(b, 1)[0] == 0);
    } else {
        assert(crate::process::Memory::offset(a, crate::process::at(b, 0)) >= 7);
        crate::process::write_keeps_the_rest(m, a, d, b, 1);
    }
}

/// Sets the item use counters back to zero. Only those of the items are
/// touched; the others count other things.
pub fn clear_star_item_uses(p: &mut Proc) -> (res: bool)
    ensures
        res ==> forall|k: int|
            #![trigger counter_at(final(p)@, counters(old(p)@)->0, k)]
            0 <= k < 0x110 ==> counter_at(final(p)@, counters(old(p)@)->0, k) == if 3 <= k <= 9 {
                0
            } else {
                counter_at(old(p)@, counters(old(p)@)->0, k)
            },
        match counters(old(p)@) {
            Some(arr) => {
                let a = crate::process::at(arr, STAR_USE_RANGE.0 as int);
                let zeros = Seq::new(7, |i: int| 0u8);
                &&& res == old(p)@.accepts(a, 7)
                &&& final(p)@ == old(p)@.poke(a, zeros)
            },
            None => !res && final(p)@ == old(p)@,
        },
{
    match star_use_array(p) {
        Some(arr) => {
            let zeros: [u8; 7] = [0, 0, 0, 0, 0, 0, 0];
            assert(zeros@ =~= Seq::new(7, |i: int| 0u8));
            proof {
                let a = crate::process::at(arr, 3);
                if p@.accepts(a, 7) {
                    assert forall|k: int| 0 <= k < 0x110 implies #[trigger] counter_at(
                        p@.poke(a, zeros@),
                        arr,
                        k,
                    ) == if 3 <= k <= 9 {
                        0
                    } else {
                        counter_at(p@, arr, k)
                    } by {
                        one_counter(p@, arr, k);
                    }
                }
            }
            p.write(arr.wrapping_add(STAR_USE_RANGE.0 as u64), &zeros)
        },
        None => false,
    }
}

/// No player of a sound roster is missing or there twice, and all have names.
pub proof fn sound_rosters_have_distinct_players(m: crate::process::Memory, i: int, j: int)
    requires
        sound(m, slots(m)),
        0 <= i < j < slots(m).len(),
    ensures
        slots(m)[i] != 0,
        slots(m)[i] != slots(m)[j],
        crate::text::is_sane(crate::text::name_at(m, slots(m)[i])),
{
    assert(complaint(m, slots(m), i) is None);
    assert(complaint(m, slots(m), j) is None);
}

proof fn full_entries(m: crate::process::Memory, k: int)
    requires
        forall|i: int| 0 <= i < slots(m).len() ==> #[trigger] slots(m)[i] != 0,
        0 <= k <= slots(m).len(),
    ensures
        entries(m, modeobj(m), k) == slots(m).take(k),
    decreases k,
{
    if k > 0 {
        full_entries(m, k - 1);
        assert(slots(m)[k - 1] != 0);
        assert(slots(m).take(k) =~= slots(m).take(k - 1).push(slots(m)[k - 1]));
    } else {
        assert(slots(m).take(0) =~= seq![]);
    }
}

/// A sound roster has no empty entry, so it is the roster that is listed.
pub proof fn sound_roster_is_the_listed_one(m: crate::process::Memory)
    requires
        sound(m, slots(m)),
    ensures
        slots(m) == roster(m),
{
    assert forall|i: int| 0 <= i < slots(m).len() implies #[trigger] slots(m)[i] != 0 by {
        assert(complaint(m, slots(m), i) is None);
    }
    full_entries(m, slots(m).len() as int);
    assert(slots(m).take(slots(m).len() as int) =~= slots(m));
}

/// One empty entry is enough for a roster to be refused.
pub proof fn empty_entry_is_refused(m: crate::process::Memory, i: int)
    requires
        0 <= i < slots(m).len(),
        slots(m)[i] == 0,
    ensures
        !sound(m, slots(m)),
{
    assert(complaint(m, slots(m), i) is Some);
}

/// Outside the mode there is no roster, there are no recruits and there are no
/// items.
pub proof fn nothing_outside_the_mode(m: crate::process::Memory, region: int)
    requires
        modeobj(m) == 0,
    ensures
        roster(m).len() == 0,
        slots(m).len() == 0,
        region_recruits(m, region).len() == 0,
        item_obj(m) is None,
        !sound(m, slots(m)),
{
}

/// Clearing the item use counters leaves every other counter as it was.
pub proof fn only_item_counters_are_cleared(m: crate::process::Memory, k: int)
    requires
        counters(m) is Some,
        0 <= k < STAR_USE_N,
        k < STAR_USE_RANGE.0 || k > STAR_USE_RANGE.1,
    ensures
        ({
            let arr = counters(m)->0;
            let n = m.poke(
                crate::process::at(arr, STAR_USE_RANGE.0 as int),
                Seq::new(7, |i: int| 0u8),
            );
            n.u8_at(crate::process::at(arr, k)) == m.u8_at(crate::process::at(arr, k))
        }),
{
    let arr = counters(m)->0;
    let a = crate::process::at(arr, STAR_USE_RANGE.0 as int);
    let b = crate::process::at(arr, k);
    assert(crate::process::Memory::offset(a, crate::process::at(b, 0)) >= 7);
    crate::process::write_keeps_the_rest(m, a, Seq::new(7, |i: int| 0u8), b, 1);
}

/// A list of players is fit for changes just where it has one to 128 players,
/// none of them missing, none there twice, and all with sane names.
pub proof fn what_makes_a_roster_sound(m: crate::process::Memory, list: Seq<u64>)
    ensures
        sound(m, list) <==> {
            &&& 0 < list.len() <= 128
            &&& forall|i: int| 0 <= i < list.len() ==> #[trigger] list[i] != 0
            &&& list.no_duplicates()
            &&& forall|i: int|
                0 <= i < list.len() ==> crate::text::is_sane(
                    crate::text::name_at(m, #[trigger] list[i]),
                )
        },
{
    if sound(m, list) {
        assert forall|i: int| 0 <= i < list.len() implies #[trigger] list[i] != 0
            && crate::text::is_sane(crate::text::name_at(m, list[i])) by {
            assert(complaint(m, list, i) is None);
        }
        assert forall|i: int, j: int| 0 <= i < list.len() && 0 <= j < list.len() && i
            != j implies list[i] != list[j] by {
            assert(complaint(m, list, i) is None);
            assert(complaint(m, list, j) is None);
        }
    }
    if 0 < list.len() <= 128 && (forall|i: int| 0 <= i < list.len() ==> #[trigger] list[i] != 0)
        && list.no_duplicates() && forall|i: int|
        0 <= i < list.len() ==> crate::text::is_sane(crate::text::name_at(m, #[trigger] list[i])) {
        assert forall|i: int| 0 <= i < list.len() implies (#[trigger] complaint(
            m,
            list,
            i,
        )) is None by {
            assert(list[i] != 0);
        }
    }
}

proof fn entries_are_the_taken_slots(m: crate::process::Memory, k: int)
    requires
        0 <= k <= slots(m).len(),
    ensures
        entries(m, modeobj(m), k) == slots(m).take(k).filter(|o: u64| o != 0),
    decreases k,
{
    reveal(Seq::filter);
    if k > 0 {
        entries_are_the_taken_slots(m, k - 1);
        assert(slots(m).take(k).drop_last() =~= slots(m).take(k - 1));
    }
}

/// The roster has every entry that is not empty, in order: as many entries as
/// the mode says, if those can be right.
pub proof fn roster_has_every_player(m: crate::process::Memory, i: int)
    requires
        modeobj(m) != 0,
        0 <= i < m.u32_at(modeobj(m).wrapping_add(KOSHIEN_COUNT)) <= 512,
    ensures
        roster(m) == slots(m).filter(|o: u64| o != 0),
        slots(m).len() == m.u32_at(modeobj(m).wrapping_add(KOSHIEN_COUNT)),
        slots(m)[i] == m.u64_at(
            crate::process::at(modeobj(m).wrapping_add(KOSHIEN_ARRAY), 8 * i),
        ),
{
    let n = slots(m).len() as int;
    entries_are_the_taken_slots(m, n);
    assert(slots(m).take(n) =~= slots(m));
}

proof fn recruits_so_far(m: crate::process::Memory, mode: u64, region: int, n: int)
    requires
        0 <= n <= 10,
    ensures
        ({
            let r = recruits(m, mode, region, n);
            &&& forall|j: int|
                0 <= j < r.len() ==> {
                    let x = #[trigger] r[j];
                    &&& x.0 < n
                    &&& x.1 == candidate(m, mode, region, x.0 as int)
                    &&& x.2 == x.1.wrapping_add(RECRUIT_PLAYER_FROM_CANDIDATE)
                    &&& is_recruit(m, x.1)
                }
            &&& forall|j: int, k: int| 0 <= j < k < r.len() ==> (#[trigger] r[j]).0 < (#[trigger] r[k]).0
            &&& forall|i: int|
                0 <= i < n && is_recruit(m, #[trigger] candidate(m, mode, region, i)) ==> exists|j: int|
                    0 <= j < r.len() && (#[trigger] r[j]).0 == i
        }),
    decreases n,
{
    if n > 0 {
        recruits_so_far(m, mode, region, n - 1);
        let (r, s) = (recruits(m, mode, region, n), recruits(m, mode, region, n - 1));
        assert forall|i: int| 0 <= i < n && is_recruit(
            m,
            #[trigger] candidate(m, mode, region, i),
        ) implies exists|j: int| 0 <= j < r.len() && (#[trigger] r[j]).0 == i by {
            if i < n - 1 {
                let j = choose|j: int| 0 <= j < s.len() && (#[trigger] s[j]).0 == i;
                assert(r[j].0 == i);
            } else {
                assert(r[r.len() - 1].0 == i);
            }
        }
    }
}

/// Every recruit of a region is listed once, in order, with its number among the
/// ten and its player object: each that is there and has a sane name other than
/// the one of a recruit that the game has not set up yet.
pub proof fn every_recruit_is_listed(m: crate::process::Memory, region: int, i: int, j: int)
    requires
        0 <= region < 49,
        m.base != 0,
        modeobj(m) >= 0x10000,
        0 <= i < 10,
        0 <= j < region_recruits(m, region).len(),
    ensures
        ({
            let r = region_recruits(m, region);
            let c = candidate(m, modeobj(m), region, i);
            let name = crate::text::name_at(m, c.wrapping_add(0x18));
            &&& (exists|k: int| 0 <= k < r.len() && (#[trigger] r[k]).0 == i && r[k].1 == c) <==> (c
                >= 0x10000 && crate::text::is_sane(name) && crate::text::trimmed(name)
                != "未初期化"@)
            &&& r[j].2 == r[j].1.wrapping_add(0x18)
            &&& r[j].0 < 10
            &&& j > 0 ==> r[j - 1].0 < r[j].0
        }),
{
    recruits_so_far(m, modeobj(m), region, 10);
    let r = region_recruits(m, region);
    let c = candidate(m, modeobj(m), region, i);
    if is_recruit(m, c) {
        let k = choose|k: int| 0 <= k < r.len() && (#[trigger] r[k]).0 == i;
        assert(r[k].1 == c);
    }
    if exists|k: int| 0 <= k < r.len() && (#[trigger] r[k]).0 == i && r[k].1 == c {
        let k = choose|k: int| 0 <= k < r.len() && (#[trigger] r[k]).0 == i && r[k].1 == c;
        assert(is_recruit(m, r[k].1));
    }
}

/// Shared items that were set to a number from 1 to 999 are found again where
/// they stood, as long as the newer place does not look like items too.
pub proof fn set_items_are_found_again(m: crate::process::Memory, val: u32)
    requires
        shared_items(m) is Some,
        1 <= val <= 999,
        m.accepts(shared_items(m)->0, 196),
    ensures
        items_at(m.poke(shared_items(m)->0, repeated(val, 49)), shared_items(m)->0),
{
    let a = shared_items(m)->0;
    let d = repeated(val, 49);
    crate::process::read_after_write(m, a, d);
    crate::bytes::le_undoes_bytes(val, 0, 0);
    assert forall|i: int| 0 <= i < 49 implies #[trigger] crate::bytes::le32(d, 4 * i) == val by {
        let w = crate::bytes::bytes32(val);
        assert(d[4 * i] == w[0] && d[4 * i + 1] == w[1] && d[4 * i + 2] == w[2] && d[4 * i + 3]
            == w[3]);
    }
    let z: int = 0;
    assert(crate::bytes::le32(d, 4 * z) == val);
}

/// Shared items are looked for in the newer place first, and taken only where
/// none of the 49 numbers is above 999 and some are above 0.
pub proof fn where_items_are_taken(m: crate::process::Memory, a: u64, i: int)
    requires
        shared_items(m) == Some(a),
        0 <= i < 49,
    ensures
        a == m.base.wrapping_add(0x19AECCE0) || (a == m.base.wrapping_add(0x1974D280) && !items_at(
            m,
            m.base.wrapping_add(0x19AECCE0),
        )),
        number_at(m, a, i) <= 999,
        exists|j: int| 0 <= j < 49 && #[trigger] number_at(m, a, j) > 0,
{
    let b = m.bytes(a, 196);
    assert(SHARED_ITEMS_CANDS@[0] == 0x19AECCE0 && SHARED_ITEMS_CANDS@[1] == 0x1974D280);
    assert forall|j: int| 0 <= j < 49 implies #[trigger] number_at(m, a, j) == crate::bytes::le32(
        b,
        4 * j,
    ) by {
        let c = crate::process::at(a, 4 * j);
        assert forall|k: int| 0 <= k < 4 implies m.cells.dom().contains(
            #[trigger] crate::process::at(c, k),
        ) && m.cells[crate::process::at(c, k)].byte == b[4 * j + k] by {
            assert(crate::process::at(c, k) == crate::process::at(a, 4 * j + k));
            assert(m.cells.dom().contains(crate::process::at(a, 4 * j + k)));
        }
        let w = m.bytes(c, 4);
        assert(w[0] == b[4 * j] && w[1] == b[4 * j + 1] && w[2] == b[4 * j + 2] && w[3] == b[4 * j
            + 3]);
    }
    let j = choose|j: int| 0 <= j < SHARED_ITEM_N && #[trigger] crate::bytes::le32(b, 4 * j) > 0;
    assert(number_at(m, a, j) > 0);
    assert(number_at(m, a, i) == crate::bytes::le32(b, 4 * i));
}

} // verus!

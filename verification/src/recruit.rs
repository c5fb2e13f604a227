//! Code patches for recruiting: how often a talent turns up, and that every
//! recruit says yes.

use vstd::prelude::*;
use vstd::string::*;

use crate::bytes::{put32, to_pattern};
use crate::digits::push_decimal;
use crate::process::Proc;

verus! {

/// Where in the main module a random number is compared with the talent rate.
pub const TALENT_RATE_PATCH_RVA: u64 = 0x5E2BF37;

/// The game's own talent rate.
pub const TALENT_RATE_DEFAULT: u8 = 1;

/// Where in the main module the recruiting rate is computed.
pub const RECRUIT_RATE_PATCH_RVA: u64 = 0x65C6542;

/// The instruction that stands there.
pub const RECRUIT_RATE_ORIG: [u8; 5] = [0xBF, 0x63, 0x00, 0x00, 0x00];

/// How far apart two places for a cave are.
pub const CAVE_STEP: u64 = 0x0100_0000;

/// How many places are tried: up to 0x70 steps, above and below.
pub const CAVE_TRIES: usize = 224;

/// Size of a cave.
pub const CAVE_SIZE: usize = 0x1000;

/// The cave that a patch jumps to: in which process, and where. And how many
/// places were tried so far.
pub struct Cave {
    pub record: Option<(u32, u64)>,
    pub tries: usize,
}

/// What is to be done next about the recruiting patch.
pub enum RateAction {
    /// The patch is as it should be.
    Done,
    /// The patch was not changed, and this is why.
    Fail(String),
    /// Ask for a page at this address, fetch it if it was granted, and report.
    Ask(u64),
    /// Give this page back, and report that none was granted.
    Release(u64),
    /// Give this page back. The patch is as it should be.
    ReleaseDone(u64),
    /// Give this page back. The patch was not changed, and this is why.
    ReleaseFail(u64, String),
}

/// Where the talent rate is compared.
pub open spec fn talent_site(m: crate::process::Memory) -> u64 {
    m.base.wrapping_add(TALENT_RATE_PATCH_RVA)
}

/// The talent rate, in percent.
pub open spec fn talent_percent(m: crate::process::Memory) -> Option<u8> {
    match m.fetch(talent_site(m), 3) {
        Some(b) => if b[0] == 0x83 && b[1] == 0xF8 && b[2] <= 100 {
            Some(b[2])
        } else {
            None
        },
        None => None,
    }
}

/// Why the talent rate cannot be set, before anything is written.
pub open spec fn talent_refusal(m: crate::process::Memory, rate: u8) -> Option<Seq<char>> {
    if rate > 100 {
        Some("天才出現機率必須介於 0～100"@)
    } else {
        match m.fetch(talent_site(m), 3) {
            None => Some("讀不到天才機率 patch 位址"@),
            Some(b) => if b[0] != 0x83 || b[1] != 0xF8 {
                Some("天才機率 patch 位址驗證失敗：exe+0x5E2BF37 不是預期的 cmp eax,imm8"@)
            } else if b[2] > 100 {
                Some("天才機率目前值異常："@ + crate::digits::decimal(b[2] as nat))
            } else {
                None
            },
        }
    }
}

/// The talent rate, in percent. Unknown where the instruction is not the one
/// that is expected.
pub fn talent_rate(p: &Proc) -> (res: Option<u8>)
    ensures
        res == talent_percent(p@),
{
    match p.read(p.base.wrapping_add(TALENT_RATE_PATCH_RVA), 3) {
        Some(b) => if b[0] == 0x83 && b[1] == 0xF8 && b[2] <= 100 {
            Some(b[2])
        } else {
            None
        },
        None => None,
    }
}

/// Sets the talent rate, in percent.
pub fn set_talent_rate(p: &mut Proc, rate: u8) -> (res: Result<(), String>)
    ensures
        res is Ok <==> rate <= 100 && talent_percent(old(p)@) is Some,
        res is Ok ==> talent_percent(final(p)@) == Some(rate),
        res is Err ==> final(p)@ == old(p)@,
        ({
            let m = old(p)@;
            let a = crate::process::at(talent_site(m), 2);
            match talent_refusal(m, rate) {
                Some(e) => {
                    &&& final(p)@ == m
                    &&& res is Err
                    &&& res->Err_0@ == e
                },
                None => {
                    &&& res is Ok
                    &&& final(p)@ == m.stored(a, seq![rate], true)
                },
            }
        }),
{
    if rate > 100 {
        return Err("天才出現機率必須介於 0～100".to_owned());
    }
    let site = p.base.wrapping_add(TALENT_RATE_PATCH_RVA);
    let cur = match p.read(site, 3) {
        Some(b) => b,
        None => {
            return Err("讀不到天才機率 patch 位址".to_owned());
        },
    };
    if cur[0] != 0x83 || cur[1] != 0xF8 {
        return Err(
            "天才機率 patch 位址驗證失敗：exe+0x5E2BF37 不是預期的 cmp eax,imm8".to_owned(),
        );
    }
    if cur[2] > 100 {
        let mut s = "天才機率目前值異常：".to_owned();
        push_decimal(&mut s, cur[2] as u64);
        return Err(s);
    }
    let data: [u8; 1] = [rate];
    assert(data@ =~= seq![rate]);
    proof {
        talent_rate_is_read_back(p@, rate);
        let a = crate::process::at(site, 2);
        assert(p@.cells.dom().contains(crate::process::at(site, 2)));
        assert(forall|i: int| 0 <= i < 1 ==> #[trigger] crate::process::at(a, i) == a);
    }
    if !p.write_code(site.wrapping_add(2), &data) {
        return Err("無法寫入天才出現機率".to_owned());
    }
    Ok(())
}

/// Where the recruiting rate is computed.
pub open spec fn rate_site(m: crate::process::Memory) -> u64 {
    m.base.wrapping_add(RECRUIT_RATE_PATCH_RVA)
}

/// The instruction after the one that is patched.
pub open spec fn after_site(m: crate::process::Memory) -> u64 {
    rate_site(m).wrapping_add(5)
}

/// The distance can be jumped.
pub open spec fn near(d: int) -> bool {
    -0x8000_0000 <= d <= 0x7FFF_FFFF
}

/// A jump over the distance `d`, counted from its end.
pub open spec fn jump(d: int) -> Seq<u8> {
    seq![0xE9u8] + crate::bytes::bytes32(crate::bytes::pattern(d as i32))
}

/// How far it is from the end of the cave's code back.
pub open spec fn way_back(m: crate::process::Memory, cave: u64) -> int {
    after_site(m) - cave.wrapping_add(15)
}

/// The code in a cave: sets the rate to 100, does what the patched instruction
/// did, and jumps back.
pub open spec fn cave_code(m: crate::process::Memory, cave: u64) -> Seq<u8> {
    seq![0xBEu8, 0x64u8, 0u8, 0u8, 0u8, 0xBFu8, 0x63u8, 0u8, 0u8, 0u8] + jump(way_back(m, cave))
}

/// The place for a cave that is tried after `k` others.
pub open spec fn cave_place(base: u64, k: int) -> u64 {
    let d = ((k / 2 + 1) * CAVE_STEP) as u64;
    if k % 2 == 0 {
        base.wrapping_add(d)
    } else {
        base.wrapping_sub(d)
    }
}

/// The patch is in place in process `pid`.
pub open spec fn patched(record: Option<(u32, u64)>, pid: u32) -> bool {
    record is Some && (record->0).0 == pid
}

/// Why the recruiting patch cannot be made, before a cave is asked for.
pub open spec fn rate_refusal(m: crate::process::Memory) -> Option<Seq<char>> {
    match m.fetch(rate_site(m), 5) {
        None => Some("讀不到招募機率 patch 位址"@),
        Some(b) => if b != RECRUIT_RATE_ORIG@ {
            Some("招募機率 patch 位址驗證失敗：exe+0x65C6542 不是預期指令"@)
        } else {
            None
        },
    }
}

/// Whether this patch was made in the process.
pub fn recruit_rate_100_enabled(c: &Cave, p: &Proc) -> (res: bool)
    ensures
        res == patched(c.record, p@.pid),
{
    match c.record {
        Some((pid, _)) => pid == p.pid,
        None => false,
    }
}

/// Takes the recruiting patch back. Only a patch that was made here is taken
/// back: the page to give back is returned, `None` where there is no patch.
pub fn reset_recruit_rate_patch(c: &mut Cave, p: &mut Proc) -> (res: Result<Option<u64>, String>)
    ensures
        res is Ok && res->Ok_0 is Some ==> final(p)@.fetch(rate_site(old(p)@), 5) == Some(
            seq![0xBFu8, 0x63, 0, 0, 0],
        ),
        res is Ok ==> !patched(final(c).record, old(p)@.pid),
        ({
            let m = old(p)@;
            if !patched(old(c).record, m.pid) {
                &&& res == Ok::<Option<u64>, String>(None)
                &&& final(p)@ == m
                &&& *final(c) == *old(c)
            } else if m.holds(rate_site(m), 5) {
                &&& res == Ok::<Option<u64>, String>(Some((old(c).record->0).1))
                &&& final(p)@ == m.stored(rate_site(m), RECRUIT_RATE_ORIG@, true)
                &&& *final(c) == (Cave { record: None, tries: old(c).tries })
            } else {
                &&& res is Err
                &&& res->Err_0@ == "無法還原招募機率原始指令"@
                &&& final(p)@ == m
                &&& *final(c) == *old(c)
            }
        }),
{
    let (pid, cave) = match c.record {
        Some(r) => r,
        None => {
            return Ok(None);
        },
    };
    if pid != p.pid {
        return Ok(None);
    }
    let site = p.base.wrapping_add(RECRUIT_RATE_PATCH_RVA);
    proof {
        if p@.holds(site, 5) {
            reset_restores_the_instruction(p@);
            assert(RECRUIT_RATE_ORIG@ =~= seq![0xBFu8, 0x63, 0, 0, 0]);
        }
    }
    if !p.write_code(site, &RECRUIT_RATE_ORIG) {
        return Err("無法還原招募機率原始指令".to_owned());
    }
    c.record = None;
    Ok(Some(cave))
}

/// The next place to ask for a cave, or the end of the search.
fn ask_next(c: &mut Cave, base: u64) -> (res: RateAction)
    ensures
        if old(c).tries < CAVE_TRIES {
            &&& res == RateAction::Ask(cave_place(base, old(c).tries as int))
            &&& *final(c) == (Cave {
                record: old(c).record,
                tries: (old(c).tries + 1) as usize,
            })
        } else {
            &&& res is Fail
            &&& res->Fail_0@ == "無法在招募機率程式碼附近配置 code cave"@
            &&& *final(c) == *old(c)
        },
{
    if c.tries >= CAVE_TRIES {
        return RateAction::Fail("無法在招募機率程式碼附近配置 code cave".to_owned());
    }
    let k: u64 = c.tries as u64;
    let d: u64 = (k / 2 + 1) * CAVE_STEP;
    let addr: u64 = if k % 2 == 0 {
        base.wrapping_add(d)
    } else {
        base.wrapping_sub(d)
    };
    c.tries = c.tries + 1;
    RateAction::Ask(addr)
}

/// What asking for the first cave says.
pub open spec fn asks_first(base: u64, res: RateAction, c: Cave) -> bool {
    &&& res == RateAction::Ask(cave_place(base, 0))
    &&& c == (Cave { record: None, tries: 1 })
}

/// Starts to make the recruiting patch, or takes it back. A record of another
/// process is dropped.
pub fn set_recruit_rate_100(c: &mut Cave, p: &mut Proc, enable: bool) -> (res: RateAction)
    ensures
        ({
            let m = old(p)@;
            let on = patched(old(c).record, m.pid);
            if !enable && !on {
                res is Done && final(p)@ == m && *final(c) == *old(c)
            } else if !enable {
                if m.holds(rate_site(m), 5) {
                    &&& res == RateAction::ReleaseDone((old(c).record->0).1)
                    &&& final(p)@ == m.stored(rate_site(m), RECRUIT_RATE_ORIG@, true)
                    &&& *final(c) == (Cave { record: None, tries: old(c).tries })
                } else {
                    &&& res is Fail
                    &&& res->Fail_0@ == "無法還原招募機率原始指令"@
                    &&& final(p)@ == m
                    &&& *final(c) == *old(c)
                }
            } else if on {
                res is Done && final(p)@ == m && *final(c) == *old(c)
            } else {
                &&& final(p)@ == m
                &&& match rate_refusal(m) {
                    Some(e) => {
                        &&& res is Fail
                        &&& res->Fail_0@ == e
                        &&& *final(c) == (Cave { record: None, tries: old(c).tries })
                    },
                    None => asks_first(m.base, res, *final(c)),
                }
            }
        }),
{
    if !enable {
        return match reset_recruit_rate_patch(c, p) {
            Ok(Some(cave)) => RateAction::ReleaseDone(cave),
            Ok(None) => RateAction::Done,
            Err(e) => RateAction::Fail(e),
        };
    }
    if recruit_rate_100_enabled(c, p) {
        return RateAction::Done;
    }
    c.record = None;
    let site = p.base.wrapping_add(RECRUIT_RATE_PATCH_RVA);
    let cur = match p.read(site, 5) {
        Some(b) => b,
        None => {
            return RateAction::Fail("讀不到招募機率 patch 位址".to_owned());
        },
    };
    let same = cur[0] == RECRUIT_RATE_ORIG[0] && cur[1] == RECRUIT_RATE_ORIG[1] && cur[2]
        == RECRUIT_RATE_ORIG[2] && cur[3] == RECRUIT_RATE_ORIG[3] && cur[4] == RECRUIT_RATE_ORIG[4];
    assert(same == (cur@ =~= RECRUIT_RATE_ORIG@));
    if !same {
        return RateAction::Fail(
            "招募機率 patch 位址驗證失敗：exe+0x65C6542 不是預期指令".to_owned(),
        );
    }
    c.tries = 0;
    ask_next(c, p.base)
}

fn jump_bytes(d: i64) -> (res: Vec<u8>)
    requires
        near(d as int),
    ensures
        res@ == jump(d as int),
{
    let mut out: Vec<u8> = vec![0xE9];
    let mut tail = put32(to_pattern(d as i32));
    out.append(&mut tail);
    assert(out@ =~= jump(d as int));
    out
}

/// The distance from `b` to `a`, if it can be jumped.
fn distance(a: u64, b: u64) -> (res: Option<i64>)
    ensures
        match res {
            Some(d) => d == a - b && near(a - b),
            None => !near(a - b),
        },
{
    let d: i128 = a as i128 - b as i128;
    if d >= -0x8000_0000 && d <= 0x7FFF_FFFF {
        Some(d as i64)
    } else {
        None
    }
}

/// What is reported about the cave that was asked for: its address, or 0 if
/// none was granted. A cave in reach is filled, and the jump to it written.
pub fn cave_offered(c: &mut Cave, p: &mut Proc, q: u64) -> (res: RateAction)
    ensures
        res is Done ==> patched(final(c).record, old(p)@.pid),
        ({
            let m = old(p)@;
            let code = cave_code(m, q);
            if q == 0 {
                &&& final(p)@ == m
                &&& if old(c).tries < CAVE_TRIES {
                    &&& res == RateAction::Ask(cave_place(m.base, old(c).tries as int))
                    &&& *final(c) == (Cave {
                        record: old(c).record,
                        tries: (old(c).tries + 1) as usize,
                    })
                } else {
                    &&& res is Fail
                    &&& res->Fail_0@ == "無法在招募機率程式碼附近配置 code cave"@
                    &&& *final(c) == *old(c)
                }
            } else if !near(q - after_site(m)) {
                res == RateAction::Release(q) && final(p)@ == m && *final(c) == *old(c)
            } else if !near(way_back(m, q)) {
                &&& res is ReleaseFail
                &&& res->ReleaseFail_0 == q
                &&& res->ReleaseFail_1@ == "code cave 回跳距離超出 rel32"@
                &&& final(p)@ == m
                &&& *final(c) == *old(c)
            } else if !m.accepts(q, 15) {
                &&& res is ReleaseFail
                &&& res->ReleaseFail_0 == q
                &&& res->ReleaseFail_1@ == "無法寫入招募機率 code cave"@
                &&& final(p)@ == m
                &&& *final(c) == *old(c)
            } else if !m.holds(rate_site(m), 5) {
                &&& res is ReleaseFail
                &&& res->ReleaseFail_0 == q
                &&& res->ReleaseFail_1@ == "無法啟用招募機率 patch"@
                &&& final(p)@ == m.stored(q, code, false)
                &&& *final(c) == *old(c)
            } else {
                &&& res is Done
                &&& final(p)@ == m.stored(q, code, false).stored(
                    rate_site(m),
                    jump(q - after_site(m)),
                    true,
                )
                &&& *final(c) == (Cave { record: Some((m.pid, q)), tries: old(c).tries })
            }
        }),
{
    if q == 0 {
        return ask_next(c, p.base);
    }
    let ghost m = p@;
    let site = p.base.wrapping_add(RECRUIT_RATE_PATCH_RVA);
    let next = site.wrapping_add(5);
    let rel: i64 = match distance(q, next) {
        Some(d) => d,
        None => {
            return RateAction::Release(q);
        },
    };
    let back: i64 = match distance(next, q.wrapping_add(15)) {
        Some(d) => d,
        None => {
            return RateAction::ReleaseFail(q, "code cave 回跳距離超出 rel32".to_owned());
        },
    };
    let mut code: Vec<u8> = vec![0xBE, 0x64, 0, 0, 0, 0xBF, 0x63, 0, 0, 0];
    let mut tail = jump_bytes(back);
    code.append(&mut tail);
    assert(code@ =~= cave_code(m, q));
    if !p.write(q, &code) {
        return RateAction::ReleaseFail(q, "無法寫入招募機率 code cave".to_owned());
    }
    proof {
        crate::process::write_keeps_access(m, q, code@, site, 5);
    }
    let jmp = jump_bytes(rel);
    if !p.write_code(site, &jmp) {
        return RateAction::ReleaseFail(q, "無法啟用招募機率 patch".to_owned());
    }
    c.record = Some((p.pid, q));
    RateAction::Done
}

/// A rate that was set is the rate that is read.
pub proof fn talent_rate_is_read_back(m: crate::process::Memory, rate: u8)
    requires
        talent_refusal(m, rate) is None,
    ensures
        talent_percent(
            m.stored(crate::process::at(talent_site(m), 2), seq![rate], true),
        ) == Some(rate),
{
    let site = talent_site(m);
    let a = crate::process::at(site, 2);
    let n = m.stored(a, seq![rate], true);
    assert forall|i: int| 0 <= i < 3 implies n.cells.dom().contains(
        #[trigger] crate::process::at(site, i),
    ) && n.cells[crate::process::at(site, i)].byte == if i == 2 {
        rate
    } else {
        m.bytes(site, 3)[i]
    } by {
        assert(m.cells.dom().contains(crate::process::at(site, i)));
        if i == 2 {
            assert(crate::process::Memory::offset(a, crate::process::at(site, i)) == 0);
        } else {
            assert(crate::process::Memory::offset(a, crate::process::at(site, i)) >= 1);
        }
    }
    let b = n.bytes(site, 3);
    assert(b[0] == m.bytes(site, 3)[0] && b[1] == m.bytes(site, 3)[1] && b[2] == rate);
}

/// The jump at the patched place leads to the cave, and the jump at the end of
/// the cave leads to the instruction after the patched place.
pub proof fn jumps_meet(m: crate::process::Memory, cave: u64)
    requires
        near(cave - after_site(m)),
        near(way_back(m, cave)),
        cave <= u64::MAX - 15,
    ensures
        ({
            let there = jump(cave - after_site(m));
            let back = cave_code(m, cave);
            &&& there.len() == 5
            &&& back.len() == 15
            &&& after_site(m) + crate::bytes::signed(crate::bytes::le32(there, 1)) == cave
            &&& cave + 15 + crate::bytes::signed(crate::bytes::le32(back, 11)) == after_site(m)
        }),
{
    let d = (cave - after_site(m)) as i32;
    let e = way_back(m, cave) as i32;
    let there = jump(cave - after_site(m));
    let back = cave_code(m, cave);
    crate::bytes::le_undoes_bytes(crate::bytes::pattern(d), 0, d);
    crate::bytes::le_undoes_bytes(crate::bytes::pattern(e), 0, e);
    let pd = crate::bytes::bytes32(crate::bytes::pattern(d));
    let pe = crate::bytes::bytes32(crate::bytes::pattern(e));
    assert(there[1] == pd[0] && there[2] == pd[1] && there[3] == pd[2] && there[4] == pd[3]);
    assert(back[11] == pe[0] && back[12] == pe[1] && back[13] == pe[2] && back[14] == pe[3]);
}

/// Taking the patch back leaves the instruction that stood there.
pub proof fn reset_restores_the_instruction(m: crate::process::Memory)
    requires
        m.holds(rate_site(m), 5),
    ensures
        ({
            let n = m.stored(rate_site(m), RECRUIT_RATE_ORIG@, true);
            &&& n.fetch(rate_site(m), 5) == Some(RECRUIT_RATE_ORIG@)
            &&& rate_refusal(n) is None
        }),
{
    let site = rate_site(m);
    let n = m.stored(site, RECRUIT_RATE_ORIG@, true);
    assert forall|i: int| 0 <= i < 5 implies n.cells.dom().contains(
        #[trigger] crate::process::at(site, i),
    ) && n.cells[crate::process::at(site, i)].byte == RECRUIT_RATE_ORIG@[i] by {
        assert(m.cells.dom().contains(crate::process::at(site, i)));
        assert(crate::process::Memory::offset(site, crate::process::at(site, i)) == i);
    }
    assert(n.bytes(site, 5) =~= RECRUIT_RATE_ORIG@);
}

/// The code in a cave loads 100 into the register of the rate, does what the
/// patched instruction did, and ends in a jump.
pub proof fn cave_code_gives_full_rate(m: crate::process::Memory, cave: u64)
    ensures
        ({
            let code = cave_code(m, cave);
            &&& code.len() == 15
            &&& code[0] == 0xBE
            &&& crate::bytes::le32(code, 1) == 100
            &&& code.subrange(5, 10) == RECRUIT_RATE_ORIG@
            &&& code[10] == 0xE9
            &&& jump(cave - after_site(m))[0] == 0xE9
        }),
{
    let code = cave_code(m, cave);
    assert(code.subrange(5, 10) =~= RECRUIT_RATE_ORIG@);
}

/// Caves are looked for on both sides of the game's code, nearer ones first, and
/// no place is tried twice.
pub proof fn cave_places_go_outwards(base: u64, j: int, k: int)
    requires
        0 <= j < k < 224,
    ensures
        ({
            let (x, y) = (cave_place(base, j), cave_place(base, k));
            let away = |a: u64|
                if a.wrapping_sub(base) <= base.wrapping_sub(a) {
                    a.wrapping_sub(base)
                } else {
                    base.wrapping_sub(a)
                };
            &&& x != y
            &&& 0 < away(x) <= away(y) <= 0x7000_0000
            &&& away(y) % 0x100_0000 == 0
            &&& away(cave_place(base, 0)) == 0x100_0000
        }),
{
    let d = ((k / 2 + 1) * CAVE_STEP) as u64;
    let e = ((j / 2 + 1) * CAVE_STEP) as u64;
    assert(0x100_0000 <= e <= d <= 0x7000_0000);
}

} // verus!

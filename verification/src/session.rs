//! What an editing session knows: the mode, the list of players and the chosen
//! one, and when these have to be read again.

use vstd::prelude::*;
use vstd::string::*;

use crate::digits::push_decimal;
use crate::growth::{growth_struct_for, GROWTH_FROM_PLAYER};
use crate::koshien::koshien_roster;
use crate::library::{merge_player_into_lib, merge_recs_into_lib, LibEntry};
use crate::offsets::{OFF_NAME, OFF_PACK, OFF_STATS, PLAYER_READ};
use crate::player::{is_player, Player};
use crate::process::{Memory, Proc};
use crate::research::{is_still_there, still_there};
use crate::roster::{rebuild_dups, tells_apart, Dups};
use crate::text::sane_name;
use crate::traits::Outcome;

verus! {

/// Where the list of players comes from.
#[derive(Clone, Copy, Debug, PartialEq, Eq, Structural)]
pub enum Mode {
    /// The roster of the school mode.
    Koshien,
    /// All player objects in memory.
    Scan,
    /// The star players, found by their growth structures.
    Star,
}

/// How the roster of the school mode is listed.
#[derive(Clone, Copy, Debug, PartialEq, Eq, Structural)]
pub enum KoshienRosterView {
    /// By position and strength.
    Sorted,
    /// As the game lists it.
    Raw,
}

/// What a scan in the background has to say.
pub enum ScanMsg {
    /// So much of so much is done.
    Progress(u64, u64),
    Done(Vec<Player>),
    Failed(String),
}

/// What is due for the roster of the school mode.
#[derive(Clone, Copy, Debug, PartialEq, Eq, Structural)]
pub enum Refresh {
    /// Nothing, now or later.
    Rest,
    /// Look for the roster again.
    Retry,
    /// Look for the roster again, but later.
    RetryLater,
    /// See whether the roster is still the one that is listed.
    Check,
    /// See about it later.
    CheckLater,
}

/// Milliseconds between two looks for a roster that is not there yet.
pub const RETRY_MS: u64 = 1000;

/// Milliseconds between two checks of a roster that is there.
pub const CHECK_MS: u64 = 5000;

/// The state of a session.
pub struct Session {
    pub mode: Mode,
    pub list: Vec<Player>,
    /// The chosen entry of the list.
    pub sel: Option<usize>,
    /// The chosen player as it was last read or edited.
    pub cur: Option<Player>,
    /// The growth structure of the chosen player.
    pub growth_base: Option<u64>,
    pub dups: Dups,
    /// Why the game is not attached.
    pub err: String,
    pub status: String,
    pub scanning: bool,
    pub scan_prog: (u64, u64),
}

/// The addresses among `objs` at which a player object can be read.
pub open spec fn readable(m: Memory, objs: Seq<u64>) -> Seq<u64> {
    objs.filter(|o: u64| m.fetch(o, PLAYER_READ as int) is Some)
}

/// `pl` is what the player object at `a` says.
pub open spec fn player_at(m: Memory, a: u64, pl: Player) -> bool {
    m.fetch(a, PLAYER_READ as int) is Some && is_player(m.fetch(a, PLAYER_READ as int)->0, a, pl)
}

/// `list` holds the player objects at some addresses.
pub open spec fn players_at(m: Memory, at: Seq<u64>, list: Seq<Player>) -> bool {
    &&& list.len() == at.len()
    &&& forall|i: int| 0 <= i < at.len() ==> player_at(m, at[i], #[trigger] list[i])
}

/// The player object that a growth structure belongs to is that of a player.
pub open spec fn is_star(m: Memory, g: u64) -> bool {
    &&& g >= GROWTH_FROM_PLAYER
    &&& m.fetch((g - GROWTH_FROM_PLAYER) as u64, PLAYER_READ as int) is Some
    &&& crate::text::is_sane(
        crate::text::name_in(m.bytes((g - GROWTH_FROM_PLAYER) as u64, PLAYER_READ as int)),
    )
}

/// Two objects hold the same name, abilities and speed.
pub open spec fn same_star(m: Memory, a: u64, b: u64) -> bool {
    let (x, y) = (m.bytes(a, PLAYER_READ as int), m.bytes(b, PLAYER_READ as int));
    &&& crate::text::name_in(x) == crate::text::name_in(y)
    &&& x.subrange(OFF_STATS as int, OFF_STATS + 8) == y.subrange(OFF_STATS as int, OFF_STATS + 8)
    &&& crate::bytes::le16(x, OFF_PACK as int) % 128 == crate::bytes::le16(y, OFF_PACK as int) % 128
}

/// The star players that the first `k` growth structures belong to. One that is
/// the same as the one before it is left out.
pub open spec fn stars(m: Memory, structs: Seq<u64>, k: int) -> Seq<u64>
    decreases k,
{
    if k <= 0 {
        seq![]
    } else {
        let rest = stars(m, structs, k - 1);
        let g = structs[k - 1];
        let a = (g - GROWTH_FROM_PLAYER) as u64;
        if !is_star(m, g) || (rest.len() > 0 && same_star(m, rest.last(), a)) {
            rest
        } else {
            rest.push(a)
        }
    }
}

/// `cur` is what the object at `a` says, if it can be read.
pub open spec fn reads_as(m: Memory, a: u64, cur: Option<Player>) -> bool {
    match cur {
        Some(pl) => player_at(m, a, pl),
        None => m.fetch(a, PLAYER_READ as int) is None,
    }
}

/// The roster is no longer the one that is listed: other objects, or another
/// name in the first of them. A roster that is not there for the moment does
/// not count.
pub open spec fn has_moved(m: Memory, objs: Seq<u64>, list: Seq<Player>) -> bool {
    &&& objs.len() > 0
    &&& {
        ||| objs.len() != list.len()
        ||| exists|i: int| 0 <= i < objs.len() && i < list.len() && #[trigger] objs[i] != list[i].addr
        ||| list.len() > 0 && !crate::research::still_there(m, objs[0], list[0].name@)
    }
}

/// Reads the player objects of a list of addresses.
pub fn load_all(p: &Proc, objs: &Vec<u64>) -> (res: Vec<Player>)
    ensures
        players_at(p@, readable(p@, objs@), res@),
{
    let ghost m = p@;
    let ghost keep = |o: u64| m.fetch(o, PLAYER_READ as int) is Some;
    let mut out: Vec<Player> = Vec::new();
    let mut i: usize = 0;
    assert(objs@.take(0).filter(keep) =~= Seq::<u64>::empty()) by {
        reveal(Seq::filter);
    }
    while i < objs.len()
        invariant
            i <= objs@.len(),
            m == p@,
            keep == (|o: u64| m.fetch(o, PLAYER_READ as int) is Some),
            players_at(m, objs@.take(i as int).filter(keep), out@),
        decreases objs@.len() - i,
    {
        let ghost upto = objs@.take(i as int).filter(keep);
        proof {
            reveal(Seq::filter);
            assert(objs@.take(i + 1).drop_last() =~= objs@.take(i as int));
        }
        let got = Player::load(p, objs[i]);
        if let Some(pl) = got {
            proof {
                one_more_player(m, upto, out@, objs@[i as int], pl);
            }
            out.push(pl);
            assert(objs@.take(i + 1).filter(keep) == upto.push(objs@[i as int]));
        } else {
            assert(objs@.take(i + 1).filter(keep) == upto);
        }
        i += 1;
    }
    assert(objs@.take(i as int) =~= objs@);
    out
}

fn same_eight(a: &[u8; 8], b: &[u8; 8]) -> (res: bool)
    ensures
        res == (a@ == b@),
{
    let mut i: usize = 0;
    while i < 8
        invariant
            i <= 8,
            forall|j: int| 0 <= j < i ==> a@[j] == b@[j],
        decreases 8 - i,
    {
        if a[i] != b[i] {
            return false;
        }
        i += 1;
    }
    assert(a@ =~= b@);
    true
}

/// Two players have the same name, abilities and speed.
pub open spec fn same_fields(x: Player, y: Player) -> bool {
    x.name@ == y.name@ && x.stats@ == y.stats@ && x.speed == y.speed
}

fn are_same(x: &Player, y: &Player) -> (res: bool)
    ensures
        res == same_fields(*x, *y),
{
    x.name == y.name && same_eight(&x.stats, &y.stats) && x.speed == y.speed
}

proof fn fields_show_the_star(m: Memory, a: u64, b: u64, x: Player, y: Player)
    requires
        is_player(m.bytes(a, PLAYER_READ as int), a, x),
        is_player(m.bytes(b, PLAYER_READ as int), b, y),
    ensures
        same_fields(x, y) == same_star(m, a, b),
{
}

proof fn one_more_player(m: Memory, at: Seq<u64>, list: Seq<Player>, a: u64, pl: Player)
    requires
        players_at(m, at, list),
        player_at(m, a, pl),
    ensures
        players_at(m, at.push(a), list.push(pl)),
{
    let (at2, list2) = (at.push(a), list.push(pl));
    assert forall|j: int| 0 <= j < at2.len() implies player_at(
        m,
        at2[j],
        #[trigger] list2[j],
    ) by {
        if j < at.len() {
            assert(at2[j] == at[j]);
            assert(list2[j] == list[j]);
        }
    }
}

/// The object of a growth structure, if it is that of a player.
fn star_of(p: &Proc, g: u64) -> (res: Option<Player>)
    ensures
        match res {
            Some(pl) => {
                let a = (g - GROWTH_FROM_PLAYER) as u64;
                &&& is_star(p@, g)
                &&& is_player(p@.fetch(a, PLAYER_READ as int)->0, a, pl)
            },
            None => !is_star(p@, g),
        },
{
    if g < GROWTH_FROM_PLAYER {
        return None;
    }
    match Player::load(p, g - GROWTH_FROM_PLAYER) {
        Some(pl) => if sane_name(pl.name.as_str()) {
            Some(pl)
        } else {
            None
        },
        None => None,
    }
}

/// The star players that growth structures belong to.
pub fn star_players(p: &Proc, structs: &Vec<u64>) -> (res: Vec<Player>)
    ensures
        players_at(p@, stars(p@, structs@, structs@.len() as int), res@),
{
    let ghost m = p@;
    let mut out: Vec<Player> = Vec::new();
    let mut i: usize = 0;
    while i < structs.len()
        invariant
            i <= structs@.len(),
            m == p@,
            players_at(m, stars(m, structs@, i as int), out@),
        decreases structs@.len() - i,
    {
        let ghost rest = stars(m, structs@, i as int);
        let g: u64 = structs[i];
        let ghost a = (g - GROWTH_FROM_PLAYER) as u64;
        if let Some(pl) = star_of(p, g) {
            let n: usize = out.len();
            let same = n > 0 && are_same(&out[n - 1], &pl);
            proof {
                if n > 0 {
                    assert(rest.last() == rest[n - 1]);
                    assert(out@[n - 1] == out@.last());
                    fields_show_the_star(m, rest.last(), a, out@[n - 1], pl);
                }
                if !same {
                    one_more_player(m, rest, out@, a, pl);
                }
            }
            if !same {
                out.push(pl);
            }
        }
        i += 1;
    }
    out
}

/// Whether the roster is no longer the one that is listed.
pub fn roster_moved(p: &Proc, list: &Vec<Player>) -> (res: bool)
    ensures
        res == has_moved(p@, crate::koshien::roster(p@), list@),
{
    let objs = koshien_roster(p);
    if objs.len() == 0 {
        return false;
    }
    if objs.len() != list.len() {
        return true;
    }
    let mut i: usize = 0;
    while i < objs.len()
        invariant
            i <= objs@.len() == list@.len(),
            objs@ == crate::koshien::roster(p@),
            forall|j: int| 0 <= j < i ==> #[trigger] objs@[j] == list@[j].addr,
        decreases objs@.len() - i,
    {
        if objs[i] != list[i].addr {
            assert(objs@[i as int] != list@[i as int].addr);
            return true;
        }
        i += 1;
    }
    !is_still_there(p, objs[0], &list[0].name)
}

/// What is said of a game that was attached.
pub open spec fn attached_text(before: Option<u32>, pid: u32) -> Seq<char> {
    match before {
        Some(o) => "遊戲已重開（pid "@ + crate::digits::decimal(o as nat) + " → "@
            + crate::digits::decimal(pid as nat) + "），已自動重新附加"@,
        None => "已附加 pid "@ + crate::digits::decimal(pid as nat),
    }
}

/// A text with a number of people in it.
pub open spec fn people_text(front: Seq<char>, n: nat) -> Seq<char> {
    front + crate::digits::decimal(n) + " 人）"@
}

/// What is said of a write.
pub open spec fn write_text(ok: bool, what: Seq<char>) -> Seq<char> {
    if ok {
        "已寫入 "@ + what + "　※切到別的選手再切回來畫面才會重畫"@
    } else {
        "✗ 寫入失敗："@ + what + "（位址可能已失效，按「重新整理」）"@
    }
}

/// What is said of pitches that were collected into the library.
pub open spec fn collected_text(mode: Mode, n: nat, total: nat, dst: Seq<char>) -> Seq<char> {
    let more = if mode == Mode::Scan {
        ""@
    } else {
        "　※ 切到「明星選手(全掃)」再按一次可以蒐集到更多"@
    };
    if n == 0 {
        "球種庫沒有新增（這些球種都已經在庫裡了）—— 目前共 "@ + crate::digits::decimal(total)
            + " 筆"@ + more
    } else {
        "✓ 球種庫新增 "@ + crate::digits::decimal(n) + " 筆，目前共 "@ + crate::digits::decimal(
            total,
        ) + " 筆 → "@ + dst + more
    }
}

/// What is due for the roster, given how long ago the last look for it and the
/// last check of it were.
pub fn refresh_step(mode: Mode, listed: bool, since_retry: u64, since_check: u64) -> (res: Refresh)
    ensures
        res == if mode != Mode::Koshien {
            Refresh::Rest
        } else if !listed && since_retry >= RETRY_MS {
            Refresh::Retry
        } else if !listed {
            Refresh::RetryLater
        } else if since_check >= CHECK_MS {
            Refresh::Check
        } else {
            Refresh::CheckLater
        },
{
    if mode != Mode::Koshien {
        return Refresh::Rest;
    }
    if !listed {
        if since_retry >= RETRY_MS {
            Refresh::Retry
        } else {
            Refresh::RetryLater
        }
    } else if since_check >= CHECK_MS {
        Refresh::Check
    } else {
        Refresh::CheckLater
    }
}

/// After how many milliseconds to look again. A game that has gone is looked
/// for as often as a roster that is not there.
pub fn next_look(step: Refresh, alive: bool) -> (res: Option<u64>)
    ensures
        res == match step {
            Refresh::Rest => None,
            Refresh::Retry => Some(RETRY_MS),
            Refresh::RetryLater => Some(RETRY_MS),
            Refresh::Check => Some(
                if alive {
                    CHECK_MS
                } else {
                    RETRY_MS
                },
            ),
            Refresh::CheckLater => Some(CHECK_MS),
        },
{
    match step {
        Refresh::Rest => None,
        Refresh::Retry => Some(RETRY_MS),
        Refresh::RetryLater => Some(RETRY_MS),
        Refresh::Check => Some(
            if alive {
                CHECK_MS
            } else {
                RETRY_MS
            },
        ),
        Refresh::CheckLater => Some(CHECK_MS),
    }
}

/// What is said of a write.
pub fn write_status(ok: bool, what: &str) -> (res: String)
    ensures
        res@ == write_text(ok, what@),
{
    let mut s = if ok {
        "已寫入 ".to_owned()
    } else {
        "✗ 寫入失敗：".to_owned()
    };
    s.append(what);
    if ok {
        s.append("　※切到別的選手再切回來畫面才會重畫");
    } else {
        s.append("（位址可能已失效，按「重新整理」）");
    }
    s
}

fn people(front: &str, n: usize) -> (res: String)
    ensures
        res@ == people_text(front@, n as nat),
{
    let mut s = front.to_owned();
    push_decimal(&mut s, n as u64);
    s.append(" 人）");
    s
}

/// What is said of pitches that were collected and saved at `dst`.
pub fn collected_status(mode: Mode, n: usize, total: usize, dst: &str) -> (res: String)
    ensures
        res@ == collected_text(mode, n as nat, total as nat, dst@),
{
    let more: &str = if mode == Mode::Scan {
        ""
    } else {
        "　※ 切到「明星選手(全掃)」再按一次可以蒐集到更多"
    };
    if n == 0 {
        let mut s = "球種庫沒有新增（這些球種都已經在庫裡了）—— 目前共 ".to_owned();
        push_decimal(&mut s, total as u64);
        s.append(" 筆");
        s.append(more);
        s
    } else {
        let mut s = "✓ 球種庫新增 ".to_owned();
        push_decimal(&mut s, n as u64);
        s.append(" 筆，目前共 ");
        push_decimal(&mut s, total as u64);
        s.append(" 筆 → ");
        s.append(dst);
        s.append(more);
        s
    }
}

/// The game as a list can be told apart by it.
pub open spec fn game_of(p: Option<&Proc>) -> Option<Memory> {
    match p {
        Some(p) => Some(p@),
        None => None,
    }
}

/// Whether the player at hand may be edited: the game is attached, and the
/// object still belongs to that player. Anything else would be written into
/// somebody else's object.
pub fn may_edit(p: Option<&Proc>, cur: &Player) -> (res: bool)
    ensures
        res == (p is Some && still_there(p->0@, cur.addr, cur.name@)),
{
    match p {
        Some(p) => is_still_there(p, cur.addr, &cur.name),
        None => false,
    }
}

impl Session {
    /// A session that has just begun.
    pub fn new() -> (res: Session)
        ensures
            res.mode == Mode::Koshien,
            res.list@.len() == 0,
            res.sel is None,
            res.cur is None,
            res.growth_base is None,
            tells_apart(res.list@, None, res.dups),
            res.err@.len() == 0,
            res.status@.len() == 0,
            !res.scanning,
            res.scan_prog == (0u64, 0u64),
    {
        Session {
            mode: Mode::Koshien,
            list: Vec::new(),
            sel: None,
            cur: None,
            growth_base: None,
            dups: Dups { rep: Vec::new(), count: Vec::new(), owner: Vec::new() },
            err: String::new(),
            status: String::new(),
            scanning: false,
            scan_prog: (0, 0),
        }
    }

    /// Takes note of an attempt to attach the game anew, `before` being the
    /// program that was attached, and says whether it is attached. Without a
    /// game there is nothing to list.
    pub fn attached(&mut self, before: Option<u32>, got: Result<u32, String>) -> (res: bool)
        ensures
            res == got is Ok,
            match got {
                Ok(pid) => {
                    &&& *final(self) == (Session {
                        status: final(self).status,
                        err: final(self).err,
                        ..*old(self)
                    })
                    &&& final(self).status@ == attached_text(before, pid)
                    &&& final(self).err@.len() == 0
                },
                Err(e) => {
                    &&& *final(self) == (Session {
                        err: e,
                        sel: None,
                        cur: None,
                        list: final(self).list,
                        ..*old(self)
                    })
                    &&& final(self).list@.len() == 0
                },
            },
    {
        match got {
            Ok(pid) => {
                let mut s = String::new();
                match before {
                    Some(o) => {
                        s.append("遊戲已重開（pid ");
                        push_decimal(&mut s, o as u64);
                        s.append(" → ");
                        push_decimal(&mut s, pid as u64);
                        s.append("），已自動重新附加");
                    },
                    None => {
                        s.append("已附加 pid ");
                        push_decimal(&mut s, pid as u64);
                    },
                }
                assert(s@ =~= attached_text(before, pid));
                self.status = s;
                self.err = String::new();
                true
            },
            Err(e) => {
                self.err = e;
                self.sel = None;
                self.cur = None;
                self.list = Vec::new();
                false
            },
        }
    }

    /// Lists the roster of the school mode.
    pub fn list_roster(&mut self, p: &Proc)
        ensures
            *final(self) == (Session {
                list: final(self).list,
                dups: final(self).dups,
                status: final(self).status,
                sel: None,
                cur: None,
                ..*old(self)
            }),
            players_at(p@, readable(p@, crate::koshien::roster(p@)), final(self).list@),
            tells_apart(final(self).list@, Some(p@), final(self).dups),
            final(self).status@ == if crate::koshien::roster(p@).len() == 0 {
                "讀不到部員名單 —— 現在不在栄冠(高中)模式? 可改用「明星選手(掃描)」"@
            } else {
                old(self).status@
            },
            crate::koshien::roster(p@).len() > 0 ==> final(self).status == old(self).status,
    {
        let objs = koshien_roster(p);
        if objs.len() == 0 {
            self.status =
            "讀不到部員名單 —— 現在不在栄冠(高中)模式? 可改用「明星選手(掃描)」".to_owned();
        }
        self.list = load_all(p, &objs);
        self.sel = None;
        self.cur = None;
        self.dups = rebuild_dups(&self.list, Some(p));
    }

    /// Takes note that a scan is to begin, and says whether it may: one at a
    /// time.
    pub fn start_scan(&mut self, fast: bool) -> (res: bool)
        ensures
            res == !old(self).scanning,
            if old(self).scanning {
                *final(self) == *old(self)
            } else {
                &&& *final(self) == (Session {
                    scanning: true,
                    scan_prog: (0, 1),
                    status: final(self).status,
                    ..*old(self)
                })
                &&& final(self).status@ == if fast {
                    "找主角中（約 5 秒）…"@
                } else {
                    "掃描中（約 100 秒）…"@
                }
            },
    {
        if self.scanning {
            return false;
        }
        self.scanning = true;
        self.scan_prog = (0, 1);
        self.status = if fast {
            "找主角中（約 5 秒）…".to_owned()
        } else {
            "掃描中（約 100 秒）…".to_owned()
        };
        true
    }

    /// Reads the list again in the way of the mode. In the modes that scan it
    /// says what scan is to begin, `Some(true)` being the one for the star
    /// players alone, unless one is going on already.
    pub fn reload_list(&mut self, p: &Proc) -> (res: Option<bool>)
        ensures
            tells_apart(final(self).list@, Some(p@), final(self).dups),
            ({
                let a = *old(self);
                let b = *final(self);
                if a.mode == Mode::Koshien {
                    let objs = crate::koshien::roster(p@);
                    &&& res is None
                    &&& b == (Session {
                        list: b.list,
                        dups: b.dups,
                        status: b.status,
                        sel: None,
                        cur: None,
                        ..a
                    })
                    &&& players_at(p@, readable(p@, objs), b.list@)
                    &&& if objs.len() == 0 {
                        b.status@
                            == "讀不到部員名單 —— 現在不在栄冠(高中)模式? 可改用「明星選手(掃描)」"@
                    } else {
                        b.status == a.status
                    }
                } else if a.scanning {
                    res is None && b == (Session { dups: b.dups, ..a })
                } else {
                    let fast = a.mode == Mode::Star;
                    &&& res == Some(fast)
                    &&& b == (Session {
                        scanning: true,
                        scan_prog: (0, 1),
                        status: b.status,
                        dups: b.dups,
                        ..a
                    })
                    &&& b.status@ == if fast {
                        "找主角中（約 5 秒）…"@
                    } else {
                        "掃描中（約 100 秒）…"@
                    }
                }
            }),
    {
        let fast = match self.mode {
            Mode::Koshien => {
                self.list_roster(p);
                return None;
            },
            Mode::Scan => false,
            Mode::Star => true,
        };
        let begins = self.start_scan(fast);
        self.dups = rebuild_dups(&self.list, Some(p));
        if begins {
            Some(fast)
        } else {
            None
        }
    }

    /// Takes note of what a scan has to say. The list is complete only when the
    /// scan has ended.
    pub fn scan_news(&mut self, msg: ScanMsg, p: Option<&Proc>)
        ensures
            match msg {
                ScanMsg::Progress(d, t) => *final(self) == (Session {
                    scan_prog: (
                        d,
                        if t == 0 {
                            1
                        } else {
                            t
                        },
                    ),
                    ..*old(self)
                }),
                ScanMsg::Done(v) => {
                    &&& *final(self) == (Session {
                        list: v,
                        sel: None,
                        cur: None,
                        scanning: false,
                        status: final(self).status,
                        dups: final(self).dups,
                        ..*old(self)
                    })
                    &&& final(self).status@ == "掃描完成，找到 "@ + crate::digits::decimal(
                        v@.len(),
                    ) + " 位選手"@
                    &&& tells_apart(v@, game_of(p), final(self).dups)
                },
                ScanMsg::Failed(e) => {
                    &&& *final(self) == (Session {
                        scanning: false,
                        status: e,
                        dups: final(self).dups,
                        ..*old(self)
                    })
                    &&& tells_apart(old(self).list@, game_of(p), final(self).dups)
                },
            },
    {
        match msg {
            ScanMsg::Progress(d, t) => {
                self.scan_prog = (
                    d,
                    if t == 0 {
                        1
                    } else {
                        t
                    },
                );
            },
            ScanMsg::Done(v) => {
                let mut s = "掃描完成，找到 ".to_owned();
                push_decimal(&mut s, v.len() as u64);
                s.append(" 位選手");
                self.status = s;
                self.list = v;
                self.sel = None;
                self.cur = None;
                self.scanning = false;
                self.dups = rebuild_dups(&self.list, p);
            },
            ScanMsg::Failed(e) => {
                self.status = e;
                self.scanning = false;
                self.dups = rebuild_dups(&self.list, p);
            },
        }
    }

    /// Reads the chosen player again. Without a game or a choice nothing
    /// changes.
    pub fn reload_current(&mut self, p: Option<&Proc>)
        ensures
            ({
                let a = *old(self);
                let b = *final(self);
                if p is Some && a.sel is Some && a.sel->0 < a.list@.len() {
                    let obj = a.list@[a.sel->0 as int].addr;
                    &&& b == (Session { cur: b.cur, growth_base: b.growth_base, ..a })
                    &&& reads_as(p->0@, obj, b.cur)
                    &&& b.growth_base == crate::growth::growth_of(p->0@, obj)
                } else {
                    b == a
                }
            }),
    {
        if let (Some(p), Some(i)) = (p, self.sel) {
            if i < self.list.len() {
                let obj = self.list[i].addr;
                self.cur = Player::load(p, obj);
                self.growth_base = growth_struct_for(p, obj);
            }
        }
    }

    /// Chooses an entry of the list and reads its player.
    pub fn select(&mut self, i: usize, p: Option<&Proc>)
        ensures
            ({
                let a = *old(self);
                let b = *final(self);
                if p is Some && i < a.list@.len() {
                    let obj = a.list@[i as int].addr;
                    &&& b == (Session {
                        sel: Some(i),
                        cur: b.cur,
                        growth_base: b.growth_base,
                        ..a
                    })
                    &&& reads_as(p->0@, obj, b.cur)
                    &&& b.growth_base == crate::growth::growth_of(p->0@, obj)
                } else {
                    b == (Session { sel: Some(i), ..a })
                }
            }),
    {
        self.sel = Some(i);
        self.reload_current(p);
    }

    /// Says what came of an edit, and reads the chosen player again where the
    /// edit asks for it.
    pub fn note_edit(&mut self, o: &Outcome, p: Option<&Proc>)
        ensures
            ({
                let a = *old(self);
                let b = *final(self);
                &&& b.status@ == write_text(o.ok, o.what@)
                &&& if o.reload && p is Some && a.sel is Some && a.sel->0 < a.list@.len() {
                    let obj = a.list@[a.sel->0 as int].addr;
                    &&& b == (Session {
                        status: b.status,
                        cur: b.cur,
                        growth_base: b.growth_base,
                        ..a
                    })
                    &&& reads_as(p->0@, obj, b.cur)
                    &&& b.growth_base == crate::growth::growth_of(p->0@, obj)
                } else {
                    b == (Session { status: b.status, ..a })
                }
            }),
    {
        self.status = write_status(o.ok, o.what.as_str());
        if o.reload {
            self.reload_current(p);
        }
    }

    /// Gives the chosen entry of the list the position that was just written,
    /// so that the list shows it without being read again.
    pub fn note_pos(&mut self, pos: u8)
        ensures
            ({
                let a = *old(self);
                let b = *final(self);
                &&& b == (Session { list: b.list, ..a })
                &&& if a.sel is Some && a.sel->0 < a.list@.len() {
                    let i = a.sel->0 as int;
                    b.list@ == a.list@.update(i, (Player { pos, ..a.list@[i] }))
                } else {
                    b.list == a.list
                }
            }),
    {
        if let Some(i) = self.sel {
            if i < self.list.len() {
                self.list[i].pos = pos;
            }
        }
    }

    /// Says that the roster was found by itself, if it was.
    pub fn note_found(&mut self)
        ensures
            *final(self) == (Session { status: final(self).status, ..*old(self) }),
            if old(self).list@.len() > 0 {
                final(self).status@ == people_text("已自動取得榮冠部員名單（"@, old(self).list@.len())
            } else {
                final(self).status == old(self).status
            },
    {
        if self.list.len() > 0 {
            self.status = people("已自動取得榮冠部員名單（", self.list.len());
        }
    }

    /// Says that the roster has changed and was read again, if it was.
    pub fn note_moved(&mut self)
        ensures
            *final(self) == (Session { status: final(self).status, ..*old(self) }),
            if old(self).list@.len() > 0 {
                final(self).status@ == people_text(
                    "偵測到榮冠名單更新，已自動重新載入（"@,
                    old(self).list@.len(),
                )
            } else {
                final(self).status == old(self).status
            },
    {
        if self.list.len() > 0 {
            self.status = people("偵測到榮冠名單更新，已自動重新載入（", self.list.len());
        }
    }

    /// Collects the original pitches of the listed players and of the chosen
    /// one into the library, and says how many are new.
    pub fn collect_lib(&self, lib: &mut Vec<LibEntry>) -> (res: usize)
        ensures
            ({
                let first = crate::library::merged(crate::library::views(old(lib)@), self.list@);
                crate::library::views(final(lib)@) == match self.cur {
                    Some(c) => crate::library::merged(first, seq![c]),
                    None => first,
                }
            }),
            res == final(lib)@.len() - old(lib)@.len(),
    {
        let before: usize = lib.len();
        let _ = merge_recs_into_lib(lib, self.list.as_slice());
        if let Some(c) = &self.cur {
            let _ = merge_player_into_lib(lib, c);
        }
        lib.len() - before
    }
}

proof fn name_in_object(m: Memory, a: u64)
    requires
        m.fetch(a, PLAYER_READ as int) is Some,
    ensures
        crate::text::name_at(m, a) == crate::text::name_in(m.bytes(a, PLAYER_READ as int)),
{
    let b = m.bytes(a, PLAYER_READ as int);
    let to = crate::process::at(a, OFF_NAME as int);
    assert forall|i: int| 0 <= i < 64 implies m.cells.dom().contains(
        #[trigger] crate::process::at(to, i),
    ) && m.cells[crate::process::at(to, i)].byte == b[OFF_NAME + i] by {
        assert(crate::process::at(to, i) == crate::process::at(a, OFF_NAME + i));
        assert(m.cells.dom().contains(crate::process::at(a, OFF_NAME + i)));
    }
    assert(m.bytes(to, 64) =~= b.subrange(OFF_NAME as int, OFF_NAME + 64));
    assert(crate::text::name_window(b) =~= m.bytes(to, 64));
}

/// A roster that was just listed in full, its first name being sane, has not
/// moved: the list is read again only when the game has changed.
pub proof fn listed_roster_has_not_moved(m: Memory, objs: Seq<u64>, list: Seq<Player>)
    requires
        players_at(m, objs, list),
        objs.len() > 0 ==> crate::text::is_sane(crate::text::name_at(m, objs[0])),
    ensures
        !has_moved(m, objs, list),
{
    assert forall|i: int| 0 <= i < objs.len() implies #[trigger] objs[i] == list[i].addr by {
        assert(player_at(m, objs[i], list[i]));
    }
    if objs.len() > 0 {
        assert(player_at(m, objs[0], list[0]));
        name_in_object(m, objs[0]);
    }
}

/// Every listed star is the player object of a growth structure, with a name that
/// can be one, and no two that follow each other are the same.
pub proof fn listed_stars_are_players(m: Memory, structs: Seq<u64>, k: int, j: int) -> (i: int)
    requires
        0 <= k <= structs.len(),
        0 <= j < stars(m, structs, k).len(),
    ensures
        0 <= i < k,
        structs[i] == stars(m, structs, k)[j] + GROWTH_FROM_PLAYER,
        m.fetch(stars(m, structs, k)[j], PLAYER_READ as int) is Some,
        crate::text::is_sane(
            crate::text::name_in(m.bytes(stars(m, structs, k)[j], PLAYER_READ as int)),
        ),
        j > 0 ==> !same_star(m, stars(m, structs, k)[j - 1], stars(m, structs, k)[j]),
    decreases k,
{
    let rest = stars(m, structs, k - 1);
    let all = stars(m, structs, k);
    if j < rest.len() {
        assert(all[j] == rest[j]);
        if j > 0 {
            assert(all[j - 1] == rest[j - 1]);
        }
        listed_stars_are_players(m, structs, k - 1, j)
    } else {
        if j > 0 {
            assert(all[j - 1] == rest.last());
        }
        k - 1
    }
}

/// Every player object of a growth structure whose name can be one is listed, or
/// one that holds the same name, abilities and speed is.
pub proof fn every_star_is_listed(m: Memory, structs: Seq<u64>, k: int, i: int) -> (j: int)
    requires
        0 <= i < k <= structs.len(),
        structs[i] >= GROWTH_FROM_PLAYER,
        m.fetch((structs[i] - GROWTH_FROM_PLAYER) as u64, PLAYER_READ as int) is Some,
        crate::text::is_sane(
            crate::text::name_in(
                m.bytes((structs[i] - GROWTH_FROM_PLAYER) as u64, PLAYER_READ as int),
            ),
        ),
    ensures
        0 <= j < stars(m, structs, k).len(),
        ({
            let a = (structs[i] - GROWTH_FROM_PLAYER) as u64;
            stars(m, structs, k)[j] == a || same_star(m, stars(m, structs, k)[j], a)
        }),
    decreases k,
{
    let rest = stars(m, structs, k - 1);
    let all = stars(m, structs, k);
    if i < k - 1 {
        let j = every_star_is_listed(m, structs, k - 1, i);
        assert(all[j] == rest[j]);
        j
    } else if rest.len() > 0 && same_star(m, rest.last(), (structs[i] - GROWTH_FROM_PLAYER) as u64) {
        rest.len() - 1
    } else {
        rest.len() as int
    }
}

/// Two star players are the same just if they have the same name, the same eight
/// abilities and the same speed.
pub proof fn same_stars_read_alike(m: Memory, a: u64, b: u64, x: Player, y: Player)
    requires
        player_at(m, a, x),
        player_at(m, b, y),
    ensures
        same_star(m, a, b) <==> x.name@ == y.name@ && x.stats@ == y.stats@ && x.speed == y.speed,
{
    fields_show_the_star(m, a, b, x, y);
}

/// A roster has moved if another object stands where a listed player stood, if
/// players came or went, or if the first of them has another name. One that is
/// not there has not moved.
pub proof fn when_a_roster_has_moved(m: Memory, objs: Seq<u64>, list: Seq<Player>, i: int)
    ensures
        objs.len() == 0 ==> !has_moved(m, objs, list),
        objs.len() > 0 && objs.len() != list.len() ==> has_moved(m, objs, list),
        0 <= i < objs.len() && i < list.len() && objs[i] != list[i].addr ==> has_moved(
            m,
            objs,
            list,
        ),
        objs.len() > 0 && list.len() > 0 && crate::text::name_at(m, objs[0]) != list[0].name@
            ==> has_moved(m, objs, list),
        objs.len() == list.len() && objs.len() > 0 && (forall|k: int|
            0 <= k < objs.len() ==> #[trigger] objs[k] == list[k].addr) && crate::text::name_at(
            m,
            objs[0],
        ) == list[0].name@ && crate::text::is_sane(list[0].name@) ==> !has_moved(m, objs, list),
{
}

} // verus!

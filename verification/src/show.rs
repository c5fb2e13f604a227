//! What is shown: colours, grades, and the texts of rows, labels and reports.

use vstd::prelude::*;
use vstd::string::*;

use crate::digits::{push_decimal, push_hex, push_hex_low, push_hex_up_min};
use crate::fields::pos_name;
use crate::koshien::KOSHIEN_PRACBUFF_DAYS;
use crate::library::LibEntry;
use crate::pattern::{items_patched_at, patch_items_at};
use crate::player::Player;
use crate::process::{Memory, Proc};
use crate::text::{same_text, trim};
use crate::traits::pos_text;

verus! {

/// A colour: red, green and blue.
pub type Colour = (u8, u8, u8);

/// The colour behind a grade, as in the game. What is no grade is grey.
pub open spec fn colour_of_grade(t: Seq<char>) -> Colour {
    if t == "S"@ {
        (238, 238, 238)
    } else if t == "A"@ {
        (246, 168, 208)
    } else if t == "B"@ {
        (240, 112, 112)
    } else if t == "C"@ {
        (246, 160, 62)
    } else if t == "D"@ {
        (240, 205, 72)
    } else if t == "E"@ {
        (182, 220, 92)
    } else if t == "F"@ {
        (122, 190, 240)
    } else if t == "G"@ {
        (184, 162, 212)
    } else {
        (90, 90, 90)
    }
}

/// The colour behind a grade.
pub fn grade_color(t: &str) -> (res: Colour)
    ensures
        res == colour_of_grade(t@),
{
    if same_text(t, "S") {
        (238, 238, 238)
    } else if same_text(t, "A") {
        (246, 168, 208)
    } else if same_text(t, "B") {
        (240, 112, 112)
    } else if same_text(t, "C") {
        (246, 160, 62)
    } else if same_text(t, "D") {
        (240, 205, 72)
    } else if same_text(t, "E") {
        (182, 220, 92)
    } else if same_text(t, "F") {
        (122, 190, 240)
    } else if same_text(t, "G") {
        (184, 162, 212)
    } else {
        (90, 90, 90)
    }
}

/// The colour of a position, as in the game: pitcher, catcher, infield,
/// outfield. What is no position is grey.
pub fn pos_color(v: u8) -> (res: Colour)
    ensures
        res == if v == 0 {
            (235u8, 120u8, 120u8)
        } else if v == 1 {
            (150u8, 160u8, 235u8)
        } else if v <= 5 {
            (225u8, 190u8, 90u8)
        } else if v <= 8 {
            (120u8, 210u8, 130u8)
        } else {
            (160u8, 160u8, 160u8)
        },
{
    if v == 0 {
        (235, 120, 120)
    } else if v == 1 {
        (150, 160, 235)
    } else if v <= 5 {
        (225, 190, 90)
    } else if v <= 8 {
        (120, 210, 130)
    } else {
        (160, 160, 160)
    }
}

/// The grade of an ability.
pub open spec fn grade_letter(v: u8) -> Seq<char> {
    if v < 20 {
        "G"@
    } else if v < 30 {
        "F"@
    } else if v < 40 {
        "E"@
    } else if v < 55 {
        "D"@
    } else if v < 70 {
        "C"@
    } else if v < 80 {
        "B"@
    } else if v < 90 {
        "A"@
    } else {
        "S"@
    }
}

/// The grade of an ability.
pub fn grade_of(v: u8) -> (res: &'static str)
    ensures
        res@ == grade_letter(v),
{
    if v < 20 {
        "G"
    } else if v < 30 {
        "F"
    } else if v < 40 {
        "E"
    } else if v < 55 {
        "D"
    } else if v < 70 {
        "C"
    } else if v < 80 {
        "B"
    } else if v < 90 {
        "A"
    } else {
        "S"
    }
}

/// What a square of the zone chart goes to: one up, and from the top to the
/// bottom.
pub open spec fn square_after(v: int) -> int {
    if v >= 3 {
        -3
    } else {
        v + 1
    }
}

/// What a square of the zone chart goes to.
pub fn zone_next(v: i8) -> (res: i8)
    ensures
        res == square_after(v as int),
{
    if v >= 3 {
        -3
    } else {
        v + 1
    }
}

/// What is shown in a square of the zone chart.
pub open spec fn zone_text(v: i8) -> Seq<char> {
    if v > 0 {
        "▲"@ + crate::digits::decimal(v as nat)
    } else if v < 0 {
        "▼"@ + crate::digits::decimal((-v) as nat)
    } else {
        "0"@
    }
}

/// What is shown in a square of the zone chart.
pub fn zone_label(v: i8) -> (res: String)
    ensures
        res@ == zone_text(v),
{
    if v > 0 {
        let mut s = "▲".to_owned();
        push_decimal(&mut s, v as u64);
        s
    } else if v < 0 {
        let mut s = "▼".to_owned();
        let n: i16 = -(v as i16);
        push_decimal(&mut s, n as u64);
        s
    } else {
        "0".to_owned()
    }
}

/// The colours behind and in a square of the zone chart: hot, cold, neither.
pub fn zone_colors(v: i8) -> (res: (Colour, Colour))
    ensures
        res == if v > 0 {
            ((170u8, 38u8, 38u8), (255u8, 255u8, 255u8))
        } else if v < 0 {
            ((38u8, 68u8, 176u8), (255u8, 255u8, 255u8))
        } else {
            ((48u8, 48u8, 48u8), (190u8, 190u8, 190u8))
        },
{
    if v > 0 {
        ((170, 38, 38), (255, 255, 255))
    } else if v < 0 {
        ((38, 68, 176), (255, 255, 255))
    } else {
        ((48, 48, 48), (190, 190, 190))
    }
}

/// A square of the zone chart stays in its range, and comes back to where it
/// was after seven steps.
pub proof fn squares_go_round(v: int)
    requires
        -3 <= v <= 3,
    ensures
        -3 <= square_after(v) <= 3,
        square_after(
            square_after(
                square_after(square_after(square_after(square_after(square_after(v))))),
            ),
        ) == v,
{
}

/// A number of at least two digits.
pub open spec fn two_digits(n: nat) -> Seq<char> {
    if n < 10 {
        "0"@ + crate::digits::decimal(n)
    } else {
        crate::digits::decimal(n)
    }
}

fn push_two_digits(s: &mut String, n: u64)
    ensures
        final(s)@ == old(s)@ + two_digits(n as nat),
{
    if n < 10 {
        s.append("0");
    }
    push_decimal(s, n);
    assert(s@ =~= old(s)@ + two_digits(n as nat));
}

/// What is shown for a player in a list.
pub open spec fn row_text(pl: Player, copies: nat, star: bool) -> Seq<char> {
    (if star {
        "★ "@ + pl.name@
    } else {
        pl.name@
    }) + if copies > 1 {
        "　×"@ + crate::digits::decimal(copies)
    } else {
        ""@
    }
}

/// What is shown for a player in a list.
pub fn row_label(pl: &Player, copies: usize, star: bool) -> (res: String)
    ensures
        res@ == row_text(*pl, copies as nat, star),
{
    proof {
        reveal_strlit("");
    }
    let mut s = String::new();
    if star {
        s.append("★ ");
    }
    s.append(pl.name.as_str());
    if copies > 1 {
        s.append("　×");
        push_decimal(&mut s, copies as u64);
    }
    assert(s@ =~= row_text(*pl, copies as nat, star));
    s
}

/// What is explained of a player in a list.
pub fn row_hint(pl: &Player, star: bool) -> (res: String)
    ensures
        res@ == "物件 0x"@ + crate::digits::hex(pl.addr as nat) + if star {
            "\n★ 這份帶成長經驗值結構 ＝ 明星選手的主角，編輯要用這份"@
        } else {
            ""@
        },
{
    proof {
        reveal_strlit("");
    }
    let mut s = "物件 0x".to_owned();
    push_hex(&mut s, pl.addr);
    let ghost front = s@;
    if star {
        s.append("\n★ 這份帶成長經驗值結構 ＝ 明星選手的主角，編輯要用這份");
    } else {
        assert(front + ""@ =~= front);
    }
    s
}

/// The number of an entry of the roster.
pub fn roster_number(i: usize) -> (res: String)
    ensures
        res@ == "#"@ + two_digits(i as nat),
{
    let mut s = "#".to_owned();
    push_two_digits(&mut s, i as u64);
    s
}

/// What is explained of an entry of the roster.
pub fn roster_hint(i: usize, pl: &Player) -> (res: String)
    ensures
        res@ == "Roster index #"@ + two_digits(i as nat) + "\n守備位置："@ + pos_text(pl.pos)
            + "\nPlayer Object 0x"@ + crate::digits::hex(pl.addr as nat),
{
    let mut s = "Roster index #".to_owned();
    push_two_digits(&mut s, i as u64);
    s.append("\n守備位置：");
    s.append(pos_name(pl.pos));
    s.append("\nPlayer Object 0x");
    push_hex(&mut s, pl.addr);
    s
}

/// How many are on the roster.
pub fn roster_size_label(n: usize) -> (res: String)
    ensures
        res@ == "Roster 原始順序："@ + crate::digits::decimal(n as nat) + " 人（index 0.."@
            + crate::digits::decimal(
            if n == 0 {
                0
            } else {
                (n - 1) as nat
            },
        ) + "）"@,
{
    let last: usize = if n == 0 {
        0
    } else {
        n - 1
    };
    let mut s = "Roster 原始順序：".to_owned();
    push_decimal(&mut s, n as u64);
    s.append(" 人（index 0..");
    push_decimal(&mut s, last as u64);
    s.append("）");
    s
}

/// What is shown for a team: its name, or the name of its first player.
pub open spec fn team_text(name: Option<Seq<char>>, team: u8, n: nat, first: Seq<char>) -> Seq<char> {
    match name {
        Some(t) => t + "　"@ + crate::digits::decimal(n) + " 人"@,
        None => "隊伍 "@ + crate::digits::decimal(team as nat) + "　"@ + crate::digits::decimal(n)
            + " 人　（"@ + first + "…）"@,
    }
}

/// What is shown for a team.
pub fn team_label(name: Option<&String>, team: u8, n: usize, first: &str) -> (res: String)
    ensures
        res@ == team_text(
            match name {
                Some(t) => Some(t@),
                None => None,
            },
            team,
            n as nat,
            first@,
        ),
{
    match name {
        Some(t) => {
            let mut s = t.clone();
            s.append("　");
            push_decimal(&mut s, n as u64);
            s.append(" 人");
            s
        },
        None => {
            let mut s = "隊伍 ".to_owned();
            push_decimal(&mut s, team as u64);
            s.append("　");
            push_decimal(&mut s, n as u64);
            s.append(" 人　（");
            s.append(first);
            s.append("…）");
            s
        },
    }
}

/// The name of a team, or its number.
pub fn team_title(name: Option<&String>, team: u8) -> (res: String)
    ensures
        res@ == match name {
            Some(t) => t@,
            None => "隊伍 "@ + crate::digits::decimal(team as nat),
        },
{
    match name {
        Some(t) => t.clone(),
        None => {
            let mut s = "隊伍 ".to_owned();
            push_decimal(&mut s, team as u64);
            s
        },
    }
}

/// Where the chosen player stands: on the roster, if there is one, and in
/// memory.
pub fn object_label(roster: Option<usize>, obj: u64) -> (res: String)
    ensures
        res@ == match roster {
            Some(i) => "Roster #"@ + two_digits(i as nat) + "  |  Player Object: 0x"@,
            None => "Player Object: 0x"@,
        } + crate::digits::hex_up_min(obj as nat, 1),
{
    let mut s = String::new();
    match roster {
        Some(i) => {
            s.append("Roster #");
            push_two_digits(&mut s, i as u64);
            s.append("  |  Player Object: 0x");
        },
        None => {
            s.append("Player Object: 0x");
        },
    }
    assert(s@ =~= match roster {
        Some(i) => "Roster #"@ + two_digits(i as nat) + "  |  Player Object: 0x"@,
        None => "Player Object: 0x"@,
    });
    push_hex_up_min(&mut s, obj, 1);
    s
}

/// What is said where an object is no longer that of the chosen player.
pub open spec fn stranger_text(live: Seq<char>, name: Seq<char>) -> Seq<char> {
    let shown = if crate::text::trimmed(live).len() == 0 {
        "（空白）"@
    } else {
        live
    };
    "⚠ 這個位址現在讀到「"@ + shown + "」，不是 "@ + name
        + " —— 遊戲重開或讀過存檔了。\n栄冠：按上方「重新整理」即可。明星選手：要重新掃描一次。"@
}

/// What is said where an object is no longer that of the chosen player.
pub fn stranger_warning(live: &str, name: &str) -> (res: String)
    ensures
        res@ == stranger_text(live@, name@),
{
    let mut s = "⚠ 這個位址現在讀到「".to_owned();
    if trim(live).is_empty() {
        s.append("（空白）");
    } else {
        s.append(live);
    }
    s.append("」，不是 ");
    s.append(name);
    s.append(
        " —— 遊戲重開或讀過存檔了。\n栄冠：按上方「重新整理」即可。明星選手：要重新掃描一次。",
    );
    s
}

/// What is said of having gone over to another copy.
pub fn switched_status(k: usize, obj: u64) -> (res: String)
    requires
        k < usize::MAX,
    ensures
        res@ == "已切到第 "@ + crate::digits::decimal((k + 1) as nat) + " 份副本（物件 0x"@
            + crate::digits::hex(obj as nat) + "）—— 改完切換畫面看看這份有沒有生效"@,
{
    let mut s = "已切到第 ".to_owned();
    push_decimal(&mut s, (k + 1) as u64);
    s.append(" 份副本（物件 0x");
    push_hex(&mut s, obj);
    s.append("）—— 改完切換畫面看看這份有沒有生效");
    s
}

/// How many of the first `k` entries of the library are the players' own.
pub open spec fn own_entries(lib: Seq<LibEntry>, k: int) -> nat
    decreases k,
{
    if k <= 0 {
        0
    } else {
        own_entries(lib, k - 1) + if lib[k - 1].kind@ == "自訂"@ {
            1nat
        } else {
            0nat
        }
    }
}

/// What is said of the library: how many pitches, the game's and the players'
/// own.
pub fn library_label(lib: &Vec<LibEntry>) -> (res: String)
    ensures
        ({
            let n = lib@.len();
            let own = own_entries(lib@, n as int);
            res@ == "球種庫 "@ + crate::digits::decimal(n) + " 筆（官方 "@ + crate::digits::decimal(
                (n - own) as nat,
            ) + "／自訂 "@ + crate::digits::decimal(own) + "）"@
        }),
{
    let mut own: usize = 0;
    let mut i: usize = 0;
    while i < lib.len()
        invariant
            own <= i <= lib@.len(),
            own == own_entries(lib@, i as int),
        decreases lib@.len() - i,
    {
        if same_text(lib[i].kind.as_str(), "自訂") {
            own += 1;
        }
        i += 1;
    }
    let mut s = "球種庫 ".to_owned();
    push_decimal(&mut s, lib.len() as u64);
    s.append(" 筆（官方 ");
    push_decimal(&mut s, (lib.len() - own) as u64);
    s.append("／自訂 ");
    push_decimal(&mut s, own as u64);
    s.append("）");
    s
}

/// The abilities of a player in hexadecimal, the first `k` bytes.
pub open spec fn abil_text(b: Seq<u8>, k: int) -> Seq<char>
    decreases k,
{
    if k <= 0 {
        seq![]
    } else {
        abil_text(b, k - 1) + if k > 1 {
            " "@
        } else {
            ""@
        } + crate::digits::hex_low(b[k - 1] as nat, 2)
    }
}

/// The abilities of a player in hexadecimal.
pub fn abil_dump(b: &[u8; 14]) -> (res: String)
    ensures
        res@ == "現值 "@ + abil_text(b@, 14),
{
    proof {
        reveal_strlit("");
    }
    let mut s = "現值 ".to_owned();
    let ghost front = s@;
    let mut k: usize = 0;
    assert(s@ =~= front + abil_text(b@, 0));
    while k < 14
        invariant
            k <= 14,
            ""@.len() == 0,
            s@ == front + abil_text(b@, k as int),
        decreases 14 - k,
    {
        let ghost before = abil_text(b@, k as int);
        if k > 0 {
            s.append(" ");
        }
        push_hex_low(&mut s, b[k] as u64, 2);
        k += 1;
        assert(s@ =~= front + abil_text(b@, k as int));
    }
    s
}

/// Whether the use of items goes uncounted, as far as is known.
pub open spec fn items_state(m: Option<Memory>, site: Option<u64>) -> Option<bool> {
    match (m, site) {
        (Some(m), Some(a)) => match m.fetch(a, 2) {
            Some(b) => Some(b == crate::pattern::item_bytes(true)),
            None => None,
        },
        _ => None,
    }
}

/// Whether the use of items goes uncounted, the place having been looked for
/// before.
pub fn items_patched(p: Option<&Proc>, site: Option<u64>) -> (res: Option<bool>)
    ensures
        res == items_state(
            match p {
                Some(p) => Some(p@),
                None => None,
            },
            site,
        ),
{
    match (p, site) {
        (Some(p), Some(a)) => items_patched_at(p, a),
        _ => None,
    }
}

/// What is shown on the switch of the item patch.
pub fn items_label(patched: Option<bool>) -> (res: &'static str)
    ensures
        res@ == match patched {
            Some(true) => "明星選手：道具使用不消耗　✔ 生效中"@,
            Some(false) => "明星選手：道具使用不消耗"@,
            None => "明星選手：道具使用不消耗（找不到指令）"@,
        },
{
    match patched {
        Some(true) => "明星選手：道具使用不消耗　✔ 生效中",
        Some(false) => "明星選手：道具使用不消耗",
        None => "明星選手：道具使用不消耗（找不到指令）",
    }
}

/// Switches the item patch over: off where it is on, else on. Says what came of
/// it.
pub fn switch_items(p: &mut Option<Proc>, site: Option<u64>) -> (res: String)
    ensures
        (*final(p)) is Some == (*old(p)) is Some,
        ({
            let m = crate::research::memory_of(*old(p));
            let on = items_state(m, site) != Some(true);
            let ok = m is Some && site is Some && m->0.holds(site->0, 2);
            &&& res@ == "道具使用不消耗 → "@ + if on {
                "開"@
            } else {
                "還原"@
            } + "："@ + if ok {
                "ok"@
            } else {
                "失敗"@
            }
            &&& match (m, site) {
                (Some(m), Some(a)) => (*final(p))->0@ == m.poke_code(
                    a,
                    crate::pattern::item_bytes(on),
                ),
                _ => *final(p) == *old(p),
            }
        }),
{
    let state = match (&*p, site) {
        (Some(p), Some(a)) => items_patched_at(p, a),
        _ => None,
    };
    let on: bool = match state {
        Some(b) => !b,
        None => true,
    };
    let ok = match p {
        Some(p) => match site {
            Some(a) => patch_items_at(p, a, on),
            None => false,
        },
        None => false,
    };
    let mut s = "道具使用不消耗 → ".to_owned();
    if on {
        s.append("開");
    } else {
        s.append("還原");
    }
    s.append("：");
    if ok {
        s.append("ok");
    } else {
        s.append("失敗");
    }
    s
}

/// What is said of the training boost.
pub fn boost_status(done: bool) -> (res: String)
    ensures
        res@ == if done {
            "已把練習效果提升設成 "@ + crate::digits::decimal(KOSHIEN_PRACBUFF_DAYS as nat)
                + " 天（畫面會顯示 99）"@
        } else {
            "寫入失敗 —— 目前不在栄冠模式（指標鏈是 0），請在有部員名單的畫面再按一次"@
        },
{
    if done {
        let mut s = "已把練習效果提升設成 ".to_owned();
        push_decimal(&mut s, KOSHIEN_PRACBUFF_DAYS as u64);
        s.append(" 天（畫面會顯示 99）");
        s
    } else {
        "寫入失敗 —— 目前不在栄冠模式（指標鏈是 0），請在有部員名單的畫面再按一次".to_owned()
    }
}

} // verus!

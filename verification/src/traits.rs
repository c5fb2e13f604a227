//! Edits of a player's person and of its plain numbers. Each changes the player
//! at hand and the game alike, and says what was written.

use vstd::prelude::*;
use vstd::string::*;

use crate::abil::STAT_NAMES;
use crate::agreement::{
    aggression_keeps_step, aptitude_keeps_step, chart_keeps_step, cleared_uses_keep_step,
    discipline_keeps_step, energy_keeps_step, evaluation_keeps_step, field_keeps_step, in_step,
    lead_keeps_step, pack_keeps_step, plain_keeps_step, popularity_keeps_step, position_keeps_step,
    stat_keeps_step, style_keeps_step,
};
use crate::digits::push_decimal;
use crate::edit::{
    write_batting_aggression, write_batting_style, write_catcher, write_plate_discipline,
    write_popularity, write_pos, write_zone,
};
use crate::fields::{
    batting_style_name, pos_name, FIELD_NAMES, SPEED_UI_MAX, STAT_UI_MAX,
};
use crate::growth::{
    write_def_synced, write_field_synced, write_pack_synced, write_stat_synced,
};
use crate::offsets::{
    OFF_ACADEMIC, OFF_BATTING_AGGRESSION, OFF_BATTING_STYLE, OFF_BOOK, OFF_CATCH, OFF_DEF,
    OFF_ENERGY, OFF_FIELD, OFF_GRADE, OFF_ITEM, OFF_MOOD, OFF_PACK, OFF_PERSONALITY,
    OFF_PLATE_DISCIPLINE, OFF_POPULARITY, OFF_POS, OFF_RECRUIT_EVAL, OFF_STATS, OFF_TRUST, OFF_ZONE,
    POPULARITY_OFF, POPULARITY_ON,
};
use crate::player::Player;
use crate::process::{at, Memory, Proc};

verus! {

/// What came of an edit.
pub struct Outcome {
    pub ok: bool,
    /// What was edited, as it is reported.
    pub what: String,
    /// The player has to be read from the game again.
    pub reload: bool,
}

/// Names of the personalities.
pub const PERSONALITY_NAMES: [&'static str; 8] = [
    "非常普通",
    "調皮型",
    "熱血男兒",
    "冷靜型",
    "內向",
    "天才",
    "人來瘋",
    "精明幹練",
];

/// Names of the moods.
pub const MOOD_NAMES: [&'static str; 4] = ["超興奮", "興奮", "普通", "消沉"];

/// Names of the academic ranks.
pub const ACADEMIC_NAMES: [&'static str; 5] = ["E", "D", "C", "B", "A"];

/// The highest number of each academic rank.
pub const ACADEMIC_WRITE: [u8; 5] = [0x23, 0x2D, 0x37, 0x41, 0x4B];

/// Grades from 0 to 7.
pub const GRADE_NAMES: [&'static str; 8] = ["G", "F", "E", "D", "C", "B", "A", "S"];

/// The highest trust.
pub const TRUST_MAX: u8 = 200;

/// The most energy.
pub const ENERGY_MAX: u16 = 500;

/// The highest evaluation of a recruit.
pub const RECRUIT_EVAL_MAX: u16 = 511;

/// The smaller of two numbers.
pub open spec fn at_most(v: int, max: int) -> int {
    if v < max {
        v
    } else {
        max
    }
}

/// `data` was written at `off` of an object, as far as the game takes it.
pub open spec fn wrote(
    before: Memory,
    after: Memory,
    obj: u64,
    off: usize,
    data: Seq<u8>,
    ok: bool,
) -> bool {
    &&& after == before.poke(at(obj, off as int), data)
    &&& ok == before.accepts(at(obj, off as int), data.len() as int)
}

/// The academic rank of a number, 5 for one that is out of range.
pub open spec fn rank_of(v: u8) -> int {
    if v <= 0x23 {
        0
    } else if v <= 0x2D {
        1
    } else if v <= 0x37 {
        2
    } else if v <= 0x41 {
        3
    } else if v <= 0x4B {
        4
    } else {
        5
    }
}

/// The stars of a recruit, by its evaluation.
pub open spec fn stars_of(v: u16) -> int {
    if v <= 0x27 {
        1
    } else if v <= 0x4F {
        2
    } else if v <= 0x9F {
        3
    } else if v <= 0xEF {
        4
    } else {
        5
    }
}

/// The academic rank of a number, `None` for one that is out of range.
pub fn academic_rank(v: u8) -> (res: Option<u8>)
    ensures
        res == if rank_of(v) < 5 {
            Some(rank_of(v) as u8)
        } else {
            None
        },
{
    let mut r: u8 = 0;
    while r < 5 && v > ACADEMIC_WRITE[r as usize]
        invariant
            r <= 5,
            r > 0 ==> v > ACADEMIC_WRITE@[r - 1],
        decreases 5 - r,
    {
        r += 1;
    }
    proof {
        let t = ACADEMIC_WRITE@;
        assert(t[0] == 0x23 && t[1] == 0x2D && t[2] == 0x37 && t[3] == 0x41 && t[4] == 0x4B);
    }
    if r < 5 {
        Some(r)
    } else {
        None
    }
}

/// The stars of a recruit.
pub fn recruit_stars(v: u16) -> (res: u8)
    ensures
        res == stars_of(v),
{
    if v <= 0x27 {
        1
    } else if v <= 0x4F {
        2
    } else if v <= 0x9F {
        3
    } else if v <= 0xEF {
        4
    } else {
        5
    }
}

/// Every rank is written as a number of that rank, and the highest one.
pub proof fn ranks_are_written_as_themselves(r: int, v: u8)
    requires
        0 <= r < 5,
    ensures
        rank_of(ACADEMIC_WRITE@[r]) == r,
        rank_of(v) == r ==> v <= ACADEMIC_WRITE@[r],
{
    let t = ACADEMIC_WRITE@;
    assert(t[0] == 0x23 && t[1] == 0x2D && t[2] == 0x37 && t[3] == 0x41 && t[4] == 0x4B);
}

fn put(p: &mut Proc, obj: u64, off: usize, v: u8) -> (res: bool)
    ensures
        wrote(old(p)@, final(p)@, obj, off, seq![v], res),
{
    p.put_byte(obj.wrapping_add(off as u64), v)
}

fn put_wide(p: &mut Proc, obj: u64, off: usize, v: u16) -> (res: bool)
    ensures
        wrote(old(p)@, final(p)@, obj, off, crate::bytes::bytes16(v), res),
{
    p.put_u16(obj.wrapping_add(off as u64), v)
}

/// An outcome that needs no new reading.
pub(crate) fn done(ok: bool, what: &str) -> (res: Outcome)
    ensures
        says(res, ok, what@),
{
    Outcome { ok, what: what.to_owned(), reload: false }
}

/// The outcome says just that, and asks for no new reading.
pub open spec fn says(o: Outcome, ok: bool, what: Seq<char>) -> bool {
    o.ok == ok && o.what@ == what && !o.reload
}

pub(crate) fn done_with(ok: bool, front: &str, back: &str) -> (res: Outcome)
    ensures
        says(res, ok, front@ + back@),
{
    let mut what = front.to_owned();
    what.append(back);
    Outcome { ok, what, reload: false }
}

fn done_with_number(ok: bool, front: &str, n: u64) -> (res: Outcome)
    ensures
        says(res, ok, front@ + crate::digits::decimal(n as nat)),
{
    let mut what = front.to_owned();
    push_decimal(&mut what, n);
    Outcome { ok, what, reload: false }
}

/// Sets the trust, 200 at most.
pub fn edit_trust(cur: &mut Player, p: &mut Proc, v: u8) -> (res: Outcome)
    ensures
        in_step(old(p)@, *old(cur)) ==> in_step(final(p)@, *final(cur)),
        final(cur).trust == if v < 200 {
            v
        } else {
            200
        },
        ({
            let w = at_most(v as int, TRUST_MAX as int) as u8;
            &&& *final(cur) == (Player { trust: w, ..*old(cur) })
            &&& wrote(old(p)@, final(p)@, old(cur).addr, OFF_TRUST, seq![w], res.ok)
            &&& says(res, res.ok, "信賴度 → "@ + crate::digits::decimal(w as nat))
        }),
{
    cur.trust = if v < TRUST_MAX {
        v
    } else {
        TRUST_MAX
    };
    let ok = put(p, cur.addr, OFF_TRUST, cur.trust);
    proof {
        if in_step(old(p)@, *old(cur)) {
            plain_keeps_step(old(p)@, *old(cur), OFF_TRUST as int, cur.trust);
        }
    }
    done_with_number(ok, "信賴度 → ", cur.trust as u64)
}

/// Sets the personality, if it is another one.
pub fn edit_personality(cur: &mut Player, p: &mut Proc, v: u8) -> (res: Option<Outcome>)
    requires
        v < 8,
    ensures
        in_step(old(p)@, *old(cur)) ==> in_step(final(p)@, *final(cur)),
        *final(cur) == (Player { personality: v, ..*old(cur) }),
        match res {
            Some(o) => {
                &&& v != old(cur).personality
                &&& wrote(old(p)@, final(p)@, old(cur).addr, OFF_PERSONALITY, seq![v], o.ok)
                &&& says(o, o.ok, "性格 → "@ + PERSONALITY_NAMES@[v as int]@)
            },
            None => v == old(cur).personality && final(p)@ == old(p)@,
        },
{
    if v == cur.personality {
        return None;
    }
    cur.personality = v;
    let ok = put(p, cur.addr, OFF_PERSONALITY, v);
    proof {
        if in_step(old(p)@, *old(cur)) {
            plain_keeps_step(old(p)@, *old(cur), OFF_PERSONALITY as int, v);
        }
    }
    Some(done_with(ok, "性格 → ", PERSONALITY_NAMES[v as usize]))
}

/// Sets the mood, if it is another one.
pub fn edit_mood(cur: &mut Player, p: &mut Proc, v: u8) -> (res: Option<Outcome>)
    requires
        v < 4,
    ensures
        in_step(old(p)@, *old(cur)) ==> in_step(final(p)@, *final(cur)),
        *final(cur) == (Player { mood: v, ..*old(cur) }),
        match res {
            Some(o) => {
                &&& v != old(cur).mood
                &&& wrote(old(p)@, final(p)@, old(cur).addr, OFF_MOOD, seq![v], o.ok)
                &&& says(o, o.ok, "情緒 → "@ + MOOD_NAMES@[v as int]@)
            },
            None => v == old(cur).mood && final(p)@ == old(p)@,
        },
{
    if v == cur.mood {
        return None;
    }
    cur.mood = v;
    let ok = put(p, cur.addr, OFF_MOOD, v);
    proof {
        if in_step(old(p)@, *old(cur)) {
            plain_keeps_step(old(p)@, *old(cur), OFF_MOOD as int, v);
        }
    }
    Some(done_with(ok, "情緒 → ", MOOD_NAMES[v as usize]))
}

/// Sets the energy, 500 at most.
pub fn edit_energy(cur: &mut Player, p: &mut Proc, v: u16) -> (res: Outcome)
    ensures
        in_step(old(p)@, *old(cur)) ==> in_step(final(p)@, *final(cur)),
        final(cur).energy == if v < 500 {
            v
        } else {
            500
        },
        ({
            let w = at_most(v as int, ENERGY_MAX as int) as u16;
            &&& *final(cur) == (Player { energy: w, ..*old(cur) })
            &&& wrote(
                old(p)@,
                final(p)@,
                old(cur).addr,
                OFF_ENERGY,
                crate::bytes::bytes16(w),
                res.ok,
            )
            &&& says(res, res.ok, "體力 → "@ + crate::digits::decimal(w as nat))
        }),
{
    cur.energy = if v < ENERGY_MAX {
        v
    } else {
        ENERGY_MAX
    };
    let ok = put_wide(p, cur.addr, OFF_ENERGY, cur.energy);
    proof {
        if in_step(old(p)@, *old(cur)) {
            energy_keeps_step(old(p)@, *old(cur), cur.energy);
        }
    }
    done_with_number(ok, "體力 → ", cur.energy as u64)
}

/// Sets the academic rank, if it is another one, to its highest number.
pub fn edit_academic(cur: &mut Player, p: &mut Proc, rank: u8) -> (res: Option<Outcome>)
    requires
        rank < 5,
    ensures
        in_step(old(p)@, *old(cur)) ==> in_step(final(p)@, *final(cur)),
        rank_of(final(cur).academic) == rank,
        match res {
            Some(o) => {
                let w = ACADEMIC_WRITE@[rank as int];
                &&& rank != rank_of(old(cur).academic)
                &&& *final(cur) == (Player { academic: w, ..*old(cur) })
                &&& wrote(old(p)@, final(p)@, old(cur).addr, OFF_ACADEMIC, seq![w], o.ok)
                &&& says(o, o.ok, "學力 → "@ + ACADEMIC_NAMES@[rank as int]@)
            },
            None => {
                &&& rank == rank_of(old(cur).academic)
                &&& *final(cur) == *old(cur)
                &&& final(p)@ == old(p)@
            },
        },
{
    if academic_rank(cur.academic) == Some(rank) {
        return None;
    }
    cur.academic = ACADEMIC_WRITE[rank as usize];
    let ok = put(p, cur.addr, OFF_ACADEMIC, cur.academic);
    proof {
        ranks_are_written_as_themselves(rank as int, 0);
    }
    proof {
        if in_step(old(p)@, *old(cur)) {
            plain_keeps_step(old(p)@, *old(cur), OFF_ACADEMIC as int, cur.academic);
        }
    }
    Some(done_with(ok, "學力 → ", ACADEMIC_NAMES[rank as usize]))
}

/// Sets the evaluation of a recruit, 511 at most.
pub fn edit_recruit_eval(cur: &mut Player, p: &mut Proc, v: u16) -> (res: Outcome)
    ensures
        in_step(old(p)@, *old(cur)) ==> in_step(final(p)@, *final(cur)),
        final(cur).recruit_eval == if v < 511 {
            v
        } else {
            511
        },
        ({
            let w = at_most(v as int, RECRUIT_EVAL_MAX as int) as u16;
            &&& *final(cur) == (Player { recruit_eval: w, ..*old(cur) })
            &&& wrote(
                old(p)@,
                final(p)@,
                old(cur).addr,
                OFF_RECRUIT_EVAL,
                crate::bytes::bytes16(w),
                res.ok,
            )
            &&& says(res, res.ok, "招募評價 → "@ + crate::digits::decimal(w as nat))
        }),
{
    cur.recruit_eval = if v < RECRUIT_EVAL_MAX {
        v
    } else {
        RECRUIT_EVAL_MAX
    };
    let ok = put_wide(p, cur.addr, OFF_RECRUIT_EVAL, cur.recruit_eval);
    proof {
        if in_step(old(p)@, *old(cur)) {
            evaluation_keeps_step(old(p)@, *old(cur), cur.recruit_eval);
        }
    }
    done_with_number(ok, "招募評價 → ", cur.recruit_eval as u64)
}

/// A number brought into a range.
pub open spec fn within(v: int, lo: int, hi: int) -> int {
    if v < lo {
        lo
    } else if v > hi {
        hi
    } else {
        v
    }
}

fn bring(v: u16, lo: u16, hi: u16) -> (res: u16)
    requires
        lo <= hi,
    ensures
        res == within(v as int, lo as int, hi as int),
{
    if v < lo {
        lo
    } else if v > hi {
        hi
    } else {
        v
    }
}

fn bring_byte(v: u8, lo: u8, hi: u8) -> (res: u8)
    requires
        lo <= hi,
    ensures
        res == within(v as int, lo as int, hi as int),
{
    if v < lo {
        lo
    } else if v > hi {
        hi
    } else {
        v
    }
}

/// Sets the ball speed, from 80 to what the game takes, and the experience
/// behind it.
pub fn edit_speed(cur: &mut Player, p: &mut Proc, v: u16) -> (res: Outcome)
    ensures
        in_step(old(p)@, *old(cur)) ==> in_step(final(p)@, *final(cur)),
        final(cur).speed == if v < 80 {
            80
        } else if v > 175 {
            175
        } else {
            v
        },
        ({
            let a = *old(cur);
            let w = within(v as int, 80, SPEED_UI_MAX as int) as u16;
            &&& *final(cur) == (Player { speed: w, ..a })
            &&& final(p)@ == crate::growth::pack_synced(old(p)@, a.addr, w, a.stamina, a.pack_hi)
            &&& says(res, old(p)@.accepts(at(a.addr, OFF_PACK as int), 2), "球速（含經驗值）"@)
        }),
{
    cur.speed = bring(v, 80, SPEED_UI_MAX);
    let ok = write_pack_synced(p, cur.addr, cur.speed, cur.stamina, cur.pack_hi);
    proof {
        if in_step(old(p)@, *old(cur)) {
            pack_keeps_step(old(p)@, *old(cur), *cur);
        }
    }
    done(ok, "球速（含經驗值）")
}

/// Sets the stamina, 99 at most, and the experience behind it.
pub fn edit_stamina(cur: &mut Player, p: &mut Proc, v: u16) -> (res: Outcome)
    ensures
        in_step(old(p)@, *old(cur)) ==> in_step(final(p)@, *final(cur)),
        final(cur).stamina == if v < 99 {
            v
        } else {
            99
        },
        ({
            let a = *old(cur);
            let w = within(v as int, 0, 99) as u16;
            &&& *final(cur) == (Player { stamina: w, ..a })
            &&& final(p)@ == crate::growth::pack_synced(old(p)@, a.addr, a.speed, w, a.pack_hi)
            &&& says(res, old(p)@.accepts(at(a.addr, OFF_PACK as int), 2), "耐力（含經驗值）"@)
        }),
{
    cur.stamina = bring(v, 0, 99);
    let ok = write_pack_synced(p, cur.addr, cur.speed, cur.stamina, cur.pack_hi);
    proof {
        if in_step(old(p)@, *old(cur)) {
            pack_keeps_step(old(p)@, *old(cur), *cur);
        }
    }
    done(ok, "耐力（含經驗值）")
}

/// Sets the pitching aptitude, 99 at most, and the experience behind it.
pub fn edit_defense(cur: &mut Player, p: &mut Proc, v: u8) -> (res: Outcome)
    ensures
        in_step(old(p)@, *old(cur)) ==> in_step(final(p)@, *final(cur)),
        final(cur).defense == if v < 99 {
            v
        } else {
            99
        },
        ({
            let a = *old(cur);
            let w = within(v as int, 0, 99) as u8;
            &&& *final(cur) == (Player { defense: w, ..a })
            &&& final(p)@ == crate::growth::def_synced(old(p)@, a.addr, w)
            &&& says(res, old(p)@.accepts(at(a.addr, OFF_DEF as int), 1), "投手適性（含經驗值）"@)
        }),
{
    cur.defense = bring_byte(v, 0, 99);
    let ok = write_def_synced(p, cur.addr, cur.defense);
    proof {
        if in_step(old(p)@, *old(cur)) {
            aptitude_keeps_step(old(p)@, *old(cur), cur.defense);
        }
    }
    done(ok, "投手適性（含經驗值）")
}

/// What is shown of a position.
pub open spec fn pos_text(v: u8) -> Seq<char> {
    if v < 9 {
        crate::fields::POS_NAMES@[v as int]@
    } else {
        "?"@
    }
}

/// Sets the main position, if it is another one. The aptitudes stay.
pub fn edit_pos(cur: &mut Player, p: &mut Proc, v: u8) -> (res: Option<Outcome>)
    requires
        v < 9,
    ensures
        in_step(old(p)@, *old(cur)) ==> in_step(final(p)@, *final(cur)),
        ({
            let a = *old(cur);
            let to = at(a.addr, OFF_POS as int);
            let word = crate::edit::pos_word(old(p)@.u16_at(to), v);
            &&& *final(cur) == (Player { pos: v, ..a })
            &&& match res {
                Some(o) => {
                    &&& v != a.pos
                    &&& wrote(
                        old(p)@,
                        final(p)@,
                        a.addr,
                        OFF_POS,
                        crate::bytes::bytes16(word),
                        o.ok,
                    )
                    &&& says(o, o.ok, "主要守備位置 → "@ + pos_text(v))
                },
                None => v == a.pos && final(p)@ == old(p)@,
            }
        }),
{
    if v == cur.pos {
        return None;
    }
    cur.pos = v;
    let ok = write_pos(p, cur.addr, v);
    proof {
        if in_step(old(p)@, *old(cur)) {
            position_keeps_step(old(p)@, *old(cur), v);
        }
    }
    Some(done_with(ok, "主要守備位置 → ", pos_name(v)))
}

/// Sets the batting style, if it is another one.
pub fn edit_batting_style(cur: &mut Player, p: &mut Proc, v: u8) -> (res: Option<Outcome>)
    requires
        v < 7,
    ensures
        in_step(old(p)@, *old(cur)) ==> in_step(final(p)@, *final(cur)),
        ({
            let x = *old(cur);
            let m = old(p)@;
            let a = at(x.addr, OFF_CATCH as int);
            let c = at(x.addr, OFF_BATTING_STYLE as int);
            &&& *final(cur) == (Player { batting_style: v, ..x })
            &&& match res {
                Some(o) => {
                    &&& v != x.batting_style
                    &&& says(
                        o,
                        m.accepts(a, 1) && m.accepts(c, 1),
                        "打擊姿勢 → "@ + crate::fields::BATTING_STYLE_NAMES@[v as int]@,
                    )
                    &&& final(p)@ == if m.accepts(a, 1) {
                        m.poke(a, seq![crate::edit::style_high(m.u8_at(a), v)]).poke(
                            c,
                            seq![crate::edit::style_low(m.u8_at(c), v)],
                        )
                    } else {
                        m
                    }
                },
                None => v == x.batting_style && final(p)@ == m,
            }
        }),
{
    if v == cur.batting_style {
        return None;
    }
    cur.batting_style = v;
    let ok = write_batting_style(p, cur.addr, v);
    proof {
        if in_step(old(p)@, *old(cur)) {
            style_keeps_step(old(p)@, *old(cur), v);
        }
    }
    Some(done_with(ok, "打擊姿勢 → ", batting_style_name(v)))
}

/// Sets a fielding aptitude, 99 at most, and the experience behind it.
pub fn edit_field(cur: &mut Player, p: &mut Proc, i: usize, v: u8) -> (res: Outcome)
    requires
        i < 8,
    ensures
        in_step(old(p)@, *old(cur)) ==> in_step(final(p)@, *final(cur)),
        final(cur).field@[i as int] == if v < 99 {
            v
        } else {
            99
        },
        ({
            let a = *old(cur);
            let w = within(v as int, 0, 99) as u8;
            &&& *final(cur) == (Player { field: final(cur).field, ..a })
            &&& final(cur).field@ == a.field@.update(i as int, w)
            &&& final(p)@ == crate::growth::field_synced(old(p)@, a.addr, i, w)
            &&& says(
                res,
                old(p)@.accepts(at(at(a.addr, OFF_FIELD as int), i as int), 1),
                FIELD_NAMES@[i as int]@ + "（含經驗值）"@,
            )
        }),
{
    let w: u8 = bring_byte(v, 0, 99);
    cur.field[i] = w;
    let ok = write_field_synced(p, cur.addr, i, w);
    proof {
        if in_step(old(p)@, *old(cur)) {
            field_keeps_step(old(p)@, *old(cur), *cur, i, w);
        }
    }
    done_with(ok, FIELD_NAMES[i], "（含經驗值）")
}

/// Sets the catcher's lead.
pub fn edit_catcher(cur: &mut Player, p: &mut Proc, g: u8) -> (res: Outcome)
    requires
        g < 8,
    ensures
        in_step(old(p)@, *old(cur)) ==> in_step(final(p)@, *final(cur)),
        ({
            let to = at(old(cur).addr, OFF_CATCH as int);
            let byte = crate::edit::lead_byte(old(p)@.u8_at(to), g);
            &&& *final(cur) == (Player { catcher: g, ..*old(cur) })
            &&& wrote(old(p)@, final(p)@, old(cur).addr, OFF_CATCH, seq![byte], res.ok)
            &&& says(res, res.ok, "捕手配球"@)
        }),
{
    cur.catcher = g;
    let ok = write_catcher(p, cur.addr, g);
    proof {
        if in_step(old(p)@, *old(cur)) {
            lead_keeps_step(old(p)@, *old(cur), g);
        }
    }
    done(ok, "捕手配球")
}

/// Sets the school year, 1 to 3.
pub fn edit_grade(cur: &mut Player, p: &mut Proc, v: u8) -> (res: Outcome)
    ensures
        in_step(old(p)@, *old(cur)) ==> in_step(final(p)@, *final(cur)),
        final(cur).grade == if v < 1 {
            1
        } else if v > 3 {
            3
        } else {
            v
        },
        ({
            let w = within(v as int, 1, 3) as u8;
            &&& *final(cur) == (Player { grade: w, ..*old(cur) })
            &&& wrote(old(p)@, final(p)@, old(cur).addr, OFF_GRADE, seq![w], res.ok)
            &&& says(res, res.ok, "年級"@)
        }),
{
    cur.grade = bring_byte(v, 1, 3);
    let ok = put(p, cur.addr, OFF_GRADE, cur.grade);
    proof {
        if in_step(old(p)@, *old(cur)) {
            plain_keeps_step(old(p)@, *old(cur), OFF_GRADE as int, cur.grade);
        }
    }
    done(ok, "年級")
}

/// Sets how many bats were used, 9 at most.
pub fn edit_item(cur: &mut Player, p: &mut Proc, v: u8) -> (res: Outcome)
    ensures
        in_step(old(p)@, *old(cur)) ==> in_step(final(p)@, *final(cur)),
        final(cur).item == if v < 9 {
            v
        } else {
            9
        },
        ({
            let w = within(v as int, 0, 9) as u8;
            &&& *final(cur) == (Player { item: w, ..*old(cur) })
            &&& wrote(old(p)@, final(p)@, old(cur).addr, OFF_ITEM, seq![w], res.ok)
            &&& says(res, res.ok, "球棒使用次數"@)
        }),
{
    cur.item = bring_byte(v, 0, 9);
    let ok = put(p, cur.addr, OFF_ITEM, cur.item);
    proof {
        if in_step(old(p)@, *old(cur)) {
            plain_keeps_step(old(p)@, *old(cur), OFF_ITEM as int, cur.item);
        }
    }
    done(ok, "球棒使用次數")
}

/// Sets how many books were used, 9 at most.
pub fn edit_book(cur: &mut Player, p: &mut Proc, v: u8) -> (res: Outcome)
    ensures
        in_step(old(p)@, *old(cur)) ==> in_step(final(p)@, *final(cur)),
        final(cur).book == if v < 9 {
            v
        } else {
            9
        },
        ({
            let w = within(v as int, 0, 9) as u8;
            &&& *final(cur) == (Player { book: w, ..*old(cur) })
            &&& wrote(old(p)@, final(p)@, old(cur).addr, OFF_BOOK, seq![w], res.ok)
            &&& says(res, res.ok, "書籍使用次數"@)
        }),
{
    cur.book = bring_byte(v, 0, 9);
    let ok = put(p, cur.addr, OFF_BOOK, cur.book);
    proof {
        if in_step(old(p)@, *old(cur)) {
            plain_keeps_step(old(p)@, *old(cur), OFF_BOOK as int, cur.book);
        }
    }
    done(ok, "書籍使用次數")
}

/// Lets a player use items and books again.
pub fn clear_uses(cur: &mut Player, p: &mut Proc) -> (res: Outcome)
    ensures
        in_step(old(p)@, *old(cur)) ==> in_step(final(p)@, *final(cur)),
        *final(cur) == (Player { item: 0, book: 0, ..*old(cur) }),
        wrote(old(p)@, final(p)@, old(cur).addr, OFF_ITEM, seq![0u8, 0u8], res.ok),
        says(res, res.ok, "使用次數歸零"@),
{
    cur.item = 0;
    cur.book = 0;
    let data: [u8; 2] = [0, 0];
    assert(data@ =~= seq![0u8, 0u8]);
    let ok = p.write(cur.addr.wrapping_add(OFF_ITEM as u64), &data);
    proof {
        if in_step(old(p)@, *old(cur)) {
            cleared_uses_keep_step(old(p)@, *old(cur));
        }
    }
    done(ok, "使用次數歸零")
}

/// The bytes of a zone chart that is written over the one in the game.
pub open spec fn chart_bytes(m: Memory, obj: u64, z: Seq<i8>) -> Seq<u8> {
    crate::bytes::bytes32(crate::edit::chart_with(m.u32_at(at(obj, OFF_ZONE as int)), z, 9))
}

/// Sets one square of the zone chart.
pub fn edit_zone(cur: &mut Player, p: &mut Proc, i: usize, v: i8) -> (res: Outcome)
    requires
        i < 9,
    ensures
        in_step(old(p)@, *old(cur)) && (forall|j: int|
            0 <= j < 9 ==> -3 <= #[trigger] final(cur).zone@[j] <= 3) ==> in_step(
            final(p)@,
            *final(cur),
        ),
        *final(cur) == (Player { zone: final(cur).zone, ..*old(cur) }),
        final(cur).zone@ == old(cur).zone@.update(i as int, v),
        wrote(
            old(p)@,
            final(p)@,
            old(cur).addr,
            OFF_ZONE,
            chart_bytes(old(p)@, old(cur).addr, final(cur).zone@),
            res.ok,
        ),
        says(res, res.ok, "擅長球路九宮格"@),
{
    cur.zone[i] = v;
    let ok = write_zone(p, cur.addr, &cur.zone);
    proof {
        if in_step(old(p)@, *old(cur)) && forall|j: int|
            0 <= j < 9 ==> -3 <= #[trigger] cur.zone@[j] <= 3 {
            chart_keeps_step(old(p)@, *old(cur), *cur);
        }
    }
    done(ok, "擅長球路九宮格")
}

/// Clears the zone chart.
pub fn clear_zone(cur: &mut Player, p: &mut Proc) -> (res: Outcome)
    ensures
        in_step(old(p)@, *old(cur)) ==> in_step(final(p)@, *final(cur)),
        *final(cur) == (Player { zone: final(cur).zone, ..*old(cur) }),
        final(cur).zone@ == Seq::new(9, |i: int| 0i8),
        wrote(
            old(p)@,
            final(p)@,
            old(cur).addr,
            OFF_ZONE,
            chart_bytes(old(p)@, old(cur).addr, final(cur).zone@),
            res.ok,
        ),
        says(res, res.ok, "擅長球路九宮格（歸零）"@),
{
    cur.zone = [0, 0, 0, 0, 0, 0, 0, 0, 0];
    assert(cur.zone@ =~= Seq::new(9, |i: int| 0i8));
    let ok = write_zone(p, cur.addr, &cur.zone);
    proof {
        if in_step(old(p)@, *old(cur)) {
            chart_keeps_step(old(p)@, *old(cur), *cur);
        }
    }
    done(ok, "擅長球路九宮格（歸零）")
}

/// Sets an ability, 1 to 99, and the experience behind it.
pub fn edit_stat(cur: &mut Player, p: &mut Proc, i: usize, v: u8) -> (res: Outcome)
    requires
        i < 8,
    ensures
        in_step(old(p)@, *old(cur)) ==> in_step(final(p)@, *final(cur)),
        final(cur).stats@[i as int] == if v < 1 {
            1
        } else if v > 99 {
            99
        } else {
            v
        },
        ({
            let a = *old(cur);
            let w = within(v as int, 1, STAT_UI_MAX as int) as u8;
            &&& *final(cur) == (Player { stats: final(cur).stats, ..a })
            &&& final(cur).stats@ == a.stats@.update(i as int, w)
            &&& final(p)@ == crate::growth::stat_synced(old(p)@, a.addr, i, w)
            &&& says(
                res,
                old(p)@.accepts(at(at(a.addr, OFF_STATS as int), i as int), 1),
                STAT_NAMES@[i as int]@,
            )
        }),
{
    let w: u8 = bring_byte(v, 1, STAT_UI_MAX);
    cur.stats[i] = w;
    let ok = write_stat_synced(p, cur.addr, i, w);
    proof {
        if in_step(old(p)@, *old(cur)) {
            stat_keeps_step(old(p)@, *old(cur), *cur, i, w);
        }
    }
    done(ok, STAT_NAMES[i])
}

/// Sets the batting aggression.
pub fn edit_aggression(cur: &mut Player, p: &mut Proc, g: u8) -> (res: Outcome)
    requires
        g < 7,
    ensures
        in_step(old(p)@, *old(cur)) ==> in_step(final(p)@, *final(cur)),
        ({
            let to = at(old(cur).addr, OFF_BATTING_AGGRESSION as int);
            let byte = crate::edit::low3_byte(old(p)@.u8_at(to), g);
            &&& *final(cur) == (Player { batting_aggression: g, ..*old(cur) })
            &&& wrote(
                old(p)@,
                final(p)@,
                old(cur).addr,
                OFF_BATTING_AGGRESSION,
                seq![byte],
                res.ok,
            )
            &&& says(res, res.ok, "打擊積極性 → "@ + GRADE_NAMES@[g as int]@)
        }),
{
    cur.batting_aggression = g;
    let ok = write_batting_aggression(p, cur.addr, g);
    proof {
        if in_step(old(p)@, *old(cur)) {
            aggression_keeps_step(old(p)@, *old(cur), g);
        }
    }
    done_with(ok, "打擊積極性 → ", GRADE_NAMES[g as usize])
}

/// Sets the plate discipline.
pub fn edit_discipline(cur: &mut Player, p: &mut Proc, g: u8) -> (res: Outcome)
    requires
        g < 7,
    ensures
        in_step(old(p)@, *old(cur)) ==> in_step(final(p)@, *final(cur)),
        ({
            let to = at(old(cur).addr, OFF_PLATE_DISCIPLINE as int);
            let byte = crate::edit::mid3_byte(old(p)@.u8_at(to), g);
            &&& *final(cur) == (Player { plate_discipline: g, ..*old(cur) })
            &&& wrote(
                old(p)@,
                final(p)@,
                old(cur).addr,
                OFF_PLATE_DISCIPLINE,
                seq![byte],
                res.ok,
            )
            &&& says(res, res.ok, "選球眼 → "@ + GRADE_NAMES@[g as int]@)
        }),
{
    cur.plate_discipline = g;
    let ok = write_plate_discipline(p, cur.addr, g);
    proof {
        if in_step(old(p)@, *old(cur)) {
            discipline_keeps_step(old(p)@, *old(cur), g);
        }
    }
    done_with(ok, "選球眼 → ", GRADE_NAMES[g as usize])
}

/// Sets the popularity.
pub fn edit_popularity(cur: &mut Player, p: &mut Proc, on: bool) -> (res: Outcome)
    ensures
        in_step(old(p)@, *old(cur)) ==> in_step(final(p)@, *final(cur)),
        ({
            let to = at(old(cur).addr, OFF_POPULARITY as int);
            let v = if on {
                POPULARITY_ON
            } else {
                POPULARITY_OFF
            };
            let byte = crate::edit::low3_byte(old(p)@.u8_at(to), v);
            &&& *final(cur) == (Player { popularity: on, ..*old(cur) })
            &&& wrote(old(p)@, final(p)@, old(cur).addr, OFF_POPULARITY, seq![byte], res.ok)
            &&& says(
                res,
                res.ok,
                "人氣(投手/野手) → "@ + if on {
                    "有"@
                } else {
                    "無"@
                },
            )
        }),
{
    cur.popularity = on;
    let ok = write_popularity(p, cur.addr, on);
    proof {
        if in_step(old(p)@, *old(cur)) {
            popularity_keeps_step(old(p)@, *old(cur), on);
        }
    }
    done_with(
        ok,
        "人氣(投手/野手) → ",
        if on {
            "有"
        } else {
            "無"
        },
    )
}

} // verus!

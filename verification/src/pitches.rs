//! Edits of a player's pitches, and what there is to choose from.

use vstd::prelude::*;
use vstd::string::*;

use crate::agreement::{
    given_record_is_read, in_step, pitch_keeps_step, put_pitch_is_read, reads_as,
    synced_pitch_keeps_step, writes_as_it_is,
};
use crate::balls::{
    ball_name, balls_for_dir, zh_name, BALL_EMPTY, BALL_NAMES, BALL_ORIGINAL, DIR_SERIES,
};
use crate::cheats::ball_fits;
use crate::digits::push_decimal;
use crate::edit::{
    ball_addr, ball_bytes, clear_rec, find_rec_index, rec_addr, write_ball, write_rec,
};
use crate::edit_laws::editable;
use crate::growth::write_ball_synced;
use crate::library::LibEntry;
use crate::offsets::{N_BALL, N_REC, REC, REC_UNUSED_SLOT};
use crate::player::{rec_index, Ball, OrigRec, Player};
use crate::process::{Memory, Proc};
use crate::traits::{says, Outcome};

verus! {

/// What a pitch slot is called.
pub open spec fn slot_text(slot: int) -> Seq<char> {
    DIR_SERIES@[slot % 6]@ + if slot >= 6 {
        "・第2顆"@
    } else {
        "・第1顆"@
    }
}

/// What a pitch slot is called.
pub fn slot_label(slot: usize) -> (res: String)
    requires
        slot < N_BALL,
    ensures
        res@ == slot_text(slot as int),
{
    let mut s = DIR_SERIES[slot % 6].to_owned();
    if slot >= 6 {
        s.append("・第2顆");
    } else {
        s.append("・第1顆");
    }
    s
}

/// A pitch that was just put into a slot: one without power starts as a good
/// one.
pub open spec fn put_in(b: Ball, slot: int, id: u8) -> Ball {
    if id != BALL_EMPTY && b.power == 0 {
        Ball {
            id,
            power: 7,
            control: 7,
            move_: if slot % 6 == 5 {
                0
            } else {
                4
            },
        }
    } else {
        Ball { id, ..b }
    }
}

/// The record that is given up when slot `slot` gets another pitch than the
/// original one that it had.
pub open spec fn orphan(pl: Player, slot: usize, id: u8) -> Option<int> {
    if pl.balls@[slot as int].id == BALL_ORIGINAL && id != BALL_ORIGINAL {
        rec_index(pl.recs@, slot)
    } else {
        None
    }
}

fn find_rec(pl: &Player, slot: usize) -> (res: Option<usize>)
    ensures
        match res {
            Some(i) => rec_index(pl.recs@, slot) == Some(i as int) && i < pl.recs@.len(),
            None => rec_index(pl.recs@, slot) is None,
        },
{
    let want: u32 = (slot as u64 % 0x1_0000_0000) as u32;
    let ghost all = pl.recs@;
    let mut i: usize = 0;
    assert(all.skip(0) =~= all);
    while i < pl.recs.len()
        invariant
            i <= pl.recs@.len(),
            all == pl.recs@,
            want == slot as int % 0x1_0000_0000,
            rec_index(all, slot) == match rec_index(all.skip(i as int), slot) {
                Some(k) => Some(k + i),
                None => None,
            },
        decreases pl.recs@.len() - i,
    {
        assert(all.skip(i as int)[0] == all[i as int]);
        assert(all.skip(i as int).skip(1) =~= all.skip(i + 1));
        if pl.recs[i].slot == want {
            return Some(i);
        }
        i += 1;
    }
    None
}

/// Puts another pitch into a slot, and the experience behind it. An original
/// pitch that goes takes its record with it. The player has to be read again.
pub fn edit_ball_id(cur: &mut Player, p: &mut Proc, slot: usize, id: u8) -> (res: Option<Outcome>)
    requires
        slot < N_BALL,
        old(cur).balls@.len() == N_BALL,
        old(cur).recs@.len() <= N_REC,
        ball_fits(old(cur).balls@[slot as int]),
    ensures
        forall|y: Player| #[trigger]
            reads_as(final(p)@, old(cur).addr, y) && in_step(old(p)@, *old(cur)) ==> {
                &&& y.balls@[slot as int].id == id
                &&& forall|k: int|
                    0 <= k < N_BALL && k != slot ==> #[trigger] y.balls@[k] == old(cur).balls@[k]
                &&& res is Some && id != BALL_EMPTY ==> y.balls@[slot as int].power > 0
                &&& y.stats@ == old(cur).stats@
            },
        ({
            let a = *old(cur);
            let was = a.balls@[slot as int];
            let now = put_in(was, slot as int, id);
            let m = crate::growth::ball_synced(old(p)@, a.addr, slot, now);
            let took = old(p)@.accepts(ball_addr(a.addr, slot as int), 3);
            if id == was.id {
                res is None && *final(cur) == a && final(p)@ == old(p)@
            } else {
                &&& res is Some
                &&& *final(cur) == (Player { balls: final(cur).balls, ..a })
                &&& final(cur).balls@ == a.balls@.update(slot as int, now)
                &&& res->0.reload
                &&& res->0.what@ == slot_text(slot as int) + " 球種"@
                &&& match orphan(a, slot, id) {
                    Some(i) => {
                        &&& final(p)@ == m.poke(rec_addr(a.addr, i), crate::edit::blank_rec())
                        &&& res->0.ok == (took && m.accepts(rec_addr(a.addr, i), REC as int))
                    },
                    None => final(p)@ == m && res->0.ok == took,
                }
            }
        }),
{
    let was: Ball = cur.balls[slot];
    if id == was.id {
        proof {
            assert forall|y: Player| #[trigger]
                reads_as(p@, old(cur).addr, y) && in_step(old(p)@, *old(cur)) implies y.balls@
                == old(cur).balls@ && y.stats@ == old(cur).stats@ by {}
        }
        return None;
    }
    let now: Ball = if id != BALL_EMPTY && was.power == 0 {
        Ball {
            id,
            power: 7,
            control: 7,
            move_: if slot % 6 == 5 {
                0
            } else {
                4
            },
        }
    } else {
        Ball { id, power: was.power, control: was.control, move_: was.move_ }
    };
    let gone = if was.id == BALL_ORIGINAL && id != BALL_ORIGINAL {
        find_rec(cur, slot)
    } else {
        None
    };
    cur.balls.set(slot, now);
    let mut ok = write_ball_synced(p, cur.addr, slot, &now);
    if let Some(i) = gone {
        let cleared = clear_rec(p, cur.addr, i);
        ok = ok && cleared;
    }
    proof {
        assert forall|y: Player| #[trigger]
            reads_as(p@, old(cur).addr, y) && in_step(old(p)@, *old(cur)) implies {
            &&& y.balls@[slot as int].id == id
            &&& forall|k: int|
                0 <= k < N_BALL && k != slot ==> #[trigger] y.balls@[k] == old(cur).balls@[k]
            &&& id != BALL_EMPTY ==> y.balls@[slot as int].power > 0
            &&& y.stats@ == old(cur).stats@
        } by {
            read_pitch_is_small(old(p)@, *old(cur), slot as int);
            put_pitch_is_read(
                old(p)@,
                *old(cur),
                slot,
                now,
                orphan(*old(cur), slot, id),
                y,
            );
        }
    }
    let mut what = slot_label(slot);
    what.append(" 球種");
    Some(Outcome { ok, what, reload: true })
}

/// Sets power, control and movement of a pitch, and the experience behind them.
pub fn edit_ball(
    cur: &mut Player,
    p: &mut Proc,
    slot: usize,
    power: u8,
    control: u8,
    move_: u8,
) -> (res: Outcome)
    requires
        slot < N_BALL,
        old(cur).balls@.len() == N_BALL,
        power * 8 + move_ <= 255,
    ensures
        in_step(old(p)@, *old(cur)) && writes_as_it_is(final(cur).balls@[slot as int]) ==> in_step(
            final(p)@,
            *final(cur),
        ),
        ({
            let a = *old(cur);
            let now = Ball { id: a.balls@[slot as int].id, power, control, move_ };
            &&& *final(cur) == (Player { balls: final(cur).balls, ..a })
            &&& final(cur).balls@ == a.balls@.update(slot as int, now)
            &&& final(p)@ == crate::growth::ball_synced(old(p)@, a.addr, slot, now)
            &&& says(
                res,
                old(p)@.accepts(ball_addr(a.addr, slot as int), 3),
                slot_text(slot as int) + " 球威/控球/變化（含經驗值）"@,
            )
        }),
{
    let now = Ball { id: cur.balls[slot].id, power, control, move_ };
    cur.balls.set(slot, now);
    let ok = write_ball_synced(p, cur.addr, slot, &now);
    proof {
        if in_step(old(p)@, *old(cur)) && writes_as_it_is(now) {
            synced_pitch_keeps_step(old(p)@, *old(cur), *cur, slot);
        }
    }
    let mut what = slot_label(slot);
    what.append(" 球威/控球/變化（含經驗值）");
    Outcome { ok, what, reload: false }
}

/// A pitch at its best, or with all the movement there is, if it is there.
pub open spec fn improved(b: Ball, slot: int, moves: bool) -> Ball {
    if b.id == BALL_EMPTY || (moves && slot % 6 == 5) {
        b
    } else if moves {
        Ball { move_: 7, ..b }
    } else {
        Ball { power: 7, control: 7, ..b }
    }
}

/// Whether improving writes a slot.
pub open spec fn improves(b: Ball, slot: int, moves: bool) -> bool {
    b.id != BALL_EMPTY && !(moves && slot % 6 == 5)
}

/// The memory after the first `k` slots were improved.
pub open spec fn after_improving(m: Memory, obj: u64, balls: Seq<Ball>, moves: bool, k: int) -> Memory
    decreases k,
{
    if k <= 0 {
        m
    } else {
        let n = after_improving(m, obj, balls, moves, k - 1);
        if improves(balls[k - 1], k - 1, moves) {
            n.poke(ball_addr(obj, k - 1), ball_bytes(improved(balls[k - 1], k - 1, moves)))
        } else {
            n
        }
    }
}

proof fn improving_keeps_access(
    m: Memory,
    obj: u64,
    balls: Seq<Ball>,
    moves: bool,
    k: int,
    a: u64,
    n: int,
)
    requires
        0 <= n <= u64::MAX,
    ensures
        after_improving(m, obj, balls, moves, k).accepts(a, n) == m.accepts(a, n),
    decreases k,
{
    if k > 0 {
        improving_keeps_access(m, obj, balls, moves, k - 1, a, n);
        crate::process::write_keeps_access(
            after_improving(m, obj, balls, moves, k - 1),
            ball_addr(obj, k - 1),
            ball_bytes(improved(balls[k - 1], k - 1, moves)),
            a,
            n,
        );
    }
}

fn improve(cur: &mut Player, p: &mut Proc, moves: bool) -> (res: bool)
    requires
        old(cur).balls@.len() == N_BALL,
        forall|k: int|
            0 <= k < N_BALL ==> ball_fits(improved(#[trigger] old(cur).balls@[k], k, moves)),
    ensures
        in_step(old(p)@, *old(cur)) ==> in_step(final(p)@, *final(cur)),
        ({
            let a = *old(cur);
            &&& *final(cur) == (Player { balls: final(cur).balls, ..a })
            &&& final(cur).balls@ == Seq::new(
                N_BALL as nat,
                |k: int| improved(a.balls@[k], k, moves),
            )
            &&& final(p)@ == after_improving(old(p)@, a.addr, a.balls@, moves, N_BALL as int)
            &&& res == forall|k: int|
                0 <= k < N_BALL && improves(#[trigger] a.balls@[k], k, moves) ==> old(p)@.accepts(
                    ball_addr(a.addr, k),
                    3,
                )
        }),
{
    let ghost a = *cur;
    let ghost m = p@;
    let mut ok = true;
    let mut s: usize = 0;
    while s < N_BALL
        invariant
            s <= N_BALL,
            a.balls@.len() == N_BALL,
            forall|k: int| 0 <= k < N_BALL ==> ball_fits(improved(#[trigger] a.balls@[k], k, moves)),
            *cur == (Player { balls: cur.balls, ..a }),
            cur.balls@ == Seq::new(
                N_BALL as nat,
                |k: int|
                    if k < s {
                        improved(a.balls@[k], k, moves)
                    } else {
                        a.balls@[k]
                    },
            ),
            p@ == after_improving(m, a.addr, a.balls@, moves, s as int),
            in_step(m, a) ==> in_step(p@, *cur),
            ok == forall|k: int|
                0 <= k < s && improves(#[trigger] a.balls@[k], k, moves) ==> m.accepts(
                    ball_addr(a.addr, k),
                    3,
                ),
        decreases N_BALL - s,
    {
        let b: Ball = cur.balls[s];
        let ghost before = *cur;
        let ghost here = p@;
        assert(b == a.balls@[s as int]);
        assert(ball_fits(improved(a.balls@[s as int], s as int, moves)));
        if b.id != BALL_EMPTY && !(moves && s % 6 == 5) {
            let now = if moves {
                Ball { id: b.id, power: b.power, control: b.control, move_: 7 }
            } else {
                Ball { id: b.id, power: 7, control: 7, move_: b.move_ }
            };
            cur.balls.set(s, now);
            let took = write_ball(p, cur.addr, s, &now);
            proof {
                improving_keeps_access(
                    m,
                    a.addr,
                    a.balls@,
                    moves,
                    s as int,
                    ball_addr(a.addr, s as int),
                    3,
                );
            }
            proof {
                if in_step(m, a) {
                    read_pitch_is_small(m, a, s as int);
                    pitch_keeps_step(here, before, *cur, s as int);
                }
            }
            ok = ok && took;
        }
        s += 1;
        assert(cur.balls@ =~= Seq::new(
            N_BALL as nat,
            |k: int|
                if k < s {
                    improved(a.balls@[k], k, moves)
                } else {
                    a.balls@[k]
                },
        ));
    }
    assert(cur.balls@ =~= Seq::new(N_BALL as nat, |k: int| improved(a.balls@[k], k, moves)));
    ok
}

/// What a pitch can be where player and object are in step.
proof fn read_pitch_is_small(m: Memory, pl: Player, slot: int)
    requires
        in_step(m, pl),
        0 <= slot < N_BALL,
    ensures
        pl.balls@[slot].power < 32,
        pl.balls@[slot].move_ < 8,
{
    assert(pl.balls@[slot] == crate::player::ball_in(
        crate::edit_laws::object(m, pl.addr),
        slot,
    ));
}

/// Gives every pitch full power and control.
pub fn all_best(cur: &mut Player, p: &mut Proc) -> (res: Outcome)
    requires
        old(cur).balls@.len() == N_BALL,
        forall|k: int| 0 <= k < N_BALL ==> (#[trigger] old(cur).balls@[k]).move_ <= 199,
        forall|k: int| 0 <= k < N_BALL ==> ball_fits(#[trigger] old(cur).balls@[k]),
    ensures
        in_step(old(p)@, *old(cur)) ==> in_step(final(p)@, *final(cur)),
        ({
            let a = *old(cur);
            &&& *final(cur) == (Player { balls: final(cur).balls, ..a })
            &&& final(cur).balls@ == Seq::new(
                N_BALL as nat,
                |k: int| improved(a.balls@[k], k, false),
            )
            &&& final(p)@ == after_improving(old(p)@, a.addr, a.balls@, false, N_BALL as int)
            &&& says(
                res,
                forall|k: int|
                    0 <= k < N_BALL && improves(#[trigger] a.balls@[k], k, false)
                        ==> old(p)@.accepts(ball_addr(a.addr, k), 3),
                "全部球種 S/S"@,
            )
        }),
{
    let ok = improve(cur, p, false);
    Outcome { ok, what: "全部球種 S/S".to_owned(), reload: false }
}

/// Gives every pitch but the straight ones full movement.
pub fn all_moving(cur: &mut Player, p: &mut Proc) -> (res: Outcome)
    requires
        old(cur).balls@.len() == N_BALL,
        forall|k: int| 0 <= k < N_BALL ==> (#[trigger] old(cur).balls@[k]).power <= 31,
        forall|k: int| 0 <= k < N_BALL ==> ball_fits(#[trigger] old(cur).balls@[k]),
    ensures
        in_step(old(p)@, *old(cur)) ==> in_step(final(p)@, *final(cur)),
        ({
            let a = *old(cur);
            &&& *final(cur) == (Player { balls: final(cur).balls, ..a })
            &&& final(cur).balls@ == Seq::new(
                N_BALL as nat,
                |k: int| improved(a.balls@[k], k, true),
            )
            &&& final(p)@ == after_improving(old(p)@, a.addr, a.balls@, true, N_BALL as int)
            &&& says(
                res,
                forall|k: int|
                    0 <= k < N_BALL && improves(#[trigger] a.balls@[k], k, true)
                        ==> old(p)@.accepts(ball_addr(a.addr, k), 3),
                "變化量 7"@,
            )
        }),
{
    let ok = improve(cur, p, true);
    Outcome { ok, what: "變化量 7".to_owned(), reload: false }
}

/// Gives slot `slot` an original pitch of the library. The player has to be
/// read again, unless all records are taken.
pub fn pick_original(p: &mut Proc, obj: u64, slot: usize, e: &LibEntry) -> (res: Outcome)
    requires
        slot < N_BALL,
    ensures
        forall|x: Player, y: Player|
            #![trigger reads_as(old(p)@, obj, x), reads_as(final(p)@, obj, y)]
            res.ok && e.raw@.len() == REC && editable(old(p)@, obj) && reads_as(old(p)@, obj, x)
                && reads_as(final(p)@, obj, y) ==> {
                let i = rec_index(y.recs@, slot);
                &&& i is Some
                &&& y.recs@[i->0].raw@.skip(4) == e.raw@.skip(4)
                &&& y.balls@ == x.balls@
                &&& forall|k: int|
                    0 <= k < N_REC && k != i->0 ==> (#[trigger] y.recs@[k]).raw@
                        == x.recs@[k].raw@
            },
        exists|i: Option<usize>| #[trigger]
            crate::edit::is_rec_for(old(p)@, obj, slot, i) && match i {
                Some(i) => {
                    &&& res.ok == old(p)@.accepts(rec_addr(obj, i as int), REC as int)
                    &&& res.reload
                    &&& res.what@ == slot_text(slot as int) + " 原創「"@ + e.name@ + "」"@
                    &&& final(p)@ == old(p)@.poke(
                        rec_addr(obj, i as int),
                        crate::edit::rec_with_slot(e.raw@, slot),
                    )
                },
                None => {
                    &&& says(res, false, "12 筆原創記錄都滿了"@)
                    &&& final(p)@ == old(p)@
                },
            },
{
    let got = find_rec_index(p, obj, slot);
    assert(crate::edit::is_rec_for(old(p)@, obj, slot, got));
    match got {
        Some(i) => {
            let ok = write_rec(p, obj, i, e.raw.as_slice(), slot);
            proof {
                assert forall|x: Player, y: Player|
                    #![trigger reads_as(old(p)@, obj, x), reads_as(p@, obj, y)]
                    e.raw@.len() == REC && editable(old(p)@, obj) && reads_as(old(p)@, obj, x)
                        && reads_as(p@, obj, y) implies {
                    let i = rec_index(y.recs@, slot);
                    &&& i is Some
                    &&& y.recs@[i->0].raw@.skip(4) == e.raw@.skip(4)
                    &&& y.balls@ == x.balls@
                    &&& forall|k: int|
                        0 <= k < N_REC && k != i->0 ==> (#[trigger] y.recs@[k]).raw@
                            == x.recs@[k].raw@
                } by {
                    given_record_is_read(old(p)@, obj, slot, i, e.raw@, x, y);
                }
            }
            let mut what = slot_label(slot);
            what.append(" 原創「");
            what.append(e.name.as_str());
            what.append("」");
            Outcome { ok, what, reload: true }
        },
        None => Outcome { ok: false, what: "12 筆原創記錄都滿了".to_owned(), reload: false },
    }
}

/// The pitches on offer for a slot of a direction, or all of them.
pub open spec fn ball_choices(any_dir: bool, dir: usize) -> Seq<u8> {
    if any_dir {
        seq![BALL_EMPTY, BALL_ORIGINAL] + BALL_NAMES@.filter(
            |e: (u8, &'static str)| e.0 != BALL_ORIGINAL,
        ).map_values(|e: (u8, &'static str)| e.0)
    } else {
        crate::balls::choices(dir)
    }
}

/// The pitches on offer for a slot of a direction, or all of them.
pub fn ball_options(any_dir: bool, dir: usize) -> (res: Vec<u8>)
    ensures
        res@ == ball_choices(any_dir, dir),
{
    if !any_dir {
        return balls_for_dir(dir);
    }
    let ghost keep = |e: (u8, &'static str)| e.0 != BALL_ORIGINAL;
    let ghost id = |e: (u8, &'static str)| e.0;
    let ghost t = BALL_NAMES@;
    let mut v: Vec<u8> = vec![BALL_EMPTY, BALL_ORIGINAL];
    let mut i: usize = 0;
    assert(v@ =~= seq![BALL_EMPTY, BALL_ORIGINAL] + t.take(0).filter(keep).map_values(id)) by {
        reveal(Seq::filter);
    }
    while i < BALL_NAMES.len()
        invariant
            t == BALL_NAMES@,
            i <= t.len(),
            keep == (|e: (u8, &'static str)| e.0 != BALL_ORIGINAL),
            id == (|e: (u8, &'static str)| e.0),
            v@ == seq![BALL_EMPTY, BALL_ORIGINAL] + t.take(i as int).filter(keep).map_values(id),
        decreases t.len() - i,
    {
        proof {
            reveal(Seq::filter);
            assert(t.take(i + 1).drop_last() =~= t.take(i as int));
        }
        let e = BALL_NAMES[i];
        let ghost before = v@;
        let ghost kept = t.take(i as int).filter(keep);
        if e.0 != BALL_ORIGINAL {
            v.push(e.0);
            assert(kept.push(e).map_values(id) =~= kept.map_values(id).push(e.0));
            assert(v@ =~= seq![BALL_EMPTY, BALL_ORIGINAL] + kept.push(e).map_values(id));
        }
        i += 1;
    }
    assert(t.take(i as int) =~= t);
    v
}

/// What is shown for a pitch on offer.
pub fn ball_option_label(id: u8) -> (res: String)
    ensures
        res@ == if id == BALL_ORIGINAL {
            "原創球種（下面選要哪一顆）"@
        } else {
            crate::balls::ball_text(id)
        },
{
    if id == BALL_ORIGINAL {
        "原創球種（下面選要哪一顆）".to_owned()
    } else {
        ball_name(id)
    }
}

/// The entries of the library below `k` that are on offer.
pub open spec fn lib_choices(lib: Seq<LibEntry>, any_dir: bool, dir: usize, k: int) -> Seq<usize>
    decreases k,
{
    if k <= 0 {
        seq![]
    } else {
        let rest = lib_choices(lib, any_dir, dir, k - 1);
        if any_dir || lib[k - 1].dir == dir {
            rest.push((k - 1) as usize)
        } else {
            rest
        }
    }
}

/// The entries of the library on offer for a slot of a direction, or all.
pub fn lib_options(lib: &Vec<LibEntry>, any_dir: bool, dir: usize) -> (res: Vec<usize>)
    ensures
        res@ == lib_choices(lib@, any_dir, dir, lib@.len() as int),
{
    let mut out: Vec<usize> = Vec::new();
    let mut i: usize = 0;
    while i < lib.len()
        invariant
            i <= lib@.len(),
            out@ == lib_choices(lib@, any_dir, dir, i as int),
        decreases lib@.len() - i,
    {
        if any_dir || lib[i].dir == dir as u64 {
            out.push(i);
        }
        i += 1;
    }
    out
}

/// What is shown for an entry of the library.
pub open spec fn entry_text(e: LibEntry) -> Seq<char> {
    crate::balls::zh_text(e.name@) + "　["@ + e.kind@ + "]　基底 "@ + crate::balls::ball_text(
        e.base,
    ) + "　"@ + e.holder@
}

/// What is shown for an entry of the library.
pub fn entry_label(e: &LibEntry) -> (res: String)
    ensures
        res@ == entry_text(*e),
{
    let mut s = zh_name(e.name.as_str());
    s.append("　[");
    s.append(e.kind.as_str());
    s.append("]　基底 ");
    s.append(ball_name(e.base).as_str());
    s.append("　");
    s.append(e.holder.as_str());
    s
}

/// What is shown for the original pitch that a slot has.
pub open spec fn original_text(pl: Player, slot: usize) -> Seq<char> {
    let name = match rec_index(pl.recs@, slot) {
        Some(i) => pl.recs@[i].name@,
        None => ""@,
    };
    if name.len() == 0 {
        "（未設定→畫面只顯示「原創」，點這裡挑一顆）"@
    } else {
        crate::balls::zh_text(name)
    }
}

/// What is shown for the original pitch that a slot has.
pub fn original_label(pl: &Player, slot: usize) -> (res: String)
    ensures
        res@ == original_text(*pl, slot),
{
    proof {
        reveal_strlit("");
    }
    match find_rec(pl, slot) {
        Some(i) => {
            let r = &pl.recs[i];
            if r.name.as_str().is_empty() {
                "（未設定→畫面只顯示「原創」，點這裡挑一顆）".to_owned()
            } else {
                zh_name(r.name.as_str())
            }
        },
        None => "（未設定→畫面只顯示「原創」，點這裡挑一顆）".to_owned(),
    }
}

/// A record that is worth showing: it is in use or has a name.
pub open spec fn is_listed(r: OrigRec) -> bool {
    r.slot < REC_UNUSED_SLOT || r.name@.len() > 0
}

/// What is shown for record `i`.
pub open spec fn rec_text(i: int, r: OrigRec) -> Seq<char> {
    "　rec#"@ + crate::digits::decimal(i as nat) + "　slot"@ + crate::digits::decimal(r.slot as nat)
        + "（方向"@ + crate::digits::decimal((r.slot % 6) as nat) + "）　"@ + crate::balls::zh_text(
        r.name@,
    ) + "　["@ + if r.official {
        "官方"@
    } else {
        "自訂"@
    } + "]　基底 "@ + crate::balls::ball_text(r.base)
}

/// What is shown for record `i`, `None` for one that is not worth showing.
pub fn rec_label(i: usize, r: &OrigRec) -> (res: Option<String>)
    ensures
        match res {
            Some(s) => is_listed(*r) && s@ == rec_text(i as int, *r),
            None => !is_listed(*r),
        },
{
    if r.slot >= REC_UNUSED_SLOT && r.name.as_str().is_empty() {
        return None;
    }
    let mut s = "　rec#".to_owned();
    push_decimal(&mut s, i as u64);
    s.append("　slot");
    push_decimal(&mut s, r.slot as u64);
    s.append("（方向");
    push_decimal(&mut s, (r.slot % 6) as u64);
    s.append("）　");
    s.append(zh_name(r.name.as_str()).as_str());
    s.append("　[");
    if r.official {
        s.append("官方");
    } else {
        s.append("自訂");
    }
    s.append("]　基底 ");
    s.append(ball_name(r.base).as_str());
    Some(s)
}

/// A pitch that is put into an empty slot can be thrown at once, and a slot
/// that is emptied keeps nothing in the game.
pub proof fn new_pitch_is_good(b: Ball, slot: int, id: u8)
    requires
        b.power == 0,
        id != BALL_EMPTY,
    ensures
        put_in(b, slot, id).power == 7,
        put_in(b, slot, id).control == 7,
        slot % 6 == 5 ==> put_in(b, slot, id).move_ == 0,
        ball_bytes(put_in(b, slot, BALL_EMPTY)) == seq![BALL_EMPTY, 0u8, 0u8],
{
}

} // verus!

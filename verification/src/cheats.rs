//! What is written again and again while the game runs, because the game
//! itself changes these values: items, use counters, the training boost, and
//! the abilities of a locked player.

use vstd::prelude::*;

use crate::agreement::reads_as;
use crate::edit::write_pack;
use crate::koshien::{
    clear_koshien_use_limits, set_koshien_items, set_koshien_pracbuff, set_shared_items,
    KOSHIEN_ITEM_N, KOSHIEN_PRACBUFF, KOSHIEN_PRACBUFF_DAYS, SHARED_ITEM_N,
};
use crate::offsets::{N_BALL, OFF_ABIL2, OFF_BALL, OFF_DEF, OFF_ITEM, OFF_NAME, OFF_PACK, OFF_STATS};
use crate::player::{Ball, Player};
use crate::edit_laws::{editable, object, write_stays_in_place};
use crate::process::{at, Memory, Proc};
use crate::research::is_still_there;

verus! {

/// The abilities that a locked player is held at.
pub struct LockTarget {
    pub addr: u64,
    /// Compared with the name in the game before every write.
    pub name: String,
    pub stats: [u8; 8],
    pub defense: u8,
    pub speed: u16,
    pub stamina: u16,
    pub pack_hi: u16,
    pub abil: [u8; 14],
    /// The pitches as they stand in memory, three bytes each.
    pub balls: Vec<u8>,
}

/// The switches of what is written again and again.
pub struct Cheats {
    pub koshien_items: bool,
    pub koshien_limit: bool,
    pub koshien_prac: bool,
    pub shared_items: bool,
    pub star_items: bool,
    /// Hold the locked player at its abilities.
    pub lock_player: bool,
    /// Hold its pitches too. Pitches learnt in the game are then lost.
    pub lock_balls: bool,
    pub lock: Option<LockTarget>,
    /// The name did not match in the last round: the object has moved.
    pub lock_stale: bool,
    /// How many rounds there were.
    pub ticks: u64,
}

/// The pitch fits its three bytes.
pub open spec fn ball_fits(b: Ball) -> bool {
    b.power * 8 + b.move_ <= 255
}

/// The bytes of the first `k` pitches.
pub open spec fn ball_array(balls: Seq<Ball>, k: nat) -> Seq<u8>
    decreases k,
{
    if k == 0 {
        seq![]
    } else {
        let b = balls[k - 1];
        ball_array(balls, (k - 1) as nat) + seq![b.id, (b.power * 8 + b.move_) as u8, b.control]
    }
}

/// `t` holds the abilities of `pl`.
pub open spec fn locks(t: LockTarget, pl: Player) -> bool {
    &&& t.addr == pl.addr
    &&& t.name@ == pl.name@
    &&& t.stats == pl.stats
    &&& t.defense == pl.defense
    &&& t.speed == pl.speed
    &&& t.stamina == pl.stamina
    &&& t.pack_hi == pl.pack_hi
    &&& t.abil == pl.abil
    &&& t.balls@ == ball_array(pl.balls@, pl.balls@.len())
}

/// The memory with the abilities of `t` in the object.
pub open spec fn locked(m: Memory, t: LockTarget, with_balls: bool)
    -> Memory {
    let to = |off: usize| at(t.addr, off as int);
    let abilities = m.poke(
        to(OFF_PACK),
        crate::bytes::bytes16(crate::edit::pack_word(t.speed, t.stamina, t.pack_hi)),
    ).poke(to(OFF_STATS), t.stats@).poke(to(OFF_DEF), seq![t.defense]).poke(to(OFF_ABIL2), t.abil@);
    if with_balls {
        abilities.poke(to(OFF_BALL), t.balls@)
    } else {
        abilities
    }
}

/// The memory with every item of the mode at `val`.
pub open spec fn with_items(m: Memory, val: u32) -> Memory {
    match crate::koshien::item_obj(m) {
        Some(o) => m.poke(
            o.wrapping_add(0x0C),
            crate::koshien::repeated(val, KOSHIEN_ITEM_N as int),
        ),
        None => m,
    }
}

/// The memory with the use counters of the roster at zero.
pub open spec fn without_limits(m: Memory) -> Memory {
    if crate::koshien::sound(m, crate::koshien::slots(m)) {
        crate::koshien::poke_each(m, crate::koshien::slots(m), OFF_ITEM as int, seq![0u8, 0u8])
    } else {
        m
    }
}

/// The memory with the training boost at `days`.
pub open spec fn with_boost(m: Memory, days: i16) -> Memory {
    match crate::koshien::item_obj(m) {
        Some(o) => m.poke(
            o.wrapping_add(KOSHIEN_PRACBUFF),
            crate::bytes::bytes16(crate::bytes::pattern16(days)),
        ),
        None => m,
    }
}

/// The memory with every shared item at `val`.
pub open spec fn with_shared(m: Memory, val: u32) -> Memory {
    match crate::koshien::shared_items(m) {
        Some(a) => m.poke(a, crate::koshien::repeated(val, SHARED_ITEM_N as int)),
        None => m,
    }
}

/// The memory before the lock in a round.
pub open spec fn before_lock(c: Cheats, m: Memory) -> Memory {
    let m1 = if c.koshien_items {
        with_items(m, 99)
    } else {
        m
    };
    let m2 = if c.koshien_limit {
        without_limits(m1)
    } else {
        m1
    };
    let m3 = if c.koshien_prac {
        with_boost(m2, KOSHIEN_PRACBUFF_DAYS)
    } else {
        m2
    };
    if c.shared_items {
        with_shared(m3, 99)
    } else {
        m3
    }
}

/// What the lock does to the memory.
pub open spec fn after_lock(c: Cheats, m: Memory) -> Memory {
    match c.lock {
        Some(t) => if crate::research::still_there(m, t.addr, t.name@) {
            locked(m, t, c.lock_balls)
        } else {
            m
        },
        None => m,
    }
}

/// What a round does to the memory.
pub open spec fn after_round(c: Cheats, m: Memory) -> Memory {
    if c.lock_player {
        after_lock(c, before_lock(c, m))
    } else {
        before_lock(c, m)
    }
}

/// Whether the lock is stale after an attempt to apply it.
pub open spec fn stale_after(c: Cheats, m: Memory) -> bool {
    match c.lock {
        Some(t) => !crate::research::still_there(m, t.addr, t.name@),
        None => c.lock_stale,
    }
}

/// The main module of a running program stands where it was found.
pub open spec fn is_alive(m: Memory) -> bool {
    m.fetch(m.base, 2) == Some(seq![0x4Du8, 0x5Au8])
}

/// Whether the game that was attached still runs. The memory of a program that
/// ended cannot be read, so its main module no longer starts as modules do.
pub fn proc_alive(p: &Proc) -> (res: bool)
    ensures
        res == is_alive(p@),
{
    match p.read(p.base, 2) {
        Some(b) => {
            let res: bool = b.len() == 2 && b[0] == 0x4D && b[1] == 0x5A;
            assert(res == (b@ =~= seq![0x4Du8, 0x5Au8]));
            res
        },
        None => false,
    }
}

impl LockTarget {
    /// The abilities of a player, to be held.
    pub fn of(pl: &Player) -> (res: LockTarget)
        requires
            forall|k: int| 0 <= k < pl.balls@.len() ==> ball_fits(#[trigger] pl.balls@[k]),
        ensures
            locks(res, *pl),
    {
        let mut balls: Vec<u8> = Vec::new();
        let mut k: usize = 0;
        while k < pl.balls.len()
            invariant
                k <= pl.balls@.len(),
                forall|j: int| 0 <= j < pl.balls@.len() ==> ball_fits(#[trigger] pl.balls@[j]),
                balls@ == ball_array(pl.balls@, k as nat),
            decreases pl.balls@.len() - k,
        {
            let b = pl.balls[k];
            assert(ball_fits(pl.balls@[k as int]));
            balls.push(b.id);
            balls.push(b.power * 8 + b.move_);
            balls.push(b.control);
            k += 1;
            assert(balls@ =~= ball_array(pl.balls@, k as nat));
        }
        LockTarget {
            addr: pl.addr,
            name: pl.name.clone(),
            stats: pl.stats,
            defense: pl.defense,
            speed: pl.speed,
            stamina: pl.stamina,
            pack_hi: pl.pack_hi,
            abil: pl.abil,
            balls,
        }
    }

    fn write(&self, p: &mut Proc, with_balls: bool)
        ensures
            final(p)@ == locked(old(p)@, *self, with_balls),
    {
        let _ = write_pack(p, self.addr, self.speed, self.stamina, self.pack_hi);
        let _ = p.write(self.addr.wrapping_add(OFF_STATS as u64), &self.stats);
        let defense: [u8; 1] = [self.defense];
        assert(defense@ =~= seq![self.defense]);
        let _ = p.write(self.addr.wrapping_add(OFF_DEF as u64), &defense);
        let _ = p.write(self.addr.wrapping_add(OFF_ABIL2 as u64), &self.abil);
        if with_balls {
            let _ = p.write(self.addr.wrapping_add(OFF_BALL as u64), &self.balls);
        }
    }
}

impl Cheats {
    /// Nothing is switched on.
    pub fn new() -> (res: Cheats)
        ensures
            !res.koshien_items,
            !res.koshien_limit,
            !res.koshien_prac,
            !res.shared_items,
            !res.star_items,
            !res.lock_player,
            !res.lock_balls,
            res.lock is None,
            !res.lock_stale,
            res.ticks == 0,
    {
        Cheats {
            koshien_items: false,
            koshien_limit: false,
            koshien_prac: false,
            shared_items: false,
            star_items: false,
            lock_player: false,
            lock_balls: false,
            lock: None,
            lock_stale: false,
            ticks: 0,
        }
    }

    /// Whether anything is switched on. Holding the pitches alone is nothing.
    pub fn any_on(&self) -> (res: bool)
        ensures
            res == (self.koshien_items || self.koshien_limit || self.koshien_prac
                || self.shared_items || self.star_items || self.lock_player),
    {
        self.koshien_items || self.koshien_limit || self.koshien_prac || self.shared_items
            || self.star_items || self.lock_player
    }

    /// One round: everything that is switched on is written once. What belongs
    /// to a mode that is not being played is passed over.
    pub fn apply(&mut self, p: &mut Proc)
        ensures
            ({
                let c = *old(self);
                let m = before_lock(c, old(p)@);
                &&& final(p)@ == after_round(c, old(p)@)
                &&& *final(self) == (Cheats {
                    lock_stale: if c.lock_player {
                        stale_after(c, m)
                    } else {
                        c.lock_stale
                    },
                    ticks: c.ticks.wrapping_add(1),
                    ..c
                })
            }),
    {
        if self.koshien_items {
            let _ = set_koshien_items(p, 99);
        }
        if self.koshien_limit {
            let _ = clear_koshien_use_limits(p);
        }
        if self.koshien_prac {
            let _ = set_koshien_pracbuff(p, KOSHIEN_PRACBUFF_DAYS);
        }
        if self.shared_items {
            let _ = set_shared_items(p, 99);
        }
        if self.lock_player {
            apply_lock(p, self);
        }
        self.ticks = self.ticks.wrapping_add(1);
    }

    /// Switches the lock on, to hold `pl`, or off.
    pub fn set_lock(&mut self, on: bool, pl: &Player)
        requires
            forall|k: int| 0 <= k < pl.balls@.len() ==> ball_fits(#[trigger] pl.balls@[k]),
        ensures
            *final(self) == (Cheats {
                lock_player: on,
                lock: final(self).lock,
                lock_stale: false,
                ..*old(self)
            }),
            final(self).lock is Some == on,
            on ==> locks(final(self).lock->0, *pl),
    {
        self.lock_player = on;
        self.lock = if on {
            Some(LockTarget::of(pl))
        } else {
            None
        };
        self.lock_stale = false;
    }

    /// Takes over what was just edited, where `pl` is the locked player or
    /// nobody is locked yet, and gives the name of the locked player where that
    /// is somebody else.
    pub fn follow(&mut self, pl: &Player) -> (res: Option<String>)
        requires
            forall|k: int| 0 <= k < pl.balls@.len() ==> ball_fits(#[trigger] pl.balls@[k]),
        ensures
            *final(self) == (Cheats { lock: final(self).lock, ..*old(self) }),
            match old(self).lock {
                Some(t) if t.addr != pl.addr => {
                    &&& final(self).lock == old(self).lock
                    &&& res is Some
                    &&& res->0@ == t.name@
                },
                _ => {
                    &&& res is None
                    &&& final(self).lock is Some
                    &&& locks(final(self).lock->0, *pl)
                },
            },
    {
        let other = match &self.lock {
            Some(t) => if t.addr != pl.addr {
                Some(t.name.clone())
            } else {
                None
            },
            None => None,
        };
        if other.is_none() {
            self.lock = Some(LockTarget::of(pl));
        }
        other
    }
}

/// Writes the abilities of the locked player, if its object is still its own.
/// Loading a save moves the objects, and the old address then belongs to
/// somebody else, so the name is compared every time.
pub fn apply_lock(p: &mut Proc, c: &mut Cheats)
    ensures
        final(p)@ == after_lock(*old(c), old(p)@),
        *final(c) == (Cheats { lock_stale: stale_after(*old(c), old(p)@), ..*old(c) }),
{
    let stale = match &c.lock {
        Some(t) => {
            if is_still_there(p, t.addr, &t.name) {
                t.write(p, c.lock_balls);
                false
            } else {
                true
            }
        },
        None => {
            return;
        },
    };
    c.lock_stale = stale;
}

/// A lock never writes into an object that carries another name.
pub proof fn lock_spares_strangers(c: Cheats, m: Memory)
    requires
        c.lock is Some,
        crate::text::name_at(m, c.lock->0.addr) != c.lock->0.name@,
    ensures
        after_lock(c, m) == m,
        stale_after(c, m),
{
}

proof fn name_of_object(m: Memory, obj: u64)
    requires
        editable(m, obj),
    ensures
        crate::text::name_at(m, obj) == crate::text::full_name(
            object(m, obj).subrange(OFF_NAME as int, OFF_NAME + 64),
        ),
{
    let a = at(obj, OFF_NAME as int);
    assert forall|i: int| 0 <= i < 64 implies m.cells.dom().contains(#[trigger] at(a, i))
        && m.cells[at(a, i)].byte == object(m, obj)[OFF_NAME + i] by {
        assert(at(a, i) == at(obj, OFF_NAME + i));
        assert(m.cells.dom().contains(at(obj, OFF_NAME + i)));
    }
    assert(m.bytes(a, 64) =~= object(m, obj).subrange(OFF_NAME as int, OFF_NAME + 64));
}

/// After a lock was written the object holds the locked abilities, and its name
/// as before, so that the next round finds it again.
pub proof fn lock_holds(m: Memory, t: LockTarget, with_balls: bool)
    requires
        editable(m, t.addr),
        t.balls@.len() == 3 * N_BALL,
    ensures
        ({
            let n = locked(m, t, with_balls);
            let b = object(n, t.addr);
            &&& editable(n, t.addr)
            &&& b.subrange(OFF_STATS as int, OFF_STATS + 8) == t.stats@
            &&& b[OFF_DEF as int] == t.defense
            &&& b.subrange(OFF_ABIL2 as int, OFF_ABIL2 + 14) == t.abil@
            &&& b.subrange(OFF_PACK as int, OFF_PACK + 2) == crate::bytes::bytes16(
                crate::edit::pack_word(t.speed, t.stamina, t.pack_hi),
            )
            &&& b.subrange(OFF_BALL as int, OFF_BALL + 36) == if with_balls {
                t.balls@
            } else {
                object(m, t.addr).subrange(OFF_BALL as int, OFF_BALL + 36)
            }
            &&& crate::text::name_at(n, t.addr) == crate::text::name_at(m, t.addr)
        }),
{
    let obj = t.addr;
    let pack = crate::bytes::bytes16(crate::edit::pack_word(t.speed, t.stamina, t.pack_hi));
    let m1 = m.poke(at(obj, OFF_PACK as int), pack);
    let m2 = m1.poke(at(obj, OFF_STATS as int), t.stats@);
    let m3 = m2.poke(at(obj, OFF_DEF as int), seq![t.defense]);
    let m4 = m3.poke(at(obj, OFF_ABIL2 as int), t.abil@);
    let m5 = m4.poke(at(obj, OFF_BALL as int), t.balls@);
    write_stays_in_place(m, obj, OFF_PACK as int, pack);
    write_stays_in_place(m1, obj, OFF_STATS as int, t.stats@);
    write_stays_in_place(m2, obj, OFF_DEF as int, seq![t.defense]);
    write_stays_in_place(m3, obj, OFF_ABIL2 as int, t.abil@);
    write_stays_in_place(m4, obj, OFF_BALL as int, t.balls@);
    name_of_object(m, obj);
    name_of_object(m4, obj);
    name_of_object(m5, obj);
    let n = locked(m, t, with_balls);
    assert(n == if with_balls {
        m5
    } else {
        m4
    });
    let b = object(n, obj);
    assert(b.subrange(OFF_NAME as int, OFF_NAME + 64) =~= object(m, obj).subrange(
        OFF_NAME as int,
        OFF_NAME + 64,
    ));
    assert(b.subrange(OFF_STATS as int, OFF_STATS + 8) =~= t.stats@);
    assert(b.subrange(OFF_ABIL2 as int, OFF_ABIL2 + 14) =~= t.abil@);
    assert(b.subrange(OFF_PACK as int, OFF_PACK + 2) =~= pack);
    if with_balls {
        assert(b.subrange(OFF_BALL as int, OFF_BALL + 36) =~= t.balls@);
    } else {
        assert(b.subrange(OFF_BALL as int, OFF_BALL + 36) =~= object(m, obj).subrange(
            OFF_BALL as int,
            OFF_BALL + 36,
        ));
    }
}

/// A round in which nothing is switched on leaves the game alone.
pub proof fn nothing_on_changes_nothing(c: Cheats, m: Memory)
    requires
        !c.koshien_items,
        !c.koshien_limit,
        !c.koshien_prac,
        !c.shared_items,
        !c.lock_player,
    ensures
        after_round(c, m) == m,
{
}

proof fn pitch_bytes(balls: Seq<Ball>, n: nat, k: int)
    requires
        n <= balls.len(),
        0 <= k < n,
    ensures
        ({
            let a = ball_array(balls, n);
            &&& a.len() == 3 * n
            &&& a[3 * k] == balls[k].id
            &&& a[3 * k + 1] == (balls[k].power * 8 + balls[k].move_) as u8
            &&& a[3 * k + 2] == balls[k].control
        }),
    decreases n,
{
    let d = ball_array(balls, (n - 1) as nat);
    if k < n - 1 {
        pitch_bytes(balls, (n - 1) as nat, k);
    } else if n > 1 {
        pitch_bytes(balls, (n - 1) as nat, 0);
    } else {
        assert(d =~= Seq::<u8>::empty());
    }
}

/// Whoever reads a locked player after the lock was written reads the abilities,
/// the speed, the stamina, the pitching aptitude and the special abilities that
/// it was locked at. The pitches are those it was locked at if they are held
/// too, and else as they were. Name, team, position and fielding stay.
pub proof fn locked_player_reads_as_it_was(
    m: Memory,
    t: LockTarget,
    pl: Player,
    with_balls: bool,
    x: Player,
    y: Player,
)
    requires
        editable(m, t.addr),
        locks(t, pl),
        80 <= pl.speed <= 207,
        pl.stamina <= 127,
        pl.pack_hi % 0x4000 == 0,
        pl.balls@.len() == 12,
        forall|k: int|
            0 <= k < 12 ==> (#[trigger] pl.balls@[k]).power < 32 && pl.balls@[k].move_ < 8,
        reads_as(m, pl.addr, x),
        reads_as(locked(m, t, with_balls), pl.addr, y),
    ensures
        y.stats@ == pl.stats@,
        y.speed == pl.speed,
        y.stamina == pl.stamina,
        y.defense == pl.defense,
        y.abil@ == pl.abil@,
        y.balls@ == if with_balls {
            pl.balls@
        } else {
            x.balls@
        },
        y.name@ == x.name@,
        y.team == x.team,
        y.pos == x.pos,
        y.field@ == x.field@,
{
    pitch_bytes(pl.balls@, 12, 0);
    lock_holds(m, t, with_balls);
    let n = locked(m, t, with_balls);
    let (a, b) = (object(m, t.addr), object(n, t.addr));
    pack_of_lock(b, t);
    assert(y.stats@ =~= pl.stats@);
    assert(y.abil@ =~= pl.abil@);
    locked_elsewhere(m, t, with_balls);
    assert(y.field@ =~= x.field@);
    assert(crate::text::name_window(b) =~= crate::text::name_window(a));
    pitches_of_lock(a, b, t, pl, with_balls, x.balls@, y.balls@);
}

proof fn pack_of_lock(b: Seq<u8>, t: LockTarget)
    requires
        b.len() == crate::offsets::PLAYER_READ,
        80 <= t.speed <= 207,
        t.stamina <= 127,
        t.pack_hi % 0x4000 == 0,
        b.subrange(OFF_PACK as int, OFF_PACK + 2) == crate::bytes::bytes16(
            crate::edit::pack_word(t.speed, t.stamina, t.pack_hi),
        ),
    ensures
        crate::bytes::le16(b, OFF_PACK as int) % 128 + 80 == t.speed,
        crate::bytes::le16(b, OFF_PACK as int) / 128 % 128 == t.stamina,
{
    let w = crate::edit::pack_word(t.speed, t.stamina, t.pack_hi);
    let s = b.subrange(OFF_PACK as int, OFF_PACK + 2);
    assert(s[0] == b[OFF_PACK as int] && s[1] == b[OFF_PACK + 1]);
    crate::bytes::le_undoes_bytes(0, w, 0);
    crate::edit_laws::pack_bits(t.speed, t.stamina, t.pack_hi);
}

/// The lock changes nothing from the records on, and nothing in the field.
proof fn locked_elsewhere(m: Memory, t: LockTarget, with_balls: bool)
    requires
        editable(m, t.addr),
        t.balls@.len() == 3 * N_BALL,
    ensures
        ({
            let (a, b) = (object(m, t.addr), object(locked(m, t, with_balls), t.addr));
            &&& forall|i: int|
                crate::offsets::OFF_ORIG <= i < crate::offsets::PLAYER_READ ==> #[trigger] b[i]
                    == a[i]
            &&& forall|i: int|
                crate::offsets::OFF_FIELD <= i < crate::offsets::OFF_FIELD + 8 ==> #[trigger] b[i]
                    == a[i]
        }),
{
    let obj = t.addr;
    let pack = crate::bytes::bytes16(crate::edit::pack_word(t.speed, t.stamina, t.pack_hi));
    let m1 = m.poke(at(obj, OFF_PACK as int), pack);
    let m2 = m1.poke(at(obj, OFF_STATS as int), t.stats@);
    let m3 = m2.poke(at(obj, OFF_DEF as int), seq![t.defense]);
    let m4 = m3.poke(at(obj, OFF_ABIL2 as int), t.abil@);
    write_stays_in_place(m, obj, OFF_PACK as int, pack);
    write_stays_in_place(m1, obj, OFF_STATS as int, t.stats@);
    write_stays_in_place(m2, obj, OFF_DEF as int, seq![t.defense]);
    write_stays_in_place(m3, obj, OFF_ABIL2 as int, t.abil@);
    write_stays_in_place(m4, obj, OFF_BALL as int, t.balls@);
}

proof fn pitches_of_lock(
    a: Seq<u8>,
    b: Seq<u8>,
    t: LockTarget,
    pl: Player,
    with_balls: bool,
    x: Seq<Ball>,
    y: Seq<Ball>,
)
    requires
        a.len() == crate::offsets::PLAYER_READ,
        b.len() == crate::offsets::PLAYER_READ,
        t.balls@ == ball_array(pl.balls@, 12),
        pl.balls@.len() == 12,
        x.len() == 12,
        y.len() == 12,
        forall|k: int|
            0 <= k < 12 ==> (#[trigger] pl.balls@[k]).power < 32 && pl.balls@[k].move_ < 8,
        forall|k: int| 0 <= k < 12 ==> #[trigger] x[k] == crate::player::ball_in(a, k),
        forall|k: int| 0 <= k < 12 ==> #[trigger] y[k] == crate::player::ball_in(b, k),
        b.subrange(OFF_BALL as int, OFF_BALL + 36) == if with_balls {
            t.balls@
        } else {
            a.subrange(OFF_BALL as int, OFF_BALL + 36)
        },
    ensures
        y == if with_balls {
            pl.balls@
        } else {
            x
        },
{
    let want = if with_balls {
        pl.balls@
    } else {
        x
    };
    assert forall|k: int| 0 <= k < 12 implies #[trigger] y[k] == want[k] by {
        let o = OFF_BALL + k * 3;
        let s = b.subrange(OFF_BALL as int, OFF_BALL + 36);
        assert(b[o] == s[3 * k] && b[o + 1] == s[3 * k + 1] && b[o + 2] == s[3 * k + 2]);
        if with_balls {
            pitch_bytes(pl.balls@, 12, k);
            let c = pl.balls@[k];
            assert(c.power < 32 && c.move_ < 8);
        } else {
            let u = a.subrange(OFF_BALL as int, OFF_BALL + 36);
            assert(a[o] == u[3 * k] && a[o + 1] == u[3 * k + 1] && a[o + 2] == u[3 * k + 2]);
            assert(x[k] == crate::player::ball_in(a, k));
        }
    }
    assert(y =~= want);
}

/// A round with the items of the mode switched on alone leaves 99 of each of the
/// 221 kinds.
pub proof fn items_are_filled_up(c: Cheats, m: Memory, i: int)
    requires
        c.koshien_items && !c.koshien_limit && !c.koshien_prac && !c.shared_items && !c.lock_player,
        crate::koshien::item_array(m) is Some,
        m.accepts(crate::koshien::item_array(m)->0, 884),
        0 <= i < 221,
    ensures
        crate::koshien::number_at(after_round(c, m), crate::koshien::item_array(m)->0, i) == 99,
{
    let a = crate::koshien::item_array(m)->0;
    crate::koshien::numbers_are_read(m, a, 99, 221);
    assert(crate::koshien::number_at(m.poke(a, crate::koshien::repeated(99, 221)), a, i) == 99);
}

/// A round with the shared items switched on alone leaves 99 of each of the 49
/// kinds.
pub proof fn shared_items_are_filled_up(c: Cheats, m: Memory, i: int)
    requires
        c.shared_items && !c.koshien_items && !c.koshien_limit && !c.koshien_prac && !c.lock_player,
        crate::koshien::shared_items(m) is Some,
        m.accepts(crate::koshien::shared_items(m)->0, 196),
        0 <= i < 49,
    ensures
        crate::koshien::number_at(after_round(c, m), crate::koshien::shared_items(m)->0, i) == 99,
{
    let a = crate::koshien::shared_items(m)->0;
    crate::koshien::numbers_are_read(m, a, 99, 49);
    assert(crate::koshien::number_at(m.poke(a, crate::koshien::repeated(99, 49)), a, i) == 99);
}

/// A round with the training boost switched on alone lets it last 9999 days.
pub proof fn boost_is_prolonged(c: Cheats, m: Memory)
    requires
        c.koshien_prac && !c.koshien_items && !c.koshien_limit && !c.shared_items && !c.lock_player,
        crate::koshien::item_obj(m) is Some,
        m.accepts((crate::koshien::item_obj(m)->0).wrapping_add(KOSHIEN_PRACBUFF), 2),
    ensures
        crate::koshien::boost_days(after_round(c, m), crate::koshien::item_obj(m)->0) == 9999,
{
    let a = (crate::koshien::item_obj(m)->0).wrapping_add(KOSHIEN_PRACBUFF);
    let w = crate::bytes::pattern16(9999);
    crate::process::read_after_write(m, a, crate::bytes::bytes16(w));
    crate::bytes::le_undoes_bytes(0, w, 0);
}

/// A round with the use limits switched on alone lets every player of a sound
/// roster use items and books again.
pub proof fn limits_are_lifted(c: Cheats, m: Memory, i: int, y: Player)
    requires
        c.koshien_limit && !c.koshien_items && !c.koshien_prac && !c.shared_items && !c.lock_player,
        crate::koshien::sound(m, crate::koshien::slots(m)),
        0 <= i < crate::koshien::slots(m).len(),
        editable(m, crate::koshien::slots(m)[i]),
        reads_as(after_round(c, m), crate::koshien::slots(m)[i], y),
    ensures
        y.item == 0,
        y.book == 0,
{
    let list = crate::koshien::slots(m);
    crate::koshien::each_object_gets(m, list, OFF_ITEM as int, seq![0u8, 0u8], 0, i, 0);
    crate::koshien::each_object_gets(m, list, OFF_ITEM as int, seq![0u8, 0u8], 0, i, 1);
}

/// A round with the lock switched on alone holds the locked player, if the
/// object still carries its name.
pub proof fn lock_acts_in_a_round(c: Cheats, m: Memory)
    requires
        c.lock_player && !c.koshien_items && !c.koshien_limit && !c.koshien_prac && !c.shared_items,
        c.lock is Some,
        crate::text::name_at(m, c.lock->0.addr) == c.lock->0.name@,
        crate::text::is_sane(c.lock->0.name@),
    ensures
        after_round(c, m) == locked(m, c.lock->0, c.lock_balls),
        !stale_after(c, m),
{
}

} // verus!

//! Player objects: their fields, and how these are read out of memory.

use vstd::prelude::*;
use vstd::string::*;

use crate::balls::{ball_dir, ball_name, zh_name, BALL_EMPTY, BALL_ORIGINAL};
use crate::bytes::{get16, get32};
use crate::digits::push_decimal;
use crate::fields::{batting_style_from_raw, zone_get, BATTING_STYLE_UNKNOWN};
use crate::offsets::{
    N_BALL, N_REC, OFF_ABIL2, OFF_ACADEMIC, OFF_BALL, OFF_BATTING_AGGRESSION, OFF_BATTING_STYLE,
    OFF_BATTING_SYNC, OFF_BOOK, OFF_CATCH, OFF_DEF, OFF_ENERGY, OFF_FIELD, OFF_GRADE, OFF_ITEM,
    OFF_MOOD, OFF_ORIG, OFF_PACK, OFF_PERSONALITY, OFF_PLATE_DISCIPLINE, OFF_POPULARITY, OFF_POS,
    OFF_RECRUIT_EVAL, OFF_STATS, OFF_TEAM, OFF_TRUST, OFF_ZONE, PLAYER_READ, POPULARITY_ON, REC,
    REC_BASE, REC_KANA, REC_NAME, REC_NAME_MAX, REC_OFFICIAL,
};
use crate::process::Proc;
use crate::text::{cstr, name_from};

verus! {

/// One pitch of a player.
#[derive(Clone, Copy, Debug, Default)]
pub struct Ball {
    pub id: u8,
    pub power: u8,
    pub control: u8,
    pub move_: u8,
}

/// The record of an original pitch.
#[derive(Clone, Debug, Default)]
pub struct OrigRec {
    pub slot: u32,
    pub name: String,
    pub base: u8,
    pub official: bool,
    pub raw: Vec<u8>,
}

/// A player as read from memory.
#[derive(Clone, Debug, Default)]
pub struct Player {
    pub addr: u64,
    pub name: String,
    pub stats: [u8; 8],
    /// Fielding aptitudes: catcher, first, second, third, short, left, centre, right.
    pub field: [u8; 8],
    /// Pitching aptitude.
    pub defense: u8,
    /// Main position: 0 is the pitcher, 1 the catcher, and so on up to 8.
    pub pos: u8,
    /// Catcher's lead, 0 to 7.
    pub catcher: u8,
    /// Batting aggression, 0 to 6.
    pub batting_aggression: u8,
    /// Plate discipline, 0 to 6.
    pub plate_discipline: u8,
    pub popularity: bool,
    /// Batting style, 0 to 6, or [`BATTING_STYLE_UNKNOWN`].
    pub batting_style: u8,
    pub team: u8,
    /// Hot and cold zones, row by row, each from -3 to 3.
    pub zone: [i8; 9],
    pub speed: u16,
    pub stamina: u16,
    /// The two flags above speed and stamina.
    pub pack_hi: u16,
    /// Three pitching traits of three bits each.
    pub pitch_traits: [u8; 3],
    pub grade: u8,
    pub trust: u8,
    pub personality: u8,
    pub mood: u8,
    pub energy: u16,
    pub academic: u8,
    pub recruit_eval: u16,
    pub item: u8,
    pub book: u8,
    pub balls: Vec<Ball>,
    pub recs: Vec<OrigRec>,
    /// The special abilities.
    pub abil: [u8; 14],
}

/// Pitch `k` in the bytes of a player object.
pub open spec fn ball_in(b: Seq<u8>, k: int) -> Ball {
    let o = OFF_BALL + k * 3;
    Ball { id: b[o], power: (b[o + 1] / 8) as u8, control: b[o + 2], move_: (b[o + 1] % 8) as u8 }
}

/// The bytes of record `i` in the bytes of a player object.
pub open spec fn rec_bytes(b: Seq<u8>, i: int) -> Seq<u8> {
    b.subrange(OFF_ORIG + i * REC, OFF_ORIG + (i + 1) * REC)
}

/// `rec` is what the record bytes `r` say.
pub open spec fn is_rec(r: Seq<u8>, rec: OrigRec) -> bool {
    &&& rec.slot == crate::bytes::le32(r, 0)
    &&& rec.name@ == {
        let n = r.subrange(REC_NAME as int, REC_NAME + REC_NAME_MAX);
        crate::unicode::utf8_text(n.take(crate::text::zero_at(n)))
    }
    &&& rec.base == r[REC_BASE as int]
    &&& rec.official == (r[REC_OFFICIAL as int] == 1 || exists|k: int|
        REC_KANA <= k < REC_KANA + 8 && #[trigger] r[k] != 0)
    &&& rec.raw@ == r
}

/// `pl` is what the bytes `b` of the player object at `obj` say.
pub open spec fn is_player(b: Seq<u8>, obj: u64, pl: Player) -> bool {
    let pack = crate::bytes::le16(b, OFF_PACK as int);
    let pitcher = crate::bytes::le32(b, OFF_DEF as int);
    let zone = crate::bytes::le32(b, OFF_ZONE as int);
    &&& pl.addr == obj
    &&& pl.name@ == crate::text::name_in(b)
    &&& pl.stats@ == b.subrange(OFF_STATS as int, OFF_STATS + 8)
    &&& pl.field@ == b.subrange(OFF_FIELD as int, OFF_FIELD + 8)
    &&& pl.defense == b[OFF_DEF as int]
    &&& pl.pos == crate::bytes::le16(b, OFF_POS as int) / 8 % 16
    &&& pl.catcher == b[OFF_CATCH as int] / 16 % 8
    &&& pl.batting_aggression == b[OFF_BATTING_AGGRESSION as int] % 8
    &&& pl.plate_discipline == b[OFF_PLATE_DISCIPLINE as int] / 8 % 8
    &&& pl.popularity == (b[OFF_POPULARITY as int] % 8 == POPULARITY_ON)
    &&& pl.batting_style == match crate::fields::style_of(
        b[OFF_CATCH as int] >= 0x80,
        b[OFF_BATTING_STYLE as int] as int % 4,
    ) {
        Some(s) => s,
        None => BATTING_STYLE_UNKNOWN,
    }
    &&& pl.team == b[OFF_TEAM as int]
    &&& pl.zone@ == Seq::new(9, |i: int| crate::fields::zone_value(zone, i))
    &&& pl.speed == pack % 128 + 80
    &&& pl.stamina == pack / 128 % 128
    &&& pl.pack_hi == pack / 0x4000 * 0x4000
    &&& pl.pitch_traits@ == seq![
        (pitcher / 0x40_0000 % 8) as u8,
        (pitcher / 0x200_0000 % 8) as u8,
        (pitcher / 0x1000_0000 % 8) as u8,
    ]
    &&& pl.grade == b[OFF_GRADE as int]
    &&& pl.trust == b[OFF_TRUST as int]
    &&& pl.personality == b[OFF_PERSONALITY as int]
    &&& pl.mood == b[OFF_MOOD as int]
    &&& pl.energy == crate::bytes::le16(b, OFF_ENERGY as int)
    &&& pl.academic == b[OFF_ACADEMIC as int]
    &&& pl.recruit_eval == crate::bytes::le16(b, OFF_RECRUIT_EVAL as int)
    &&& pl.item == b[OFF_ITEM as int]
    &&& pl.book == b[OFF_BOOK as int]
    &&& pl.balls@ == Seq::new(N_BALL as nat, |k: int| ball_in(b, k))
    &&& pl.recs@.len() == N_REC
    &&& forall|i: int| 0 <= i < N_REC ==> is_rec(rec_bytes(b, i), #[trigger] pl.recs@[i])
    &&& pl.abil@ == b.subrange(OFF_ABIL2 as int, OFF_ABIL2 + 14)
}

/// The index of the first record for a pitch slot. Slots are compared as
/// thirty-two-bit numbers.
pub open spec fn rec_index(recs: Seq<OrigRec>, slot: usize) -> Option<int>
    decreases recs.len(),
{
    if recs.len() == 0 {
        None
    } else if recs[0].slot == slot as int % 0x1_0000_0000 {
        Some(0)
    } else {
        match rec_index(recs.skip(1), slot) {
            Some(i) => Some(i + 1),
            None => None,
        }
    }
}

/// What is shown for a pitch slot of a player.
pub open spec fn label_text(pl: Player, slot: usize) -> Seq<char> {
    let id = pl.balls@[slot as int].id;
    if id == BALL_EMPTY {
        "－（空）"@
    } else if id == BALL_ORIGINAL {
        match rec_index(pl.recs@, slot) {
            Some(i) if pl.recs@[i].name@.len() > 0 => "原創："@ + crate::balls::zh_text(
                pl.recs@[i].name@,
            ),
            _ => "原創（沒有記錄→只會顯示「原創」）"@,
        }
    } else {
        match crate::balls::dir_of(id) {
            Some(d) if d != slot % 6 => crate::balls::ball_text(id) + "  ⚠本屬方向"@
                + crate::digits::decimal(d as nat),
            _ => crate::balls::ball_text(id),
        }
    }
}

fn parse_rec(r: &[u8]) -> (res: OrigRec)
    requires
        r@.len() == REC,
    ensures
        is_rec(r@, res),
{
    let mut kana = false;
    let mut k: usize = REC_KANA;
    while k < REC_KANA + 8
        invariant
            REC_KANA <= k <= REC_KANA + 8,
            r@.len() == REC,
            kana == exists|j: int| REC_KANA <= j < k && #[trigger] r@[j] != 0,
        decreases REC_KANA + 8 - k,
    {
        if r[k] != 0 {
            kana = true;
        }
        k += 1;
    }
    OrigRec {
        slot: get32(r, 0),
        name: cstr(vstd::slice::slice_subrange(r, REC_NAME, REC_NAME + REC_NAME_MAX)),
        base: r[REC_BASE],
        official: r[REC_OFFICIAL] == 1 || kana,
        raw: vstd::slice::slice_to_vec(r),
    }
}

fn parse_balls(b: &[u8]) -> (res: Vec<Ball>)
    requires
        b@.len() >= PLAYER_READ,
    ensures
        res@ == Seq::new(N_BALL as nat, |k: int| ball_in(b@, k)),
{
    let mut out: Vec<Ball> = Vec::new();
    let mut k: usize = 0;
    while k < N_BALL
        invariant
            k <= N_BALL,
            b@.len() >= PLAYER_READ,
            out@ == Seq::new(k as nat, |j: int| ball_in(b@, j)),
        decreases N_BALL - k,
    {
        let o: usize = OFF_BALL + k * 3;
        out.push(Ball { id: b[o], power: b[o + 1] / 8, control: b[o + 2], move_: b[o + 1] % 8 });
        k += 1;
        assert(out@ =~= Seq::new(k as nat, |j: int| ball_in(b@, j)));
    }
    out
}

fn parse_recs(b: &[u8]) -> (res: Vec<OrigRec>)
    requires
        b@.len() >= PLAYER_READ,
    ensures
        res@.len() == N_REC,
        forall|i: int| 0 <= i < N_REC ==> is_rec(rec_bytes(b@, i), #[trigger] res@[i]),
{
    let mut out: Vec<OrigRec> = Vec::new();
    let mut i: usize = 0;
    while i < N_REC
        invariant
            i <= N_REC,
            b@.len() >= PLAYER_READ,
            out@.len() == i,
            forall|j: int| 0 <= j < i ==> is_rec(rec_bytes(b@, j), #[trigger] out@[j]),
        decreases N_REC - i,
    {
        let r = vstd::slice::slice_subrange(b, OFF_ORIG + i * REC, OFF_ORIG + (i + 1) * REC);
        assert(r@ == rec_bytes(b@, i as int));
        out.push(parse_rec(r));
        i += 1;
    }
    out
}

fn eight(b: &[u8], o: usize) -> (res: [u8; 8])
    requires
        o + 8 <= b@.len(),
    ensures
        res@ == b@.subrange(o as int, o + 8),
{
    let n: usize = b.len();
    assert(o + 8 <= n);
    let res = [
        b[o],
        b[o + 1],
        b[o + 2],
        b[o + 3],
        b[o + 4],
        b[o + 5],
        b[o + 6],
        b[o + 7],
    ];
    assert(res@ =~= b@.subrange(o as int, o + 8));
    res
}

fn fourteen(b: &[u8], o: usize) -> (res: [u8; 14])
    requires
        o + 14 <= b@.len(),
    ensures
        res@ == b@.subrange(o as int, o + 14),
{
    let n: usize = b.len();
    assert(o + 14 <= n);
    let res = [
        b[o],
        b[o + 1],
        b[o + 2],
        b[o + 3],
        b[o + 4],
        b[o + 5],
        b[o + 6],
        b[o + 7],
        b[o + 8],
        b[o + 9],
        b[o + 10],
        b[o + 11],
        b[o + 12],
        b[o + 13],
    ];
    assert(res@ =~= b@.subrange(o as int, o + 14));
    res
}

fn parse_zone(raw: u32) -> (res: [i8; 9])
    ensures
        res@ == Seq::new(9, |i: int| crate::fields::zone_value(raw, i)),
{
    let res = [
        zone_get(raw, 0),
        zone_get(raw, 1),
        zone_get(raw, 2),
        zone_get(raw, 3),
        zone_get(raw, 4),
        zone_get(raw, 5),
        zone_get(raw, 6),
        zone_get(raw, 7),
        zone_get(raw, 8),
    ];
    assert(res@ =~= Seq::new(9, |i: int| crate::fields::zone_value(raw, i)));
    res
}

impl Player {
    /// Reads the player object at `obj` in one go.
    pub fn load(p: &Proc, obj: u64) -> (res: Option<Player>)
        ensures
            match res {
                Some(pl) => p@.fetch(obj, PLAYER_READ as int) is Some && is_player(
                    p@.fetch(obj, PLAYER_READ as int)->0,
                    obj,
                    pl,
                ),
                None => p@.fetch(obj, PLAYER_READ as int) is None,
            },
    {
        match p.read(obj, PLAYER_READ) {
            Some(b) => Player::parse(&b, obj),
            None => None,
        }
    }

    /// Parses the bytes of a player object. Fewer than [`PLAYER_READ`] bytes
    /// are none.
    pub fn parse(b: &[u8], obj: u64) -> (res: Option<Player>)
        ensures
            match res {
                Some(pl) => b@.len() >= PLAYER_READ && is_player(b@, obj, pl),
                None => b@.len() < PLAYER_READ,
            },
    {
        if b.len() < PLAYER_READ {
            return None;
        }
        let pack: u16 = get16(b, OFF_PACK);
        let pitcher: u32 = get32(b, OFF_DEF);
        let pitch_traits: [u8; 3] = [
            (pitcher / 0x40_0000 % 8) as u8,
            (pitcher / 0x200_0000 % 8) as u8,
            (pitcher / 0x1000_0000 % 8) as u8,
        ];
        assert(pitch_traits@ =~= seq![
            (pitcher / 0x40_0000 % 8) as u8,
            (pitcher / 0x200_0000 % 8) as u8,
            (pitcher / 0x1000_0000 % 8) as u8,
        ]);
        Some(
            Player {
                addr: obj,
                name: name_from(b),
                stats: eight(b, OFF_STATS),
                field: eight(b, OFF_FIELD),
                defense: b[OFF_DEF],
                pos: (get16(b, OFF_POS) / 8 % 16) as u8,
                catcher: b[OFF_CATCH] / 16 % 8,
                batting_aggression: b[OFF_BATTING_AGGRESSION] % 8,
                plate_discipline: b[OFF_PLATE_DISCIPLINE] / 8 % 8,
                popularity: b[OFF_POPULARITY] % 8 == POPULARITY_ON,
                batting_style: match batting_style_from_raw(
                    b[OFF_CATCH],
                    b[OFF_BATTING_STYLE],
                    b[OFF_BATTING_SYNC],
                ) {
                    Some(s) => s,
                    None => BATTING_STYLE_UNKNOWN,
                },
                team: b[OFF_TEAM],
                zone: parse_zone(get32(b, OFF_ZONE)),
                speed: pack % 128 + 80,
                stamina: pack / 128 % 128,
                pack_hi: pack / 0x4000 * 0x4000,
                pitch_traits,
                grade: b[OFF_GRADE],
                trust: b[OFF_TRUST],
                personality: b[OFF_PERSONALITY],
                mood: b[OFF_MOOD],
                energy: get16(b, OFF_ENERGY),
                academic: b[OFF_ACADEMIC],
                recruit_eval: get16(b, OFF_RECRUIT_EVAL),
                item: b[OFF_ITEM],
                book: b[OFF_BOOK],
                balls: parse_balls(b),
                recs: parse_recs(b),
                abil: fourteen(b, OFF_ABIL2),
            },
        )
    }

    /// The first record for a pitch slot.
    pub fn rec_for_slot(&self, slot: usize) -> (res: Option<&OrigRec>)
        ensures
            match res {
                Some(r) => rec_index(self.recs@, slot) is Some && *r == self.recs@[rec_index(
                    self.recs@,
                    slot,
                )->0],
                None => rec_index(self.recs@, slot) is None,
            },
    {
        let want: u32 = (slot as u64 % 0x1_0000_0000) as u32;
        let mut i: usize = 0;
        assert(self.recs@.skip(0) =~= self.recs@);
        while i < self.recs.len()
            invariant
                i <= self.recs@.len(),
                want == slot as int % 0x1_0000_0000,
                rec_index(self.recs@, slot) == match rec_index(self.recs@.skip(i as int), slot) {
                    Some(k) => Some(k + i),
                    None => None,
                },
            decreases self.recs@.len() - i,
        {
            assert(self.recs@.skip(i as int).skip(1) =~= self.recs@.skip(i + 1));
            if self.recs[i].slot == want {
                return Some(&self.recs[i]);
            }
            i += 1;
        }
        None
    }

    /// What is shown for a pitch slot.
    pub fn ball_label(&self, slot: usize) -> (res: String)
        requires
            slot < self.balls@.len(),
        ensures
            res@ == label_text(*self, slot),
    {
        let id: u8 = self.balls[slot].id;
        if id == BALL_EMPTY {
            return "－（空）".to_owned();
        }
        if id == BALL_ORIGINAL {
            if let Some(r) = self.rec_for_slot(slot) {
                if !r.name.as_str().is_empty() {
                    let mut s = "原創：".to_owned();
                    s.append(zh_name(r.name.as_str()).as_str());
                    return s;
                }
            }
            return "原創（沒有記錄→只會顯示「原創」）".to_owned();
        }
        let mut s = ball_name(id);
        if let Some(d) = ball_dir(id) {
            if d != slot % 6 {
                s.append("  ⚠本屬方向");
                push_decimal(&mut s, d as u64);
            }
        }
        s
    }
}

} // verus!

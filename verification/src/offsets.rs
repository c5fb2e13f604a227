//! Where things lie in a player object, in bytes from its start.

use vstd::prelude::*;

verus! {

pub const OFF_ABIL2: usize = 0x08;

/// Fielding aptitudes: catcher, first, second, third, short, left, centre, right.
pub const OFF_FIELD: usize = 0x18;

pub const OFF_STATS: usize = 0x20;

/// Pitching aptitude.
pub const OFF_DEF: usize = 0x28;

/// Ball speed and stamina, seven bits each, and two flags above them.
pub const OFF_PACK: usize = 0x29;

/// Catcher's lead in bits 4 to 6; bit 7 belongs to the batting style.
pub const OFF_CATCH: usize = 0x2C;

pub const CATCH_SHIFT: u32 = 4;

/// Batting style in the low two bits.
pub const OFF_BATTING_STYLE: usize = 0x2D;

/// Twelve pitches of three bytes each.
pub const OFF_BALL: usize = 0x30;

/// Twelve records of original pitches.
pub const OFF_ORIG: usize = 0x54;

/// Family name and given name, each ended by a zero byte.
pub const OFF_NAME: usize = 0x914;

/// Team number.
pub const OFF_TEAM: usize = 0xA16;

/// Main position in bits 3 to 6; the low three bits are the popularity.
pub const OFF_POS: usize = 0xA30;

pub const POS_SHIFT: u32 = 3;

/// Nine three-bit fields, five bits of something else above them.
pub const OFF_ZONE: usize = 0xA50;

pub const ZONE_N: usize = 9;

/// Plate discipline in bits 3 to 5.
pub const OFF_PLATE_DISCIPLINE: usize = 0xA53;

pub const PLATE_DISCIPLINE_SHIFT: u32 = 3;

pub const PLATE_DISCIPLINE_MASK: u8 = 0x38;

/// Batting aggression in the low three bits.
pub const OFF_BATTING_AGGRESSION: usize = 0xA5B;

pub const OFF_POPULARITY: usize = 0xA30;

pub const POPULARITY_MASK: u8 = 0x07;

pub const POPULARITY_OFF: u8 = 0x01;

pub const POPULARITY_ON: u8 = 0x02;

/// Talent flag of a recruit.
pub const OFF_TALENT_FLAGS: usize = 0xE3C;

pub const TALENT_FLAG_MASK: u32 = 0x0000_0002;

pub const OFF_GRADE: usize = 0xE50;

/// Trust, 0 to 200.
pub const OFF_TRUST: usize = 0xE80;

/// Personality, 0 to 7.
pub const OFF_PERSONALITY: usize = 0xE81;

/// Mood: 0 thrilled, 1 excited, 2 normal, 3 down.
pub const OFF_MOOD: usize = 0xE82;

/// Energy, 0 to 500, two bytes.
pub const OFF_ENERGY: usize = 0xE86;

/// Academic ability.
pub const OFF_ACADEMIC: usize = 0xE88;

/// Recruiting evaluation, 0 to 511, two bytes.
pub const OFF_RECRUIT_EVAL: usize = 0xE8C;

/// A copy of the batting style that the game neither reads nor writes back.
pub const OFF_BATTING_SYNC: usize = 0xFB6;

/// A copy of the plate discipline that the game neither reads nor writes back.
pub const OFF_PLATE_DISCIPLINE_SYNC: usize = 0x10AA;

/// A copy of the batting aggression that the game neither reads nor writes back.
pub const OFF_BATTING_AGGRESSION_SYNC: usize = 0x10AE;

/// A copy of the popularity that the game neither reads nor writes back.
pub const OFF_POPULARITY_SYNC: usize = 0x10B6;

pub const OFF_ITEM: usize = 0x1511;

pub const OFF_BOOK: usize = 0x1512;

/// How many bytes of a player object have to be read to parse it.
pub const PLAYER_READ: usize = 0x1520;

/// Distance of the second, outdated copy of a player from the first one.
pub const REC_INNER: u64 = 0x1CB0;

/// Length of one record of an original pitch.
pub const REC: usize = 0xB8;

pub const N_REC: usize = 12;

/// Within a record: the slot that it belongs to.
pub const REC_SLOT: usize = 0x00;

/// Within a record: the name.
pub const REC_NAME: usize = 0x04;

pub const REC_NAME_MAX: usize = 0x64;

/// Within a record: the reading of the name, filled in for official pitches.
pub const REC_KANA: usize = 0x68;

/// Within a record: 1 for an official pitch.
pub const REC_OFFICIAL: usize = 0x91;

/// Within a record: the pitch that it is based on.
pub const REC_BASE: usize = 0xB4;

/// The slot number of a record that is not in use.
pub const REC_UNUSED_SLOT: u32 = 12;

/// Number of pitch slots.
pub const N_BALL: usize = 12;

/// Where the abilities start, and how many bytes and half bytes they take.
pub const ABIL_OFF: usize = 0x08;

pub const ABIL_BYTES: usize = 14;

pub const ABIL_NIBBLES: usize = 28;

/// Every field that is parsed lies in the first [`PLAYER_READ`] bytes.
pub proof fn player_read_covers_every_field()
    ensures
        OFF_ABIL2 + ABIL_BYTES <= OFF_FIELD,
        OFF_FIELD + 8 <= OFF_STATS,
        OFF_STATS + 8 <= OFF_DEF,
        OFF_PACK + 3 <= OFF_CATCH,
        OFF_BALL + N_BALL * 3 <= OFF_ORIG,
        OFF_ORIG + N_REC * REC <= OFF_NAME,
        OFF_NAME + 64 <= PLAYER_READ,
        OFF_TEAM < PLAYER_READ,
        OFF_POS + 2 <= PLAYER_READ,
        OFF_ZONE + 4 <= PLAYER_READ,
        OFF_BATTING_AGGRESSION < PLAYER_READ,
        OFF_PLATE_DISCIPLINE < PLAYER_READ,
        OFF_BATTING_SYNC < PLAYER_READ,
        OFF_TALENT_FLAGS + 4 <= PLAYER_READ,
        OFF_RECRUIT_EVAL + 2 <= PLAYER_READ,
        OFF_BOOK < PLAYER_READ,
        REC_BASE < REC,
{
}

} // verus!

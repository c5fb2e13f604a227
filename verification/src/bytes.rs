//! Little-endian numbers in byte sequences.

use vstd::prelude::*;

verus! {

/// The sixteen-bit number stored at `o`.
pub open spec fn le16(s: Seq<u8>, o: int) -> u16 {
    (s[o] + 0x100 * s[o + 1]) as u16
}

/// The thirty-two-bit number stored at `o`.
pub open spec fn le32(s: Seq<u8>, o: int) -> u32 {
    (s[o] + 0x100 * s[o + 1] + 0x1_0000 * s[o + 2] + 0x100_0000 * s[o + 3]) as u32
}

/// The sixty-four-bit number stored at `o`.
pub open spec fn le64(s: Seq<u8>, o: int) -> u64 {
    (le32(s, o) + 0x1_0000_0000 * le32(s, o + 4)) as u64
}

/// The two bytes of `v`, low byte first.
pub open spec fn bytes16(v: u16) -> Seq<u8> {
    seq![(v % 0x100) as u8, (v / 0x100) as u8]
}

/// The four bytes of `v`, low byte first.
pub open spec fn bytes32(v: u32) -> Seq<u8> {
    seq![
        (v % 0x100) as u8,
        (v / 0x100 % 0x100) as u8,
        (v / 0x1_0000 % 0x100) as u8,
        (v / 0x100_0000) as u8,
    ]
}

/// The two's complement pattern of a signed number.
pub open spec fn pattern(v: i32) -> u32 {
    if v >= 0 {
        v as u32
    } else {
        (v + 0x1_0000_0000) as u32
    }
}

/// The signed number that a two's complement pattern stands for.
pub open spec fn signed(u: u32) -> i32 {
    if u < 0x8000_0000 {
        u as i32
    } else {
        (u - 0x1_0000_0000) as i32
    }
}

/// The two's complement pattern of a sixteen-bit signed number.
pub open spec fn pattern16(v: i16) -> u16 {
    if v >= 0 {
        v as u16
    } else {
        (v + 0x1_0000) as u16
    }
}

/// Reads the sixteen-bit number at `o`.
pub fn get16(b: &[u8], o: usize) -> (res: u16)
    requires
        o + 2 <= b@.len(),
    ensures
        res == le16(b@, o as int),
{
    b[o] as u16 + 0x100 * b[o + 1] as u16
}

/// Reads the thirty-two-bit number at `o`.
pub fn get32(b: &[u8], o: usize) -> (res: u32)
    requires
        o + 4 <= b@.len(),
    ensures
        res == le32(b@, o as int),
{
    b[o] as u32 + 0x100 * b[o + 1] as u32 + 0x1_0000 * b[o + 2] as u32 + 0x100_0000 * b[o + 3] as u32
}

/// Reads the sixty-four-bit number at `o`.
pub fn get64(b: &[u8], o: usize) -> (res: u64)
    requires
        o + 8 <= b@.len(),
    ensures
        res == le64(b@, o as int),
{
    let n: usize = b.len();
    assert(o + 8 <= n);
    get32(b, o) as u64 + 0x1_0000_0000 * get32(b, o + 4) as u64
}

/// The two bytes of `v`, low byte first.
pub fn put16(v: u16) -> (res: Vec<u8>)
    ensures
        res@ == bytes16(v),
{
    vec![(v % 0x100) as u8, (v / 0x100) as u8]
}

/// The four bytes of `v`, low byte first.
pub fn put32(v: u32) -> (res: Vec<u8>)
    ensures
        res@ == bytes32(v),
{
    vec![
        (v % 0x100) as u8,
        (v / 0x100 % 0x100) as u8,
        (v / 0x1_0000 % 0x100) as u8,
        (v / 0x100_0000) as u8,
    ]
}

/// The two's complement pattern of a signed number.
pub fn to_pattern(v: i32) -> (res: u32)
    ensures
        res == pattern(v),
{
    if v >= 0 {
        v as u32
    } else {
        (v as i64 + 0x1_0000_0000) as u32
    }
}

/// The signed number that a two's complement pattern stands for.
pub fn to_signed(u: u32) -> (res: i32)
    ensures
        res == signed(u),
{
    if u < 0x8000_0000 {
        u as i32
    } else {
        (u as i64 - 0x1_0000_0000) as i32
    }
}

/// The two's complement pattern of a sixteen-bit signed number.
pub fn to_pattern16(v: i16) -> (res: u16)
    ensures
        res == pattern16(v),
{
    if v >= 0 {
        v as u16
    } else {
        (v as i32 + 0x1_0000) as u16
    }
}

/// Reading a number back out of its own bytes gives the number.
pub proof fn le_undoes_bytes(v: u32, w: u16, i: i32)
    ensures
        le32(bytes32(v), 0) == v,
        bytes32(v).len() == 4,
        le16(bytes16(w), 0) == w,
        bytes16(w).len() == 2,
        signed(pattern(i)) == i,
{
}

} // verus!

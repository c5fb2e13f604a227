//! Going through large stretches of memory piece by piece.

use vstd::prelude::*;

verus! {

/// How far apart two pieces of a region start.
pub const CHUNK: u64 = 0x400_0000;

/// One piece of a sweep: where it starts, how many bytes to read, and how many
/// of them are new, the rest being the beginning of the next piece.
#[derive(Clone, Copy, Debug)]
pub struct Piece {
    pub addr: u64,
    pub len: u64,
    pub step: u64,
}

/// The piece of a region that starts at `off`. It reaches `over` bytes into
/// the next one, so that nothing that lies across the border is missed.
pub open spec fn piece_at(b: u64, size: u64, over: int, off: int) -> Piece {
    Piece {
        addr: crate::process::at(b, off),
        len: if size - off <= CHUNK + over {
            (size - off) as u64
        } else {
            (CHUNK + over) as u64
        },
        step: if size - off < CHUNK {
            (size - off) as u64
        } else {
            CHUNK
        },
    }
}

/// The pieces of a region from `off` on.
pub open spec fn region_pieces(b: u64, size: u64, over: int, off: int) -> Seq<Piece>
    decreases
            if off < size {
                size - off
            } else {
                0
            },
{
    if off >= size {
        seq![]
    } else {
        seq![piece_at(b, size, over, off)] + region_pieces(b, size, over, off + CHUNK)
    }
}

/// The pieces of several regions, one region after the other.
pub open spec fn all_pieces(ranges: Seq<(u64, u64)>, over: int) -> Seq<Piece>
    decreases ranges.len(),
{
    if ranges.len() == 0 {
        seq![]
    } else {
        all_pieces(ranges.drop_last(), over) + region_pieces(ranges.last().0, ranges.last().1, over, 0)
    }
}

/// Cuts regions into pieces.
pub fn pieces(ranges: &[(u64, u64)], over: usize) -> (res: Vec<Piece>)
    ensures
        res@ == all_pieces(ranges@, over as int),
{
    let mut out: Vec<Piece> = Vec::new();
    let mut i: usize = 0;
    while i < ranges.len()
        invariant
            i <= ranges@.len(),
            out@ == all_pieces(ranges@.take(i as int), over as int),
        decreases ranges@.len() - i,
    {
        let (b, size) = ranges[i];
        let ghost before = out@;
        let mut off: u64 = 0;
        let mut more = size > 0;
        while more
            invariant
                before + region_pieces(b, size, over as int, 0) == out@ + (if more {
                    region_pieces(b, size, over as int, off as int)
                } else {
                    Seq::<Piece>::empty()
                }),
                more ==> off < size,
            decreases
                    if more {
                        size - off
                    } else {
                        0
                    },
        {
            let room: u64 = size - off;
            let len: u64 = if room <= CHUNK || room - CHUNK <= over as u64 {
                room
            } else {
                CHUNK + over as u64
            };
            let step: u64 = if room < CHUNK {
                room
            } else {
                CHUNK
            };
            let ghost rest = region_pieces(b, size, over as int, off + CHUNK);
            let ghost here = out@;
            out.push(Piece { addr: b.wrapping_add(off), len, step });
            assert(out@ + rest =~= here + (seq![piece_at(b, size, over as int, off as int)] + rest));
            if room <= CHUNK {
                more = false;
                assert(rest =~= Seq::<Piece>::empty());
            } else {
                off = off + CHUNK;
            }
        }
        assert(out@ =~= before + region_pieces(b, size, over as int, 0));
        assert(ranges@.take(i + 1).drop_last() =~= ranges@.take(i as int));
        i += 1;
    }
    assert(ranges@.take(i as int) =~= ranges@);
    out
}

/// What part of a sweep is done after the first `k` pieces.
pub open spec fn done_after(p: Seq<Piece>, k: int) -> int
    decreases k,
{
    if k <= 0 {
        0
    } else {
        done_after(p, k - 1) + p[k - 1].step
    }
}

/// Every piece of a region lies in it.
pub proof fn pieces_stay_inside(b: u64, size: u64, over: int, off: int, k: int)
    requires
        0 <= off,
        0 <= over,
        0 <= k < region_pieces(b, size, over, off).len(),
    ensures
        ({
            let p = region_pieces(b, size, over, off)[k];
            &&& p == piece_at(b, size, over, off + k * CHUNK)
            &&& 0 < p.len
            &&& off + k * CHUNK + p.len <= size
        }),
    decreases k,
{
    if k > 0 {
        pieces_stay_inside(b, size, over, off + CHUNK, k - 1);
        let r = region_pieces(b, size, over, off);
        assert(r[k] == region_pieces(b, size, over, off + CHUNK)[k - 1]);
        assert((k - 1) * CHUNK + CHUNK == k * CHUNK) by (nonlinear_arith);
    }
}

/// Anything of at most `over` bytes that lies in a region lies in one of its
/// pieces.
pub proof fn nothing_is_missed(b: u64, size: u64, over: int, from: int, len: int)
    requires
        0 <= len <= over,
        0 <= from,
        from + len <= size,
        from < size,
    ensures
        ({
            let k = from / CHUNK as int;
            &&& k < region_pieces(b, size, over, 0).len()
            &&& k * CHUNK <= from
            &&& from + len <= k * CHUNK + region_pieces(b, size, over, 0)[k].len
        }),
{
    let k = from / CHUNK as int;
    vstd::arithmetic::div_mod::lemma_fundamental_div_mod(from, CHUNK as int);
    piece_count(b, size, over, 0, k);
    pieces_stay_inside(b, size, over, 0, k);
}

proof fn piece_count(b: u64, size: u64, over: int, off: int, k: int)
    requires
        0 <= off,
        0 <= k,
        off + k * CHUNK < size,
    ensures
        k < region_pieces(b, size, over, off).len(),
    decreases k,
{
    if k > 0 {
        assert(off + CHUNK + (k - 1) * CHUNK == off + k * CHUNK) by (nonlinear_arith);
        assert(off + CHUNK <= off + k * CHUNK) by (nonlinear_arith)
            requires
                k >= 1,
        ;
        piece_count(b, size, over, off + CHUNK, k - 1);
    }
}

/// Every piece of a region is a piece of the sweep.
pub proof fn region_is_cut(ranges: Seq<(u64, u64)>, over: int, r: int, k: int)
    requires
        0 <= r < ranges.len(),
        0 <= k < region_pieces(ranges[r].0, ranges[r].1, over, 0).len(),
    ensures
        all_pieces(ranges, over).contains(region_pieces(ranges[r].0, ranges[r].1, over, 0)[k]),
    decreases ranges.len(),
{
    let p = region_pieces(ranges[r].0, ranges[r].1, over, 0)[k];
    let rest = all_pieces(ranges.drop_last(), over);
    let last = region_pieces(ranges.last().0, ranges.last().1, over, 0);
    if r < ranges.len() - 1 {
        assert(ranges.drop_last()[r] == ranges[r]);
        region_is_cut(ranges.drop_last(), over, r, k);
        let j = choose|j: int| 0 <= j < rest.len() && rest[j] == p;
        assert((rest + last)[j] == p);
    } else {
        assert((rest + last)[rest.len() + k] == p);
    }
}

/// Every piece of a sweep is a piece of one of its regions.
pub proof fn pieces_come_from_regions(ranges: Seq<(u64, u64)>, over: int, i: int) -> (res: (
    int,
    int,
))
    requires
        0 <= i < all_pieces(ranges, over).len(),
    ensures
        0 <= res.0 < ranges.len(),
        0 <= res.1 < region_pieces(ranges[res.0].0, ranges[res.0].1, over, 0).len(),
        all_pieces(ranges, over)[i] == region_pieces(
            ranges[res.0].0,
            ranges[res.0].1,
            over,
            0,
        )[res.1],
    decreases ranges.len(),
{
    let rest = all_pieces(ranges.drop_last(), over);
    if i < rest.len() {
        pieces_come_from_regions(ranges.drop_last(), over, i)
    } else {
        (ranges.len() - 1, i - rest.len())
    }
}

} // verus!

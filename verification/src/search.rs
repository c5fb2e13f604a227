//! Searching memory for a pattern, one read at a time. Whoever can read the
//! game asks what is wanted next, reads it, and hands the bytes over.

use vstd::prelude::*;

use crate::pattern::{all_hits, hits, hits_grow, hits_in, places};
use crate::process::Memory;
use crate::sweep::{all_pieces, pieces, Piece};

verus! {

/// A search that is under way.
pub struct Search {
    /// What is to be read, in order.
    pub pieces: Vec<Piece>,
    pub pat: Vec<Option<u8>>,
    /// Whether the first place is enough.
    pub first_only: bool,
    /// How many pieces were answered.
    pub next: usize,
    /// The places that were found.
    pub hits: Vec<u64>,
}

/// The places that an answer holds, `None` being a piece that cannot be read.
pub open spec fn answer_hits(p: Piece, pat: Seq<Option<u8>>, answer: Option<Seq<u8>>) -> Seq<u64> {
    match answer {
        Some(buf) => hits_in(buf, p.addr, pat, places(buf, pat)),
        None => seq![],
    }
}

/// What an answer says.
pub open spec fn said(answer: Option<Vec<u8>>) -> Option<Seq<u8>> {
    match answer {
        Some(b) => Some(b@),
        None => None,
    }
}

impl Search {
    /// What is to be read next: address and length.
    pub open spec fn wanted(self) -> Option<(u64, u64)> {
        if self.next < self.pieces@.len() && !(self.first_only && self.hits@.len() > 0) {
            Some((self.pieces@[self.next as int].addr, self.pieces@[self.next as int].len))
        } else {
            None
        }
    }

    /// The search after an answer to what was wanted.
    pub open spec fn answered(self, answer: Option<Seq<u8>>, after: Search) -> bool {
        if self.wanted() is Some {
            &&& after == (Search { next: after.next, hits: after.hits, ..self })
            &&& after.next == self.next + 1
            &&& after.hits@ == self.hits@ + answer_hits(
                self.pieces@[self.next as int],
                self.pat@,
                answer,
            )
        } else {
            after == self
        }
    }

    /// What was found so far is what the memory holds in the pieces that were
    /// answered.
    pub open spec fn finds(self, m: Memory) -> bool {
        &&& self.next <= self.pieces@.len()
        &&& self.hits@ == all_hits(m, self.pieces@.take(self.next as int), self.pat@)
    }

    /// A search of some regions that has just begun.
    pub fn new(ranges: &[(u64, u64)], pat: Vec<Option<u8>>, first_only: bool) -> (res: Search)
        ensures
            res.pieces@ == all_pieces(ranges@, pat@.len() as int),
            res.pat == pat,
            res.first_only == first_only,
            res.next == 0,
            res.hits@.len() == 0,
            forall|m: Memory| #[trigger] res.finds(m),
    {
        let ps = pieces(ranges, pat.len());
        let res = Search { pieces: ps, pat, first_only, next: 0, hits: Vec::new() };
        assert forall|m: Memory| #[trigger] res.finds(m) by {
            assert(res.pieces@.take(0) =~= Seq::<Piece>::empty());
            assert(res.hits@ =~= all_hits(m, Seq::<Piece>::empty(), res.pat@));
        }
        res
    }

    /// What is to be read next: address and length.
    pub fn want(&self) -> (res: Option<(u64, u64)>)
        ensures
            res == self.wanted(),
    {
        if self.next < self.pieces.len() && !(self.first_only && self.hits.len() > 0) {
            let p = self.pieces[self.next];
            Some((p.addr, p.len))
        } else {
            None
        }
    }

    /// Takes what was read, `None` where it could not be.
    pub fn take(&mut self, answer: Option<Vec<u8>>)
        ensures
            old(self).answered(said(answer), *final(self)),
    {
        if self.want().is_none() {
            return;
        }
        let n: usize = self.pieces.len();
        assert(self.next < n);
        let p = self.pieces[self.next];
        if let Some(buf) = answer {
            let mut h = hits(&buf, p.addr, &self.pat);
            self.hits.append(&mut h);
        }
        self.next = self.next + 1;
        assert(self.hits@ =~= old(self).hits@ + answer_hits(p, old(self).pat@, said(answer)));
    }

    /// The first place that was found.
    pub fn first(&self) -> (res: Option<u64>)
        ensures
            res == if self.hits@.len() > 0 {
                Some(self.hits@[0])
            } else {
                None
            },
    {
        if self.hits.len() > 0 {
            Some(self.hits[0])
        } else {
            None
        }
    }
}

/// A search that is answered out of a memory finds what that memory holds.
pub proof fn answers_add_up(m: Memory, a: Search, b: Search)
    requires
        a.finds(m),
        a.wanted() is Some,
        a.answered(m.fetch((a.wanted()->0).0, (a.wanted()->0).1 as int), b),
    ensures
        b.finds(m),
{
    let n = a.next as int;
    assert(b.pieces@.take(n + 1).drop_last() =~= a.pieces@.take(n));
    assert(b.pieces@.take(n + 1).last() == a.pieces@[n]);
    assert(b.hits@ =~= all_hits(m, b.pieces@.take(n + 1), b.pat@));
}

/// A search that wants nothing more has found every place in its memory, or the
/// first one where that is enough.
pub proof fn finished_search_is_complete(m: Memory, s: Search)
    requires
        s.finds(m),
        s.wanted() is None,
    ensures
        ({
            let all = all_hits(m, s.pieces@, s.pat@);
            &&& (all.len() > 0) == (s.hits@.len() > 0)
            &&& all.len() > 0 ==> s.hits@[0] == all[0]
            &&& !s.first_only ==> s.hits@ == all
        }),
{
    hits_grow(m, s.pieces@, s.pat@, s.next as int);
    if s.next == s.pieces@.len() {
        assert(s.pieces@.take(s.next as int) =~= s.pieces@);
    }
}

} // verus!

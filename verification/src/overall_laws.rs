//! How the overall rating answers to changes of a player.

use vstd::prelude::*;
use vstd::relations::total_ordering;
use vstd::seq_lib::lemma_sorted_unique;

use crate::balls::BALL_EMPTY;
use crate::overall::{
    catching_worth, common_worth, fielder_worth, fielding_worth, lead_worth, overall_of,
    pitch_scores, pitch_worth, pitcher_worth, pitches_worth, ranked, rating, stat,
};
use crate::player::{Ball, Player};

verus! {

/// `b` is `a` with no ability and no fielding aptitude lower.
pub open spec fn no_weaker(a: Player, b: Player) -> bool {
    &&& b == (Player { stats: b.stats, field: b.field, ..a })
    &&& forall|i: int| #![trigger b.stats@[i]] 0 <= i < 8 ==> a.stats@[i] <= b.stats@[i]
    &&& forall|i: int| #![trigger b.field@[i]] 0 <= i < 8 ==> a.field@[i] <= b.field@[i]
}

proof fn rating_rises(v: int, w: int)
    requires
        0 <= v <= w,
    ensures
        0 <= rating(v) <= rating(w),
{
}

proof fn stat_rating_rises(a: Player, b: Player, i: int)
    requires
        no_weaker(a, b),
        0 <= i < 8,
    ensures
        0 <= rating(stat(a, i)) <= rating(stat(b, i)),
{
    assert(a.stats@[i] <= b.stats@[i]);
    rating_rises(stat(a, i), stat(b, i));
}

proof fn fielding_rises(a: Player, b: Player, k: int)
    requires
        no_weaker(a, b),
        k <= 8,
    ensures
        0 <= fielding_worth(a, k) <= fielding_worth(b, k),
    decreases k,
{
    if k > 0 {
        fielding_rises(a, b, k - 1);
        assert(a.field@[k - 1] <= b.field@[k - 1]);
        rating_rises(a.field@[k - 1] as int, b.field@[k - 1] as int);
    }
}

proof fn product_rises(v: int, w: int, x: int, y: int)
    by (nonlinear_arith)
    requires
        0 <= v <= w,
        0 <= x <= y,
    ensures
        0 <= v * x <= w * y,
{
}

proof fn catching_rises(a: Player, b: Player)
    requires
        no_weaker(a, b),
    ensures
        catching_worth(a) <= catching_worth(b),
{
    let (f, g) = (a.field@[0] as int, b.field@[0] as int);
    assert(f <= g);
    stat_rating_rises(a, b, 4);
    let (v, w) = (rating(stat(a, 4)), rating(stat(b, 4)));
    product_rises(v / 3, w / 3, f, g);
    let times = |fit: int|
        if fit / 20 < 1 {
            1
        } else if fit / 20 > 4 {
            4
        } else {
            fit / 20
        };
    product_rises(lead_worth(a.catcher), lead_worth(a.catcher), times(f), times(g));
}

/// The rating of a player in the field never falls when an ability or a
/// fielding aptitude rises.
pub proof fn stronger_rates_no_lower(a: Player, b: Player)
    requires
        a.pos != 0,
        no_weaker(a, b),
    ensures
        overall_of(a) <= overall_of(b),
{
    stat_rating_rises(a, b, 0);
    stat_rating_rises(a, b, 1);
    stat_rating_rises(a, b, 2);
    stat_rating_rises(a, b, 3);
    stat_rating_rises(a, b, 4);
    stat_rating_rises(a, b, 5);
    stat_rating_rises(a, b, 6);
    stat_rating_rises(a, b, 7);
    fielding_rises(a, b, 8);
    catching_rises(a, b);
    assert(fielder_worth(a) <= fielder_worth(b));
    assert(common_worth(a) <= common_worth(b));
}

/// Whether the pitch in a slot has the score `v`, as a number.
spec fn has_score(slot: int, b: Ball, v: i32) -> int {
    if b.id % 128 != BALL_EMPTY && pitch_worth(slot, b) == v {
        1
    } else {
        0
    }
}

/// How many pitches in the first `k` slots have the score `v`.
spec fn score_count(balls: Seq<Ball>, k: int, v: i32) -> int
    decreases k,
{
    if k <= 0 {
        0
    } else {
        score_count(balls, k - 1, v) + has_score(k - 1, balls[k - 1], v)
    }
}

proof fn scores_are_counted(balls: Seq<Ball>, k: int, v: i32)
    ensures
        pitch_scores(balls, k).to_multiset().count(v) == score_count(balls, k, v),
    decreases k,
{
    broadcast use vstd::seq_lib::group_to_multiset_ensures;

    if k > 0 {
        scores_are_counted(balls, k - 1, v);
    } else {
        assert(pitch_scores(balls, k) =~= Seq::<i32>::empty());
    }
}

proof fn count_after_change(balls: Seq<Ball>, i: int, x: Ball, k: int, v: i32)
    requires
        0 <= i < balls.len(),
        k <= balls.len(),
    ensures
        score_count(balls.update(i, x), k, v) == score_count(balls, k, v) + if i < k {
            has_score(i, x, v) - has_score(i, balls[i], v)
        } else {
            0
        },
    decreases k,
{
    if k > 0 {
        count_after_change(balls, i, x, k - 1, v);
    }
}

/// Pitches with the slots `i` and `j` exchanged.
pub open spec fn exchanged(balls: Seq<Ball>, i: int, j: int) -> Seq<Ball> {
    balls.update(i, balls[j]).update(j, balls[i])
}

/// A slot that is not one of the two for straight balls.
pub open spec fn is_breaking_slot(i: int) -> bool {
    0 <= i < 12 && i != 5 && i != 11
}

proof fn exchange_keeps_ranking(balls: Seq<Ball>, i: int, j: int, k: int)
    requires
        is_breaking_slot(i),
        is_breaking_slot(j),
        i < k <= balls.len(),
        j < k,
    ensures
        ranked(pitch_scores(exchanged(balls, i, j), k)) == ranked(pitch_scores(balls, k)),
{
    let other = exchanged(balls, i, j);
    let (s, t) = (pitch_scores(balls, k), pitch_scores(other, k));
    assert forall|v: i32| s.to_multiset().count(v) == t.to_multiset().count(v) by {
        scores_are_counted(balls, k, v);
        scores_are_counted(other, k, v);
        count_after_change(balls, i, balls[j], k, v);
        count_after_change(balls.update(i, balls[j]), j, balls[i], k, v);
    }
    assert(s.to_multiset() =~= t.to_multiset());
    let falling = |a: i32, b: i32| a >= b;
    assert(total_ordering(falling));
    s.lemma_sort_by_ensures(falling);
    t.lemma_sort_by_ensures(falling);
    lemma_sorted_unique(ranked(s), ranked(t), falling);
}

/// In which slots the pitches stand has no effect on the rating, the two slots
/// for straight balls aside.
pub proof fn slots_do_not_matter(a: Player, b: Player, i: int, j: int)
    requires
        is_breaking_slot(i),
        is_breaking_slot(j),
        i < a.balls@.len(),
        j < a.balls@.len(),
        b == (Player { balls: b.balls, ..a }),
        b.balls@ == exchanged(a.balls@, i, j),
    ensures
        overall_of(a) == overall_of(b),
{
    let n = if a.balls@.len() < 12 {
        a.balls@.len() as int
    } else {
        12
    };
    exchange_keeps_ranking(a.balls@, i, j, n);
    assert(pitches_worth(a.balls@) == pitches_worth(b.balls@));
    assert(pitcher_worth(a) == pitcher_worth(b));
    same_in_the_field(a, b, 8);
    assert(fielder_worth(a) == fielder_worth(b));
}

proof fn same_in_the_field(a: Player, b: Player, k: int)
    requires
        b == (Player { balls: b.balls, ..a }),
    ensures
        fielding_worth(a, k) == fielding_worth(b, k),
        crate::overall::best_field(a, k) == crate::overall::best_field(b, k),
    decreases k,
{
    if k > 0 {
        same_in_the_field(a, b, k - 1);
    }
}

} // verus!

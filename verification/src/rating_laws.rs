//! What the parts of the overall rating are worth, and how a pitcher's rating
//! answers to changes of the pitcher.

use vstd::prelude::*;
use vstd::relations::total_ordering;
use vstd::seq_lib::lemma_sorted_unique;

use crate::balls::BALL_EMPTY;
use crate::order::{in_order, is_order, ordered, placed, sorting_orders};
use crate::overall::{
    best_field, catching_worth, common_worth, control_worth, fielder_worth, fielding_worth,
    hybrid_worth, in_range, lead_worth, move_worth, overall_of, percent, pitch_scores, pitch_worth,
    pitcher_worth, pitches_worth, power_worth, ranked, rarity_worth, rating, specials_worth,
    speed_rating, stat, toward_zero, trait_rating, weight, weighted,
};
use crate::player::{Ball, Player};

verus! {

/// An ability is worth 0, 10, 30, 41, 53, 67, 83 and 101 at 0, 20, 40, 50, 60,
/// 70, 80 and 90. Between two tens its worth rises evenly, above 90 by two a
/// point.
pub proof fn abilities_rise_evenly(t: int, d: int)
    requires
        0 <= t,
        0 <= d < 10,
    ensures
        rating(0) == 0 && rating(20) == 10 && rating(40) == 30 && rating(50) == 41 && rating(60)
            == 53 && rating(70) == 67 && rating(80) == 83 && rating(90) == 101,
        rating(10 * t + d) == rating(10 * t) + d * (rating(10 * t + 10) - rating(10 * t)) / 10,
        t >= 9 ==> rating(10 * t + 10) == rating(10 * t) + 20,
        t == 0 || t == 2 ==> rating(10 * t + 10) - rating(10 * t) == rating(10 * t + 20) - rating(
            10 * t + 10,
        ),
{
    let s = rating(10 * t + 10) - rating(10 * t);
    if t >= 9 {
        assert(rating(10 * t + d) == (10 * t + d - 90) * 20 / 10 + 101);
        assert(s == 20);
    } else if t == 8 {
        assert(s == 18);
    } else if t == 7 {
        assert(s == 16);
    } else if t == 6 {
        assert(s == 14);
    } else if t == 5 {
        assert(s == 12);
    } else if t == 4 {
        assert(s == 11);
    } else if t >= 2 {
        assert(s == 10);
    } else {
        assert(s == 5);
    }
}

/// A speed is worth nothing up to 120, and 10, 21, 33, 46, 60, 75, 91, 109, 129
/// and 151 at 125, 130 and so on up to 170. Between two fives its worth rises
/// evenly, and from 170 on by 24 every five.
#[verifier::spinoff_prover]
#[verifier::rlimit(60)]
pub proof fn speeds_rise_evenly(t: int, d: int)
    requires
        0 <= t,
        0 <= d < 5,
    ensures
        speed_rating(120) == 0 && speed_rating(125) == 10 && speed_rating(130) == 21
            && speed_rating(135) == 33 && speed_rating(140) == 46 && speed_rating(145) == 60
            && speed_rating(150) == 75 && speed_rating(155) == 91 && speed_rating(160) == 109
            && speed_rating(165) == 129 && speed_rating(170) == 151,
        speed_rating(5 * t + d) == speed_rating(5 * t) + d * (speed_rating(5 * t + 5)
            - speed_rating(5 * t)) / 5,
        t >= 34 ==> speed_rating(5 * t + 5) == speed_rating(5 * t) + 24,
        t < 24 ==> speed_rating(5 * t + d) == 0,
{
    let s = speed_rating(5 * t + 5) - speed_rating(5 * t);
    if t >= 34 {
        fastest_speeds(t, d);
        assert(d * s == d * 24);
    } else if t == 33 {
        assert(s == 22);
        assert(d * s == d * 22);
    } else if t == 32 {
        assert(s == 20);
        assert(d * s == d * 20);
    } else if t == 31 {
        assert(s == 18);
        assert(d * s == d * 18);
    } else if t == 30 {
        assert(s == 16);
        assert(d * s == d * 16);
    } else if t == 29 {
        assert(s == 15);
        assert(d * s == d * 15);
    } else if t == 28 {
        assert(s == 14);
        assert(d * s == d * 14);
    } else if t == 27 {
        assert(s == 13);
        assert(d * s == d * 13);
    } else if t == 26 {
        assert(s == 12);
        assert(d * s == d * 12);
    } else if t == 25 {
        assert(s == 11);
        assert(d * s == d * 11);
    } else if t == 24 {
        assert(s == 10);
        assert(d * s == d * 10);
    } else {
        assert(s == 0);
        assert(d * s == 0) by (nonlinear_arith)
            requires
                s == 0,
        ;
    }
}

proof fn fastest_speeds(t: int, d: int)
    requires
        34 <= t,
        0 <= d < 5,
    ensures
        speed_rating(5 * t + 5) - speed_rating(5 * t) == 24,
        speed_rating(5 * t + d) - speed_rating(5 * t) == d * 24 / 5,
{
    let n = 24 * (t - 34);
    assert((5 * t + d - 170) * 24 == 5 * n + d * 24);
    assert((5 * t - 170) * 24 == 5 * n);
    assert((5 * t + 5 - 170) * 24 == 5 * (n + 24));
}

/// The faster a ball, the more it is worth.
pub proof fn faster_is_worth_no_less(v: int, w: int)
    requires
        v <= w,
    ensures
        0 <= speed_rating(v) <= speed_rating(w),
{
}

/// The grades of a pitch, of the catcher's lead and of a trait are worth the
/// more the higher they are, and a grade of zero nothing. Only the low three
/// bits of a pitch's grades count.
pub proof fn grades_are_worth(v: u8, g: int)
    requires
        g == v % 8,
    ensures
        power_worth(v) == seq![0int, 1, 3, 6, 15, 30, 60, 90][g],
        move_worth(v) == seq![0int, 1, 3, 5, 12, 18, 25, 32][g],
        control_worth(v) == seq![0int, 1, 2, 4, 6, 9, 12, 18][g],
        lead_worth(v) == if v < 8 {
            seq![0int, 1, 3, 5, 8, 12, 17, 23][g]
        } else {
            0
        },
        trait_rating(v) == if v < 8 {
            seq![0int, 1, 1, 2, 2, 2, 2, 4][g]
        } else {
            0
        },
{
}

/// Better grades of a pitch are worth no less.
pub proof fn better_grades_are_worth_no_less(v: u8, w: u8)
    requires
        v <= w < 8,
    ensures
        0 <= power_worth(v) <= power_worth(w) <= 90,
        0 <= move_worth(v) <= move_worth(w) <= 32,
        0 <= control_worth(v) <= control_worth(w) <= 18,
        0 <= lead_worth(v) <= lead_worth(w),
        0 <= trait_rating(v) <= trait_rating(w),
{
}

/// A pitch is worth the sum of its power, its movement and its control, and a
/// rare one three or five more. Straight balls have no movement, and in the two
/// slots for them power counts half as much again.
pub proof fn what_a_pitch_is_worth(slot: int, b: Ball)
    requires
        b.id < 128,
    ensures
        ({
            let straight = slot == 5 || slot == 11;
            let moves = !straight && crate::balls::dir_of(b.id) != Some(5usize);
            let rare = seq![2u8, 7, 12, 22, 27, 28, 32, 36, 38, 39].contains(b.id);
            let very_rare = seq![13u8, 16, 41, 42, 43].contains(b.id);
            let p = seq![0int, 1, 3, 6, 15, 30, 60, 90][b.power as int % 8];
            let q = seq![0int, 1, 4, 9, 22, 45, 90, 135][b.power as int % 8];
            let m = seq![0int, 1, 3, 5, 12, 18, 25, 32][b.move_ as int % 8];
            let c = seq![0int, 1, 2, 4, 6, 9, 12, 18][b.control as int % 8];
            pitch_worth(slot, b) == (if straight {
                q
            } else if moves {
                p + m
            } else {
                p
            }) + c + if rare {
                3int
            } else if very_rare {
                5int
            } else {
                0int
            }
        }),
        0 <= pitch_worth(slot, b) <= 200,
{
    let r = seq![2u8, 7, 12, 22, 27, 28, 32, 36, 38, 39];
    let s = seq![13u8, 16, 41, 42, 43];
    assert(r[0] == 2 && r[1] == 7 && r[2] == 12 && r[3] == 22 && r[4] == 27 && r[5] == 28 && r[6]
        == 32 && r[7] == 36 && r[8] == 38 && r[9] == 39);
    assert(s[0] == 13 && s[1] == 16 && s[2] == 41 && s[3] == 42 && s[4] == 43);
    assert(rarity_worth(b.id) == if r.contains(b.id) {
        3int
    } else if s.contains(b.id) {
        5int
    } else {
        0int
    });
    grades_are_worth(b.power, b.power as int % 8);
    grades_are_worth(b.move_, b.move_ as int % 8);
    grades_are_worth(b.control, b.control as int % 8);
}

/// What a player's abilities add to the rating in the field: contact against
/// right and left 70 percent of its worth each, power 160, running 50, and
/// throwing, catching, arm and recovery 40 each. A catcher's arm counts once
/// more, by a third and by the aptitude.
#[verifier::rlimit(60)]
pub proof fn what_abilities_add(a: Player, b: Player)
    requires
        b == (Player { stats: b.stats, ..a }),
        forall|i: int| 0 <= i < 8 ==> #[trigger] b.stats@[i] == 0,
    ensures
        ({
            let r = |i: int|
                rating(
                    if a.stats@[i] < 99 {
                        a.stats@[i] as int
                    } else {
                        99
                    },
                );
            common_worth(a) + fielder_worth(a) - common_worth(b) - fielder_worth(b) == (r(0) + r(1))
                * 7 / 10 + r(2) * 8 / 5 + r(3) / 2 + r(4) * 2 / 5 + r(5) * 2 / 5 + r(6) * 2 / 5
                + r(7) * 2 / 5 + r(4) / 3 * a.field@[0] / 100
        }),
{
    assert(b.stats@[0] == 0 && b.stats@[1] == 0 && b.stats@[2] == 0 && b.stats@[3] == 0
        && b.stats@[4] == 0 && b.stats@[5] == 0 && b.stats@[6] == 0 && b.stats@[7] == 0);
    same_fielding(a, b, 8);
    rating_of_none();
    arm_of_a_catcher(a, b);
    let r = |i: int| rating(stat(a, i));
    common_shares(rating(stat(a, 0)) + rating(stat(a, 1)));
    common_shares(rating(stat(a, 2)));
    common_shares(rating(stat(a, 3)));
    common_shares(rating(stat(a, 4)));
    common_shares(rating(stat(a, 5)));
    common_shares(rating(stat(a, 6)));
    common_shares(rating(stat(a, 7)));
    common_shares(0);
    assert(common_worth(a) - common_worth(b) == percent(rating(stat(a, 7)), 40));
}

proof fn rating_of_none()
    ensures
        rating(0) == 0,
{
}

proof fn common_shares(x: int)
    ensures
        x * 140 / 200 == x * 7 / 10,
        percent(x, 160) == x * 8 / 5,
        percent(x, 50) == x / 2,
        percent(x, 40) == x * 2 / 5,
        percent(x, 30) == x * 3 / 10,
        percent(x, 20) == x / 5,
{
}

proof fn arm_of_a_catcher(a: Player, b: Player)
    requires
        b == (Player { stats: b.stats, ..a }),
        b.stats@[4] == 0,
    ensures
        catching_worth(a) - catching_worth(b) == rating(stat(a, 4)) / 3 * a.field@[0] / 100,
{
    let f = a.field@[0] as int;
    let arm = rating(stat(a, 4));
    assert(rating(stat(b, 4)) == 0);
    assert(0int / 3 * f == 0) by (nonlinear_arith);
    if f == 0 {
        assert(arm / 3 * f == 0) by (nonlinear_arith)
            requires
                f == 0,
        ;
    }
}

proof fn same_fielding(a: Player, b: Player, k: int)
    requires
        a.field == b.field,
        a.pos == b.pos,
    ensures
        fielding_worth(a, k) == fielding_worth(b, k),
        best_field(a, k) == best_field(b, k),
    decreases k,
{
    if k > 0 {
        same_fielding(a, b, k - 1);
    }
}

/// What aptitudes in the field add: half of what they are worth, in full at the
/// main position and by a tenth elsewhere. A catcher's aptitude also lets the
/// arm count by a third, and the lead once to four times, once more for every
/// twenty.
pub proof fn what_fielding_adds(a: Player, b: Player)
    requires
        b == (Player { field: b.field, ..a }),
        forall|i: int| 0 <= i < 8 ==> #[trigger] b.field@[i] == 0,
    ensures
        ({
            let y = |k: int|
                if a.pos == k {
                    rating(a.field@[k - 1] as int)
                } else {
                    rating(a.field@[k - 1] as int) / 10
                };
            let f = a.field@[0] as int;
            let times = if f < 40 {
                1int
            } else if f < 60 {
                2
            } else if f < 80 {
                3
            } else {
                4
            };
            fielder_worth(a) - fielder_worth(b) == (y(1) + y(2) + y(3) + y(4) + y(5) + y(6) + y(7)
                + y(8)) / 2 + if f == 0 {
                0
            } else {
                rating(stat(a, 4)) / 3 * f / 100 + lead_worth(a.catcher) * times
            }
        }),
{
    assert(b.field@[0] == 0);
    rating_of_none();
    no_fielding(b, 8);
    reveal_with_fuel(fielding_worth, 9);
    common_shares(fielding_worth(a, 8));
    common_shares(0);
    assert(catching_worth(b) == 0);
    let f = a.field@[0] as int;
    assert(f / 20 < 1 <==> f < 20);
    assert(fielding_worth(a, 0) == 0);
}

proof fn no_fielding(b: Player, k: int)
    requires
        forall|i: int| 0 <= i < 8 ==> #[trigger] b.field@[i] == 0,
        k <= 8,
    ensures
        fielding_worth(b, k) == 0,
    decreases k,
{
    if k > 0 {
        no_fielding(b, k - 1);
        assert(b.field@[k - 1] == 0);
    }
}

/// A batting style other than the low one is worth three.
pub proof fn what_style_adds(a: Player, b: Player)
    requires
        b == (Player { batting_style: 1, ..a }),
        a.batting_style != 1,
    ensures
        fielder_worth(a) == fielder_worth(b) + 3,
        common_worth(a) == common_worth(b),
{
    same_fielding(a, b, 8);
}

/// What a pitcher's numbers add: the worth of the speed in full, of the three
/// traits in full, half of the stamina's, 30 percent of the aptitude's, and what
/// the pitches are worth.
pub proof fn what_pitching_adds(a: Player, b: Player)
    requires
        b == (Player {
            speed: 0,
            stamina: 0,
            defense: 0,
            pitch_traits: b.pitch_traits,
            balls: b.balls,
            ..a
        }),
        b.pitch_traits@ == seq![0u8, 0, 0],
        b.balls@.len() == 0,
    ensures
        pitcher_worth(a) - pitcher_worth(b) == speed_rating(a.speed as int) + trait_rating(
            a.pitch_traits@[0],
        ) + trait_rating(a.pitch_traits@[1]) + trait_rating(a.pitch_traits@[2]) + rating(
            a.stamina as int,
        ) / 2 + rating(a.defense as int) * 3 / 10 + pitches_worth(a.balls@),
        pitcher_worth(b) == specials_worth(b.abil@, crate::overall::PITCHER_SPECIALS@) - 4,
{
    assert(b.pitch_traits@[0] == 0 && b.pitch_traits@[1] == 0 && b.pitch_traits@[2] == 0);
    no_pitches(b.balls@);
}

proof fn no_pitches(balls: Seq<Ball>)
    requires
        balls.len() == 0,
    ensures
        pitches_worth(balls) == 0,
{
    let e = pitch_scores(balls, 0);
    assert(e =~= Seq::<i32>::empty());
    e.lemma_sort_by_ensures(|a: i32, b: i32| a >= b);
    assert(ranked(e).len() == 0) by {
        broadcast use vstd::seq_lib::group_to_multiset_ensures;

        assert(ranked(e).to_multiset().len() == 0);
    }
}

proof fn share_rises(p: int, q: int, u: int)
    requires
        p <= q,
        0 <= u <= 100,
    ensures
        toward_zero(p * u, 100) <= toward_zero(q * u, 100) <= toward_zero(p * u, 100) + (q - p),
{
    assert(p * u <= q * u <= p * u + 100 * (q - p)) by (nonlinear_arith)
        requires
            p <= q,
            0 <= u <= 100,
    ;
}

proof fn best_field_is_small(pl: Player, k: int)
    requires
        k <= 8,
    ensures
        0 <= best_field(pl, k) <= 255,
    decreases k,
{
    if k > 0 {
        best_field_is_small(pl, k - 1);
    }
}

/// A pitcher who is worth no less on the mound, all else equal, rates no lower.
#[verifier::spinoff_prover]
#[verifier::rlimit(60)]
proof fn better_on_the_mound(a: Player, b: Player)
    requires
        a.pos == 0,
        b.pos == 0,
        a.stats == b.stats,
        a.field == b.field,
        common_worth(a) == common_worth(b),
        fielder_worth(a) == fielder_worth(b),
        pitcher_worth(a) <= pitcher_worth(b),
    ensures
        overall_of(a) <= overall_of(b),
{
    same_fielding(a, b, 8);
    best_field_is_small(a, 8);
    let w = (best_field(a, 8) + stat(a, 0) + stat(a, 1) + stat(a, 2)) / 8;
    share_rises(pitcher_worth(a), pitcher_worth(b), 100 - w / 3);
    no_rating_is_negative(stat(a, 4));
    no_rating_is_negative(stat(a, 5));
    no_rating_is_negative(stat(a, 6));
}

/// The rating of a pitcher never falls when speed, stamina, aptitude or a trait
/// rises, all else equal.
pub proof fn better_pitcher_rates_no_lower(a: Player, b: Player)
    requires
        a.pos == 0,
        b == (Player {
            speed: b.speed,
            stamina: b.stamina,
            defense: b.defense,
            pitch_traits: b.pitch_traits,
            ..a
        }),
        a.speed <= b.speed,
        a.stamina <= b.stamina,
        a.defense <= b.defense,
        forall|i: int|
            0 <= i < 3 ==> a.pitch_traits@[i] <= #[trigger] b.pitch_traits@[i] && b.pitch_traits@[i]
                < 8,
    ensures
        overall_of(a) <= overall_of(b),
{
    same_fielding(a, b, 8);
    faster_is_worth_no_less(a.speed as int, b.speed as int);
    assert(a.pitch_traits@[0] <= b.pitch_traits@[0]);
    assert(a.pitch_traits@[1] <= b.pitch_traits@[1]);
    assert(a.pitch_traits@[2] <= b.pitch_traits@[2]);
    better_grades_are_worth_no_less(a.pitch_traits@[0], b.pitch_traits@[0]);
    better_grades_are_worth_no_less(a.pitch_traits@[1], b.pitch_traits@[1]);
    better_grades_are_worth_no_less(a.pitch_traits@[2], b.pitch_traits@[2]);
    assert(rating(a.stamina as int) <= rating(b.stamina as int));
    assert(rating(a.defense as int) <= rating(b.defense as int));
    assert(pitcher_worth(a) <= pitcher_worth(b));
    assert(fielder_worth(a) == fielder_worth(b));
    better_on_the_mound(a, b);
}

/// Each point that a pitcher's speed is worth counts in the rating, for a
/// pitcher who is not rated for batting too.
pub proof fn speed_counts_in_full(a: Player, b: Player)
    requires
        a.pos == 0,
        b == (Player { speed: b.speed, ..a }),
        a.stats@[0] + a.stats@[1] + a.stats@[2] < 150,
        0 < overall_of(a) < 999,
        0 < overall_of(b) < 999,
    ensures
        overall_of(b) - overall_of(a) == speed_rating(b.speed as int) - speed_rating(
            a.speed as int,
        ),
{
    same_fielding(a, b, 8);
    assert(stat(a, 0) + stat(a, 1) + stat(a, 2) < 150);
    assert(hybrid_worth(a) is None);
    assert(hybrid_worth(b) is None);
}

/// A pitcher never rates lower for batting too.
pub proof fn batting_never_hurts(pl: Player)
    requires
        pl.pos == 0,
    ensures
        overall_of(pl) >= in_range(common_worth(pl) + pitcher_worth(pl)),
{
    no_rating_is_negative(stat(pl, 4));
    no_rating_is_negative(stat(pl, 5));
    no_rating_is_negative(stat(pl, 6));
    common_shares(rating(stat(pl, 4)));
    common_shares(rating(stat(pl, 5)));
    common_shares(rating(stat(pl, 6)));
}

proof fn no_rating_is_negative(v: int)
    requires
        0 <= v,
    ensures
        0 <= rating(v),
{
}

/// A pitcher without aptitude in the field or without hitting is rated for
/// pitching and a fifth each of arm, throwing and catching.
pub proof fn plain_pitchers_are_rated_for_pitching(pl: Player)
    requires
        pl.pos == 0,
        (forall|i: int| 0 <= i < 8 ==> #[trigger] pl.field@[i] < 20) || pl.stats@[0] + pl.stats@[1]
            + pl.stats@[2] < 150,
    ensures
        overall_of(pl) == in_range(
            common_worth(pl) + pitcher_worth(pl) + rating(stat(pl, 4)) / 5 + rating(stat(pl, 5)) / 5
                + rating(stat(pl, 6)) / 5,
        ),
{
    if forall|i: int| 0 <= i < 8 ==> #[trigger] pl.field@[i] < 20 {
        low_fields(pl, 8);
    }
    assert(hybrid_worth(pl) is None);
    common_shares(rating(stat(pl, 4)));
    common_shares(rating(stat(pl, 5)));
    common_shares(rating(stat(pl, 6)));
}

/// The best aptitude is one of those in the field and none is higher.
proof fn best_field_is_the_highest(pl: Player, k: int)
    requires
        0 <= k <= 8,
    ensures
        forall|i: int| 0 <= i < k ==> #[trigger] pl.field@[i] <= best_field(pl, k),
        best_field(pl, k) == 0 || exists|i: int|
            0 <= i < k && #[trigger] pl.field@[i] == best_field(pl, k),
    decreases k,
{
    if k > 0 {
        best_field_is_the_highest(pl, k - 1);
        if pl.field@[k - 1] > best_field(pl, k - 1) {
            assert(pl.field@[k - 1] == best_field(pl, k));
        } else if best_field(pl, k) != 0 {
            let i = choose|i: int|
                0 <= i < k - 1 && #[trigger] pl.field@[i] == best_field(pl, k - 1);
            assert(pl.field@[i] == best_field(pl, k));
        }
    }
}

/// A pitcher with an aptitude of at least 20 in the field and hitting of at
/// least 150 in all may be rated for both: an eighth of best aptitude and
/// hitting together, in percent, of the worth in the field, and of the worth on
/// the mound all but a third of that. This is the rating where it comes to more
/// than pitching.
pub proof fn two_way_pitchers_are_rated_for_both(pl: Player, i: int)
    requires
        pl.pos == 0,
        0 <= i < 8,
        pl.field@[i] >= 20,
        forall|j: int| 0 <= j < 8 ==> #[trigger] pl.field@[j] <= pl.field@[i],
        pl.stats@[0] <= 99 && pl.stats@[1] <= 99 && pl.stats@[2] <= 99,
        pl.stats@[0] + pl.stats@[1] + pl.stats@[2] >= 150,
        fielder_worth(pl) >= 0,
        pitcher_worth(pl) >= 0,
    ensures
        ({
            let w = (pl.field@[i] + pl.stats@[0] + pl.stats@[1] + pl.stats@[2]) / 8;
            let both = fielder_worth(pl) * w / 100 + pitcher_worth(pl) * (100 - w / 3) / 100;
            both > pitcher_worth(pl) ==> overall_of(pl) == in_range(common_worth(pl) + both)
        }),
{
    best_field_is_the_highest(pl, 8);
    assert(best_field(pl, 8) == pl.field@[i]);
    let w = (pl.field@[i] + pl.stats@[0] + pl.stats@[1] + pl.stats@[2]) / 8;
    assert(0 <= w <= 69);
    assert(fielder_worth(pl) * w >= 0) by (nonlinear_arith)
        requires
            fielder_worth(pl) >= 0,
            w >= 0,
    ;
    assert(pitcher_worth(pl) * (100 - w / 3) >= 0) by (nonlinear_arith)
        requires
            pitcher_worth(pl) >= 0,
            0 <= w <= 69,
    ;
}

proof fn low_fields(pl: Player, k: int)
    requires
        k <= 8,
        forall|i: int| 0 <= i < 8 ==> #[trigger] pl.field@[i] < 20,
    ensures
        best_field(pl, k) < 20,
    decreases k,
{
    if k > 0 {
        low_fields(pl, k - 1);
        assert(pl.field@[k - 1] < 20);
    }
}

/// Scores in falling order.
spec fn higher() -> spec_fn(i32, i32) -> bool {
    |a: i32, b: i32| a > b
}

proof fn ranked_is_in_order(s: Seq<i32>)
    ensures
        ranked(s) == in_order(s, higher()),
        ranked(s).len() == s.len(),
        ordered(ranked(s), higher()),
        ranked(s).to_multiset() == s.to_multiset(),
{
    let falling = |a: i32, b: i32| a >= b;
    let r = in_order(s, higher());
    assert(is_order(higher()));
    sorting_orders(s, higher());
    s.lemma_sort_by_ensures(falling);
    assert forall|i: int, j: int| 0 <= i < j < r.len() implies #[trigger] falling(r[i], r[j]) by {
        assert(!higher()(r[j], r[i]));
    }
    assert(total_ordering(falling));
    lemma_sorted_unique(ranked(s), r, falling);
}

/// `r` has no score above that of `t` in the same place.
pub open spec fn no_higher(r: Seq<i32>, t: Seq<i32>) -> bool {
    &&& r.len() <= t.len()
    &&& forall|i: int| 0 <= i < r.len() ==> #[trigger] r[i] <= t[i]
}

proof fn last_is_placed_last(r: Seq<i32>)
    requires
        r.len() > 0,
        ordered(r, higher()),
    ensures
        placed(r.drop_last(), r.last(), higher()) == r,
        ordered(r.drop_last(), higher()),
{
    let d = r.drop_last();
    if d.len() > 0 {
        assert(!higher()(r[r.len() - 1], r[r.len() - 2]));
    }
    assert(d.push(r.last()) =~= r);
    assert forall|i: int, j: int| 0 <= i < j < d.len() implies !#[trigger] higher()(d[j], d[i]) by {
        assert(!higher()(r[j], r[i]));
    }
}

proof fn placing_rises(r: Seq<i32>, t: Seq<i32>, x: i32, y: i32)
    requires
        r.len() == t.len(),
        no_higher(r, t),
        ordered(r, higher()),
        ordered(t, higher()),
        x <= y,
    ensures
        no_higher(placed(r, x, higher()), placed(t, y, higher())),
        placed(r, x, higher()).len() == r.len() + 1,
        placed(t, y, higher()).len() == r.len() + 1,
    decreases r.len(),
{
    if r.len() > 0 {
        let (d, e) = (r.drop_last(), t.drop_last());
        last_is_placed_last(r);
        last_is_placed_last(t);
        assert(r[r.len() - 1] <= t[r.len() - 1]);
        assert(no_higher(d, e)) by {
            assert forall|i: int| 0 <= i < d.len() implies #[trigger] d[i] <= e[i] by {
                assert(r[i] <= t[i]);
            }
        }
        if x > r.last() && y > t.last() {
            placing_rises(d, e, x, y);
        } else if x > r.last() {
            placing_rises(d, e, x, t.last());
        } else if y > t.last() {
            placing_rises(d, e, r.last(), y);
        }
    }
}

proof fn placing_adds(r: Seq<i32>, x: i32)
    requires
        ordered(r, higher()),
    ensures
        no_higher(r, placed(r, x, higher())),
        placed(r, x, higher()).len() == r.len() + 1,
    decreases r.len(),
{
    if r.len() > 0 && x > r.last() {
        let d = r.drop_last();
        last_is_placed_last(r);
        placing_adds(d, x);
        placing_rises(d, d, r.last(), x);
        assert forall|i: int| 0 <= i < r.len() implies #[trigger] r[i] <= placed(r, x, higher())[i] by {
            assert(placed(d, r.last(), higher())[i] <= placed(d, x, higher())[i]);
        }
    }
}

proof fn ranking_rises(s: Seq<i32>, t: Seq<i32>)
    requires
        s.len() == t.len(),
        forall|i: int| 0 <= i < s.len() ==> #[trigger] s[i] <= t[i],
    ensures
        no_higher(ranked(s), ranked(t)),
    decreases s.len(),
{
    ranked_is_in_order(s);
    ranked_is_in_order(t);
    if s.len() > 0 {
        let (d, e) = (s.drop_last(), t.drop_last());
        assert forall|i: int| 0 <= i < d.len() implies #[trigger] d[i] <= e[i] by {
            assert(s[i] <= t[i]);
        }
        ranking_rises(d, e);
        ranked_is_in_order(d);
        ranked_is_in_order(e);
        assert(s[s.len() - 1] <= t[s.len() - 1]);
        placing_rises(ranked(d), ranked(e), s.last(), t.last());
    }
}

/// The share of a score rises with it.
proof fn weight_share(x: int, y: int, i: int)
    requires
        0 <= x <= y,
        0 <= i,
    ensures
        0 <= x * weight(i) / 100 <= y * weight(i) / 100,
{
    let w = weight(i);
    assert(0 <= w <= 100);
    assert(0 <= x * w <= y * w) by (nonlinear_arith)
        requires
            0 <= x <= y,
            0 <= w,
    ;
}

proof fn weighting_rises(r: Seq<i32>, t: Seq<i32>, k: int, l: int)
    requires
        no_higher(r, t),
        0 <= k <= l,
        k <= r.len(),
        l <= t.len(),
        forall|i: int| 0 <= i < r.len() ==> #[trigger] r[i] >= 0,
        forall|i: int| 0 <= i < t.len() ==> #[trigger] t[i] >= 0,
    ensures
        0 <= weighted(r, k) <= weighted(t, l),
    decreases l,
{
    if k < l {
        weighting_rises(r, t, k, l - 1);
        assert(t[l - 1] >= 0);
        weight_share(0, t[l - 1] as int, l - 1);
    } else if l > 0 {
        weighting_rises(r, t, k - 1, l - 1);
        assert(0 <= r[l - 1] <= t[l - 1]);
        weight_share(r[l - 1] as int, t[l - 1] as int, l - 1);
    }
}

proof fn no_pitch_is_negative(slot: int, b: Ball)
    ensures
        0 <= pitch_worth(slot, b) <= 200,
{
    grades_are_worth(b.power, b.power as int % 8);
    grades_are_worth(b.move_, b.move_ as int % 8);
    grades_are_worth(b.control, b.control as int % 8);
}

proof fn scores_are_positive(balls: Seq<Ball>, k: int)
    ensures
        forall|i: int|
            0 <= i < pitch_scores(balls, k).len() ==> #[trigger] pitch_scores(balls, k)[i] >= 0,
    decreases k,
{
    if k > 0 {
        scores_are_positive(balls, k - 1);
        no_pitch_is_negative(k - 1, balls[k - 1]);
        let (all, rest) = (pitch_scores(balls, k), pitch_scores(balls, k - 1));
        assert forall|i: int| 0 <= i < all.len() implies #[trigger] all[i] >= 0 by {
            if i < rest.len() {
                assert(all[i] == rest[i]);
            }
        }
    }
}

proof fn ranked_scores_are_positive(s: Seq<i32>)
    requires
        forall|i: int| 0 <= i < s.len() ==> #[trigger] s[i] >= 0,
    ensures
        forall|i: int| 0 <= i < ranked(s).len() ==> #[trigger] ranked(s)[i] >= 0,
{
    broadcast use vstd::seq_lib::group_to_multiset_ensures;

    ranked_is_in_order(s);
    assert forall|i: int| 0 <= i < ranked(s).len() implies #[trigger] ranked(s)[i] >= 0 by {
        assert(ranked(s).contains(ranked(s)[i]));
        assert(s.to_multiset().count(ranked(s)[i]) > 0);
        assert(s.contains(ranked(s)[i]));
    }
}

/// The pitches of `b` are those of `a`, none of lower grades.
pub open spec fn no_worse_pitches(a: Seq<Ball>, b: Seq<Ball>) -> bool {
    &&& a.len() == b.len()
    &&& forall|k: int|
        0 <= k < a.len() ==> {
            let (x, y) = (a[k], #[trigger] b[k]);
            x.id == y.id && x.power <= y.power < 8 && x.control <= y.control < 8 && x.move_
                <= y.move_ < 8
        }
}

proof fn better_scores(a: Seq<Ball>, b: Seq<Ball>, k: int)
    requires
        no_worse_pitches(a, b),
        k <= a.len(),
    ensures
        pitch_scores(a, k).len() == pitch_scores(b, k).len(),
        forall|i: int|
            0 <= i < pitch_scores(a, k).len() ==> #[trigger] pitch_scores(a, k)[i] <= pitch_scores(
                b,
                k,
            )[i],
    decreases k,
{
    if k > 0 {
        better_scores(a, b, k - 1);
        let (x, y) = (a[k - 1], b[k - 1]);
        better_grades_are_worth_no_less(x.power, y.power);
        better_grades_are_worth_no_less(x.control, y.control);
        better_grades_are_worth_no_less(x.move_, y.move_);
    }
}

proof fn ranked_worth_rises(s: Seq<i32>, t: Seq<i32>)
    requires
        no_higher(ranked(s), ranked(t)),
        forall|i: int| 0 <= i < s.len() ==> #[trigger] s[i] >= 0,
        forall|i: int| 0 <= i < t.len() ==> #[trigger] t[i] >= 0,
    ensures
        ({
            let (r, q) = (ranked(s), ranked(t));
            weighted(
                r,
                if r.len() < 10 {
                    r.len() as int
                } else {
                    10
                },
            ) <= weighted(
                q,
                if q.len() < 10 {
                    q.len() as int
                } else {
                    10
                },
            )
        }),
{
    ranked_scores_are_positive(s);
    ranked_scores_are_positive(t);
    let (r, q) = (ranked(s), ranked(t));
    let k = if r.len() < 10 {
        r.len() as int
    } else {
        10
    };
    let l = if q.len() < 10 {
        q.len() as int
    } else {
        10
    };
    weighting_rises(r, q, k, l);
}

/// The rating of a pitcher never falls when the grades of a pitch rise, all else
/// equal.
pub proof fn better_pitches_rate_no_lower(a: Player, b: Player)
    requires
        a.pos == 0,
        b == (Player { balls: b.balls, ..a }),
        no_worse_pitches(a.balls@, b.balls@),
    ensures
        pitches_worth(a.balls@) <= pitches_worth(b.balls@),
        overall_of(a) <= overall_of(b),
{
    let n = if a.balls@.len() < 12 {
        a.balls@.len() as int
    } else {
        12
    };
    let (s, t) = (pitch_scores(a.balls@, n), pitch_scores(b.balls@, n));
    better_scores(a.balls@, b.balls@, n);
    ranking_rises(s, t);
    scores_are_positive(a.balls@, n);
    scores_are_positive(b.balls@, n);
    ranked_worth_rises(s, t);
    same_fielding(a, b, 8);
    assert(fielder_worth(a) == fielder_worth(b));
    better_on_the_mound(a, b);
}

proof fn scores_with_one_more(a: Seq<Ball>, slot: int, x: Ball, k: int)
    requires
        0 <= slot < a.len(),
        a[slot].id % 128 == BALL_EMPTY,
        x.id % 128 != BALL_EMPTY,
        k <= a.len(),
    ensures
        ({
            let (s, t) = (pitch_scores(a, k), pitch_scores(a.update(slot, x), k));
            if k <= slot {
                t == s
            } else {
                t.to_multiset() == s.to_multiset().insert(pitch_worth(slot, x))
            }
        }),
    decreases k,
{
    broadcast use vstd::seq_lib::group_to_multiset_ensures;

    if k > 0 {
        scores_with_one_more(a, slot, x, k - 1);
        let (s, t) = (pitch_scores(a, k - 1), pitch_scores(a.update(slot, x), k - 1));
        if k - 1 > slot && a[k - 1].id % 128 != BALL_EMPTY {
            let y = pitch_worth(k - 1, a[k - 1]);
            assert(s.to_multiset().insert(pitch_worth(slot, x)).insert(y) =~= s.to_multiset().insert(
                y,
            ).insert(pitch_worth(slot, x)));
        }
    }
}

/// The rating of a pitcher never falls when an empty slot gets a pitch, all else
/// equal.
pub proof fn one_more_pitch_rates_no_lower(a: Player, b: Player, slot: int, x: Ball)
    requires
        a.pos == 0,
        b == (Player { balls: b.balls, ..a }),
        a.balls@.len() == 12,
        0 <= slot < 12,
        a.balls@[slot].id == BALL_EMPTY,
        x.id < 128 && x.id != BALL_EMPTY,
        b.balls@ == a.balls@.update(slot, x),
    ensures
        pitches_worth(a.balls@) <= pitches_worth(b.balls@),
        overall_of(a) <= overall_of(b),
{
    broadcast use vstd::seq_lib::group_to_multiset_ensures;

    let (s, t) = (pitch_scores(a.balls@, 12), pitch_scores(b.balls@, 12));
    let w = pitch_worth(slot, x);
    scores_with_one_more(a.balls@, slot, x, 12);
    let u = s.push(w);
    assert(u.to_multiset() =~= t.to_multiset());
    ranked_is_in_order(s);
    ranked_is_in_order(t);
    ranked_is_in_order(u);
    let falling = |p: i32, q: i32| p >= q;
    assert forall|i: int, j: int| 0 <= i < j < ranked(u).len() implies #[trigger] falling(
        ranked(u)[i],
        ranked(u)[j],
    ) by {
        assert(!higher()(ranked(u)[j], ranked(u)[i]));
    }
    assert forall|i: int, j: int| 0 <= i < j < ranked(t).len() implies #[trigger] falling(
        ranked(t)[i],
        ranked(t)[j],
    ) by {
        assert(!higher()(ranked(t)[j], ranked(t)[i]));
    }
    assert(total_ordering(falling));
    lemma_sorted_unique(ranked(u), ranked(t), falling);
    assert(u.drop_last() =~= s);
    assert(ranked(u) == placed(ranked(s), w, higher()));
    placing_adds(ranked(s), w);
    scores_are_positive(a.balls@, 12);
    scores_are_positive(b.balls@, 12);
    ranked_worth_rises(s, t);
    same_fielding(a, b, 8);
    assert(fielder_worth(a) == fielder_worth(b));
    better_on_the_mound(a, b);
}

/// The three best pitches count in full, each further one a tenth less than the
/// one before, up to the tenth. Above 300 all of them together count half.
pub proof fn pitches_count_by_rank(balls: Seq<Ball>)
    requires
        balls.len() == 12,
    ensures
        ({
            let s = ranked(pitch_scores(balls, 12));
            let x = |i: int|
                if i < s.len() {
                    s[i] as int
                } else {
                    0
                };
            let sum = x(0) + x(1) + x(2) + x(3) * 9 / 10 + x(4) * 8 / 10 + x(5) * 7 / 10 + x(6) * 6
                / 10 + x(7) * 5 / 10 + x(8) * 4 / 10 + x(9) * 3 / 10;
            pitches_worth(balls) == if sum > 300 {
                (sum + 300) / 2
            } else {
                sum
            }
        }),
        forall|i: int, j: int|
            0 <= i < j < ranked(pitch_scores(balls, 12)).len() ==> ranked(
                pitch_scores(balls, 12),
            )[i] >= ranked(pitch_scores(balls, 12))[j],
        ranked(pitch_scores(balls, 12)).to_multiset() == pitch_scores(balls, 12).to_multiset(),
{
    let s = ranked(pitch_scores(balls, 12));
    ranked_is_in_order(pitch_scores(balls, 12));
    assert forall|i: int, j: int| 0 <= i < j < s.len() implies s[i] >= s[j] by {
        assert(!higher()(s[j], s[i]));
    }
    weighted_step(s, 0);
    weighted_step(s, 1);
    weighted_step(s, 2);
    weighted_step(s, 3);
    weighted_step(s, 4);
    weighted_step(s, 5);
    weighted_step(s, 6);
    weighted_step(s, 7);
    weighted_step(s, 8);
    weighted_step(s, 9);
}

/// The weighted sum of the first scores, as many as there are up to `j`.
spec fn first_weighted(s: Seq<i32>, j: int) -> int {
    weighted(
        s,
        if s.len() < j {
            s.len() as int
        } else {
            j
        },
    )
}

proof fn weighted_step(s: Seq<i32>, j: int)
    requires
        0 <= j < 10,
    ensures
        first_weighted(s, j + 1) == first_weighted(s, j) + if j < s.len() {
            if j < 3 {
                s[j] as int
            } else {
                s[j] * (12 - j) / 10
            }
        } else {
            0
        },
        first_weighted(s, 0) == 0,
{
    if j < s.len() {
        let x: int = s[j] as int;
        if j >= 3 {
            let w: int = 12 - j;
            assert(x * (w * 10) / 100 == x * w / 10) by {
                assert(x * (w * 10) == (x * w) * 10) by (nonlinear_arith);
                let y = x * w;
                assert(y * 10 / 100 == y / 10);
            }
        }
    }
}

} // verus!

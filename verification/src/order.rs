//! Sorting that keeps equal elements in their order, and the order of texts.

use vstd::prelude::*;

use crate::text::chars_of;

verus! {

/// `x` put into sorted elements, behind those that are not greater.
pub open spec fn placed<T>(s: Seq<T>, x: T, lt: spec_fn(T, T) -> bool) -> Seq<T>
    decreases s.len(),
{
    if s.len() > 0 && lt(x, s.last()) {
        placed(s.drop_last(), x, lt).push(s.last())
    } else {
        s.push(x)
    }
}

/// The elements in order, equal ones as they came.
pub open spec fn in_order<T>(s: Seq<T>, lt: spec_fn(T, T) -> bool) -> Seq<T>
    decreases s.len(),
{
    if s.len() == 0 {
        s
    } else {
        placed(in_order(s.drop_last(), lt), s.last(), lt)
    }
}

/// `lt` is an order in which elements can tie.
pub open spec fn is_order<T>(lt: spec_fn(T, T) -> bool) -> bool {
    &&& forall|a: T, b: T| #![trigger lt(a, b)] lt(a, b) ==> !lt(b, a)
    &&& forall|a: T, b: T, c: T|
        #![trigger lt(a, b), lt(b, c)]
        !lt(a, b) && !lt(b, c) ==> !lt(a, c)
}

/// No element is smaller than one before it.
pub open spec fn ordered<T>(s: Seq<T>, lt: spec_fn(T, T) -> bool) -> bool {
    forall|i: int, j: int| 0 <= i < j < s.len() ==> !#[trigger] lt(s[j], s[i])
}

proof fn placed_is_ordered<T>(s: Seq<T>, x: T, lt: spec_fn(T, T) -> bool)
    requires
        is_order(lt),
        ordered(s, lt),
    ensures
        ordered(placed(s, x, lt), lt),
        placed(s, x, lt).len() == s.len() + 1,
        placed(s, x, lt).to_multiset() == s.to_multiset().insert(x),
        forall|i: int| #![trigger placed(s, x, lt)[i]]
            0 <= i < placed(s, x, lt).len() ==> placed(s, x, lt)[i] == x || s.contains(
                placed(s, x, lt)[i],
            ),
    decreases s.len(),
{
    broadcast use vstd::seq_lib::group_to_multiset_ensures;

    let r = placed(s, x, lt);
    if s.len() > 0 && lt(x, s.last()) {
        let d = s.drop_last();
        placed_is_ordered(d, x, lt);
        let q = placed(d, x, lt);
        assert(s =~= d.push(s.last()));
        assert forall|i: int, j: int| 0 <= i < j < r.len() implies !#[trigger] lt(r[j], r[i]) by {
            if j == r.len() - 1 {
                assert(r[i] == q[i]);
                if q[i] == x {
                } else {
                    let k = choose|k: int| 0 <= k < d.len() && d[k] == q[i];
                    assert(!lt(s[s.len() - 1], s[k]));
                }
            } else {
                assert(r[i] == q[i] && r[j] == q[j]);
                assert(!lt(q[j], q[i]));
            }
        }
        assert forall|i: int| #![trigger r[i]] 0 <= i < r.len() implies r[i] == x || s.contains(r[i]) by {
            if i == r.len() - 1 {
                assert(s[s.len() - 1] == r[i]);
            } else {
                assert(r[i] == q[i]);
                if q[i] != x {
                    let k = choose|k: int| 0 <= k < d.len() && d[k] == q[i];
                    assert(s[k] == r[i]);
                }
            }
        }
        assert(s.to_multiset() =~= d.to_multiset().insert(s.last()));
        assert(r.to_multiset() =~= s.to_multiset().insert(x));
    } else {
        assert forall|i: int, j: int| 0 <= i < j < r.len() implies !#[trigger] lt(r[j], r[i]) by {
            if j == r.len() - 1 {
                if i < s.len() - 1 {
                    assert(!lt(s[s.len() - 1], s[i]));
                    assert(!lt(x, s.last()));
                    assert(!lt(x, s[i]));
                }
            } else {
                assert(!lt(s[j], s[i]));
            }
        }
        assert forall|i: int| #![trigger r[i]] 0 <= i < r.len() implies r[i] == x || s.contains(r[i]) by {
            if i < s.len() {
                assert(s[i] == r[i]);
            }
        }
    }
}

/// Sorting puts the elements in order and neither adds nor loses any.
pub proof fn sorting_orders<T>(s: Seq<T>, lt: spec_fn(T, T) -> bool)
    requires
        is_order(lt),
    ensures
        ordered(in_order(s, lt), lt),
        in_order(s, lt).len() == s.len(),
        in_order(s, lt).to_multiset() == s.to_multiset(),
    decreases s.len(),
{
    broadcast use vstd::seq_lib::group_to_multiset_ensures;

    if s.len() > 0 {
        sorting_orders(s.drop_last(), lt);
        placed_is_ordered(in_order(s.drop_last(), lt), s.last(), lt);
        assert(s =~= s.drop_last().push(s.last()));
    }
}

/// Elements that tie with `x`, in the order in which they stand.
pub open spec fn ties<T>(s: Seq<T>, x: T, lt: spec_fn(T, T) -> bool) -> Seq<T>
    decreases s.len(),
{
    if s.len() == 0 {
        s
    } else {
        let rest = ties(s.drop_last(), x, lt);
        if !lt(x, s.last()) && !lt(s.last(), x) {
            rest.push(s.last())
        } else {
            rest
        }
    }
}

proof fn placed_keeps_ties<T>(s: Seq<T>, y: T, x: T, lt: spec_fn(T, T) -> bool)
    requires
        is_order(lt),
        ordered(s, lt),
    ensures
        ties(placed(s, y, lt), x, lt) == ties(s.push(y), x, lt),
    decreases s.len(),
{
    assert(s.push(y).drop_last() =~= s);
    if s.len() > 0 && lt(y, s.last()) {
        let d = s.drop_last();
        placed_keeps_ties(d, y, x, lt);
        assert(d.push(y).drop_last() =~= d);
        let q = placed(d, y, lt);
        assert(q.push(s.last()).drop_last() =~= q);
        let yx = !lt(x, y) && !lt(y, x);
        let lx = !lt(x, s.last()) && !lt(s.last(), x);
        if yx && lx {
            assert(!lt(y, x) && !lt(x, s.last()));
            assert(!lt(y, s.last()));
        }
        let base = ties(d, x, lt);
        assert(ties(s, x, lt) == if lx {
            base.push(s.last())
        } else {
            base
        });
        assert(ties(d.push(y), x, lt) == if yx {
            base.push(y)
        } else {
            base
        });
        assert(ties(q.push(s.last()), x, lt) == if lx {
            ties(q, x, lt).push(s.last())
        } else {
            ties(q, x, lt)
        });
    }
}

/// Elements that tie stay in the order in which they came.
pub proof fn sorting_is_stable<T>(s: Seq<T>, x: T, lt: spec_fn(T, T) -> bool)
    requires
        is_order(lt),
    ensures
        ties(in_order(s, lt), x, lt) == ties(s, x, lt),
    decreases s.len(),
{
    if s.len() > 0 {
        let d = s.drop_last();
        sorting_is_stable(d, x, lt);
        sorting_orders(d, lt);
        placed_keeps_ties(in_order(d, lt), s.last(), x, lt);
        assert(in_order(d, lt).push(s.last()).drop_last() =~= in_order(d, lt));
    }
}

/// Where `x` goes is found from the end: past the elements that are greater.
pub proof fn placed_at<T>(s: Seq<T>, x: T, lt: spec_fn(T, T) -> bool, i: int)
    requires
        0 <= i <= s.len(),
        forall|k: int| i <= k < s.len() ==> lt(x, #[trigger] s[k]),
        i > 0 ==> !lt(x, s[i - 1]),
    ensures
        placed(s, x, lt) == s.insert(i, x),
    decreases s.len(),
{
    if i < s.len() {
        let d = s.drop_last();
        assert(lt(x, s[s.len() - 1]));
        assert forall|k: int| i <= k < d.len() implies lt(x, #[trigger] d[k]) by {
            assert(d[k] == s[k]);
        }
        placed_at(d, x, lt, i);
        assert(d.insert(i, x).push(s.last()) =~= s.insert(i, x));
    } else {
        assert(s.push(x) =~= s.insert(i, x));
    }
}

/// `a` comes before `b`: character by character, by code points.
pub open spec fn text_lt(a: Seq<char>, b: Seq<char>) -> bool
    decreases a.len(),
{
    if b.len() == 0 {
        false
    } else if a.len() == 0 {
        true
    } else if a[0] != b[0] {
        a[0] < b[0]
    } else {
        text_lt(a.skip(1), b.skip(1))
    }
}

/// Whether `a` comes before `b`.
pub fn text_before(a: &str, b: &str) -> (res: bool)
    ensures
        res == text_lt(a@, b@),
{
    let x = chars_of(a);
    let y = chars_of(b);
    let mut i: usize = 0;
    assert(x@.skip(0) =~= x@);
    assert(y@.skip(0) =~= y@);
    while i < x.len() && i < y.len() && x[i] == y[i]
        invariant
            i <= x@.len(),
            i <= y@.len(),
            text_lt(x@, y@) == text_lt(x@.skip(i as int), y@.skip(i as int)),
        decreases x@.len() - i,
    {
        assert(x@.skip(i as int).skip(1) =~= x@.skip(i + 1));
        assert(y@.skip(i as int).skip(1) =~= y@.skip(i + 1));
        i += 1;
    }
    if i >= y.len() {
        false
    } else if i >= x.len() {
        true
    } else {
        x[i] < y[i]
    }
}

/// The order of texts is one in which only equal texts tie.
pub proof fn text_order(a: Seq<char>, b: Seq<char>, c: Seq<char>)
    ensures
        text_lt(a, b) ==> !text_lt(b, a),
        !text_lt(a, b) && !text_lt(b, c) ==> !text_lt(a, c),
        !text_lt(a, b) && !text_lt(b, a) ==> a == b,
    decreases a.len(),
{
    if a.len() > 0 && b.len() > 0 && c.len() > 0 {
        text_order(a.skip(1), b.skip(1), c.skip(1));
        text_order(a.skip(1), b.skip(1), b.skip(1));
        if a[0] == b[0] && a.skip(1) == b.skip(1) {
            assert(a =~= seq![a[0]] + a.skip(1));
            assert(b =~= seq![b[0]] + b.skip(1));
        }
    } else if a.len() > 0 && b.len() > 0 {
        text_order(a.skip(1), b.skip(1), c);
        if a[0] == b[0] && a.skip(1) == b.skip(1) {
            assert(a =~= seq![a[0]] + a.skip(1));
            assert(b =~= seq![b[0]] + b.skip(1));
        }
    } else if a.len() == 0 && b.len() == 0 {
        assert(a =~= b);
    }
}

} // verus!

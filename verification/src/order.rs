//! Stable sorting by a strict weak order.

use vstd::prelude::*;

verus! {

/// A type whose values have ranks: one may stand strictly before another, and
/// values of which neither stands before the other are tied.
pub trait Ranked: Sized {
    /// Whether `self` stands strictly before `other`.
    spec fn precedes(self, other: Self) -> bool;

    /// Standing before is a strict weak order.
    proof fn weak_order(a: Self, b: Self, c: Self)
        ensures
            !a.precedes(a),
            a.precedes(b) ==> !b.precedes(a),
            a.precedes(c) ==> a.precedes(b) || b.precedes(c),
    ;

    /// Decides whether `self` stands strictly before `other`.
    fn goes_before(&self, other: &Self) -> (r: bool)
        ensures
            r == self.precedes(*other),
    ;
}

/// Neither of two values stands before the other.
pub open spec fn tied<T: Ranked>(a: T, b: T) -> bool {
    !a.precedes(b) && !b.precedes(a)
}

/// The values tied with `a`, as a predicate.
pub open spec fn tied_with<T: Ranked>(a: T) -> spec_fn(T) -> bool {
    |b: T| tied(a, b)
}

/// No later element stands before an earlier one.
pub open spec fn in_order<T: Ranked>(s: Seq<T>) -> bool {
    forall|i: int, j: int| 0 <= i < j < s.len() ==> !(#[trigger] s[j]).precedes(#[trigger] s[i])
}

/// `r` holds the elements of `s` in order, and tied elements as they stood in `s`.
pub open spec fn stable_sort_of<T: Ranked>(s: Seq<T>, r: Seq<T>) -> bool {
    &&& in_order(r)
    &&& r.to_multiset() == s.to_multiset()
    &&& forall|a: T| #[trigger] r.filter(tied_with(a)) == s.filter(tied_with(a))
}

proof fn filter_none<T>(s: Seq<T>, p: spec_fn(T) -> bool)
    requires
        forall|i: int| 0 <= i < s.len() ==> !p(#[trigger] s[i]),
    ensures
        s.filter(p) == Seq::<T>::empty(),
    decreases s.len(),
{
    reveal(Seq::filter);
    if s.len() > 0 {
        filter_none(s.drop_last(), p);
    }
}

/// Moving one element left past elements that it stands before keeps every class of
/// tied elements as it was.
proof fn moving_left_is_stable<T: Ranked>(v: Seq<T>, p: int, i: int, a: T)
    requires
        0 <= p <= i < v.len(),
        forall|k: int| p <= k < i ==> v[i].precedes(#[trigger] v[k]),
    ensures
        v.remove(i).insert(p, v[i]).filter(tied_with(a)) == v.filter(tied_with(a)),
{
    let q = tied_with(a);
    let e = v[i];
    let left = v.take(p);
    let mid = v.subrange(p, i);
    let right = v.skip(i + 1);
    let w = v.remove(i).insert(p, e);
    assert(v =~= left + mid + seq![e] + right);
    assert(w =~= left + seq![e] + mid + right);
    Seq::filter_distributes_over_add(left + mid + seq![e], right, q);
    Seq::filter_distributes_over_add(left + mid, seq![e], q);
    Seq::filter_distributes_over_add(left, mid, q);
    Seq::filter_distributes_over_add(left + seq![e] + mid, right, q);
    Seq::filter_distributes_over_add(left + seq![e], mid, q);
    Seq::filter_distributes_over_add(left, seq![e], q);
    if q(e) {
        assert forall|k: int| 0 <= k < mid.len() implies !q(#[trigger] mid[k]) by {
            let m = mid[k];
            assert(m == v[p + k]);
            assert(e.precedes(m));
            T::weak_order(e, a, m);
        }
        filter_none(mid, q);
        assert(left.filter(q) + mid.filter(q) =~= left.filter(q));
        assert(left.filter(q) + seq![e].filter(q) + mid.filter(q) =~= left.filter(q) + seq![e].filter(
            q,
        ));
    } else {
        filter_none(seq![e], q);
        assert(left.filter(q) + mid.filter(q) + seq![e].filter(q) =~= left.filter(q) + mid.filter(q));
        assert(left.filter(q) + seq![e].filter(q) =~= left.filter(q));
    }
}

proof fn moving_keeps_elements<T>(v: Seq<T>, p: int, i: int)
    requires
        0 <= p <= i < v.len(),
    ensures
        v.remove(i).insert(p, v[i]).to_multiset() == v.to_multiset(),
{
    let e = v[i];
    broadcast use vstd::seq_lib::group_to_multiset_ensures;

    vstd::seq_lib::to_multiset_remove(v, i);
    vstd::seq_lib::to_multiset_insert(v.remove(i), p, e);
    assert(v.to_multiset().contains(e)) by {
        assert(v.contains(e));
    }
    assert(v.to_multiset().remove(e).insert(e) =~= v.to_multiset());
}

/// Sorts in place, keeping tied elements in the order they had.
pub fn sort_stably<T: Ranked>(v: &mut Vec<T>)
    ensures
        stable_sort_of(old(v)@, final(v)@),
{
    let ghost start = v@;
    let n: usize = v.len();
    let mut i: usize = 0;
    while i < n
        invariant
            i <= n,
            v@.len() == n,
            in_order(v@.take(i as int)),
            v@.to_multiset() == start.to_multiset(),
            forall|a: T| #[trigger] v@.filter(tied_with(a)) == start.filter(tied_with(a)),
        decreases n - i,
    {
        let ghost before = v@;
        let x = v.remove(i);
        let mut p: usize = i;
        while p > 0 && x.goes_before(&v[p - 1])
            invariant
                p <= i < n,
                v@ == before.remove(i as int),
                before.len() == n,
                x == before[i as int],
                forall|k: int| p <= k < i ==> x.precedes(#[trigger] before[k]),
            decreases p,
        {
            p = p - 1;
        }
        v.insert(p, x);
        proof {
            assert(v@ == before.remove(i as int).insert(p as int, before[i as int]));
            moving_keeps_elements(before, p as int, i as int);
            assert forall|a: T| #[trigger] v@.filter(tied_with(a)) == start.filter(tied_with(a)) by {
                moving_left_is_stable(before, p as int, i as int, a);
                assert(before.filter(tied_with(a)) == start.filter(tied_with(a)));
            }
            let done = before.take(i as int);
            let now = v@.take(i + 1);
            assert forall|j: int, k: int| 0 <= j < k < now.len() implies !(#[trigger] now[k]).precedes(
                #[trigger] now[j],
            ) by {
                let e = before[i as int];
                if k < p {
                    assert(now[j] == done[j] && now[k] == done[k]);
                } else if k == p {
                    assert(now[j] == done[j] && now[k] == e);
                    assert(p > 0 && !e.precedes(done[p - 1]));
                    if e.precedes(done[j]) {
                        T::weak_order(e, done[p - 1], done[j]);
                    }
                } else {
                    assert(now[k] == done[k - 1]);
                    assert(e.precedes(before[k - 1]));
                    if j < p {
                        assert(now[j] == done[j]);
                    } else if j == p {
                        assert(now[j] == e);
                        T::weak_order(e, done[k - 1], e);
                    } else {
                        assert(now[j] == done[j - 1]);
                    }
                }
            }
        }
        i = i + 1;
    }
    assert(v@.take(n as int) =~= v@);
}

proof fn same_classes_same_order<T: Ranked>(r: Seq<T>, t: Seq<T>)
    requires
        in_order(r),
        in_order(t),
        r.len() == t.len(),
        forall|a: T| #[trigger] r.filter(tied_with(a)) == t.filter(tied_with(a)),
    ensures
        r == t,
    decreases r.len(),
{
    if r.len() > 0 {
        let x = r.last();
        let y = t.last();
        T::weak_order(x, x, x);
        T::weak_order(y, y, y);
        T::weak_order(x, y, x);
        reveal(Seq::filter);
        assert(r.filter(tied_with(x)).last() == x);
        assert(r.filter(tied_with(x)) == t.filter(tied_with(x)));
        assert(t.filter(tied_with(y)).last() == y);
        assert(r.filter(tied_with(y)) == t.filter(tied_with(y)));
        assert(t.filter(tied_with(x)).contains(x));
        assert(r.filter(tied_with(y)).contains(y));
        t.lemma_filter_contains_rev(tied_with(x), x);
        r.lemma_filter_contains_rev(tied_with(y), y);
        let i = choose|i: int| 0 <= i < t.len() && t[i] == x;
        let j = choose|j: int| 0 <= j < r.len() && r[j] == y;
        assert(!y.precedes(x)) by {
            if i < t.len() - 1 {
                assert(!t[t.len() - 1].precedes(t[i]));
            }
        }
        assert(!x.precedes(y)) by {
            if j < r.len() - 1 {
                assert(!r[r.len() - 1].precedes(r[j]));
            }
        }
        assert(tied_with(x)(y));
        assert(t.filter(tied_with(x)).last() == y);
        let r1 = r.drop_last();
        let t1 = t.drop_last();
        assert forall|a: T| #[trigger] r1.filter(tied_with(a)) == t1.filter(tied_with(a)) by {
            let p = tied_with(a);
            assert(r.filter(p) == t.filter(p));
            if p(x) {
                assert(r.filter(p).drop_last() =~= r1.filter(p));
                assert(t.filter(p).drop_last() =~= t1.filter(p));
            }
        }
        same_classes_same_order(r1, t1);
        assert(r =~= r1.push(x));
        assert(t =~= t1.push(y));
    } else {
        assert(r =~= t);
    }
}

/// A sequence has one stable sort.
pub proof fn stable_sort_is_unique<T: Ranked>(s: Seq<T>, r: Seq<T>, t: Seq<T>)
    requires
        stable_sort_of(s, r),
        stable_sort_of(s, t),
    ensures
        r == t,
{
    broadcast use vstd::seq_lib::group_to_multiset_ensures;

    assert(r.len() == r.to_multiset().len());
    assert(t.len() == t.to_multiset().len());
    assert forall|a: T| #[trigger] r.filter(tied_with(a)) == t.filter(tied_with(a)) by {
        assert(r.filter(tied_with(a)) == s.filter(tied_with(a)));
        assert(t.filter(tied_with(a)) == s.filter(tied_with(a)));
    }
    same_classes_same_order(r, t);
}

/// Whether positions in a list of `n` are given in rising order, none of them twice.
pub open spec fn picks(src: Seq<int>, n: int) -> bool {
    &&& forall|i: int| 0 <= i < src.len() ==> 0 <= #[trigger] src[i] < n
    &&& forall|i: int, j: int| 0 <= i < j < src.len() ==> #[trigger] src[i] < #[trigger] src[j]
}

/// One more position, behind all others, keeps them in rising order, and each that was given
/// still is.
pub(crate) proof fn picks_one_more(src: Seq<int>, n: int)
    requires
        picks(src, n),
        0 <= n,
    ensures
        picks(src.push(n), n + 1),
        src.push(n).contains(n),
        forall|k: int| src.contains(k) ==> #[trigger] src.push(n).contains(k),
{
    let more = src.push(n);
    assert(more[src.len() as int] == n);
    assert forall|k: int| src.contains(k) implies #[trigger] more.contains(k) by {
        let i = src.index_of(k);
        assert(more[i] == k);
    }
}

/// What a filter keeps are the elements that satisfy it, each where it stood among the
/// others. The answer holds the positions of those kept.
pub proof fn kept_in_order<T>(s: Seq<T>, p: spec_fn(T) -> bool) -> (src: Seq<int>)
    ensures
        picks(src, s.len() as int),
        src.len() == s.filter(p).len(),
        forall|i: int|
            0 <= i < src.len() ==> s.filter(p)[i] == s[#[trigger] src[i]] && p(s[src[i]]),
        forall|k: int| 0 <= k < s.len() && p(#[trigger] s[k]) ==> src.contains(k),
    decreases s.len(),
{
    reveal(Seq::filter);
    if s.len() == 0 {
        seq![]
    } else {
        let n = s.len() - 1;
        let head = s.drop_last();
        let src = kept_in_order(head, p);
        assert forall|k: int| 0 <= k < n implies #[trigger] s[k] == head[k] by {
        }
        if p(s.last()) {
            picks_one_more(src, n);
            src.push(n)
        } else {
            src
        }
    }
}

/// A sorted list holds what was sorted, no element stands before one that precedes it, and
/// those of which neither precedes the other stand as they stood.
pub proof fn sorting_keeps_what_is_tied<T: Ranked>(s: Seq<T>, r: Seq<T>, a: T)
    requires
        stable_sort_of(s, r),
    ensures
        r.to_multiset() == s.to_multiset(),
        forall|i: int, j: int|
            0 <= i < j < r.len() ==> !(#[trigger] r[j]).precedes(#[trigger] r[i]),
        r.filter(|b: T| !a.precedes(b) && !b.precedes(a)) == s.filter(
            |b: T| !a.precedes(b) && !b.precedes(a),
        ),
{
    assert(tied_with(a) =~= (|b: T| !a.precedes(b) && !b.precedes(a)));
}

/// Positions in rising order hold none twice, and there are no more of them than places.
pub proof fn no_position_is_picked_twice(src: Seq<int>, n: int)
    requires
        picks(src, n),
        0 <= n,
    ensures
        src.no_duplicates(),
        src.len() <= n,
    decreases n,
{
    if src.len() > 0 {
        let head = src.drop_last();
        assert forall|i: int| 0 <= i < head.len() implies 0 <= #[trigger] head[i] < src.last() by {
            assert(src[i] < src[src.len() - 1]);
        }
        assert forall|i: int, j: int| 0 <= i < j < head.len() implies #[trigger] head[i]
            < #[trigger] head[j] by {
            assert(src[i] < src[j]);
        }
        assert(0 <= src[src.len() - 1] < n);
        no_position_is_picked_twice(head, src.last());
        assert forall|i: int, j: int| 0 <= i < src.len() && 0 <= j < src.len() && i
            != j implies src[i] != src[j] by {
            if i < j {
                assert(src[i] < src[j]);
            } else {
                assert(src[j] < src[i]);
            }
        }
    }
}

} // verus!

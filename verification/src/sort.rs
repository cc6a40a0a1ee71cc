//! Stable sorting by a total preorder on the values' views, as `slice::sort_by`
//! and `slice::sort_by_key` order the catalog lists.
use vstd::prelude::*;

verus! {

broadcast use vstd::seq_lib::group_to_multiset_ensures;

/// A type whose values can be ordered by a total preorder on their views.
pub trait SortKey: View + Sized {
    /// Whether a value with view `a` may stand before one with view `b`.
    spec fn key_le(a: Self::V, b: Self::V) -> bool;

    /// Whether `self` may stand before `other`.
    fn le(&self, other: &Self) -> (r: bool)
        ensures
            r == Self::key_le(self@, other@),
    ;

    /// Any two values can be ordered.
    proof fn lemma_key_le_total(a: Self::V, b: Self::V)
        ensures
            Self::key_le(a, b) || Self::key_le(b, a),
    ;

    /// The order is transitive.
    proof fn lemma_key_le_transitive(a: Self::V, b: Self::V, c: Self::V)
        requires
            Self::key_le(a, b),
            Self::key_le(b, c),
        ensures
            Self::key_le(a, c),
    ;
}

/// The views of the values in `s`.
pub open spec fn views<T: View>(s: Seq<T>) -> Seq<T::V> {
    s.map_values(|x: T| x@)
}

/// `s` with `x` inserted after every element that may stand before it and
/// before the rest (for a sorted `s`, after its last element not above `x`).
pub open spec fn insert_sorted<T: SortKey>(s: Seq<T::V>, x: T::V) -> Seq<T::V>
    decreases s.len(),
{
    if s.len() == 0 || T::key_le(s.last(), x) {
        s.push(x)
    } else {
        insert_sorted::<T>(s.drop_last(), x).push(s.last())
    }
}

/// `s` sorted stably: elements that the order ties keep their order in `s`.
pub open spec fn sorted_stable<T: SortKey>(s: Seq<T::V>) -> Seq<T::V>
    decreases s.len(),
{
    if s.len() == 0 {
        s
    } else {
        insert_sorted::<T>(sorted_stable::<T>(s.drop_last()), s.last())
    }
}

/// Whether every element of `s` may stand before every later one.
pub open spec fn is_sorted<T: SortKey>(s: Seq<T::V>) -> bool {
    forall|i: int, j: int| 0 <= i < j < s.len() ==> T::key_le(#[trigger] s[i], #[trigger] s[j])
}

/// Inserting at the position that a scan from the end finds is `insert_sorted`.
proof fn lemma_insert_at<T: SortKey>(s: Seq<T::V>, x: T::V, j: int)
    requires
        0 <= j <= s.len(),
        j == 0 || T::key_le(s[j - 1], x),
        forall|k: int| j <= k < s.len() ==> !T::key_le(#[trigger] s[k], x),
    ensures
        insert_sorted::<T>(s, x) == s.insert(j, x),
    decreases s.len(),
{
    if j == s.len() {
        assert(s.insert(j, x) =~= s.push(x));
    } else {
        assert(!T::key_le(s[s.len() - 1], x));
        let p = s.drop_last();
        assert forall|k: int| j <= k < p.len() implies !T::key_le(#[trigger] p[k], x) by {
            assert(p[k] == s[k]);
        }
        lemma_insert_at::<T>(p, x, j);
        assert(s.insert(j, x) =~= p.insert(j, x).push(s.last()));
    }
}

/// Sorts `v` stably by the order of `T`.
pub fn sort_stable<T: SortKey>(v: Vec<T>) -> (r: Vec<T>)
    ensures
        views(r@) == sorted_stable::<T>(views(v@)),
{
    let ghost orig = v@;
    let mut rest = v;
    let mut r: Vec<T> = Vec::new();
    let n = rest.len();
    let mut k: usize = 0;
    assert(views(orig.take(0)) =~= Seq::<T::V>::empty());
    assert(orig.skip(0) =~= orig);
    while k < n
        invariant
            n == orig.len(),
            k <= n,
            rest@ =~= orig.skip(k as int),
            views(r@) == sorted_stable::<T>(views(orig.take(k as int))),
        decreases n - k,
    {
        let x = rest.remove(0);
        assert(x == orig[k as int]);
        let mut j = r.len();
        while j > 0 && !r[j - 1].le(&x)
            invariant
                j <= r.len(),
                forall|m: int| j <= m < r@.len() ==> !T::key_le(#[trigger] views(r@)[m], x@),
            decreases j,
        {
            j = j - 1;
        }
        proof {
            lemma_insert_at::<T>(views(r@), x@, j as int);
            assert(views(orig.take(k + 1)).drop_last() =~= views(orig.take(k as int)));
            assert(views(orig.take(k + 1)).last() == x@);
        }
        let ghost before = r@;
        r.insert(j, x);
        assert(views(r@) =~= views(before).insert(j as int, x@));
        k = k + 1;
    }
    assert(orig.take(n as int) =~= orig);
    r
}

/// Inserting keeps every element of `s` and adds `x`.
proof fn lemma_insert_sorted_multiset<T: SortKey>(s: Seq<T::V>, x: T::V)
    ensures
        insert_sorted::<T>(s, x).to_multiset() == s.to_multiset().insert(x),
    decreases s.len(),
{
    if s.len() == 0 || T::key_le(s.last(), x) {
    } else {
        let p = s.drop_last();
        lemma_insert_sorted_multiset::<T>(p, x);
        assert(s =~= p.push(s.last()));
        assert(insert_sorted::<T>(s, x).to_multiset() =~= p.to_multiset().insert(x).insert(
            s.last(),
        ));
        assert(s.to_multiset() =~= p.to_multiset().insert(s.last()));
    }
}

/// If `x` and every element of `s` may stand before `b`, so may every element
/// of `insert_sorted(s, x)`.
proof fn lemma_insert_sorted_bound<T: SortKey>(s: Seq<T::V>, x: T::V, b: T::V)
    requires
        forall|i: int| 0 <= i < s.len() ==> T::key_le(#[trigger] s[i], b),
        T::key_le(x, b),
    ensures
        forall|i: int|
            0 <= i < insert_sorted::<T>(s, x).len() ==> T::key_le(
                #[trigger] insert_sorted::<T>(s, x)[i],
                b,
            ),
    decreases s.len(),
{
    lemma_insert_sorted_len::<T>(s, x);
    if s.len() == 0 || T::key_le(s.last(), x) {
        assert forall|i: int| 0 <= i < s.push(x).len() implies T::key_le(
            #[trigger] s.push(x)[i],
            b,
        ) by {
            if i < s.len() {
                assert(s.push(x)[i] == s[i]);
            }
        }
    } else {
        let p = s.drop_last();
        assert forall|i: int| 0 <= i < p.len() implies T::key_le(#[trigger] p[i], b) by {
            assert(p[i] == s[i]);
        }
        lemma_insert_sorted_bound::<T>(p, x, b);
        let t = insert_sorted::<T>(p, x);
        lemma_insert_sorted_len::<T>(p, x);
        assert forall|i: int| 0 <= i < t.push(s.last()).len() implies T::key_le(
            #[trigger] t.push(s.last())[i],
            b,
        ) by {
            if i < t.len() {
                assert(t.push(s.last())[i] == t[i]);
            } else {
                assert(T::key_le(s[s.len() - 1], b));
            }
        }
    }
}

proof fn lemma_insert_sorted_len<T: SortKey>(s: Seq<T::V>, x: T::V)
    ensures
        insert_sorted::<T>(s, x).len() == s.len() + 1,
    decreases s.len(),
{
    if !(s.len() == 0 || T::key_le(s.last(), x)) {
        lemma_insert_sorted_len::<T>(s.drop_last(), x);
    }
}

/// Inserting into a sorted sequence keeps it sorted.
proof fn lemma_insert_sorted_sorted<T: SortKey>(s: Seq<T::V>, x: T::V)
    requires
        is_sorted::<T>(s),
    ensures
        is_sorted::<T>(insert_sorted::<T>(s, x)),
    decreases s.len(),
{
    if s.len() == 0 || T::key_le(s.last(), x) {
        let t = s.push(x);
        assert forall|i: int, j: int| 0 <= i < j < t.len() implies T::key_le(
            #[trigger] t[i],
            #[trigger] t[j],
        ) by {
            if j < s.len() {
                assert(t[i] == s[i] && t[j] == s[j]);
            } else if i == s.len() - 1 {
                assert(t[i] == s.last());
            } else {
                assert(t[i] == s[i]);
                assert(T::key_le(s[i], s[s.len() - 1]));
                T::lemma_key_le_transitive(s[i], s[s.len() - 1], x);
            }
        }
    } else {
        let p = s.drop_last();
        let last = s.last();
        assert(is_sorted::<T>(p)) by {
            assert forall|i: int, j: int| 0 <= i < j < p.len() implies T::key_le(
                #[trigger] p[i],
                #[trigger] p[j],
            ) by {
                assert(p[i] == s[i] && p[j] == s[j]);
            }
        }
        lemma_insert_sorted_sorted::<T>(p, x);
        T::lemma_key_le_total(last, x);
        assert forall|i: int| 0 <= i < p.len() implies T::key_le(#[trigger] p[i], last) by {
            assert(p[i] == s[i]);
            assert(T::key_le(s[i], s[s.len() - 1]));
        }
        lemma_insert_sorted_bound::<T>(p, x, last);
        let t = insert_sorted::<T>(p, x);
        let u = t.push(last);
        assert forall|i: int, j: int| 0 <= i < j < u.len() implies T::key_le(
            #[trigger] u[i],
            #[trigger] u[j],
        ) by {
            if j < t.len() {
                assert(u[i] == t[i] && u[j] == t[j]);
            } else {
                assert(u[i] == t[i]);
                assert(u[j] == last);
            }
        }
    }
}

/// Law: a stable sort orders its result: every element may stand before every
/// later one.
pub proof fn lemma_sorted_stable_is_sorted<T: SortKey>(s: Seq<T::V>)
    ensures
        is_sorted::<T>(sorted_stable::<T>(s)),
    decreases s.len(),
{
    if s.len() > 0 {
        lemma_sorted_stable_is_sorted::<T>(s.drop_last());
        lemma_insert_sorted_sorted::<T>(sorted_stable::<T>(s.drop_last()), s.last());
    }
}

/// Law: a stable sort only reorders: it keeps every element, as often as it
/// occurs.
pub proof fn lemma_sorted_stable_permutes<T: SortKey>(s: Seq<T::V>)
    ensures
        sorted_stable::<T>(s).to_multiset() == s.to_multiset(),
    decreases s.len(),
{
    if s.len() > 0 {
        lemma_sorted_stable_permutes::<T>(s.drop_last());
        lemma_insert_sorted_multiset::<T>(sorted_stable::<T>(s.drop_last()), s.last());
        assert(s =~= s.drop_last().push(s.last()));
    }
}

/// The views of `a + b` are those of `a` followed by those of `b`.
pub proof fn lemma_views_append<T: View>(a: Seq<T>, b: Seq<T>)
    ensures
        views(a + b) == views(a) + views(b),
{
    assert(views(a + b) =~= views(a) + views(b));
}

} // verus!

//! Sorting by a total order, with a proof that the result is the unique
//! sorted arrangement of its input.

use vstd::prelude::*;
use vstd::relations::*;
use vstd::seq_lib::*;

verus! {

/// A type whose values are ordered by a total order on their views, with an
/// executable test of that order.
pub trait Ranked: View + Sized {
    /// `a` sorts no later than `b`.
    spec fn order() -> spec_fn(Self::V, Self::V) -> bool;

    /// Whether `self` sorts no later than `other`.
    fn ranks_before(&self, other: &Self) -> (r: bool)
        ensures
            r == Self::order()(self@, other@);
}

/// The views of the elements of `v`.
pub open spec fn views<T: View>(v: Seq<T>) -> Seq<T::V> {
    v.map_values(|x: T| x@)
}

proof fn lemma_views_push<T: View>(v: Seq<T>, x: T)
    ensures
        views(v.push(x)) == views(v).push(x@),
{
    assert(views(v.push(x)) =~= views(v).push(x@));
}

proof fn lemma_views_remove<T: View>(v: Seq<T>, i: int)
    requires
        0 <= i < v.len(),
    ensures
        views(v.remove(i)) == views(v).remove(i),
{
    assert(views(v.remove(i)) =~= views(v).remove(i));
}

/// Index of a least element of `v[..]`, from position 0.
fn index_of_least<T: Ranked>(v: &Vec<T>) -> (m: usize)
    requires
        v.len() > 0,
        total_ordering(T::order()),
    ensures
        m < v.len(),
        forall|k: int| 0 <= k < v.len() ==> #[trigger] T::order()(v@[m as int]@, v@[k]@),
{
    let mut m: usize = 0;
    let mut j: usize = 1;
    while j < v.len()
        invariant
            1 <= j <= v.len(),
            m < j,
            total_ordering(T::order()),
            forall|k: int| 0 <= k < j ==> #[trigger] T::order()(v@[m as int]@, v@[k]@),
        decreases v.len() - j,
    {
        if !v[m].ranks_before(&v[j]) {
            let ghost old_m = m;
            assert(T::order()(v@[j as int]@, v@[old_m as int]@));
            assert forall|k: int| 0 <= k < j + 1 implies #[trigger] T::order()(
                v@[j as int]@,
                v@[k]@,
            ) by {
                if k < j {
                    assert(T::order()(v@[old_m as int]@, v@[k]@));
                } else {
                    assert(T::order()(v@[k]@, v@[k]@));
                }
            }
            m = j;
        }
        j = j + 1;
    }
    m
}

/// `v` arranged in the order of `T`: the result is the one sequence that is
/// sorted by that order and holds the same elements as `v`.
pub fn sort_ranked<T: Ranked>(v: Vec<T>) -> (r: Vec<T>)
    requires
        total_ordering(T::order()),
    ensures
        views(r@) == views(v@).sort_by(T::order()),
        sorted_by(views(r@), T::order()),
        views(r@).to_multiset() == views(v@).to_multiset(),
{
    broadcast use group_to_multiset_ensures;
    broadcast use vstd::multiset::group_multiset_axioms;

    let ghost init = views(v@);
    let mut rest = v;
    let mut out: Vec<T> = Vec::new();
    assert(views(out@) + views(rest@) =~= init);
    while rest.len() > 0
        invariant
            total_ordering(T::order()),
            sorted_by(views(out@), T::order()),
            forall|i: int, j: int|
                0 <= i < out@.len() && 0 <= j < rest@.len() ==> #[trigger] T::order()(
                    out@[i]@,
                    rest@[j]@,
                ),
            (views(out@) + views(rest@)).to_multiset() == init.to_multiset(),
        decreases rest.len(),
    {
        let m = index_of_least(&rest);
        let ghost old_out = out@;
        let ghost old_rest = rest@;
        let e = rest.remove(m);
        out.push(e);
        proof {
            lemma_views_push(old_out, e);
            lemma_views_remove(old_rest, m as int);
            lemma_multiset_commutative(views(old_out), views(old_rest));
            lemma_multiset_commutative(views(out@), views(rest@));
            views(old_rest).to_multiset_ensures();
            views(old_out).to_multiset_ensures();
            assert(views(old_rest)[m as int] == old_rest[m as int]@);
            assert(views(old_rest).remove(m as int).to_multiset()
                =~= views(old_rest).to_multiset().remove(old_rest[m as int]@));
            assert(views(old_rest).contains(old_rest[m as int]@));
            assert(views(old_rest).to_multiset().contains(old_rest[m as int]@));
            assert(views(out@).to_multiset() =~= views(old_out).to_multiset().insert(e@));
            assert((views(out@) + views(rest@)).to_multiset() =~= init.to_multiset());
            assert forall|i: int, j: int| 0 <= i < j < views(out@).len() implies #[trigger] T::order()(
                views(out@)[i],
                views(out@)[j],
            ) by {
                if j < old_out.len() {
                    assert(T::order()(views(old_out)[i], views(old_out)[j]));
                } else {
                    assert(T::order()(old_out[i]@, old_rest[m as int]@));
                }
            }
            assert forall|i: int, j: int|
                0 <= i < out@.len() && 0 <= j < rest@.len() implies #[trigger] T::order()(
                out@[i]@,
                rest@[j]@,
            ) by {
                let jj = if j < m { j } else { j + 1 };
                assert(rest@[j] == old_rest[jj]);
                if i < old_out.len() {
                    assert(T::order()(old_out[i]@, old_rest[jj]@));
                } else {
                    assert(T::order()(old_rest[m as int]@, old_rest[jj]@));
                }
            }
        }
    }
    proof {
        assert(views(out@) + views(rest@) =~= views(out@));
        init.lemma_sort_by_ensures(T::order());
        lemma_sorted_unique(views(out@), init.sort_by(T::order()), T::order());
    }
    out
}

} // verus!

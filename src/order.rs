//! A stable insertion sort over any record type that carries a total order.

use vstd::prelude::*;
use vstd::seq_lib::lemma_multiset_commutative;

verus! {

/// A record type with a total preorder used for listing.
pub trait Ranked: Sized {
    /// Whether `self` may be listed before `other`.
    spec fn ranks_le(&self, other: &Self) -> bool;

    /// Of two records one may always be listed before the other.
    proof fn lemma_ranks_total(a: &Self, b: &Self)
        ensures
            a.ranks_le(b) || b.ranks_le(a),
    ;

    /// Decides `ranks_le`.
    fn ranks_before(&self, other: &Self) -> (r: bool)
        ensures
            r == self.ranks_le(other),
    ;
}

/// Each record may be listed before the one after it.
pub open spec fn is_ranked<T: Ranked>(s: Seq<T>) -> bool {
    forall|i: int| 0 <= i < s.len() - 1 ==> (#[trigger] s[i]).ranks_le(&s[i + 1])
}

proof fn lemma_insert_multiset<T>(s: Seq<T>, p: int, x: T)
    requires
        0 <= p <= s.len(),
    ensures
        s.insert(p, x).to_multiset() =~= s.to_multiset().insert(x),
{
    let a = s.subrange(0, p);
    let b = s.subrange(p, s.len() as int);
    assert(s.insert(p, x) =~= a + (seq![x] + b));
    assert(s =~= a + b);
    lemma_multiset_commutative(a, seq![x] + b);
    lemma_multiset_commutative(seq![x], b);
    lemma_multiset_commutative(a, b);
    assert(seq![x].to_multiset() =~= vstd::multiset::Multiset::empty().insert(x)) by {
        assert(seq![x] =~= Seq::<T>::empty().push(x));
        broadcast use vstd::seq_lib::group_to_multiset_ensures;
    }
}

/// Sorts the records by `ranks_le`; records that rank equally keep their
/// relative order.
pub fn sort_ranked<T: Ranked>(v: Vec<T>) -> (r: Vec<T>)
    ensures
        is_ranked(r@),
        r@.to_multiset() == v@.to_multiset(),
{
    broadcast use vstd::seq_lib::group_to_multiset_ensures;

    let mut rest = v;
    let mut out: Vec<T> = Vec::new();
    while rest.len() > 0
        invariant
            is_ranked(out@),
            out@.to_multiset().add(rest@.to_multiset()) == v@.to_multiset(),
        decreases rest.len(),
    {
        let ghost before = rest@;
        let x = rest.pop().unwrap();
        assert(before =~= rest@.push(x));
        proof {
            vstd::seq_lib::to_multiset_build(rest@, x);
        }
        assert(before.to_multiset() =~= rest@.to_multiset().insert(x));
        let mut p: usize = 0;
        while p < out.len() && !x.ranks_before(&out[p])
            invariant
                p <= out.len(),
                p > 0 ==> !x.ranks_le(&out@[p - 1]),
            decreases out.len() - p,
        {
            p = p + 1;
        }
        proof {
            if p > 0 {
                T::lemma_ranks_total(&x, &out@[p - 1]);
            }
            lemma_insert_multiset(out@, p as int, x);
        }
        let ghost old_out = out@;
        out.insert(p, x);
        assert(out@.to_multiset().add(rest@.to_multiset())
            =~= old_out.to_multiset().add(before.to_multiset()));
        assert forall|i: int| 0 <= i < out@.len() - 1 implies (#[trigger] out@[i]).ranks_le(&out@[i + 1]) by {
            if i + 1 < p {
                assert(old_out[i].ranks_le(&old_out[i + 1]));
            } else if i + 1 == p {
            } else if i == p {
            } else {
                assert(old_out[i - 1].ranks_le(&old_out[i]));
            }
        }
    }
    out
}

} // verus!

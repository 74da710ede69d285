//! Uniqueness of records by a key, and how filtering and reordering keep it.

use vstd::prelude::*;

verus! {

/// No two records of the sequence share a key.
pub open spec fn distinct_by<T, K>(s: Seq<T>, key: spec_fn(T) -> K) -> bool {
    forall|i: int, j: int| 0 <= i < j < s.len() ==> key(#[trigger] s[i]) != key(#[trigger] s[j])
}

/// Keeping some records of a sequence keeps their keys distinct.
pub proof fn lemma_filter_distinct<T, K>(s: Seq<T>, pred: spec_fn(T) -> bool, key: spec_fn(T) -> K)
    requires
        distinct_by(s, key),
    ensures
        distinct_by(s.filter(pred), key),
    decreases s.len(),
{
    reveal(Seq::filter);
    if s.len() > 0 {
        let init = s.drop_last();
        assert(distinct_by(init, key)) by {
            assert forall|i: int, j: int| 0 <= i < j < init.len() implies key(#[trigger] init[i]) != key(
                #[trigger] init[j],
            ) by {
                assert(init[i] == s[i] && init[j] == s[j]);
            }
        }
        lemma_filter_distinct(init, pred, key);
        let f = init.filter(pred);
        if pred(s.last()) {
            let r = f.push(s.last());
            assert forall|i: int, j: int| 0 <= i < j < r.len() implies key(#[trigger] r[i]) != key(
                #[trigger] r[j],
            ) by {
                if j == f.len() {
                    assert(f.contains(f[i]));
                    init.lemma_filter_contains_rev(pred, f[i]);
                    let k = choose|k: int| 0 <= k < init.len() && init[k] == f[i];
                    assert(s[k] == init[k]);
                    assert(r[j] == s[s.len() - 1]);
                } else {
                    assert(r[i] == f[i] && r[j] == f[j]);
                }
            }
        }
    }
}

/// A reordering of a sequence whose keys are distinct has distinct keys.
pub proof fn lemma_permutation_distinct<T, K>(a: Seq<T>, b: Seq<T>, key: spec_fn(T) -> K)
    requires
        distinct_by(a, key),
        a.to_multiset() == b.to_multiset(),
    ensures
        distinct_by(b, key),
{
    broadcast use vstd::seq_lib::group_to_multiset_ensures;

    assert(a.no_duplicates()) by {
        assert forall|i: int, j: int| 0 <= i < a.len() && 0 <= j < a.len() && i != j implies a[i]
            != a[j] by {
            if i < j {
                assert(key(a[i]) != key(a[j]));
            } else {
                assert(key(a[j]) != key(a[i]));
            }
        }
    }
    a.lemma_multiset_has_no_duplicates();
    b.lemma_multiset_has_no_duplicates_conv();
    assert forall|i: int, j: int| 0 <= i < j < b.len() implies key(#[trigger] b[i]) != key(
        #[trigger] b[j],
    ) by {
        assert(b.to_multiset().count(b[i]) > 0);
        assert(b.to_multiset().count(b[j]) > 0);
        assert(a.contains(b[i]));
        assert(a.contains(b[j]));
        let k1 = choose|k: int| 0 <= k < a.len() && a[k] == b[i];
        let k2 = choose|k: int| 0 <= k < a.len() && a[k] == b[j];
        assert(b[i] != b[j]);
        if k1 < k2 {
            assert(key(a[k1]) != key(a[k2]));
        } else {
            assert(key(a[k2]) != key(a[k1]));
        }
    }
}

} // verus!

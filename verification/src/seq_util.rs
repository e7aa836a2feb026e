//! Small general lemmas about `Seq::filter` used by the room and store
//! proofs: how filtering interacts with `push`, that filtering keeps only
//! elements of the original sequence, that it keeps keys distinct, and
//! that it is the identity when every element is kept.

use vstd::prelude::*;

verus! {

/// Filtering after a push keeps the pushed element exactly when the
/// predicate holds of it.
pub proof fn lemma_filter_push<A>(s: Seq<A>, x: A, p: spec_fn(A) -> bool)
    ensures
        s.push(x).filter(p) == if p(x) {
            s.filter(p).push(x)
        } else {
            s.filter(p)
        },
{
    reveal(Seq::filter);
    assert(s.push(x).drop_last() =~= s);
    assert(s.push(x).last() == x);
}

/// Every element of a filtered sequence is an element of the original.
pub proof fn lemma_filter_subset<A>(s: Seq<A>, p: spec_fn(A) -> bool)
    ensures
        forall|i: int| 0 <= i < s.filter(p).len() ==> s.contains(#[trigger] s.filter(p)[i]),
    decreases s.len(),
{
    reveal(Seq::filter);
    if s.len() > 0 {
        let sub = s.drop_last();
        lemma_filter_subset(sub, p);
        assert forall|i: int| 0 <= i < s.filter(p).len() implies s.contains(
            #[trigger] s.filter(p)[i],
        ) by {
            if p(s.last()) && i == s.filter(p).len() - 1 {
                assert(s.filter(p)[i] == s.last());
                assert(s[s.len() - 1] == s.last());
            } else {
                assert(s.filter(p)[i] == sub.filter(p)[i]);
                assert(sub.contains(sub.filter(p)[i]));
                let j = choose|j: int| 0 <= j < sub.len() && sub[j] == sub.filter(p)[i];
                assert(s[j] == sub.filter(p)[i]);
            }
        }
    }
}

/// Filtering keeps a key-distinct sequence key-distinct.
pub proof fn lemma_filter_keeps_distinct_keys<A>(
    s: Seq<A>,
    p: spec_fn(A) -> bool,
    key: spec_fn(A) -> u128,
)
    requires
        forall|i: int, j: int| 0 <= i < j < s.len() ==> key(s[i]) != key(s[j]),
    ensures
        forall|i: int, j: int|
            0 <= i < j < s.filter(p).len() ==> key(#[trigger] s.filter(p)[i]) != key(
                #[trigger] s.filter(p)[j],
            ),
    decreases s.len(),
{
    reveal(Seq::filter);
    if s.len() > 0 {
        let sub = s.drop_last();
        assert(forall|i: int, j: int| 0 <= i < j < sub.len() ==> key(sub[i]) != key(sub[j])) by {
            assert(forall|i: int| 0 <= i < sub.len() ==> sub[i] == s[i]);
        }
        lemma_filter_keeps_distinct_keys(sub, p, key);
        lemma_filter_subset(sub, p);
        let f = s.filter(p);
        let subf = sub.filter(p);
        assert forall|i: int, j: int| 0 <= i < j < f.len() implies key(#[trigger] f[i]) != key(
            #[trigger] f[j],
        ) by {
            if p(s.last()) && j == f.len() - 1 {
                assert(f[j] == s.last());
                assert(f[i] == subf[i]);
                assert(sub.contains(subf[i]));
                let k = choose|k: int| 0 <= k < sub.len() && sub[k] == subf[i];
                assert(s[k] == f[i]);
                assert(key(s[k]) != key(s[s.len() - 1]));
            } else {
                assert(f[i] == subf[i]);
                assert(f[j] == subf[j]);
            }
        }
    }
}

/// Filtering with a predicate that holds of every element changes nothing.
pub proof fn lemma_filter_retains_all<A>(s: Seq<A>, p: spec_fn(A) -> bool)
    requires
        forall|i: int| 0 <= i < s.len() ==> p(#[trigger] s[i]),
    ensures
        s.filter(p) == s,
    decreases s.len(),
{
    reveal(Seq::filter);
    if s.len() > 0 {
        let sub = s.drop_last();
        assert(forall|i: int| 0 <= i < sub.len() ==> p(#[trigger] sub[i])) by {
            assert(forall|i: int| 0 <= i < sub.len() ==> sub[i] == s[i]);
        }
        lemma_filter_retains_all(sub, p);
        assert(p(s.last()));
        assert(s.filter(p) =~= s);
    }
}

} // verus!

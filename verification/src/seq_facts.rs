//! General facts about filtered sequences that the cascade proofs lean on.

use vstd::prelude::*;

verus! {

/// A filter whose predicate holds of every element returns the sequence
/// unchanged.
pub proof fn lemma_filter_all<A>(s: Seq<A>, p: spec_fn(A) -> bool)
    requires
        forall|i: int| 0 <= i < s.len() ==> p(#[trigger] s[i]),
    ensures
        s.filter(p) == s,
    decreases s.len(),
{
    reveal(Seq::filter);
    if s.len() > 0 {
        let sub = s.drop_last();
        assert forall|i: int| 0 <= i < sub.len() implies p(#[trigger] sub[i]) by {
            assert(sub[i] == s[i]);
        }
        lemma_filter_all(sub, p);
        assert(p(s.last()));
        assert(sub.push(s.last()) =~= s);
    }
}

/// Two filters agree on a sequence when their predicates agree on each of
/// its elements.
pub proof fn lemma_filter_congruence<A>(s: Seq<A>, p: spec_fn(A) -> bool, q: spec_fn(A) -> bool)
    requires
        forall|i: int| 0 <= i < s.len() ==> p(#[trigger] s[i]) == q(s[i]),
    ensures
        s.filter(p) == s.filter(q),
    decreases s.len(),
{
    reveal(Seq::filter);
    if s.len() > 0 {
        let sub = s.drop_last();
        assert forall|i: int| 0 <= i < sub.len() implies p(#[trigger] sub[i]) == q(sub[i]) by {
            assert(sub[i] == s[i]);
        }
        lemma_filter_congruence(sub, p, q);
        assert(p(s.last()) == q(s.last()));
    }
}

/// Filtering twice is one filter by the conjunction of the predicates.
pub proof fn lemma_filter_compose<A>(
    s: Seq<A>,
    p: spec_fn(A) -> bool,
    q: spec_fn(A) -> bool,
    pq: spec_fn(A) -> bool,
)
    requires
        forall|x: A| #[trigger] pq(x) == (p(x) && q(x)),
    ensures
        s.filter(p).filter(q) == s.filter(pq),
    decreases s.len(),
{
    reveal(Seq::filter);
    if s.len() == 0 {
        assert(s.filter(p) == s);
        assert(s.filter(pq) == s);
    } else {
        let sub = s.drop_last();
        let last = s.last();
        lemma_filter_compose(sub, p, q, pq);
        if p(last) {
            assert(s.filter(p) == sub.filter(p).push(last));
            sub.filter(p).lemma_filter_push(last, q);
            assert(sub.filter(p).push(last).filter(q) == if q(last) {
                sub.filter(p).filter(q).push(last)
            } else {
                sub.filter(p).filter(q)
            });
        } else {
            assert(s.filter(p) == sub.filter(p));
        }
        assert(pq(last) == (p(last) && q(last)));
    }
}

} // verus!

//! Facts about sequences.
use vstd::prelude::*;

verus! {

/// Filtering out everything leaves nothing.
pub proof fn lemma_filter_none<A>(s: Seq<A>, pred: spec_fn(A) -> bool)
    requires
        forall|i: int| 0 <= i < s.len() ==> !pred(#[trigger] s[i]),
    ensures
        s.filter(pred).len() == 0,
    decreases s.len(),
{
    reveal(Seq::filter);
    if s.len() > 0 {
        lemma_filter_none(s.drop_last(), pred);
    }
}

/// Filtering out nothing leaves the sequence.
pub proof fn lemma_filter_all<A>(s: Seq<A>, pred: spec_fn(A) -> bool)
    requires
        forall|i: int| 0 <= i < s.len() ==> pred(#[trigger] s[i]),
    ensures
        s.filter(pred) == s,
    decreases s.len(),
{
    reveal(Seq::filter);
    if s.len() > 0 {
        lemma_filter_all(s.drop_last(), pred);
        assert(s.drop_last().push(s.last()) =~= s);
    }
}

/// Filtering keeps the elements that satisfy the predicate, and no others.
pub proof fn lemma_filter_contains<A>(s: Seq<A>, pred: spec_fn(A) -> bool, x: A)
    ensures
        s.filter(pred).contains(x) <==> s.contains(x) && pred(x),
    decreases s.len(),
{
    reveal(Seq::filter);
    if s.len() > 0 {
        let init = s.drop_last();
        lemma_filter_contains(init, pred, x);
        let kept = init.filter(pred);
        if s.filter(pred).contains(x) {
            let i = choose|i: int| 0 <= i < s.filter(pred).len() && s.filter(pred)[i] == x;
            if i < kept.len() {
                assert(kept[i] == x);
                let k = choose|k: int| 0 <= k < init.len() && init[k] == x;
                assert(s[k] == x);
            } else {
                assert(s[s.len() - 1] == x);
            }
        }
        if s.contains(x) && pred(x) {
            let k = choose|k: int| 0 <= k < s.len() && s[k] == x;
            if k < init.len() {
                assert(init[k] == x);
                let i = choose|i: int| 0 <= i < kept.len() && kept[i] == x;
                assert(s.filter(pred)[i] == x);
            } else {
                assert(s.filter(pred)[s.filter(pred).len() - 1] == x);
            }
        }
    }
}

} // verus!

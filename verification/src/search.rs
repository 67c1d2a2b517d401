//! First positions in sequences.
use vstd::prelude::*;

verus! {

/// When some entry of `s` from `from` on satisfies `p` and none before
/// `from` does, the first entry that satisfies `p` exists.
pub proof fn lemma_first_witness<T>(s: Seq<T>, p: spec_fn(T) -> bool, from: int) -> (w: int)
    requires
        0 <= from <= s.len(),
        forall|j: int| 0 <= j < from ==> !p(#[trigger] s[j]),
        exists|i: int| from <= i < s.len() && p(#[trigger] s[i]),
    ensures
        0 <= w < s.len(),
        p(s[w]),
        forall|j: int| 0 <= j < w ==> !p(#[trigger] s[j]),
    decreases s.len() - from,
{
    if p(s[from]) {
        from
    } else {
        let i = choose|i: int| from <= i < s.len() && p(#[trigger] s[i]);
        assert(i > from);
        lemma_first_witness(s, p, from + 1)
    }
}

} // verus!

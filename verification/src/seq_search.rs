//! The first position in a sequence at which a predicate holds.
use vstd::prelude::*;

verus! {

/// `i` is the first position at which `p` holds.
pub open spec fn is_first<A>(s: Seq<A>, p: spec_fn(A) -> bool, i: int) -> bool {
    &&& 0 <= i < s.len()
    &&& p(s[i])
    &&& forall|j: int| 0 <= j < i ==> !p(#[trigger] s[j])
}

/// The first position at which `p` holds, if any.
pub open spec fn first_match<A>(s: Seq<A>, p: spec_fn(A) -> bool) -> Option<int> {
    if exists|i: int| is_first(s, p, i) {
        Some(choose|i: int| is_first(s, p, i))
    } else {
        None
    }
}

/// What an exhaustive search establishes, in terms of `first_match`.
pub proof fn lemma_first_match<A>(s: Seq<A>, p: spec_fn(A) -> bool, r: Option<int>)
    requires
        match r {
            Some(i) => is_first(s, p, i),
            None => forall|j: int| 0 <= j < s.len() ==> !p(#[trigger] s[j]),
        },
    ensures
        first_match(s, p) == r,
{
    match r {
        Some(i) => {
            let k = choose|k: int| is_first(s, p, k);
            assert(is_first(s, p, k));
            if k < i {
                assert(!p(s[k]));
            }
            if i < k {
                assert(!p(s[i]));
            }
        },
        None => {
            if exists|i: int| is_first(s, p, i) {
                let k = choose|k: int| is_first(s, p, k);
                assert(p(s[k]));
            }
        },
    }
}

} // verus!

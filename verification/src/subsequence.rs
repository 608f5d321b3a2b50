//! Subsequences of a sequence, stated through the positions they occupy.

use vstd::prelude::*;

verus! {

/// `at` places `c` inside the first `bound` elements of `s`: one position for
/// each element of `c`, strictly increasing, each holding the element it stands for.
pub open spec fn is_embedding<T>(c: Seq<T>, s: Seq<T>, at: Seq<int>, bound: int) -> bool {
    &&& at.len() == c.len()
    &&& bound <= s.len()
    &&& forall|k: int| 0 <= k < c.len() ==> 0 <= #[trigger] at[k] < bound && s[at[k]] == c[k]
    &&& forall|k: int, l: int| 0 <= k < l < c.len() ==> #[trigger] at[k] < #[trigger] at[l]
}

/// `c` can be obtained from `s` by deleting elements.
pub open spec fn is_subsequence<T>(c: Seq<T>, s: Seq<T>) -> bool {
    exists|at: Seq<int>| is_embedding(c, s, at, s.len() as int)
}

} // verus!

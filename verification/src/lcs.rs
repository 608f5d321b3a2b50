//! The longest common subsequence of two sequences: the table of lengths, the
//! subsequence that is read back from it, and the proofs that the subsequence
//! is common to both sequences and that no common subsequence is longer.

use vstd::prelude::*;
use crate::subsequence::{is_embedding, is_subsequence};

verus! {

/// Entry `(i, j)` of the table of lengths: the length of a longest common
/// subsequence of the first `i` elements of `a` and the first `j` elements of `b`.
pub open spec fn lcs_len<T>(a: Seq<T>, b: Seq<T>, i: int, j: int) -> nat
    decreases i + j,
{
    if i <= 0 || j <= 0 {
        0
    } else if a[i - 1] == b[j - 1] {
        lcs_len(a, b, i - 1, j - 1) + 1
    } else {
        let up = lcs_len(a, b, i - 1, j);
        let left = lcs_len(a, b, i, j - 1);
        if up > left {
            up
        } else {
            left
        }
    }
}

/// The common subsequence read back from entry `(i, j)` of the table. Where the
/// last elements differ, the walk drops the last element of `a` only if that
/// keeps a strictly longer subsequence; on a tie it drops the last element of `b`.
pub open spec fn common_upto<T>(a: Seq<T>, b: Seq<T>, i: int, j: int) -> Seq<T>
    decreases i + j,
{
    if i <= 0 || j <= 0 {
        Seq::empty()
    } else if a[i - 1] == b[j - 1] {
        common_upto(a, b, i - 1, j - 1).push(a[i - 1])
    } else if lcs_len(a, b, i - 1, j) > lcs_len(a, b, i, j - 1) {
        common_upto(a, b, i - 1, j)
    } else {
        common_upto(a, b, i, j - 1)
    }
}

/// The common subsequence of `a` and `b` that the diff reports.
pub open spec fn common<T>(a: Seq<T>, b: Seq<T>) -> Seq<T> {
    common_upto(a, b, a.len() as int, b.len() as int)
}

/// A table entry never exceeds either of its coordinates.
pub proof fn lemma_lcs_len_bound<T>(a: Seq<T>, b: Seq<T>, i: int, j: int)
    requires
        0 <= i,
        0 <= j,
    ensures
        lcs_len(a, b, i, j) <= i,
        lcs_len(a, b, i, j) <= j,
    decreases i + j,
{
    if i > 0 && j > 0 {
        lemma_lcs_len_bound(a, b, i - 1, j - 1);
        lemma_lcs_len_bound(a, b, i - 1, j);
        lemma_lcs_len_bound(a, b, i, j - 1);
    }
}

/// The subsequence read back from an entry has the length that the entry holds.
pub proof fn lemma_common_upto_len<T>(a: Seq<T>, b: Seq<T>, i: int, j: int)
    ensures
        common_upto(a, b, i, j).len() == lcs_len(a, b, i, j),
    decreases i + j,
{
    if i > 0 && j > 0 {
        lemma_common_upto_len(a, b, i - 1, j - 1);
        lemma_common_upto_len(a, b, i - 1, j);
        lemma_common_upto_len(a, b, i, j - 1);
    }
}

/// The subsequence read back from entry `(i, j)` lies inside the first `i`
/// elements of `a` and inside the first `j` elements of `b`; the result gives
/// the positions it occupies in each.
pub proof fn lemma_common_upto_embeds<T>(a: Seq<T>, b: Seq<T>, i: int, j: int) -> (at: (
    Seq<int>,
    Seq<int>,
))
    requires
        0 <= i <= a.len(),
        0 <= j <= b.len(),
    ensures
        is_embedding(common_upto(a, b, i, j), a, at.0, i),
        is_embedding(common_upto(a, b, i, j), b, at.1, j),
    decreases i + j,
{
    if i == 0 || j == 0 {
        (Seq::empty(), Seq::empty())
    } else if a[i - 1] == b[j - 1] {
        let below = lemma_common_upto_embeds(a, b, i - 1, j - 1);
        (below.0.push(i - 1), below.1.push(j - 1))
    } else if lcs_len(a, b, i - 1, j) > lcs_len(a, b, i, j - 1) {
        lemma_common_upto_embeds(a, b, i - 1, j)
    } else {
        lemma_common_upto_embeds(a, b, i, j - 1)
    }
}

/// No sequence that lies inside the first `i` elements of `a` and inside the
/// first `j` elements of `b` is longer than entry `(i, j)` of the table.
pub proof fn lemma_lcs_len_is_upper_bound<T>(
    a: Seq<T>,
    b: Seq<T>,
    c: Seq<T>,
    at_a: Seq<int>,
    at_b: Seq<int>,
    i: int,
    j: int,
)
    requires
        is_embedding(c, a, at_a, i),
        is_embedding(c, b, at_b, j),
    ensures
        c.len() <= lcs_len(a, b, i, j),
    decreases i + j,
{
    if c.len() > 0 {
        let n = c.len() - 1;
        assert(0 <= at_a[n] < i && a[at_a[n]] == c[n]);
        assert(0 <= at_b[n] < j && b[at_b[n]] == c[n]);
        if a[i - 1] == b[j - 1] {
            let shorter = c.drop_last();
            let sa = at_a.drop_last();
            let sb = at_b.drop_last();
            assert forall|k: int| 0 <= k < shorter.len() implies 0 <= #[trigger] sa[k] < i - 1
                && a[sa[k]] == shorter[k] by {
                assert(at_a[k] < at_a[n]);
            }
            assert forall|k: int| 0 <= k < shorter.len() implies 0 <= #[trigger] sb[k] < j - 1
                && b[sb[k]] == shorter[k] by {
                assert(at_b[k] < at_b[n]);
            }
            assert(is_embedding(shorter, a, sa, i - 1));
            assert(is_embedding(shorter, b, sb, j - 1));
            lemma_lcs_len_is_upper_bound(a, b, shorter, sa, sb, i - 1, j - 1);
        } else if at_a[n] < i - 1 {
            assert forall|k: int| 0 <= k < c.len() implies 0 <= #[trigger] at_a[k] < i - 1 by {
                if k < n {
                    assert(at_a[k] < at_a[n]);
                }
            }
            assert(is_embedding(c, a, at_a, i - 1));
            lemma_lcs_len_is_upper_bound(a, b, c, at_a, at_b, i - 1, j);
        } else {
            assert(at_b[n] < j - 1);
            assert forall|k: int| 0 <= k < c.len() implies 0 <= #[trigger] at_b[k] < j - 1 by {
                if k < n {
                    assert(at_b[k] < at_b[n]);
                }
            }
            assert(is_embedding(c, b, at_b, j - 1));
            lemma_lcs_len_is_upper_bound(a, b, c, at_a, at_b, i, j - 1);
        }
    }
}

/// The reported subsequence has the length in the last entry of the table, and
/// is no longer than the shorter of the two sequences.
pub proof fn lemma_common_len<T>(a: Seq<T>, b: Seq<T>)
    ensures
        common(a, b).len() == lcs_len(a, b, a.len() as int, b.len() as int),
        common(a, b).len() <= a.len(),
        common(a, b).len() <= b.len(),
{
    lemma_common_upto_len(a, b, a.len() as int, b.len() as int);
    lemma_lcs_len_bound(a, b, a.len() as int, b.len() as int);
}

/// The reported subsequence is a subsequence of both sequences.
pub proof fn lemma_common_is_common<T>(a: Seq<T>, b: Seq<T>)
    ensures
        is_subsequence(common(a, b), a),
        is_subsequence(common(a, b), b),
{
    let at = lemma_common_upto_embeds(a, b, a.len() as int, b.len() as int);
    assert(is_embedding(common(a, b), a, at.0, a.len() as int));
    assert(is_embedding(common(a, b), b, at.1, b.len() as int));
}

/// No common subsequence of the two sequences is longer than the reported one.
pub proof fn lemma_common_is_longest<T>(a: Seq<T>, b: Seq<T>, c: Seq<T>)
    requires
        is_subsequence(c, a),
        is_subsequence(c, b),
    ensures
        c.len() <= common(a, b).len(),
{
    let at_a = choose|at: Seq<int>| is_embedding(c, a, at, a.len() as int);
    let at_b = choose|at: Seq<int>| is_embedding(c, b, at, b.len() as int);
    lemma_lcs_len_is_upper_bound(a, b, c, at_a, at_b, a.len() as int, b.len() as int);
    lemma_common_len(a, b);
}

/// Compared with itself, a sequence is its own common subsequence.
pub proof fn lemma_common_of_same<T>(a: Seq<T>, i: int)
    requires
        0 <= i <= a.len(),
    ensures
        common_upto(a, a, i, i) == a.take(i),
    decreases i,
{
    if i > 0 {
        lemma_common_of_same(a, i - 1);
        assert(a.take(i) =~= a.take(i - 1).push(a[i - 1]));
    } else {
        assert(a.take(0) =~= Seq::<T>::empty());
    }
}

/// Two sequences without an element in common have no common subsequence but
/// the empty one.
pub proof fn lemma_common_of_disjoint<T>(a: Seq<T>, b: Seq<T>, i: int, j: int)
    requires
        0 <= i <= a.len(),
        0 <= j <= b.len(),
        forall|k: int, l: int| 0 <= k < a.len() && 0 <= l < b.len() ==> a[k] != b[l],
    ensures
        lcs_len(a, b, i, j) == 0,
        common_upto(a, b, i, j) == Seq::<T>::empty(),
    decreases i + j,
{
    if i > 0 && j > 0 {
        assert(a[i - 1] != b[j - 1]);
        lemma_common_of_disjoint(a, b, i - 1, j);
        lemma_common_of_disjoint(a, b, i, j - 1);
    }
}

} // verus!

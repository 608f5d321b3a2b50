//! The forward scan that splits a sequence into the elements it shares with a
//! given subsequence and the elements that are left over.

use vstd::prelude::*;
use crate::subsequence::{is_embedding, is_subsequence};

verus! {

/// How many elements of `c` the scan has matched once it has passed the first
/// `k` elements of `s`. The scan walks `s` from the front and matches an
/// element whenever it equals the next unmatched element of `c`.
pub open spec fn matched_before<T>(s: Seq<T>, c: Seq<T>, k: int) -> int
    decreases k,
{
    if k <= 0 {
        0
    } else {
        let p = matched_before(s, c, k - 1);
        if p < c.len() && s[k - 1] == c[p] {
            p + 1
        } else {
            p
        }
    }
}

/// The scan matches the element at position `k` of `s` with an element of `c`.
pub open spec fn is_shared<T>(s: Seq<T>, c: Seq<T>, k: int) -> bool {
    let p = matched_before(s, c, k);
    p < c.len() && s[k] == c[p]
}

/// The elements among the first `n` of `s` that the scan does not match, each
/// under its position in `s`.
pub open spec fn unshared_upto<T>(s: Seq<T>, c: Seq<T>, n: int) -> Map<int, T> {
    Map::new(|k: int| 0 <= k < n && !is_shared(s, c, k), |k: int| s[k])
}

/// The elements of `s` that the scan does not match, each under its position.
pub open spec fn unshared<T>(s: Seq<T>, c: Seq<T>) -> Map<int, T> {
    unshared_upto(s, c, s.len() as int)
}

/// The positions among the first `n` of `s` that the scan matches, in
/// increasing order.
pub open spec fn shared_positions<T>(s: Seq<T>, c: Seq<T>, n: int) -> Seq<int>
    decreases n,
{
    if n <= 0 {
        Seq::empty()
    } else if is_shared(s, c, n - 1) {
        shared_positions(s, c, n - 1).push(n - 1)
    } else {
        shared_positions(s, c, n - 1)
    }
}

/// The scan never matches more elements than it has passed, nor more than `c` has.
pub proof fn lemma_matched_bounds<T>(s: Seq<T>, c: Seq<T>, k: int)
    requires
        0 <= k,
    ensures
        0 <= matched_before(s, c, k) <= k,
        matched_before(s, c, k) <= c.len(),
    decreases k,
{
    if k > 0 {
        lemma_matched_bounds(s, c, k - 1);
    }
}

/// One more position: it joins the unmatched elements unless the scan matches it.
pub proof fn lemma_unshared_step<T>(s: Seq<T>, c: Seq<T>, n: int)
    requires
        0 <= n,
    ensures
        unshared_upto(s, c, n + 1) == if is_shared(s, c, n) {
            unshared_upto(s, c, n)
        } else {
            unshared_upto(s, c, n).insert(n, s[n])
        },
        !unshared_upto(s, c, n).contains_key(n),
{
    if is_shared(s, c, n) {
        assert(unshared_upto(s, c, n + 1) =~= unshared_upto(s, c, n));
    } else {
        assert(unshared_upto(s, c, n + 1) =~= unshared_upto(s, c, n).insert(n, s[n]));
    }
}

/// Every one of the first `n` positions is either matched or left over, so the
/// two counts add up to `n`.
pub proof fn lemma_unshared_count<T>(s: Seq<T>, c: Seq<T>, n: int)
    requires
        0 <= n,
    ensures
        unshared_upto(s, c, n).dom().finite(),
        unshared_upto(s, c, n).dom().len() + matched_before(s, c, n) == n,
    decreases n,
{
    if n == 0 {
        assert(unshared_upto(s, c, 0).dom() =~= Set::<int>::empty());
    } else {
        lemma_unshared_count(s, c, n - 1);
        lemma_unshared_step(s, c, n - 1);
    }
}

/// Whatever positions `c` occupies in `s`, the scan has matched the element of
/// `c` at index `m` as soon as it has passed the position of that element.
pub proof fn lemma_scan_keeps_up<T>(s: Seq<T>, c: Seq<T>, at: Seq<int>, k: int)
    requires
        is_embedding(c, s, at, s.len() as int),
        0 <= k <= s.len(),
    ensures
        forall|m: int| 0 <= m < c.len() && #[trigger] at[m] < k ==> matched_before(s, c, k) > m,
    decreases k,
{
    if k > 0 {
        lemma_scan_keeps_up(s, c, at, k - 1);
        lemma_matched_bounds(s, c, k - 1);
        let p = matched_before(s, c, k - 1);
        assert forall|m: int| 0 <= m < c.len() && #[trigger] at[m] < k implies matched_before(
            s,
            c,
            k,
        ) > m by {
            if at[m] == k - 1 {
                if m > 0 {
                    assert(at[m - 1] < at[m]);
                }
                assert(p >= m);
                assert(s[k - 1] == c[m]);
            }
        }
    }
}

/// The scan matches every element of a subsequence.
pub proof fn lemma_scan_matches_all<T>(s: Seq<T>, c: Seq<T>)
    requires
        is_subsequence(c, s),
    ensures
        matched_before(s, c, s.len() as int) == c.len(),
{
    let at = choose|at: Seq<int>| is_embedding(c, s, at, s.len() as int);
    lemma_scan_keeps_up(s, c, at, s.len() as int);
    lemma_matched_bounds(s, c, s.len() as int);
    if c.len() > 0 {
        assert(at[c.len() - 1] < s.len());
    }
}

/// The positions that the scan matches among the first `n` spell out the
/// elements of `c` matched so far, and hold exactly the matched positions.
pub proof fn lemma_shared_positions<T>(s: Seq<T>, c: Seq<T>, n: int)
    requires
        0 <= n <= s.len(),
    ensures
        shared_positions(s, c, n).len() == matched_before(s, c, n),
        is_embedding(c.take(matched_before(s, c, n)), s, shared_positions(s, c, n), n),
        forall|k: int|
            0 <= k < n ==> (is_shared(s, c, k) <==> #[trigger] shared_positions(s, c, n).contains(
                k,
            )),
    decreases n,
{
    lemma_matched_bounds(s, c, n);
    if n > 0 {
        lemma_shared_positions(s, c, n - 1);
        lemma_matched_bounds(s, c, n - 1);
        let before = shared_positions(s, c, n - 1);
        let now = shared_positions(s, c, n);
        if is_shared(s, c, n - 1) {
            assert(now[before.len() as int] == n - 1);
            assert forall|k: int| 0 <= k < n implies (is_shared(s, c, k) <==> #[trigger] now.contains(
                k,
            )) by {
                if k < n - 1 {
                    if before.contains(k) {
                        let w = choose|w: int| 0 <= w < before.len() && before[w] == k;
                        assert(now[w] == k);
                    }
                    if now.contains(k) {
                        let w = choose|w: int| 0 <= w < now.len() && now[w] == k;
                        assert(before[w] == k);
                    }
                }
            }
        }
    }
}

/// The scan splits `s` in two: the positions it matches spell out `c`, one
/// position for each element, and every other position is left over with the
/// element it holds.
pub proof fn lemma_scan_partitions<T>(s: Seq<T>, c: Seq<T>)
    requires
        is_subsequence(c, s),
    ensures
        is_embedding(c, s, shared_positions(s, c, s.len() as int), s.len() as int),
        forall|k: int|
            0 <= k < s.len() ==> (unshared(s, c).contains_key(k) <==> !shared_positions(
                s,
                c,
                s.len() as int,
            ).contains(k)),
        forall|k: int| #[trigger]
            unshared(s, c).contains_key(k) ==> 0 <= k < s.len() && unshared(s, c)[k] == s[k],
        unshared(s, c).dom().finite(),
        unshared(s, c).dom().len() + c.len() == s.len(),
{
    lemma_scan_matches_all(s, c);
    lemma_shared_positions(s, c, s.len() as int);
    lemma_unshared_count(s, c, s.len() as int);
    assert(c.take(c.len() as int) =~= c);
}

/// Scanned against itself, a sequence has every element matched.
pub proof fn lemma_scan_of_same<T>(s: Seq<T>, k: int)
    requires
        0 <= k <= s.len(),
    ensures
        matched_before(s, s, k) == k,
    decreases k,
{
    if k > 0 {
        lemma_scan_of_same(s, k - 1);
    }
}

/// Scanned against itself, a sequence leaves nothing over.
pub proof fn lemma_unshared_of_same<T>(s: Seq<T>)
    ensures
        unshared(s, s) == Map::<int, T>::empty(),
{
    assert forall|k: int| 0 <= k < s.len() implies is_shared(s, s, k) by {
        lemma_scan_of_same(s, k);
    }
    assert(unshared(s, s) =~= Map::<int, T>::empty());
}

/// Scanned against the empty sequence, a sequence is left over whole.
pub proof fn lemma_unshared_of_nothing<T>(s: Seq<T>)
    ensures
        unshared(s, Seq::<T>::empty()) == Map::new(|k: int| 0 <= k < s.len(), |k: int| s[k]),
{
    assert forall|k: int| 0 <= k < s.len() implies !is_shared(s, Seq::<T>::empty(), k) by {
        lemma_matched_bounds(s, Seq::<T>::empty(), k);
    }
    assert(unshared(s, Seq::<T>::empty()) =~= Map::new(
        |k: int| 0 <= k < s.len(),
        |k: int| s[k],
    ));
}

} // verus!

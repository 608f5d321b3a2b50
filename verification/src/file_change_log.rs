//! The line diff between two versions of a file, and the change record that a
//! commit keeps of it.

use std::collections::HashMap;
use vstd::prelude::*;
use crate::lcs::{
    common, common_upto, lcs_len, lemma_common_is_common, lemma_common_is_longest,
    lemma_common_len, lemma_common_of_disjoint, lemma_common_of_same, lemma_common_upto_len,
    lemma_lcs_len_bound,
};
use crate::scan::{
    lemma_matched_bounds, lemma_scan_partitions, lemma_unshared_of_nothing,
    lemma_unshared_of_same, lemma_unshared_step, matched_before, shared_positions, unshared,
    unshared_upto,
};
use crate::subsequence::{is_embedding, is_subsequence};

verus! {

/// The largest number of lines that a compared file may have: the position of
/// every line must fit the `i32` key under which a diff stores it.
pub const MAX_LINES: usize = 2147483648;

/// The result of comparing two versions of a file: the lines of the new version
/// that were added, the lines common to both, and the lines of the old version
/// that were deleted. Added lines are keyed by their position in the new
/// version, deleted lines by their position in the old one.
pub struct FileDiffLog {
    pub add: HashMap<i32, String>,
    pub com: Vec<String>,
    pub del: HashMap<i32, String>,
}

/// What a commit keeps of a diff: the added and the deleted lines.
pub struct FileChangeLog {
    pub add: HashMap<i32, String>,
    pub del: HashMap<i32, String>,
}

/// A diff as plain mathematics: lines are sequences of characters, positions
/// are integers.
#[verifier::ext_equal]
pub struct DiffView {
    pub add: Map<int, Seq<char>>,
    pub com: Seq<Seq<char>>,
    pub del: Map<int, Seq<char>>,
}

/// A change record as plain mathematics.
#[verifier::ext_equal]
pub struct ChangeView {
    pub add: Map<int, Seq<char>>,
    pub del: Map<int, Seq<char>>,
}

/// The lines that a map of stored lines holds, each under its position.
pub open spec fn lines_at(m: Map<i32, String>) -> Map<int, Seq<char>> {
    Map::new(
        |k: int| i32::MIN <= k <= i32::MAX && m.contains_key(k as i32),
        |k: int| m[k as i32]@,
    )
}

impl View for FileDiffLog {
    type V = DiffView;

    open spec fn view(&self) -> DiffView {
        DiffView { add: lines_at(self.add@), com: self.com.deep_view(), del: lines_at(self.del@) }
    }
}

impl View for FileChangeLog {
    type V = ChangeView;

    open spec fn view(&self) -> ChangeView {
        ChangeView { add: lines_at(self.add@), del: lines_at(self.del@) }
    }
}

impl DiffView {
    /// The part of a diff that a change record keeps.
    pub open spec fn changes(self) -> ChangeView {
        ChangeView { add: self.add, del: self.del }
    }
}

/// The diff between an old and a new sequence of lines: the common lines are
/// the longest common subsequence read back from the table of lengths; a line
/// of the new version is added, and a line of the old version is deleted,
/// unless the forward scan matches it with a common line.
pub open spec fn diff(old_lines: Seq<Seq<char>>, new_lines: Seq<Seq<char>>) -> DiffView {
    let com = common(old_lines, new_lines);
    DiffView { add: unshared(new_lines, com), com, del: unshared(old_lines, com) }
}

/// `dp` is the table of lengths for `a` and `b`: one row for each prefix of
/// `a`, one column for each prefix of `b`.
pub open spec fn is_lcs_table(dp: Seq<Vec<usize>>, a: Seq<Seq<char>>, b: Seq<Seq<char>>) -> bool {
    &&& dp.len() == a.len() + 1
    &&& forall|i: int| 0 <= i <= a.len() ==> (#[trigger] dp[i]).len() == b.len() + 1
    &&& forall|i: int, j: int|
        0 <= i <= a.len() && 0 <= j <= b.len() ==> #[trigger] dp[i][j] == lcs_len(a, b, i, j)
}

impl FileDiffLog {
    /// Puts the three parts of a diff together.
    pub fn new(add: HashMap<i32, String>, com: Vec<String>, del: HashMap<i32, String>) -> (out:
        Self)
        ensures
            out.add == add,
            out.com == com,
            out.del == del,
    {
        FileDiffLog { add: add, com: com, del: del }
    }
}

impl FileChangeLog {
    /// Keeps the added and the deleted lines of a diff and drops the common ones.
    pub fn from_diff(diff: FileDiffLog) -> (out: Self)
        ensures
            out.add == diff.add,
            out.del == diff.del,
            out@ == diff@.changes(),
    {
        FileChangeLog { add: diff.add, del: diff.del }
    }
}

/// Builds the table of lengths of longest common subsequences for every pair
/// of a prefix of the old lines and a prefix of the new lines.
pub fn lcs_table(old_file_lines: &Vec<String>, new_file_lines: &Vec<String>) -> (dp: Vec<
    Vec<usize>,
>)
    requires
        old_file_lines.len() < usize::MAX,
        new_file_lines.len() < usize::MAX,
    ensures
        is_lcs_table(dp@, old_file_lines.deep_view(), new_file_lines.deep_view()),
{
    let old_len = old_file_lines.len();
    let new_len = new_file_lines.len();
    let ghost a = old_file_lines.deep_view();
    let ghost b = new_file_lines.deep_view();

    let mut first: Vec<usize> = Vec::new();
    let mut j: usize = 0;
    while j <= new_len
        invariant
            new_len < usize::MAX,
            j <= new_len + 1,
            first.len() == j,
            forall|k: int| 0 <= k < j ==> first[k] == 0,
        decreases new_len + 1 - j,
    {
        first.push(0);
        j += 1;
    }
    let mut dp: Vec<Vec<usize>> = Vec::new();
    dp.push(first);

    let mut i: usize = 1;
    while i <= old_len
        invariant
            old_len == old_file_lines.len(),
            new_len == new_file_lines.len(),
            old_len < usize::MAX,
            new_len < usize::MAX,
            a == old_file_lines.deep_view(),
            b == new_file_lines.deep_view(),
            1 <= i <= old_len + 1,
            dp.len() == i,
            forall|r: int| 0 <= r < i ==> (#[trigger] dp[r]).len() == new_len + 1,
            forall|r: int, k: int|
                0 <= r < i && 0 <= k <= new_len ==> #[trigger] dp[r][k] == lcs_len(a, b, r, k),
        decreases old_len + 1 - i,
    {
        let mut row: Vec<usize> = Vec::new();
        row.push(0);
        let mut j: usize = 1;
        while j <= new_len
            invariant
                old_len == old_file_lines.len(),
                new_len == new_file_lines.len(),
                old_len < usize::MAX,
                new_len < usize::MAX,
                a == old_file_lines.deep_view(),
                b == new_file_lines.deep_view(),
                1 <= i <= old_len,
                dp.len() == i,
                dp[i - 1].len() == new_len + 1,
                forall|k: int|
                    0 <= k <= new_len ==> #[trigger] dp[i - 1][k] == lcs_len(a, b, i - 1, k),
                1 <= j <= new_len + 1,
                row.len() == j,
                forall|k: int| 0 <= k < j ==> #[trigger] row[k] == lcs_len(a, b, i as int, k),
            decreases new_len + 1 - j,
        {
            proof {
                lemma_lcs_len_bound(a, b, i as int, j as int);
                lemma_lcs_len_bound(a, b, i - 1, j - 1);
            }
            let same = old_file_lines[i - 1] == new_file_lines[j - 1];
            assert(same == (a[i - 1] == b[j - 1]));
            let cell = if same {
                dp[i - 1][j - 1] + 1
            } else {
                let up = dp[i - 1][j];
                let left = row[j - 1];
                if up > left {
                    up
                } else {
                    left
                }
            };
            row.push(cell);
            j += 1;
        }
        dp.push(row);
        i += 1;
    }
    dp
}

/// Reads the common lines back from the table of lengths, walking from its
/// last entry towards its first row or column.
pub fn common_lines(old_file_lines: &Vec<String>, new_file_lines: &Vec<String>) -> (com: Vec<
    String,
>)
    requires
        old_file_lines.len() < usize::MAX,
        new_file_lines.len() < usize::MAX,
    ensures
        com.deep_view() == common(old_file_lines.deep_view(), new_file_lines.deep_view()),
{
    let old_len = old_file_lines.len();
    let new_len = new_file_lines.len();
    let ghost a = old_file_lines.deep_view();
    let ghost b = new_file_lines.deep_view();
    let dp = lcs_table(old_file_lines, new_file_lines);
    let total = dp[old_len][new_len];
    proof {
        lemma_common_upto_len(a, b, old_len as int, new_len as int);
    }

    let mut com: Vec<String> = Vec::new();
    let mut k: usize = 0;
    while k < total
        invariant
            k <= total,
            com.len() == k,
        decreases total - k,
    {
        com.push(String::new());
        k += 1;
    }

    let mut old_ptr = old_len;
    let mut new_ptr = new_len;
    let mut com_ptr = total;
    assert(common(a, b).take(com_ptr as int) =~= common(a, b));
    while old_ptr > 0 && new_ptr > 0
        invariant
            old_len == old_file_lines.len(),
            new_len == new_file_lines.len(),
            a == old_file_lines.deep_view(),
            b == new_file_lines.deep_view(),
            is_lcs_table(dp@, a, b),
            old_ptr <= old_len,
            new_ptr <= new_len,
            com.len() == total,
            common(a, b).len() == total,
            com_ptr == lcs_len(a, b, old_ptr as int, new_ptr as int),
            com_ptr <= total,
            common(a, b).take(com_ptr as int) == common_upto(a, b, old_ptr as int, new_ptr as int),
            forall|k: int| com_ptr <= k < total ==> (#[trigger] com[k])@ == common(a, b)[k],
        decreases old_ptr + new_ptr,
    {
        let same = old_file_lines[old_ptr - 1] == new_file_lines[new_ptr - 1];
        assert(same == (a[old_ptr - 1] == b[new_ptr - 1]));
        if same {
            proof {
                lemma_common_upto_len(a, b, old_ptr - 1, new_ptr - 1);
            }
            let ghost before = common_upto(a, b, old_ptr - 1, new_ptr - 1);
            assert(common(a, b).take(com_ptr as int) == before.push(a[old_ptr - 1]));
            assert(common(a, b)[com_ptr - 1] == before.push(a[old_ptr - 1])[com_ptr - 1]);
            assert(common(a, b).take(com_ptr - 1) =~= before) by {
                assert(common(a, b).take(com_ptr - 1) =~= common(a, b).take(com_ptr as int).take(
                    com_ptr - 1,
                ));
            }
            com_ptr -= 1;
            com.set(com_ptr, old_file_lines[old_ptr - 1].clone());
            old_ptr -= 1;
            new_ptr -= 1;
        } else if dp[old_ptr - 1][new_ptr] > dp[old_ptr][new_ptr - 1] {
            old_ptr -= 1;
        } else {
            new_ptr -= 1;
        }
    }
    assert(com_ptr == 0);
    assert(com.deep_view() =~= common(a, b));
    com
}

/// Scans `lines` from the front against the common lines and collects, under
/// its position, every line that is not matched with the next common line.
pub fn unshared_lines(lines: &Vec<String>, com: &Vec<String>) -> (out: HashMap<i32, String>)
    requires
        lines.len() <= MAX_LINES,
    ensures
        lines_at(out@) == unshared(lines.deep_view(), com.deep_view()),
{
    let ghost s = lines.deep_view();
    let ghost c = com.deep_view();
    let mut out: HashMap<i32, String> = HashMap::new();
    let mut com_ptr: usize = 0;
    let mut i: usize = 0;
    assert(lines_at(out@) =~= unshared_upto(s, c, 0));
    while i < lines.len()
        invariant
            lines.len() <= MAX_LINES,
            s == lines.deep_view(),
            c == com.deep_view(),
            i <= lines.len(),
            com_ptr == matched_before(s, c, i as int),
            com_ptr <= com.len(),
            lines_at(out@) == unshared_upto(s, c, i as int),
        decreases lines.len() - i,
    {
        proof {
            lemma_unshared_step(s, c, i as int);
            lemma_matched_bounds(s, c, i + 1);
        }
        if com_ptr < com.len() && lines[i] == com[com_ptr] {
            com_ptr += 1;
        } else {
            let ghost before = out@;
            let line = lines[i].clone();
            out.insert(i as i32, line);
            assert(lines_at(out@) =~= lines_at(before).insert(i as int, s[i as int]));
        }
        i += 1;
    }
    out
}

/// Compares two versions of a file line by line.
///
/// Positions are stored as `i32`, so neither version may have more than
/// `MAX_LINES` lines.
pub fn get_file_diff_log(old_file_lines: Vec<String>, new_file_lines: Vec<String>) -> (out:
    FileDiffLog)
    requires
        old_file_lines.len() <= MAX_LINES,
        new_file_lines.len() <= MAX_LINES,
    ensures
        out@ == diff(old_file_lines.deep_view(), new_file_lines.deep_view()),
        out.com.len() == lcs_len(
            old_file_lines.deep_view(),
            new_file_lines.deep_view(),
            old_file_lines.len() as int,
            new_file_lines.len() as int,
        ),
        out.com.len() <= old_file_lines.len(),
        out.com.len() <= new_file_lines.len(),
        forall|k: i32| #[trigger]
            out.add@.contains_key(k) ==> 0 <= k < new_file_lines.len() && out.add@[k]@
                == new_file_lines[k as int]@,
        forall|k: i32| #[trigger]
            out.del@.contains_key(k) ==> 0 <= k < old_file_lines.len() && out.del@[k]@
                == old_file_lines[k as int]@,
        out.add@.len() + out.com.len() == new_file_lines.len(),
        out.del@.len() + out.com.len() == old_file_lines.len(),
{
    let com = common_lines(&old_file_lines, &new_file_lines);
    let add = unshared_lines(&new_file_lines, &com);
    let del = unshared_lines(&old_file_lines, &com);
    let out = FileDiffLog::new(add, com, del);
    proof {
        let a = old_file_lines.deep_view();
        let b = new_file_lines.deep_view();
        lemma_diff_common_len(a, b);
        lemma_diff_accounts_for_every_line(a, b);
        lemma_lines_at_len(out.add@);
        lemma_lines_at_len(out.del@);
        assert forall|k: i32| #[trigger] out.add@.contains_key(k) implies 0 <= k
            < new_file_lines.len() && out.add@[k]@ == new_file_lines[k as int]@ by {
            assert(out@.add.contains_key(k as int));
        }
        assert forall|k: i32| #[trigger] out.del@.contains_key(k) implies 0 <= k
            < old_file_lines.len() && out.del@[k]@ == old_file_lines[k as int]@ by {
            assert(out@.del.contains_key(k as int));
        }
    }
    out
}

/// Compares two versions of a file line by line and keeps only the added and
/// the deleted lines.
pub fn get_file_change_log(old_file_lines: Vec<String>, new_file_lines: Vec<String>) -> (out:
    FileChangeLog)
    requires
        old_file_lines.len() <= MAX_LINES,
        new_file_lines.len() <= MAX_LINES,
    ensures
        out@ == diff(old_file_lines.deep_view(), new_file_lines.deep_view()).changes(),
{
    FileChangeLog::from_diff(get_file_diff_log(old_file_lines, new_file_lines))
}

/// A map of stored lines holds as many lines as it has keys.
pub proof fn lemma_lines_at_len(m: Map<i32, String>)
    requires
        m.dom().finite(),
    ensures
        lines_at(m).dom().finite(),
        lines_at(m).len() == m.len(),
    decreases m.len(),
{
    if m.len() == 0 {
        assert(lines_at(m).dom() =~= Set::<int>::empty());
    } else {
        let k = m.dom().choose();
        let rest = m.remove(k);
        lemma_lines_at_len(rest);
        assert(lines_at(m) =~= lines_at(rest).insert(k as int, m[k]@));
    }
}

/// The common lines of a diff number as many as the last entry of the table of
/// lengths holds, and no more than either version has lines.
pub proof fn lemma_diff_common_len(old_lines: Seq<Seq<char>>, new_lines: Seq<Seq<char>>)
    ensures
        diff(old_lines, new_lines).com.len() == lcs_len(
            old_lines,
            new_lines,
            old_lines.len() as int,
            new_lines.len() as int,
        ),
        diff(old_lines, new_lines).com.len() <= old_lines.len(),
        diff(old_lines, new_lines).com.len() <= new_lines.len(),
{
    lemma_common_len(old_lines, new_lines);
}

/// The common lines of a diff are a longest common subsequence of the two
/// versions: they occur in both, in order, and nothing that does is longer.
pub proof fn lemma_diff_common_is_longest(
    old_lines: Seq<Seq<char>>,
    new_lines: Seq<Seq<char>>,
    other: Seq<Seq<char>>,
)
    ensures
        is_subsequence(diff(old_lines, new_lines).com, old_lines),
        is_subsequence(diff(old_lines, new_lines).com, new_lines),
        is_subsequence(other, old_lines) && is_subsequence(other, new_lines) ==> other.len()
            <= diff(old_lines, new_lines).com.len(),
{
    lemma_common_is_common(old_lines, new_lines);
    if is_subsequence(other, old_lines) && is_subsequence(other, new_lines) {
        lemma_common_is_longest(old_lines, new_lines, other);
    }
}

/// A diff accounts for every line exactly once. Every added line is a line of
/// the new version under its own position, and the added lines and the common
/// lines together number as many as the new version has lines: the positions
/// that are not added spell out the common lines. The same holds of the
/// deleted lines and the old version.
pub proof fn lemma_diff_accounts_for_every_line(
    old_lines: Seq<Seq<char>>,
    new_lines: Seq<Seq<char>>,
)
    ensures
        ({
            let d = diff(old_lines, new_lines);
            let kept_new = shared_positions(new_lines, d.com, new_lines.len() as int);
            let kept_old = shared_positions(old_lines, d.com, old_lines.len() as int);
            &&& forall|k: int| #[trigger]
                d.add.contains_key(k) ==> 0 <= k < new_lines.len() && d.add[k] == new_lines[k]
            &&& forall|k: int| #[trigger]
                d.del.contains_key(k) ==> 0 <= k < old_lines.len() && d.del[k] == old_lines[k]
            &&& d.add.dom().finite()
            &&& d.del.dom().finite()
            &&& d.add.len() + d.com.len() == new_lines.len()
            &&& d.del.len() + d.com.len() == old_lines.len()
            &&& is_embedding(d.com, new_lines, kept_new, new_lines.len() as int)
            &&& is_embedding(d.com, old_lines, kept_old, old_lines.len() as int)
            &&& forall|k: int|
                0 <= k < new_lines.len() ==> (d.add.contains_key(k) <==> !kept_new.contains(k))
            &&& forall|k: int|
                0 <= k < old_lines.len() ==> (d.del.contains_key(k) <==> !kept_old.contains(k))
        }),
{
    lemma_common_is_common(old_lines, new_lines);
    lemma_scan_partitions(new_lines, common(old_lines, new_lines));
    lemma_scan_partitions(old_lines, common(old_lines, new_lines));
}

/// A file compared with itself has every line in common and nothing added or
/// deleted.
pub proof fn lemma_diff_of_same(lines: Seq<Seq<char>>)
    ensures
        diff(lines, lines) == (DiffView { add: Map::empty(), com: lines, del: Map::empty() }),
{
    lemma_common_of_same(lines, lines.len() as int);
    assert(lines.take(lines.len() as int) =~= lines);
    lemma_unshared_of_same(lines);
}

/// Two versions without a line in common have no common lines: every line of
/// the old version is deleted and every line of the new version is added.
pub proof fn lemma_diff_of_disjoint(old_lines: Seq<Seq<char>>, new_lines: Seq<Seq<char>>)
    requires
        forall|i: int, j: int|
            0 <= i < old_lines.len() && 0 <= j < new_lines.len() ==> old_lines[i] != new_lines[j],
    ensures
        diff(old_lines, new_lines) == (DiffView {
            add: Map::new(|k: int| 0 <= k < new_lines.len(), |k: int| new_lines[k]),
            com: Seq::empty(),
            del: Map::new(|k: int| 0 <= k < old_lines.len(), |k: int| old_lines[k]),
        }),
{
    lemma_common_of_disjoint(old_lines, new_lines, old_lines.len() as int, new_lines.len() as int);
    lemma_unshared_of_nothing(old_lines);
    lemma_unshared_of_nothing(new_lines);
}

/// Comparing the same two versions again gives the same diff: whatever two
/// runs on equal input return, they agree on every added, common and deleted
/// line and on every position.
pub proof fn lemma_diff_is_deterministic(
    old_first: Vec<String>,
    new_first: Vec<String>,
    old_second: Vec<String>,
    new_second: Vec<String>,
    first: FileDiffLog,
    second: FileDiffLog,
)
    requires
        old_first.deep_view() == old_second.deep_view(),
        new_first.deep_view() == new_second.deep_view(),
        first@ == diff(old_first.deep_view(), new_first.deep_view()),
        second@ == diff(old_second.deep_view(), new_second.deep_view()),
    ensures
        first@ == second@,
{
}

} // verus!

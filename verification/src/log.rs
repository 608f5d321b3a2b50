//! The commit history: an append-only timeline of commit identifiers, the
//! commit recorded under each, and the head that names the latest commit.

use std::collections::HashMap;
use vstd::hash_map::StringHashMap;
use vstd::prelude::*;
use crate::file_change_log::FileChangeLog;

verus! {

/// One commit: its message, the files present before and after it, and the
/// change record of each file that changed, keyed by the file's path.
pub struct CommitLog {
    pub message: String,
    pub old_files: Vec<String>,
    pub new_files: Vec<String>,
    pub changes: HashMap<String, FileChangeLog>,
}

/// The history of a repository. It starts empty and grows by one commit at a
/// time; nothing that was recorded is ever removed or replaced.
pub struct Log {
    head: String,
    timeline: Vec<String>,
    commits: StringHashMap<CommitLog>,
}

/// A history as plain mathematics: identifiers are sequences of characters.
#[verifier::ext_equal]
pub struct LogView {
    pub head: Seq<char>,
    pub timeline: Seq<Seq<char>>,
    pub commits: Map<Seq<char>, CommitLog>,
}

impl LogView {
    /// The history of a repository in which nothing was committed yet.
    pub open spec fn empty() -> LogView {
        LogView { head: Seq::empty(), timeline: Seq::empty(), commits: Map::empty() }
    }

    /// The history after one more commit: its identifier ends the timeline
    /// and becomes the head, and its entry can be looked up under it.
    pub open spec fn record(self, id: Seq<char>, entry: CommitLog) -> LogView {
        LogView {
            head: id,
            timeline: self.timeline.push(id),
            commits: self.commits.insert(id, entry),
        }
    }

    /// What holds of every history: no identifier occurs twice in the
    /// timeline, the commits on record are exactly those of the timeline, and
    /// the head is the last identifier of the timeline, or empty before the
    /// first commit.
    pub open spec fn well_formed(self) -> bool {
        &&& self.timeline.no_duplicates()
        &&& forall|id: Seq<char>| #[trigger]
            self.commits.contains_key(id) <==> self.timeline.contains(id)
        &&& self.head == if self.timeline.len() == 0 {
            Seq::<char>::empty()
        } else {
            self.timeline.last()
        }
    }

    /// The commits of a history in the order of its timeline.
    pub open spec fn entries(self) -> Seq<CommitLog> {
        Seq::new(self.timeline.len(), |i: int| self.commits[self.timeline[i]])
    }

    /// The history after recording `entries[0]` under `ids[0]`, then
    /// `entries[1]` under `ids[1]`, and so on, in a repository that had no
    /// commits.
    pub open spec fn replay(ids: Seq<Seq<char>>, entries: Seq<CommitLog>) -> LogView
        decreases ids.len(),
    {
        if ids.len() == 0 {
            LogView::empty()
        } else {
            LogView::replay(ids.drop_last(), entries.drop_last()).record(
                ids.last(),
                entries.last(),
            )
        }
    }
}

impl View for Log {
    type V = LogView;

    closed spec fn view(&self) -> LogView {
        LogView {
            head: self.head@,
            timeline: self.timeline.deep_view(),
            commits: self.commits@,
        }
    }
}

impl CommitLog {
    /// Puts a commit together from its message, the two file lists and the
    /// change records.
    pub fn new(
        message: String,
        old_files: Vec<String>,
        new_files: Vec<String>,
        changes: HashMap<String, FileChangeLog>,
    ) -> (out: Self)
        ensures
            out.message == message,
            out.old_files == old_files,
            out.new_files == new_files,
            out.changes == changes,
    {
        CommitLog { message, old_files, new_files, changes }
    }
}

impl Log {
    /// The history of a repository that has no commits yet.
    pub fn new() -> (out: Self)
        ensures
            out@ == LogView::empty(),
            out@.well_formed(),
    {
        let out = Log { head: String::new(), timeline: Vec::new(), commits: StringHashMap::new() };
        assert(out.timeline.deep_view() =~= Seq::<Seq<char>>::empty());
        out
    }

    /// Records a commit under an identifier that the history does not hold yet.
    pub fn record(&mut self, id: String, entry: CommitLog)
        requires
            old(self)@.well_formed(),
            !old(self)@.commits.contains_key(id@),
        ensures
            final(self)@ == old(self)@.record(id@, entry),
            final(self)@.well_formed(),
    {
        let ghost before = self@;
        self.timeline.push(id.clone());
        self.commits.insert(id.clone(), entry);
        self.head = id;
        proof {
            assert(self.timeline.deep_view() =~= before.timeline.push(id@));
            lemma_record_keeps_well_formed(before, id@, entry);
        }
    }

    /// The identifier of the latest commit, or the empty string if there is none.
    pub fn head(&self) -> (out: &str)
        ensures
            out@ == self@.head,
    {
        self.head.as_str()
    }

    /// The identifiers of all commits, in the order in which they were recorded.
    pub fn timeline(&self) -> (out: &Vec<String>)
        ensures
            out.deep_view() == self@.timeline,
    {
        &self.timeline
    }

    /// The commit recorded under `id`, if there is one.
    pub fn commit(&self, id: &str) -> (out: Option<&CommitLog>)
        ensures
            match out {
                Some(entry) => self@.commits.contains_key(id@) && *entry == self@.commits[id@],
                None => !self@.commits.contains_key(id@),
            },
    {
        self.commits.get(id)
    }
}

/// Recording a commit under a fresh identifier keeps a history well formed,
/// and keeps all that it held: the timeline so far is the start of the new
/// one, and every commit on record stays as it was.
pub proof fn lemma_record_keeps_well_formed(history: LogView, id: Seq<char>, entry: CommitLog)
    requires
        history.well_formed(),
        !history.commits.contains_key(id),
    ensures
        history.record(id, entry).well_formed(),
        history.record(id, entry).timeline.len() == history.timeline.len() + 1,
        history.record(id, entry).timeline.take(history.timeline.len() as int)
            == history.timeline,
        forall|known: Seq<char>| #[trigger]
            history.commits.contains_key(known) ==> history.record(id, entry).commits.contains_key(
                known,
            ) && history.record(id, entry).commits[known] == history.commits[known],
{
    let after = history.record(id, entry);
    assert(after.timeline.take(history.timeline.len() as int) =~= history.timeline);
    assert forall|i: int, j: int|
        0 <= i < after.timeline.len() && 0 <= j < after.timeline.len() && i != j implies after.timeline[i]
        != after.timeline[j] by {
        if i < history.timeline.len() {
            assert(history.timeline.contains(history.timeline[i]));
        }
        if j < history.timeline.len() {
            assert(history.timeline.contains(history.timeline[j]));
        }
    }
    assert forall|known: Seq<char>| #[trigger]
        after.commits.contains_key(known) <==> after.timeline.contains(known) by {
        if after.timeline.contains(known) {
            let i = choose|i: int| 0 <= i < after.timeline.len() && after.timeline[i] == known;
            if i < history.timeline.len() {
                assert(history.timeline.contains(history.timeline[i]));
            }
        }
        if after.commits.contains_key(known) {
            if known == id {
                assert(after.timeline[history.timeline.len() as int] == id);
            } else {
                assert(history.timeline.contains(known));
                let i = choose|i: int|
                    0 <= i < history.timeline.len() && history.timeline[i] == known;
                assert(after.timeline[i] == known);
            }
        }
    }
}

/// After any number of commits recorded one after the other under distinct
/// identifiers, the timeline lists the identifiers in the order of recording,
/// so it is as long as there were commits; the head is the identifier of the
/// last one; and every commit is on record under its identifier.
pub proof fn lemma_replay(ids: Seq<Seq<char>>, entries: Seq<CommitLog>)
    requires
        ids.len() == entries.len(),
        ids.no_duplicates(),
    ensures
        LogView::replay(ids, entries).well_formed(),
        LogView::replay(ids, entries).timeline == ids,
        ids.len() > 0 ==> LogView::replay(ids, entries).head == ids.last(),
        forall|i: int|
            0 <= i < ids.len() ==> LogView::replay(ids, entries).commits.contains_key(
                #[trigger] ids[i],
            ) && LogView::replay(ids, entries).commits[ids[i]] == entries[i],
    decreases ids.len(),
{
    if ids.len() > 0 {
        let n = ids.len() - 1;
        let shorter = LogView::replay(ids.drop_last(), entries.drop_last());
        lemma_replay(ids.drop_last(), entries.drop_last());
        assert(!shorter.commits.contains_key(ids.last())) by {
            if shorter.timeline.contains(ids.last()) {
                let i = choose|i: int| 0 <= i < n && ids.drop_last()[i] == ids.last();
                assert(ids[i] == ids[n]);
            }
        }
        lemma_record_keeps_well_formed(shorter, ids.last(), entries.last());
        assert(shorter.timeline.push(ids.last()) =~= ids);
        assert forall|i: int| 0 <= i < ids.len() implies LogView::replay(
            ids,
            entries,
        ).commits.contains_key(#[trigger] ids[i]) && LogView::replay(ids, entries).commits[ids[i]]
            == entries[i] by {
            if i < n {
                assert(ids.drop_last()[i] == ids[i]);
                assert(entries.drop_last()[i] == entries[i]);
            }
        }
    }
}

/// A history is no more than its timeline and the commits under it: whoever
/// writes these down and records them again, in the order of the timeline,
/// has the same history, head included.
pub proof fn lemma_replay_restores(history: LogView)
    requires
        history.well_formed(),
    ensures
        LogView::replay(history.timeline, history.entries()) == history,
{
    let again = LogView::replay(history.timeline, history.entries());
    lemma_replay(history.timeline, history.entries());
    assert forall|id: Seq<char>| again.commits.contains_key(id) implies again.commits[id]
        == history.commits[id] by {
        let i = choose|i: int| 0 <= i < again.timeline.len() && again.timeline[i] == id;
        assert(again.commits[history.timeline[i]] == history.entries()[i]);
    }
    assert(again.commits =~= history.commits);
}

} // verus!

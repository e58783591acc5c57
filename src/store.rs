//! The commit store: an append-only collection of full snapshots keyed by
//! commit id.
use crate::commit::{commit_id, commit_id_of, Commit, CommitView, FullCommit, FullCommitView};
use vstd::prelude::*;

verus! {

/// The ids of the snapshots in `s`, in order.
pub open spec fn ids_of(s: Seq<FullCommitView>) -> Seq<Seq<char>> {
    s.map_values(|e: FullCommitView| e.commit.id)
}

/// No two snapshots in `s` share an id.
pub open spec fn unique_ids(s: Seq<FullCommitView>) -> bool {
    forall|i: int, j: int|
        0 <= i < s.len() && 0 <= j < s.len() && i != j ==> #[trigger] s[i].commit.id
            != #[trigger] s[j].commit.id
}

/// Some snapshot in `s` has the id `id`.
pub open spec fn has_id(s: Seq<FullCommitView>, id: Seq<char>) -> bool {
    exists|i: int| 0 <= i < s.len() && #[trigger] s[i].commit.id == id
}

/// The position of the snapshot with id `id`, where there is one.
pub open spec fn index_of_id(s: Seq<FullCommitView>, id: Seq<char>) -> int {
    choose|i: int| 0 <= i < s.len() && #[trigger] s[i].commit.id == id
}

/// The snapshot with id `id`, if `s` holds one.
pub open spec fn find(s: Seq<FullCommitView>, id: Seq<char>) -> Option<FullCommitView> {
    if has_id(s, id) {
        Some(s[index_of_id(s, id)])
    } else {
        None
    }
}

/// `s` after importing `full`: it replaces the snapshot of the same id, or is
/// appended when there is none.
pub open spec fn applied(s: Seq<FullCommitView>, full: FullCommitView) -> Seq<FullCommitView> {
    if has_id(s, full.commit.id) {
        s.update(index_of_id(s, full.commit.id), full)
    } else {
        s.push(full)
    }
}

/// The snapshot that a new commit of `message` at `timestamp` over `files` is.
pub open spec fn new_snapshot(
    message: Seq<char>,
    timestamp: Seq<char>,
    files: Seq<(Seq<char>, Seq<u8>)>,
) -> FullCommitView {
    FullCommitView {
        commit: CommitView { id: commit_id_of(message, timestamp), message, timestamp },
        files,
    }
}

/// What creating a commit does to the store `s`: the new commit and the store
/// with its snapshot appended, or `DuplicateCommit` and `s` unchanged when the
/// derived id is taken.
pub open spec fn created(
    s: Seq<FullCommitView>,
    message: Seq<char>,
    timestamp: Seq<char>,
    files: Seq<(Seq<char>, Seq<u8>)>,
) -> (Result<CommitView, StoreError>, Seq<FullCommitView>) {
    let full = new_snapshot(message, timestamp, files);
    if has_id(s, full.commit.id) {
        (Err(StoreError::DuplicateCommit), s)
    } else {
        (Ok(full.commit), s.push(full))
    }
}

/// Importing a snapshot keeps ids unique.
pub proof fn lemma_applied_unique(s: Seq<FullCommitView>, full: FullCommitView)
    requires
        unique_ids(s),
    ensures
        unique_ids(applied(s, full)),
        has_id(applied(s, full), full.commit.id),
        applied(s, full)[index_of_id(applied(s, full), full.commit.id)] == full,
{
    let t = applied(s, full);
    let id = full.commit.id;
    let k = if has_id(s, id) { index_of_id(s, id) } else { s.len() as int };
    assert(t[k] == full);
    assert forall|a: int, b: int|
        0 <= a < t.len() && 0 <= b < t.len() && a != b implies #[trigger] t[a].commit.id
        != #[trigger] t[b].commit.id by {
        if a != k && b != k {
            assert(s[a] == t[a] && s[b] == t[b]);
        } else if a == k {
            assert(s[b] == t[b]);
            if has_id(s, id) {
                assert(s[k].commit.id == id);
            }
        } else {
            assert(s[a] == t[a]);
            if has_id(s, id) {
                assert(s[k].commit.id == id);
            }
        }
    }
    assert(has_id(t, id));
    let j = index_of_id(t, id);
    if j != k {
        assert(t[j].commit.id != t[k].commit.id);
    }
}

/// Importing the same snapshot twice leaves the store as one import does.
pub proof fn lemma_apply_remote_idempotent(s: Seq<FullCommitView>, full: FullCommitView)
    requires
        unique_ids(s),
    ensures
        applied(applied(s, full), full) == applied(s, full),
{
    let t = applied(s, full);
    lemma_applied_unique(s, full);
    assert(applied(t, full) =~= t);
}

/// Creating a commit twice from the same message and timestamp fails the
/// second time with `DuplicateCommit`, whatever the files, and leaves the
/// store as the first creation left it.
pub proof fn lemma_create_commit_twice_fails(
    s: Seq<FullCommitView>,
    message: Seq<char>,
    timestamp: Seq<char>,
    files: Seq<(Seq<char>, Seq<u8>)>,
    files_again: Seq<(Seq<char>, Seq<u8>)>,
)
    requires
        unique_ids(s),
    ensures
        ({
            let (_, once) = created(s, message, timestamp, files);
            let (second, twice) = created(once, message, timestamp, files_again);
            second == Err::<CommitView, StoreError>(StoreError::DuplicateCommit) && twice == once
        }),
{
    let full = new_snapshot(message, timestamp, files);
    let (_, once) = created(s, message, timestamp, files);
    if !has_id(s, full.commit.id) {
        assert(once[s.len() as int].commit.id == full.commit.id);
    }
}

/// Errors of the commit store.
#[derive(Debug, Clone, Copy, PartialEq, Eq, Structural)]
pub enum StoreError {
    /// A commit with the same id already exists.
    DuplicateCommit,
    /// No commit has the requested id.
    CommitNotFound,
}

/// The commits known locally, each with its full snapshot.
#[derive(Debug)]
pub struct CommitStore {
    entries: Vec<FullCommit>,
}

impl View for CommitStore {
    type V = Seq<FullCommitView>;

    closed spec fn view(&self) -> Seq<FullCommitView> {
        self.entries@.map_values(|e: FullCommit| e@)
    }
}

impl CommitStore {
    /// The store is well formed: ids are unique.
    pub open spec fn wf(&self) -> bool {
        unique_ids(self@)
    }

    /// An empty store.
    pub fn new() -> (r: CommitStore)
        ensures
            r@ == Seq::<FullCommitView>::empty(),
            r.wf(),
    {
        let r = CommitStore { entries: Vec::new() };
        assert(r@ =~= Seq::<FullCommitView>::empty());
        r
    }

    /// Number of commits in the store.
    pub fn len(&self) -> (r: usize)
        ensures
            r == self@.len(),
    {
        self.entries.len()
    }

    /// The position of the commit with id `id`.
    fn position(&self, id: &String) -> (r: Option<usize>)
        requires
            self.wf(),
        ensures
            r matches Some(i) ==> i < self@.len() && i == index_of_id(self@, id@) && has_id(
                self@,
                id@,
            ),
            r is None ==> !has_id(self@, id@),
    {
        let mut i: usize = 0;
        while i < self.entries.len()
            invariant
                i <= self.entries@.len(),
                self@.len() == self.entries@.len(),
                self.wf(),
                forall|k: int| 0 <= k < i ==> self@[k].commit.id != id@,
            decreases self.entries@.len() - i,
        {
            assert(self@[i as int] == self.entries@[i as int]@);
            if self.entries[i].commit.id == *id {
                assert(self@[i as int].commit.id == id@);
                assert(has_id(self@, id@));
                let ghost j = index_of_id(self@, id@);
                assert(self@[j].commit.id == id@);
                proof {
                    if j != i as int {
                        assert(self@[j].commit.id != self@[i as int].commit.id);
                    }
                }
                return Some(i);
            }
            i = i + 1;
        }
        None
    }

    /// Whether the store holds the commit `id`.
    pub fn contains(&self, id: &String) -> (r: bool)
        requires
            self.wf(),
        ensures
            r == has_id(self@, id@),
    {
        self.position(id).is_some()
    }

    /// The ids of every commit in the store, in order.
    pub fn list_commit_ids(&self) -> (r: Vec<String>)
        ensures
            r@.map_values(|s: String| s@) == ids_of(self@),
    {
        let mut out: Vec<String> = Vec::new();
        let mut i: usize = 0;
        while i < self.entries.len()
            invariant
                i <= self.entries@.len(),
                self@.len() == self.entries@.len(),
                out@.len() == i,
                out@.map_values(|s: String| s@) == ids_of(self@).take(i as int),
            decreases self.entries@.len() - i,
        {
            assert(self@[i as int] == self.entries@[i as int]@);
            let id = self.entries[i].commit.id.clone();
            assert(id@ == ids_of(self@)[i as int]);
            out.push(id);
            i = i + 1;
            assert(out@.map_values(|s: String| s@) =~= ids_of(self@).take(i as int));
        }
        assert(ids_of(self@).take(i as int) =~= ids_of(self@));
        out
    }

    /// The metadata of the commit `id`.
    pub fn load_commit(&self, id: &String) -> (r: Result<Commit, StoreError>)
        requires
            self.wf(),
        ensures
            r matches Ok(c) ==> find(self@, id@) matches Some(f) && c@ == f.commit,
            r matches Err(e) ==> e == StoreError::CommitNotFound && find(self@, id@) is None,
    {
        match self.position(id) {
            Some(i) => {
                assert(self@[i as int] == self.entries@[i as int]@);
                Ok(self.entries[i].commit.copy())
            },
            None => Err(StoreError::CommitNotFound),
        }
    }

    /// The full snapshot of the commit `id`.
    pub fn materialize(&self, id: &String) -> (r: Result<FullCommit, StoreError>)
        requires
            self.wf(),
        ensures
            r matches Ok(f) ==> find(self@, id@) == Some(f@),
            r matches Err(e) ==> e == StoreError::CommitNotFound && find(self@, id@) is None,
    {
        match self.position(id) {
            Some(i) => {
                assert(self@[i as int] == self.entries@[i as int]@);
                Ok(self.entries[i].copy())
            },
            None => Err(StoreError::CommitNotFound),
        }
    }

    /// Imports a snapshot received from a peer. Importing the same snapshot
    /// again leaves the store as it is.
    pub fn apply_remote(&mut self, full: FullCommit)
        requires
            old(self).wf(),
        ensures
            final(self).wf(),
            final(self)@ == applied(old(self)@, full@),
    {
        let ghost s = self@;
        proof {
            lemma_applied_unique(s, full@);
        }
        match self.position(&full.commit.id) {
            Some(i) => {
                self.entries.set(i, full);
                assert(self@ =~= s.update(i as int, full@));
            },
            None => {
                self.entries.push(full);
                assert(self@ =~= s.push(full@));
            },
        }
    }

    /// Records a new commit of `message` at `timestamp` over the tracked
    /// `files`. Fails when a commit with the derived id already exists, and
    /// then leaves the store unchanged.
    pub fn create_commit(
        &mut self,
        message: &String,
        timestamp: &String,
        files: Vec<(String, Vec<u8>)>,
    ) -> (r: Result<Commit, StoreError>)
        requires
            old(self).wf(),
        ensures
            final(self).wf(),
            ({
                let (outcome, after) = created(
                    old(self)@,
                    message@,
                    timestamp@,
                    files@.map_values(|f: (String, Vec<u8>)| f@),
                );
                &&& final(self)@ == after
                &&& match r {
                    Ok(c) => outcome == Ok::<CommitView, StoreError>(c@),
                    Err(e) => outcome == Err::<CommitView, StoreError>(e),
                }
            }),
    {
        let id = commit_id(message.as_str(), timestamp.as_str());
        if self.contains(&id) {
            return Err(StoreError::DuplicateCommit);
        }
        let commit = Commit { id, message: message.clone(), timestamp: timestamp.clone() };
        let result = commit.copy();
        self.apply_remote(FullCommit { commit, files });
        Ok(result)
    }
}

} // verus!

//! The mathematical model of an object store, and what a walk of it reports.
//!
//! A store maps ids to objects. Content addressing makes the graph acyclic: an
//! object's id is the hash of its content, which holds the ids of the objects
//! it points to. The model records this as a rank that falls along every
//! resolvable pointer.

use vstd::prelude::*;
use crate::object::{
    EntryKind, MalformedObjectError, ObjectId, ObjectKind, ResolutionError, TreeEntry, WalkError,
};

verus! {

/// What a walk reads of a commit: its summary line if it has a readable one,
/// the id of its tree, and the id of its first parent if it has any parent.
pub struct CommitModel {
    pub summary: Option<Seq<char>>,
    pub tree: ObjectId,
    pub first_parent: Option<ObjectId>,
}

/// One stored object.
pub enum ObjectModel {
    Blob { size: u64 },
    Tree { entries: Seq<TreeEntry> },
    Commit { commit: CommitModel },
}

impl ObjectModel {
    /// The object points to `id`: as a tree by one of its entries, as a
    /// commit by its first parent.
    pub open spec fn mentions(self, id: ObjectId) -> bool {
        match self {
            ObjectModel::Blob { .. } => false,
            ObjectModel::Tree { entries } => exists|k: int|
                0 <= k < entries.len() && (#[trigger] entries[k]).id == id,
            ObjectModel::Commit { commit } => commit.first_parent == Some(id),
        }
    }
}

/// What a commit walk reports for one commit.
pub struct RecordModel {
    pub summary: Seq<char>,
    pub tree: ObjectId,
}

/// What a tree walk reports: the blob sizes in visiting order, and the error
/// that ended the walk, if one did.
pub struct TreeOutcome {
    pub sizes: Seq<u64>,
    pub failure: Option<ResolutionError>,
}

impl TreeOutcome {
    pub open spec fn done() -> TreeOutcome {
        TreeOutcome { sizes: Seq::empty(), failure: None }
    }

    pub open spec fn failed(id: ObjectId, expected: ObjectKind) -> TreeOutcome {
        TreeOutcome { sizes: Seq::empty(), failure: Some(ResolutionError { id, expected }) }
    }

    /// This outcome, and after it `next`, unless this one failed: a failure
    /// ends the walk.
    pub open spec fn followed_by(self, next: TreeOutcome) -> TreeOutcome {
        if self.failure is Some {
            self
        } else {
            TreeOutcome { sizes: self.sizes + next.sizes, failure: next.failure }
        }
    }
}

/// What a commit walk reports: one record per commit, newest first, and the
/// error that ended the walk, if one did.
pub struct CommitOutcome {
    pub records: Seq<RecordModel>,
    pub failure: Option<WalkError>,
}

impl CommitOutcome {
    pub open spec fn failed(error: WalkError) -> CommitOutcome {
        CommitOutcome { records: Seq::empty(), failure: Some(error) }
    }

    pub open spec fn done() -> CommitOutcome {
        CommitOutcome { records: Seq::empty(), failure: None }
    }

    pub open spec fn one(record: RecordModel) -> CommitOutcome {
        CommitOutcome { records: seq![record], failure: None }
    }

    pub open spec fn followed_by(self, next: CommitOutcome) -> CommitOutcome {
        if self.failure is Some {
            self
        } else {
            CommitOutcome { records: self.records + next.records, failure: next.failure }
        }
    }
}

/// An object store: the objects by id, and the rank that witnesses that the
/// graph has no cycle.
pub struct StoreModel {
    pub objects: Map<ObjectId, ObjectModel>,
    pub rank: Map<ObjectId, nat>,
}

impl StoreModel {
    /// The size of the blob stored under `id`, if a blob is.
    pub open spec fn blob_size(self, id: ObjectId) -> Option<u64> {
        if self.objects.dom().contains(id) {
            match self.objects[id] {
                ObjectModel::Blob { size } => Some(size),
                _ => None,
            }
        } else {
            None
        }
    }

    /// The entries of the tree stored under `id`, if a tree is.
    pub open spec fn tree_entries(self, id: ObjectId) -> Option<Seq<TreeEntry>> {
        if self.objects.dom().contains(id) {
            match self.objects[id] {
                ObjectModel::Tree { entries } => Some(entries),
                _ => None,
            }
        } else {
            None
        }
    }

    /// The commit stored under `id`, if a commit is.
    pub open spec fn commit(self, id: ObjectId) -> Option<CommitModel> {
        if self.objects.dom().contains(id) {
            match self.objects[id] {
                ObjectModel::Commit { commit } => Some(commit),
                _ => None,
            }
        } else {
            None
        }
    }

    /// The first parent of the commit stored under `id`, if it has one.
    pub open spec fn first_parent(self, id: ObjectId) -> Option<ObjectId> {
        match self.commit(id) {
            Some(c) => c.first_parent,
            None => None,
        }
    }

    /// Some stored object points to `id`.
    pub open spec fn mentions(self, id: ObjectId) -> bool {
        exists|holder: ObjectId|
            self.objects.dom().contains(holder) && (#[trigger] self.objects[holder]).mentions(id)
    }

    /// The store can take `object` under `id` and stay free of cycles: the
    /// id is new to the store, no stored object points to it yet, and the
    /// object does not point to itself.
    pub open spec fn accepts(self, id: ObjectId, object: ObjectModel) -> bool {
        &&& !self.objects.dom().contains(id)
        &&& !self.mentions(id)
        &&& !object.mentions(id)
    }

    /// Every sub-tree that `entries` lead to has a rank under `limit`.
    pub open spec fn below(self, entries: Seq<TreeEntry>, limit: nat) -> bool {
        forall|i: int|
            0 <= i < entries.len() && (#[trigger] entries[i]).kind == EntryKind::Tree
                && self.tree_entries(entries[i].id) is Some ==> self.rank[entries[i].id] < limit
    }

    /// The rank falls from each tree to its sub-trees and from each commit to
    /// its first parent.
    pub open spec fn wf(self) -> bool {
        &&& forall|id: ObjectId| #[trigger]
            self.tree_entries(id) is Some ==> self.below(
                self.tree_entries(id)->0,
                self.rank[id],
            )
        &&& forall|id: ObjectId|
            (#[trigger] self.first_parent(id)) is Some && self.commit(
                self.first_parent(id)->0,
            ) is Some ==> self.rank[self.first_parent(id)->0] < self.rank[id]
    }

    /// What resolving one blob entry reports.
    pub open spec fn blob_outcome(self, id: ObjectId) -> TreeOutcome {
        match self.blob_size(id) {
            Some(size) => TreeOutcome { sizes: seq![size], failure: None },
            None => TreeOutcome::failed(id, ObjectKind::Blob),
        }
    }

    /// What a depth-first walk of `entries` reports, entry by entry in their
    /// order, descending into each sub-tree of rank under `limit` before going
    /// on, and stopping at the first id that does not resolve.
    pub open spec fn walk_list(self, entries: Seq<TreeEntry>, limit: nat) -> TreeOutcome
        decreases limit, entries.len(),
    {
        if entries.len() == 0 {
            TreeOutcome::done()
        } else {
            let e = entries.first();
            let head = match e.kind {
                EntryKind::Other => TreeOutcome::done(),
                EntryKind::Blob => self.blob_outcome(e.id),
                EntryKind::Tree => match self.tree_entries(e.id) {
                    None => TreeOutcome::failed(e.id, ObjectKind::Tree),
                    Some(children) => if self.rank[e.id] < limit {
                        self.walk_list(children, self.rank[e.id])
                    } else {
                        TreeOutcome::done()
                    },
                },
            };
            head.followed_by(self.walk_list(entries.drop_first(), limit))
        }
    }

    /// What a walk of the single entry `e` reports.
    pub open spec fn entry_outcome(self, e: TreeEntry) -> TreeOutcome {
        self.walk_list(seq![e], self.rank[e.id] + 1)
    }

    /// What a walk of the tree stored under `root` reports.
    pub open spec fn tree_walk(self, root: ObjectId) -> TreeOutcome {
        self.entry_outcome(TreeEntry { id: root, kind: EntryKind::Tree })
    }

    /// What a first-parent walk from the commit stored under `id` reports.
    pub open spec fn commit_walk(self, id: ObjectId) -> CommitOutcome
        decreases self.rank[id],
    {
        match self.commit(id) {
            None => CommitOutcome::failed(
                WalkError::Resolution(ResolutionError { id, expected: ObjectKind::Commit }),
            ),
            Some(c) => match c.summary {
                None => CommitOutcome::failed(WalkError::Malformed(MalformedObjectError { id })),
                Some(summary) => if self.tree_entries(c.tree) is None {
                    CommitOutcome::failed(
                        WalkError::Resolution(
                            ResolutionError { id: c.tree, expected: ObjectKind::Tree },
                        ),
                    )
                } else {
                    let here = CommitOutcome::one(RecordModel { summary, tree: c.tree });
                    match c.first_parent {
                        None => here,
                        Some(parent) => if self.commit(parent) is None {
                            here.followed_by(
                                CommitOutcome::failed(
                                    WalkError::Resolution(
                                        ResolutionError { id: parent, expected: ObjectKind::Commit },
                                    ),
                                ),
                            )
                        } else if self.rank[parent] < self.rank[id] {
                            here.followed_by(self.commit_walk(parent))
                        } else {
                            here
                        },
                    }
                },
            },
        }
    }
}

} // verus!

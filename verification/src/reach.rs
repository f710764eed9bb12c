//! What a tree walk reports, measured against what can be reached: the blob
//! sizes reported are those of the blobs at the end of a chain of entries
//! that starts in the tree and passes through sub-trees only.

use vstd::prelude::*;
use crate::model::StoreModel;
use crate::object::{EntryKind, ObjectId, TreeEntry};
use crate::tree_walk::{
    lemma_entry_outcome, lemma_walk_list_step, lemma_walker_exact, Answer, WalkState,
};

verus! {

/// `e` is an entry of the tree stored under `parent`.
pub open spec fn child_of(s: StoreModel, parent: ObjectId, e: TreeEntry) -> bool {
    s.tree_entries(parent) is Some && s.tree_entries(parent)->0.contains(e)
}

/// Each entry of `path` but the last is a sub-tree that resolves, and the
/// entry after it is one of that sub-tree's entries.
pub open spec fn chained(s: StoreModel, path: Seq<TreeEntry>) -> bool {
    forall|k: int|
        0 <= k < path.len() - 1 ==> (#[trigger] path[k]).kind == EntryKind::Tree && child_of(
            s,
            path[k].id,
            path[k + 1],
        )
}

/// `path` starts at one of `entries`, goes down through sub-trees, and ends
/// at a blob of `size` bytes.
pub open spec fn leads_to_blob(
    s: StoreModel,
    entries: Seq<TreeEntry>,
    path: Seq<TreeEntry>,
    size: u64,
) -> bool {
    &&& path.len() > 0
    &&& entries.contains(path[0])
    &&& chained(s, path)
    &&& path.last().kind == EntryKind::Blob
    &&& s.blob_size(path.last().id) == Some(size)
}

/// A blob of `size` bytes can be reached from one of `entries`.
pub open spec fn list_reaches(s: StoreModel, entries: Seq<TreeEntry>, size: u64) -> bool {
    exists|path: Seq<TreeEntry>| leads_to_blob(s, entries, path, size)
}

/// A blob of `size` bytes can be reached from the tree stored under `root`
/// by following tree entries.
pub open spec fn reaches_blob(s: StoreModel, root: ObjectId, size: u64) -> bool {
    s.tree_entries(root) is Some && list_reaches(s, s.tree_entries(root)->0, size)
}

proof fn lemma_in_either(a: Seq<u64>, b: Seq<u64>, x: u64)
    ensures
        (a + b).contains(x) <==> a.contains(x) || b.contains(x),
{
    if (a + b).contains(x) {
        let i = choose|i: int| 0 <= i < (a + b).len() && (a + b)[i] == x;
        if i < a.len() {
            assert(a[i] == x);
        } else {
            assert(b[i - a.len()] == x);
        }
    }
    if a.contains(x) {
        let i = choose|i: int| 0 <= i < a.len() && a[i] == x;
        assert((a + b)[i] == x);
    }
    if b.contains(x) {
        let i = choose|i: int| 0 <= i < b.len() && b[i] == x;
        assert((a + b)[a.len() + i] == x);
    }
}

proof fn lemma_prepend_chained(s: StoreModel, e: TreeEntry, path: Seq<TreeEntry>)
    requires
        e.kind == EntryKind::Tree,
        path.len() > 0,
        child_of(s, e.id, path[0]),
        chained(s, path),
    ensures
        chained(s, seq![e] + path),
{
    let longer = seq![e] + path;
    assert forall|k: int| 0 <= k < longer.len() - 1 implies (#[trigger] longer[k]).kind
        == EntryKind::Tree && child_of(s, longer[k].id, longer[k + 1]) by {
        if k > 0 {
            assert(longer[k] == path[k - 1]);
            assert(longer[k + 1] == path[k]);
        } else {
            assert(longer[1] == path[0]);
        }
    }
}

proof fn lemma_rest_chained(s: StoreModel, path: Seq<TreeEntry>)
    requires
        path.len() > 1,
        chained(s, path),
    ensures
        chained(s, path.drop_first()),
        path[0].kind == EntryKind::Tree,
        child_of(s, path[0].id, path[1]),
{
    let rest = path.drop_first();
    assert forall|k: int| 0 <= k < rest.len() - 1 implies (#[trigger] rest[k]).kind
        == EntryKind::Tree && child_of(s, rest[k].id, rest[k + 1]) by {
        assert(rest[k] == path[k + 1]);
        assert(rest[k + 1] == path[k + 2]);
        assert(path[k + 1].kind == EntryKind::Tree);
    }
    assert(path[0].kind == EntryKind::Tree && child_of(s, path[0].id, path[1]));
}

/// Each size that a walk of `entries` reports is that of a blob reachable
/// from them.
proof fn lemma_reported_is_reachable(
    s: StoreModel,
    entries: Seq<TreeEntry>,
    limit: nat,
    size: u64,
)
    requires
        s.wf(),
        s.below(entries, limit),
        s.walk_list(entries, limit).sizes.contains(size),
    ensures
        list_reaches(s, entries, size),
    decreases limit, entries.len(),
{
    if entries.len() > 0 {
        let e = entries.first();
        let rest = entries.drop_first();
        let head = s.entry_outcome(e);
        let tail = s.walk_list(rest, limit);
        lemma_walk_list_step(s, entries, limit);
        lemma_entry_outcome(s, e);
        lemma_in_either(head.sizes, tail.sizes, size);
        if head.sizes.contains(size) {
            match e.kind {
                EntryKind::Blob => {
                    let path = seq![e];
                    assert(entries[0] == path[0]);
                    assert(leads_to_blob(s, entries, path, size));
                },
                EntryKind::Tree => {
                    let children = s.tree_entries(e.id)->0;
                    assert(entries[0] == e);
                    assert(s.rank[e.id] < limit);
                    lemma_reported_is_reachable(s, children, s.rank[e.id], size);
                    let below = choose|path: Seq<TreeEntry>|
                        leads_to_blob(s, children, path, size);
                    let path = seq![e] + below;
                    lemma_prepend_chained(s, e, below);
                    assert(path[0] == entries[0]);
                    assert(path.last() == below.last());
                    assert(leads_to_blob(s, entries, path, size));
                },
                EntryKind::Other => {},
            }
        } else {
            lemma_reported_is_reachable(s, rest, limit, size);
            let path = choose|path: Seq<TreeEntry>| leads_to_blob(s, rest, path, size);
            let i = choose|i: int| 0 <= i < rest.len() && rest[i] == path[0];
            assert(entries[i + 1] == path[0]);
            assert(leads_to_blob(s, entries, path, size));
        }
    }
}

/// A walk of `entries` that ends without error reports the size of each
/// blob reachable from them.
proof fn lemma_reachable_is_reported(
    s: StoreModel,
    entries: Seq<TreeEntry>,
    limit: nat,
    path: Seq<TreeEntry>,
    size: u64,
)
    requires
        s.wf(),
        s.below(entries, limit),
        s.walk_list(entries, limit).failure is None,
        leads_to_blob(s, entries, path, size),
    ensures
        s.walk_list(entries, limit).sizes.contains(size),
    decreases limit, entries.len(), path.len(),
{
    let e = entries.first();
    let rest = entries.drop_first();
    let head = s.entry_outcome(e);
    let tail = s.walk_list(rest, limit);
    lemma_walk_list_step(s, entries, limit);
    lemma_entry_outcome(s, e);
    lemma_in_either(head.sizes, tail.sizes, size);
    let i = choose|i: int| 0 <= i < entries.len() && entries[i] == path[0];
    if i == 0 {
        if path.len() == 1 {
            assert(head.sizes[0] == size);
        } else {
            lemma_rest_chained(s, path);
            let children = s.tree_entries(e.id)->0;
            let below = path.drop_first();
            assert(below[0] == path[1]);
            assert(below.last() == path.last());
            assert(s.rank[e.id] < limit);
            lemma_reachable_is_reported(s, children, s.rank[e.id], below, size);
        }
    } else {
        assert(rest[i - 1] == path[0]);
        lemma_reachable_is_reported(s, rest, limit, path, size);
    }
}

/// The sizes that a walk of a tree reports are those of the blobs that can
/// be reached from the tree by following tree entries: every size reported
/// belongs to such a blob, and a walk that ends without error has reported
/// the size of every such blob.
pub proof fn lemma_walk_reports_reachable_blobs(s: StoreModel, root: ObjectId)
    requires
        s.wf(),
    ensures
        forall|size: u64| #[trigger]
            s.tree_walk(root).sizes.contains(size) ==> reaches_blob(s, root, size),
        s.tree_walk(root).failure is None ==> forall|size: u64| #[trigger]
            reaches_blob(s, root, size) ==> s.tree_walk(root).sizes.contains(size),
        s.tree_walk(root).failure is None ==> s.tree_walk(root).sizes.to_set() == Set::new(
            |size: u64| reaches_blob(s, root, size),
        ),
{
    let e = TreeEntry { id: root, kind: EntryKind::Tree };
    lemma_entry_outcome(s, e);
    let walk = s.tree_walk(root);
    assert forall|size: u64| #[trigger] walk.sizes.contains(size) implies reaches_blob(
        s,
        root,
        size,
    ) by {
        let children = s.tree_entries(root)->0;
        lemma_reported_is_reachable(s, children, s.rank[root], size);
    }
    if walk.failure is None {
        assert forall|size: u64| #[trigger] reaches_blob(s, root, size) implies walk.sizes.contains(
            size,
        ) by {
            let children = s.tree_entries(root)->0;
            let path = choose|path: Seq<TreeEntry>| leads_to_blob(s, children, path, size);
            lemma_reachable_is_reported(s, children, s.rank[root], path, size);
        }
        assert(walk.sizes.to_set() =~= Set::new(|size: u64| reaches_blob(s, root, size)));
    }
}

/// Two runs of the walker on one tree against one store, each answered by
/// the store throughout and run to its end, report the same.
pub proof fn lemma_tree_walk_repeatable(
    s: StoreModel,
    root: ObjectId,
    first: Seq<Answer>,
    second: Seq<Answer>,
)
    requires
        s.wf(),
        WalkState::initial(root).answered_by(s, first),
        WalkState::initial(root).replay(first).finished(),
        WalkState::initial(root).answered_by(s, second),
        WalkState::initial(root).replay(second).finished(),
    ensures
        WalkState::initial(root).replay(first).settled().outcome() == WalkState::initial(
            root,
        ).replay(second).settled().outcome(),
{
    lemma_walker_exact(s, root, first);
    lemma_walker_exact(s, root, second);
}

} // verus!

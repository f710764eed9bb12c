use repo_walker::commit_walk::{CommitData, CommitRecord};
use repo_walker::memory::{object_mentions, MemoryStore, Object};
use repo_walker::object::{
    EntryKind, MalformedObjectError, ObjectId, ObjectKind, ResolutionError, TreeEntry, WalkError,
};

fn oid(n: u8) -> ObjectId {
    ObjectId { bytes: [n; 20] }
}

fn blob_entry(n: u8) -> TreeEntry {
    TreeEntry { id: oid(n), kind: EntryKind::Blob }
}

fn tree_entry(n: u8) -> TreeEntry {
    TreeEntry { id: oid(n), kind: EntryKind::Tree }
}

fn commit(summary: Option<&str>, tree: u8, parent: Option<u8>) -> Object {
    Object::Commit {
        data: CommitData {
            summary: summary.map(|s| s.to_string()),
            tree: oid(tree),
            first_parent: parent.map(oid),
        },
    }
}

fn record(summary: &str, tree: u8) -> CommitRecord {
    CommitRecord { summary: summary.to_string(), tree: oid(tree) }
}

#[test]
fn blob_and_subtree_report_both_sizes() {
    let mut store = MemoryStore::new();
    assert!(store.insert(oid(1), Object::Blob { size: 42 }));
    assert!(store.insert(oid(2), Object::Blob { size: 7 }));
    assert!(store.insert(oid(3), Object::Tree { entries: vec![blob_entry(2)] }));
    assert!(store.insert(oid(4), Object::Tree { entries: vec![blob_entry(1), tree_entry(3)] }));

    let walker = store.walk_tree(oid(4));
    assert_eq!(walker.failure(), None);
    assert_eq!(walker.sizes(), &vec![42u64, 7]);
    assert_eq!(walker.trees(), &vec![oid(4), oid(3)]);
    assert!(walker.skipped().is_empty());
    assert_eq!(walker.into_result(), Ok(vec![42u64, 7]));
}

#[test]
fn walk_is_depth_first_in_entry_order() {
    let mut store = MemoryStore::new();
    for (n, size) in [(1u8, 10u64), (2, 20), (3, 30), (4, 40)] {
        assert!(store.insert(oid(n), Object::Blob { size }));
    }
    assert!(store.insert(oid(10), Object::Tree { entries: vec![blob_entry(3), blob_entry(4)] }));
    assert!(store.insert(oid(11), Object::Tree { entries: vec![] }));
    assert!(store.insert(
        oid(12),
        Object::Tree { entries: vec![blob_entry(1), tree_entry(10), tree_entry(11), blob_entry(2)] }
    ));
    let walker = store.walk_tree(oid(12));
    assert_eq!(walker.sizes(), &vec![10u64, 30, 40, 20]);
    assert_eq!(walker.trees(), &vec![oid(12), oid(10), oid(11)]);
    assert_eq!(walker.failure(), None);
}

#[test]
fn blob_reached_twice_is_reported_twice() {
    let mut store = MemoryStore::new();
    assert!(store.insert(oid(1), Object::Blob { size: 5 }));
    assert!(store.insert(oid(2), Object::Tree { entries: vec![blob_entry(1)] }));
    assert!(store.insert(
        oid(3),
        Object::Tree { entries: vec![tree_entry(2), blob_entry(1), tree_entry(2)] }
    ));
    assert_eq!(store.walk_tree(oid(3)).into_result(), Ok(vec![5u64, 5, 5]));
}

#[test]
fn entries_of_other_kinds_are_skipped_without_error() {
    let mut store = MemoryStore::new();
    assert!(store.insert(oid(1), Object::Blob { size: 3 }));
    let link = TreeEntry { id: oid(99), kind: EntryKind::Other };
    assert!(store.insert(
        oid(2),
        Object::Tree { entries: vec![link, blob_entry(1), link] }
    ));
    let walker = store.walk_tree(oid(2));
    assert_eq!(walker.failure(), None);
    assert_eq!(walker.sizes(), &vec![3u64]);
    assert_eq!(walker.skipped(), &vec![oid(99), oid(99)]);
}

#[test]
fn absent_entry_fails_fast_with_its_id() {
    let mut store = MemoryStore::new();
    assert!(store.insert(oid(1), Object::Blob { size: 1 }));
    assert!(store.insert(oid(2), Object::Blob { size: 2 }));
    assert!(store.insert(
        oid(3),
        Object::Tree { entries: vec![blob_entry(1), tree_entry(77), blob_entry(2)] }
    ));
    let walker = store.walk_tree(oid(3));
    assert_eq!(
        walker.failure(),
        Some(ResolutionError { id: oid(77), expected: ObjectKind::Tree })
    );
    // what came before the failure was reported; nothing after it was visited
    assert_eq!(walker.sizes(), &vec![1u64]);
    assert_eq!(
        walker.into_result(),
        Err(ResolutionError { id: oid(77), expected: ObjectKind::Tree })
    );
}

#[test]
fn absent_blob_fails_with_kind_blob() {
    let mut store = MemoryStore::new();
    assert!(store.insert(oid(3), Object::Tree { entries: vec![blob_entry(50)] }));
    assert_eq!(
        store.walk_tree(oid(3)).into_result(),
        Err(ResolutionError { id: oid(50), expected: ObjectKind::Blob })
    );
}

#[test]
fn entry_of_the_wrong_kind_does_not_resolve() {
    let mut store = MemoryStore::new();
    assert!(store.insert(oid(1), Object::Blob { size: 1 }));
    assert!(store.insert(oid(2), Object::Tree { entries: vec![] }));
    // a tree entry that names a blob, and a blob entry that names a tree
    assert!(store.insert(oid(3), Object::Tree { entries: vec![tree_entry(1)] }));
    assert!(store.insert(oid(4), Object::Tree { entries: vec![blob_entry(2)] }));
    assert_eq!(
        store.walk_tree(oid(3)).failure(),
        Some(ResolutionError { id: oid(1), expected: ObjectKind::Tree })
    );
    assert_eq!(
        store.walk_tree(oid(4)).failure(),
        Some(ResolutionError { id: oid(2), expected: ObjectKind::Blob })
    );
    // and a walk that starts on a blob
    assert_eq!(
        store.walk_tree(oid(1)).failure(),
        Some(ResolutionError { id: oid(1), expected: ObjectKind::Tree })
    );
}

#[test]
fn empty_tree_reports_nothing() {
    let mut store = MemoryStore::new();
    assert!(store.insert(oid(1), Object::Tree { entries: vec![] }));
    let walker = store.walk_tree(oid(1));
    assert_eq!(walker.trees(), &vec![oid(1)]);
    assert_eq!(walker.into_result(), Ok(vec![]));
}

#[test]
fn three_commit_chain_in_memory() {
    let mut store = MemoryStore::new();
    for t in [11u8, 12, 13] {
        assert!(store.insert(oid(t), Object::Tree { entries: vec![] }));
    }
    assert!(store.insert(oid(1), commit(Some("root"), 11, None)));
    assert!(store.insert(oid(2), commit(Some("mid"), 12, Some(1))));
    assert!(store.insert(oid(3), commit(Some("tip"), 13, Some(2))));

    let walker = store.walk_commits(oid(3));
    assert_eq!(walker.failure(), None);
    assert_eq!(
        walker.records(),
        &vec![record("tip", 13), record("mid", 12), record("root", 11)]
    );
    // depth 2: three records; from the middle, depth 1; from the root, depth 0
    assert_eq!(store.walk_commits(oid(2)).records().len(), 2);
    assert_eq!(store.walk_commits(oid(1)).into_result(), Ok(vec![record("root", 11)]));
}

#[test]
fn commit_without_readable_summary_is_malformed() {
    let mut store = MemoryStore::new();
    assert!(store.insert(oid(11), Object::Tree { entries: vec![] }));
    assert!(store.insert(oid(1), commit(None, 11, None)));
    assert!(store.insert(oid(2), commit(Some("tip"), 11, Some(1))));
    let walker = store.walk_commits(oid(2));
    assert_eq!(walker.records(), &vec![record("tip", 11)]);
    assert_eq!(
        walker.failure(),
        Some(WalkError::Malformed(MalformedObjectError { id: oid(1) }))
    );
}

#[test]
fn commit_whose_tree_is_absent_fails_before_it_is_reported() {
    let mut store = MemoryStore::new();
    assert!(store.insert(oid(11), Object::Tree { entries: vec![] }));
    assert!(store.insert(oid(1), commit(Some("root"), 40, None)));
    assert!(store.insert(oid(2), commit(Some("tip"), 11, Some(1))));
    let walker = store.walk_commits(oid(2));
    assert_eq!(walker.records(), &vec![record("tip", 11)]);
    assert_eq!(
        walker.failure(),
        Some(WalkError::Resolution(ResolutionError { id: oid(40), expected: ObjectKind::Tree }))
    );
}

#[test]
fn absent_parent_is_an_error_not_the_end() {
    let mut store = MemoryStore::new();
    assert!(store.insert(oid(11), Object::Tree { entries: vec![] }));
    assert!(store.insert(oid(2), commit(Some("tip"), 11, Some(1))));
    let walker = store.walk_commits(oid(2));
    assert_eq!(walker.records(), &vec![record("tip", 11)]);
    assert_eq!(
        walker.into_result(),
        Err(WalkError::Resolution(ResolutionError { id: oid(1), expected: ObjectKind::Commit }))
    );
}

#[test]
fn walks_are_repeatable() {
    let mut store = MemoryStore::new();
    assert!(store.insert(oid(1), Object::Blob { size: 9 }));
    assert!(store.insert(oid(2), Object::Tree { entries: vec![blob_entry(1), tree_entry(8)] }));
    assert!(store.insert(oid(3), commit(Some("only"), 2, None)));
    let first = store.walk_tree(oid(2));
    let second = store.walk_tree(oid(2));
    assert_eq!(first.sizes(), second.sizes());
    assert_eq!(first.failure(), second.failure());
    assert_eq!(store.walk_commits(oid(3)).into_result(), store.walk_commits(oid(3)).into_result());
}

#[test]
fn store_refuses_what_could_close_a_cycle() {
    let mut store = MemoryStore::new();
    assert!(store.insert(oid(1), Object::Blob { size: 1 }));
    // the id is taken
    assert!(!store.insert(oid(1), Object::Blob { size: 2 }));
    assert_eq!(store.blob_size(&oid(1)), Some(1));
    // an object that points to itself
    assert!(!store.insert(oid(2), Object::Tree { entries: vec![tree_entry(2)] }));
    assert!(!store.insert(oid(2), commit(Some("loop"), 1, Some(2))));
    assert!(!store.contains(&oid(2)));
    // an id that a stored object already points to cannot be filled in
    assert!(store.insert(oid(3), Object::Tree { entries: vec![tree_entry(4)] }));
    assert!(store.mentions(&oid(4)));
    assert!(!store.insert(oid(4), Object::Tree { entries: vec![tree_entry(3)] }));
    assert!(!store.insert(oid(4), Object::Blob { size: 4 }));
    assert_eq!(
        store.walk_tree(oid(3)).failure(),
        Some(ResolutionError { id: oid(4), expected: ObjectKind::Tree })
    );
}

#[test]
fn lookups_tell_the_kinds_apart() {
    let mut store = MemoryStore::new();
    assert!(store.insert(oid(1), Object::Blob { size: 6 }));
    assert!(store.insert(oid(2), Object::Tree { entries: vec![blob_entry(1)] }));
    assert!(store.insert(oid(3), commit(Some("c"), 2, None)));
    assert_eq!(store.blob_size(&oid(1)), Some(6));
    assert_eq!(store.blob_size(&oid(2)), None);
    assert_eq!(store.blob_size(&oid(9)), None);
    assert_eq!(store.tree_entries(&oid(2)), Some(vec![blob_entry(1)]));
    assert_eq!(store.tree_entries(&oid(1)), None);
    assert!(store.has_tree(&oid(2)));
    assert!(!store.has_tree(&oid(3)));
    assert_eq!(
        store.commit(&oid(3)),
        Some(CommitData { summary: Some("c".to_string()), tree: oid(2), first_parent: None })
    );
    assert_eq!(store.commit(&oid(2)), None);
    assert!(store.contains(&oid(3)));
    assert!(!store.contains(&oid(4)));
    assert!(store.mentions(&oid(1)));
    assert!(!store.mentions(&oid(2)));
}

#[test]
fn object_mentions_what_it_points_to() {
    let tree = Object::Tree { entries: vec![blob_entry(1), tree_entry(2)] };
    assert!(object_mentions(&tree, &oid(1)));
    assert!(object_mentions(&tree, &oid(2)));
    assert!(!object_mentions(&tree, &oid(3)));
    assert!(object_mentions(&commit(Some("c"), 5, Some(6)), &oid(6)));
    assert!(!object_mentions(&commit(Some("c"), 5, Some(6)), &oid(5)));
    assert!(!object_mentions(&commit(Some("c"), 5, None), &oid(5)));
    assert!(!object_mentions(&Object::Blob { size: 1 }, &oid(1)));
}

use repo_walker::commit_walk::{CommitData, CommitDemand, CommitRecord, CommitWalker};
use repo_walker::object::{
    EntryKind, MalformedObjectError, ObjectId, ObjectKind, RawEntry, ResolutionError, TreeEntry,
    WalkError,
};
use repo_walker::tree_walk::{Demand, TreeWalker};

fn id(n: u8) -> ObjectId {
    ObjectId { bytes: [n; 20] }
}

fn entry(n: u8, kind: EntryKind) -> TreeEntry {
    TreeEntry { id: id(n), kind }
}

#[test]
fn ids_are_compared_byte_for_byte() {
    let mut other = [5u8; 20];
    assert!(id(5).same(&ObjectId { bytes: other }));
    other[19] = 6;
    assert!(!id(5).same(&ObjectId { bytes: other }));
    other[19] = 5;
    other[0] = 4;
    assert!(!id(5).same(&ObjectId { bytes: other }));
    assert!(!id(0).same(&id(1)));
}

#[test]
fn entry_kinds_are_blob_tree_or_other() {
    assert_eq!(EntryKind::classify(Some(ObjectKind::Blob)), EntryKind::Blob);
    assert_eq!(EntryKind::classify(Some(ObjectKind::Tree)), EntryKind::Tree);
    assert_eq!(EntryKind::classify(Some(ObjectKind::Commit)), EntryKind::Other);
    assert_eq!(EntryKind::classify(Some(ObjectKind::Tag)), EntryKind::Other);
    assert_eq!(EntryKind::classify(Some(ObjectKind::Any)), EntryKind::Other);
    assert_eq!(EntryKind::classify(None), EntryKind::Other);
    assert_eq!(
        TreeEntry::from_raw(RawEntry { id: id(3), kind: Some(ObjectKind::Tree) }),
        entry(3, EntryKind::Tree)
    );
    assert_eq!(
        TreeEntry::from_raw(RawEntry { id: id(4), kind: None }),
        entry(4, EntryKind::Other)
    );
}

#[test]
fn tree_walker_asks_for_the_root_first() {
    let mut walker = TreeWalker::start(id(1));
    assert_eq!(walker.demand(), Some(Demand::Tree(id(1))));
    assert_eq!(walker.demand(), Some(Demand::Tree(id(1))));
    assert!(walker.sizes().is_empty());
    assert!(walker.trees().is_empty());
    assert_eq!(walker.failure(), None);
}

#[test]
fn tree_walker_visits_entries_first_to_last() {
    let mut walker = TreeWalker::start(id(1));
    walker.supply_tree(Some(vec![
        entry(2, EntryKind::Blob),
        entry(3, EntryKind::Other),
        entry(4, EntryKind::Tree),
        entry(5, EntryKind::Blob),
    ]));
    assert_eq!(walker.trees(), &vec![id(1)]);
    assert_eq!(walker.demand(), Some(Demand::Blob(id(2))));
    walker.supply_blob(Some(20));
    assert_eq!(walker.demand(), Some(Demand::Tree(id(4))));
    assert_eq!(walker.skipped(), &vec![id(3)]);
    walker.supply_tree(Some(vec![entry(6, EntryKind::Blob)]));
    assert_eq!(walker.demand(), Some(Demand::Blob(id(6))));
    walker.supply_blob(Some(60));
    assert_eq!(walker.demand(), Some(Demand::Blob(id(5))));
    walker.supply_blob(Some(50));
    assert_eq!(walker.demand(), None);
    assert_eq!(walker.sizes(), &vec![20u64, 60, 50]);
    assert_eq!(walker.trees(), &vec![id(1), id(4)]);
    assert_eq!(walker.into_result(), Ok(vec![20u64, 60, 50]));
}

#[test]
fn tree_walker_stops_at_the_first_failure() {
    let mut walker = TreeWalker::start(id(1));
    walker.supply_tree(Some(vec![entry(2, EntryKind::Blob), entry(3, EntryKind::Blob)]));
    walker.supply_blob(None);
    assert_eq!(walker.demand(), None);
    assert_eq!(
        walker.failure(),
        Some(ResolutionError { id: id(2), expected: ObjectKind::Blob })
    );
    // a walk that failed takes no more answers
    walker.supply_blob(Some(1));
    walker.supply_tree(Some(vec![]));
    assert!(walker.sizes().is_empty());
    assert_eq!(walker.trees(), &vec![id(1)]);
    assert_eq!(
        walker.into_result(),
        Err(ResolutionError { id: id(2), expected: ObjectKind::Blob })
    );
}

#[test]
fn tree_walker_ignores_an_answer_it_did_not_ask_for() {
    let mut walker = TreeWalker::start(id(1));
    walker.supply_blob(Some(9));
    assert_eq!(walker.demand(), Some(Demand::Tree(id(1))));
    assert!(walker.sizes().is_empty());
    walker.supply_tree(Some(vec![entry(2, EntryKind::Blob)]));
    walker.supply_tree(Some(vec![entry(3, EntryKind::Blob)]));
    assert_eq!(walker.demand(), Some(Demand::Blob(id(2))));
    walker.supply_blob(Some(2));
    walker.supply_blob(Some(3));
    assert_eq!(walker.demand(), None);
    assert_eq!(walker.sizes(), &vec![2u64]);
}

#[test]
fn tree_walker_fails_on_an_absent_root() {
    let mut walker = TreeWalker::start(id(1));
    walker.supply_tree(None);
    assert_eq!(
        walker.failure(),
        Some(ResolutionError { id: id(1), expected: ObjectKind::Tree })
    );
    assert!(walker.trees().is_empty());
}

fn data(summary: Option<&str>, tree: u8, parent: Option<u8>) -> CommitData {
    CommitData {
        summary: summary.map(|s| s.to_string()),
        tree: id(tree),
        first_parent: parent.map(id),
    }
}

#[test]
fn commit_walker_reports_a_commit_once_its_tree_resolved() {
    let mut walker = CommitWalker::start(id(9));
    assert_eq!(walker.demand(), Some(CommitDemand::Commit(id(9))));
    walker.supply_commit(Some(data(Some("tip"), 19, Some(8))));
    assert!(walker.records().is_empty());
    assert_eq!(walker.demand(), Some(CommitDemand::Tree(id(19))));
    walker.supply_tree(true);
    assert_eq!(walker.records(), &vec![CommitRecord { summary: "tip".to_string(), tree: id(19) }]);
    assert_eq!(walker.demand(), Some(CommitDemand::Commit(id(8))));
    walker.supply_commit(Some(data(Some("root"), 18, None)));
    walker.supply_tree(true);
    assert_eq!(walker.demand(), None);
    assert_eq!(walker.failure(), None);
    assert_eq!(walker.records().len(), 2);
}

#[test]
fn commit_walker_tells_its_errors_apart() {
    let mut absent = CommitWalker::start(id(9));
    absent.supply_commit(None);
    assert_eq!(
        absent.failure(),
        Some(WalkError::Resolution(ResolutionError { id: id(9), expected: ObjectKind::Commit }))
    );
    assert_eq!(absent.demand(), None);

    let mut malformed = CommitWalker::start(id(9));
    malformed.supply_commit(Some(data(None, 19, None)));
    assert_eq!(
        malformed.failure(),
        Some(WalkError::Malformed(MalformedObjectError { id: id(9) }))
    );

    let mut no_tree = CommitWalker::start(id(9));
    no_tree.supply_commit(Some(data(Some("tip"), 19, Some(8))));
    no_tree.supply_tree(false);
    assert_eq!(
        no_tree.failure(),
        Some(WalkError::Resolution(ResolutionError { id: id(19), expected: ObjectKind::Tree }))
    );
    assert!(no_tree.records().is_empty());
    assert_eq!(no_tree.demand(), None);
}

#[test]
fn commit_walker_ignores_an_answer_it_did_not_ask_for() {
    let mut walker = CommitWalker::start(id(9));
    walker.supply_tree(true);
    assert_eq!(walker.demand(), Some(CommitDemand::Commit(id(9))));
    walker.supply_commit(Some(data(Some("tip"), 19, None)));
    walker.supply_commit(Some(data(Some("other"), 20, Some(1))));
    assert_eq!(walker.demand(), Some(CommitDemand::Tree(id(19))));
    walker.supply_tree(true);
    walker.supply_tree(true);
    walker.supply_commit(Some(data(Some("late"), 21, None)));
    assert_eq!(walker.demand(), None);
    assert_eq!(
        walker.into_result(),
        Ok(vec![CommitRecord { summary: "tip".to_string(), tree: id(19) }])
    );
}

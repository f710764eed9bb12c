//! Walks over the object store of a git repository, read through `git2`.
//!
//! What a repository answers depends on what is on disk at the moment of the
//! call, so nothing here says which answer comes. A tree once read is a
//! value in memory: its entries are fixed.

use vstd::prelude::*;
use crate::commit_walk::{
    read, CommitAnswer, CommitData, CommitDemand, CommitWalker, HistoryState,
};
use crate::model::CommitModel;
use crate::object::{ObjectId, ObjectKind, RawEntry, TreeEntry};
use crate::tree_walk::{lemma_settled, listed, Answer, Demand, TreeWalker, WalkState};

verus! {

/// `git2::Repository`, a handle to a repository; opaque to the verifier.
#[verifier::external_type_specification]
#[verifier::external_body]
pub struct ExRepository(git2::Repository);

/// `git2::Error`, the error of a `git2` call; opaque to the verifier.
#[verifier::external_type_specification]
#[verifier::external_body]
pub struct ExGitError(git2::Error);

/// `git2::Tree`, a tree that was read from a repository; opaque to the
/// verifier.
#[verifier::external_type_specification]
#[verifier::external_body]
pub struct ExTree<'repo>(git2::Tree<'repo>);

/// `git2::Blob`, a blob that was read from a repository; opaque to the
/// verifier.
#[verifier::external_type_specification]
#[verifier::external_body]
pub struct ExBlob<'repo>(git2::Blob<'repo>);

/// `git2::Commit`, a commit that was read from a repository; opaque to the
/// verifier.
#[verifier::external_type_specification]
#[verifier::external_body]
pub struct ExCommit<'repo>(git2::Commit<'repo>);

/// `git2::Reference`, a reference of a repository; opaque to the verifier.
#[verifier::external_type_specification]
#[verifier::external_body]
pub struct ExReference<'repo>(git2::Reference<'repo>);

/// The size in bytes of a blob that was read from a repository.
pub uninterp spec fn blob_size_of(blob: git2::Blob) -> usize;

/// The entries of a tree that was read from a repository, in the order in
/// which the tree lists them.
pub uninterp spec fn tree_entries_of(tree: git2::Tree) -> Seq<RawEntry>;

/// The id of a tree that was read from a repository.
pub uninterp spec fn tree_id_of(tree: git2::Tree) -> ObjectId;

/// What a commit that was read from a repository holds.
pub uninterp spec fn commit_of(commit: git2::Commit) -> CommitModel;

/// The id of a commit that was read from a repository.
pub uninterp spec fn commit_id_of(commit: git2::Commit) -> ObjectId;

/// Why the starting point of a walk could not be had from the repository's
/// head.
#[derive(Clone, Copy, Debug, PartialEq, Eq, Structural)]
pub enum HeadError {
    /// The repository has no head that resolves to a reference.
    NoHead,
    /// The head does not lead to an object of the kind asked for.
    Peel { expected: ObjectKind },
}

/// `Repository::head`: the reference that the repository's head resolves
/// to, or the error of the lookup. Nothing is claimed of the outcome.
#[verifier::external_body]
fn repository_head<'r>(repo: &'r git2::Repository) -> (r: Result<
    git2::Reference<'r>,
    git2::Error,
>) {
    repo.head()
}

/// `Reference::peel_to_commit`: the commit that the reference leads to, or
/// the error of the lookup. Nothing is claimed of the outcome.
#[verifier::external_body]
fn peel_to_commit<'r>(reference: &git2::Reference<'r>) -> (r: Result<
    git2::Commit<'r>,
    git2::Error,
>) {
    reference.peel_to_commit()
}

/// `Reference::peel_to_tree`: the tree that the reference leads to, or the
/// error of the lookup. Nothing is claimed of the outcome.
#[verifier::external_body]
fn peel_to_tree<'r>(reference: &git2::Reference<'r>) -> (r: Result<git2::Tree<'r>, git2::Error>) {
    reference.peel_to_tree()
}

/// What a lookup of the head comes to: the reference that was found, or
/// `NoHead` where the lookup failed.
pub open spec fn head_outcome_of(found: Result<git2::Reference, git2::Error>) -> Result<
    git2::Reference,
    HeadError,
> {
    match found {
        Ok(reference) => Ok(reference),
        Err(_) => Err(HeadError::NoHead),
    }
}

/// What peeling the head to an object of kind `expected` comes to: the
/// object that was found, or `Peel` with that kind where the lookup failed.
pub open spec fn peel_outcome_of<T>(found: Result<T, git2::Error>, expected: ObjectKind) -> Result<
    T,
    HeadError,
> {
    match found {
        Ok(object) => Ok(object),
        Err(_) => Err(HeadError::Peel { expected }),
    }
}

/// Reads the outcome of a lookup of the head.
pub fn head_outcome<'r>(found: Result<git2::Reference<'r>, git2::Error>) -> (r: Result<
    git2::Reference<'r>,
    HeadError,
>)
    ensures
        r == head_outcome_of(found),
{
    match found {
        Ok(reference) => Ok(reference),
        Err(_) => Err(HeadError::NoHead),
    }
}

/// Reads the outcome of peeling the head to an object of kind `expected`.
pub fn peel_outcome<T>(found: Result<T, git2::Error>, expected: ObjectKind) -> (r: Result<
    T,
    HeadError,
>)
    ensures
        r == peel_outcome_of(found, expected),
{
    match found {
        Ok(object) => Ok(object),
        Err(_) => Err(HeadError::Peel { expected }),
    }
}

/// The commit at the repository's head.
pub fn head_commit<'r>(repo: &'r git2::Repository) -> (r: Result<git2::Commit<'r>, HeadError>)
    ensures
        r matches Err(HeadError::Peel { expected }) ==> expected == ObjectKind::Commit,
{
    match head_outcome(repository_head(repo)) {
        Err(error) => Err(error),
        Ok(reference) => peel_outcome(peel_to_commit(&reference), ObjectKind::Commit),
    }
}

/// The tree of the commit at the repository's head.
pub fn head_tree<'r>(repo: &'r git2::Repository) -> (r: Result<git2::Tree<'r>, HeadError>)
    ensures
        r matches Err(HeadError::Peel { expected }) ==> expected == ObjectKind::Tree,
{
    match head_outcome(repository_head(repo)) {
        Err(error) => Err(error),
        Ok(reference) => peel_outcome(peel_to_tree(&reference), ObjectKind::Tree),
    }
}

/// `Repository::find_blob`: the blob stored under `id`, or the error of the
/// lookup. Nothing is claimed of the outcome.
#[verifier::external_body]
fn find_blob<'r>(repo: &'r git2::Repository, id: ObjectId) -> (r: Result<
    git2::Blob<'r>,
    git2::Error,
>) {
    let oid = git2::Oid::from_bytes(&id.bytes)?;
    repo.find_blob(oid)
}

/// `Blob::size`: the size in bytes of the blob's content.
#[verifier::external_body]
fn blob_size(blob: &git2::Blob) -> (n: usize)
    ensures
        n == blob_size_of(*blob),
{
    blob.size()
}

/// `Repository::find_tree`: the tree stored under `id`, or the error of the
/// lookup. Nothing is claimed of the outcome.
#[verifier::external_body]
fn find_tree<'r>(repo: &'r git2::Repository, id: ObjectId) -> (r: Result<
    git2::Tree<'r>,
    git2::Error,
>) {
    let oid = git2::Oid::from_bytes(&id.bytes)?;
    repo.find_tree(oid)
}

/// `Tree::len`: the number of entries that the tree lists.
#[verifier::external_body]
fn tree_len(tree: &git2::Tree) -> (n: usize)
    ensures
        n == tree_entries_of(*tree).len(),
{
    tree.len()
}

/// `Tree::get`, then `TreeEntry::id` and `TreeEntry::kind`: the entry at
/// position `i`, which `get` has for every position under `len`.
#[verifier::external_body]
fn tree_entry(tree: &git2::Tree, i: usize) -> (raw: RawEntry)
    requires
        i < tree_entries_of(*tree).len(),
    ensures
        raw == tree_entries_of(*tree)[i as int],
{
    let entry = tree.get(i).unwrap();
    let kind = match entry.kind() {
        Some(git2::ObjectType::Any) => Some(ObjectKind::Any),
        Some(git2::ObjectType::Commit) => Some(ObjectKind::Commit),
        Some(git2::ObjectType::Tree) => Some(ObjectKind::Tree),
        Some(git2::ObjectType::Blob) => Some(ObjectKind::Blob),
        Some(git2::ObjectType::Tag) => Some(ObjectKind::Tag),
        None => None,
    };
    RawEntry { id: ObjectId { bytes: entry.id().as_bytes().try_into().unwrap() }, kind }
}

/// `Tree::id`: the id of the tree.
#[verifier::external_body]
fn tree_id(tree: &git2::Tree) -> (id: ObjectId)
    ensures
        id == tree_id_of(*tree),
{
    ObjectId { bytes: tree.id().as_bytes().try_into().unwrap() }
}

/// `Repository::find_commit`: the commit stored under `id`, or the error of
/// the lookup. Nothing is claimed of the outcome.
#[verifier::external_body]
fn find_commit<'r>(repo: &'r git2::Repository, id: ObjectId) -> (r: Result<
    git2::Commit<'r>,
    git2::Error,
>) {
    let oid = git2::Oid::from_bytes(&id.bytes)?;
    repo.find_commit(oid)
}

/// `Commit::id`: the id of the commit.
#[verifier::external_body]
fn commit_id(commit: &git2::Commit) -> (id: ObjectId)
    ensures
        id == commit_id_of(*commit),
{
    ObjectId { bytes: commit.id().as_bytes().try_into().unwrap() }
}

/// `Commit::summary`: the first paragraph of the message on one line, where
/// the commit has one and it is UTF-8; `None` otherwise.
#[verifier::external_body]
fn commit_summary(commit: &git2::Commit) -> (summary: Option<String>)
    ensures
        commit_of(*commit).summary == match summary {
            Some(text) => Some(text@),
            None => None,
        },
{
    commit.summary().ok().flatten().map(|text| text.to_owned())
}

/// `Commit::tree_id`: the id of the tree that the commit points to.
#[verifier::external_body]
fn commit_tree_id(commit: &git2::Commit) -> (id: ObjectId)
    ensures
        id == commit_of(*commit).tree,
{
    ObjectId { bytes: commit.tree_id().as_bytes().try_into().unwrap() }
}

/// `Commit::parent_id` at index 0: the id of the first parent, which the
/// call has exactly where the commit has a parent.
#[verifier::external_body]
fn commit_first_parent(commit: &git2::Commit) -> (parent: Option<ObjectId>)
    ensures
        parent == commit_of(*commit).first_parent,
{
    commit.parent_id(0).ok().map(|oid| ObjectId { bytes: oid.as_bytes().try_into().unwrap() })
}

/// The entries of a tree that was read from a repository, as a walk sees
/// them.
pub fn list_tree(tree: &git2::Tree) -> (entries: Vec<TreeEntry>)
    ensures
        entries@ == TreeEntry::list_of(tree_entries_of(*tree)),
{
    let n = tree_len(tree);
    let mut entries: Vec<TreeEntry> = Vec::new();
    let mut i: usize = 0;
    while i < n
        invariant
            n == tree_entries_of(*tree).len(),
            i <= n,
            entries@ == TreeEntry::list_of(tree_entries_of(*tree).take(i as int)),
        decreases n - i,
    {
        let raw = tree_entry(tree, i);
        entries.push(TreeEntry::from_raw(raw));
        i += 1;
    }
    proof {
        assert(tree_entries_of(*tree).take(n as int) =~= tree_entries_of(*tree));
    }
    entries
}

/// The answer to a demand for a blob that a lookup comes to: the size of
/// the blob that was found, or `None` where the lookup failed.
pub open spec fn blob_answer_of(found: Result<git2::Blob, git2::Error>) -> Option<u64> {
    match found {
        Ok(blob) => Some(blob_size_of(blob) as u64),
        Err(_) => None,
    }
}

/// The answer to a demand for a tree that a lookup comes to: the entries of
/// the tree that was found, as a walk sees them, or `None` where the lookup
/// failed.
pub open spec fn tree_answer_of(found: Result<git2::Tree, git2::Error>) -> Option<
    Seq<TreeEntry>,
> {
    match found {
        Ok(tree) => Some(TreeEntry::list_of(tree_entries_of(tree))),
        Err(_) => None,
    }
}

/// Reads the answer to a demand for a blob off the outcome of a lookup.
pub fn blob_answer(found: Result<git2::Blob, git2::Error>) -> (size: Option<u64>)
    ensures
        size == blob_answer_of(found),
{
    match found {
        Ok(blob) => Some(blob_size(&blob) as u64),
        Err(_) => None,
    }
}

/// Reads the answer to a demand for a tree off the outcome of a lookup.
pub fn tree_answer(found: Result<git2::Tree, git2::Error>) -> (entries: Option<Vec<TreeEntry>>)
    ensures
        listed(entries) == tree_answer_of(found),
{
    match found {
        Ok(tree) => Some(list_tree(&tree)),
        Err(_) => None,
    }
}

/// Whether a lookup found its tree.
pub fn tree_found(found: Result<git2::Tree, git2::Error>) -> (r: bool)
    ensures
        r == (found is Ok),
{
    match found {
        Ok(_) => true,
        Err(_) => false,
    }
}

/// The size of the blob that the repository holds under `id`, if it holds
/// one.
pub fn resolve_blob(repo: &git2::Repository, id: ObjectId) -> (size: Option<u64>) {
    blob_answer(find_blob(repo, id))
}

/// The entries of the tree that the repository holds under `id`, if it
/// holds one.
pub fn resolve_tree(repo: &git2::Repository, id: ObjectId) -> (entries: Option<Vec<TreeEntry>>) {
    tree_answer(find_tree(repo, id))
}

/// Takes a tree walk one resolution further: passes over the entries that
/// need none, asks the repository for the object the walk needs next, and
/// hands the walker the answer. Returns whether the walk goes on.
///
/// Whatever the repository said, the walker took it as an answer; a walk
/// that goes on has one more blob size or one more tree in its logs.
pub fn advance_tree_walk(repo: &git2::Repository, walker: &mut TreeWalker) -> (more: bool)
    ensures
        exists|answer: Answer| final(walker)@ == old(walker)@.settled().fed(answer),
        !more ==> final(walker)@.finished(),
        more ==> final(walker)@.sizes.len() + final(walker)@.trees.len() == old(walker)@.sizes.len()
            + old(walker)@.trees.len() + 1,
{
    proof {
        lemma_settled(walker@);
    }
    let demand = walker.demand();
    match demand {
        None => {
            proof {
                assert(walker@ == old(walker)@.settled().fed(Answer::Blob(None)));
            }
            false
        },
        Some(Demand::Blob(id)) => {
            let size = resolve_blob(repo, id);
            walker.supply_blob(size);
            proof {
                assert(walker@ == old(walker)@.settled().fed(Answer::Blob(size)));
            }
            size.is_some()
        },
        Some(Demand::Tree(id)) => {
            let entries = resolve_tree(repo, id);
            let ghost answer = listed(entries);
            let found = entries.is_some();
            walker.supply_tree(entries);
            proof {
                assert(walker@ == old(walker)@.settled().fed(Answer::Tree(answer)));
            }
            found
        },
    }
}

/// Walks the tree that the repository holds under `root`, depth first, to
/// the end or to the first id that does not resolve.
///
/// The walker that comes back asks for nothing more, and got there from
/// its start on `root` by the answers the repository gave.
pub fn walk_tree(repo: &git2::Repository, root: ObjectId) -> (walker: TreeWalker)
    ensures
        walker@.finished(),
        exists|answers: Seq<Answer>| walker@ == WalkState::initial(root).replay(answers),
{
    let mut walker = TreeWalker::start(root);
    finish_tree_walk(repo, &mut walker);
    walker
}

/// Walks a tree that was read from the repository, depth first, to the end
/// or to the first id that does not resolve.
///
/// The walker that comes back asks for nothing more. It started on the
/// tree's id, took the tree's own entries as the first answer, and the
/// repository's answers after that.
pub fn expand_tree(repo: &git2::Repository, tree: &git2::Tree) -> (walker: TreeWalker)
    ensures
        walker@.finished(),
        exists|answers: Seq<Answer>|
            walker@ == WalkState::initial(tree_id_of(*tree)).fed(
                Answer::Tree(Some(TreeEntry::list_of(tree_entries_of(*tree)))),
            ).replay(answers),
{
    let mut walker = TreeWalker::start(tree_id(tree));
    walker.supply_tree(Some(list_tree(tree)));
    finish_tree_walk(repo, &mut walker);
    walker
}

/// Runs a tree walk to its end against the repository.
pub fn finish_tree_walk(repo: &git2::Repository, walker: &mut TreeWalker)
    ensures
        final(walker)@.finished(),
        exists|answers: Seq<Answer>| final(walker)@ == old(walker)@.replay(answers),
{
    let ghost mut answers: Seq<Answer> = Seq::empty();
    // Each step that goes on adds to one of the walker's logs, and a log
    // holds no more items than memory has room for: the walk ends.
    loop
        invariant
            walker@ == old(walker)@.replay(answers),
        ensures
            walker@.finished(),
            walker@ == old(walker)@.replay(answers),
        decreases 2 * usize::MAX - walker@.sizes.len() - walker@.trees.len(),
    {
        let ghost before = walker@;
        let ghost so_far = answers;
        let more = advance_tree_walk(repo, walker);
        proof {
            let answer = choose|answer: Answer| walker@ == before.settled().fed(answer);
            answers = so_far.push(answer);
            assert(answers.drop_last() =~= so_far);
            walker.lemma_logs_bounded();
        }
        if !more {
            break ;
        }
    }
}

/// What a walk reads of a commit that was read from a repository.
pub fn read_commit(commit: &git2::Commit) -> (data: CommitData)
    ensures
        data@ == commit_of(*commit),
{
    CommitData {
        summary: commit_summary(commit),
        tree: commit_tree_id(commit),
        first_parent: commit_first_parent(commit),
    }
}

/// The answer to a demand for a commit that a lookup comes to: what a walk
/// reads of the commit that was found, or `None` where the lookup failed.
pub open spec fn commit_answer_of(found: Result<git2::Commit, git2::Error>) -> Option<
    CommitModel,
> {
    match found {
        Ok(commit) => Some(commit_of(commit)),
        Err(_) => None,
    }
}

/// Reads the answer to a demand for a commit off the outcome of a lookup.
pub fn commit_answer(found: Result<git2::Commit, git2::Error>) -> (data: Option<CommitData>)
    ensures
        read(data) == commit_answer_of(found),
{
    match found {
        Ok(commit) => Some(read_commit(&commit)),
        Err(_) => None,
    }
}

/// What a walk reads of the commit that the repository holds under `id`,
/// if it holds one.
pub fn resolve_commit(repo: &git2::Repository, id: ObjectId) -> (data: Option<CommitData>) {
    commit_answer(find_commit(repo, id))
}

/// Whether the repository holds a tree under `id`.
pub fn tree_resolves(repo: &git2::Repository, id: ObjectId) -> (found: bool) {
    tree_found(find_tree(repo, id))
}

/// A commit walk went one step on: it reported one more commit, or it took
/// hold of a commit that awaits its tree.
pub open spec fn held_or_reported(before: HistoryState, after: HistoryState) -> bool {
    ||| after.records.len() == before.records.len() + 1
    ||| (after.records.len() == before.records.len() && before.held is None && after.held is Some)
}

/// Takes a commit walk one resolution further: asks the repository for the
/// object the walk needs next and hands the walker the answer. Returns
/// whether the walk goes on.
///
/// Whatever the repository said, the walker took it as an answer; a walk
/// that goes on has one more record, or holds a commit that awaits its tree.
pub fn advance_commit_walk(repo: &git2::Repository, walker: &mut CommitWalker) -> (more: bool)
    ensures
        exists|answer: CommitAnswer| final(walker)@ == old(walker)@.fed(answer),
        !more ==> final(walker)@.finished(),
        more ==> held_or_reported(old(walker)@, final(walker)@),
{
    match walker.demand() {
        None => {
            proof {
                assert(walker@ == old(walker)@.fed(CommitAnswer::Tree(false)));
            }
            false
        },
        Some(CommitDemand::Commit(id)) => {
            let data = resolve_commit(repo, id);
            let ghost answer = read(data);
            walker.supply_commit(data);
            proof {
                assert(walker@ == old(walker)@.fed(CommitAnswer::Commit(answer)));
            }
            walker.demand().is_some()
        },
        Some(CommitDemand::Tree(id)) => {
            let found = tree_resolves(repo, id);
            walker.supply_tree(found);
            proof {
                assert(walker@ == old(walker)@.fed(CommitAnswer::Tree(found)));
            }
            found
        },
    }
}

/// Runs a commit walk to its end against the repository.
pub fn finish_commit_walk(repo: &git2::Repository, walker: &mut CommitWalker)
    ensures
        final(walker)@.finished(),
        exists|answers: Seq<CommitAnswer>| final(walker)@ == old(walker)@.replay(answers),
{
    let ghost mut answers: Seq<CommitAnswer> = Seq::empty();
    // Each step that goes on takes hold of a commit or adds a record, and
    // the records are no more than memory has room for: the walk ends.
    loop
        invariant
            walker@ == old(walker)@.replay(answers),
        ensures
            walker@.finished(),
            walker@ == old(walker)@.replay(answers),
        decreases
                usize::MAX - walker@.records.len(),
                (if walker@.held is Some {
                    0int
                } else {
                    1int
                }),
    {
        let ghost before = walker@;
        let ghost so_far = answers;
        let more = advance_commit_walk(repo, walker);
        proof {
            let answer = choose|answer: CommitAnswer| walker@ == before.fed(answer);
            answers = so_far.push(answer);
            assert(answers.drop_last() =~= so_far);
            walker.lemma_log_bounded();
        }
        if !more {
            break ;
        }
    }
}

/// Walks the first-parent chain from the commit that the repository holds
/// under `start`, to the commit without a parent or to the first failure.
///
/// The walker that comes back asks for nothing more, and got there from
/// its start on `start` by the answers the repository gave.
pub fn walk_commits(repo: &git2::Repository, start: ObjectId) -> (walker: CommitWalker)
    ensures
        walker@.finished(),
        exists|answers: Seq<CommitAnswer>|
            walker@ == HistoryState::initial(start).replay(answers),
{
    let mut walker = CommitWalker::start(start);
    finish_commit_walk(repo, &mut walker);
    walker
}

/// Walks the first-parent chain from a commit that was read from the
/// repository.
///
/// The walker that comes back asks for nothing more. It started on the
/// commit's id, took the commit itself as the first answer, and the
/// repository's answers after that.
pub fn walk_history(repo: &git2::Repository, commit: &git2::Commit) -> (walker: CommitWalker)
    ensures
        walker@.finished(),
        exists|answers: Seq<CommitAnswer>|
            walker@ == HistoryState::initial(commit_id_of(*commit)).fed(
                CommitAnswer::Commit(Some(commit_of(*commit))),
            ).replay(answers),
{
    let mut walker = CommitWalker::start(commit_id(commit));
    walker.supply_commit(Some(read_commit(commit)));
    finish_commit_walk(repo, &mut walker);
    walker
}

} // verus!

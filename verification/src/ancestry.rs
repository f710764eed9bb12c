//! What a commit walk reports, measured against the first-parent chain: one
//! record for the start and one for each first-parent ancestor, down to the
//! commit that has no parent.

use vstd::prelude::*;
use crate::commit_walk::{lemma_commit_walk_step, lemma_walker_exact, CommitAnswer, HistoryState};
use crate::model::{RecordModel, StoreModel};
use crate::object::ObjectId;

verus! {

/// The commit reached from `start` by `k` steps to the first parent, if the
/// chain is that long.
pub open spec fn ancestor(s: StoreModel, start: ObjectId, k: nat) -> Option<ObjectId>
    decreases k,
{
    if k == 0 {
        Some(start)
    } else {
        match s.first_parent(start) {
            Some(parent) => ancestor(s, parent, (k - 1) as nat),
            None => None,
        }
    }
}

/// `start` has exactly `depth` first-parent ancestors: the chain reaches a
/// stored commit without a parent after `depth` steps.
pub open spec fn has_depth(s: StoreModel, start: ObjectId, depth: nat) -> bool {
    &&& ancestor(s, start, depth) is Some
    &&& s.commit(ancestor(s, start, depth)->0) is Some
    &&& s.first_parent(ancestor(s, start, depth)->0) is None
}

/// What a walk reports for the commit stored under `id`.
pub open spec fn record_of(s: StoreModel, id: ObjectId) -> RecordModel {
    RecordModel { summary: s.commit(id)->0.summary->0, tree: s.commit(id)->0.tree }
}

/// A walk from `start` that ends without error has reported one record for
/// `start` and one for each of its first-parent ancestors, newest first,
/// and no more: as many records as the depth of `start` plus one, the last
/// of them for the commit without a parent.
pub proof fn lemma_walk_reports_chain(s: StoreModel, start: ObjectId)
    requires
        s.wf(),
        s.commit_walk(start).failure is None,
    ensures
        s.commit_walk(start).records.len() >= 1,
        has_depth(s, start, (s.commit_walk(start).records.len() - 1) as nat),
        forall|k: nat|
            k < s.commit_walk(start).records.len() ==> (#[trigger] ancestor(s, start, k)) is Some
                && s.commit(ancestor(s, start, k)->0) is Some && s.commit_walk(
                start,
            ).records[k as int] == record_of(s, ancestor(s, start, k)->0),
    decreases s.rank[start],
{
    lemma_commit_walk_step(s, start);
    let records = s.commit_walk(start).records;
    let commit = s.commit(start)->0;
    match commit.first_parent {
        None => {
            assert(records =~= seq![record_of(s, start)]);
            assert(ancestor(s, start, 0) == Some(start));
        },
        Some(parent) => {
            assert(s.first_parent(start) == Some(parent));
            assert(s.commit(parent) is Some) by {
                lemma_commit_walk_step(s, parent);
            }
            lemma_walk_reports_chain(s, parent);
            let older = s.commit_walk(parent).records;
            assert(records =~= seq![record_of(s, start)] + older);
            assert(ancestor(s, start, 0) == Some(start));
            assert forall|k: nat| k < records.len() implies (#[trigger] ancestor(s, start, k))
                is Some && s.commit(ancestor(s, start, k)->0) is Some && records[k as int]
                == record_of(s, ancestor(s, start, k)->0) by {
                if k > 0 {
                    assert(ancestor(s, start, k) == ancestor(s, parent, (k - 1) as nat));
                    assert(records[k as int] == older[k - 1]);
                }
            }
            assert(ancestor(s, start, (records.len() - 1) as nat) == ancestor(
                s,
                parent,
                (older.len() - 1) as nat,
            ));
        },
    }
}

/// No commit has two depths.
pub proof fn lemma_depth_unique(s: StoreModel, start: ObjectId, a: nat, b: nat)
    requires
        has_depth(s, start, a),
        has_depth(s, start, b),
    ensures
        a == b,
    decreases a,
{
    if a > 0 && b > 0 {
        lemma_depth_unique(s, s.first_parent(start)->0, (a - 1) as nat, (b - 1) as nat);
    }
}

/// Two runs of the walker from one commit against one store, each answered
/// by the store throughout and run to its end, report the same.
pub proof fn lemma_commit_walk_repeatable(
    s: StoreModel,
    start: ObjectId,
    first: Seq<CommitAnswer>,
    second: Seq<CommitAnswer>,
)
    requires
        s.wf(),
        HistoryState::initial(start).answered_by(s, first),
        HistoryState::initial(start).replay(first).finished(),
        HistoryState::initial(start).answered_by(s, second),
        HistoryState::initial(start).replay(second).finished(),
    ensures
        HistoryState::initial(start).replay(first).outcome() == HistoryState::initial(
            start,
        ).replay(second).outcome(),
{
    lemma_walker_exact(s, start, first);
    lemma_walker_exact(s, start, second);
}

} // verus!

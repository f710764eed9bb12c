//! The commit walker: a walk along first parents, one resolution at a time.
//!
//! For each commit the walker asks for the commit, then for its tree, and
//! reports the commit's summary and the tree's id once both resolved. It
//! goes on to the first parent and ends at a commit that has none.

use vstd::prelude::*;
use crate::model::{CommitModel, CommitOutcome, RecordModel, StoreModel};
use crate::object::{MalformedObjectError, ObjectId, ObjectKind, ResolutionError, WalkError};

verus! {

/// What a walk reads of a commit.
#[derive(Clone, Debug, PartialEq, Eq)]
pub struct CommitData {
    /// The first line of the message, where the commit has a readable one.
    pub summary: Option<String>,
    pub tree: ObjectId,
    /// The first parent, where the commit has any parent.
    pub first_parent: Option<ObjectId>,
}

impl View for CommitData {
    type V = CommitModel;

    open spec fn view(&self) -> CommitModel {
        CommitModel {
            summary: match self.summary {
                Some(text) => Some(text@),
                None => None,
            },
            tree: self.tree,
            first_parent: self.first_parent,
        }
    }
}

/// What a walk reports for one commit.
#[derive(Clone, Debug, PartialEq, Eq)]
pub struct CommitRecord {
    pub summary: String,
    pub tree: ObjectId,
}

impl View for CommitRecord {
    type V = RecordModel;

    open spec fn view(&self) -> RecordModel {
        RecordModel { summary: self.summary@, tree: self.tree }
    }
}

/// The object a commit walker needs resolved before it can go on.
#[derive(Clone, Copy, Debug, PartialEq, Eq)]
pub enum CommitDemand {
    Commit(ObjectId),
    Tree(ObjectId),
}

/// What a store said to one demand of a commit walk.
pub enum CommitAnswer {
    /// The commit asked for, or `None` where none resolved.
    Commit(Option<CommitModel>),
    /// Whether the tree asked for resolved.
    Tree(bool),
}

/// The state of a commit walk.
pub struct HistoryState {
    /// The commit to visit once nothing is held: the start, or the first
    /// parent of the commit visited last.
    pub next: Option<ObjectId>,
    /// The record of a commit that resolved and whose tree has not yet.
    pub held: Option<RecordModel>,
    /// The records reported so far, newest commit first.
    pub records: Seq<RecordModel>,
    /// The error that ended the walk, if one did.
    pub failure: Option<WalkError>,
}

impl HistoryState {
    /// A walk that has the commit `start` ahead of it.
    pub open spec fn initial(start: ObjectId) -> HistoryState {
        HistoryState { next: Some(start), held: None, records: Seq::empty(), failure: None }
    }

    /// What the walk needs resolved next; `None` when it is over.
    pub open spec fn demand(self) -> Option<CommitDemand> {
        if self.failure is Some {
            None
        } else {
            match self.held {
                Some(record) => Some(CommitDemand::Tree(record.tree)),
                None => match self.next {
                    Some(id) => Some(CommitDemand::Commit(id)),
                    None => None,
                },
            }
        }
    }

    /// The walk has nothing more to ask for.
    pub open spec fn finished(self) -> bool {
        self.demand() is None
    }

    /// This state after the store answered the demand for a commit. A commit
    /// that did not resolve, or that has no readable summary, ends the walk.
    /// A state that asks for no commit stays as it is.
    pub open spec fn after_commit(self, answer: Option<CommitModel>) -> HistoryState {
        match self.demand() {
            Some(CommitDemand::Commit(id)) => match answer {
                None => HistoryState {
                    failure: Some(
                        WalkError::Resolution(
                            ResolutionError { id, expected: ObjectKind::Commit },
                        ),
                    ),
                    ..self
                },
                Some(commit) => match commit.summary {
                    None => HistoryState {
                        failure: Some(WalkError::Malformed(MalformedObjectError { id })),
                        ..self
                    },
                    Some(summary) => HistoryState {
                        next: commit.first_parent,
                        held: Some(RecordModel { summary, tree: commit.tree }),
                        ..self
                    },
                },
            },
            _ => self,
        }
    }

    /// This state after the store answered the demand for a tree. A tree
    /// that resolved lets the held record out; one that did not ends the
    /// walk. A state that asks for no tree stays as it is.
    pub open spec fn after_tree(self, found: bool) -> HistoryState {
        match self.demand() {
            Some(CommitDemand::Tree(id)) => if found {
                HistoryState { held: None, records: self.records.push(self.held->0), ..self }
            } else {
                HistoryState {
                    held: None,
                    failure: Some(
                        WalkError::Resolution(ResolutionError { id, expected: ObjectKind::Tree }),
                    ),
                    ..self
                }
            },
            _ => self,
        }
    }

    /// This state after one answer.
    pub open spec fn fed(self, answer: CommitAnswer) -> HistoryState {
        match answer {
            CommitAnswer::Commit(commit) => self.after_commit(commit),
            CommitAnswer::Tree(found) => self.after_tree(found),
        }
    }

    /// This state after a run of answers.
    pub open spec fn replay(self, answers: Seq<CommitAnswer>) -> HistoryState
        decreases answers.len(),
    {
        if answers.len() == 0 {
            self
        } else {
            self.replay(answers.drop_last()).fed(answers.last())
        }
    }

    /// The answer that the store `s` gives to what this state asks for.
    pub open spec fn answer_of(self, s: StoreModel) -> CommitAnswer {
        match self.demand() {
            Some(CommitDemand::Commit(id)) => CommitAnswer::Commit(s.commit(id)),
            Some(CommitDemand::Tree(id)) => CommitAnswer::Tree(s.tree_entries(id) is Some),
            None => CommitAnswer::Tree(false),
        }
    }

    /// Each of `answers` is what the store `s` says to the demand it met.
    pub open spec fn answered_by(self, s: StoreModel, answers: Seq<CommitAnswer>) -> bool {
        forall|k: int|
            0 <= k < answers.len() ==> (#[trigger] self.replay(answers.take(k))).finished()
                || answers[k] == self.replay(answers.take(k)).answer_of(s)
    }

    /// What the walk has reported so far.
    pub open spec fn outcome(self) -> CommitOutcome {
        CommitOutcome { records: self.records, failure: self.failure }
    }

    /// What the walk will have reported at its end if the store `s` answers
    /// every demand from here on.
    pub open spec fn forecast(self, s: StoreModel) -> CommitOutcome {
        if self.failure is Some {
            self.outcome()
        } else {
            match self.held {
                Some(record) => if s.tree_entries(record.tree) is None {
                    self.outcome().followed_by(
                        CommitOutcome::failed(
                            WalkError::Resolution(
                                ResolutionError { id: record.tree, expected: ObjectKind::Tree },
                            ),
                        ),
                    )
                } else {
                    self.outcome().followed_by(
                        CommitOutcome::one(record).followed_by(chain_walk(s, self.next)),
                    )
                },
                None => self.outcome().followed_by(chain_walk(s, self.next)),
            }
        }
    }
}

/// What a first-parent walk reports from `next` on; nothing where there is
/// no commit to go to.
pub open spec fn chain_walk(s: StoreModel, next: Option<ObjectId>) -> CommitOutcome {
    match next {
        Some(id) => s.commit_walk(id),
        None => CommitOutcome::done(),
    }
}

/// The records of a log, as the model sees them.
pub open spec fn records_of(log: Seq<CommitRecord>) -> Seq<RecordModel> {
    Seq::new(log.len(), |i: int| log[i]@)
}

/// The commit in an answer to a demand for a commit.
pub open spec fn read(answer: Option<CommitData>) -> Option<CommitModel> {
    match answer {
        Some(data) => Some(data@),
        None => None,
    }
}

/// A commit walk in progress.
pub struct CommitWalker {
    next: Option<ObjectId>,
    held: Option<CommitRecord>,
    records: Vec<CommitRecord>,
    failure: Option<WalkError>,
}

impl View for CommitWalker {
    type V = HistoryState;

    closed spec fn view(&self) -> HistoryState {
        HistoryState {
            next: self.next,
            held: match self.held {
                Some(record) => Some(record@),
                None => None,
            },
            records: records_of(self.records@),
            failure: self.failure,
        }
    }
}

impl CommitWalker {
    /// A walker about to walk from the commit `start`.
    pub fn start(start: ObjectId) -> (w: CommitWalker)
        ensures
            w@ == HistoryState::initial(start),
    {
        let w = CommitWalker { next: Some(start), held: None, records: Vec::new(), failure: None };
        assert(records_of(w.records@) =~= Seq::empty());
        w
    }

    /// Which object the walk needs next; `None` when the walk is over.
    pub fn demand(&self) -> (r: Option<CommitDemand>)
        ensures
            r == self@.demand(),
    {
        if self.failure.is_some() {
            return None;
        }
        match &self.held {
            Some(record) => Some(CommitDemand::Tree(record.tree)),
            None => match self.next {
                Some(id) => Some(CommitDemand::Commit(id)),
                None => None,
            },
        }
    }

    /// The records reported so far, newest commit first.
    pub fn records(&self) -> (r: &Vec<CommitRecord>)
        ensures
            records_of(r@) == self@.records,
    {
        &self.records
    }

    /// The error that ended the walk, if one did.
    pub fn failure(&self) -> (r: Option<WalkError>)
        ensures
            r == self@.failure,
    {
        self.failure
    }

    /// The records of a walk that ended without error, or the error.
    pub fn into_result(self) -> (r: Result<Vec<CommitRecord>, WalkError>)
        ensures
            match r {
                Ok(records) => self@.failure is None && records_of(records@) == self@.records,
                Err(error) => self@.failure == Some(error),
            },
    {
        match self.failure {
            Some(error) => Err(error),
            None => Ok(self.records),
        }
    }

    /// The log of a walker fits in memory.
    pub proof fn lemma_log_bounded(&self)
        ensures
            self@.records.len() <= usize::MAX,
    {
        vstd::std_specs::vec::axiom_spec_len(&self.records);
    }

    /// Takes the store's answer to a demand for a commit.
    pub fn supply_commit(&mut self, answer: Option<CommitData>)
        ensures
            final(self)@ == old(self)@.after_commit(read(answer)),
    {
        if self.failure.is_some() || self.held.is_some() {
            return ;
        }
        let id = match self.next {
            Some(id) => id,
            None => {
                return ;
            },
        };
        match answer {
            None => {
                self.failure = Some(
                    WalkError::Resolution(ResolutionError { id, expected: ObjectKind::Commit }),
                );
            },
            Some(data) => {
                match data.summary {
                    None => {
                        self.failure = Some(WalkError::Malformed(MalformedObjectError { id }));
                    },
                    Some(summary) => {
                        self.next = data.first_parent;
                        self.held = Some(CommitRecord { summary, tree: data.tree });
                    },
                }
            },
        }
    }

    /// Takes the store's answer to a demand for a tree: whether it resolved.
    pub fn supply_tree(&mut self, found: bool)
        ensures
            final(self)@ == old(self)@.after_tree(found),
    {
        if self.failure.is_some() {
            return ;
        }
        match self.held.take() {
            None => {},
            Some(record) => {
                if found {
                    let ghost before = self.records@;
                    self.records.push(record);
                    assert(records_of(self.records@) =~= records_of(before).push(record@));
                } else {
                    self.failure = Some(
                        WalkError::Resolution(
                            ResolutionError { id: record.tree, expected: ObjectKind::Tree },
                        ),
                    );
                }
            },
        }
    }
}

proof fn lemma_followed_by_done(a: CommitOutcome)
    ensures
        a.followed_by(CommitOutcome::done()) == a,
        CommitOutcome::done().followed_by(a) == a,
{
    assert(a.records + Seq::<RecordModel>::empty() =~= a.records);
    assert(Seq::<RecordModel>::empty() + a.records =~= a.records);
}

proof fn lemma_followed_by_assoc(a: CommitOutcome, b: CommitOutcome, c: CommitOutcome)
    ensures
        a.followed_by(b).followed_by(c) == a.followed_by(b.followed_by(c)),
{
    assert((a.records + b.records) + c.records =~= a.records + (b.records + c.records));
}

/// What a walk from a commit reports, by what the store holds under its id:
/// the commit's own record, then the walk from its first parent.
pub proof fn lemma_commit_walk_step(s: StoreModel, id: ObjectId)
    requires
        s.wf(),
    ensures
        s.commit_walk(id) == match s.commit(id) {
            None => CommitOutcome::failed(
                WalkError::Resolution(ResolutionError { id, expected: ObjectKind::Commit }),
            ),
            Some(c) => match c.summary {
                None => CommitOutcome::failed(WalkError::Malformed(MalformedObjectError { id })),
                Some(summary) => if s.tree_entries(c.tree) is None {
                    CommitOutcome::failed(
                        WalkError::Resolution(
                            ResolutionError { id: c.tree, expected: ObjectKind::Tree },
                        ),
                    )
                } else {
                    CommitOutcome::one(RecordModel { summary, tree: c.tree }).followed_by(
                        chain_walk(s, c.first_parent),
                    )
                },
            },
        },
{
    match s.commit(id) {
        Some(c) => {
            match c.summary {
                Some(summary) => {
                    let here = CommitOutcome::one(RecordModel { summary, tree: c.tree });
                    lemma_followed_by_done(here);
                    assert(s.first_parent(id) == c.first_parent);
                },
                None => {},
            }
        },
        None => {},
    }
}

/// A walk about to start will report what the store's walk from `start`
/// reports.
pub proof fn lemma_forecast_initial(s: StoreModel, start: ObjectId)
    ensures
        HistoryState::initial(start).forecast(s) == s.commit_walk(start),
{
    lemma_followed_by_done(s.commit_walk(start));
}

/// Feeding a walk the store's own answer changes nothing of what the walk
/// will report.
pub proof fn lemma_forecast_fed(s: StoreModel, w: HistoryState)
    requires
        s.wf(),
    ensures
        w.fed(w.answer_of(s)).forecast(s) == w.forecast(s),
{
    match w.demand() {
        Some(CommitDemand::Commit(id)) => {
            lemma_commit_walk_step(s, id);
            match s.commit(id) {
                Some(c) => {
                    if c.summary is None {
                        assert(w.records + Seq::<RecordModel>::empty() =~= w.records);
                    }
                },
                None => {
                    assert(w.records + Seq::<RecordModel>::empty() =~= w.records);
                },
            }
        },
        Some(CommitDemand::Tree(id)) => {
            let record = w.held->0;
            if s.tree_entries(id) is Some {
                lemma_followed_by_assoc(
                    w.outcome(),
                    CommitOutcome::one(record),
                    chain_walk(s, w.next),
                );
                assert(w.records + seq![record] =~= w.records.push(record));
            } else {
                assert(w.records + Seq::<RecordModel>::empty() =~= w.records);
            }
        },
        None => {},
    }
}

/// A walk that has nothing more to ask for has reported all it will.
pub proof fn lemma_forecast_finished(s: StoreModel, w: HistoryState)
    requires
        w.finished(),
    ensures
        w.forecast(s) == w.outcome(),
{
    if w.failure is None {
        lemma_followed_by_done(w.outcome());
    }
}

/// A walk answered by a store throughout will report what it was going to.
pub proof fn lemma_forecast_replay(s: StoreModel, w: HistoryState, answers: Seq<CommitAnswer>)
    requires
        s.wf(),
        w.answered_by(s, answers),
    ensures
        w.replay(answers).forecast(s) == w.forecast(s),
    decreases answers.len(),
{
    if answers.len() > 0 {
        let init = answers.drop_last();
        let k = answers.len() - 1;
        assert(answers.take(k) =~= init);
        assert forall|j: int| 0 <= j < init.len() implies (#[trigger] w.replay(
            init.take(j),
        )).finished() || init[j] == w.replay(init.take(j)).answer_of(s) by {
            assert(init.take(j) =~= answers.take(j));
            assert(w.replay(answers.take(j)).finished() || answers[j] == w.replay(
                answers.take(j),
            ).answer_of(s));
        }
        lemma_forecast_replay(s, w, init);
        let before = w.replay(init);
        assert(before.finished() || answers[k] == before.answer_of(s));
        lemma_forecast_fed(s, before);
    }
}

/// Exactness of the walker: started on `start`, answered by the store `s`
/// throughout and run until it asks for nothing more, it has reported what
/// the store's walk from `start` reports.
pub proof fn lemma_walker_exact(s: StoreModel, start: ObjectId, answers: Seq<CommitAnswer>)
    requires
        s.wf(),
        HistoryState::initial(start).answered_by(s, answers),
        HistoryState::initial(start).replay(answers).finished(),
    ensures
        HistoryState::initial(start).replay(answers).outcome() == s.commit_walk(start),
{
    let end = HistoryState::initial(start).replay(answers);
    lemma_forecast_replay(s, HistoryState::initial(start), answers);
    lemma_forecast_initial(s, start);
    lemma_forecast_finished(s, end);
}

} // verus!

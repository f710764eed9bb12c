//! The tree walker: a depth-first walk of a tree, one resolution at a time.
//!
//! The walker holds the entries still to visit on a stack and says which
//! object it needs next. Whoever holds the store resolves that object and
//! hands the answer back. What the walker does with each answer is fixed
//! here, whatever the store.

use vstd::prelude::*;
use crate::model::{StoreModel, TreeOutcome};
use crate::object::{EntryKind, ObjectId, ObjectKind, ResolutionError, TreeEntry};

verus! {

/// The object a walker needs resolved before it can go on.
#[derive(Clone, Copy, Debug, PartialEq, Eq)]
pub enum Demand {
    Blob(ObjectId),
    Tree(ObjectId),
}

/// The state of a tree walk.
pub struct WalkState {
    /// The entries still to visit; the last one is visited next.
    pub pending: Seq<TreeEntry>,
    /// The blob sizes reported so far.
    pub sizes: Seq<u64>,
    /// The trees entered so far.
    pub trees: Seq<ObjectId>,
    /// The entries passed over so far, being neither blob nor tree.
    pub skipped: Seq<ObjectId>,
    /// The error that ended the walk, if one did.
    pub failure: Option<ResolutionError>,
}

impl WalkState {
    /// A walk that has only the tree `root` ahead of it.
    pub open spec fn initial(root: ObjectId) -> WalkState {
        WalkState {
            pending: seq![TreeEntry { id: root, kind: EntryKind::Tree }],
            sizes: Seq::empty(),
            trees: Seq::empty(),
            skipped: Seq::empty(),
            failure: None,
        }
    }

    /// This state after passing over the entries on top of the stack that
    /// are neither blob nor tree.
    pub open spec fn settled(self) -> WalkState
        decreases self.pending.len(),
    {
        if self.failure is None && self.pending.len() > 0 && self.pending.last().kind
            == EntryKind::Other {
            WalkState {
                pending: self.pending.drop_last(),
                skipped: self.skipped.push(self.pending.last().id),
                ..self
            }.settled()
        } else {
            self
        }
    }

    /// What the entry on top of the stack asks for.
    pub open spec fn demand(self) -> Option<Demand> {
        if self.failure is Some || self.pending.len() == 0 {
            None
        } else {
            match self.pending.last().kind {
                EntryKind::Blob => Some(Demand::Blob(self.pending.last().id)),
                EntryKind::Tree => Some(Demand::Tree(self.pending.last().id)),
                EntryKind::Other => None,
            }
        }
    }

    /// The walk has nothing more to ask for.
    pub open spec fn finished(self) -> bool {
        self.settled().demand() is None
    }

    /// This state after the store answered the demand for a blob: with its
    /// size, or with `None` where the id did not resolve to a blob. A state
    /// that asks for no blob stays as it is.
    pub open spec fn after_blob(self, answer: Option<u64>) -> WalkState {
        if self.demand() is Some && self.demand()->0 is Blob {
            match answer {
                Some(size) => WalkState {
                    pending: self.pending.drop_last(),
                    sizes: self.sizes.push(size),
                    ..self
                },
                None => WalkState {
                    failure: Some(
                        ResolutionError { id: self.pending.last().id, expected: ObjectKind::Blob },
                    ),
                    ..self
                },
            }
        } else {
            self
        }
    }

    /// This state after the store answered the demand for a tree: with its
    /// entries, or with `None` where the id did not resolve to a tree. The
    /// entries go on the stack so that the first is visited first. A state
    /// that asks for no tree stays as it is.
    pub open spec fn after_tree(self, answer: Option<Seq<TreeEntry>>) -> WalkState {
        if self.demand() is Some && self.demand()->0 is Tree {
            match answer {
                Some(entries) => WalkState {
                    pending: self.pending.drop_last() + entries.reverse(),
                    trees: self.trees.push(self.pending.last().id),
                    ..self
                },
                None => WalkState {
                    failure: Some(
                        ResolutionError { id: self.pending.last().id, expected: ObjectKind::Tree },
                    ),
                    ..self
                },
            }
        } else {
            self
        }
    }

    /// What the walk has reported so far.
    pub open spec fn outcome(self) -> TreeOutcome {
        TreeOutcome { sizes: self.sizes, failure: self.failure }
    }
}

/// The entries in an answer to a demand for a tree.
pub open spec fn listed(answer: Option<Vec<TreeEntry>>) -> Option<Seq<TreeEntry>> {
    match answer {
        Some(entries) => Some(entries@),
        None => None,
    }
}

/// A tree walk in progress.
pub struct TreeWalker {
    pending: Vec<TreeEntry>,
    sizes: Vec<u64>,
    trees: Vec<ObjectId>,
    skipped: Vec<ObjectId>,
    failure: Option<ResolutionError>,
}

impl View for TreeWalker {
    type V = WalkState;

    closed spec fn view(&self) -> WalkState {
        WalkState {
            pending: self.pending@,
            sizes: self.sizes@,
            trees: self.trees@,
            skipped: self.skipped@,
            failure: self.failure,
        }
    }
}

impl TreeWalker {
    /// A walker about to walk the tree `root`.
    pub fn start(root: ObjectId) -> (w: TreeWalker)
        ensures
            w@ == WalkState::initial(root),
    {
        let mut pending: Vec<TreeEntry> = Vec::new();
        pending.push(TreeEntry { id: root, kind: EntryKind::Tree });
        TreeWalker {
            pending,
            sizes: Vec::new(),
            trees: Vec::new(),
            skipped: Vec::new(),
            failure: None,
        }
    }

    /// Passes over entries that are neither blob nor tree, then says which
    /// object the walk needs next; `None` when the walk is over.
    pub fn demand(&mut self) -> (r: Option<Demand>)
        ensures
            final(self)@ == old(self)@.settled(),
            final(self)@.settled() == final(self)@,
            r == final(self)@.demand(),
            (r is None) == old(self)@.finished(),
    {
        proof {
            lemma_settled(old(self)@);
        }
        if self.failure.is_some() {
            return None;
        }
        loop
            invariant
                self@.settled() == old(self)@.settled(),
                self@.failure is None,
            decreases self.pending.len(),
        {
            let n = self.pending.len();
            if n == 0 {
                return None;
            }
            let top = self.pending[n - 1];
            match top.kind {
                EntryKind::Blob => {
                    return Some(Demand::Blob(top.id));
                },
                EntryKind::Tree => {
                    return Some(Demand::Tree(top.id));
                },
                EntryKind::Other => {
                    self.pending.pop();
                    self.skipped.push(top.id);
                },
            }
        }
    }

    /// The blob sizes reported so far, in visiting order.
    pub fn sizes(&self) -> (r: &Vec<u64>)
        ensures
            r@ == self@.sizes,
    {
        &self.sizes
    }

    /// The ids of the trees entered so far, in visiting order.
    pub fn trees(&self) -> (r: &Vec<ObjectId>)
        ensures
            r@ == self@.trees,
    {
        &self.trees
    }

    /// The ids of the entries passed over so far, being neither blob nor
    /// tree.
    pub fn skipped(&self) -> (r: &Vec<ObjectId>)
        ensures
            r@ == self@.skipped,
    {
        &self.skipped
    }

    /// The error that ended the walk, if one did.
    pub fn failure(&self) -> (r: Option<ResolutionError>)
        ensures
            r == self@.failure,
    {
        self.failure
    }

    /// The blob sizes of a walk that ended without error, or the error.
    pub fn into_result(self) -> (r: Result<Vec<u64>, ResolutionError>)
        ensures
            match r {
                Ok(sizes) => self@.failure is None && sizes@ == self@.sizes,
                Err(error) => self@.failure == Some(error),
            },
    {
        match self.failure {
            Some(error) => Err(error),
            None => Ok(self.sizes),
        }
    }

    /// The logs of a walker fit in memory.
    pub proof fn lemma_logs_bounded(&self)
        ensures
            self@.sizes.len() <= usize::MAX,
            self@.trees.len() <= usize::MAX,
    {
        vstd::std_specs::vec::axiom_spec_len(&self.sizes);
        vstd::std_specs::vec::axiom_spec_len(&self.trees);
    }

    /// Takes the store's answer to a demand for a blob.
    pub fn supply_blob(&mut self, answer: Option<u64>)
        ensures
            final(self)@ == old(self)@.after_blob(answer),
    {
        if self.failure.is_some() {
            return ;
        }
        let n = self.pending.len();
        if n == 0 {
            return ;
        }
        let top = self.pending[n - 1];
        match top.kind {
            EntryKind::Blob => {},
            _ => {
                return ;
            },
        }
        match answer {
            Some(size) => {
                self.pending.pop();
                self.sizes.push(size);
            },
            None => {
                self.failure = Some(ResolutionError { id: top.id, expected: ObjectKind::Blob });
            },
        }
    }

    /// Takes the store's answer to a demand for a tree.
    pub fn supply_tree(&mut self, answer: Option<Vec<TreeEntry>>)
        ensures
            final(self)@ == old(self)@.after_tree(listed(answer)),
    {
        if self.failure.is_some() {
            return ;
        }
        let n = self.pending.len();
        if n == 0 {
            return ;
        }
        let top = self.pending[n - 1];
        match top.kind {
            EntryKind::Tree => {},
            _ => {
                return ;
            },
        }
        match answer {
            Some(entries) => {
                let ghost all = entries@;
                let ghost base = self.pending@.drop_last();
                let mut rest = entries;
                self.pending.pop();
                self.trees.push(top.id);
                loop
                    invariant
                        rest@.len() <= all.len(),
                        rest@ == all.subrange(0, rest@.len() as int),
                        self.pending@ == base + all.subrange(
                            rest@.len() as int,
                            all.len() as int,
                        ).reverse(),
                        self.sizes == old(self).sizes,
                        self.skipped == old(self).skipped,
                        self.failure == old(self).failure,
                        self.trees@ == old(self).trees@.push(top.id),
                    ensures
                        self.pending@ == base + all.reverse(),
                    decreases rest.len(),
                {
                    match rest.pop() {
                        Some(e) => {
                            self.pending.push(e);
                        },
                        None => {
                            break ;
                        },
                    }
                }
            },
            None => {
                self.failure = Some(ResolutionError { id: top.id, expected: ObjectKind::Tree });
            },
        }
    }
}

/// What a store said to one demand.
pub enum Answer {
    /// The size of the blob asked for, or `None` where none resolved.
    Blob(Option<u64>),
    /// The entries of the tree asked for, or `None` where none resolved.
    Tree(Option<Seq<TreeEntry>>),
}

impl WalkState {
    /// This state after one answer.
    pub open spec fn fed(self, answer: Answer) -> WalkState {
        match answer {
            Answer::Blob(size) => self.after_blob(size),
            Answer::Tree(entries) => self.after_tree(entries),
        }
    }

    /// This state after a run of answers, each taken once the entries that
    /// need none have been passed over.
    pub open spec fn replay(self, answers: Seq<Answer>) -> WalkState
        decreases answers.len(),
    {
        if answers.len() == 0 {
            self
        } else {
            self.replay(answers.drop_last()).settled().fed(answers.last())
        }
    }

    /// The answer that the store `s` gives to what this state asks for.
    pub open spec fn answer_of(self, s: StoreModel) -> Answer {
        match self.settled().demand() {
            Some(Demand::Tree(id)) => Answer::Tree(s.tree_entries(id)),
            Some(Demand::Blob(id)) => Answer::Blob(s.blob_size(id)),
            None => Answer::Blob(None),
        }
    }

    /// Each of `answers` is what the store `s` says to the demand it met.
    pub open spec fn answered_by(self, s: StoreModel, answers: Seq<Answer>) -> bool {
        forall|k: int|
            0 <= k < answers.len() ==> (#[trigger] self.replay(answers.take(k))).finished()
                || answers[k] == self.replay(answers.take(k)).answer_of(s)
    }
}

/// What a walk of the entries on a stack reports against the store `s`, the
/// last entry first.
pub open spec fn stack_outcome(s: StoreModel, stack: Seq<TreeEntry>) -> TreeOutcome
    decreases stack.len(),
{
    if stack.len() == 0 {
        TreeOutcome::done()
    } else {
        s.entry_outcome(stack.last()).followed_by(stack_outcome(s, stack.drop_last()))
    }
}

impl WalkState {
    /// What the walk will have reported at its end if the store `s` answers
    /// every demand from here on.
    pub open spec fn forecast(self, s: StoreModel) -> TreeOutcome {
        if self.failure is Some {
            self.outcome()
        } else {
            self.outcome().followed_by(stack_outcome(s, self.pending))
        }
    }

    /// The answer of the store `s` to a demand for the blob `id`.
    pub open spec fn fed_blob(self, s: StoreModel, id: ObjectId) -> WalkState {
        self.after_blob(s.blob_size(id))
    }

    /// The answer of the store `s` to a demand for the tree `id`.
    pub open spec fn fed_tree(self, s: StoreModel, id: ObjectId) -> WalkState {
        self.after_tree(s.tree_entries(id))
    }
}

proof fn lemma_followed_by_done(a: TreeOutcome)
    ensures
        a.followed_by(TreeOutcome::done()) == a,
        TreeOutcome::done().followed_by(a) == a,
{
    assert(a.sizes + Seq::<u64>::empty() =~= a.sizes);
    assert(Seq::<u64>::empty() + a.sizes =~= a.sizes);
}

proof fn lemma_followed_by_assoc(a: TreeOutcome, b: TreeOutcome, c: TreeOutcome)
    ensures
        a.followed_by(b).followed_by(c) == a.followed_by(b.followed_by(c)),
{
    assert((a.sizes + b.sizes) + c.sizes =~= a.sizes + (b.sizes + c.sizes));
}

/// What a walk of one entry reports, by the kind of the entry.
pub proof fn lemma_entry_outcome(s: StoreModel, e: TreeEntry)
    ensures
        s.entry_outcome(e) == match e.kind {
            EntryKind::Other => TreeOutcome::done(),
            EntryKind::Blob => s.blob_outcome(e.id),
            EntryKind::Tree => match s.tree_entries(e.id) {
                None => TreeOutcome::failed(e.id, ObjectKind::Tree),
                Some(children) => s.walk_list(children, s.rank[e.id]),
            },
        },
{
    let one = seq![e];
    let limit = s.rank[e.id] + 1;
    assert(one.first() == e);
    assert(one.drop_first().len() == 0);
    assert(s.walk_list(one.drop_first(), limit as nat) == TreeOutcome::done());
    let head = match e.kind {
        EntryKind::Other => TreeOutcome::done(),
        EntryKind::Blob => s.blob_outcome(e.id),
        EntryKind::Tree => match s.tree_entries(e.id) {
            None => TreeOutcome::failed(e.id, ObjectKind::Tree),
            Some(children) => s.walk_list(children, s.rank[e.id]),
        },
    };
    assert(s.walk_list(one, limit as nat) == head.followed_by(TreeOutcome::done()));
    lemma_followed_by_done(head);
}

/// A walk of a list whose sub-trees rank under the limit is the walk of its
/// first entry, then the walk of the rest.
pub proof fn lemma_walk_list_step(s: StoreModel, entries: Seq<TreeEntry>, limit: nat)
    requires
        s.below(entries, limit),
        entries.len() > 0,
    ensures
        s.walk_list(entries, limit) == s.entry_outcome(entries.first()).followed_by(
            s.walk_list(entries.drop_first(), limit),
        ),
        s.below(entries.drop_first(), limit),
{
    lemma_entry_outcome(s, entries.first());
    assert(entries.first() == entries[0]);
    let rest = entries.drop_first();
    assert forall|i: int|
        0 <= i < rest.len() && (#[trigger] rest[i]).kind == EntryKind::Tree && s.tree_entries(
            rest[i].id,
        ) is Some implies s.rank[rest[i].id] < limit by {
        assert(rest[i] == entries[i + 1]);
    }
}

proof fn lemma_stack_of_children(
    s: StoreModel,
    rest: Seq<TreeEntry>,
    children: Seq<TreeEntry>,
    limit: nat,
)
    requires
        s.below(children, limit),
    ensures
        stack_outcome(s, rest + children.reverse()) == s.walk_list(children, limit).followed_by(
            stack_outcome(s, rest),
        ),
    decreases children.len(),
{
    if children.len() == 0 {
        assert(rest + children.reverse() =~= rest);
        lemma_followed_by_done(stack_outcome(s, rest));
    } else {
        let stack = rest + children.reverse();
        let tail = children.drop_first();
        lemma_walk_list_step(s, children, limit);
        assert(stack.last() == children.first());
        assert(stack.drop_last() =~= rest + tail.reverse());
        lemma_stack_of_children(s, rest, tail, limit);
        lemma_followed_by_assoc(
            s.entry_outcome(children.first()),
            s.walk_list(tail, limit),
            stack_outcome(s, rest),
        );
    }
}

/// A walk about to start on `root` will report what the store's walk of
/// `root` reports.
pub proof fn lemma_forecast_initial(s: StoreModel, root: ObjectId)
    ensures
        WalkState::initial(root).forecast(s) == s.tree_walk(root),
{
    let e = TreeEntry { id: root, kind: EntryKind::Tree };
    let stack = seq![e];
    assert(stack.last() == e);
    assert(stack.drop_last().len() == 0);
    assert(stack_outcome(s, stack.drop_last()) == TreeOutcome::done());
    assert(stack_outcome(s, stack) == s.entry_outcome(e).followed_by(TreeOutcome::done()));
    lemma_followed_by_done(s.entry_outcome(e));
    lemma_followed_by_done(stack_outcome(s, stack));
}

/// Passing over entries that are neither blob nor tree changes nothing of
/// what the walk will report.
pub proof fn lemma_forecast_settled(s: StoreModel, w: WalkState)
    ensures
        w.settled().forecast(s) == w.forecast(s),
    decreases w.pending.len(),
{
    if w.failure is None && w.pending.len() > 0 && w.pending.last().kind == EntryKind::Other {
        let next = WalkState {
            pending: w.pending.drop_last(),
            skipped: w.skipped.push(w.pending.last().id),
            ..w
        };
        lemma_forecast_settled(s, next);
        lemma_entry_outcome(s, w.pending.last());
        lemma_followed_by_done(stack_outcome(s, w.pending.drop_last()));
    }
}

/// Feeding a walk the store's own answer for the blob it asks for changes
/// nothing of what the walk will report.
pub proof fn lemma_forecast_blob(s: StoreModel, w: WalkState, id: ObjectId)
    requires
        w.demand() == Some(Demand::Blob(id)),
    ensures
        w.fed_blob(s, id).forecast(s) == w.forecast(s),
{
    let top = w.pending.last();
    lemma_entry_outcome(s, top);
    lemma_followed_by_assoc(
        w.outcome(),
        s.blob_outcome(id),
        stack_outcome(s, w.pending.drop_last()),
    );
    match s.blob_size(id) {
        Some(size) => {
            assert(w.sizes + seq![size] =~= w.sizes.push(size));
        },
        None => {
            assert(w.sizes + Seq::<u64>::empty() =~= w.sizes);
        },
    }
}

/// Feeding a walk the store's own answer for the tree it asks for changes
/// nothing of what the walk will report.
pub proof fn lemma_forecast_tree(s: StoreModel, w: WalkState, id: ObjectId)
    requires
        s.wf(),
        w.demand() == Some(Demand::Tree(id)),
    ensures
        w.fed_tree(s, id).forecast(s) == w.forecast(s),
{
    let top = w.pending.last();
    lemma_entry_outcome(s, top);
    match s.tree_entries(id) {
        Some(children) => {
            lemma_stack_of_children(s, w.pending.drop_last(), children, s.rank[id]);
        },
        None => {
            assert(w.sizes + Seq::<u64>::empty() =~= w.sizes);
        },
    }
}

/// A walk that has nothing more to ask for has reported all it will.
pub proof fn lemma_forecast_finished(s: StoreModel, w: WalkState)
    requires
        w.demand() is None,
        w.settled() == w,
    ensures
        w.forecast(s) == w.outcome(),
{
    if w.failure is None {
        if w.pending.len() > 0 {
            assert(w.pending.last().kind == EntryKind::Other);
            lemma_settled(
                WalkState {
                    pending: w.pending.drop_last(),
                    skipped: w.skipped.push(w.pending.last().id),
                    ..w
                },
            );
            assert(w.settled().pending.len() < w.pending.len());
        }
        lemma_followed_by_done(w.outcome());
    }
}

/// A walk answered by a store throughout will report what it was going to.
pub proof fn lemma_forecast_replay(s: StoreModel, w: WalkState, answers: Seq<Answer>)
    requires
        s.wf(),
        w.answered_by(s, answers),
    ensures
        w.replay(answers).forecast(s) == w.forecast(s),
    decreases answers.len(),
{
    if answers.len() > 0 {
        let init = answers.drop_last();
        let k = answers.len() - 1;
        assert(answers.take(k) =~= init);
        assert forall|j: int| 0 <= j < init.len() implies (#[trigger] w.replay(
            init.take(j),
        )).finished() || init[j] == w.replay(init.take(j)).answer_of(s) by {
            assert(init.take(j) =~= answers.take(j));
            assert(w.replay(answers.take(j)).finished() || answers[j] == w.replay(
                answers.take(j),
            ).answer_of(s));
        }
        lemma_forecast_replay(s, w, init);
        let before = w.replay(init);
        let ready = before.settled();
        lemma_forecast_settled(s, before);
        assert(before.finished() || answers[k] == before.answer_of(s));
        match ready.demand() {
            Some(Demand::Blob(id)) => {
                lemma_forecast_blob(s, ready, id);
            },
            Some(Demand::Tree(id)) => {
                lemma_forecast_tree(s, ready, id);
            },
            None => {},
        }
    }
}

/// Exactness of the walker: started on `root`, answered by the store `s`
/// throughout and run until it asks for nothing more, it has reported what
/// the store's walk of `root` reports.
pub proof fn lemma_walker_exact(s: StoreModel, root: ObjectId, answers: Seq<Answer>)
    requires
        s.wf(),
        WalkState::initial(root).answered_by(s, answers),
        WalkState::initial(root).replay(answers).finished(),
    ensures
        WalkState::initial(root).replay(answers).settled().outcome() == s.tree_walk(root),
{
    let end = WalkState::initial(root).replay(answers);
    lemma_forecast_replay(s, WalkState::initial(root), answers);
    lemma_forecast_initial(s, root);
    lemma_forecast_settled(s, end);
    lemma_settled(end);
    lemma_forecast_finished(s, end.settled());
}

/// Passing over entries that need no answer is done once and for all,
/// shortens the stack at most, and reports nothing.
pub proof fn lemma_settled(w: WalkState)
    ensures
        w.settled().settled() == w.settled(),
        w.settled().pending.len() <= w.pending.len(),
        w.settled().sizes == w.sizes,
        w.settled().trees == w.trees,
        w.settled().failure == w.failure,
    decreases w.pending.len(),
{
    if w.failure is None && w.pending.len() > 0 && w.pending.last().kind == EntryKind::Other {
        lemma_settled(
            WalkState {
                pending: w.pending.drop_last(),
                skipped: w.skipped.push(w.pending.last().id),
                ..w
            },
        );
    }
}

} // verus!

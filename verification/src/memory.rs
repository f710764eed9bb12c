//! An object store held in memory.
//!
//! Objects go in under ids that the caller picks, pointed-to objects before
//! the objects that point to them, as content addressing forces: an id that
//! a stored object already points to cannot be filled in later. A pointer to
//! an id that was never stored is allowed, and does not resolve.

use vstd::prelude::*;
use crate::commit_walk::{read, CommitData, CommitDemand, CommitWalker};
use crate::model::{ObjectModel, StoreModel};
use crate::object::{ObjectId, TreeEntry};
use crate::tree_walk::{lemma_settled, listed, Demand, TreeWalker};

verus! {

/// One object, as a store holds it.
#[derive(Debug, PartialEq, Eq)]
pub enum Object {
    Blob { size: u64 },
    Tree { entries: Vec<TreeEntry> },
    Commit { data: CommitData },
}

impl View for Object {
    type V = ObjectModel;

    open spec fn view(&self) -> ObjectModel {
        match self {
            Object::Blob { size } => ObjectModel::Blob { size: *size },
            Object::Tree { entries } => ObjectModel::Tree { entries: entries@ },
            Object::Commit { data } => ObjectModel::Commit { commit: data@ },
        }
    }
}

struct Stored {
    id: ObjectId,
    object: Object,
}

/// An object store in memory.
pub struct MemoryStore {
    objects: Vec<Stored>,
}

spec fn holds(log: Seq<Stored>, id: ObjectId) -> bool {
    exists|i: int| 0 <= i < log.len() && (#[trigger] log[i]).id == id
}

spec fn index_of(log: Seq<Stored>, id: ObjectId) -> int {
    choose|i: int| 0 <= i < log.len() && (#[trigger] log[i]).id == id
}

/// No id is stored twice, and every pointer to a stored object points back
/// in the order of storing.
spec fn ordered(log: Seq<Stored>) -> bool {
    &&& forall|i: int, j: int|
        0 <= i < j < log.len() ==> (#[trigger] log[i]).id != (#[trigger] log[j]).id
    &&& forall|i: int, j: int|
        0 <= i < log.len() && 0 <= j < log.len() && #[trigger] log[i].object@.mentions(log[j].id)
            ==> j < i
}

spec fn model_of(log: Seq<Stored>) -> StoreModel {
    StoreModel {
        objects: Map::new(
            |id: ObjectId| holds(log, id),
            |id: ObjectId| log[index_of(log, id)].object@,
        ),
        rank: Map::new(|id: ObjectId| holds(log, id), |id: ObjectId| index_of(log, id) as nat),
    }
}

proof fn lemma_stored_at(log: Seq<Stored>, i: int)
    requires
        ordered(log),
        0 <= i < log.len(),
    ensures
        holds(log, log[i].id),
        index_of(log, log[i].id) == i,
        model_of(log).objects.dom().contains(log[i].id),
        model_of(log).objects[log[i].id] == log[i].object@,
        model_of(log).rank[log[i].id] == i,
{
    let j = index_of(log, log[i].id);
    assert(0 <= j < log.len() && log[j].id == log[i].id);
    if j < i {
        assert(log[j].id != log[i].id);
    }
    if i < j {
        assert(log[i].id != log[j].id);
    }
}

proof fn lemma_model_wf(log: Seq<Stored>)
    requires
        ordered(log),
    ensures
        model_of(log).wf(),
{
    let s = model_of(log);
    assert forall|id: ObjectId| #[trigger] s.tree_entries(id) is Some implies s.below(
        s.tree_entries(id)->0,
        s.rank[id],
    ) by {
        let i = index_of(log, id);
        lemma_stored_at(log, i);
        let entries = s.tree_entries(id)->0;
        assert forall|k: int|
            0 <= k < entries.len() && s.tree_entries((#[trigger] entries[k]).id) is Some
            implies s.rank[entries[k].id] < s.rank[id] by {
            let j = index_of(log, entries[k].id);
            lemma_stored_at(log, j);
            assert(log[i].object@.mentions(log[j].id));
        }
    }
    assert forall|id: ObjectId|
        (#[trigger] s.first_parent(id)) is Some && s.commit(s.first_parent(id)->0) is Some
        implies s.rank[s.first_parent(id)->0] < s.rank[id] by {
        let i = index_of(log, id);
        lemma_stored_at(log, i);
        let j = index_of(log, s.first_parent(id)->0);
        lemma_stored_at(log, j);
        assert(log[i].object@.mentions(log[j].id));
    }
}

proof fn lemma_model_mentions(log: Seq<Stored>, id: ObjectId)
    requires
        ordered(log),
    ensures
        model_of(log).mentions(id) <==> exists|i: int|
            0 <= i < log.len() && (#[trigger] log[i]).object@.mentions(id),
{
    let s = model_of(log);
    if s.mentions(id) {
        let holder = choose|holder: ObjectId|
            s.objects.dom().contains(holder) && (#[trigger] s.objects[holder]).mentions(id);
        let i = index_of(log, holder);
        lemma_stored_at(log, i);
        assert(log[i].object@.mentions(id));
    }
    if exists|i: int| 0 <= i < log.len() && (#[trigger] log[i]).object@.mentions(id) {
        let i = choose|i: int| 0 <= i < log.len() && (#[trigger] log[i]).object@.mentions(id);
        lemma_stored_at(log, i);
        assert(s.objects[log[i].id].mentions(id));
    }
}

proof fn lemma_model_push(log: Seq<Stored>, entry: Stored)
    requires
        ordered(log),
        model_of(log).accepts(entry.id, entry.object@),
    ensures
        ordered(log.push(entry)),
        model_of(log.push(entry)).objects == model_of(log).objects.insert(
            entry.id,
            entry.object@,
        ),
        model_of(log.push(entry)).rank == model_of(log).rank.insert(entry.id, log.len()),
{
    let next = log.push(entry);
    let n = log.len() as int;
    lemma_model_mentions(log, entry.id);
    assert forall|i: int, j: int| 0 <= i < j < next.len() implies (#[trigger] next[i]).id != (
    #[trigger] next[j]).id by {
        if j == n {
            assert(next[i] == log[i]);
            assert(holds(log, log[i].id));
        } else {
            assert(next[i] == log[i] && next[j] == log[j]);
        }
    }
    assert forall|i: int, j: int|
        0 <= i < next.len() && 0 <= j < next.len() && #[trigger] next[i].object@.mentions(
            next[j].id,
        ) implies j < i by {
        if i < n {
            assert(next[i] == log[i]);
            if j < n {
                assert(next[j] == log[j]);
                assert(log[i].object@.mentions(log[j].id));
            } else {
                assert(log[i].object@.mentions(entry.id));
            }
        }
    }
    assert forall|id: ObjectId| holds(next, id) <==> (holds(log, id) || id == entry.id) by {
        if holds(next, id) {
            let i = index_of(next, id);
            if i < n {
                assert(log[i].id == id);
            }
        }
        if holds(log, id) {
            let i = index_of(log, id);
            assert(next[i].id == id);
        }
        if id == entry.id {
            assert(next[n].id == id);
        }
    }
    assert forall|id: ObjectId| holds(next, id) implies index_of(next, id) == (if id
        == entry.id {
        n
    } else {
        index_of(log, id)
    }) by {
        if id == entry.id {
            lemma_stored_at(next, n);
        } else {
            let i = index_of(log, id);
            lemma_stored_at(log, i);
            assert(next[i] == log[i]);
            lemma_stored_at(next, i);
        }
    }
    assert forall|id: ObjectId| holds(next, id) implies #[trigger] next[index_of(next, id)].object@
        == (if id == entry.id {
        entry.object@
    } else {
        log[index_of(log, id)].object@
    }) by {
        if id != entry.id {
            let i = index_of(log, id);
            assert(next[i] == log[i]);
        }
    }
    assert(model_of(next).objects =~= model_of(log).objects.insert(entry.id, entry.object@));
    assert(model_of(next).rank =~= model_of(log).rank.insert(entry.id, log.len()));
}

/// A copy of a list of entries.
fn copy_entries(entries: &Vec<TreeEntry>) -> (copy: Vec<TreeEntry>)
    ensures
        copy@ == entries@,
{
    let mut copy: Vec<TreeEntry> = Vec::new();
    let mut i: usize = 0;
    while i < entries.len()
        invariant
            i <= entries.len(),
            copy@ == entries@.take(i as int),
        decreases entries.len() - i,
    {
        copy.push(entries[i]);
        i += 1;
    }
    assert(entries@.take(entries.len() as int) =~= entries@);
    copy
}

/// Whether an object points to `id`.
#[verifier::loop_isolation(false)]
pub fn object_mentions(object: &Object, id: &ObjectId) -> (r: bool)
    ensures
        r == object@.mentions(*id),
{
    match object {
        Object::Blob { .. } => false,
        Object::Tree { entries } => {
            let mut k: usize = 0;
            while k < entries.len()
                invariant
                    k <= entries.len(),
                    forall|i: int| 0 <= i < k ==> (#[trigger] entries@[i]).id != *id,
                decreases entries.len() - k,
            {
                if entries[k].id.same(id) {
                    assert(entries@[k as int].id == *id);
                    return true;
                }
                k += 1;
            }
            false
        },
        Object::Commit { data } => match data.first_parent {
            Some(parent) => parent.same(id),
            None => false,
        },
    }
}

impl View for MemoryStore {
    type V = StoreModel;

    closed spec fn view(&self) -> StoreModel {
        model_of(self.objects@)
    }
}

impl MemoryStore {
    #[verifier::type_invariant]
    spec fn well_ordered(&self) -> bool {
        ordered(self.objects@)
    }

    /// A store that holds nothing.
    pub fn new() -> (store: MemoryStore)
        ensures
            store@.objects == Map::<ObjectId, ObjectModel>::empty(),
            store@.wf(),
    {
        let store = MemoryStore { objects: Vec::new() };
        proof {
            lemma_model_wf(store.objects@);
            assert(store@.objects =~= Map::<ObjectId, ObjectModel>::empty());
        }
        store
    }

    /// Where the object under `id` is stored, if one is.
    fn position(&self, id: &ObjectId) -> (r: Option<usize>)
        ensures
            match r {
                Some(i) => i < self.objects@.len() && self.objects@[i as int].id == *id,
                None => !holds(self.objects@, *id),
            },
    {
        let mut i: usize = 0;
        while i < self.objects.len()
            invariant
                i <= self.objects.len(),
                forall|k: int| 0 <= k < i ==> (#[trigger] self.objects@[k]).id != *id,
            decreases self.objects.len() - i,
        {
            if self.objects[i].id.same(id) {
                return Some(i);
            }
            i += 1;
        }
        None
    }

    /// Whether the store holds an object under `id`.
    pub fn contains(&self, id: &ObjectId) -> (r: bool)
        ensures
            r == self@.objects.dom().contains(*id),
    {
        self.position(id).is_some()
    }

    /// Whether some stored object points to `id`.
    #[verifier::loop_isolation(false)]
    pub fn mentions(&self, id: &ObjectId) -> (r: bool)
        ensures
            r == self@.mentions(*id),
    {
        proof {
            use_type_invariant(self);
            lemma_model_mentions(self.objects@, *id);
        }
        let mut i: usize = 0;
        while i < self.objects.len()
            invariant
                i <= self.objects.len(),
                forall|k: int| 0 <= k < i ==> !(#[trigger] self.objects@[k]).object@.mentions(*id),
            decreases self.objects.len() - i,
        {
            if object_mentions(&self.objects[i].object, id) {
                assert(self.objects@[i as int].object@.mentions(*id));
                return true;
            }
            i += 1;
        }
        false
    }

    /// Stores `object` under `id` where the store accepts it, and says
    /// whether it did. A store that refuses stays as it was.
    pub fn insert(&mut self, id: ObjectId, object: Object) -> (stored: bool)
        ensures
            stored == old(self)@.accepts(id, object@),
            stored ==> final(self)@.objects == old(self)@.objects.insert(id, object@),
            !stored ==> final(self)@ == old(self)@,
            final(self)@.wf(),
    {
        proof {
            use_type_invariant(&*self);
            lemma_model_wf(self.objects@);
        }
        if self.contains(&id) || self.mentions(&id) || object_mentions(&object, &id) {
            return false;
        }
        let entry = Stored { id, object };
        proof {
            lemma_model_push(self.objects@, entry);
            lemma_model_wf(self.objects@.push(entry));
        }
        let mut log: Vec<Stored> = Vec::new();
        core::mem::swap(&mut self.objects, &mut log);
        log.push(entry);
        core::mem::swap(&mut self.objects, &mut log);
        true
    }

    /// The size of the blob stored under `id`, if a blob is.
    pub fn blob_size(&self, id: &ObjectId) -> (size: Option<u64>)
        ensures
            size == self@.blob_size(*id),
    {
        proof {
            use_type_invariant(self);
        }
        match self.position(id) {
            Some(i) => {
                proof {
                    lemma_stored_at(self.objects@, i as int);
                }
                match &self.objects[i].object {
                    Object::Blob { size } => Some(*size),
                    _ => None,
                }
            },
            None => None,
        }
    }

    /// The entries of the tree stored under `id`, if a tree is.
    pub fn tree_entries(&self, id: &ObjectId) -> (entries: Option<Vec<TreeEntry>>)
        ensures
            listed(entries) == self@.tree_entries(*id),
    {
        proof {
            use_type_invariant(self);
        }
        match self.position(id) {
            Some(i) => {
                proof {
                    lemma_stored_at(self.objects@, i as int);
                }
                match &self.objects[i].object {
                    Object::Tree { entries } => Some(copy_entries(entries)),
                    _ => None,
                }
            },
            None => None,
        }
    }

    /// Whether a tree is stored under `id`.
    pub fn has_tree(&self, id: &ObjectId) -> (found: bool)
        ensures
            found == (self@.tree_entries(*id) is Some),
    {
        proof {
            use_type_invariant(self);
        }
        match self.position(id) {
            Some(i) => {
                proof {
                    lemma_stored_at(self.objects@, i as int);
                }
                match &self.objects[i].object {
                    Object::Tree { .. } => true,
                    _ => false,
                }
            },
            None => false,
        }
    }

    /// What a walk reads of the commit stored under `id`, if a commit is.
    pub fn commit(&self, id: &ObjectId) -> (data: Option<CommitData>)
        ensures
            read(data) == self@.commit(*id),
    {
        proof {
            use_type_invariant(self);
        }
        match self.position(id) {
            Some(i) => {
                proof {
                    lemma_stored_at(self.objects@, i as int);
                }
                match &self.objects[i].object {
                    Object::Commit { data } => Some(
                        CommitData {
                            summary: match &data.summary {
                                Some(text) => Some(text.clone()),
                                None => None,
                            },
                            tree: data.tree,
                            first_parent: data.first_parent,
                        },
                    ),
                    _ => None,
                }
            },
            None => None,
        }
    }

    /// Walks the tree stored under `root`, depth first, to the end or to the
    /// first id that does not resolve. The walker that comes back has
    /// reported exactly what the store's walk of `root` reports.
    pub fn walk_tree(&self, root: ObjectId) -> (walker: TreeWalker)
        ensures
            walker@.finished(),
            walker@.outcome() == self@.tree_walk(root),
    {
        let mut walker = TreeWalker::start(root);
        proof {
            use_type_invariant(self);
            lemma_model_wf(self.objects@);
            crate::tree_walk::lemma_forecast_initial(self@, root);
        }
        // Each step that goes on adds to one of the walker's logs, and a
        // log holds no more items than memory has room for: the walk ends.
        loop
            invariant
                self@.wf(),
                walker@.forecast(self@) == self@.tree_walk(root),
            ensures
                walker@.finished(),
                walker@.outcome() == self@.tree_walk(root),
            decreases 2 * usize::MAX - walker@.sizes.len() - walker@.trees.len(),
        {
            proof {
                lemma_settled(walker@);
                crate::tree_walk::lemma_forecast_settled(self@, walker@);
                walker.lemma_logs_bounded();
            }
            let demand = walker.demand();
            match demand {
                None => {
                    proof {
                        crate::tree_walk::lemma_forecast_finished(self@, walker@);
                    }
                    break ;
                },
                Some(Demand::Blob(id)) => {
                    let size = self.blob_size(&id);
                    proof {
                        crate::tree_walk::lemma_forecast_blob(self@, walker@, id);
                    }
                    walker.supply_blob(size);
                    if size.is_none() {
                        break ;
                    }
                },
                Some(Demand::Tree(id)) => {
                    let entries = self.tree_entries(&id);
                    let found = entries.is_some();
                    proof {
                        crate::tree_walk::lemma_forecast_tree(self@, walker@, id);
                    }
                    walker.supply_tree(entries);
                    if !found {
                        break ;
                    }
                },
            }
            proof {
                walker.lemma_logs_bounded();
            }
        }
        walker
    }

    /// Walks the first-parent chain from the commit stored under `start`, to
    /// the commit without a parent or to the first failure. The walker that
    /// comes back has reported exactly what the store's walk from `start`
    /// reports.
    pub fn walk_commits(&self, start: ObjectId) -> (walker: CommitWalker)
        ensures
            walker@.finished(),
            walker@.outcome() == self@.commit_walk(start),
    {
        let mut walker = CommitWalker::start(start);
        proof {
            use_type_invariant(self);
            lemma_model_wf(self.objects@);
            crate::commit_walk::lemma_forecast_initial(self@, start);
        }
        // Each step that goes on takes hold of a commit or adds a record,
        // and the records are no more than memory has room for.
        loop
            invariant
                self@.wf(),
                walker@.forecast(self@) == self@.commit_walk(start),
            ensures
                walker@.finished(),
                walker@.outcome() == self@.commit_walk(start),
            decreases
                    usize::MAX - walker@.records.len(),
                    (if walker@.held is Some {
                        0int
                    } else {
                        1int
                    }),
        {
            proof {
                crate::commit_walk::lemma_forecast_fed(self@, walker@);
                walker.lemma_log_bounded();
            }
            match walker.demand() {
                None => {
                    proof {
                        crate::commit_walk::lemma_forecast_finished(self@, walker@);
                    }
                    break ;
                },
                Some(CommitDemand::Commit(id)) => {
                    let data = self.commit(&id);
                    walker.supply_commit(data);
                    if walker.failure().is_some() {
                        proof {
                            crate::commit_walk::lemma_forecast_finished(self@, walker@);
                        }
                        break ;
                    }
                },
                Some(CommitDemand::Tree(id)) => {
                    let found = self.has_tree(&id);
                    walker.supply_tree(found);
                    if !found {
                        proof {
                            crate::commit_walk::lemma_forecast_finished(self@, walker@);
                        }
                        break ;
                    }
                },
            }
            proof {
                walker.lemma_log_bounded();
            }
        }
        walker
    }
}

} // verus!

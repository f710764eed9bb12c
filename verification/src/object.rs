//! The plain values that the walkers read: object ids, tree entries, commit
//! data, and the errors a walk can end in.

use vstd::prelude::*;

verus! {

/// Content hash that names one object of a store.
#[derive(Clone, Copy, Debug, PartialEq, Eq, Hash)]
pub struct ObjectId {
    pub bytes: [u8; 20],
}

impl ObjectId {
    /// Whether two ids are the same hash, byte for byte.
    pub fn same(&self, other: &ObjectId) -> (r: bool)
        ensures
            r == (*self == *other),
    {
        let mut i: usize = 0;
        while i < 20
            invariant
                i <= 20,
                forall|k: int| 0 <= k < i ==> self.bytes[k] == other.bytes[k],
            decreases 20 - i,
        {
            if self.bytes[i] != other.bytes[i] {
                return false;
            }
            i += 1;
        }
        proof {
            assert(self.bytes =~= other.bytes);
        }
        true
    }
}

/// The kinds of object a store can hold.
#[derive(Clone, Copy, Debug, PartialEq, Eq, Hash, Structural)]
pub enum ObjectKind {
    Any,
    Commit,
    Tree,
    Blob,
    Tag,
}

/// What a tree entry leads to, as far as a walk cares.
#[derive(Clone, Copy, Debug, PartialEq, Eq, Hash, Structural)]
pub enum EntryKind {
    Blob,
    Tree,
    Other,
}

impl EntryKind {
    /// The walk's view of the kind a store records for an entry.
    pub open spec fn of(kind: Option<ObjectKind>) -> EntryKind {
        match kind {
            Some(ObjectKind::Blob) => EntryKind::Blob,
            Some(ObjectKind::Tree) => EntryKind::Tree,
            _ => EntryKind::Other,
        }
    }

    /// Sorts the kind a store records for an entry into blob, tree, or
    /// anything else (a submodule link, an unknown kind).
    pub fn classify(kind: Option<ObjectKind>) -> (r: EntryKind)
        ensures
            r == EntryKind::of(kind),
    {
        match kind {
            Some(ObjectKind::Blob) => EntryKind::Blob,
            Some(ObjectKind::Tree) => EntryKind::Tree,
            _ => EntryKind::Other,
        }
    }
}

/// One entry of a tree as a store records it: the id of the child, and the
/// kind of object the entry's mode stands for, if the store knows that mode.
#[derive(Clone, Copy, Debug, PartialEq, Eq, Hash)]
pub struct RawEntry {
    pub id: ObjectId,
    pub kind: Option<ObjectKind>,
}

/// One entry of a tree: the id of the child and what kind of object it is.
#[derive(Clone, Copy, Debug, PartialEq, Eq, Hash)]
pub struct TreeEntry {
    pub id: ObjectId,
    pub kind: EntryKind,
}

impl TreeEntry {
    /// The entry that a walk sees for a recorded one.
    pub open spec fn of(raw: RawEntry) -> TreeEntry {
        TreeEntry { id: raw.id, kind: EntryKind::of(raw.kind) }
    }

    /// The entries that a walk sees for recorded ones, in their order.
    pub open spec fn list_of(raw: Seq<RawEntry>) -> Seq<TreeEntry> {
        Seq::new(raw.len(), |i: int| TreeEntry::of(raw[i]))
    }

    /// Reads a recorded entry as the walk sees it.
    pub fn from_raw(raw: RawEntry) -> (e: TreeEntry)
        ensures
            e == TreeEntry::of(raw),
    {
        TreeEntry { id: raw.id, kind: EntryKind::classify(raw.kind) }
    }
}

/// An id that the store could not resolve to an object of the expected kind.
#[derive(Clone, Copy, Debug, PartialEq, Eq)]
pub struct ResolutionError {
    pub id: ObjectId,
    pub expected: ObjectKind,
}

/// An object that resolved but lacks a readable field.
#[derive(Clone, Copy, Debug, PartialEq, Eq)]
pub struct MalformedObjectError {
    pub id: ObjectId,
}

/// Why a commit walk stopped early.
#[derive(Clone, Copy, Debug, PartialEq, Eq)]
pub enum WalkError {
    Resolution(ResolutionError),
    Malformed(MalformedObjectError),
}

} // verus!

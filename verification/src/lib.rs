//! Verified walkers over a content-addressed object graph: trees, blobs and
//! commits, as a git repository stores them.
//!
//! A tree walk reports the size of every blob under a tree, depth first. A
//! commit walk follows first parents from a commit to the root and reports
//! each commit's summary and tree. Both are resumable: a walker says which
//! object it needs, and takes the store's answer. `model` says what a walk
//! of a store reports, `reach` and `ancestry` measure that against the
//! graph, `memory` and `git` run the walkers against a store in memory and
//! against a repository, and `acquire` decides how a repository is got.

pub mod object;
pub mod model;
pub mod tree_walk;
pub mod reach;
pub mod commit_walk;
pub mod ancestry;
pub mod memory;
pub mod git;
pub mod acquire;

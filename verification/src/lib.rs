//! Fold a sequence of commits into one.
//!
//! Merging a branch and reverting a run of commits both bundle several source
//! commits into a single new commit. The two differ only in what they do to
//! each flake on the way, so one fold, [`collect_from_commits`], serves both: it
//! concatenates the transformed flakes, unites the namespace deltas with the
//! earlier commit winning, and gathers every named graph that any of the
//! commits registered, numbering the graphs anew.

pub mod collect;
pub mod commit;
pub mod graph_delta;
pub mod laws;
mod lemmas;
pub mod model;
mod order;

pub use collect::collect_from_commits;
pub use commit::{CollectedCommitData, Commit};
pub use graph_delta::{GraphDelta, TxnGraphId, FIRST_USER_GRAPH_ID};

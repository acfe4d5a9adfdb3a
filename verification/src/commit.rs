//! Commits, and what a sequence of them adds up to.

use crate::graph_delta::GraphDelta;
use crate::model::{texts, CommitModel};
use std::collections::HashMap;
use vstd::prelude::*;

verus! {

broadcast use vstd::std_specs::hash::group_hash_axioms;

/// The part of a commit that bundling reads.
pub struct Commit<Flake> {
    /// The facts that the commit asserts and retracts, in order.
    pub flakes: Vec<Flake>,
    /// Prefixes that the commit introduces, by namespace code. Codes mean the
    /// same in every commit of a ledger.
    pub namespace_delta: HashMap<u16, String>,
    /// Named graphs that the commit registers, by its own numbering.
    pub graph_delta: GraphDelta,
}

impl<Flake> View for Commit<Flake> {
    type V = CommitModel<Flake>;

    open spec fn view(&self) -> CommitModel<Flake> {
        CommitModel {
            flakes: self.flakes@,
            namespace_delta: texts(self.namespace_delta@),
            graph_delta: self.graph_delta@,
        }
    }
}

/// Flakes and metadata accumulated from a sequence of commits.
pub struct CollectedCommitData<Flake> {
    /// All flakes of the commits, in order, each transformed.
    pub flakes: Vec<Flake>,
    /// Union of the namespace deltas; earlier commits win on key collisions.
    pub namespace_delta: HashMap<u16, String>,
    /// Union of the graph IRIs that the commits registered, numbered anew.
    ///
    /// The ids that the commits themselves used are no guide: two commits that
    /// each registered their first named graph use the same id for different
    /// IRIs. The IRIs are what is gathered; their ids are given out afresh, from
    /// [`FIRST_USER_GRAPH_ID`](crate::FIRST_USER_GRAPH_ID) upward.
    pub graph_delta: GraphDelta,
}

impl<Flake> View for CollectedCommitData<Flake> {
    type V = CommitModel<Flake>;

    open spec fn view(&self) -> CommitModel<Flake> {
        CommitModel {
            flakes: self.flakes@,
            namespace_delta: texts(self.namespace_delta@),
            graph_delta: self.graph_delta@,
        }
    }
}

impl<Flake> Default for CollectedCommitData<Flake> {
    /// What no commits add up to: nothing.
    fn default() -> (data: Self)
        ensures
            data@ == (CommitModel {
                flakes: Seq::<Flake>::empty(),
                namespace_delta: Map::<u16, Seq<char>>::empty(),
                graph_delta: Map::empty(),
            }),
    {
        let data = CollectedCommitData {
            flakes: Vec::new(),
            namespace_delta: HashMap::new(),
            graph_delta: GraphDelta::new(),
        };
        assert(texts(data.namespace_delta@) =~= Map::<u16, Seq<char>>::empty());
        data
    }
}

} // verus!

//! Transaction-local graph ids, and the graphs that a commit registers.

use crate::order::{keys_of, sort_ascending};
use std::collections::HashMap;
use vstd::prelude::*;

verus! {

broadcast use vstd::std_specs::hash::group_hash_axioms;

/// The first id that a transaction gives to a named graph of the user.
pub const FIRST_USER_GRAPH_ID: u16 = 3;

/// The number by which one transaction refers to a graph.
///
/// Every transaction numbers its own graphs from [`FIRST_USER_GRAPH_ID`] upward,
/// so the same number stands for different graphs in different commits. It is no
/// index into a ledger's own numbering of its graphs.
#[derive(Clone, Copy, Debug, PartialEq, Eq, PartialOrd, Ord, Hash, Structural)]
pub struct TxnGraphId(pub u16);

/// The named graphs that a commit registers: each id with the IRI it stands for.
pub struct GraphDelta {
    iris: HashMap<u16, String>,
}

impl View for GraphDelta {
    type V = Map<TxnGraphId, Seq<char>>;

    closed spec fn view(&self) -> Map<TxnGraphId, Seq<char>> {
        Map::new(|id: TxnGraphId| self.iris@.contains_key(id.0), |id: TxnGraphId| self.iris@[id.0]@)
    }
}

impl GraphDelta {
    /// A delta that registers no graph.
    pub fn new() -> (delta: Self)
        ensures
            delta@ == Map::<TxnGraphId, Seq<char>>::empty(),
    {
        GraphDelta { iris: HashMap::new() }
    }

    /// Registers `iri` under `id`, in place of what stood there.
    pub fn insert(&mut self, id: TxnGraphId, iri: String)
        ensures
            final(self)@ == old(self)@.insert(id, iri@),
    {
        self.iris.insert(id.0, iri);
    }

    /// The IRI registered under `id`.
    pub fn get(&self, id: TxnGraphId) -> (iri: Option<&String>)
        ensures
            iri is Some <==> self@.contains_key(id),
            iri matches Some(text) ==> text@ == self@[id],
    {
        self.iris.get(&id.0)
    }

    /// Takes out the IRI registered under `id`.
    pub(crate) fn remove(&mut self, id: TxnGraphId) -> (iri: Option<String>)
        ensures
            final(self)@ == old(self)@.remove(id),
            iri is Some <==> old(self)@.contains_key(id),
            iri matches Some(text) ==> text@ == old(self)@[id],
    {
        self.iris.remove(&id.0)
    }

    /// The ids in use, in ascending order.
    pub fn ids(&self) -> (ids: Vec<TxnGraphId>)
        ensures
            forall|i: int, j: int| 0 <= i < j < ids@.len() ==> ids@[i].0 < ids@[j].0,
            forall|id: TxnGraphId| #[trigger] ids@.contains(id) <==> self@.contains_key(id),
    {
        let keys: Vec<u16> = sort_ascending(keys_of(&self.iris));
        let mut ids: Vec<TxnGraphId> = Vec::new();
        for key in it: keys.iter()
            invariant
                it.seq().unref() == keys@,
                ids@.len() == it.index(),
                forall|i: int| 0 <= i < ids@.len() ==> (#[trigger] ids@[i]).0 == keys@[i],
        {
            ids.push(TxnGraphId(*key));
        }
        proof {
            assert forall|id: TxnGraphId| #[trigger]
                ids@.contains(id) <==> self@.contains_key(id) by {
                assert(keys@.to_set().contains(id.0) <==> self.iris@.contains_key(id.0));
                if ids@.contains(id) {
                    let i = choose|i: int| 0 <= i < ids@.len() && ids@[i] == id;
                    assert(keys@[i] == id.0);
                }
                if keys@.contains(id.0) {
                    let i = choose|i: int| 0 <= i < keys@.len() && keys@[i] == id.0;
                    assert(ids@[i] == id);
                }
            }
        }
        ids
    }
}

} // verus!

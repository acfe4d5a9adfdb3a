//! What a sequence of commits adds up to, stated over sequences and maps.

use crate::commit::Commit;
use crate::graph_delta::{TxnGraphId, FIRST_USER_GRAPH_ID};
use vstd::prelude::*;

verus! {

/// A commit, or a bundle of commits, as mathematics: prefixes and IRIs are
/// sequences of characters, and the deltas are maps.
#[verifier::ext_equal]
pub struct CommitModel<Flake> {
    pub flakes: Seq<Flake>,
    pub namespace_delta: Map<u16, Seq<char>>,
    pub graph_delta: Map<TxnGraphId, Seq<char>>,
}

/// The text of each string of a map.
pub open spec fn texts(map: Map<u16, String>) -> Map<u16, Seq<char>> {
    map.map_values(|text: String| text@)
}

/// The text of each string of a sequence.
pub open spec fn views(strings: Seq<String>) -> Seq<Seq<char>> {
    Seq::new(strings.len(), |i: int| strings[i]@)
}

/// The model of each commit.
pub open spec fn models<Flake>(commits: Seq<Commit<Flake>>) -> Seq<CommitModel<Flake>> {
    Seq::new(commits.len(), |i: int| commits[i]@)
}

/// The flakes of the commits, one commit after the other.
pub open spec fn all_flakes<Flake>(commits: Seq<CommitModel<Flake>>) -> Seq<Flake>
    decreases commits.len(),
{
    if commits.len() == 0 {
        Seq::empty()
    } else {
        all_flakes(commits.drop_last()) + commits.last().flakes
    }
}

/// `after` is what `transform` can make of `before`, flake by flake.
pub open spec fn transformed<Flake, F: FnMut(Flake) -> Flake>(
    transform: F,
    before: Seq<Flake>,
    after: Seq<Flake>,
) -> bool {
    &&& after.len() == before.len()
    &&& forall|i: int|
        0 <= i < after.len() ==> call_ensures(transform, (before[i],), #[trigger] after[i])
}

/// The union of the namespace deltas, in which the earliest commit that has a
/// code decides its prefix.
pub open spec fn merged_namespaces<Flake>(commits: Seq<CommitModel<Flake>>) -> Map<u16, Seq<char>>
    decreases commits.len(),
{
    if commits.len() == 0 {
        Map::empty()
    } else {
        commits.last().namespace_delta.union_prefer_right(merged_namespaces(commits.drop_last()))
    }
}

/// The IRIs that `delta` registers under ids below `bound`, in ascending order of
/// their ids.
pub open spec fn iris_below(delta: Map<TxnGraphId, Seq<char>>, bound: nat) -> Seq<Seq<char>>
    decreases bound,
{
    if bound == 0 {
        Seq::empty()
    } else {
        let id = TxnGraphId((bound - 1) as u16);
        let below = iris_below(delta, (bound - 1) as nat);
        if delta.contains_key(id) {
            below.push(delta[id])
        } else {
            below
        }
    }
}

/// The IRIs that `delta` registers, in ascending order of their ids. A
/// transaction numbers its graphs as it meets them, so this is the order in
/// which it named them.
pub open spec fn iris_in_id_order(delta: Map<TxnGraphId, Seq<char>>) -> Seq<Seq<char>> {
    iris_below(delta, (u16::MAX + 1) as nat)
}

/// Every registration of a graph, commit after commit, repetitions included.
pub open spec fn registrations<Flake>(commits: Seq<CommitModel<Flake>>) -> Seq<Seq<char>>
    decreases commits.len(),
{
    if commits.len() == 0 {
        Seq::empty()
    } else {
        registrations(commits.drop_last()) + iris_in_id_order(commits.last().graph_delta)
    }
}

/// The distinct elements of `s`, in the order of their first occurrence.
pub open spec fn first_seen<A>(s: Seq<A>) -> Seq<A>
    decreases s.len(),
{
    if s.len() == 0 {
        Seq::empty()
    } else {
        let before = first_seen(s.drop_last());
        if before.contains(s.last()) {
            before
        } else {
            before.push(s.last())
        }
    }
}

/// The distinct graphs that the commits register, in first-seen order.
pub open spec fn graph_iris<Flake>(commits: Seq<CommitModel<Flake>>) -> Seq<Seq<char>> {
    first_seen(registrations(commits))
}

/// `iris` with consecutive ids from [`FIRST_USER_GRAPH_ID`] upward.
pub open spec fn numbered(iris: Seq<Seq<char>>) -> Map<TxnGraphId, Seq<char>> {
    Map::new(
        |id: TxnGraphId| FIRST_USER_GRAPH_ID <= id.0 < FIRST_USER_GRAPH_ID + iris.len(),
        |id: TxnGraphId| iris[id.0 - FIRST_USER_GRAPH_ID],
    )
}

/// There are ids enough for `iris`.
pub open spec fn can_be_numbered(iris: Seq<Seq<char>>) -> bool {
    FIRST_USER_GRAPH_ID + iris.len() <= u16::MAX + 1
}

} // verus!

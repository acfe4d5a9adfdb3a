//! What holds of every fold over commits.
//!
//! Each law speaks of the functions of [`model`](crate::model) by which
//! [`collect_from_commits`](crate::collect_from_commits) states its result:
//! [`all_flakes`] and [`transformed`] for the flakes, [`merged_namespaces`] for the
//! namespace delta, and [`numbered`] of [`graph_iris`] for the graph delta.

use crate::graph_delta::{TxnGraphId, FIRST_USER_GRAPH_ID};
use crate::lemmas::{
    lemma_concat, lemma_concat_contains, lemma_deltas_alone, lemma_first_seen,
    lemma_first_seen_absorbs, lemma_first_seen_before, lemma_first_seen_len,
    lemma_first_seen_prefix, lemma_flake_position, lemma_iris_below_contains,
    lemma_iris_below_prefix, lemma_numbered_below, lemma_numbered_contains, lemma_push,
    lemma_registrations_contain,
};
use crate::model::{
    all_flakes, can_be_numbered, graph_iris, iris_below, iris_in_id_order, merged_namespaces,
    numbered, registrations, transformed, CommitModel,
};
use vstd::prelude::*;

verus! {

/// A namespace code gets the prefix that the earliest commit to have it gives it.
pub proof fn law_earliest_prefix_wins<Flake>(commits: Seq<CommitModel<Flake>>, i: int, code: u16)
    requires
        0 <= i < commits.len(),
        commits[i].namespace_delta.contains_key(code),
        forall|j: int| 0 <= j < i ==> !(#[trigger] commits[j]).namespace_delta.contains_key(code),
    ensures
        merged_namespaces(commits).contains_key(code),
        merged_namespaces(commits)[code] == commits[i].namespace_delta[code],
    decreases commits.len(),
{
    if i < commits.len() - 1 {
        law_earliest_prefix_wins(commits.drop_last(), i, code);
    } else if merged_namespaces(commits.drop_last()).contains_key(code) {
        let front = commits.drop_last();
        law_namespace_codes(front, code);
        let j = choose|j: int|
            0 <= j < front.len() && (#[trigger] front[j]).namespace_delta.contains_key(code);
        assert(commits[j].namespace_delta.contains_key(code));
    }
}

/// The collected namespace codes are those of the commits: none is lost, and none
/// is made up.
pub proof fn law_namespace_codes<Flake>(commits: Seq<CommitModel<Flake>>, code: u16)
    ensures
        merged_namespaces(commits).contains_key(code) <==> exists|i: int|
            0 <= i < commits.len() && (#[trigger] commits[i]).namespace_delta.contains_key(code),
    decreases commits.len(),
{
    if commits.len() > 0 {
        let front = commits.drop_last();
        law_namespace_codes(front, code);
        if merged_namespaces(front).contains_key(code) {
            let i = choose|i: int|
                0 <= i < front.len() && (#[trigger] front[i]).namespace_delta.contains_key(code);
            assert(commits[i].namespace_delta.contains_key(code));
        }
        if commits.last().namespace_delta.contains_key(code) {
            assert(commits[commits.len() - 1].namespace_delta.contains_key(code));
        }
        assert forall|i: int|
            0 <= i < commits.len() && (#[trigger] commits[i]).namespace_delta.contains_key(
                code,
            ) implies merged_namespaces(commits).contains_key(code) by {
            if i < front.len() {
                assert(front[i].namespace_delta.contains_key(code));
            }
        }
    }
}

/// The collected graphs are those that the commits register, under whatever ids:
/// none is dropped, and none is made up.
pub proof fn law_graphs_are_united<Flake>(commits: Seq<CommitModel<Flake>>, iri: Seq<char>)
    requires
        can_be_numbered(graph_iris(commits)),
    ensures
        numbered(graph_iris(commits)).contains_value(iri) <==> exists|i: int|
            0 <= i < commits.len() && (#[trigger] commits[i]).graph_delta.contains_value(iri),
{
    lemma_first_seen(registrations(commits));
    lemma_numbered_contains(graph_iris(commits), iri);
    lemma_registrations_contain(commits, iri);
}

/// Two commits that use one id for different graphs both keep their graph.
pub proof fn law_colliding_ids_keep_both_graphs<Flake>(
    commits: Seq<CommitModel<Flake>>,
    i: int,
    j: int,
    id: TxnGraphId,
)
    requires
        can_be_numbered(graph_iris(commits)),
        0 <= i < commits.len(),
        0 <= j < commits.len(),
        commits[i].graph_delta.contains_key(id),
        commits[j].graph_delta.contains_key(id),
        commits[i].graph_delta[id] != commits[j].graph_delta[id],
    ensures
        exists|x: TxnGraphId, y: TxnGraphId|
            {
                &&& x != y
                &&& #[trigger] numbered(graph_iris(commits)).contains_pair(
                    x,
                    commits[i].graph_delta[id],
                )
                &&& #[trigger] numbered(graph_iris(commits)).contains_pair(
                    y,
                    commits[j].graph_delta[id],
                )
            },
{
    let graphs = numbered(graph_iris(commits));
    let a = commits[i].graph_delta[id];
    let b = commits[j].graph_delta[id];
    assert(commits[i].graph_delta.contains_value(a));
    assert(commits[j].graph_delta.contains_value(b));
    law_graphs_are_united(commits, a);
    law_graphs_are_united(commits, b);
    let x = choose|x: TxnGraphId| graphs.dom().contains(x) && #[trigger] graphs[x] == a;
    let y = choose|y: TxnGraphId| graphs.dom().contains(y) && #[trigger] graphs[y] == b;
    assert(graphs.contains_pair(x, a) && graphs.contains_pair(y, b));
}

/// Each graph has one id, however many commits register it.
pub proof fn law_one_id_per_graph<Flake>(commits: Seq<CommitModel<Flake>>)
    ensures
        numbered(graph_iris(commits)).is_injective(),
{
    lemma_first_seen(registrations(commits));
}

/// The ids run from [`FIRST_USER_GRAPH_ID`] without a gap, and there are as many as
/// the commits register distinct graphs.
pub proof fn law_ids_are_consecutive<Flake>(commits: Seq<CommitModel<Flake>>, id: TxnGraphId)
    ensures
        numbered(graph_iris(commits)).contains_key(id) <==> FIRST_USER_GRAPH_ID <= id.0
            < FIRST_USER_GRAPH_ID + registrations(commits).to_set().len(),
{
    lemma_first_seen(registrations(commits));
    assert(graph_iris(commits).to_set() =~= registrations(commits).to_set());
    graph_iris(commits).unique_seq_to_set();
}

/// There are no more graphs than registrations, so commits with few registrations
/// have graphs that can be numbered.
pub proof fn law_no_more_graphs_than_registrations<Flake>(commits: Seq<CommitModel<Flake>>)
    ensures
        graph_iris(commits).len() <= registrations(commits).len(),
        FIRST_USER_GRAPH_ID + registrations(commits).len() <= u16::MAX + 1 ==> can_be_numbered(
            graph_iris(commits),
        ),
{
    lemma_first_seen_len(registrations(commits));
}

/// Numbered graphs, read in the order of their ids, are the graphs in the order
/// in which they were numbered.
pub proof fn law_numbering_can_be_read_back(iris: Seq<Seq<char>>)
    requires
        can_be_numbered(iris),
    ensures
        iris_in_id_order(numbered(iris)) == iris,
{
    lemma_numbered_below(iris, (u16::MAX + 1) as nat);
    assert(iris.take(iris.len() as int) =~= iris);
}

/// Later commits only add: they change neither a prefix nor a number that the
/// commits before them led to, and their flakes come behind.
pub proof fn law_later_commits_only_add<Flake>(
    commits: Seq<CommitModel<Flake>>,
    later: Seq<CommitModel<Flake>>,
)
    ensures
        all_flakes(commits + later) == all_flakes(commits) + all_flakes(later),
        merged_namespaces(commits).submap_of(merged_namespaces(commits + later)),
        numbered(graph_iris(commits)).submap_of(numbered(graph_iris(commits + later))),
{
    lemma_concat(commits, later);
    lemma_first_seen_prefix(registrations(commits), registrations(later));
}

/// A graph that an earlier commit registers gets a lower id than one that only
/// later commits register.
pub proof fn law_earlier_graph_has_lower_id<Flake>(
    commits: Seq<CommitModel<Flake>>,
    i: int,
    x: TxnGraphId,
    y: TxnGraphId,
)
    requires
        0 <= i < commits.len(),
        numbered(graph_iris(commits)).contains_key(x),
        numbered(graph_iris(commits)).contains_key(y),
        commits[i].graph_delta.contains_value(numbered(graph_iris(commits))[x]),
        forall|j: int|
            0 <= j <= i ==> !(#[trigger] commits[j]).graph_delta.contains_value(
                numbered(graph_iris(commits))[y],
            ),
    ensures
        x.0 < y.0,
{
    let a = numbered(graph_iris(commits))[x];
    let b = numbered(graph_iris(commits))[y];
    let front = commits.take(i + 1);
    let rest = commits.skip(i + 1);
    assert(commits =~= front + rest);
    lemma_concat(front, rest);
    lemma_first_seen(registrations(front));
    lemma_registrations_contain(front, a);
    lemma_registrations_contain(front, b);
    assert(front[i].graph_delta.contains_value(a));
    lemma_first_seen_before(
        registrations(front),
        registrations(rest),
        x.0 - FIRST_USER_GRAPH_ID,
        y.0 - FIRST_USER_GRAPH_ID,
    );
}

/// Graphs that one commit is the first to register keep the order of the ids that
/// it gave them.
pub proof fn law_order_within_a_commit_is_kept<Flake>(
    commits: Seq<CommitModel<Flake>>,
    i: int,
    p: TxnGraphId,
    x: TxnGraphId,
    y: TxnGraphId,
)
    requires
        0 <= i < commits.len(),
        numbered(graph_iris(commits)).contains_key(x),
        numbered(graph_iris(commits)).contains_key(y),
        commits[i].graph_delta.contains_key(p),
        commits[i].graph_delta[p] == numbered(graph_iris(commits))[x],
        forall|q: TxnGraphId| #[trigger]
            commits[i].graph_delta.contains_key(q) && commits[i].graph_delta[q] == numbered(
                graph_iris(commits),
            )[y] ==> p.0 < q.0,
        forall|j: int|
            0 <= j < i ==> !(#[trigger] commits[j]).graph_delta.contains_value(
                numbered(graph_iris(commits))[y],
            ),
    ensures
        x.0 < y.0,
{
    let a = numbered(graph_iris(commits))[x];
    let b = numbered(graph_iris(commits))[y];
    let delta = commits[i].graph_delta;
    let front = commits.take(i);
    let rest = commits.skip(i + 1);
    let bound = (p.0 + 1) as nat;
    let after = iris_in_id_order(delta).skip(iris_below(delta, bound).len() as int);
    assert(commits.take(i + 1) =~= front.push(commits[i]));
    assert(commits =~= commits.take(i + 1) + rest);
    lemma_push(front, commits[i]);
    lemma_concat(commits.take(i + 1), rest);
    lemma_iris_below_prefix(delta, bound, (u16::MAX + 1) as nat);
    assert(iris_below(delta, bound) + after =~= iris_in_id_order(delta));
    let seen = registrations(front) + iris_below(delta, bound);
    assert(registrations(commits) =~= seen + (after + registrations(rest)));
    lemma_iris_below_contains(delta, bound, a);
    lemma_iris_below_contains(delta, bound, b);
    lemma_registrations_contain(front, b);
    lemma_concat_contains(registrations(front), iris_below(delta, bound), a);
    lemma_concat_contains(registrations(front), iris_below(delta, bound), b);
    lemma_first_seen(seen);
    assert forall|j: int|
        0 <= j < front.len() implies !(#[trigger] front[j]).graph_delta.contains_value(b) by {
        assert(front[j] == commits[j]);
    }
    lemma_first_seen_before(
        seen,
        after + registrations(rest),
        x.0 - FIRST_USER_GRAPH_ID,
        y.0 - FIRST_USER_GRAPH_ID,
    );
}

/// The deltas depend on nothing but the deltas of the commits, in their order:
/// neither the flakes nor what is done to them matters.
pub proof fn law_deltas_ignore_flakes<Flake, Other>(
    commits: Seq<CommitModel<Flake>>,
    others: Seq<CommitModel<Other>>,
)
    requires
        commits.len() == others.len(),
        forall|i: int|
            0 <= i < commits.len() ==> (#[trigger] commits[i]).namespace_delta
                == others[i].namespace_delta && commits[i].graph_delta == others[i].graph_delta,
    ensures
        merged_namespaces(commits) == merged_namespaces(others),
        numbered(graph_iris(commits)) == numbered(graph_iris(others)),
{
    lemma_deltas_alone(commits, others);
}

/// A transform that hands back every flake leaves the flakes of the commits as
/// they are, in their order.
pub proof fn law_identity_keeps_flakes<Flake, F: FnMut(Flake) -> Flake>(
    transform: F,
    commits: Seq<CommitModel<Flake>>,
    flakes: Seq<Flake>,
)
    requires
        forall|before: Flake, after: Flake| #[trigger]
            call_ensures(transform, (before,), after) ==> after == before,
        transformed(transform, all_flakes(commits), flakes),
    ensures
        flakes == all_flakes(commits),
{
    assert(flakes =~= all_flakes(commits));
}

/// The `k`-th flake of a commit is transformed on its own, and comes to stand
/// behind those of the commits before it.
pub proof fn law_each_flake_is_transformed_in_place<Flake, F: FnMut(Flake) -> Flake>(
    transform: F,
    commits: Seq<CommitModel<Flake>>,
    flakes: Seq<Flake>,
    i: int,
    k: int,
)
    requires
        transformed(transform, all_flakes(commits), flakes),
        0 <= i < commits.len(),
        0 <= k < commits[i].flakes.len(),
    ensures
        all_flakes(commits.take(i)).len() + k < flakes.len(),
        call_ensures(
            transform,
            (commits[i].flakes[k],),
            flakes[all_flakes(commits.take(i)).len() + k],
        ),
{
    lemma_flake_position(commits, i, k);
}

/// A bundle can stand in for the commits that it was made of: collecting it with
/// the commits that follow comes to the same as collecting them all at once.
pub proof fn law_a_bundle_replaces_its_commits<Flake>(
    commits: Seq<CommitModel<Flake>>,
    later: Seq<CommitModel<Flake>>,
    bundle: CommitModel<Flake>,
)
    requires
        can_be_numbered(graph_iris(commits)),
        bundle.flakes == all_flakes(commits),
        bundle.namespace_delta == merged_namespaces(commits),
        bundle.graph_delta == numbered(graph_iris(commits)),
    ensures
        all_flakes(seq![bundle] + later) == all_flakes(commits + later),
        merged_namespaces(seq![bundle] + later) == merged_namespaces(commits + later),
        numbered(graph_iris(seq![bundle] + later)) == numbered(graph_iris(commits + later)),
{
    let one = seq![bundle];
    let none = Seq::<CommitModel<Flake>>::empty();
    assert(one =~= none.push(bundle));
    lemma_push(none, bundle);
    assert(all_flakes(one) =~= all_flakes(commits));
    assert(merged_namespaces(one) =~= merged_namespaces(commits));
    law_numbering_can_be_read_back(graph_iris(commits));
    assert(registrations(one) =~= graph_iris(commits));
    lemma_concat(one, later);
    lemma_concat(commits, later);
    lemma_first_seen_absorbs(registrations(commits), registrations(later));
}

} // verus!

//! The fold over a sequence of commits.

use crate::commit::{CollectedCommitData, Commit};
use crate::graph_delta::{GraphDelta, TxnGraphId, FIRST_USER_GRAPH_ID};
use crate::lemmas::{
    lemma_first_seen, lemma_first_seen_of_distinct, lemma_first_seen_push, lemma_flake_position,
    lemma_graph_iris_push, lemma_models_push, lemma_no_ids_between, lemma_push,
    lemma_skip_first,
};
use crate::model::{
    all_flakes, can_be_numbered, first_seen, graph_iris, iris_below, iris_in_id_order,
    merged_namespaces, models, numbered, registrations, texts, transformed, views,
};
use crate::order::keys_of;
use std::collections::HashMap;
use vstd::prelude::*;
use vstd::std_specs::iter::IteratorSpec;

verus! {

broadcast use vstd::std_specs::hash::group_hash_axioms;

/// Adds to `merged` each entry of `delta` whose code it does not have yet.
fn merge_namespaces(merged: &mut HashMap<u16, String>, delta: HashMap<u16, String>)
    ensures
        texts(final(merged)@) == texts(delta@).union_prefer_right(texts(old(merged)@)),
{
    let mut rest = delta;
    let codes: Vec<u16> = keys_of(&rest);
    let mut next: usize = 0;
    assert(codes@.skip(0) =~= codes@);
    while next < codes.len()
        invariant
            next <= codes.len(),
            codes@.no_duplicates(),
            rest@.dom() == codes@.skip(next as int).to_set(),
            rest@.union_prefer_right(merged@) == delta@.union_prefer_right(old(merged)@),
        decreases codes.len() - next,
    {
        let code: u16 = codes[next];
        proof {
            assert(codes@.skip(next as int)[0] == code);
            assert(rest@.dom().contains(code));
            lemma_skip_first(codes@.skip(next as int));
            assert(codes@.skip(next as int).skip(1) =~= codes@.skip(next + 1));
        }
        let ghost united = rest@.union_prefer_right(merged@);
        if let Some(prefix) = rest.remove(&code) {
            merged.entry(code).or_insert(prefix);
        }
        assert(rest@.union_prefer_right(merged@) =~= united);
        next = next + 1;
    }
    proof {
        assert(codes@.skip(next as int) =~= Seq::empty());
        assert(rest@.union_prefer_right(merged@) =~= merged@);
        assert(texts(merged@) =~= texts(delta@).union_prefer_right(texts(old(merged)@)));
    }
}

/// Whether `iri` is among `iris`.
fn contains_iri(iris: &Vec<String>, iri: &String) -> (found: bool)
    ensures
        found == views(iris@).contains(iri@),
{
    let mut next: usize = 0;
    while next < iris.len()
        invariant
            next <= iris.len(),
            forall|i: int| 0 <= i < next ==> (#[trigger] iris@[i])@ != iri@,
        decreases iris.len() - next,
    {
        if iris[next] == *iri {
            assert(views(iris@)[next as int] == iri@);
            return true;
        }
        next = next + 1;
    }
    assert forall|i: int| 0 <= i < iris@.len() implies views(iris@)[i] != iri@ by {
        assert(views(iris@)[i] == iris@[i]@);
    }
    false
}

/// Appends to `iris` each IRI of `delta`, by ascending id, that it does not have
/// yet.
fn gather_graphs(iris: &mut Vec<String>, delta: GraphDelta)
    requires
        views(old(iris)@).no_duplicates(),
    ensures
        views(final(iris)@) == first_seen(views(old(iris)@) + iris_in_id_order(delta@)),
{
    let mut rest = delta;
    let ids: Vec<TxnGraphId> = rest.ids();
    let mut next: usize = 0;
    let ghost earlier = views(iris@);
    let ghost mut bound: nat = 0;
    proof {
        lemma_first_seen_of_distinct(earlier);
        assert(earlier + iris_below(delta@, 0) =~= earlier);
        assert forall|i: int| 0 <= i < ids@.len() implies rest@.contains_key(
            #[trigger] ids@[i],
        ) by {
            assert(ids@.contains(ids@[i]));
        }
    }
    while next < ids.len()
        invariant
            next <= ids.len(),
            forall|i: int, j: int| 0 <= i < j < ids@.len() ==> ids@[i].0 < ids@[j].0,
            forall|id: TxnGraphId| #[trigger] ids@.contains(id) <==> delta@.contains_key(id),
            forall|i: int| next <= i < ids@.len() ==> rest@.contains_key(#[trigger] ids@[i]),
            forall|id: TxnGraphId| #[trigger] rest@.contains_key(id) ==> rest@[id] == delta@[id],
            bound == if next == 0 { 0 } else { ids@[next - 1].0 + 1 },
            views(iris@) == first_seen(earlier + iris_below(delta@, bound)),
        decreases ids.len() - next,
    {
        let id: TxnGraphId = ids[next];
        proof {
            assert(ids@.contains(id));
            lemma_no_ids_between(delta@, ids@, next as int, bound, id.0 as nat);
            lemma_first_seen_push(earlier + iris_below(delta@, id.0 as nat), delta@[id]);
            assert((earlier + iris_below(delta@, id.0 as nat)).push(delta@[id])
                =~= earlier + iris_below(delta@, (id.0 + 1) as nat));
        }
        if let Some(iri) = rest.remove(id) {
            if !contains_iri(iris, &iri) {
                let ghost before = iris@;
                iris.push(iri);
                assert(views(iris@) =~= views(before).push(iri@));
            }
        }
        proof {
            bound = (id.0 + 1) as nat;
        }
        next = next + 1;
    }
    proof {
        lemma_no_ids_between(delta@, ids@, next as int, bound, (u16::MAX + 1) as nat);
    }
}

/// Gives the graphs consecutive ids from [`FIRST_USER_GRAPH_ID`] upward.
fn number_graphs(iris: Vec<String>) -> (delta: GraphDelta)
    requires
        can_be_numbered(views(iris@)),
    ensures
        delta@ == numbered(views(iris@)),
{
    let mut delta = GraphDelta::new();
    let ghost all = iris@;
    let mut offset: u32 = 0;
    assert(delta@ =~= numbered(views(all).take(0)));
    for iri in it: iris
        invariant
            it.seq() == all,
            offset == it.index(),
            can_be_numbered(views(all)),
            delta@ == numbered(views(all).take(it.index())),
            it.index() == all.len() ==> delta@ == numbered(views(all)),
    {
        let id: TxnGraphId = TxnGraphId(FIRST_USER_GRAPH_ID + offset as u16);
        delta.insert(id, iri);
        assert(delta@ =~= numbered(views(all).take(it.index() + 1)));
        assert(it.index() + 1 == all.len() ==> views(all).take(it.index() + 1) =~= views(all));
        offset = offset + 1;
    }
    delta
}

/// Folds `commits` into one [`CollectedCommitData`].
///
/// The iterator must come to an end. The commits come oldest first, so that an
/// earlier commit takes precedence on a namespace code, and so that the numbering
/// of the graphs does not change when later commits follow.
///
/// `flake_transform` is applied to every flake, once and in order, before it is
/// appended: the identity keeps the flakes as they are, for a merge; one that
/// turns assertions into retractions and retractions into assertions serves a
/// revert.
///
/// The graphs are numbered from [`FIRST_USER_GRAPH_ID`] in first-seen order: commit
/// by commit, and within one commit by ascending id. The numbering is thereby
/// fixed by the sequence of commits. There must not be more graphs than ids.
pub fn collect_from_commits<Flake, I, F>(
    commits: I,
    flake_transform: F,
) -> (data: CollectedCommitData<Flake>)
where
    I: Iterator<Item = Commit<Flake>>,
    F: FnMut(Flake) -> Flake,
    requires
        commits.obeys_prophetic_iter_laws(),
        commits.decrease() is Some,
        forall|i: int|
            0 <= i < all_flakes(models(commits.remaining())).len() ==> call_requires(
                flake_transform,
                (#[trigger] all_flakes(models(commits.remaining()))[i],),
            ),
        can_be_numbered(graph_iris(models(commits.remaining()))),
    ensures
        transformed(flake_transform, all_flakes(models(commits.remaining())), data@.flakes),
        data@.namespace_delta == merged_namespaces(models(commits.remaining())),
        data@.graph_delta == numbered(graph_iris(models(commits.remaining()))),
{
    let mut source = commits;
    let mut transform = flake_transform;
    let mut data: CollectedCommitData<Flake> = CollectedCommitData::default();
    let mut iris: Vec<String> = Vec::new();
    let ghost mut done: Seq<Commit<Flake>> = Seq::empty();
    assert(done + source.remaining() =~= commits.remaining());
    loop
        invariant_except_break
            done + source.remaining() == commits.remaining(),
        invariant
            source.obeys_prophetic_iter_laws(),
            source.decrease() is Some,
            transform == flake_transform,
            forall|i: int|
                0 <= i < all_flakes(models(commits.remaining())).len() ==> call_requires(
                    flake_transform,
                    (#[trigger] all_flakes(models(commits.remaining()))[i],),
                ),
            transformed(flake_transform, all_flakes(models(done)), data@.flakes),
            data@.namespace_delta == merged_namespaces(models(done)),
            views(iris@) == graph_iris(models(done)),
        ensures
            done == commits.remaining(),
        decreases source.decrease()->0,
    {
        match source.next() {
            None => {
                assert(done + source.remaining() =~= done);
                break;
            },
            Some(commit) => {
                let ghost model = commit@;
                let ghost earlier = models(done);
                proof {
                    lemma_models_push(done, commit);
                    lemma_push(earlier, model);
                    lemma_graph_iris_push(earlier, model);
                    lemma_first_seen(registrations(earlier));
                    assert forall|k: int| 0 <= k < model.flakes.len() implies call_requires(
                        flake_transform,
                        (#[trigger] model.flakes[k],),
                    ) by {
                        assert(models(commits.remaining())[done.len() as int] == model);
                        assert(models(commits.remaining()).take(done.len() as int) =~= earlier);
                        lemma_flake_position(models(commits.remaining()), done.len() as int, k);
                    }
                }
                for flake in it: commit.flakes
                    invariant
                        transform == flake_transform,
                        it.seq() == model.flakes,
                        forall|k: int|
                            0 <= k < model.flakes.len() ==> call_requires(
                                flake_transform,
                                (#[trigger] model.flakes[k],),
                            ),
                        data@.namespace_delta == merged_namespaces(earlier),
                        transformed(
                            flake_transform,
                            all_flakes(earlier) + model.flakes.take(it.index()),
                            data.flakes@,
                        ),
                        it.index() == model.flakes.len() ==> transformed(
                            flake_transform,
                            all_flakes(earlier) + model.flakes,
                            data.flakes@,
                        ),
                {
                    data.flakes.push(transform(flake));
                }
                merge_namespaces(&mut data.namespace_delta, commit.namespace_delta);
                gather_graphs(&mut iris, commit.graph_delta);
                proof {
                    done = done.push(commit);
                }
            },
        }
    }
    data.graph_delta = number_graphs(iris);
    data
}

} // verus!

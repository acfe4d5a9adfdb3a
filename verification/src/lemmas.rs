//! Steps that the proofs of the fold and of its laws share.

use crate::commit::Commit;
use crate::graph_delta::{TxnGraphId, FIRST_USER_GRAPH_ID};
use crate::model::{
    all_flakes, can_be_numbered, first_seen, graph_iris, iris_below, iris_in_id_order,
    merged_namespaces, models, numbered, registrations, CommitModel,
};
use vstd::prelude::*;

verus! {

/// Without its first element, a sequence of distinct elements has all the others.
pub(crate) proof fn lemma_skip_first(s: Seq<u16>)
    requires
        s.len() > 0,
        s.no_duplicates(),
    ensures
        s.skip(1).to_set() == s.to_set().remove(s[0]),
{
    let rest = s.skip(1);
    assert forall|x: u16| s.contains(x) && x != s[0] implies rest.contains(x) by {
        let i = choose|i: int| 0 <= i < s.len() && s[i] == x;
        assert(rest[i - 1] == x);
    }
    assert forall|x: u16| rest.contains(x) implies s.contains(x) && x != s[0] by {
        let i = choose|i: int| 0 <= i < rest.len() && rest[i] == x;
        assert(s[i + 1] == x);
    }
    assert(rest.to_set() =~= s.to_set().remove(s[0]));
}

/// Where `ids` are the ids of `delta` in ascending order, none lies between
/// `ids[next - 1]` and `ids[next]`, so a bound there makes no difference.
pub(crate) proof fn lemma_no_ids_between(
    delta: Map<TxnGraphId, Seq<char>>,
    ids: Seq<TxnGraphId>,
    next: int,
    from: nat,
    to: nat,
)
    requires
        forall|i: int, j: int| 0 <= i < j < ids.len() ==> ids[i].0 < ids[j].0,
        forall|id: TxnGraphId| #[trigger] ids.contains(id) <==> delta.contains_key(id),
        0 <= next <= ids.len(),
        from == if next == 0 { 0 } else { ids[next - 1].0 + 1 },
        from <= to,
        to <= if next == ids.len() { u16::MAX + 1 } else { ids[next].0 as int },
    ensures
        iris_below(delta, to) == iris_below(delta, from),
    decreases to,
{
    if from < to {
        let id = TxnGraphId((to - 1) as u16);
        if delta.contains_key(id) {
            assert(ids.contains(id));
            let i = choose|i: int| 0 <= i < ids.len() && ids[i] == id;
            assert(false);
        }
        lemma_no_ids_between(delta, ids, next, from, (to - 1) as nat);
    }
}

/// One more element changes what is first seen only if it is new.
pub(crate) proof fn lemma_first_seen_push<A>(s: Seq<A>, x: A)
    ensures
        first_seen(s.push(x)) == if first_seen(s).contains(x) {
            first_seen(s)
        } else {
            first_seen(s).push(x)
        },
{
    assert(s.push(x).drop_last() =~= s);
}

/// What is first seen of distinct elements is all of them.
pub(crate) proof fn lemma_first_seen_of_distinct<A>(s: Seq<A>)
    requires
        s.no_duplicates(),
    ensures
        first_seen(s) == s,
    decreases s.len(),
{
    if s.len() > 0 {
        lemma_first_seen_of_distinct(s.drop_last());
        assert(s.drop_last().push(s.last()) =~= s);
    } else {
        assert(first_seen(s) =~= s);
    }
}

/// The models of one more commit are one model more.
pub(crate) proof fn lemma_models_push<Flake>(commits: Seq<Commit<Flake>>, commit: Commit<Flake>)
    ensures
        models(commits.push(commit)) == models(commits).push(commit@),
{
    assert(models(commits.push(commit)) =~= models(commits).push(commit@));
}

/// One more commit adds its flakes and registrations at the end, and the prefixes
/// for codes that are still free.
pub(crate) proof fn lemma_push<Flake>(commits: Seq<CommitModel<Flake>>, commit: CommitModel<Flake>)
    ensures
        all_flakes(commits.push(commit)) == all_flakes(commits) + commit.flakes,
        merged_namespaces(commits.push(commit)) == commit.namespace_delta.union_prefer_right(
            merged_namespaces(commits),
        ),
        registrations(commits.push(commit)) == registrations(commits) + iris_in_id_order(
            commit.graph_delta,
        ),
{
    assert(commits.push(commit).drop_last() =~= commits);
}

/// What is first seen has the same elements, each once.
pub(crate) proof fn lemma_first_seen<A>(s: Seq<A>)
    ensures
        first_seen(s).no_duplicates(),
        forall|x: A| #[trigger] first_seen(s).contains(x) <==> s.contains(x),
    decreases s.len(),
{
    if s.len() > 0 {
        let before = first_seen(s.drop_last());
        lemma_first_seen(s.drop_last());
        assert forall|x: A| #[trigger] first_seen(s).contains(x) <==> s.contains(x) by {
            assert(s =~= s.drop_last().push(s.last()));
            lemma_push_contains(s.drop_last(), s.last(), x);
            lemma_push_contains(before, s.last(), x);
        }
    }
}

/// The elements of `s.push(y)` are those of `s`, and `y`.
pub(crate) proof fn lemma_push_contains<A>(s: Seq<A>, y: A, x: A)
    ensures
        s.push(y).contains(x) <==> s.contains(x) || x == y,
{
    if s.contains(x) {
        let i = choose|i: int| 0 <= i < s.len() && s[i] == x;
        assert(s.push(y)[i] == x);
    }
    assert(s.push(y)[s.len() as int] == y);
    if s.push(y).contains(x) {
        let i = choose|i: int| 0 <= i < s.push(y).len() && s.push(y)[i] == x;
        assert(i == s.len() || s[i] == x);
    }
}

/// Leaving repetitions out of the front changes nothing.
pub(crate) proof fn lemma_first_seen_absorbs<A>(a: Seq<A>, b: Seq<A>)
    ensures
        first_seen(first_seen(a) + b) == first_seen(a + b),
    decreases b.len(),
{
    if b.len() == 0 {
        assert(first_seen(a) + b =~= first_seen(a));
        assert(a + b =~= a);
        lemma_first_seen(a);
        lemma_first_seen_of_distinct(first_seen(a));
    } else {
        lemma_first_seen_absorbs(a, b.drop_last());
        assert((first_seen(a) + b).drop_last() =~= first_seen(a) + b.drop_last());
        assert((a + b).drop_last() =~= a + b.drop_last());
    }
}

/// One more commit adds to the graphs those that it is the first to register.
pub(crate) proof fn lemma_graph_iris_push<Flake>(
    commits: Seq<CommitModel<Flake>>,
    commit: CommitModel<Flake>,
)
    ensures
        graph_iris(commits.push(commit)) == first_seen(
            graph_iris(commits) + iris_in_id_order(commit.graph_delta),
        ),
{
    lemma_push(commits, commit);
    lemma_first_seen_absorbs(registrations(commits), iris_in_id_order(commit.graph_delta));
}

/// The flakes of a commit stand behind those of the commits before it.
pub(crate) proof fn lemma_flake_position<Flake>(commits: Seq<CommitModel<Flake>>, i: int, k: int)
    requires
        0 <= i < commits.len(),
        0 <= k < commits[i].flakes.len(),
    ensures
        all_flakes(commits.take(i)).len() + k < all_flakes(commits).len(),
        all_flakes(commits)[all_flakes(commits.take(i)).len() + k] == commits[i].flakes[k],
    decreases commits.len(),
{
    if i == commits.len() - 1 {
        assert(commits.take(i) =~= commits.drop_last());
    } else {
        lemma_flake_position(commits.drop_last(), i, k);
        assert(commits.drop_last().take(i) =~= commits.take(i));
    }
}

/// Folding a concatenation is folding its parts one after the other.
pub(crate) proof fn lemma_concat<Flake>(a: Seq<CommitModel<Flake>>, b: Seq<CommitModel<Flake>>)
    ensures
        all_flakes(a + b) == all_flakes(a) + all_flakes(b),
        merged_namespaces(a + b) == merged_namespaces(b).union_prefer_right(merged_namespaces(a)),
        registrations(a + b) == registrations(a) + registrations(b),
    decreases b.len(),
{
    if b.len() == 0 {
        assert(a + b =~= a);
        assert(all_flakes(a) + all_flakes(b) =~= all_flakes(a));
        assert(merged_namespaces(b).union_prefer_right(merged_namespaces(a))
            =~= merged_namespaces(a));
        assert(registrations(a) + registrations(b) =~= registrations(a));
    } else {
        lemma_concat(a, b.drop_last());
        assert((a + b).drop_last() =~= a + b.drop_last());
        assert(all_flakes(a + b) =~= all_flakes(a) + all_flakes(b));
        assert(merged_namespaces(a + b)
            =~= merged_namespaces(b).union_prefer_right(merged_namespaces(a)));
        assert(registrations(a + b) =~= registrations(a) + registrations(b));
    }
}

/// The elements of `a + b` are those of `a` and those of `b`.
pub(crate) proof fn lemma_concat_contains<A>(a: Seq<A>, b: Seq<A>, x: A)
    ensures
        (a + b).contains(x) <==> a.contains(x) || b.contains(x),
{
    if a.contains(x) {
        let i = choose|i: int| 0 <= i < a.len() && a[i] == x;
        assert((a + b)[i] == x);
    }
    if b.contains(x) {
        let i = choose|i: int| 0 <= i < b.len() && b[i] == x;
        assert((a + b)[a.len() + i] == x);
    }
    if (a + b).contains(x) {
        let i = choose|i: int| 0 <= i < (a + b).len() && (a + b)[i] == x;
        if i < a.len() {
            assert(a[i] == x);
        } else {
            assert(b[i - a.len()] == x);
        }
    }
}

/// The IRIs below a bound are those registered under a lower id.
pub(crate) proof fn lemma_iris_below_contains(
    delta: Map<TxnGraphId, Seq<char>>,
    bound: nat,
    iri: Seq<char>,
)
    requires
        bound <= u16::MAX + 1,
    ensures
        iris_below(delta, bound).contains(iri) <==> exists|id: TxnGraphId| #[trigger]
            delta.contains_key(id) && id.0 < bound && delta[id] == iri,
    decreases bound,
{
    if bound > 0 {
        let id = TxnGraphId((bound - 1) as u16);
        let below = iris_below(delta, (bound - 1) as nat);
        lemma_iris_below_contains(delta, (bound - 1) as nat, iri);
        if delta.contains_key(id) {
            lemma_concat_contains(below, seq![delta[id]], iri);
            assert(below.push(delta[id]) =~= below + seq![delta[id]]);
            assert(seq![delta[id]][0] == delta[id]);
        }
        assert forall|other: TxnGraphId| #[trigger]
            delta.contains_key(other) && other.0 < bound && delta[other] == iri implies iris_below(
            delta,
            bound,
        ).contains(iri) by {
            assert(other.0 < bound - 1 || other == id);
        }
    }
}

/// A higher bound adds IRIs at the end.
pub(crate) proof fn lemma_iris_below_prefix(delta: Map<TxnGraphId, Seq<char>>, low: nat, high: nat)
    requires
        low <= high,
    ensures
        iris_below(delta, low).is_prefix_of(iris_below(delta, high)),
    decreases high,
{
    if low < high {
        lemma_iris_below_prefix(delta, low, (high - 1) as nat);
    }
}

/// The registrations are those of the commits.
pub(crate) proof fn lemma_registrations_contain<Flake>(
    commits: Seq<CommitModel<Flake>>,
    iri: Seq<char>,
)
    ensures
        registrations(commits).contains(iri) <==> exists|i: int|
            0 <= i < commits.len() && (#[trigger] commits[i]).graph_delta.contains_value(iri),
    decreases commits.len(),
{
    if commits.len() > 0 {
        let front = commits.drop_last();
        let delta = commits.last().graph_delta;
        lemma_registrations_contain(front, iri);
        lemma_concat_contains(registrations(front), iris_in_id_order(delta), iri);
        lemma_iris_below_contains(delta, (u16::MAX + 1) as nat, iri);
        if iris_in_id_order(delta).contains(iri) {
            assert(commits[commits.len() - 1].graph_delta.contains_value(iri));
        }
        if registrations(front).contains(iri) {
            let i = choose|i: int|
                0 <= i < front.len() && (#[trigger] front[i]).graph_delta.contains_value(iri);
            assert(commits[i].graph_delta.contains_value(iri));
        }
        assert forall|i: int|
            0 <= i < commits.len() && (#[trigger] commits[i]).graph_delta.contains_value(
                iri,
            ) implies registrations(commits).contains(iri) by {
            if i < front.len() {
                assert(front[i].graph_delta.contains_value(iri));
            } else {
                let id = choose|id: TxnGraphId|
                    #[trigger] delta.dom().contains(id) && delta[id] == iri;
                assert(delta.contains_key(id));
            }
        }
    }
}

/// Numbering keeps every IRI, and adds none.
pub(crate) proof fn lemma_numbered_contains(iris: Seq<Seq<char>>, iri: Seq<char>)
    requires
        can_be_numbered(iris),
    ensures
        numbered(iris).contains_value(iri) <==> iris.contains(iri),
{
    if iris.contains(iri) {
        let i = choose|i: int| 0 <= i < iris.len() && iris[i] == iri;
        let id = TxnGraphId((FIRST_USER_GRAPH_ID + i) as u16);
        assert(numbered(iris).dom().contains(id) && numbered(iris)[id] == iri);
    }
    if numbered(iris).contains_value(iri) {
        let id = choose|id: TxnGraphId|
            numbered(iris).dom().contains(id) && #[trigger] numbered(iris)[id] == iri;
        assert(iris[id.0 - FIRST_USER_GRAPH_ID] == iri);
    }
}

/// Numbered IRIs below a bound are the first ones, as many as have got ids there.
pub(crate) proof fn lemma_numbered_below(iris: Seq<Seq<char>>, bound: nat)
    requires
        can_be_numbered(iris),
        bound <= u16::MAX + 1,
    ensures
        iris_below(numbered(iris), bound) == iris.take(
            if bound <= FIRST_USER_GRAPH_ID {
                0
            } else if bound <= FIRST_USER_GRAPH_ID + iris.len() {
                bound - FIRST_USER_GRAPH_ID
            } else {
                iris.len() as int
            },
        ),
    decreases bound,
{
    if bound > 0 {
        lemma_numbered_below(iris, (bound - 1) as nat);
        let id = TxnGraphId((bound - 1) as u16);
        if numbered(iris).contains_key(id) {
            let i = id.0 - FIRST_USER_GRAPH_ID;
            assert(iris.take(i).push(iris[i]) =~= iris.take(i + 1));
        }
    } else {
        assert(iris_below(numbered(iris), bound) =~= iris.take(0));
    }
}

/// What is first seen is not longer.
pub(crate) proof fn lemma_first_seen_len<A>(s: Seq<A>)
    ensures
        first_seen(s).len() <= s.len(),
    decreases s.len(),
{
    if s.len() > 0 {
        lemma_first_seen_len(s.drop_last());
    }
}

/// What is first seen of a front stays in front.
pub(crate) proof fn lemma_first_seen_prefix<A>(a: Seq<A>, b: Seq<A>)
    ensures
        first_seen(a).is_prefix_of(first_seen(a + b)),
    decreases b.len(),
{
    if b.len() == 0 {
        assert(a + b =~= a);
    } else {
        lemma_first_seen_prefix(a, b.drop_last());
        assert((a + b).drop_last() =~= a + b.drop_last());
    }
}

/// An element of the front comes before one that is not in the front.
pub(crate) proof fn lemma_first_seen_before<A>(a: Seq<A>, b: Seq<A>, i: int, j: int)
    requires
        0 <= i < first_seen(a + b).len(),
        0 <= j < first_seen(a + b).len(),
        a.contains(first_seen(a + b)[i]),
        !a.contains(first_seen(a + b)[j]),
    ensures
        i < j,
{
    let all = first_seen(a + b);
    lemma_first_seen(a);
    lemma_first_seen(a + b);
    lemma_first_seen_prefix(a, b);
    assert(first_seen(a).contains(all[i]));
    assert(!first_seen(a).contains(all[j]));
    let k = choose|k: int| 0 <= k < first_seen(a).len() && first_seen(a)[k] == all[i];
    assert(all[k] == all[i]);
    if j < first_seen(a).len() {
        assert(first_seen(a)[j] == all[j]);
    }
}

/// The folds of the deltas read the deltas alone.
pub(crate) proof fn lemma_deltas_alone<Flake, Other>(
    commits: Seq<CommitModel<Flake>>,
    others: Seq<CommitModel<Other>>,
)
    requires
        commits.len() == others.len(),
        forall|i: int|
            0 <= i < commits.len() ==> (#[trigger] commits[i]).namespace_delta
                == others[i].namespace_delta && commits[i].graph_delta == others[i].graph_delta,
    ensures
        merged_namespaces(commits) == merged_namespaces(others),
        registrations(commits) == registrations(others),
    decreases commits.len(),
{
    if commits.len() > 0 {
        let front = commits.drop_last();
        let others_front = others.drop_last();
        assert forall|i: int| 0 <= i < front.len() implies (#[trigger] front[i]).namespace_delta
            == others_front[i].namespace_delta && front[i].graph_delta
            == others_front[i].graph_delta by {
            assert(front[i] == commits[i]);
        }
        lemma_deltas_alone(front, others_front);
        assert(commits[commits.len() - 1] == commits.last());
    }
}

} // verus!

//! The fold over commits, on concrete commits.

use commit_data::{
    collect_from_commits, CollectedCommitData, Commit, GraphDelta, TxnGraphId, FIRST_USER_GRAPH_ID,
};
use std::collections::HashMap;

const G1: &str = "http://example.org/g1";
const G2: &str = "http://example.org/g2";
const G3: &str = "http://example.org/g3";

/// A fact with the time of its transaction and whether it is asserted.
#[derive(Clone, Debug, PartialEq)]
struct Flake {
    subject: String,
    object: String,
    t: i64,
    op: bool,
}

impl Flake {
    fn invert_at(self, t: i64) -> Flake {
        Flake { t, op: !self.op, ..self }
    }
}

fn flake(subject: &str, object: &str, t: i64, op: bool) -> Flake {
    Flake { subject: subject.to_string(), object: object.to_string(), t, op }
}

fn graphs(entries: &[(u16, &str)]) -> GraphDelta {
    let mut delta = GraphDelta::new();
    for (id, iri) in entries {
        delta.insert(TxnGraphId(*id), iri.to_string());
    }
    delta
}

fn commit(flakes: Vec<Flake>, namespaces: &[(u16, &str)], named: &[(u16, &str)]) -> Commit<Flake> {
    let mut namespace_delta: HashMap<u16, String> = HashMap::new();
    for (code, prefix) in namespaces {
        namespace_delta.insert(*code, prefix.to_string());
    }
    Commit { flakes, namespace_delta, graph_delta: graphs(named) }
}

/// The graphs of a delta, by ascending id.
fn listed(delta: &GraphDelta) -> Vec<(u16, String)> {
    let mut out: Vec<(u16, String)> = Vec::new();
    for id in delta.ids() {
        out.push((id.0, delta.get(id).unwrap().clone()));
    }
    out
}

fn pairs(entries: &[(u16, &str)]) -> Vec<(u16, String)> {
    entries.iter().map(|(id, iri)| (*id, iri.to_string())).collect()
}

/// The prefixes of a bundle, by ascending code.
fn prefixes(data: &CollectedCommitData<Flake>) -> Vec<(u16, String)> {
    let mut out: Vec<(u16, String)> =
        data.namespace_delta.iter().map(|(code, prefix)| (*code, prefix.clone())).collect();
    out.sort();
    out
}

fn merge(commits: Vec<Commit<Flake>>) -> CollectedCommitData<Flake> {
    collect_from_commits(commits.into_iter(), std::convert::identity)
}

fn as_commit(data: CollectedCommitData<Flake>) -> Commit<Flake> {
    Commit {
        flakes: data.flakes,
        namespace_delta: data.namespace_delta,
        graph_delta: data.graph_delta,
    }
}

#[test]
fn a_branch_registering_one_named_graph_merges() {
    let data = merge(vec![commit(vec![flake("ex:a", "in-g1", 2, true)], &[], &[(3, G1)])]);
    assert_eq!(listed(&data.graph_delta), pairs(&[(3, G1)]));
    assert_eq!(data.flakes, vec![flake("ex:a", "in-g1", 2, true)]);
}

#[test]
fn a_branch_registering_two_named_graphs_merges_both() {
    let data = merge(vec![
        commit(vec![flake("ex:a", "in-g1", 2, true)], &[], &[(3, G1)]),
        commit(vec![flake("ex:b", "in-g2", 3, true)], &[], &[(3, G2)]),
    ]);
    assert_eq!(data.graph_delta.get(TxnGraphId(3)).unwrap(), G1);
    assert_eq!(data.graph_delta.get(TxnGraphId(4)).unwrap(), G2);
    assert_eq!(listed(&data.graph_delta), pairs(&[(3, G1), (4, G2)]));
    assert_eq!(
        data.flakes,
        vec![flake("ex:a", "in-g1", 2, true), flake("ex:b", "in-g2", 3, true)]
    );
}

#[test]
fn no_commits_add_up_to_nothing() {
    let data = merge(vec![]);
    assert!(data.flakes.is_empty());
    assert!(data.namespace_delta.is_empty());
    assert!(data.graph_delta.ids().is_empty());
    let empty: CollectedCommitData<Flake> = CollectedCommitData::default();
    assert!(empty.flakes.is_empty());
    assert!(empty.namespace_delta.is_empty());
    assert!(empty.graph_delta.ids().is_empty());
}

#[test]
fn the_earliest_prefix_of_a_code_wins() {
    let data = merge(vec![
        commit(vec![], &[(20, "http://a/"), (21, "http://b/")], &[]),
        commit(vec![], &[(20, "http://late/"), (22, "http://c/")], &[]),
        commit(vec![], &[(22, "http://later/"), (20, "http://latest/")], &[]),
    ]);
    assert_eq!(
        prefixes(&data),
        pairs(&[(20, "http://a/"), (21, "http://b/"), (22, "http://c/")])
    );
}

#[test]
fn a_graph_registered_again_gets_one_id() {
    let data = merge(vec![
        commit(vec![], &[], &[(3, G1)]),
        commit(vec![], &[], &[(3, G2), (4, G1)]),
        commit(vec![], &[], &[(3, G1), (4, G3)]),
    ]);
    assert_eq!(listed(&data.graph_delta), pairs(&[(3, G1), (4, G2), (5, G3)]));
}

#[test]
fn one_iri_under_two_ids_of_a_commit_gets_one_id() {
    let data = merge(vec![commit(vec![], &[], &[(3, G1), (4, G2), (5, G1)])]);
    assert_eq!(listed(&data.graph_delta), pairs(&[(3, G1), (4, G2)]));
}

#[test]
fn the_graphs_of_a_commit_keep_the_order_of_their_ids() {
    let data = merge(vec![commit(vec![], &[], &[(9, G2), (700, G1), (0, G3)])]);
    assert_eq!(listed(&data.graph_delta), pairs(&[(3, G3), (4, G2), (5, G1)]));
}

#[test]
fn many_graphs_of_one_commit_are_numbered_alike_every_time() {
    let iris: Vec<String> = (0..300).map(|i| format!("http://example.org/{i}")).collect();
    let entries: Vec<(u16, &str)> =
        iris.iter().enumerate().map(|(i, iri)| (3 + i as u16, iri.as_str())).collect();
    for _ in 0..5 {
        let data = merge(vec![commit(vec![], &[], &entries)]);
        assert_eq!(listed(&data.graph_delta), pairs(&entries));
    }
}

#[test]
fn an_earlier_graph_has_the_lower_id() {
    let data = merge(vec![
        commit(vec![], &[], &[(8, G3)]),
        commit(vec![], &[], &[(3, G1)]),
        commit(vec![], &[], &[(3, G2)]),
    ]);
    assert_eq!(listed(&data.graph_delta), pairs(&[(3, G3), (4, G1), (5, G2)]));
}

#[test]
fn later_commits_change_neither_numbers_nor_prefixes() {
    let first = || commit(vec![flake("ex:a", "1", 1, true)], &[(20, "http://a/")], &[(3, G2)]);
    let second = || commit(vec![flake("ex:b", "2", 2, true)], &[(20, "http://b/")], &[(3, G1)]);
    let short = merge(vec![first()]);
    let long = merge(vec![first(), second()]);
    assert_eq!(listed(&short.graph_delta), pairs(&[(3, G2)]));
    assert_eq!(listed(&long.graph_delta), pairs(&[(3, G2), (4, G1)]));
    assert_eq!(prefixes(&short), prefixes(&long));
    assert_eq!(short.flakes[..], long.flakes[..1]);
}

#[test]
fn a_merge_keeps_the_flakes_in_order() {
    let data = merge(vec![
        commit(vec![flake("ex:a", "1", 1, true), flake("ex:a", "2", 1, false)], &[], &[]),
        commit(vec![], &[], &[]),
        commit(vec![flake("ex:b", "3", 2, true)], &[], &[]),
    ]);
    assert_eq!(
        data.flakes,
        vec![
            flake("ex:a", "1", 1, true),
            flake("ex:a", "2", 1, false),
            flake("ex:b", "3", 2, true),
        ]
    );
}

#[test]
fn a_revert_turns_every_flake_over_and_leaves_the_deltas() {
    let commits = || {
        vec![
            commit(vec![flake("ex:a", "1", 5, true)], &[(20, "http://a/")], &[(3, G1)]),
            commit(vec![flake("ex:a", "1", 6, false)], &[(21, "http://b/")], &[(3, G2)]),
        ]
    };
    let kept = merge(commits());
    let undone = collect_from_commits(commits().into_iter(), |f: Flake| f.invert_at(0));
    assert_eq!(
        undone.flakes,
        vec![flake("ex:a", "1", 0, false), flake("ex:a", "1", 0, true)]
    );
    assert_eq!(prefixes(&undone), prefixes(&kept));
    assert_eq!(listed(&undone.graph_delta), listed(&kept.graph_delta));
}

#[test]
fn the_transform_may_count_the_flakes() {
    let mut count: i64 = 0;
    let data = collect_from_commits(
        vec![
            commit(vec![flake("ex:a", "1", 0, true), flake("ex:b", "2", 0, true)], &[], &[]),
            commit(vec![flake("ex:c", "3", 0, true)], &[], &[]),
        ]
        .into_iter(),
        |f: Flake| {
            count += 1;
            Flake { t: count, ..f }
        },
    );
    assert_eq!(count, 3);
    let times: Vec<i64> = data.flakes.iter().map(|f| f.t).collect();
    assert_eq!(times, vec![1, 2, 3]);
}

#[test]
fn a_bundle_stands_in_for_its_commits() {
    let a = || commit(vec![flake("ex:a", "1", 1, true)], &[(20, "http://a/")], &[(3, G2)]);
    let b = || commit(vec![flake("ex:b", "2", 2, true)], &[(20, "http://b/")], &[(3, G1)]);
    let c = || commit(vec![flake("ex:c", "3", 3, true)], &[(21, "http://c/")], &[(3, G1), (4, G3)]);
    let at_once = merge(vec![a(), b(), c()]);
    let in_steps = merge(vec![as_commit(merge(vec![a(), b()])), c()]);
    assert_eq!(listed(&at_once.graph_delta), pairs(&[(3, G2), (4, G1), (5, G3)]));
    assert_eq!(listed(&in_steps.graph_delta), listed(&at_once.graph_delta));
    assert_eq!(prefixes(&in_steps), prefixes(&at_once));
    assert_eq!(in_steps.flakes, at_once.flakes);
    let again = merge(vec![as_commit(in_steps)]);
    assert_eq!(listed(&again.graph_delta), listed(&at_once.graph_delta));
}

#[test]
fn numbers_start_at_the_first_user_graph_id() {
    assert_eq!(FIRST_USER_GRAPH_ID, 3);
    let data = merge(vec![commit(vec![], &[], &[(65535, G1)])]);
    assert_eq!(data.graph_delta.ids(), vec![TxnGraphId(FIRST_USER_GRAPH_ID)]);
    assert!(data.graph_delta.get(TxnGraphId(65535)).is_none());
}

#[test]
fn a_graph_delta_holds_what_was_inserted_last() {
    let mut delta = GraphDelta::new();
    assert!(delta.get(TxnGraphId(3)).is_none());
    delta.insert(TxnGraphId(4), G1.to_string());
    delta.insert(TxnGraphId(3), G2.to_string());
    delta.insert(TxnGraphId(4), G3.to_string());
    assert_eq!(delta.ids(), vec![TxnGraphId(3), TxnGraphId(4)]);
    assert_eq!(delta.get(TxnGraphId(4)).unwrap(), G3);
    assert_eq!(delta.get(TxnGraphId(3)).unwrap(), G2);
}

# commit_data

Folds a sequence of commits into one: the flakes in order, each passed through a
transform; the union of the namespace deltas, in which earlier commits win; and
every named graph that any of the commits registered, numbered anew.

Each transaction numbers its graphs for itself, so the ids of two commits say
nothing about each other. The fold therefore gathers graphs by IRI. It numbers
them from `FIRST_USER_GRAPH_ID` in first-seen order: commit by commit, and within
a commit by ascending id, which is the order in which the transaction named them.

- `src/graph_delta.rs`: transaction-local graph ids and graph deltas
- `src/commit.rs`: commits and bundles
- `src/model.rs`: what a sequence of commits adds up to, as mathematics
- `src/collect.rs`: the fold, `collect_from_commits`, with its contract
- `src/laws.rs`: what holds of every fold
- `src/lemmas.rs`, `src/order.rs`: proof steps, and keys in ascending order

//! The order in which nodes and inputs are stored decides nothing but the
//! order in which they are listed: two graphs that hold the same nodes with
//! the same inputs resolve every reference alike, and a walk that can be
//! completed in one is completed in the other with the same counts.

use vstd::prelude::*;
use vstd::seq_lib::{to_multiset_contains, to_multiset_len, to_multiset_remove};
use crate::model::{EdgeSpec, GraphSpec, NodeSpec};
use crate::table::{distinct_keys, has_key, lookup, position};

verus! {

/// The two nodes have the same lock record and the same inputs, in
/// whatever order.
pub open spec fn same_node<M>(a: NodeSpec<M>, b: NodeSpec<M>) -> bool {
    &&& a.lock == b.lock
    &&& a.inputs.to_multiset() == b.inputs.to_multiset()
}

/// The two graphs have the same root and version, and under every index
/// the same node or none.
pub open spec fn same_graph<M>(a: GraphSpec<M>, b: GraphSpec<M>) -> bool {
    &&& a.root == b.root
    &&& a.version == b.version
    &&& forall|index: Seq<char>|
        #![trigger a.node(index)]
        #![trigger b.node(index)]
        match (a.node(index), b.node(index)) {
            (Some(x), Some(y)) => same_node(x, y),
            (None, None) => true,
            _ => false,
        }
}

/// Tables that hold the same entries give the same value for every key.
pub proof fn lemma_same_lookup<V>(
    a: Seq<(Seq<char>, V)>,
    b: Seq<(Seq<char>, V)>,
    key: Seq<char>,
)
    requires
        distinct_keys(a),
        distinct_keys(b),
        a.to_multiset() == b.to_multiset(),
    ensures
        lookup(a, key) == lookup(b, key),
{
    if has_key(a, key) {
        let i = position(a, key);
        lemma_found_in_both(a, b, i);
    }
    if has_key(b, key) {
        let i = position(b, key);
        lemma_found_in_both(b, a, i);
    }
}

/// An entry of one table is found in every table that holds the same
/// entries.
proof fn lemma_found_in_both<V>(a: Seq<(Seq<char>, V)>, b: Seq<(Seq<char>, V)>, i: int)
    requires
        distinct_keys(a),
        distinct_keys(b),
        a.to_multiset() == b.to_multiset(),
        0 <= i < a.len(),
    ensures
        lookup(a, a[i].0) == Some(a[i].1),
        lookup(b, a[i].0) == Some(a[i].1),
{
    let entry = a[i];
    to_multiset_contains(a, entry);
    to_multiset_contains(b, entry);
}

/// Graphs that hold the same nodes hold the same reference under every
/// input name of every node.
pub proof fn lemma_same_edge<M>(a: GraphSpec<M>, b: GraphSpec<M>, from: Seq<char>, name: Seq<char>)
    requires
        a.well_formed(),
        b.well_formed(),
        same_graph(a, b),
    ensures
        a.edge(from, name) == b.edge(from, name),
{
    match (a.node(from), b.node(from)) {
        (Some(x), Some(y)) => {
            lemma_same_lookup(x.inputs, y.inputs, name);
        },
        _ => {},
    }
}

/// Graphs that hold the same nodes walk every path alike.
pub proof fn lemma_same_walk<M>(
    a: GraphSpec<M>,
    b: GraphSpec<M>,
    from: Seq<char>,
    path: Seq<Seq<char>>,
    reach: nat,
)
    requires
        a.well_formed(),
        b.well_formed(),
        same_graph(a, b),
    ensures
        a.walk(from, path, reach) == b.walk(from, path, reach),
    decreases reach, path.len() + 1,
{
    if path.len() > 0 {
        let name = path.first();
        lemma_same_edge(a, b, from, name);
        match a.edge(from, name) {
            Some(EdgeSpec::Follows(inner)) => {
                if reach > 0 {
                    lemma_same_walk(a, b, a.root, inner, (reach - 1) as nat);
                }
            },
            _ => {},
        }
        assert(a.step(from, name, reach) == b.step(from, name, reach));
        match a.step(from, name, reach) {
            Ok(next) => {
                lemma_same_walk(a, b, next, path.drop_first(), reach);
            },
            Err(_) => {},
        }
    }
}

/// A completed walk through some inputs is the walk through one of them
/// and the walk through the others.
pub proof fn lemma_visit_edges_apart<M>(
    g: GraphSpec<M>,
    edges: Seq<(Seq<char>, EdgeSpec)>,
    at: int,
    depth: nat,
    reach: nat,
)
    requires
        g.visit_edges(edges, depth, reach) is Ok,
        0 <= at < edges.len(),
    ensures
        g.resolve(edges[at].1, reach) is Ok,
        g.visit(g.resolve(edges[at].1, reach)->Ok_0, depth, reach) is Ok,
        g.visit_edges(edges.remove(at), depth, reach) is Ok,
        g.visit_edges(edges, depth, reach)->Ok_0 == g.visit(
            g.resolve(edges[at].1, reach)->Ok_0,
            depth,
            reach,
        )->Ok_0.add(g.visit_edges(edges.remove(at), depth, reach)->Ok_0),
    decreases at,
{
    let rest = edges.drop_first();
    if at > 0 {
        lemma_visit_edges_apart(g, rest, at - 1, depth, reach);
        let others = edges.remove(at);
        assert(others.drop_first() =~= rest.remove(at - 1));
    }
}

/// A completed walk through some inputs reaches the same nodes as often in
/// whatever order the inputs are taken.
pub proof fn lemma_visit_edges_in_any_order<M>(
    g: GraphSpec<M>,
    edges: Seq<(Seq<char>, EdgeSpec)>,
    others: Seq<(Seq<char>, EdgeSpec)>,
    depth: nat,
    reach: nat,
)
    requires
        g.visit_edges(edges, depth, reach) is Ok,
        edges.to_multiset() == others.to_multiset(),
    ensures
        g.visit_edges(others, depth, reach) == g.visit_edges(edges, depth, reach),
    decreases others.len(),
{
    to_multiset_len(edges);
    to_multiset_len(others);
    if others.len() > 0 {
        let entry = others.first();
        to_multiset_contains(others, entry);
        to_multiset_contains(edges, entry);
        let at = choose|at: int| 0 <= at < edges.len() && edges[at] == entry;
        lemma_visit_edges_apart(g, edges, at, depth, reach);
        to_multiset_remove(edges, at);
        to_multiset_remove(others, 0);
        lemma_visit_edges_in_any_order(g, edges.remove(at), others.drop_first(), depth, reach);
    }
}

/// A walk that is completed in one graph is completed, with the same
/// counts, in every graph that holds the same nodes.
pub proof fn lemma_same_visit<M>(
    a: GraphSpec<M>,
    b: GraphSpec<M>,
    index: Seq<char>,
    depth: nat,
    reach: nat,
)
    requires
        a.well_formed(),
        b.well_formed(),
        same_graph(a, b),
        a.visit(index, depth, reach) is Ok,
    ensures
        b.visit(index, depth, reach) == a.visit(index, depth, reach),
    decreases depth, 0nat,
{
    let x = a.node(index)->Some_0;
    let y = b.node(index)->Some_0;
    lemma_visit_edges_in_any_order(a, x.inputs, y.inputs, (depth - 1) as nat, reach);
    lemma_same_visit_edges(a, b, y.inputs, (depth - 1) as nat, reach);
}

/// A walk through some inputs that is completed in one graph is completed,
/// with the same counts, in every graph that holds the same nodes.
pub proof fn lemma_same_visit_edges<M>(
    a: GraphSpec<M>,
    b: GraphSpec<M>,
    edges: Seq<(Seq<char>, EdgeSpec)>,
    depth: nat,
    reach: nat,
)
    requires
        a.well_formed(),
        b.well_formed(),
        same_graph(a, b),
        a.visit_edges(edges, depth, reach) is Ok,
    ensures
        b.visit_edges(edges, depth, reach) == a.visit_edges(edges, depth, reach),
    decreases depth, edges.len() + 1,
{
    if edges.len() > 0 {
        match edges.first().1 {
            EdgeSpec::Indexed(_) => {},
            EdgeSpec::Follows(path) => {
                lemma_same_walk(a, b, a.root, path, reach);
            },
        }
        let target = a.resolve(edges.first().1, reach)->Ok_0;
        lemma_same_visit(a, b, target, depth, reach);
        lemma_same_visit_edges(a, b, edges.drop_first(), depth, reach);
    }
}

} // verus!

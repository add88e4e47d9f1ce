//! What holds of resolution, counting, rewriting and pruning on every well
//! formed graph.

use vstd::prelude::*;
use vstd::multiset::Multiset;
use crate::bounds::{
    lemma_inner_walk_fits, lemma_visit_deeper, lemma_visit_fits, lemma_walk_fits,
};
use crate::closure::{lemma_visit_closed, within};
use crate::cuts::{
    lemma_fewer_inputs, lemma_pruned_is_cut, lemma_reached_twice, lemma_visit_in_cut,
    lemma_walk_in_cut,
};
use crate::model::{cut_short, EdgeSpec, GraphError, GraphSpec};
use crate::order::{lemma_same_visit, lemma_same_walk, same_graph};
use crate::prune::{missed_by, reached_by};
use crate::substitute::{lemma_redirected_twice, lemma_substituted_keys, redirected_inputs};
use crate::table::{lemma_lookup_at, position};
use crate::visits::{saturated, tally};
use crate::walks::{lemma_walk_farther, lemma_walk_push};

verus! {

/// A direct reference resolves to the index it names, whatever the graph
/// holds and however little reach is allowed.
pub proof fn law_indexed_resolves_to_its_index<M>(g: GraphSpec<M>, index: Seq<char>, reach: nat)
    ensures
        g.resolve(EdgeSpec::Indexed(index), reach) == Ok::<Seq<char>, GraphError>(index),
{
}

/// Resolution of a path is a left fold over its names: the path with one
/// more name leads to where that name's input leads from the end of the
/// shorter path.
pub proof fn law_follow_is_left_fold<M>(
    g: GraphSpec<M>,
    path: Seq<Seq<char>>,
    name: Seq<char>,
    reach: nat,
)
    ensures
        g.follow(path.push(name), reach) == match g.follow(path, reach) {
            Ok(at) => g.step(at, name, reach),
            Err(error) => Err(error),
        },
{
    lemma_walk_push(g, g.root, path, name, reach);
}

/// More reach does not change the resolution of a reference that was not
/// cut short.
pub proof fn law_more_reach_changes_nothing<M>(
    g: GraphSpec<M>,
    edge: EdgeSpec,
    reach: nat,
    farther: nat,
)
    requires
        reach <= farther,
        !cut_short(g.resolve(edge, reach)),
    ensures
        g.resolve(edge, farther) == g.resolve(edge, reach),
{
    match edge {
        EdgeSpec::Indexed(_) => {},
        EdgeSpec::Follows(path) => {
            lemma_walk_farther(g, g.root, path, reach, farther);
        },
    }
}

/// The reach of the graph is wide enough: a resolution that some reach
/// does not cut short is not cut short by the reach of the graph, and has
/// the same outcome.
pub proof fn law_resolution_fits_the_graph<M>(g: GraphSpec<M>, edge: EdgeSpec, reach: nat)
    requires
        !cut_short(g.resolve(edge, reach)),
    ensures
        g.resolve(edge, g.reach()) == g.resolve(edge, reach),
{
    match edge {
        EdgeSpec::Indexed(_) => {},
        EdgeSpec::Follows(path) => {
            lemma_walk_fits(g, g.root, path, reach);
        },
    }
}

/// The reach of the graph decides every resolution: with more reach the
/// outcome is the same. A reference that is found to run in a circle
/// within the reach of the graph cannot be resolved with any reach.
pub proof fn law_reach_decides_resolution<M>(g: GraphSpec<M>, edge: EdgeSpec, reach: nat)
    requires
        g.reach() <= reach,
    ensures
        g.resolve(edge, reach) == g.resolve(edge, g.reach()),
{
    if cut_short(g.resolve(edge, reach)) {
        if !cut_short(g.resolve(edge, g.reach())) {
            law_more_reach_changes_nothing(g, edge, g.reach(), reach);
        }
    } else {
        law_resolution_fits_the_graph(g, edge, reach);
    }
}

/// Resolution is a left fold over the path: the path with one more name
/// resolves to what the reference found under that name, at the node that
/// the shorter path resolves to, resolves to.
pub proof fn law_follow_resolves_last_input<M>(
    g: GraphSpec<M>,
    path: Seq<Seq<char>>,
    name: Seq<char>,
)
    ensures
        g.follow(path.push(name), g.reach()) == match g.follow(path, g.reach()) {
            Ok(at) => match g.edge(at, name) {
                Some(edge) => g.resolve(edge, g.reach()),
                None => Err(GraphError::Dangling),
            },
            Err(error) => Err(error),
        },
{
    lemma_walk_push(g, g.root, path, name, g.reach());
    match g.follow(path, g.reach()) {
        Ok(at) => {
            match g.edge(at, name) {
                Some(EdgeSpec::Follows(_)) => {
                    lemma_inner_walk_fits(g, at, name);
                },
                _ => {},
            }
        },
        Err(_) => {},
    }
}

/// A path of two names resolves to what is found by resolving the root's
/// input of the first name and then, at the node found, the input of the
/// second name.
pub proof fn law_follow_resolves_both_inputs<M>(
    g: GraphSpec<M>,
    first: Seq<char>,
    second: Seq<char>,
)
    ensures
        g.resolve(EdgeSpec::Follows(seq![first, second]), g.reach()) == match g.edge(
            g.root,
            first,
        ) {
            Some(edge) => match g.resolve(edge, g.reach()) {
                Ok(at) => match g.edge(at, second) {
                    Some(edge) => g.resolve(edge, g.reach()),
                    None => Err(GraphError::Dangling),
                },
                Err(error) => Err(error),
            },
            None => Err(GraphError::Dangling),
        },
{
    let none = Seq::<Seq<char>>::empty();
    let one = seq![first];
    assert(seq![first, second] =~= one.push(second));
    law_follow_resolves_last_input(g, none, first);
    law_follow_resolves_last_input(g, one, second);
}

/// The depth of the graph is deep enough: a walk that some depth and reach
/// do not cut short is not cut short by the depth and the reach of the
/// graph, and has the same outcome.
pub proof fn law_walk_fits_the_graph<M>(g: GraphSpec<M>, index: Seq<char>, depth: nat, reach: nat)
    requires
        !cut_short(g.visit(index, depth, reach)),
    ensures
        g.visit(index, g.depth(), g.reach()) == g.visit(index, depth, reach),
{
    lemma_visit_fits(g, index, depth, reach);
}

/// The depth and the reach of the graph decide every walk: with more depth
/// and more reach the outcome is the same. A walk that is found to run in
/// a circle within the bounds of the graph cannot be completed within any.
pub proof fn law_depth_decides_walks<M>(g: GraphSpec<M>, index: Seq<char>, depth: nat, reach: nat)
    requires
        g.depth() <= depth,
        g.reach() <= reach,
    ensures
        g.visit(index, depth, reach) == g.visit(index, g.depth(), g.reach()),
{
    if cut_short(g.visit(index, depth, reach)) {
        if !cut_short(g.visit(index, g.depth(), g.reach())) {
            lemma_visit_deeper(g, index, g.depth(), g.reach(), depth, reach);
        }
    } else {
        lemma_visit_fits(g, index, depth, reach);
    }
}

/// The order in which nodes and inputs are stored is irrelevant: two well
/// formed graphs that hold the same nodes with the same inputs resolve
/// every reference alike, and complete the same walks with the same counts.
pub proof fn law_order_is_irrelevant<M>(
    a: GraphSpec<M>,
    b: GraphSpec<M>,
    edge: EdgeSpec,
    index: Seq<char>,
)
    requires
        a.well_formed(),
        b.well_formed(),
        same_graph(a, b),
    ensures
        a.resolve(edge, a.reach()) == b.resolve(edge, b.reach()),
        a.visit(index, a.depth(), a.reach()) is Ok <==> b.visit(index, b.depth(), b.reach()) is Ok,
        a.visit(index, a.depth(), a.reach()) is Ok ==> a.visit(index, a.depth(), a.reach())
            == b.visit(index, b.depth(), b.reach()),
{
    let reach = a.reach() + b.reach();
    let depth = a.depth() + b.depth();
    law_reach_decides_resolution(a, edge, reach);
    law_reach_decides_resolution(b, edge, reach);
    match edge {
        EdgeSpec::Indexed(_) => {},
        EdgeSpec::Follows(path) => {
            lemma_same_walk(a, b, a.root, path, reach);
        },
    }
    law_depth_decides_walks(a, index, depth, reach);
    law_depth_decides_walks(b, index, depth, reach);
    if a.visit(index, depth, reach) is Ok {
        lemma_same_visit(a, b, index, depth, reach);
    }
    if b.visit(index, depth, reach) is Ok {
        lemma_same_visit(b, a, index, depth, reach);
    }
}

/// Counting is total: there is exactly one counter for each node, under the
/// node's index and in the node's place; it is zero exactly when the walk
/// never reached the node, and otherwise the number of times it did, up to
/// the greatest number that a counter holds.
pub proof fn law_every_node_has_one_counter<V>(
    nodes: Seq<(Seq<char>, V)>,
    visits: Multiset<Seq<char>>,
)
    ensures
        tally(nodes, visits).len() == nodes.len(),
        forall|i: int|
            0 <= i < nodes.len() ==> {
                let counter = #[trigger] tally(nodes, visits)[i];
                &&& counter.0 == nodes[i].0
                &&& counter.1 == saturated(visits.count(nodes[i].0) as int)
                &&& (counter.1 == 0 <==> visits.count(nodes[i].0) == 0)
                &&& (visits.count(nodes[i].0) <= u32::MAX ==> counter.1 == visits.count(nodes[i].0))
            },
{
}

/// The root survives pruning: a completed walk from the root has reached
/// the root, and the pruned graph holds the root node as it was.
pub proof fn law_root_survives_pruning<M>(g: GraphSpec<M>)
    requires
        g.well_formed(),
        g.walked() is Ok,
    ensures
        g.walked()->Ok_0.count(g.root) > 0,
        g.node(g.root) is Some,
        g.pruned(g.walked()->Ok_0).node(g.root) == g.node(g.root),
{
    lemma_pruned_is_cut(g, g.depth(), g.reach());
}

/// Pruning twice is pruning once: in the pruned graph the walk from the
/// root is completed as before and reaches what it reached before, which
/// is every node that is left, so a second pruning removes nothing.
pub proof fn law_pruning_is_idempotent<M>(g: GraphSpec<M>)
    requires
        g.well_formed(),
        g.walked() is Ok,
    ensures
        ({
            let once = g.pruned(g.walked()->Ok_0);
            &&& once.well_formed()
            &&& once.walked() == g.walked()
            &&& once.pruned(once.walked()->Ok_0) == once
            &&& once.orphans(once.walked()->Ok_0) == Seq::<Seq<char>>::empty()
        }),
{
    let visits = g.walked()->Ok_0;
    let once = g.pruned(visits);
    lemma_pruned_is_cut(g, g.depth(), g.reach());
    lemma_visit_closed(g, g.root, g.depth(), g.reach());
    lemma_visit_in_cut(once, g, visits, g.root, g.depth(), g.reach());
    lemma_visit_fits(once, g.root, g.depth(), g.reach());
    lemma_reached_twice(g.nodes, visits);
    once.nodes.lemma_all_neg_filter_empty(missed_by(visits));
}

/// Pruning leaves every reference of a node that stays as good as it was:
/// whatever an input of a reached node resolved to, it resolves to in the
/// pruned graph, and what could not be resolved cannot be resolved there.
pub proof fn law_pruning_keeps_resolutions<M>(g: GraphSpec<M>, index: Seq<char>, name: Seq<char>)
    requires
        g.well_formed(),
        g.walked() is Ok,
        g.walked()->Ok_0.count(index) > 0,
    ensures
        ({
            let once = g.pruned(g.walked()->Ok_0);
            &&& once.edge(index, name) == g.edge(index, name)
            &&& g.edge(index, name) matches Some(edge) ==> once.resolve(edge, once.reach())
                == g.resolve(edge, g.reach())
        }),
{
    let visits = g.walked()->Ok_0;
    let once = g.pruned(visits);
    lemma_pruned_is_cut(g, g.depth(), g.reach());
    lemma_visit_closed(g, g.root, g.depth(), g.reach());
    match g.edge(index, name) {
        Some(EdgeSpec::Follows(path)) => {
            lemma_walk_in_cut(once, g, visits, g.root, path, g.reach());
            lemma_fewer_inputs(g.nodes, reached_by(visits));
            law_reach_decides_resolution(once, EdgeSpec::Follows(path), g.reach());
        },
        _ => {},
    }
}

/// Rewriting twice is rewriting once: where the rewrite can be made, it can
/// be made again on its result, and then changes nothing. This holds of
/// both kinds of rewrite.
pub proof fn law_substitution_is_idempotent<M>(g: GraphSpec<M>, indexed: bool)
    requires
        g.well_formed(),
        g.substitution_error() is None,
    ensures
        ({
            let once = g.substituted(indexed);
            &&& once.well_formed()
            &&& once.substitution_error() is None
            &&& once.substituted(indexed) == once
        }),
{
    let once = g.substituted(indexed);
    let inputs = g.root_inputs();
    lemma_substituted_keys(g, indexed);
    assert forall|at: int| 0 <= at < inputs.len() implies !once.names_missing_node(at) by {
        assert(!g.names_missing_node(at));
    }
    assert(once.substituted(indexed).nodes =~= once.nodes) by {
        assert forall|i: int| 0 <= i < once.nodes.len() implies once.substituted(indexed).nodes[i]
            == once.nodes[i] by {
            lemma_redirected_twice(inputs, indexed, g.nodes[i].1.inputs);
        }
    }
}

/// What the rewrite is for: an input that has been redirected resolves to
/// whatever the root's input of the same name resolves to, whether it
/// follows that input or holds a copy of its reference.
pub proof fn law_redirected_input_tracks_the_root<M>(
    g: GraphSpec<M>,
    indexed: bool,
    index: Seq<char>,
    name: Seq<char>,
)
    requires
        g.well_formed(),
        g.substitution_error() is None,
        g.is_direct_input(index),
        g.edge(index, name) is Some,
        g.edge(g.root, name) is Some,
    ensures
        ({
            let after = g.substituted(indexed);
            let root_edge = g.edge(g.root, name)->Some_0;
            &&& after.edge(after.root, name) == Some(root_edge)
            &&& after.edge(index, name) == Some(
                if indexed {
                    root_edge
                } else {
                    EdgeSpec::Follows(seq![name])
                },
            )
            &&& after.resolve(after.edge(index, name)->Some_0, after.reach()) == after.resolve(
                root_edge,
                after.reach(),
            )
        }),
{
    let after = g.substituted(indexed);
    let inputs = g.root_inputs();
    let at = position(g.nodes, index);
    let node = g.nodes[at].1;
    let redirected = redirected_inputs(inputs, indexed, node.inputs);
    assert(after.nodes[at].1.inputs == redirected);
    let input = position(node.inputs, name);
    lemma_lookup_at(redirected, input);
    let root_at = position(g.nodes, g.root);
    assert(after.nodes[root_at] == g.nodes[root_at]);
    if !indexed {
        let none = Seq::<Seq<char>>::empty();
        law_follow_resolves_last_input(after, none, name);
    }
}

/// The rewrite adds no node and removes none, and changes neither the root
/// index nor the version.
pub proof fn law_substitution_keeps_the_nodes<M>(g: GraphSpec<M>, indexed: bool)
    requires
        g.well_formed(),
    ensures
        g.substituted(indexed).root == g.root,
        g.substituted(indexed).version == g.version,
        g.substituted(indexed).nodes.len() == g.nodes.len(),
        forall|i: int|
            0 <= i < g.nodes.len() ==> (#[trigger] g.substituted(indexed).nodes[i]).0
                == g.nodes[i].0,
{
}

} // verus!

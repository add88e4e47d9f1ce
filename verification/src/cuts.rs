//! A graph cut down to what a walk from its root has reached: resolution
//! and walks are the same in it as in the whole graph.

use vstd::prelude::*;
use vstd::multiset::Multiset;
use crate::closure::{closed_in, node_closed, within};
use crate::model::{count_inputs, EdgeSpec, GraphSpec, NodeSpec};
use crate::prune::reached_by;
use crate::table::{distinct_keys, lemma_lookup_push, lookup};

verus! {

/// Filtering a table by what `visits` holds keeps the keys distinct, keeps
/// every entry whose key `visits` holds as it was, and leaves no other.
pub proof fn lemma_reached_lookup<V>(entries: Seq<(Seq<char>, V)>, visits: Multiset<Seq<char>>)
    requires
        distinct_keys(entries),
    ensures
        distinct_keys(entries.filter(reached_by(visits))),
        forall|key: Seq<char>|
            #![trigger lookup(entries.filter(reached_by(visits)), key)]
            lookup(entries.filter(reached_by(visits)), key) == if visits.count(key) > 0 {
                lookup(entries, key)
            } else {
                None
            },
        forall|i: int|
            0 <= i < entries.filter(reached_by(visits)).len() ==> visits.count(
                (#[trigger] entries.filter(reached_by(visits))[i]).0,
            ) > 0,
    decreases entries.len(),
{
    let keep = reached_by::<V>(visits);
    let kept = entries.filter(keep);
    if entries.len() > 0 {
        let front = entries.drop_last();
        let last = entries.last();
        assert(entries =~= front.push(last));
        front.lemma_filter_push(last, keep);
        lemma_reached_lookup(front, visits);
        let before = front.filter(keep);
        if keep(last) {
            assert(lookup(before, last.0) is None);
            assert forall|key: Seq<char>| true implies #[trigger] lookup(kept, key) == if visits.count(
                key,
            ) > 0 {
                lookup(entries, key)
            } else {
                None
            } by {
                lemma_lookup_push(before, last, key);
            }
        }
    }
}

/// Filtering a second time by the same rule changes nothing.
pub proof fn lemma_reached_twice<V>(entries: Seq<(Seq<char>, V)>, visits: Multiset<Seq<char>>)
    ensures
        entries.filter(reached_by(visits)).filter(reached_by(visits)) == entries.filter(
            reached_by(visits),
        ),
    decreases entries.len(),
{
    let keep = reached_by::<V>(visits);
    if entries.len() > 0 {
        let front = entries.drop_last();
        let last = entries.last();
        assert(entries =~= front.push(last));
        front.lemma_filter_push(last, keep);
        lemma_reached_twice(front, visits);
        if keep(last) {
            front.filter(keep).lemma_filter_push(last, keep);
        }
    }
}

/// The graph `part` is the graph `whole` without some of its nodes: it has
/// the same root, every node that `kept` holds as `whole` has it, and no
/// other node.
pub open spec fn cut_to<M>(
    part: GraphSpec<M>,
    whole: GraphSpec<M>,
    kept: Multiset<Seq<char>>,
) -> bool {
    &&& part.root == whole.root
    &&& kept.count(whole.root) > 0
    &&& forall|index: Seq<char>|
        #![trigger part.node(index)]
        part.node(index) == if kept.count(index) > 0 {
            whole.node(index)
        } else {
            None
        }
}

/// Walks that start inside a closed part of a graph stay inside it, and
/// are the same in the graph cut to that part.
pub proof fn lemma_walk_in_cut<M>(
    part: GraphSpec<M>,
    whole: GraphSpec<M>,
    kept: Multiset<Seq<char>>,
    from: Seq<char>,
    path: Seq<Seq<char>>,
    reach: nat,
)
    requires
        whole.well_formed(),
        cut_to(part, whole, kept),
        closed_in(whole, kept, kept),
        kept.count(from) > 0,
    ensures
        part.walk(from, path, reach) == whole.walk(from, path, reach),
        whole.walk(from, path, reach) matches Ok(end) ==> kept.count(end) > 0,
    decreases reach, path.len(),
{
    if path.len() > 0 {
        let name = path.first();
        assert(node_closed(whole, kept, from));
        match whole.edge(from, name) {
            Some(EdgeSpec::Follows(inner)) => {
                if reach > 0 {
                    lemma_walk_in_cut(part, whole, kept, whole.root, inner, (reach - 1) as nat);
                }
            },
            _ => {},
        }
        assert(part.step(from, name, reach) == whole.step(from, name, reach));
        match whole.step(from, name, reach) {
            Ok(next) => {
                lemma_walk_in_cut(part, whole, kept, next, path.drop_first(), reach);
            },
            Err(_) => {},
        }
    }
}

/// A completed walk that reached only kept nodes is the same walk in the
/// graph cut to the kept nodes.
pub proof fn lemma_visit_in_cut<M>(
    part: GraphSpec<M>,
    whole: GraphSpec<M>,
    kept: Multiset<Seq<char>>,
    index: Seq<char>,
    depth: nat,
    reach: nat,
)
    requires
        whole.well_formed(),
        cut_to(part, whole, kept),
        closed_in(whole, kept, kept),
        whole.visit(index, depth, reach) is Ok,
        within(whole.visit(index, depth, reach)->Ok_0, kept),
    ensures
        part.visit(index, depth, reach) == whole.visit(index, depth, reach),
    decreases depth, 0nat,
{
    let visits = whole.visit(index, depth, reach)->Ok_0;
    let node = whole.node(index)->Some_0;
    let below = whole.visit_edges(node.inputs, (depth - 1) as nat, reach)->Ok_0;
    assert(visits.count(index) > 0);
    assert(within(below, kept)) by {
        assert forall|at: Seq<char>| #[trigger] below.count(at) > 0 implies kept.count(at) > 0 by {
            assert(visits.count(at) > 0);
        }
    }
    lemma_visit_edges_in_cut(part, whole, kept, node.inputs, (depth - 1) as nat, reach);
}

/// A completed walk through some inputs that reached only kept nodes is the
/// same walk in the graph cut to the kept nodes.
pub proof fn lemma_visit_edges_in_cut<M>(
    part: GraphSpec<M>,
    whole: GraphSpec<M>,
    kept: Multiset<Seq<char>>,
    edges: Seq<(Seq<char>, EdgeSpec)>,
    depth: nat,
    reach: nat,
)
    requires
        whole.well_formed(),
        cut_to(part, whole, kept),
        closed_in(whole, kept, kept),
        whole.visit_edges(edges, depth, reach) is Ok,
        within(whole.visit_edges(edges, depth, reach)->Ok_0, kept),
    ensures
        part.visit_edges(edges, depth, reach) == whole.visit_edges(edges, depth, reach),
    decreases depth, edges.len() + 1,
{
    if edges.len() > 0 {
        let visits = whole.visit_edges(edges, depth, reach)->Ok_0;
        let edge = edges.first().1;
        let target = whole.resolve(edge, reach)->Ok_0;
        let first = whole.visit(target, depth, reach)->Ok_0;
        let rest = whole.visit_edges(edges.drop_first(), depth, reach)->Ok_0;
        match edge {
            EdgeSpec::Indexed(_) => {},
            EdgeSpec::Follows(path) => {
                lemma_walk_in_cut(part, whole, kept, whole.root, path, reach);
            },
        }
        assert(within(first, kept)) by {
            assert forall|at: Seq<char>| #[trigger] first.count(at) > 0 implies kept.count(at)
                > 0 by {
                assert(visits.count(at) > 0);
            }
        }
        assert(within(rest, kept)) by {
            assert forall|at: Seq<char>| #[trigger] rest.count(at) > 0 implies kept.count(at)
                > 0 by {
                assert(visits.count(at) > 0);
            }
        }
        lemma_visit_in_cut(part, whole, kept, target, depth, reach);
        lemma_visit_edges_in_cut(part, whole, kept, edges.drop_first(), depth, reach);
    }
}

/// Pruning by a completed walk from the root cuts the graph to what the
/// walk reached: the result is well formed and holds exactly the reached
/// nodes, unchanged.
pub proof fn lemma_pruned_is_cut<M>(g: GraphSpec<M>, depth: nat, reach: nat)
    requires
        g.well_formed(),
        g.visit(g.root, depth, reach) is Ok,
    ensures
        g.pruned(g.visit(g.root, depth, reach)->Ok_0).well_formed(),
        cut_to(
            g.pruned(g.visit(g.root, depth, reach)->Ok_0),
            g,
            g.visit(g.root, depth, reach)->Ok_0,
        ),
{
    let visits = g.visit(g.root, depth, reach)->Ok_0;
    let once = g.pruned(visits);
    lemma_reached_lookup(g.nodes, visits);
    assert(lookup(once.nodes, g.root) == lookup(g.nodes, g.root));
    assert forall|i: int| 0 <= i < once.nodes.len() implies (
    #[trigger] once.nodes[i]).1.well_formed() by {
        let key = once.nodes[i].0;
        assert(lookup(once.nodes, key) == lookup(g.nodes, key));
    }
}

/// Nodes picked out of some nodes have no more inputs than all of them.
pub proof fn lemma_fewer_inputs<M>(
    nodes: Seq<(Seq<char>, NodeSpec<M>)>,
    keep: spec_fn((Seq<char>, NodeSpec<M>)) -> bool,
)
    ensures
        count_inputs(nodes.filter(keep)) <= count_inputs(nodes),
    decreases nodes.len(),
{
    if nodes.len() > 0 {
        let front = nodes.drop_last();
        let last = nodes.last();
        assert(nodes =~= front.push(last));
        front.lemma_filter_push(last, keep);
        lemma_fewer_inputs(front, keep);
        if keep(last) {
            assert(front.filter(keep).push(last).drop_last() =~= front.filter(keep));
        }
    }
}

} // verus!

//! The follow rewrite: the inputs of the nodes that the root names directly
//! are redirected to the root's own inputs of the same name.
//!
//! The rewrite goes one level deep and no further. It changes references
//! in place; it adds no node and removes none.

use vstd::prelude::*;
use crate::flake_lock::{LockFile, Node, NodeEdge, UnlockedNode};
use crate::model::{EdgeSpec, GraphError, GraphSpec, NodeSpec};
use crate::table::{distinct_keys, has_key, lemma_update_keeps_keys, lookup, position};

verus! {

/// What the reference `edge`, stored under the input name `name`, becomes
/// when it is redirected to a root with the inputs `root_inputs`. Where the
/// root has an input of that name, the reference becomes a path of that one
/// name, or, with `indexed`, a copy of the root's own reference. Where it
/// has none, the reference stays.
pub open spec fn redirected_edge(
    root_inputs: Seq<(Seq<char>, EdgeSpec)>,
    indexed: bool,
    name: Seq<char>,
    edge: EdgeSpec,
) -> EdgeSpec {
    match lookup(root_inputs, name) {
        Some(root_edge) => if indexed {
            root_edge
        } else {
            EdgeSpec::Follows(seq![name])
        },
        None => edge,
    }
}

/// The inputs `inputs` with every reference redirected.
pub open spec fn redirected_inputs(
    root_inputs: Seq<(Seq<char>, EdgeSpec)>,
    indexed: bool,
    inputs: Seq<(Seq<char>, EdgeSpec)>,
) -> Seq<(Seq<char>, EdgeSpec)> {
    inputs.map_values(
        |entry: (Seq<char>, EdgeSpec)|
            (entry.0, redirected_edge(root_inputs, indexed, entry.0, entry.1)),
    )
}

/// The node `node` with every reference redirected.
pub open spec fn redirected_node<M>(
    root_inputs: Seq<(Seq<char>, EdgeSpec)>,
    indexed: bool,
    node: NodeSpec<M>,
) -> NodeSpec<M> {
    NodeSpec { inputs: redirected_inputs(root_inputs, indexed, node.inputs), lock: node.lock }
}

/// Some input among the first `upto` of `inputs` names the node `index`
/// directly.
pub open spec fn names_directly(
    inputs: Seq<(Seq<char>, EdgeSpec)>,
    upto: int,
    index: Seq<char>,
) -> bool {
    exists|i: int| 0 <= i < upto && (#[trigger] inputs[i]).1 == EdgeSpec::Indexed(index)
}

impl<M> GraphSpec<M> {
    /// The inputs of the root.
    pub open spec fn root_inputs(self) -> Seq<(Seq<char>, EdgeSpec)> {
        match self.node(self.root) {
            Some(node) => node.inputs,
            None => Seq::empty(),
        }
    }

    /// Some input of the root names the node `index` directly.
    pub open spec fn is_direct_input(self, index: Seq<char>) -> bool {
        names_directly(self.root_inputs(), self.root_inputs().len() as int, index)
    }

    /// The input at place `at` of the root names a node that does not exist.
    pub open spec fn names_missing_node(self, at: int) -> bool {
        self.root_inputs()[at].1 matches EdgeSpec::Indexed(index) && !has_key(self.nodes, index)
    }

    /// Why the rewrite cannot be made, if it cannot: an input of the root
    /// names a node that does not exist, or, failing that, an input of the
    /// root names the root itself.
    pub open spec fn substitution_error(self) -> Option<GraphError> {
        if exists|at: int| 0 <= at < self.root_inputs().len() && self.names_missing_node(at) {
            Some(GraphError::Dangling)
        } else if self.is_direct_input(self.root) {
            Some(GraphError::Cycle)
        } else {
            None
        }
    }

    /// The graph after the rewrite: every node that an input of the root
    /// names directly has its references redirected to the root's inputs;
    /// every other node is as it was.
    pub open spec fn substituted(self, indexed: bool) -> Self {
        GraphSpec {
            nodes: self.nodes.map_values(
                |entry: (Seq<char>, NodeSpec<M>)|
                    if self.is_direct_input(entry.0) {
                        (entry.0, redirected_node(self.root_inputs(), indexed, entry.1))
                    } else {
                        entry
                    },
            ),
            root: self.root,
            version: self.version,
        }
    }
}

/// Redirecting a second time changes nothing.
pub proof fn lemma_redirected_twice(
    root_inputs: Seq<(Seq<char>, EdgeSpec)>,
    indexed: bool,
    inputs: Seq<(Seq<char>, EdgeSpec)>,
)
    ensures
        redirected_inputs(root_inputs, indexed, redirected_inputs(root_inputs, indexed, inputs))
            == redirected_inputs(root_inputs, indexed, inputs),
{
}

/// Redirects every input of `node` to the input of the same name of
/// `root`, where `root` has one. With `indexed`, the input gets a copy of
/// the root's reference; without, it gets the one-name path that follows
/// the root's input.
pub fn substitute_node_inputs_with_root_inputs(root: &Node, node: &mut Node, indexed: bool)
    requires
        root.well_formed(),
        old(node).well_formed(),
    ensures
        final(node).well_formed(),
        final(node)@ == redirected_node(root@.inputs, indexed, old(node)@),
{
    let count = node.edge_count();
    let mut j: usize = 0;
    while j < count
        invariant
            j <= count,
            root.well_formed(),
            count == old(node)@.inputs.len(),
            node@.inputs.len() == count,
            node@.lock == old(node)@.lock,
            forall|k: int|
                0 <= k < j ==> (#[trigger] node@.inputs[k]) == (
                    old(node)@.inputs[k].0,
                    redirected_edge(
                        root@.inputs,
                        indexed,
                        old(node)@.inputs[k].0,
                        old(node)@.inputs[k].1,
                    ),
                ),
            forall|k: int| j <= k < count ==> (#[trigger] node@.inputs[k]) == old(node)@.inputs[k],
        decreases count - j,
    {
        match node.iter_edges_mut(j) {
            Some((name, edge)) => {
                match root.get_edge(name) {
                    Some(root_edge) => {
                        if indexed {
                            *edge = root_edge.clone();
                        } else {
                            let mut path: Vec<String> = Vec::new();
                            path.push(name.to_owned());
                            assert(path.deep_view() =~= seq![name@]);
                            *edge = NodeEdge::Follows(path);
                        }
                    },
                    None => {},
                }
            },
            None => {},
        }
        j += 1;
    }
    proof {
        assert(node@.inputs =~= redirected_inputs(root@.inputs, indexed, old(node)@.inputs));
    }
}

/// An unlocked node with the same inputs as `node`.
fn copy_inputs(node: &Node) -> (copy: Node)
    requires
        node.well_formed(),
    ensures
        copy.well_formed(),
        copy@.inputs == node@.inputs,
{
    let mut copy = Node::Unlocked(UnlockedNode::new());
    let count = node.edge_count();
    let mut j: usize = 0;
    while j < count
        invariant
            j <= count,
            count == node@.inputs.len(),
            node.well_formed(),
            copy.well_formed(),
            copy@.inputs == node@.inputs.take(j as int),
        decreases count - j,
    {
        let (name, edge) = node.edge_at(j);
        proof {
            let entry = node@.inputs[j as int];
            if has_key(copy@.inputs, entry.0) {
                let before = position(copy@.inputs, entry.0);
                assert(node@.inputs[before].0 == entry.0);
            }
        }
        copy.insert_edge(name.to_owned(), edge.clone());
        j += 1;
    }
    copy
}

/// Redirects the inputs of every node that an input of the root names
/// directly: each input whose name the root has too comes to follow the
/// root's input of that name, or, with `indexed`, to hold a copy of the
/// root's reference. Nodes further down are not touched.
///
/// Nothing is rewritten unless everything can be: where an input of the
/// root names a node that does not exist, the result is `Dangling`; where
/// none does but one names the root itself, it is `Cycle`; in both cases
/// the graph is left as it was.
pub fn substitute_flake_inputs_with_follows(lock: &mut LockFile, indexed: bool) -> (done: Result<
    (),
    GraphError,
>)
    requires
        old(lock).well_formed(),
    ensures
        final(lock).well_formed(),
        match done {
            Ok(()) => old(lock)@.substitution_error() is None && final(lock)@ == old(
                lock,
            )@.substituted(indexed),
            Err(error) => old(lock)@.substitution_error() == Some(error) && final(lock)@ == old(
                lock,
            )@,
        },
{
    let ghost before = lock@;
    let root = match lock.root() {
        Some(node) => {
            proof {
                let at = position(before.nodes, before.root);
            }
            copy_inputs(node)
        },
        None => {
            return Ok(());
        },
    };
    let ghost root_inputs = before.root_inputs();
    let count = root.edge_count();
    let mut missing = false;
    let mut own = false;
    let mut j: usize = 0;
    while j < count
        invariant
            j <= count,
            count == root_inputs.len(),
            root@.inputs == root_inputs,
            root_inputs == before.root_inputs(),
            lock@ == before,
            lock.well_formed(),
            missing == exists|at: int| 0 <= at < j && before.names_missing_node(at),
            own == names_directly(root_inputs, j as int, before.root),
        decreases count - j,
    {
        match root.edge_at(j).1.index() {
            Some(index) => {
                if lock.node_position(index).is_none() {
                    assert(before.names_missing_node(j as int));
                    missing = true;
                }
                if *index == *lock.root_index() {
                    own = true;
                }
            },
            None => {},
        }
        j += 1;
    }
    if missing {
        return Err(GraphError::Dangling);
    }
    if own {
        return Err(GraphError::Cycle);
    }
    let mut j: usize = 0;
    while j < count
        invariant
            j <= count,
            count == root_inputs.len(),
            root@.inputs == root_inputs,
            root_inputs == before.root_inputs(),
            root.well_formed(),
            before.well_formed(),
            before.substitution_error() is None,
            lock.well_formed(),
            lock@.root == before.root,
            lock@.version == before.version,
            lock@.nodes.len() == before.nodes.len(),
            forall|i: int|
                0 <= i < before.nodes.len() ==> (#[trigger] lock@.nodes[i]) == (if names_directly(
                    root_inputs,
                    j as int,
                    before.nodes[i].0,
                ) {
                    (before.nodes[i].0, redirected_node(root_inputs, indexed, before.nodes[i].1))
                } else {
                    before.nodes[i]
                }),
        decreases count - j,
    {
        let ghost current = lock@;
        match root.edge_at(j).1.index() {
            Some(index) => {
                assert(!before.names_missing_node(j as int));
                proof {
                    let at = position(before.nodes, index@);
                    lemma_redirected_twice(root_inputs, indexed, before.nodes[at].1.inputs);
                    lemma_update_keeps_keys(
                        current.nodes,
                        at,
                        redirected_node(root_inputs, indexed, current.nodes[at].1),
                    );
                }
                match lock.get_node_mut(index) {
                    Some(node) => {
                        substitute_node_inputs_with_root_inputs(&root, node, indexed);
                    },
                    None => {},
                }
            },
            None => {},
        }
        j += 1;
    }
    proof {
        assert(lock@.nodes =~= before.substituted(indexed).nodes);
    }
    Ok(())
}

/// The rewrite keeps every node index where it was, and leaves the root
/// node as it is unless an input of the root names the root itself.
pub proof fn lemma_substituted_keys<M>(g: GraphSpec<M>, indexed: bool)
    requires
        g.well_formed(),
    ensures
        g.substituted(indexed).well_formed(),
        g.substituted(indexed).nodes.len() == g.nodes.len(),
        forall|i: int|
            0 <= i < g.nodes.len() ==> (#[trigger] g.substituted(indexed).nodes[i]).0
                == g.nodes[i].0,
        forall|index: Seq<char>|
            has_key(g.substituted(indexed).nodes, index) <==> has_key(g.nodes, index),
        !g.is_direct_input(g.root) ==> g.substituted(indexed).root_inputs() == g.root_inputs(),
{
    let once = g.substituted(indexed);
    assert forall|index: Seq<char>| has_key(once.nodes, index) <==> has_key(g.nodes, index) by {
        if has_key(once.nodes, index) {
            let i = position(once.nodes, index);
            assert(g.nodes[i].0 == index);
        }
        if has_key(g.nodes, index) {
            let i = position(g.nodes, index);
            assert(once.nodes[i].0 == index);
        }
    }
}

} // verus!

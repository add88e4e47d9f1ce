//! The lock graph as a mathematical value, and what it means to resolve a
//! reference in it.
//!
//! A graph is a table of nodes by index; a node is a table of references by
//! input name. A reference either names a node directly or gives a path of
//! input names to walk from the root. Resolution is defined with a bound on
//! how deeply paths may lead into other paths, so that it is defined on
//! every graph, cyclic ones included. The bound that a graph gives itself,
//! the number of its inputs, cuts no resolution short that could be
//! completed.

use vstd::prelude::*;
use crate::table::{distinct_keys, has_key, lookup};

verus! {

/// Why a reference could not be resolved or a walk not completed.
#[derive(Clone, Copy, Debug, PartialEq, Eq)]
pub enum GraphError {
    /// A reference leads to a node index or an input name that does not exist.
    Dangling,
    /// A chain of references ran deeper than the graph is large, as a chain
    /// does that comes back to where it has been.
    Cycle,
}

/// The outcome of a resolution or a walk that was cut short by its bounds.
pub open spec fn cut_short<T>(outcome: Result<T, GraphError>) -> bool {
    outcome matches Err(GraphError::Cycle)
}

/// A reference from an input to a node.
pub enum EdgeSpec {
    /// The index of the node referred to.
    Indexed(Seq<char>),
    /// Input names to follow in turn, starting at the root.
    Follows(Seq<Seq<char>>),
}

/// A node: its inputs by name, in the order in which they are stored, and
/// the lock record if it is a locked node. The record, of type `M`, is
/// carried along unread.
pub struct NodeSpec<M> {
    pub inputs: Seq<(Seq<char>, EdgeSpec)>,
    pub lock: Option<M>,
}

/// A lock graph: its nodes by index, in the order in which they are stored,
/// the index of the root, and the schema version. `M` is the lock record of
/// a locked node.
pub struct GraphSpec<M> {
    pub nodes: Seq<(Seq<char>, NodeSpec<M>)>,
    pub root: Seq<char>,
    pub version: u32,
}

/// The number of inputs that the nodes `nodes` have together.
pub open spec fn count_inputs<M>(nodes: Seq<(Seq<char>, NodeSpec<M>)>) -> nat
    decreases nodes.len(),
{
    if nodes.len() == 0 {
        0
    } else {
        count_inputs(nodes.drop_last()) + nodes.last().1.inputs.len()
    }
}

impl<M> NodeSpec<M> {
    /// No input name occurs twice.
    pub open spec fn well_formed(self) -> bool {
        distinct_keys(self.inputs)
    }

    /// The reference stored under the input name `name`.
    pub open spec fn edge(self, name: Seq<char>) -> Option<EdgeSpec> {
        lookup(self.inputs, name)
    }
}

impl<M> GraphSpec<M> {
    /// No node index occurs twice, no node has two inputs of one name, and
    /// the root is among the nodes.
    pub open spec fn well_formed(self) -> bool {
        &&& distinct_keys(self.nodes)
        &&& has_key(self.nodes, self.root)
        &&& forall|i: int| 0 <= i < self.nodes.len() ==> (#[trigger] self.nodes[i]).1.well_formed()
    }

    /// How deeply paths may lead into paths when a reference is resolved in
    /// this graph: as deep as the graph has inputs. A resolution that goes
    /// deeper goes through some input twice.
    pub open spec fn reach(self) -> nat {
        count_inputs(self.nodes)
    }

    /// How many nodes deep a walk through this graph may descend: as deep
    /// as the graph has nodes. A walk that goes deeper meets some node
    /// twice on its way down.
    pub open spec fn depth(self) -> nat {
        self.nodes.len()
    }

    /// The node stored under `index`.
    pub open spec fn node(self, index: Seq<char>) -> Option<NodeSpec<M>> {
        lookup(self.nodes, index)
    }

    /// The reference that the node `index` stores under the input name `name`.
    pub open spec fn edge(self, index: Seq<char>, name: Seq<char>) -> Option<EdgeSpec> {
        match self.node(index) {
            Some(node) => node.edge(name),
            None => None,
        }
    }

    /// One step of a walk: from the node `from`, take the input `name` and
    /// resolve the reference found there. A path found there is followed
    /// from the root, where paths may lead into paths one level less deep.
    pub open spec fn step(self, from: Seq<char>, name: Seq<char>, reach: nat) -> Result<
        Seq<char>,
        GraphError,
    >
        decreases reach, 0nat,
    {
        match self.edge(from, name) {
            None => Err(GraphError::Dangling),
            Some(EdgeSpec::Indexed(index)) => Ok(index),
            Some(EdgeSpec::Follows(path)) => if reach == 0 {
                Err(GraphError::Cycle)
            } else {
                self.walk(self.root, path, (reach - 1) as nat)
            },
        }
    }

    /// The node reached from `from` by taking the inputs named in `path` one
    /// after the other; the first step that fails decides the error.
    pub open spec fn walk(self, from: Seq<char>, path: Seq<Seq<char>>, reach: nat) -> Result<
        Seq<char>,
        GraphError,
    >
        decreases reach, path.len() + 1,
    {
        if path.len() == 0 {
            Ok(from)
        } else {
            match self.step(from, path.first(), reach) {
                Ok(next) => self.walk(next, path.drop_first(), reach),
                Err(error) => Err(error),
            }
        }
    }

    /// The node reached from the root along `path`.
    pub open spec fn follow(self, path: Seq<Seq<char>>, reach: nat) -> Result<
        Seq<char>,
        GraphError,
    > {
        self.walk(self.root, path, reach)
    }

    /// The node that `edge` refers to: the index it names, or the end of the
    /// path it gives. A direct reference resolves to its index whether or
    /// not a node of that index exists.
    pub open spec fn resolve(self, edge: EdgeSpec, reach: nat) -> Result<Seq<char>, GraphError> {
        match edge {
            EdgeSpec::Indexed(index) => Ok(index),
            EdgeSpec::Follows(path) => self.follow(path, reach),
        }
    }
}

} // verus!

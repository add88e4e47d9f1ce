//! The lock graph laid out for drawing: its nodes, its edges with their
//! ends, and names that a graph description language accepts.

use vstd::prelude::*;
use crate::flake_lock::{LockFile, NodeEdge};
use crate::model::{EdgeSpec, GraphError, NodeSpec};

verus! {

/// An edge of the drawing as plain values.
pub struct EdgeView {
    pub source: Seq<char>,
    pub name: Seq<char>,
    pub inner: EdgeSpec,
}

/// An edge of the drawing: the input `name` of the node `source`, and the
/// reference it holds.
#[derive(Clone, Debug, PartialEq)]
pub struct Edge {
    pub source: String,
    pub name: String,
    pub inner: NodeEdge,
}

impl View for Edge {
    type V = EdgeView;

    open spec fn view(&self) -> EdgeView {
        EdgeView { source: self.source@, name: self.name@, inner: self.inner@ }
    }
}

/// The edges that leave the node `source` with the inputs `inputs`.
pub open spec fn edges_of(source: Seq<char>, inputs: Seq<(Seq<char>, EdgeSpec)>) -> Seq<EdgeView> {
    inputs.map_values(
        |entry: (Seq<char>, EdgeSpec)| EdgeView { source, name: entry.0, inner: entry.1 },
    )
}

/// The edges of all of `nodes`: node after node, and for each node input
/// after input.
pub open spec fn all_edges<M>(nodes: Seq<(Seq<char>, NodeSpec<M>)>) -> Seq<EdgeView>
    decreases nodes.len(),
{
    if nodes.len() == 0 {
        Seq::empty()
    } else {
        all_edges(nodes.drop_last()) + edges_of(nodes.last().0, nodes.last().1.inputs)
    }
}

/// The edges by their views.
pub open spec fn edge_views(edges: Seq<Edge>) -> Seq<EdgeView> {
    edges.map_values(|edge: Edge| edge@)
}

/// `text` with every hyphen turned into an underscore.
pub open spec fn underscored(text: Seq<char>) -> Seq<char> {
    text.map_values(|c: char| if c == '-' {
        '_'
    } else {
        c
    })
}

/// A letter of the basic alphabet or an underscore.
pub open spec fn is_id_start(c: char) -> bool {
    ('a' <= c && c <= 'z') || ('A' <= c && c <= 'Z') || c == '_'
}

/// A letter of the basic alphabet, a digit or an underscore.
pub open spec fn is_id_part(c: char) -> bool {
    is_id_start(c) || ('0' <= c && c <= '9')
}

/// `text` is a name that the graph description language accepts as it
/// stands: not empty, made of letters, digits and underscores, and not
/// beginning with a digit.
pub open spec fn is_id(text: Seq<char>) -> bool {
    &&& text.len() > 0
    &&& is_id_start(text[0])
    &&& forall|i: int| 0 <= i < text.len() ==> is_id_part(#[trigger] text[i])
}

/// `Id::new` of `dotwalk`, asked only whether it accepts `text`: it does
/// when `text` is not empty, begins with an ASCII letter or an underscore
/// and holds nothing but ASCII letters, ASCII digits and underscores.
#[verifier::external_body]
fn accepted_as_id(text: &str) -> (accepted: bool)
    ensures
        accepted == is_id(text@),
{
    dotwalk::Id::new(text).is_ok()
}

/// `str::replace` of the standard library, with a hyphen to find and an
/// underscore to put in its place: every hyphen of `text` is replaced and
/// nothing else is changed.
#[verifier::external_body]
fn replace_hyphens(text: &str) -> (replaced: String)
    ensures
        replaced@ == underscored(text@),
{
    text.replace('-', "_")
}

impl LockFile {
    /// The name of the drawing.
    pub fn graph_id(&self) -> (id: &'static str)
        ensures
            id@ == "flakelock"@,
            is_id(id@),
    {
        proof {
            reveal_strlit("flakelock");
        }
        "flakelock"
    }

    /// The nodes of the drawing: the indices of the graph's nodes.
    pub fn nodes(&self) -> (nodes: Vec<String>)
        ensures
            nodes.len() == self@.nodes.len(),
            forall|i: int| 0 <= i < nodes.len() ==> (#[trigger] nodes[i])@ == self@.nodes[i].0,
    {
        let count = self.node_count();
        let mut nodes: Vec<String> = Vec::new();
        let mut i: usize = 0;
        while i < count
            invariant
                i <= count,
                count == self@.nodes.len(),
                nodes.len() == i,
                forall|j: int| 0 <= j < i ==> (#[trigger] nodes[j])@ == self@.nodes[j].0,
            decreases count - i,
        {
            nodes.push(self.node_at(i).0.to_owned());
            i += 1;
        }
        nodes
    }

    /// The edges of the drawing: every input of every node.
    pub fn edges(&self) -> (edges: Vec<Edge>)
        ensures
            edge_views(edges@) == all_edges(self@.nodes),
    {
        let count = self.node_count();
        let mut edges: Vec<Edge> = Vec::new();
        let mut i: usize = 0;
        while i < count
            invariant
                i <= count,
                count == self@.nodes.len(),
                edge_views(edges@) == all_edges(self@.nodes.take(i as int)),
            decreases count - i,
        {
            let (source, node) = self.node_at(i);
            let inputs = node.edge_count();
            let ghost before = edge_views(edges@);
            let mut j: usize = 0;
            proof {
                assert(self@.nodes.take(i + 1).drop_last() =~= self@.nodes.take(i as int));
            }
            while j < inputs
                invariant
                    j <= inputs,
                    inputs == node@.inputs.len(),
                    edge_views(edges@) == before + edges_of(source@, node@.inputs.take(j as int)),
                decreases inputs - j,
            {
                let (name, inner) = node.edge_at(j);
                let edge = Edge {
                    source: source.to_owned(),
                    name: name.to_owned(),
                    inner: inner.clone(),
                };
                let ghost listed = edge_views(edges@);
                let ghost added = edge@;
                edges.push(edge);
                proof {
                    assert(edge_views(edges@) =~= listed.push(added));
                }
                j += 1;
            }
            i += 1;
        }
        proof {
            assert(self@.nodes.take(count as int) =~= self@.nodes);
        }
        edges
    }

    /// The node that `edge` leaves.
    pub fn source(&self, edge: &Edge) -> (source: String)
        ensures
            source@ == edge@.source,
    {
        edge.source.clone()
    }

    /// The node that `edge` leads to, or `None` where its reference cannot
    /// be resolved.
    pub fn target(&self, edge: &Edge) -> (target: Option<String>)
        requires
            self.well_formed(),
        ensures
            match target {
                Some(index) => self@.resolve(edge@.inner, self@.reach()) == Ok::<
                    Seq<char>,
                    GraphError,
                >(index@),
                None => self@.resolve(edge@.inner, self@.reach()) is Err,
            },
    {
        self.resolve_edge(&edge.inner)
    }

    /// The name of the node `index` in the drawing: the index with its
    /// hyphens turned into underscores, or `None` where that is no name
    /// the graph description language accepts.
    pub fn node_id(&self, index: &str) -> (id: Option<String>)
        ensures
            match id {
                Some(text) => text@ == underscored(index@) && is_id(text@),
                None => !is_id(underscored(index@)),
            },
    {
        let text = replace_hyphens(index);
        if accepted_as_id(text.as_str()) {
            Some(text)
        } else {
            None
        }
    }

    /// The label of the node `index` in the drawing: the index itself.
    pub fn node_label(&self, index: &str) -> (label: String)
        ensures
            label@ == index@,
    {
        index.to_owned()
    }
}

} // verus!

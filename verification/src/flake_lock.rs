//! The lock graph as it is held in memory: nodes in a table by index, each
//! with its inputs in a table by name, a root index and a schema version.
//!
//! Nodes refer to each other by index only, so one node can be rewritten
//! while another is read. Lookups report absence by `None`; whether that is
//! an error is for the caller to decide.

use vstd::prelude::*;
use crate::model::{count_inputs, EdgeSpec, GraphError, GraphSpec, NodeSpec};
use crate::table::{
    entries_view, find_key, has_key, lemma_lookup_at, lemma_remove_keeps_keys,
    lemma_update_keeps_keys, position,
};

verus! {

/// The newest schema version that is understood.
pub const MAX_SUPPORTED_LOCK_VERSION: u32 = 7;

/// The oldest schema version that is understood.
pub const MIN_SUPPORTED_LOCK_VERSION: u32 = 5;

/// Where a dependency comes from, as the lock file describes it. Nothing in
/// this library reads it; it is kept with its node and handed back as it was.
#[derive(Clone, Debug, PartialEq)]
pub enum FlakeReference {
    Indirect { id: String, rev: Option<String> },
    Tarball { url: String },
    Git {
        url: String,
        git_ref: Option<String>,
        rev: Option<String>,
        rev_count: Option<u32>,
        submodules: bool,
    },
    Github {
        owner: String,
        repo: String,
        git_ref: Option<String>,
        rev: Option<String>,
        dir: Option<String>,
        submodules: bool,
    },
}

/// The exact revision that a dependency is pinned to.
#[derive(Clone, Debug, PartialEq)]
pub struct LockedReference {
    pub last_modified: usize,
    pub nar_hash: String,
    pub flake_ref: FlakeReference,
}

/// What a locked node records besides its inputs.
pub struct LockRecord {
    pub flake: bool,
    pub locked: LockedReference,
    pub original: FlakeReference,
}

/// A reference from an input of one node to another node.
#[derive(Debug, PartialEq)]
pub enum NodeEdge {
    /// The index of the node referred to.
    Indexed(String),
    /// Input names to follow in turn, starting at the root.
    Follows(Vec<String>),
}

impl View for NodeEdge {
    type V = EdgeSpec;

    open spec fn view(&self) -> EdgeSpec {
        match self {
            NodeEdge::Indexed(index) => EdgeSpec::Indexed(index@),
            NodeEdge::Follows(path) => EdgeSpec::Follows(path.deep_view()),
        }
    }
}

impl Clone for NodeEdge {
    fn clone(&self) -> (copy: Self)
        ensures
            copy@ == self@,
    {
        match self {
            NodeEdge::Indexed(index) => NodeEdge::Indexed(index.clone()),
            NodeEdge::Follows(path) => NodeEdge::Follows(path.clone()),
        }
    }
}

impl NodeEdge {
    /// The index that a direct reference names.
    pub fn index(&self) -> (index: Option<&str>)
        ensures
            match index {
                Some(text) => self@ == EdgeSpec::Indexed(text@),
                None => self@ is Follows,
            },
    {
        match self {
            NodeEdge::Indexed(index) => Some(index.as_str()),
            _ => None,
        }
    }

    /// The path that an indirect reference gives.
    pub fn path(&self) -> (path: Option<&Vec<String>>)
        ensures
            match path {
                Some(names) => self@ == EdgeSpec::Follows(names.deep_view()),
                None => self@ is Indexed,
            },
    {
        match self {
            NodeEdge::Follows(path) => Some(path),
            _ => None,
        }
    }
}

/// Reading a reference through a borrow of it.
pub trait NodeEdgeRef<'a>: Sized {
    /// What the borrowed reference says.
    spec fn edge(self) -> EdgeSpec;

    /// The index that a direct reference names.
    fn index(self) -> (index: Option<&'a str>)
        ensures
            match index {
                Some(text) => self.edge() == EdgeSpec::Indexed(text@),
                None => self.edge() is Follows,
            },
    ;

    /// The path that an indirect reference gives.
    fn path(self) -> (path: Option<&'a Vec<String>>)
        ensures
            match path {
                Some(names) => self.edge() == EdgeSpec::Follows(names.deep_view()),
                None => self.edge() is Indexed,
            },
    ;
}

impl<'a> NodeEdgeRef<'a> for &'a NodeEdge {
    open spec fn edge(self) -> EdgeSpec {
        self@
    }

    fn index(self) -> (index: Option<&'a str>) {
        NodeEdge::index(self)
    }

    fn path(self) -> (path: Option<&'a Vec<String>>) {
        NodeEdge::path(self)
    }
}

impl<'a> From<&'a str> for NodeEdge {
    fn from(value: &'a str) -> (edge: Self)
        ensures
            edge@ == EdgeSpec::Indexed(value@),
    {
        NodeEdge::Indexed(value.to_owned())
    }
}

impl<'a> vstd::std_specs::convert::FromSpecImpl<&'a str> for NodeEdge {
    open spec fn obeys_from_spec() -> bool {
        false
    }

    open spec fn from_spec(value: &'a str) -> NodeEdge {
        arbitrary()
    }
}

impl From<String> for NodeEdge {
    fn from(value: String) -> (edge: Self) {
        NodeEdge::Indexed(value)
    }
}

impl vstd::std_specs::convert::FromSpecImpl<String> for NodeEdge {
    open spec fn obeys_from_spec() -> bool {
        true
    }

    open spec fn from_spec(value: String) -> NodeEdge {
        NodeEdge::Indexed(value)
    }
}

impl From<Vec<String>> for NodeEdge {
    fn from(value: Vec<String>) -> (edge: Self) {
        NodeEdge::Follows(value)
    }
}

impl vstd::std_specs::convert::FromSpecImpl<Vec<String>> for NodeEdge {
    open spec fn obeys_from_spec() -> bool {
        true
    }

    open spec fn from_spec(value: Vec<String>) -> NodeEdge {
        NodeEdge::Follows(value)
    }
}

/// A node that is pinned to a revision.
#[derive(Clone, Debug, PartialEq)]
pub struct LockedNode {
    flake: bool,
    inputs: Vec<(String, NodeEdge)>,
    locked: Box<LockedReference>,
    original: Box<FlakeReference>,
}

/// A node that is not pinned: the root, as a rule.
#[derive(Clone, Debug, PartialEq)]
pub struct UnlockedNode {
    inputs: Vec<(String, NodeEdge)>,
}

/// An entry of the lock graph.
#[derive(Clone, Debug, PartialEq)]
pub enum Node {
    Locked(LockedNode),
    Unlocked(UnlockedNode),
}

impl View for LockedNode {
    type V = NodeSpec<LockRecord>;

    closed spec fn view(&self) -> NodeSpec<LockRecord> {
        NodeSpec {
            inputs: entries_view(self.inputs@),
            lock: Some(
                LockRecord { flake: self.flake, locked: *self.locked, original: *self.original },
            ),
        }
    }
}

impl View for UnlockedNode {
    type V = NodeSpec<LockRecord>;

    closed spec fn view(&self) -> NodeSpec<LockRecord> {
        NodeSpec { inputs: entries_view(self.inputs@), lock: None }
    }
}

impl View for Node {
    type V = NodeSpec<LockRecord>;

    open spec fn view(&self) -> NodeSpec<LockRecord> {
        match self {
            Node::Locked(node) => node@,
            Node::Unlocked(node) => node@,
        }
    }
}

impl LockedNode {
    /// A locked node without inputs.
    pub fn new(locked: LockedReference, original: FlakeReference, flake: bool) -> (node: Self)
        ensures
            node@ == (NodeSpec {
                inputs: Seq::empty(),
                lock: Some(LockRecord { flake, locked, original }),
            }),
    {
        let node = LockedNode {
            flake,
            inputs: Vec::new(),
            locked: Box::new(locked),
            original: Box::new(original),
        };
        assert(node@.inputs =~= Seq::empty());
        node
    }

    /// Whether the dependency is itself a flake.
    pub fn flake(&self) -> (flake: bool)
        ensures
            self@.lock matches Some(record) && record.flake == flake,
    {
        self.flake
    }

    /// The revision that the node is pinned to.
    pub fn locked(&self) -> (locked: &LockedReference)
        ensures
            self@.lock matches Some(record) && record.locked == *locked,
    {
        &*self.locked
    }

    /// The source as it was asked for.
    pub fn original(&self) -> (original: &FlakeReference)
        ensures
            self@.lock matches Some(record) && record.original == *original,
    {
        &*self.original
    }
}

impl Default for UnlockedNode {
    fn default() -> (node: Self)
        ensures
            node@ == (NodeSpec::<LockRecord> { inputs: Seq::empty(), lock: None }),
    {
        UnlockedNode::new()
    }
}

impl UnlockedNode {
    /// An unlocked node without inputs.
    pub fn new() -> (node: Self)
        ensures
            node@ == (NodeSpec::<LockRecord> { inputs: Seq::empty(), lock: None }),
    {
        let node = UnlockedNode { inputs: Vec::new() };
        assert(node@.inputs =~= Seq::empty());
        node
    }
}

impl Node {
    /// No input name occurs twice.
    pub open spec fn well_formed(&self) -> bool {
        self@.well_formed()
    }

    /// The inputs of the node as they are stored.
    fn edges(&self) -> (table: &Vec<(String, NodeEdge)>)
        ensures
            entries_view(table@) == self@.inputs,
    {
        match self {
            Node::Locked(node) => &node.inputs,
            Node::Unlocked(node) => &node.inputs,
        }
    }

    /// The inputs of the node as they are stored, open to change.
    fn edges_mut(&mut self) -> (table: &mut Vec<(String, NodeEdge)>)
        ensures
            entries_view(table@) == old(self)@.inputs,
            final(self)@.inputs == entries_view(final(table)@),
            final(self)@.lock == old(self)@.lock,
    {
        match self {
            Node::Locked(node) => &mut node.inputs,
            Node::Unlocked(node) => &mut node.inputs,
        }
    }

    /// How many inputs the node has.
    pub fn edge_count(&self) -> (count: usize)
        ensures
            count == self@.inputs.len(),
    {
        self.edges().len()
    }

    /// The input at place `at`, by name and reference.
    pub fn edge_at(&self, at: usize) -> (entry: (&str, &NodeEdge))
        requires
            at < self@.inputs.len(),
        ensures
            (entry.0@, entry.1@) == self@.inputs[at as int],
    {
        let table = self.edges();
        (table[at].0.as_str(), &table[at].1)
    }

    /// All inputs of the node, each by name and reference, in stored order.
    pub fn iter_edges(&self) -> (list: Vec<(&str, &NodeEdge)>)
        ensures
            list.len() == self@.inputs.len(),
            forall|i: int|
                0 <= i < list.len() ==> (#[trigger] list[i]).0@ == self@.inputs[i].0 && list[i].1@
                    == self@.inputs[i].1,
    {
        let table = self.edges();
        let mut list: Vec<(&str, &NodeEdge)> = Vec::new();
        let mut i: usize = 0;
        while i < table.len()
            invariant
                i <= table.len(),
                list.len() == i,
                entries_view(table@) == self@.inputs,
                forall|j: int|
                    0 <= j < i ==> (#[trigger] list[j]).0@ == self@.inputs[j].0 && list[j].1@
                        == self@.inputs[j].1,
            decreases table.len() - i,
        {
            list.push((table[i].0.as_str(), &table[i].1));
            i += 1;
        }
        list
    }

    /// The input at place `at` with its reference open to replacement, or
    /// `None` past the last input. Replacing the reference leaves the name
    /// and every other input as they were.
    pub fn iter_edges_mut(&mut self, at: usize) -> (entry: Option<(&str, &mut NodeEdge)>)
        ensures
            match entry {
                Some((name, edge)) => {
                    &&& at < old(self)@.inputs.len()
                    &&& (name@, edge@) == old(self)@.inputs[at as int]
                    &&& final(self)@.inputs == old(self)@.inputs.update(
                        at as int,
                        (name@, final(edge)@),
                    )
                    &&& final(self)@.lock == old(self)@.lock
                },
                None => at >= old(self)@.inputs.len() && final(self)@ == old(self)@,
            },
    {
        let table = self.edges_mut();
        if at < table.len() {
            let entry = &mut table[at];
            Some((entry.0.as_str(), &mut entry.1))
        } else {
            None
        }
    }

    /// The reference stored under the input name `name`.
    pub fn get_edge(&self, name: &str) -> (found: Option<&NodeEdge>)
        requires
            self.well_formed(),
        ensures
            match found {
                Some(edge) => self@.edge(name@) == Some(edge@),
                None => self@.edge(name@) is None,
            },
    {
        let table = self.edges();
        match find_key(table, name) {
            Some(i) => {
                proof {
                    lemma_lookup_at(self@.inputs, i as int);
                }
                Some(&table[i].1)
            },
            None => None,
        }
    }

    /// The reference stored under the input name `name`, open to
    /// replacement. Replacing it leaves every other input as it was.
    pub fn get_edge_mut(&mut self, name: &str) -> (found: Option<&mut NodeEdge>)
        requires
            old(self).well_formed(),
        ensures
            match found {
                Some(edge) => {
                    &&& old(self)@.edge(name@) == Some(edge@)
                    &&& final(self)@.inputs == old(self)@.inputs.update(
                        position(old(self)@.inputs, name@),
                        (name@, final(edge)@),
                    )
                    &&& final(self)@.lock == old(self)@.lock
                },
                None => old(self)@.edge(name@) is None && final(self)@ == old(self)@,
            },
    {
        let table = self.edges_mut();
        match find_key(table, name) {
            Some(i) => {
                proof {
                    lemma_lookup_at(entries_view(table@), i as int);
                }
                Some(&mut table[i].1)
            },
            None => None,
        }
    }

    /// Stores `edge` under the input name `name`. Where the node already
    /// has an input of that name, its reference is replaced and handed
    /// back; otherwise the input is added behind the others.
    pub fn insert_edge(&mut self, name: String, edge: NodeEdge) -> (replaced: Option<NodeEdge>)
        requires
            old(self).well_formed(),
        ensures
            final(self).well_formed(),
            final(self)@.lock == old(self)@.lock,
            match replaced {
                Some(before) => {
                    &&& old(self)@.edge(name@) == Some(before@)
                    &&& final(self)@.inputs == old(self)@.inputs.update(
                        position(old(self)@.inputs, name@),
                        (name@, edge@),
                    )
                },
                None => {
                    &&& old(self)@.edge(name@) is None
                    &&& final(self)@.inputs == old(self)@.inputs.push((name@, edge@))
                },
            },
    {
        let table = self.edges_mut();
        let ghost before = table@;
        match find_key(table, name.as_str()) {
            Some(i) => {
                proof {
                    lemma_lookup_at(entries_view(table@), i as int);
                }
                let mut edge = edge;
                std::mem::swap(&mut table[i].1, &mut edge);
                assert(entries_view(table@) =~= entries_view(before).update(
                    i as int,
                    (name@, table[i as int].1@),
                ));
                Some(edge)
            },
            None => {
                table.push((name, edge));
                assert(entries_view(table@) =~= entries_view(before).push((name@, edge@)));
                None
            },
        }
    }
}

/// Whether a lock file of schema version `version` is understood: the
/// version lies between the oldest and the newest supported one, both
/// included.
pub fn is_supported_version(version: u32) -> (supported: bool)
    ensures
        supported == (MIN_SUPPORTED_LOCK_VERSION <= version <= MAX_SUPPORTED_LOCK_VERSION),
{
    MIN_SUPPORTED_LOCK_VERSION <= version && version <= MAX_SUPPORTED_LOCK_VERSION
}

/// A successful result by its text.
pub open spec fn text_of(result: Result<String, GraphError>) -> Result<Seq<char>, GraphError> {
    match result {
        Ok(text) => Ok(text@),
        Err(error) => Err(error),
    }
}

/// A lock graph.
#[derive(Clone, Debug, PartialEq)]
pub struct LockFile {
    nodes: Vec<(String, Node)>,
    root: String,
    version: u32,
}

impl View for LockFile {
    type V = GraphSpec<LockRecord>;

    closed spec fn view(&self) -> GraphSpec<LockRecord> {
        GraphSpec { nodes: entries_view(self.nodes@), root: self.root@, version: self.version }
    }
}

impl LockFile {
    /// No node index occurs twice, no node has two inputs of one name, and
    /// the root is among the nodes.
    pub open spec fn well_formed(&self) -> bool {
        self@.well_formed()
    }

    /// The graph that holds nothing but an unlocked root without inputs,
    /// under the index `root`, at the newest supported version.
    pub fn new() -> (lock: Self)
        ensures
            lock.well_formed(),
            lock@ == (GraphSpec::<LockRecord> {
                nodes: seq![("root"@, NodeSpec { inputs: Seq::empty(), lock: None })],
                root: "root"@,
                version: MAX_SUPPORTED_LOCK_VERSION,
            }),
    {
        LockFile::with_root(
            "root".to_owned(),
            Node::Unlocked(UnlockedNode::new()),
            MAX_SUPPORTED_LOCK_VERSION,
        )
    }

    /// The graph that holds `node` alone, as its root, under the index `root`.
    pub fn with_root(root: String, node: Node, version: u32) -> (lock: Self)
        requires
            node.well_formed(),
        ensures
            lock.well_formed(),
            lock@ == (GraphSpec { nodes: seq![(root@, node@)], root: root@, version }),
    {
        let mut nodes: Vec<(String, Node)> = Vec::new();
        nodes.push((root.clone(), node));
        let lock = LockFile { nodes, root, version };
        assert(lock@.nodes =~= seq![(root@, node@)]);
        assert(lock@.nodes[0].0 == lock@.root);
        lock
    }

    /// The root node.
    pub fn root(&self) -> (root: Option<&Node>)
        requires
            self.well_formed(),
        ensures
            root matches Some(node) && self@.node(self@.root) == Some(node@),
    {
        self.get_node(self.root.as_str())
    }

    /// The index of the root node.
    pub fn root_index(&self) -> (index: &str)
        ensures
            index@ == self@.root,
    {
        self.root.as_str()
    }

    /// The schema version.
    pub fn version(&self) -> (version: u32)
        ensures
            version == self@.version,
    {
        self.version
    }

    /// How many nodes the graph has.
    pub fn node_count(&self) -> (count: usize)
        ensures
            count == self@.nodes.len(),
    {
        self.nodes.len()
    }

    /// How many inputs the nodes of the graph have together: the bound on
    /// how deeply paths may lead into paths when a reference is resolved.
    pub fn input_count(&self) -> (count: u128)
        ensures
            count == self@.reach(),
    {
        let mut count: u128 = 0;
        let mut i: usize = 0;
        while i < self.nodes.len()
            invariant
                i <= self.nodes.len(),
                count == count_inputs(self@.nodes.take(i as int)),
                count <= i * usize::MAX,
            decreases self.nodes.len() - i,
        {
            proof {
                assert(self@.nodes.take(i + 1).drop_last() =~= self@.nodes.take(i as int));
                assert(i * usize::MAX + usize::MAX == (i + 1) * usize::MAX) by (nonlinear_arith);
                assert((i + 1) * usize::MAX <= usize::MAX * usize::MAX) by (nonlinear_arith)
                    requires
                        i + 1 <= usize::MAX,
                ;
                assert(usize::MAX * usize::MAX < u128::MAX) by (nonlinear_arith)
                    requires
                        usize::MAX <= 0xffff_ffff_ffff_ffff,
                        u128::MAX == 0xffff_ffff_ffff_ffff_ffff_ffff_ffff_ffff,
                ;
            }
            let inputs: usize = self.nodes[i].1.edge_count();
            count = count + inputs as u128;
            i += 1;
        }
        assert(self@.nodes.take(i as int) =~= self@.nodes);
        count
    }

    /// The node at place `at`, by index and value.
    pub fn node_at(&self, at: usize) -> (entry: (&str, &Node))
        requires
            at < self@.nodes.len(),
        ensures
            (entry.0@, entry.1@) == self@.nodes[at as int],
    {
        (self.nodes[at].0.as_str(), &self.nodes[at].1)
    }

    /// The indices of all nodes, in stored order.
    pub fn node_indices(&self) -> (indices: Vec<&str>)
        ensures
            indices.len() == self@.nodes.len(),
            forall|i: int| 0 <= i < indices.len() ==> (#[trigger] indices[i])@ == self@.nodes[i].0,
    {
        let mut indices: Vec<&str> = Vec::new();
        let mut i: usize = 0;
        while i < self.nodes.len()
            invariant
                i <= self.nodes.len(),
                indices.len() == i,
                forall|j: int| 0 <= j < i ==> (#[trigger] indices[j])@ == self@.nodes[j].0,
            decreases self.nodes.len() - i,
        {
            indices.push(self.nodes[i].0.as_str());
            i += 1;
        }
        indices
    }

    /// The place at which the node `index` is stored.
    pub fn node_position(&self, index: &str) -> (found: Option<usize>)
        requires
            self.well_formed(),
        ensures
            match found {
                Some(at) => at < self@.nodes.len() && self@.nodes[at as int].0 == index@
                    && position(self@.nodes, index@) == at && has_key(self@.nodes, index@),
                None => !has_key(self@.nodes, index@),
            },
    {
        match find_key(&self.nodes, index) {
            Some(at) => {
                proof {
                    lemma_lookup_at(self@.nodes, at as int);
                }
                Some(at)
            },
            None => None,
        }
    }

    /// The node stored under `index`.
    pub fn get_node(&self, index: &str) -> (found: Option<&Node>)
        requires
            self.well_formed(),
        ensures
            match found {
                Some(node) => self@.node(index@) == Some(node@),
                None => self@.node(index@) is None,
            },
    {
        match self.node_position(index) {
            Some(at) => Some(&self.nodes[at].1),
            None => None,
        }
    }

    /// The node stored under `index`, open to change. Changing it leaves
    /// every other node as it was; the graph stays well formed as long as
    /// the node does.
    pub fn get_node_mut(&mut self, index: &str) -> (found: Option<&mut Node>)
        requires
            old(self).well_formed(),
        ensures
            final(self)@.root == old(self)@.root,
            final(self)@.version == old(self)@.version,
            match found {
                Some(node) => {
                    &&& old(self)@.node(index@) == Some(node@)
                    &&& final(self)@.nodes == old(self)@.nodes.update(
                        position(old(self)@.nodes, index@),
                        (index@, final(node)@),
                    )
                },
                None => old(self)@.node(index@) is None && final(self)@.nodes == old(self)@.nodes,
            },
    {
        match self.node_position(index) {
            Some(at) => Some(&mut self.nodes[at].1),
            None => None,
        }
    }

    /// Stores `node` under `index`. Where the graph already has a node of
    /// that index, it is replaced and handed back; otherwise the node is
    /// added behind the others.
    pub fn insert_node(&mut self, index: String, node: Node) -> (replaced: Option<Node>)
        requires
            old(self).well_formed(),
            node.well_formed(),
        ensures
            final(self).well_formed(),
            final(self)@.root == old(self)@.root,
            final(self)@.version == old(self)@.version,
            match replaced {
                Some(before) => {
                    &&& old(self)@.node(index@) == Some(before@)
                    &&& final(self)@.nodes == old(self)@.nodes.update(
                        position(old(self)@.nodes, index@),
                        (index@, node@),
                    )
                },
                None => {
                    &&& old(self)@.node(index@) is None
                    &&& final(self)@.nodes == old(self)@.nodes.push((index@, node@))
                },
            },
    {
        match self.node_position(index.as_str()) {
            Some(at) => {
                let mut node = node;
                std::mem::swap(&mut self.nodes[at].1, &mut node);
                assert(self@.nodes =~= old(self)@.nodes.update(
                    at as int,
                    (index@, self.nodes[at as int].1@),
                ));
                proof {
                    lemma_update_keeps_keys(old(self)@.nodes, at as int, self.nodes[at as int].1@);
                }
                Some(node)
            },
            None => {
                self.nodes.push((index, node));
                assert(self@.nodes =~= old(self)@.nodes.push((index@, node@)));
                proof {
                    let r = position(old(self)@.nodes, old(self)@.root);
                    assert(self@.nodes[r].0 == self@.root);
                }
                None
            },
        }
    }

    /// Takes the node `index` out of the graph and hands it back; where
    /// there is no such node, nothing changes. The root stays: it is not
    /// removed by this function.
    pub fn remove_node(&mut self, index: &str) -> (removed: Option<Node>)
        requires
            old(self).well_formed(),
            index@ != old(self)@.root,
        ensures
            final(self).well_formed(),
            final(self)@.root == old(self)@.root,
            final(self)@.version == old(self)@.version,
            match removed {
                Some(node) => {
                    &&& old(self)@.node(index@) == Some(node@)
                    &&& final(self)@.nodes == old(self)@.nodes.remove(
                        position(old(self)@.nodes, index@),
                    )
                },
                None => old(self)@.node(index@) is None && final(self)@.nodes == old(self)@.nodes,
            },
    {
        match self.node_position(index) {
            Some(at) => {
                let entry = self.nodes.remove(at);
                assert(self@.nodes =~= old(self)@.nodes.remove(at as int));
                proof {
                    lemma_remove_keeps_keys(old(self)@.nodes, at as int, old(self)@.root);
                }
                Some(entry.1)
            },
            None => None,
        }
    }
}

impl LockFile {
    /// One step of a walk: the node that the input `name` of the node `from`
    /// refers to.
    fn step_within(&self, from: &str, name: &str, reach: u128) -> (next: Result<String, GraphError>)
        requires
            self.well_formed(),
        ensures
            text_of(next) == self@.step(from@, name@, reach as nat),
        decreases reach, 0nat,
    {
        let node = match self.get_node(from) {
            Some(node) => node,
            None => {
                return Err(GraphError::Dangling);
            },
        };
        proof {
            let at = position(self@.nodes, from@);
            assert(self@.nodes[at].1.well_formed());
        }
        match node.get_edge(name) {
            None => Err(GraphError::Dangling),
            Some(NodeEdge::Indexed(index)) => Ok(index.clone()),
            Some(NodeEdge::Follows(path)) => {
                if reach == 0 {
                    Err(GraphError::Cycle)
                } else {
                    self.walk_within(path, reach - 1)
                }
            },
        }
    }

    /// The node reached from the root along `path`, with paths found on the
    /// way followed at most `reach` levels deep.
    fn walk_within(&self, path: &Vec<String>, reach: u128) -> (end: Result<String, GraphError>)
        requires
            self.well_formed(),
        ensures
            text_of(end) == self@.follow(path.deep_view(), reach as nat),
        decreases reach, 1nat,
    {
        let mut current: String = self.root.clone();
        let mut i: usize = 0;
        assert(path.deep_view().skip(0) =~= path.deep_view());
        while i < path.len()
            invariant
                i <= path.len(),
                self.well_formed(),
                self@.follow(path.deep_view(), reach as nat) == self@.walk(
                    current@,
                    path.deep_view().skip(i as int),
                    reach as nat,
                ),
            decreases path.len() - i,
        {
            let ghost rest = path.deep_view().skip(i as int);
            proof {
                assert(rest.drop_first() =~= path.deep_view().skip(i + 1));
            }
            match self.step_within(current.as_str(), path[i].as_str(), reach) {
                Ok(next) => {
                    current = next;
                },
                Err(error) => {
                    return Err(error);
                },
            }
            i += 1;
        }
        Ok(current)
    }

    /// The node that `edge` refers to, with paths followed at most `reach`
    /// levels deep, or why there is none.
    pub fn resolve_within(&self, edge: &NodeEdge, reach: u128) -> (target: Result<
        String,
        GraphError,
    >)
        requires
            self.well_formed(),
        ensures
            text_of(target) == self@.resolve(edge@, reach as nat),
    {
        match edge {
            NodeEdge::Indexed(index) => Ok(index.clone()),
            NodeEdge::Follows(path) => self.walk_within(path, reach),
        }
    }

    /// The node that `edge` refers to, or why there is none. A direct
    /// reference gives its index, whether or not such a node exists. A path
    /// is walked from the root, one input name after the other; a missing
    /// node or input on the way is `Dangling`, and paths that lead into
    /// paths more levels deep than the graph has inputs are a `Cycle`.
    pub fn try_resolve_edge(&self, edge: &NodeEdge) -> (target: Result<String, GraphError>)
        requires
            self.well_formed(),
        ensures
            text_of(target) == self@.resolve(edge@, self@.reach()),
    {
        match edge {
            NodeEdge::Indexed(index) => Ok(index.clone()),
            NodeEdge::Follows(path) => self.walk_within(path, self.input_count()),
        }
    }

    /// The node that `edge` refers to, or `None` where the resolution fails.
    pub fn resolve_edge(&self, edge: &NodeEdge) -> (target: Option<String>)
        requires
            self.well_formed(),
        ensures
            match target {
                Some(index) => self@.resolve(edge@, self@.reach()) == Ok::<Seq<char>, GraphError>(
                    index@,
                ),
                None => self@.resolve(edge@, self@.reach()) is Err,
            },
    {
        match self.try_resolve_edge(edge) {
            Ok(index) => Some(index),
            Err(_) => None,
        }
    }

    /// The node reached from the root along `path`, or `None` where the
    /// walk fails.
    pub fn follow_path(&self, path: &Vec<String>) -> (end: Option<String>)
        requires
            self.well_formed(),
        ensures
            match end {
                Some(index) => self@.follow(path.deep_view(), self@.reach()) == Ok::<
                    Seq<char>,
                    GraphError,
                >(index@),
                None => self@.follow(path.deep_view(), self@.reach()) is Err,
            },
    {
        match self.walk_within(path, self.input_count()) {
            Ok(index) => Some(index),
            Err(_) => None,
        }
    }
}

} // verus!

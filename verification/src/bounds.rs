//! Why the bounds that a graph gives itself are wide enough: a resolution
//! that is not cut short by some bound never leads paths into paths deeper
//! than the graph has inputs, and a walk that is not cut short by some
//! bound never descends deeper than the graph has nodes.
//!
//! Both rest on one observation. A resolution that goes through an input
//! while it is already going through it would do so again and again, and a
//! walk that comes to a node below that node would come to it again and
//! again; neither can end but by being cut short.

use vstd::prelude::*;
use vstd::multiset::Multiset;
use vstd::set_lib::lemma_len_subset;
use crate::model::{count_inputs, cut_short, EdgeSpec, GraphSpec, NodeSpec};
use crate::table::{has_key, position};
use crate::walks::lemma_walk_farther;

verus! {

impl<M> GraphSpec<M> {
    /// The inputs holding a path that the walk from `from` along `path`
    /// goes through before it ends, each as often as it does: where a step
    /// finds a path, that input and whatever the walk along its path goes
    /// through.
    pub open spec fn trail(self, from: Seq<char>, path: Seq<Seq<char>>, reach: nat) -> Multiset<
        (Seq<char>, Seq<char>),
    >
        decreases reach, path.len() + 1,
    {
        if path.len() == 0 {
            Multiset::empty()
        } else {
            let first = self.trail_step(from, path.first(), reach);
            match self.step(from, path.first(), reach) {
                Ok(next) => first.add(self.trail(next, path.drop_first(), reach)),
                Err(_) => first,
            }
        }
    }

    /// The inputs holding a path that one step of a walk goes through.
    pub open spec fn trail_step(self, from: Seq<char>, name: Seq<char>, reach: nat) -> Multiset<
        (Seq<char>, Seq<char>),
    >
        decreases reach, 0nat,
    {
        match self.edge(from, name) {
            Some(EdgeSpec::Follows(path)) => if reach == 0 {
                Multiset::empty()
            } else {
                self.trail(self.root, path, (reach - 1) as nat).insert((from, name))
            },
            _ => Multiset::empty(),
        }
    }

    /// The nodes that the walk from `index` comes to before it ends, each
    /// as often as it does.
    pub open spec fn seen(self, index: Seq<char>, depth: nat, reach: nat) -> Multiset<Seq<char>>
        decreases depth, 0nat,
    {
        match self.node(index) {
            Some(node) => if depth == 0 {
                Multiset::empty()
            } else {
                self.seen_edges(node.inputs, (depth - 1) as nat, reach).insert(index)
            },
            None => Multiset::empty(),
        }
    }

    /// The nodes that the walk through the inputs `edges` comes to before
    /// it ends.
    pub open spec fn seen_edges(
        self,
        edges: Seq<(Seq<char>, EdgeSpec)>,
        depth: nat,
        reach: nat,
    ) -> Multiset<Seq<char>>
        decreases depth, edges.len() + 1,
    {
        if edges.len() == 0 {
            Multiset::empty()
        } else {
            match self.resolve(edges.first().1, reach) {
                Err(_) => Multiset::empty(),
                Ok(target) => match self.visit(target, depth, reach) {
                    Ok(_) => self.seen(target, depth, reach).add(
                        self.seen_edges(edges.drop_first(), depth, reach),
                    ),
                    Err(_) => self.seen(target, depth, reach),
                },
            }
        }
    }
}

/// Every input of every node of `nodes`, as the index of its node and its
/// name.
pub open spec fn input_keys<M>(nodes: Seq<(Seq<char>, NodeSpec<M>)>) -> Seq<(Seq<char>, Seq<char>)>
    decreases nodes.len(),
{
    if nodes.len() == 0 {
        Seq::empty()
    } else {
        input_keys(nodes.drop_last()) + nodes.last().1.inputs.map_values(
            |entry: (Seq<char>, EdgeSpec)| (nodes.last().0, entry.0),
        )
    }
}

/// More reach does not change the trail of a walk that was not cut short.
pub proof fn lemma_trail_farther<M>(
    g: GraphSpec<M>,
    from: Seq<char>,
    path: Seq<Seq<char>>,
    reach: nat,
    farther: nat,
)
    requires
        !cut_short(g.walk(from, path, reach)),
        reach <= farther,
    ensures
        g.trail(from, path, farther) == g.trail(from, path, reach),
    decreases reach, path.len() + 1,
{
    if path.len() > 0 {
        let name = path.first();
        lemma_trail_step_farther(g, from, name, reach, farther);
        match g.step(from, name, reach) {
            Ok(next) => {
                lemma_trail_farther(g, next, path.drop_first(), reach, farther);
            },
            Err(_) => {},
        }
    }
}

/// More reach does not change a step that was not cut short, nor its trail.
pub proof fn lemma_trail_step_farther<M>(
    g: GraphSpec<M>,
    from: Seq<char>,
    name: Seq<char>,
    reach: nat,
    farther: nat,
)
    requires
        !cut_short(g.step(from, name, reach)),
        reach <= farther,
    ensures
        g.trail_step(from, name, farther) == g.trail_step(from, name, reach),
        g.step(from, name, farther) == g.step(from, name, reach),
    decreases reach, 0nat,
{
    match g.edge(from, name) {
        Some(EdgeSpec::Follows(path)) => {
            lemma_trail_farther(g, g.root, path, (reach - 1) as nat, (farther - 1) as nat);
            lemma_walk_farther(g, g.root, path, (reach - 1) as nat, (farther - 1) as nat);
        },
        _ => {},
    }
}

/// A trail that goes through an input holds everything that the step
/// through that input goes through.
pub proof fn lemma_trail_holds_step<M>(
    g: GraphSpec<M>,
    from: Seq<char>,
    path: Seq<Seq<char>>,
    reach: nat,
    input: (Seq<char>, Seq<char>),
    farther: nat,
)
    requires
        !cut_short(g.walk(from, path, reach)),
        g.trail(from, path, reach).count(input) > 0,
        !cut_short(g.step(input.0, input.1, farther)),
        reach <= farther,
    ensures
        g.trail_step(input.0, input.1, farther).subset_of(g.trail(from, path, reach)),
    decreases reach, path.len() + 1,
{
    let name = path.first();
    let first = g.trail_step(from, name, reach);
    if first.count(input) > 0 {
        lemma_trail_step_holds_step(g, from, name, reach, input, farther);
    } else {
        let next = g.step(from, name, reach)->Ok_0;
        lemma_trail_holds_step(g, next, path.drop_first(), reach, input, farther);
    }
}

/// The trail of a step that goes through an input holds everything that
/// the step through that input goes through.
pub proof fn lemma_trail_step_holds_step<M>(
    g: GraphSpec<M>,
    from: Seq<char>,
    name: Seq<char>,
    reach: nat,
    input: (Seq<char>, Seq<char>),
    farther: nat,
)
    requires
        !cut_short(g.step(from, name, reach)),
        g.trail_step(from, name, reach).count(input) > 0,
        !cut_short(g.step(input.0, input.1, farther)),
        reach <= farther,
    ensures
        g.trail_step(input.0, input.1, farther).subset_of(g.trail_step(from, name, reach)),
    decreases reach, 0nat,
{
    match g.edge(from, name) {
        Some(EdgeSpec::Follows(path)) => {
            if input == (from, name) {
                lemma_trail_step_farther(g, from, name, reach, farther);
            } else {
                lemma_trail_holds_step(g, g.root, path, (reach - 1) as nat, input, farther);
            }
        },
        _ => {},
    }
}

/// A walk that is not cut short leads paths into paths no deeper than it
/// goes through different inputs.
pub proof fn lemma_walk_reach<M>(
    g: GraphSpec<M>,
    from: Seq<char>,
    path: Seq<Seq<char>>,
    reach: nat,
    cap: nat,
)
    requires
        !cut_short(g.walk(from, path, reach)),
        g.trail(from, path, reach).dom().len() <= cap,
    ensures
        g.walk(from, path, cap) == g.walk(from, path, reach),
    decreases reach, path.len() + 1,
{
    if path.len() > 0 {
        let name = path.first();
        let first = g.trail_step(from, name, reach);
        let trail = g.trail(from, path, reach);
        lemma_len_subset(first.dom(), trail.dom());
        lemma_step_reach(g, from, name, reach, cap);
        match g.step(from, name, reach) {
            Ok(next) => {
                let rest = g.trail(next, path.drop_first(), reach);
                lemma_len_subset(rest.dom(), trail.dom());
                lemma_walk_reach(g, next, path.drop_first(), reach, cap);
            },
            Err(_) => {},
        }
    }
}

/// A step that is not cut short leads paths into paths no deeper than it
/// goes through different inputs.
pub proof fn lemma_step_reach<M>(
    g: GraphSpec<M>,
    from: Seq<char>,
    name: Seq<char>,
    reach: nat,
    cap: nat,
)
    requires
        !cut_short(g.step(from, name, reach)),
        g.trail_step(from, name, reach).dom().len() <= cap,
    ensures
        g.step(from, name, cap) == g.step(from, name, reach),
    decreases reach, 0nat,
{
    match g.edge(from, name) {
        Some(EdgeSpec::Follows(path)) => {
            let input = (from, name);
            let below = (reach - 1) as nat;
            let inner = g.trail(g.root, path, below);
            let trail = g.trail_step(from, name, reach);
            lemma_path_not_in_itself(g, from, name, reach);
            lemma_len_subset(inner.dom(), trail.dom().remove(input));
            lemma_walk_reach(g, g.root, path, below, (cap - 1) as nat);
        },
        _ => {},
    }
}

/// The walk along the path that an input holds, if it is not cut short,
/// does not go through that input.
pub proof fn lemma_path_not_in_itself<M>(
    g: GraphSpec<M>,
    from: Seq<char>,
    name: Seq<char>,
    reach: nat,
)
    requires
        g.edge(from, name) matches Some(EdgeSpec::Follows(_)),
        reach > 0,
        !cut_short(g.step(from, name, reach)),
    ensures
        g.edge(from, name) matches Some(EdgeSpec::Follows(path)) && g.trail(
            g.root,
            path,
            (reach - 1) as nat,
        ).count((from, name)) == 0,
{
    let path = g.edge(from, name)->Some_0->Follows_0;
    let input = (from, name);
    let inner = g.trail(g.root, path, (reach - 1) as nat);
    if inner.count(input) > 0 {
        lemma_trail_holds_step(g, g.root, path, (reach - 1) as nat, input, reach);
    }
}

/// There are as many keys of inputs as there are inputs.
pub proof fn lemma_input_count<M>(nodes: Seq<(Seq<char>, NodeSpec<M>)>)
    ensures
        input_keys(nodes).len() == count_inputs(nodes),
    decreases nodes.len(),
{
    if nodes.len() > 0 {
        lemma_input_count(nodes.drop_last());
    }
}

/// Every input of every node is among the keys of all inputs.
pub proof fn lemma_input_is_listed<M>(nodes: Seq<(Seq<char>, NodeSpec<M>)>, at: int, input: int)
    requires
        0 <= at < nodes.len(),
        0 <= input < nodes[at].1.inputs.len(),
    ensures
        input_keys(nodes).contains((nodes[at].0, nodes[at].1.inputs[input].0)),
    decreases nodes.len(),
{
    let front = input_keys(nodes.drop_last());
    let last = nodes.last().1.inputs.map_values(
        |entry: (Seq<char>, EdgeSpec)| (nodes.last().0, entry.0),
    );
    if at == nodes.len() - 1 {
        assert(input_keys(nodes)[front.len() + input] == last[input]);
    } else {
        lemma_input_is_listed(nodes.drop_last(), at, input);
        let key = (nodes[at].0, nodes[at].1.inputs[input].0);
        let i = choose|i: int| 0 <= i < front.len() && front[i] == key;
        assert(input_keys(nodes)[i] == key);
    }
}

/// An input that the graph has is among the keys of all inputs.
pub proof fn lemma_edge_is_listed<M>(g: GraphSpec<M>, from: Seq<char>, name: Seq<char>)
    requires
        g.edge(from, name) is Some,
    ensures
        input_keys(g.nodes).to_set().contains((from, name)),
{
    let at = position(g.nodes, from);
    let input = position(g.nodes[at].1.inputs, name);
    lemma_input_is_listed(g.nodes, at, input);
}

/// Whatever a trail holds is an input of a node of the graph.
pub proof fn lemma_trail_is_listed<M>(
    g: GraphSpec<M>,
    from: Seq<char>,
    path: Seq<Seq<char>>,
    reach: nat,
)
    ensures
        g.trail(from, path, reach).dom().subset_of(input_keys(g.nodes).to_set()),
    decreases reach, path.len() + 1,
{
    if path.len() > 0 {
        let name = path.first();
        lemma_trail_step_is_listed(g, from, name, reach);
        match g.step(from, name, reach) {
            Ok(next) => {
                lemma_trail_is_listed(g, next, path.drop_first(), reach);
            },
            Err(_) => {},
        }
    }
}

/// Whatever the trail of a step holds is an input of a node of the graph.
pub proof fn lemma_trail_step_is_listed<M>(
    g: GraphSpec<M>,
    from: Seq<char>,
    name: Seq<char>,
    reach: nat,
)
    ensures
        g.trail_step(from, name, reach).dom().subset_of(input_keys(g.nodes).to_set()),
    decreases reach, 0nat,
{
    match g.edge(from, name) {
        Some(EdgeSpec::Follows(path)) => {
            if reach > 0 {
                lemma_trail_is_listed(g, g.root, path, (reach - 1) as nat);
                lemma_edge_is_listed(g, from, name);
            }
        },
        _ => {},
    }
}

/// A walk along a path that is not cut short by some reach is not cut
/// short by the reach of the graph, and ends as it ends with that reach.
pub proof fn lemma_walk_fits<M>(g: GraphSpec<M>, from: Seq<char>, path: Seq<Seq<char>>, reach: nat)
    requires
        !cut_short(g.walk(from, path, reach)),
    ensures
        g.walk(from, path, g.reach()) == g.walk(from, path, reach),
{
    lemma_trail_is_listed(g, from, path, reach);
    let trail = g.trail(from, path, reach);
    let keys = input_keys(g.nodes);
    keys.lemma_cardinality_of_set();
    lemma_len_subset(trail.dom(), keys.to_set());
    lemma_input_count(g.nodes);
    lemma_walk_reach(g, from, path, reach, g.reach());
}

/// The path that an input of the graph holds, walked with the reach of the
/// graph, ends as it does with one level less: that input itself is one of
/// those that the graph has, and the walk does not go through it.
pub proof fn lemma_inner_walk_fits<M>(g: GraphSpec<M>, from: Seq<char>, name: Seq<char>)
    requires
        g.edge(from, name) matches Some(EdgeSpec::Follows(_)),
    ensures
        g.edge(from, name) matches Some(EdgeSpec::Follows(path)) && g.step(from, name, g.reach())
            == g.walk(g.root, path, g.reach()),
{
    let path = g.edge(from, name)->Some_0->Follows_0;
    let input = (from, name);
    let keys = input_keys(g.nodes);
    lemma_edge_is_listed(g, from, name);
    lemma_input_count(g.nodes);
    keys.lemma_cardinality_of_set();
    let below = (g.reach() - 1) as nat;
    if !cut_short(g.walk(g.root, path, g.reach())) {
        lemma_path_not_in_itself(g, from, name, g.reach() + 1);
        let trail = g.trail(g.root, path, g.reach());
        lemma_trail_is_listed(g, g.root, path, g.reach());
        lemma_len_subset(trail.dom(), keys.to_set().remove(input));
        lemma_walk_reach(g, g.root, path, g.reach(), below);
    } else {
        if !cut_short(g.walk(g.root, path, below)) {
            lemma_walk_farther(g, g.root, path, below, g.reach());
        }
    }
}

/// More depth and more reach change neither a walk that was not cut short
/// nor what it has seen.
pub proof fn lemma_visit_deeper<M>(
    g: GraphSpec<M>,
    index: Seq<char>,
    depth: nat,
    reach: nat,
    deeper: nat,
    farther: nat,
)
    requires
        !cut_short(g.visit(index, depth, reach)),
        depth <= deeper,
        reach <= farther,
    ensures
        g.visit(index, deeper, farther) == g.visit(index, depth, reach),
        g.seen(index, deeper, farther) == g.seen(index, depth, reach),
    decreases depth, 0nat,
{
    match g.node(index) {
        Some(node) => {
            lemma_visit_edges_deeper(
                g,
                node.inputs,
                (depth - 1) as nat,
                reach,
                (deeper - 1) as nat,
                farther,
            );
        },
        None => {},
    }
}

/// More depth and more reach change neither a walk through some inputs that
/// was not cut short nor what it has seen.
pub proof fn lemma_visit_edges_deeper<M>(
    g: GraphSpec<M>,
    edges: Seq<(Seq<char>, EdgeSpec)>,
    depth: nat,
    reach: nat,
    deeper: nat,
    farther: nat,
)
    requires
        !cut_short(g.visit_edges(edges, depth, reach)),
        depth <= deeper,
        reach <= farther,
    ensures
        g.visit_edges(edges, deeper, farther) == g.visit_edges(edges, depth, reach),
        g.seen_edges(edges, deeper, farther) == g.seen_edges(edges, depth, reach),
    decreases depth, edges.len() + 1,
{
    if edges.len() > 0 {
        match edges.first().1 {
            EdgeSpec::Indexed(_) => {},
            EdgeSpec::Follows(path) => {
                lemma_walk_farther(g, g.root, path, reach, farther);
            },
        }
        match g.resolve(edges.first().1, reach) {
            Ok(target) => {
                lemma_visit_deeper(g, target, depth, reach, deeper, farther);
                if g.visit(target, depth, reach) is Ok {
                    lemma_visit_edges_deeper(g, edges.drop_first(), depth, reach, deeper, farther);
                }
            },
            Err(_) => {},
        }
    }
}

/// A walk that has seen a node has seen everything that the walk from
/// that node sees.
pub proof fn lemma_seen_holds_seen<M>(
    g: GraphSpec<M>,
    from: Seq<char>,
    depth: nat,
    index: Seq<char>,
    deeper: nat,
    reach: nat,
)
    requires
        !cut_short(g.visit(from, depth, reach)),
        g.seen(from, depth, reach).count(index) > 0,
        !cut_short(g.visit(index, deeper, reach)),
        depth <= deeper,
    ensures
        g.seen(index, deeper, reach).subset_of(g.seen(from, depth, reach)),
    decreases depth, 0nat,
{
    if from == index {
        lemma_visit_deeper(g, index, depth, reach, deeper, reach);
    } else {
        let node = g.node(from)->Some_0;
        lemma_seen_edges_hold_seen(g, node.inputs, (depth - 1) as nat, index, deeper, reach);
    }
}

/// A walk through some inputs that has seen a node has seen everything
/// that the walk from that node sees.
pub proof fn lemma_seen_edges_hold_seen<M>(
    g: GraphSpec<M>,
    edges: Seq<(Seq<char>, EdgeSpec)>,
    depth: nat,
    index: Seq<char>,
    deeper: nat,
    reach: nat,
)
    requires
        !cut_short(g.visit_edges(edges, depth, reach)),
        g.seen_edges(edges, depth, reach).count(index) > 0,
        !cut_short(g.visit(index, deeper, reach)),
        depth <= deeper,
    ensures
        g.seen(index, deeper, reach).subset_of(g.seen_edges(edges, depth, reach)),
    decreases depth, edges.len() + 1,
{
    let target = g.resolve(edges.first().1, reach)->Ok_0;
    let first = g.seen(target, depth, reach);
    if first.count(index) > 0 {
        lemma_seen_holds_seen(g, target, depth, index, deeper, reach);
    } else {
        lemma_seen_edges_hold_seen(g, edges.drop_first(), depth, index, deeper, reach);
    }
}

/// The walk below a node, if it is not cut short, does not come to that
/// node.
pub proof fn lemma_node_not_below_itself<M>(
    g: GraphSpec<M>,
    index: Seq<char>,
    depth: nat,
    reach: nat,
)
    requires
        g.node(index) is Some,
        depth > 0,
        !cut_short(g.visit(index, depth, reach)),
    ensures
        g.seen_edges(g.node(index)->Some_0.inputs, (depth - 1) as nat, reach).count(index) == 0,
{
    let node = g.node(index)->Some_0;
    let below = g.seen_edges(node.inputs, (depth - 1) as nat, reach);
    if below.count(index) > 0 {
        lemma_seen_edges_hold_seen(g, node.inputs, (depth - 1) as nat, index, depth, reach);
    }
}

/// A walk that is not cut short descends no deeper than it sees different
/// nodes.
pub proof fn lemma_visit_depth<M>(g: GraphSpec<M>, index: Seq<char>, depth: nat, reach: nat)
    requires
        !cut_short(g.visit(index, depth, reach)),
    ensures
        g.visit(index, g.seen(index, depth, reach).dom().len(), reach) == g.visit(
            index,
            depth,
            reach,
        ),
    decreases depth, 0nat,
{
    match g.node(index) {
        Some(node) => {
            let seen = g.seen(index, depth, reach);
            let below = g.seen_edges(node.inputs, (depth - 1) as nat, reach);
            lemma_node_not_below_itself(g, index, depth, reach);
            lemma_len_subset(below.dom(), seen.dom().remove(index));
            let cap = (seen.dom().len() - 1) as nat;
            lemma_visit_edges_depth(g, node.inputs, (depth - 1) as nat, reach, cap);
        },
        None => {},
    }
}

/// A walk through some inputs that is not cut short descends no deeper
/// than it sees different nodes.
pub proof fn lemma_visit_edges_depth<M>(
    g: GraphSpec<M>,
    edges: Seq<(Seq<char>, EdgeSpec)>,
    depth: nat,
    reach: nat,
    cap: nat,
)
    requires
        !cut_short(g.visit_edges(edges, depth, reach)),
        g.seen_edges(edges, depth, reach).dom().len() <= cap,
    ensures
        g.visit_edges(edges, cap, reach) == g.visit_edges(edges, depth, reach),
    decreases depth, edges.len() + 1,
{
    if edges.len() > 0 {
        match g.resolve(edges.first().1, reach) {
            Ok(target) => {
                let seen = g.seen_edges(edges, depth, reach);
                let first = g.seen(target, depth, reach);
                lemma_len_subset(first.dom(), seen.dom());
                lemma_visit_depth(g, target, depth, reach);
                lemma_visit_deeper(g, target, first.dom().len(), reach, cap, reach);
                if g.visit(target, depth, reach) is Ok {
                    let rest = g.seen_edges(edges.drop_first(), depth, reach);
                    lemma_len_subset(rest.dom(), seen.dom());
                    lemma_visit_edges_depth(g, edges.drop_first(), depth, reach, cap);
                }
            },
            Err(_) => {},
        }
    }
}

/// A walk that is not cut short resolves every input within the reach of
/// the graph.
pub proof fn lemma_visit_fits_reach<M>(g: GraphSpec<M>, index: Seq<char>, depth: nat, reach: nat)
    requires
        !cut_short(g.visit(index, depth, reach)),
    ensures
        g.visit(index, depth, g.reach()) == g.visit(index, depth, reach),
    decreases depth, 0nat,
{
    match g.node(index) {
        Some(node) => {
            lemma_visit_edges_fit_reach(g, node.inputs, (depth - 1) as nat, reach);
        },
        None => {},
    }
}

/// A walk through some inputs that is not cut short resolves every input
/// within the reach of the graph.
pub proof fn lemma_visit_edges_fit_reach<M>(
    g: GraphSpec<M>,
    edges: Seq<(Seq<char>, EdgeSpec)>,
    depth: nat,
    reach: nat,
)
    requires
        !cut_short(g.visit_edges(edges, depth, reach)),
    ensures
        g.visit_edges(edges, depth, g.reach()) == g.visit_edges(edges, depth, reach),
    decreases depth, edges.len() + 1,
{
    if edges.len() > 0 {
        match edges.first().1 {
            EdgeSpec::Indexed(_) => {},
            EdgeSpec::Follows(path) => {
                lemma_walk_fits(g, g.root, path, reach);
            },
        }
        match g.resolve(edges.first().1, reach) {
            Ok(target) => {
                lemma_visit_fits_reach(g, target, depth, reach);
                if g.visit(target, depth, reach) is Ok {
                    lemma_visit_edges_fit_reach(g, edges.drop_first(), depth, reach);
                }
            },
            Err(_) => {},
        }
    }
}

/// Whatever a walk has seen is a node of the graph.
pub proof fn lemma_seen_exists<M>(g: GraphSpec<M>, index: Seq<char>, depth: nat, reach: nat)
    ensures
        forall|at: Seq<char>| #[trigger]
            g.seen(index, depth, reach).count(at) > 0 ==> has_key(g.nodes, at),
    decreases depth, 0nat,
{
    match g.node(index) {
        Some(node) => {
            if depth > 0 {
                let below = g.seen_edges(node.inputs, (depth - 1) as nat, reach);
                lemma_seen_edges_exist(g, node.inputs, (depth - 1) as nat, reach);
                assert forall|at: Seq<char>| #[trigger]
                    g.seen(index, depth, reach).count(at) > 0 implies has_key(g.nodes, at) by {
                    if at != index {
                        assert(below.count(at) > 0);
                    }
                }
            }
        },
        None => {},
    }
}

/// Whatever a walk through some inputs has seen is a node of the graph.
pub proof fn lemma_seen_edges_exist<M>(
    g: GraphSpec<M>,
    edges: Seq<(Seq<char>, EdgeSpec)>,
    depth: nat,
    reach: nat,
)
    ensures
        forall|at: Seq<char>| #[trigger]
            g.seen_edges(edges, depth, reach).count(at) > 0 ==> has_key(g.nodes, at),
    decreases depth, edges.len() + 1,
{
    if edges.len() > 0 {
        match g.resolve(edges.first().1, reach) {
            Ok(target) => {
                let first = g.seen(target, depth, reach);
                let rest = g.seen_edges(edges.drop_first(), depth, reach);
                lemma_seen_exists(g, target, depth, reach);
                lemma_seen_edges_exist(g, edges.drop_first(), depth, reach);
                assert forall|at: Seq<char>| #[trigger]
                    g.seen_edges(edges, depth, reach).count(at) > 0 implies has_key(
                    g.nodes,
                    at,
                ) by {
                    if first.count(at) == 0 {
                        assert(rest.count(at) > 0);
                    }
                }
            },
            Err(_) => {},
        }
    }
}

/// A walk that is not cut short by some depth and reach is not cut short
/// by the depth and the reach of the graph, and ends as it ends with those.
pub proof fn lemma_visit_fits<M>(g: GraphSpec<M>, index: Seq<char>, depth: nat, reach: nat)
    requires
        !cut_short(g.visit(index, depth, reach)),
    ensures
        g.visit(index, g.depth(), g.reach()) == g.visit(index, depth, reach),
{
    lemma_visit_fits_reach(g, index, depth, reach);
    lemma_visit_depth(g, index, depth, g.reach());
    let seen = g.seen(index, depth, g.reach());
    lemma_seen_exists(g, index, depth, g.reach());
    let keys = g.nodes.map_values(|entry: (Seq<char>, NodeSpec<M>)| entry.0);
    assert forall|at: Seq<char>| seen.dom().contains(at) implies keys.to_set().contains(at) by {
        let i = position(g.nodes, at);
        assert(keys[i] == at);
    }
    keys.lemma_cardinality_of_set();
    lemma_len_subset(seen.dom(), keys.to_set());
    lemma_visit_deeper(g, index, seen.dom().len(), g.reach(), g.depth(), g.reach());
}

} // verus!

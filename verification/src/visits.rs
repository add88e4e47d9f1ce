//! Reference counting: how often each node is reached when the graph is
//! walked depth first from a starting node.
//!
//! The walk keeps no record of where it has been. A node that is reached
//! along two ways is counted twice, and what lies below it is walked twice.
//! A count of zero therefore means that the node cannot be reached at all.

use vstd::prelude::*;
use vstd::multiset::Multiset;
use crate::flake_lock::LockFile;
use crate::model::{EdgeSpec, GraphError, GraphSpec};
use crate::table::entries_view;

verus! {

impl<M> GraphSpec<M> {
    /// The nodes reached by a walk that starts at `index`, each as often as
    /// it is reached: `index` itself, then whatever is reached from the
    /// node that each of its inputs resolves to. `depth` is how many nodes
    /// the walk may still descend, this one included; `reach` is how deeply
    /// paths may lead into paths where an input is resolved. The first
    /// failure in walking order decides the error.
    pub open spec fn visit(self, index: Seq<char>, depth: nat, reach: nat) -> Result<
        Multiset<Seq<char>>,
        GraphError,
    >
        decreases depth, 0nat,
    {
        match self.node(index) {
            None => Err(GraphError::Dangling),
            Some(node) => if depth == 0 {
                Err(GraphError::Cycle)
            } else {
                match self.visit_edges(node.inputs, (depth - 1) as nat, reach) {
                    Ok(below) => Ok(below.insert(index)),
                    Err(error) => Err(error),
                }
            },
        }
    }

    /// The nodes reached through the inputs `edges`, taken in order.
    pub open spec fn visit_edges(
        self,
        edges: Seq<(Seq<char>, EdgeSpec)>,
        depth: nat,
        reach: nat,
    ) -> Result<Multiset<Seq<char>>, GraphError>
        decreases depth, edges.len() + 1,
    {
        if edges.len() == 0 {
            Ok(Multiset::empty())
        } else {
            match self.resolve(edges.first().1, reach) {
                Err(error) => Err(error),
                Ok(target) => match self.visit(target, depth, reach) {
                    Err(error) => Err(error),
                    Ok(first) => match self.visit_edges(edges.drop_first(), depth, reach) {
                        Err(error) => Err(error),
                        Ok(rest) => Ok(first.add(rest)),
                    },
                },
            }
        }
    }
}

/// A count as a counter holds it: counters stop at `u32::MAX`.
pub open spec fn saturated(count: int) -> u32 {
    if count >= u32::MAX {
        u32::MAX
    } else if count <= 0 {
        0
    } else {
        count as u32
    }
}

/// One counter for each node of `nodes`, in the same order: how often
/// `visits` holds the node's index.
pub open spec fn tally<V>(nodes: Seq<(Seq<char>, V)>, visits: Multiset<Seq<char>>) -> Seq<
    (Seq<char>, u32),
> {
    nodes.map_values(|entry: (Seq<char>, V)| (entry.0, saturated(visits.count(entry.0) as int)))
}

/// What was walked before, followed by the outcome of what is walked next.
spec fn after(
    before: Multiset<Seq<char>>,
    next: Result<Multiset<Seq<char>>, GraphError>,
) -> Result<Multiset<Seq<char>>, GraphError> {
    match next {
        Ok(visits) => Ok(before.add(visits)),
        Err(error) => Err(error),
    }
}

/// Walks the graph from the node `index`, at most `depth` nodes deep and
/// with paths followed at most `reach` levels deep, and adds one to the
/// counter of every node each time it is reached. The counters stand in the
/// order of the graph's nodes; a counter that has reached `u32::MAX` stays
/// there. Where the walk fails, no counter has gone down.
pub fn recurse_inputs(
    lock: &LockFile,
    index: &str,
    depth: usize,
    reach: u128,
    hits: &mut Vec<u32>,
) -> (done: Result<(), GraphError>)
    requires
        lock.well_formed(),
        old(hits).len() == lock@.nodes.len(),
    ensures
        final(hits).len() == old(hits).len(),
        forall|i: int| 0 <= i < final(hits).len() ==> (#[trigger] final(hits)[i]) >= old(hits)[i],
        match done {
            Ok(()) => lock@.visit(index@, depth as nat, reach as nat) matches Ok(visits)
                && forall|i: int|
                0 <= i < final(hits).len() ==> (#[trigger] final(hits)[i]) == saturated(
                    old(hits)[i] + visits.count(lock@.nodes[i].0),
                ),
            Err(error) => lock@.visit(index@, depth as nat, reach as nat) == Err::<
                Multiset<Seq<char>>,
                GraphError,
            >(error),
        },
    decreases depth,
{
    let at = match lock.node_position(index) {
        Some(at) => at,
        None => {
            return Err(GraphError::Dangling);
        },
    };
    if depth == 0 {
        return Err(GraphError::Cycle);
    }
    let node = lock.node_at(at).1;
    if hits[at] < u32::MAX {
        hits[at] = hits[at] + 1;
    }
    let ghost inputs = node@.inputs;
    let ghost mut below: Multiset<Seq<char>> = Multiset::empty();
    let ghost below_depth = (depth - 1) as nat;
    let count = node.edge_count();
    let mut j: usize = 0;
    proof {
        assert(inputs.skip(0) =~= inputs);
        match lock@.visit_edges(inputs, below_depth, reach as nat) {
            Ok(visits) => {
                assert(below.add(visits) =~= visits);
            },
            Err(_) => {},
        }
    }
    while j < count
        invariant
            j <= count,
            count == inputs.len(),
            inputs == node@.inputs,
            lock.well_formed(),
            at < lock@.nodes.len(),
            lock@.nodes[at as int] == (index@, node@),
            below_depth == depth - 1,
            hits.len() == old(hits).len(),
            hits.len() == lock@.nodes.len(),
            forall|i: int| 0 <= i < hits.len() ==> (#[trigger] hits[i]) >= old(hits)[i],
            lock@.visit_edges(inputs, below_depth, reach as nat) == after(
                below,
                lock@.visit_edges(inputs.skip(j as int), below_depth, reach as nat),
            ),
            forall|i: int|
                0 <= i < hits.len() ==> (#[trigger] hits[i]) == saturated(
                    old(hits)[i] + below.insert(index@).count(lock@.nodes[i].0),
                ),
        decreases count - j,
    {
        let ghost rest = inputs.skip(j as int);
        proof {
            assert(rest.drop_first() =~= inputs.skip(j + 1));
        }
        let edge = node.edge_at(j).1;
        let target = match lock.resolve_within(edge, reach) {
            Ok(target) => target,
            Err(error) => {
                return Err(error);
            },
        };
        match recurse_inputs(lock, target.as_str(), depth - 1, reach, hits) {
            Ok(()) => {},
            Err(error) => {
                return Err(error);
            },
        }
        proof {
            let first = lock@.visit(target@, below_depth, reach as nat)->Ok_0;
            match lock@.visit_edges(inputs.skip(j + 1), below_depth, reach as nat) {
                Ok(more) => {
                    assert(below.add(first.add(more)) =~= below.add(first).add(more));
                },
                Err(_) => {},
            }
            below = below.add(first);
        }
        j += 1;
    }
    Ok(())
}

/// The counters of a walk as plain values: one for each node of the graph,
/// in the order of the graph's nodes, and the index at which the walk began.
pub struct VisitsSpec {
    pub counts: Seq<(Seq<char>, u32)>,
    pub start: Seq<char>,
}

/// How often each node of a graph was reached by a walk from one of them.
#[derive(Clone, Debug, PartialEq)]
pub struct FlakeNodeVisits {
    inner: Vec<(String, u32)>,
    root_index: String,
}

impl View for FlakeNodeVisits {
    type V = VisitsSpec;

    closed spec fn view(&self) -> VisitsSpec {
        VisitsSpec { counts: entries_view(self.inner@), start: self.root_index@ }
    }
}

impl FlakeNodeVisits {
    /// Counts how often each node of `lock` is reached by a walk from the
    /// node `index`. Every node of the graph has a counter, those never
    /// reached at zero; a counter that reaches `u32::MAX` stays there. The
    /// walk fails as `Dangling` where it meets a reference that leads
    /// nowhere, the starting index among them, and as `Cycle` where it
    /// descends more nodes than the graph has, or a path leads into paths
    /// more levels deep than the graph has inputs.
    pub fn count_from_index(lock: &LockFile, index: &str) -> (counted: Result<Self, GraphError>)
        requires
            lock.well_formed(),
        ensures
            match counted {
                Ok(hits) => lock@.visit(index@, lock@.depth(), lock@.reach()) matches Ok(visits)
                    && hits@ == (VisitsSpec { counts: tally(lock@.nodes, visits), start: index@ }),
                Err(error) => lock@.visit(index@, lock@.depth(), lock@.reach()) == Err::<
                    Multiset<Seq<char>>,
                    GraphError,
                >(error),
            },
    {
        let count = lock.node_count();
        let mut hits: Vec<u32> = Vec::new();
        let mut i: usize = 0;
        while i < count
            invariant
                i <= count,
                hits.len() == i,
                forall|j: int| 0 <= j < i ==> (#[trigger] hits[j]) == 0,
            decreases count - i,
        {
            hits.push(0);
            i += 1;
        }
        let reach = lock.input_count();
        match recurse_inputs(lock, index, count, reach, &mut hits) {
            Ok(()) => {},
            Err(error) => {
                return Err(error);
            },
        }
        let ghost visits = lock@.visit(index@, lock@.depth(), lock@.reach())->Ok_0;
        let mut inner: Vec<(String, u32)> = Vec::new();
        let mut i: usize = 0;
        while i < count
            invariant
                i <= count,
                count == lock@.nodes.len(),
                hits.len() == count,
                inner.len() == i,
                forall|j: int|
                    0 <= j < count ==> (#[trigger] hits[j]) == saturated(
                        visits.count(lock@.nodes[j].0) as int,
                    ),
                forall|j: int|
                    0 <= j < i ==> (#[trigger] inner[j]).0@ == lock@.nodes[j].0 && inner[j].1
                        == hits[j],
            decreases count - i,
        {
            inner.push((lock.node_at(i).0.to_owned(), hits[i]));
            i += 1;
        }
        let counted = FlakeNodeVisits { inner, root_index: index.to_owned() };
        assert(counted@.counts =~= tally(lock@.nodes, visits));
        Ok(counted)
    }

    /// The counters, each with the index of its node.
    pub fn into_inner(self) -> (inner: Vec<(String, u32)>)
        ensures
            entries_view(inner@) == self@.counts,
    {
        self.inner
    }

    /// The counters, each with the index of its node, for reading.
    pub fn entries(&self) -> (inner: &Vec<(String, u32)>)
        ensures
            entries_view(inner@) == self@.counts,
    {
        &self.inner
    }

    /// The index of the node at which the walk began.
    pub fn root_index(&self) -> (index: &str)
        ensures
            index@ == self@.start,
    {
        self.root_index.as_str()
    }

    /// The counter of the node `index`: the first one under that index.
    pub fn get(&self, index: &str) -> (count: Option<u32>)
        ensures
            count == first_count(self@.counts, index@),
    {
        let mut i: usize = 0;
        assert(self@.counts.skip(0) =~= self@.counts);
        while i < self.inner.len()
            invariant
                i <= self.inner.len(),
                first_count(self@.counts, index@) == first_count(
                    self@.counts.skip(i as int),
                    index@,
                ),
            decreases self.inner.len() - i,
        {
            let ghost rest = self@.counts.skip(i as int);
            proof {
                assert(rest.drop_first() =~= self@.counts.skip(i + 1));
            }
            if *self.inner[i].0.as_str() == *index {
                return Some(self.inner[i].1);
            }
            i += 1;
        }
        None
    }
}

/// The counter of the first entry of `counts` whose index is `index`.
pub open spec fn first_count(counts: Seq<(Seq<char>, u32)>, index: Seq<char>) -> Option<u32>
    decreases counts.len(),
{
    if counts.len() == 0 {
        None
    } else if counts.first().0 == index {
        Some(counts.first().1)
    } else {
        first_count(counts.drop_first(), index)
    }
}

} // verus!

//! Orphan pruning: removing the nodes that a walk from the root never
//! reaches.

use vstd::prelude::*;
use vstd::multiset::Multiset;
use crate::flake_lock::{LockFile, LockRecord};
use crate::model::{GraphError, GraphSpec, NodeSpec};
use crate::table::{entries_view, lemma_lookup_at};
use crate::visits::{saturated, tally, FlakeNodeVisits};

verus! {

/// Holds of the entries whose index `visits` holds at least once.
pub open spec fn reached_by<V>(visits: Multiset<Seq<char>>) -> spec_fn((Seq<char>, V)) -> bool {
    |entry: (Seq<char>, V)| visits.count(entry.0) > 0
}

/// Holds of the entries whose index `visits` does not hold.
pub open spec fn missed_by<V>(visits: Multiset<Seq<char>>) -> spec_fn((Seq<char>, V)) -> bool {
    |entry: (Seq<char>, V)| visits.count(entry.0) == 0
}

impl<M> GraphSpec<M> {
    /// The walk from the root that decides what is pruned, as deep as the
    /// graph bounds it.
    pub open spec fn walked(self) -> Result<Multiset<Seq<char>>, GraphError> {
        self.visit(self.root, self.depth(), self.reach())
    }

    /// The graph without the nodes that `visits` does not hold. The nodes
    /// that stay keep their order and their contents.
    pub open spec fn pruned(self, visits: Multiset<Seq<char>>) -> Self {
        GraphSpec {
            nodes: self.nodes.filter(reached_by(visits)),
            root: self.root,
            version: self.version,
        }
    }

    /// The indices of the nodes that `visits` does not hold, in the order of
    /// the graph's nodes.
    pub open spec fn orphans(self, visits: Multiset<Seq<char>>) -> Seq<Seq<char>> {
        self.nodes.filter(missed_by(visits)).map_values(|entry: (Seq<char>, NodeSpec<M>)| entry.0)
    }
}

/// Removes from `lock` every node that a walk from the root does not reach,
/// and hands back the indices of the removed nodes. The nodes that stay are
/// unchanged. Where the walk fails, so does the pruning, and the graph is
/// left as it was.
pub fn prune_orphan_nodes(lock: &mut LockFile) -> (pruned: Result<Vec<String>, GraphError>)
    requires
        old(lock).well_formed(),
    ensures
        final(lock).well_formed(),
        match pruned {
            Ok(removed) => {
                &&& old(lock)@.walked() matches Ok(visits)
                &&& final(lock)@ == old(lock)@.pruned(visits)
                &&& removed.deep_view() == old(lock)@.orphans(visits)
            },
            Err(error) => {
                &&& old(lock)@.walked() == Err::<Multiset<Seq<char>>, GraphError>(error)
                &&& final(lock)@ == old(lock)@
            },
        },
{
    let counts = match FlakeNodeVisits::count_from_index(lock, lock.root_index()) {
        Ok(hits) => hits.into_inner(),
        Err(error) => {
            return Err(error);
        },
    };
    let ghost before = lock@;
    let ghost visits = before.walked()->Ok_0;
    let ghost live = reached_by::<NodeSpec<LockRecord>>(visits);
    let ghost dead = missed_by::<NodeSpec<LockRecord>>(visits);
    let ghost key = |entry: (Seq<char>, NodeSpec<LockRecord>)| entry.0;
    let mut removed: Vec<String> = Vec::new();
    let mut kept: usize = 0;
    let mut i: usize = 0;
    proof {
        assert(entries_view(counts@).len() == tally(before.nodes, visits).len());
        assert forall|j: int| 0 <= j < counts.len() implies (#[trigger] counts[j]).0@
            == before.nodes[j].0 && counts[j].1 == saturated(
            visits.count(before.nodes[j].0) as int,
        ) by {
            assert(entries_view(counts@)[j] == tally(before.nodes, visits)[j]);
        }
    }
    while i < counts.len()
        invariant
            i <= counts.len(),
            counts.len() == before.nodes.len(),
            before.well_formed(),
            before.walked() == Ok::<Multiset<Seq<char>>, GraphError>(visits),
            live == reached_by::<NodeSpec<LockRecord>>(visits),
            dead == missed_by::<NodeSpec<LockRecord>>(visits),
            key == |entry: (Seq<char>, NodeSpec<LockRecord>)| entry.0,
            forall|j: int|
                0 <= j < counts.len() ==> (#[trigger] counts[j]).0@ == before.nodes[j].0
                    && counts[j].1 == saturated(visits.count(before.nodes[j].0) as int),
            lock.well_formed(),
            lock@.root == before.root,
            lock@.version == before.version,
            kept == before.nodes.take(i as int).filter(live).len(),
            lock@.nodes == before.nodes.take(i as int).filter(live) + before.nodes.skip(i as int),
            removed.deep_view() == before.nodes.take(i as int).filter(dead).map_values(key),
        decreases counts.len() - i,
    {
        let ghost seen = before.nodes.take(i as int);
        let ghost entry = before.nodes[i as int];
        proof {
            assert(before.nodes.take(i + 1) =~= seen.push(entry));
            seen.lemma_filter_push(entry, live);
            seen.lemma_filter_push(entry, dead);
            lemma_lookup_at(lock@.nodes, kept as int);
        }
        if counts[i].1 == 0 {
            let index: &String = &counts[i].0;
            lock.remove_node(index.as_str());
            removed.push(index.clone());
            proof {
                assert(seen.filter(dead).push(entry).map_values(key) =~= seen.filter(
                    dead,
                ).map_values(key).push(entry.0));
            }
        } else {
            kept += 1;
        }
        i += 1;
    }
    proof {
        assert(before.nodes.take(i as int) =~= before.nodes);
    }
    Ok(removed)
}

} // verus!

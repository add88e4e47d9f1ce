//! What a completed walk has reached is closed: every node reached exists,
//! and whatever one of them names directly has been reached too.

use vstd::prelude::*;
use vstd::multiset::Multiset;
use crate::model::{EdgeSpec, GraphSpec};

verus! {

/// The input `edge` names directly a node that `visits` holds, or names
/// none directly.
pub open spec fn leads_into(visits: Multiset<Seq<char>>, edge: EdgeSpec) -> bool {
    edge matches EdgeSpec::Indexed(index) ==> visits.count(index) > 0
}

/// The index `index` is a node of `g`, and every node that one of its
/// inputs names directly is held by `visits`.
pub open spec fn node_closed<M>(
    g: GraphSpec<M>,
    visits: Multiset<Seq<char>>,
    index: Seq<char>,
) -> bool {
    &&& g.node(index) matches Some(node)
    &&& forall|i: int|
        0 <= i < node.inputs.len() ==> leads_into(visits, (#[trigger] node.inputs[i]).1)
}

/// Whatever `part` holds is a node of `g` whose direct references all lead
/// to what `whole` holds.
pub open spec fn closed_in<M>(
    g: GraphSpec<M>,
    part: Multiset<Seq<char>>,
    whole: Multiset<Seq<char>>,
) -> bool {
    forall|index: Seq<char>| part.count(index) > 0 ==> #[trigger] node_closed(g, whole, index)
}

/// `part` holds nothing that `whole` does not hold.
pub open spec fn within(part: Multiset<Seq<char>>, whole: Multiset<Seq<char>>) -> bool {
    forall|index: Seq<char>| #[trigger] part.count(index) > 0 ==> whole.count(index) > 0
}

/// What is closed in a part is closed in whatever holds that part.
proof fn lemma_closed_grows<M>(
    g: GraphSpec<M>,
    part: Multiset<Seq<char>>,
    small: Multiset<Seq<char>>,
    whole: Multiset<Seq<char>>,
)
    requires
        closed_in(g, part, small),
        within(small, whole),
    ensures
        closed_in(g, part, whole),
{
    assert forall|index: Seq<char>| part.count(index) > 0 implies #[trigger] node_closed(
        g,
        whole,
        index,
    ) by {
        assert(node_closed(g, small, index));
    }
}

/// What a completed walk has reached is closed: every node reached exists,
/// and so does every node that one of them names directly.
pub proof fn lemma_visit_closed<M>(g: GraphSpec<M>, index: Seq<char>, depth: nat, reach: nat)
    requires
        g.visit(index, depth, reach) is Ok,
    ensures
        g.visit(index, depth, reach)->Ok_0.count(index) > 0,
        closed_in(g, g.visit(index, depth, reach)->Ok_0, g.visit(index, depth, reach)->Ok_0),
    decreases depth, 0nat,
{
    let visits = g.visit(index, depth, reach)->Ok_0;
    let node = g.node(index)->Some_0;
    let below = g.visit_edges(node.inputs, (depth - 1) as nat, reach)->Ok_0;
    lemma_visit_edges_closed(g, node.inputs, (depth - 1) as nat, reach);
    lemma_closed_grows(g, below, below, visits);
}

/// What a completed walk through some inputs has reached is closed, and
/// holds every node that one of the inputs names directly.
pub proof fn lemma_visit_edges_closed<M>(
    g: GraphSpec<M>,
    edges: Seq<(Seq<char>, EdgeSpec)>,
    depth: nat,
    reach: nat,
)
    requires
        g.visit_edges(edges, depth, reach) is Ok,
    ensures
        closed_in(
            g,
            g.visit_edges(edges, depth, reach)->Ok_0,
            g.visit_edges(edges, depth, reach)->Ok_0,
        ),
        forall|i: int|
            0 <= i < edges.len() ==> leads_into(
                g.visit_edges(edges, depth, reach)->Ok_0,
                (#[trigger] edges[i]).1,
            ),
    decreases depth, edges.len() + 1,
{
    let visits = g.visit_edges(edges, depth, reach)->Ok_0;
    if edges.len() > 0 {
        let target = g.resolve(edges.first().1, reach)->Ok_0;
        let first = g.visit(target, depth, reach)->Ok_0;
        let rest = g.visit_edges(edges.drop_first(), depth, reach)->Ok_0;
        lemma_visit_closed(g, target, depth, reach);
        lemma_visit_edges_closed(g, edges.drop_first(), depth, reach);
        lemma_closed_grows(g, first, first, visits);
        lemma_closed_grows(g, rest, rest, visits);
        assert forall|i: int| 0 <= i < edges.len() implies leads_into(
            visits,
            (#[trigger] edges[i]).1,
        ) by {
            if i > 0 {
                assert(leads_into(rest, edges.drop_first()[i - 1].1));
            }
        }
    }
}

} // verus!

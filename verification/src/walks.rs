//! How walks along paths hang together: longer paths, and more reach.

use vstd::prelude::*;
use crate::model::{cut_short, EdgeSpec, GraphError, GraphSpec};

verus! {

/// Walking a path and then one more name is walking the longer path.
pub proof fn lemma_walk_push<M>(
    g: GraphSpec<M>,
    from: Seq<char>,
    path: Seq<Seq<char>>,
    name: Seq<char>,
    reach: nat,
)
    ensures
        g.walk(from, path.push(name), reach) == match g.walk(from, path, reach) {
            Ok(at) => g.step(at, name, reach),
            Err(error) => Err(error),
        },
    decreases path.len(),
{
    let longer = path.push(name);
    if path.len() == 0 {
        assert(longer.drop_first() =~= path);
        match g.step(from, name, reach) {
            Ok(next) => {
                assert(g.walk(next, path, reach) == Ok::<Seq<char>, GraphError>(next));
            },
            Err(_) => {},
        }
    } else {
        assert(longer.drop_first() =~= path.drop_first().push(name));
        match g.step(from, path.first(), reach) {
            Ok(next) => {
                lemma_walk_push(g, next, path.drop_first(), name, reach);
            },
            Err(_) => {},
        }
    }
}

/// More reach does not change a walk that was not cut short.
pub proof fn lemma_walk_farther<M>(
    g: GraphSpec<M>,
    from: Seq<char>,
    path: Seq<Seq<char>>,
    reach: nat,
    farther: nat,
)
    requires
        reach <= farther,
        !cut_short(g.walk(from, path, reach)),
    ensures
        g.walk(from, path, farther) == g.walk(from, path, reach),
    decreases reach, path.len(),
{
    if path.len() > 0 {
        let first = path.first();
        match g.edge(from, first) {
            Some(EdgeSpec::Follows(inner)) => {
                if reach > 0 {
                    lemma_walk_farther(g, g.root, inner, (reach - 1) as nat, (farther - 1) as nat);
                }
            },
            _ => {},
        }
        assert(g.step(from, first, farther) == g.step(from, first, reach));
        match g.step(from, first, reach) {
            Ok(next) => {
                lemma_walk_farther(g, next, path.drop_first(), reach, farther);
            },
            Err(_) => {},
        }
    }
}

} // verus!

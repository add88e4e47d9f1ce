use std::collections::BTreeMap;

use flake_lock_prune::flake_lock::{LockFile, Node, NodeEdge, UnlockedNode};
use flake_lock_prune::model::GraphError;
use flake_lock_prune::prune::prune_orphan_nodes;
use flake_lock_prune::substitute::substitute_flake_inputs_with_follows;
use flake_lock_prune::visits::{recurse_inputs, FlakeNodeVisits};

fn indexed(index: &str) -> NodeEdge {
    NodeEdge::Indexed(index.to_string())
}

fn follows(path: &[&str]) -> NodeEdge {
    NodeEdge::Follows(path.iter().map(|name| name.to_string()).collect())
}

fn node(inputs: &[(&str, NodeEdge)]) -> Node {
    let mut node = Node::Unlocked(UnlockedNode::new());
    for (name, edge) in inputs {
        node.insert_edge(name.to_string(), edge.clone());
    }
    node
}

fn graph(root: &[(&str, NodeEdge)], nodes: &[(&str, Node)]) -> LockFile {
    let mut lock = LockFile::with_root("root".to_string(), node(root), 7);
    for (index, node) in nodes {
        lock.insert_node(index.to_string(), node.clone());
    }
    lock
}

fn sound() -> LockFile {
    graph(
        &[("a", indexed("nodeA")), ("b", follows(&["a", "b"])), ("c", follows(&["b", "c"]))],
        &[
            ("nodeA", node(&[("b", indexed("nodeB")), ("c", follows(&["c"]))])),
            ("nodeB", node(&[("c", indexed("nodeC"))])),
            ("nodeC", node(&[])),
            ("stray", node(&[("c", follows(&["c"]))])),
        ],
    )
}

fn broken() -> LockFile {
    graph(
        &[("a", indexed("nodeA")), ("gone", follows(&["a", "nowhere"]))],
        &[("nodeA", node(&[("b", indexed("lost"))]))],
    )
}

fn circular() -> LockFile {
    graph(
        &[("a", indexed("nodeA")), ("p", follows(&["a", "q"]))],
        &[("nodeA", node(&[("q", follows(&["p"])), ("back", indexed("root"))]))],
    )
}

fn edges_of(lock: &LockFile) -> Vec<NodeEdge> {
    let mut edges = vec![indexed("nodeA"), indexed("missing"), follows(&[]), follows(&["zz"])];
    for at in 0..lock.node_count() {
        for (_, edge) in lock.node_at(at).1.iter_edges() {
            edges.push(edge.clone());
        }
    }
    edges
}

fn walk(lock: &LockFile, from: &str, depth: usize, reach: u128) -> Result<Vec<u32>, GraphError> {
    let mut hits = vec![0; lock.node_count()];
    recurse_inputs(lock, from, depth, reach, &mut hits).map(|()| hits)
}

fn counts(lock: &LockFile) -> BTreeMap<String, u32> {
    FlakeNodeVisits::count_from_index(lock, lock.root_index())
        .expect("the walk completes")
        .into_inner()
        .into_iter()
        .collect()
}

#[test]
fn more_reach_than_the_graph_has_inputs_resolves_nothing_else() {
    for lock in [sound(), broken(), circular(), LockFile::new()] {
        let reach = lock.input_count();
        for edge in edges_of(&lock) {
            let within = lock.try_resolve_edge(&edge);
            assert_eq!(lock.resolve_within(&edge, reach), within);
            for more in [1, 2, 10, 1000] {
                assert_eq!(lock.resolve_within(&edge, reach + more), within);
            }
        }
    }
}

#[test]
fn resolutions_come_out_as_paths_and_as_circles_and_as_dead_ends() {
    let lock = sound();
    assert_eq!(lock.try_resolve_edge(&follows(&["c"])), Ok("nodeC".to_string()));
    assert_eq!(lock.try_resolve_edge(&follows(&["b"])), Ok("nodeB".to_string()));
    let lock = broken();
    assert_eq!(lock.try_resolve_edge(&follows(&["gone"])), Err(GraphError::Dangling));
    let lock = circular();
    assert_eq!(lock.try_resolve_edge(&follows(&["p"])), Err(GraphError::Cycle));
    assert_eq!(lock.try_resolve_edge(&follows(&["a", "q"])), Err(GraphError::Cycle));
}

#[test]
fn more_depth_than_the_graph_has_nodes_walks_nothing_else() {
    for lock in [sound(), broken(), circular(), LockFile::new()] {
        let depth = lock.node_count();
        let reach = lock.input_count();
        for at in 0..lock.node_count() {
            let from = lock.node_at(at).0.to_string();
            let within = walk(&lock, &from, depth, reach);
            assert_eq!(
                FlakeNodeVisits::count_from_index(&lock, &from)
                    .map(|hits| hits.into_inner().into_iter().map(|(_, count)| count).collect()),
                within
            );
            for more in [1, 3, 50] {
                assert_eq!(walk(&lock, &from, depth + more, reach), within);
                assert_eq!(walk(&lock, &from, depth, reach + more as u128), within);
                assert_eq!(walk(&lock, &from, depth + more, reach + 2 * more as u128), within);
            }
        }
    }
    assert_eq!(walk(&sound(), "root", 5, 11), Ok(vec![1, 1, 2, 4, 0]));
    assert_eq!(walk(&broken(), "root", 2, 3), Err(GraphError::Dangling));
    assert_eq!(walk(&circular(), "root", 2, 4), Err(GraphError::Cycle));
}

#[test]
fn pruning_keeps_what_the_kept_nodes_refer_to() {
    let before = sound();
    let mut after = before.clone();
    assert_eq!(prune_orphan_nodes(&mut after), Ok(vec!["stray".to_string()]));
    assert_eq!(counts(&after), counts(&before).into_iter().filter(|(_, n)| *n > 0).collect());
    for at in 0..after.node_count() {
        let (index, kept) = after.node_at(at);
        assert_eq!(before.get_node(index), Some(kept));
        for (_, edge) in kept.iter_edges() {
            assert_eq!(after.try_resolve_edge(edge), before.try_resolve_edge(edge));
            assert!(after.try_resolve_edge(edge).is_ok());
        }
    }
}

#[test]
fn redirected_inputs_resolve_to_what_the_roots_inputs_resolve_to() {
    for copy in [false, true] {
        let mut lock = graph(
            &[("a", indexed("nodeA")), ("c", follows(&["a", "mine"])), ("d", indexed("nodeD"))],
            &[
                ("nodeA", node(&[("c", indexed("other")), ("d", indexed("other")), ("mine", indexed("nodeC"))])),
                ("nodeC", node(&[])),
                ("nodeD", node(&[("c", indexed("other"))])),
                ("other", node(&[])),
            ],
        );
        assert_eq!(substitute_flake_inputs_with_follows(&mut lock, copy), Ok(()));
        let root = lock.root().unwrap();
        for child in ["nodeA", "nodeD"] {
            for (name, edge) in lock.get_node(child).unwrap().iter_edges() {
                if let Some(root_edge) = root.get_edge(name) {
                    assert_eq!(lock.try_resolve_edge(edge), lock.try_resolve_edge(root_edge));
                }
            }
        }
        let node_a = lock.get_node("nodeA").unwrap();
        assert_eq!(lock.resolve_edge(node_a.get_edge("c").unwrap()), Some("nodeC".to_string()));
        assert_eq!(lock.resolve_edge(node_a.get_edge("d").unwrap()), Some("nodeD".to_string()));
        assert_eq!(lock.resolve_edge(node_a.get_edge("mine").unwrap()), Some("nodeC".to_string()));
        let node_d = lock.get_node("nodeD").unwrap();
        assert_eq!(lock.resolve_edge(node_d.get_edge("c").unwrap()), Some("nodeC".to_string()));
    }
}

#[test]
fn stored_order_decides_nothing_but_the_order_of_listing() {
    let one = sound();
    let other = {
        let mut lock = LockFile::with_root(
            "root".to_string(),
            node(&[("c", follows(&["b", "c"])), ("a", indexed("nodeA")), ("b", follows(&["a", "b"]))]),
            7,
        );
        lock.insert_node("stray".to_string(), node(&[("c", follows(&["c"]))]));
        lock.insert_node("nodeC".to_string(), node(&[]));
        lock.insert_node("nodeB".to_string(), node(&[("c", indexed("nodeC"))]));
        lock.insert_node("nodeA".to_string(), node(&[("c", follows(&["c"])), ("b", indexed("nodeB"))]));
        lock
    };
    assert_ne!(one, other);
    assert_eq!(counts(&one), counts(&other));
    assert_eq!(
        counts(&one),
        BTreeMap::from([
            ("root".to_string(), 1),
            ("nodeA".to_string(), 1),
            ("nodeB".to_string(), 2),
            ("nodeC".to_string(), 4),
            ("stray".to_string(), 0),
        ])
    );
    for edge in edges_of(&one) {
        assert_eq!(one.try_resolve_edge(&edge), other.try_resolve_edge(&edge));
    }
    let mut pruned_one = one.clone();
    let mut pruned_other = other.clone();
    assert_eq!(prune_orphan_nodes(&mut pruned_one), prune_orphan_nodes(&mut pruned_other));
    assert_eq!(counts(&pruned_one), counts(&pruned_other));
}

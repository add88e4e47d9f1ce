use flake_lock_prune::flake_lock::{
    FlakeReference, LockFile, LockedNode, LockedReference, Node, NodeEdge, UnlockedNode,
};
use flake_lock_prune::model::GraphError;
use flake_lock_prune::prune::prune_orphan_nodes;
use flake_lock_prune::substitute::{
    substitute_flake_inputs_with_follows, substitute_node_inputs_with_root_inputs,
};
use flake_lock_prune::visits::{recurse_inputs, FlakeNodeVisits};

fn indexed(index: &str) -> NodeEdge {
    NodeEdge::Indexed(index.to_string())
}

fn follows(path: &[&str]) -> NodeEdge {
    NodeEdge::Follows(path.iter().map(|name| name.to_string()).collect())
}

fn unlocked(inputs: &[(&str, NodeEdge)]) -> Node {
    let mut node = Node::Unlocked(UnlockedNode::new());
    for (name, edge) in inputs {
        node.insert_edge(name.to_string(), edge.clone());
    }
    node
}

fn locked(inputs: &[(&str, NodeEdge)]) -> Node {
    let reference = LockedReference {
        last_modified: 1723579231,
        nar_hash: "sha256-PL9C3aOetj+TS+vXvNhh7q5bm3g70oakg+iSu5eQBUQ=".to_string(),
        flake_ref: FlakeReference::Git {
            url: "https://github.com/hyprwm/Hyprland".to_string(),
            git_ref: Some("refs/heads/main".to_string()),
            rev: Some("3b4aabe04c7756fb0a70d78b6f0e701228f46345".to_string()),
            rev_count: Some(5087),
            submodules: true,
        },
    };
    let original = FlakeReference::Git {
        url: "https://github.com/hyprwm/Hyprland".to_string(),
        git_ref: None,
        rev: None,
        rev_count: None,
        submodules: true,
    };
    let mut node = Node::Locked(LockedNode::new(reference, original, true));
    for (name, edge) in inputs {
        node.insert_edge(name.to_string(), edge.clone());
    }
    node
}

fn graph(root: &[(&str, NodeEdge)], nodes: &[(&str, Node)]) -> LockFile {
    let mut lock = LockFile::with_root("root".to_string(), unlocked(root), 7);
    for (index, node) in nodes {
        lock.insert_node(index.to_string(), node.clone());
    }
    lock
}

fn counts(lock: &LockFile, from: &str) -> Vec<(String, u32)> {
    FlakeNodeVisits::count_from_index(lock, from).expect("the walk completes").into_inner()
}

fn entry(index: &str, count: u32) -> (String, u32) {
    (index.to_string(), count)
}

fn scenario() -> LockFile {
    graph(
        &[("A", indexed("nodeA")), ("B", indexed("nodeB")), ("shared", indexed("nodeShared"))],
        &[
            ("nodeA", locked(&[("shared", indexed("nodeShared"))])),
            ("nodeB", locked(&[("shared", indexed("nodeShared2"))])),
            ("nodeShared", locked(&[])),
            ("nodeShared2", locked(&[])),
        ],
    )
}

#[test]
fn counting_visits_every_way_to_a_node() {
    let lock = scenario();
    assert_eq!(
        counts(&lock, "root"),
        vec![
            entry("root", 1),
            entry("nodeA", 1),
            entry("nodeB", 1),
            entry("nodeShared", 2),
            entry("nodeShared2", 1),
        ]
    );
}

#[test]
fn counting_has_one_counter_for_every_node() {
    let lock = graph(
        &[("a", indexed("nodeA"))],
        &[("nodeA", locked(&[])), ("orphan", locked(&[("a", indexed("nodeA"))])), ("lone", unlocked(&[]))],
    );
    let hits = FlakeNodeVisits::count_from_index(&lock, "root").unwrap();
    assert_eq!(hits.root_index(), "root");
    assert_eq!(hits.entries().len(), lock.node_count());
    let indices: Vec<&str> = hits.entries().iter().map(|(index, _)| index.as_str()).collect();
    assert_eq!(indices, lock.node_indices());
    assert_eq!(hits.get("root"), Some(1));
    assert_eq!(hits.get("nodeA"), Some(1));
    assert_eq!(hits.get("orphan"), Some(0));
    assert_eq!(hits.get("lone"), Some(0));
    assert_eq!(hits.get("nobody"), None);
    assert_eq!(
        hits.into_inner(),
        vec![entry("root", 1), entry("nodeA", 1), entry("orphan", 0), entry("lone", 0)]
    );
}

#[test]
fn counting_from_another_node_counts_what_lies_below_it() {
    let lock = scenario();
    assert_eq!(
        counts(&lock, "nodeB"),
        vec![
            entry("root", 0),
            entry("nodeA", 0),
            entry("nodeB", 1),
            entry("nodeShared", 0),
            entry("nodeShared2", 1),
        ]
    );
    let hits = FlakeNodeVisits::count_from_index(&lock, "nodeB").unwrap();
    assert_eq!(hits.root_index(), "nodeB");
}

#[test]
fn counting_multiplies_along_diamonds() {
    let lock = graph(
        &[("l", indexed("left")), ("r", indexed("right"))],
        &[
            ("left", locked(&[("m", indexed("middle"))])),
            ("right", locked(&[("m", follows(&["l", "m"]))])),
            ("middle", locked(&[("x", indexed("leaf")), ("y", indexed("leaf"))])),
            ("leaf", locked(&[])),
        ],
    );
    assert_eq!(
        counts(&lock, "root"),
        vec![
            entry("root", 1),
            entry("left", 1),
            entry("right", 1),
            entry("middle", 2),
            entry("leaf", 4),
        ]
    );
}

#[test]
fn counting_fails_on_a_dangling_reference() {
    let lock = graph(&[("a", indexed("nodeA"))], &[]);
    assert_eq!(FlakeNodeVisits::count_from_index(&lock, "root"), Err(GraphError::Dangling));
    let lock = graph(&[("a", follows(&["missing"]))], &[]);
    assert_eq!(FlakeNodeVisits::count_from_index(&lock, "root"), Err(GraphError::Dangling));
    let lock = LockFile::new();
    assert_eq!(FlakeNodeVisits::count_from_index(&lock, "elsewhere"), Err(GraphError::Dangling));
}

#[test]
fn counting_fails_on_a_cycle() {
    let lock = graph(&[("a", indexed("nodeA"))], &[("nodeA", locked(&[("back", indexed("root"))]))]);
    assert_eq!(FlakeNodeVisits::count_from_index(&lock, "root"), Err(GraphError::Cycle));
    let lock = graph(&[("me", indexed("root"))], &[]);
    assert_eq!(FlakeNodeVisits::count_from_index(&lock, "root"), Err(GraphError::Cycle));
    let lock = graph(&[("a", follows(&["a"]))], &[]);
    assert_eq!(FlakeNodeVisits::count_from_index(&lock, "root"), Err(GraphError::Cycle));
}

#[test]
fn walk_is_cut_at_the_given_depth() {
    let lock = graph(
        &[("a", indexed("nodeA"))],
        &[("nodeA", locked(&[("b", indexed("nodeB"))])), ("nodeB", locked(&[]))],
    );
    assert_eq!(lock.node_count(), 3);
    assert_eq!(lock.input_count(), 2);
    let mut hits = vec![0, 0, 0];
    assert_eq!(recurse_inputs(&lock, "root", 3, 2, &mut hits), Ok(()));
    assert_eq!(hits, vec![1, 1, 1]);
    assert_eq!(recurse_inputs(&lock, "nodeA", 2, 0, &mut hits), Ok(()));
    assert_eq!(hits, vec![1, 2, 2]);
    assert_eq!(recurse_inputs(&lock, "root", 1000, 1000, &mut hits), Ok(()));
    assert_eq!(hits, vec![2, 3, 3]);
    let mut hits = vec![0, 0, 0];
    assert_eq!(recurse_inputs(&lock, "root", 2, 2, &mut hits), Err(GraphError::Cycle));
    assert_eq!(recurse_inputs(&lock, "root", 0, 2, &mut hits), Err(GraphError::Cycle));
    assert_eq!(recurse_inputs(&lock, "nowhere", 0, 2, &mut hits), Err(GraphError::Dangling));
}

#[test]
fn walk_resolves_paths_within_the_given_reach() {
    let lock = graph(
        &[("a", follows(&["b"])), ("b", follows(&["c"])), ("c", indexed("nodeC"))],
        &[("nodeC", locked(&[]))],
    );
    assert_eq!(lock.input_count(), 3);
    let mut hits = vec![0, 0];
    assert_eq!(recurse_inputs(&lock, "root", 2, 1, &mut hits), Ok(()));
    assert_eq!(hits, vec![1, 3]);
    let mut hits = vec![0, 0];
    assert_eq!(recurse_inputs(&lock, "root", 2, 0, &mut hits), Err(GraphError::Cycle));
    assert_eq!(
        FlakeNodeVisits::count_from_index(&lock, "root").unwrap().into_inner(),
        vec![entry("root", 1), entry("nodeC", 3)]
    );
}

#[test]
fn counters_stop_at_their_greatest_value() {
    let lock = graph(&[("a", indexed("nodeA"))], &[("nodeA", locked(&[]))]);
    let mut hits = vec![u32::MAX, u32::MAX - 1];
    assert_eq!(recurse_inputs(&lock, "root", 2, 1, &mut hits), Ok(()));
    assert_eq!(hits, vec![u32::MAX, u32::MAX]);
    assert_eq!(recurse_inputs(&lock, "root", 2, 1, &mut hits), Ok(()));
    assert_eq!(hits, vec![u32::MAX, u32::MAX]);
}

#[test]
fn pruning_removes_what_the_root_does_not_reach() {
    let mut lock = graph(
        &[("a", indexed("nodeA"))],
        &[
            ("orphan", locked(&[("a", indexed("nodeA")), ("o", indexed("other"))])),
            ("nodeA", locked(&[])),
            ("other", locked(&[])),
        ],
    );
    assert_eq!(prune_orphan_nodes(&mut lock), Ok(vec!["orphan".to_string(), "other".to_string()]));
    assert_eq!(lock, graph(&[("a", indexed("nodeA"))], &[("nodeA", locked(&[]))]));
}

#[test]
fn pruning_twice_is_pruning_once() {
    let mut lock = scenario();
    lock.insert_node("stray".to_string(), locked(&[("s", indexed("nodeShared"))]));
    assert_eq!(prune_orphan_nodes(&mut lock), Ok(vec!["stray".to_string()]));
    let once = lock.clone();
    assert_eq!(once, scenario());
    assert_eq!(prune_orphan_nodes(&mut lock), Ok(vec![]));
    assert_eq!(lock, once);
}

#[test]
fn pruning_keeps_the_root() {
    let mut lock = LockFile::new();
    assert_eq!(prune_orphan_nodes(&mut lock), Ok(vec![]));
    assert_eq!(lock, LockFile::new());
    let mut lock = graph(&[], &[("a", locked(&[])), ("b", locked(&[("a", indexed("a"))]))]);
    assert_eq!(prune_orphan_nodes(&mut lock), Ok(vec!["a".to_string(), "b".to_string()]));
    assert_eq!(lock.node_indices(), vec!["root"]);
    assert_eq!(lock.root(), Some(&unlocked(&[])));
}

#[test]
fn pruning_a_broken_graph_changes_nothing() {
    let broken = graph(&[("a", indexed("gone"))], &[("orphan", locked(&[]))]);
    let mut lock = broken.clone();
    assert_eq!(prune_orphan_nodes(&mut lock), Err(GraphError::Dangling));
    assert_eq!(lock, broken);
    let cyclic = graph(&[("a", indexed("nodeA"))], &[("nodeA", locked(&[("a", indexed("nodeA"))])), ("orphan", locked(&[]))]);
    let mut lock = cyclic.clone();
    assert_eq!(prune_orphan_nodes(&mut lock), Err(GraphError::Cycle));
    assert_eq!(lock, cyclic);
}

#[test]
fn substitution_makes_second_level_inputs_follow_the_root() {
    let mut lock = scenario();
    assert_eq!(substitute_flake_inputs_with_follows(&mut lock, false), Ok(()));
    assert_eq!(
        lock,
        graph(
            &[("A", indexed("nodeA")), ("B", indexed("nodeB")), ("shared", indexed("nodeShared"))],
            &[
                ("nodeA", locked(&[("shared", follows(&["shared"]))])),
                ("nodeB", locked(&[("shared", follows(&["shared"]))])),
                ("nodeShared", locked(&[])),
                ("nodeShared2", locked(&[])),
            ],
        )
    );
}

#[test]
fn substitution_then_pruning_drops_the_duplicate() {
    let mut lock = scenario();
    assert_eq!(substitute_flake_inputs_with_follows(&mut lock, false), Ok(()));
    assert_eq!(prune_orphan_nodes(&mut lock), Ok(vec!["nodeShared2".to_string()]));
    assert_eq!(lock.get_node("nodeShared2"), None);
    assert_eq!(lock.get_node("nodeShared"), Some(&locked(&[])));
    assert_eq!(
        lock.get_node("nodeA").unwrap().get_edge("shared"),
        Some(&follows(&["shared"]))
    );
    assert_eq!(
        lock.get_node("nodeB").unwrap().get_edge("shared"),
        Some(&follows(&["shared"]))
    );
    assert_eq!(lock.node_indices(), vec!["root", "nodeA", "nodeB", "nodeShared"]);
    assert_eq!(
        counts(&lock, "root"),
        vec![entry("root", 1), entry("nodeA", 1), entry("nodeB", 1), entry("nodeShared", 3)]
    );
}

#[test]
fn substitution_with_indices_copies_the_roots_references() {
    let mut lock = graph(
        &[("A", indexed("nodeA")), ("shared", indexed("nodeShared")), ("via", follows(&["A", "x"]))],
        &[
            ("nodeA", locked(&[
                ("shared", indexed("nodeShared2")),
                ("via", indexed("nodeShared2")),
                ("x", indexed("nodeShared")),
            ])),
            ("nodeShared", locked(&[])),
            ("nodeShared2", locked(&[])),
        ],
    );
    assert_eq!(substitute_flake_inputs_with_follows(&mut lock, true), Ok(()));
    assert_eq!(
        lock.get_node("nodeA"),
        Some(&locked(&[
            ("shared", indexed("nodeShared")),
            ("via", follows(&["A", "x"])),
            ("x", indexed("nodeShared")),
        ]))
    );
}

#[test]
fn substitution_leaves_alone_what_the_root_has_no_input_for() {
    let before = graph(
        &[("A", indexed("nodeA")), ("far", follows(&["A", "own"]))],
        &[
            ("nodeA", locked(&[("own", indexed("nodeOwn")), ("A", indexed("nodeA2"))])),
            ("nodeOwn", locked(&[("A", indexed("nodeA2"))])),
            ("nodeA2", locked(&[])),
        ],
    );
    let mut lock = before.clone();
    assert_eq!(substitute_flake_inputs_with_follows(&mut lock, false), Ok(()));
    assert_eq!(
        lock.get_node("nodeA"),
        Some(&locked(&[("own", indexed("nodeOwn")), ("A", follows(&["A"]))]))
    );
    assert_eq!(lock.get_node("nodeOwn"), before.get_node("nodeOwn"));
    assert_eq!(lock.get_node("nodeA2"), before.get_node("nodeA2"));
    assert_eq!(lock.root(), before.root());
    assert_eq!(lock.node_indices(), before.node_indices());
}

#[test]
fn substitution_twice_is_substitution_once() {
    for indexed_mode in [false, true] {
        let mut lock = scenario();
        assert_eq!(substitute_flake_inputs_with_follows(&mut lock, indexed_mode), Ok(()));
        let once = lock.clone();
        assert_eq!(substitute_flake_inputs_with_follows(&mut lock, indexed_mode), Ok(()));
        assert_eq!(lock, once);
    }
}

#[test]
fn substitution_refuses_a_dangling_root_input() {
    let before = graph(
        &[("A", indexed("nodeA")), ("gone", indexed("nowhere")), ("me", indexed("root"))],
        &[("nodeA", locked(&[("gone", indexed("elsewhere"))]))],
    );
    let mut lock = before.clone();
    assert_eq!(substitute_flake_inputs_with_follows(&mut lock, false), Err(GraphError::Dangling));
    assert_eq!(lock, before);
}

#[test]
fn substitution_refuses_a_root_that_names_itself() {
    let before = graph(
        &[("A", indexed("nodeA")), ("me", indexed("root"))],
        &[("nodeA", locked(&[("me", indexed("nodeA"))]))],
    );
    let mut lock = before.clone();
    assert_eq!(substitute_flake_inputs_with_follows(&mut lock, true), Err(GraphError::Cycle));
    assert_eq!(lock, before);
}

#[test]
fn node_inputs_are_redirected_to_the_root_inputs_of_their_name() {
    let root = unlocked(&[("shared", indexed("nodeShared")), ("deep", follows(&["a", "b"]))]);
    let mut node = locked(&[("shared", indexed("x")), ("deep", indexed("y")), ("own", indexed("z"))]);
    substitute_node_inputs_with_root_inputs(&root, &mut node, false);
    assert_eq!(
        node,
        locked(&[("shared", follows(&["shared"])), ("deep", follows(&["deep"])), ("own", indexed("z"))])
    );
    let mut node = locked(&[("shared", indexed("x")), ("deep", indexed("y")), ("own", indexed("z"))]);
    substitute_node_inputs_with_root_inputs(&root, &mut node, true);
    assert_eq!(
        node,
        locked(&[("shared", indexed("nodeShared")), ("deep", follows(&["a", "b"])), ("own", indexed("z"))])
    );
}

#[test]
fn a_chain_as_deep_as_the_graph_is_walked() {
    let depth = 1000;
    let mut lock = LockFile::with_root("root".to_string(), unlocked(&[("next", indexed("n1"))]), 7);
    for i in 1..depth {
        lock.insert_node(format!("n{i}"), unlocked(&[("next", indexed(&format!("n{}", i + 1)))]));
    }
    lock.insert_node(format!("n{depth}"), unlocked(&[]));
    let hits = FlakeNodeVisits::count_from_index(&lock, "root").expect("the chain is walked");
    assert_eq!(hits.entries().len(), depth + 1);
    assert!(hits.entries().iter().all(|(_, count)| *count == 1));
    let mut pruned = lock.clone();
    assert_eq!(prune_orphan_nodes(&mut pruned), Ok(vec![]));
    assert_eq!(pruned, lock);

    lock.insert_node(format!("n{depth}"), unlocked(&[("next", indexed("n1"))]));
    assert_eq!(FlakeNodeVisits::count_from_index(&lock, "root"), Err(GraphError::Cycle));
    assert_eq!(FlakeNodeVisits::count_from_index(&lock, "n500"), Err(GraphError::Cycle));
}

#[test]
fn a_circle_of_paths_far_down_is_found() {
    let depth = 500;
    let mut lock = LockFile::with_root(
        "root".to_string(),
        unlocked(&[("next", indexed("n1")), ("p", follows(&["q"])), ("q", follows(&["p"]))]),
        7,
    );
    for i in 1..depth {
        lock.insert_node(format!("n{i}"), unlocked(&[("next", indexed(&format!("n{}", i + 1)))]));
    }
    lock.insert_node(format!("n{depth}"), unlocked(&[("round", follows(&["p"]))]));
    assert_eq!(FlakeNodeVisits::count_from_index(&lock, "root"), Err(GraphError::Cycle));
    let before = lock.clone();
    assert_eq!(prune_orphan_nodes(&mut lock), Err(GraphError::Cycle));
    assert_eq!(lock, before);
}

#[test]
fn paths_may_lead_into_paths_as_deep_as_the_graph_has_inputs() {
    let chain = 600;
    let mut root = vec![("p0".to_string(), indexed("end"))];
    for i in 1..=chain {
        root.push((format!("p{i}"), NodeEdge::Follows(vec![format!("p{}", i - 1)])));
    }
    let mut node = Node::Unlocked(UnlockedNode::new());
    for (name, edge) in root {
        node.insert_edge(name, edge);
    }
    let lock = LockFile::with_root("root".to_string(), node, 7);
    assert_eq!(lock.input_count(), 601);
    let path = |i: usize| NodeEdge::Follows(vec![format!("p{i}")]);
    assert_eq!(lock.try_resolve_edge(&path(0)), Ok("end".to_string()));
    assert_eq!(lock.try_resolve_edge(&path(1)), Ok("end".to_string()));
    assert_eq!(lock.try_resolve_edge(&path(chain)), Ok("end".to_string()));
    assert_eq!(lock.resolve_within(&path(chain), 600), Ok("end".to_string()));
    assert_eq!(lock.resolve_within(&path(chain), 599), Err(GraphError::Cycle));
    assert_eq!(lock.resolve_within(&path(0), 0), Ok("end".to_string()));
    assert_eq!(lock.resolve_within(&path(1), 0), Err(GraphError::Cycle));
    assert_eq!(lock.resolve_within(&indexed("x"), 0), Ok("x".to_string()));
    assert_eq!(lock.resolve_within(&path(700), 0), Err(GraphError::Dangling));
}

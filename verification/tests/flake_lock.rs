use flake_lock_prune::flake_lock::{
    is_supported_version, FlakeReference, LockFile, LockedNode, LockedReference, Node, NodeEdge,
    NodeEdgeRef, UnlockedNode, MAX_SUPPORTED_LOCK_VERSION, MIN_SUPPORTED_LOCK_VERSION,
};
use flake_lock_prune::model::GraphError;

fn indexed(index: &str) -> NodeEdge {
    NodeEdge::Indexed(index.to_string())
}

fn follows(path: &[&str]) -> NodeEdge {
    NodeEdge::Follows(path.iter().map(|name| name.to_string()).collect())
}

fn unlocked(inputs: &[(&str, NodeEdge)]) -> Node {
    let mut node = Node::Unlocked(UnlockedNode::new());
    for (name, edge) in inputs {
        node.insert_edge(name.to_string(), edge.clone());
    }
    node
}

fn github(owner: &str, repo: &str) -> FlakeReference {
    FlakeReference::Github {
        owner: owner.to_string(),
        repo: repo.to_string(),
        git_ref: None,
        rev: None,
        dir: None,
        submodules: false,
    }
}

fn locked(inputs: &[(&str, NodeEdge)]) -> Node {
    let reference = LockedReference {
        last_modified: 1722974790,
        nar_hash: "sha256-zBZ9BvKF8pMF0ywcn1BI0+ntM1R0N8nysUmMDGmi0ts=".to_string(),
        flake_ref: FlakeReference::Github {
            owner: "hyprwm".to_string(),
            repo: "aquamarine".to_string(),
            git_ref: None,
            rev: Some("131ed05f99e66c3e518be3fadeff7ddb7d1d351d".to_string()),
            dir: None,
            submodules: false,
        },
    };
    let mut node = Node::Locked(LockedNode::new(reference, github("hyprwm", "aquamarine"), true));
    for (name, edge) in inputs {
        node.insert_edge(name.to_string(), edge.clone());
    }
    node
}

fn graph(root: &[(&str, NodeEdge)], nodes: &[(&str, Node)]) -> LockFile {
    let mut lock = LockFile::with_root("root".to_string(), unlocked(root), 7);
    for (index, node) in nodes {
        lock.insert_node(index.to_string(), node.clone());
    }
    lock
}

#[test]
fn new_graph_holds_an_unlocked_root_without_inputs() {
    let lock = LockFile::new();
    assert_eq!(lock.root_index(), "root");
    assert_eq!(lock.version(), MAX_SUPPORTED_LOCK_VERSION);
    assert_eq!(lock.version(), 7);
    assert_eq!(lock.node_count(), 1);
    assert_eq!(lock.node_indices(), vec!["root"]);
    let root = lock.root().expect("a new graph has its root");
    assert_eq!(root, &Node::Unlocked(UnlockedNode::new()));
    assert_eq!(root.edge_count(), 0);
}

#[test]
fn supported_versions_are_five_to_seven() {
    assert_eq!(MIN_SUPPORTED_LOCK_VERSION, 5);
    assert_eq!(MAX_SUPPORTED_LOCK_VERSION, 7);
    assert!(!is_supported_version(0));
    assert!(!is_supported_version(4));
    assert!(is_supported_version(5));
    assert!(is_supported_version(6));
    assert!(is_supported_version(7));
    assert!(!is_supported_version(8));
    assert!(!is_supported_version(u32::MAX));
}

#[test]
fn edge_gives_its_index_or_its_path() {
    let direct = indexed("nixpkgs_2");
    assert_eq!(direct.index(), Some("nixpkgs_2"));
    assert_eq!(direct.path(), None);
    let indirect = follows(&["hyprland", "nixpkgs"]);
    assert_eq!(indirect.index(), None);
    assert_eq!(indirect.path(), Some(&vec!["hyprland".to_string(), "nixpkgs".to_string()]));
}

#[test]
fn borrowed_edge_gives_its_index_or_its_path() {
    let direct = indexed("systems");
    assert_eq!(NodeEdgeRef::index(&direct), Some("systems"));
    assert_eq!(NodeEdgeRef::path(&direct), None);
    let indirect = follows(&["systems"]);
    assert_eq!(NodeEdgeRef::index(&indirect), None);
    assert_eq!(NodeEdgeRef::path(&indirect), Some(&vec!["systems".to_string()]));
}

#[test]
fn edge_from_text_is_direct_and_from_names_is_a_path() {
    assert_eq!(NodeEdge::from("xdph".to_string()), indexed("xdph"));
    assert_eq!(NodeEdge::from("xdph"), indexed("xdph"));
    assert_eq!(NodeEdge::from(vec!["a".to_string(), "b".to_string()]), follows(&["a", "b"]));
}

#[test]
fn edge_clone_is_equal() {
    let edge = follows(&["hyprutils"]);
    assert_eq!(edge.clone(), edge);
    let edge = indexed("hyprutils_3");
    assert_eq!(edge.clone(), edge);
}

#[test]
fn insert_edge_adds_or_replaces() {
    let mut node = Node::Unlocked(UnlockedNode::new());
    assert_eq!(node.insert_edge("nixpkgs".to_string(), indexed("nixpkgs_4")), None);
    assert_eq!(node.insert_edge("systems".to_string(), indexed("systems_4")), None);
    assert_eq!(node.edge_count(), 2);
    assert_eq!(
        node.insert_edge("nixpkgs".to_string(), follows(&["nixpkgs"])),
        Some(indexed("nixpkgs_4"))
    );
    assert_eq!(node.edge_count(), 2);
    assert_eq!(node.edge_at(0), ("nixpkgs", &follows(&["nixpkgs"])));
    assert_eq!(node.edge_at(1), ("systems", &indexed("systems_4")));
}

#[test]
fn get_edge_finds_by_name() {
    let node = locked(&[("aquamarine", indexed("aquamarine_2")), ("xdph", indexed("xdph"))]);
    assert_eq!(node.get_edge("xdph"), Some(&indexed("xdph")));
    assert_eq!(node.get_edge("aquamarine"), Some(&indexed("aquamarine_2")));
    assert_eq!(node.get_edge("hyprlang"), None);
    assert_eq!(node.get_edge(""), None);
}

#[test]
fn get_edge_mut_replaces_one_edge_only() {
    let mut node = unlocked(&[("a", indexed("a_1")), ("b", indexed("b_1")), ("c", indexed("c_1"))]);
    match node.get_edge_mut("b") {
        Some(edge) => *edge = follows(&["b"]),
        None => panic!("input b exists"),
    }
    assert!(node.get_edge_mut("d").is_none());
    assert_eq!(
        node,
        unlocked(&[("a", indexed("a_1")), ("b", follows(&["b"])), ("c", indexed("c_1"))])
    );
}

#[test]
fn iter_edges_lists_every_input_in_order() {
    let node = unlocked(&[("x", indexed("1")), ("y", follows(&["x"])), ("z", indexed("3"))]);
    let x = indexed("1");
    let y = follows(&["x"]);
    let z = indexed("3");
    assert_eq!(node.iter_edges(), vec![("x", &x), ("y", &y), ("z", &z)]);
    assert_eq!(unlocked(&[]).iter_edges(), vec![]);
}

#[test]
fn iter_edges_mut_opens_one_edge_at_a_time() {
    let mut node = locked(&[("x", indexed("1")), ("y", indexed("2"))]);
    let mut at = 0;
    while let Some((name, edge)) = node.iter_edges_mut(at) {
        if name == "y" {
            *edge = follows(&["y"]);
        }
        at += 1;
    }
    assert_eq!(at, 2);
    assert!(node.iter_edges_mut(2).is_none());
    assert_eq!(node, locked(&[("x", indexed("1")), ("y", follows(&["y"]))]));
}

#[test]
fn locked_node_keeps_its_record() {
    let node = locked(&[("nixpkgs", follows(&["nixpkgs"]))]);
    match &node {
        Node::Locked(inner) => {
            assert!(inner.flake());
            assert_eq!(inner.locked().last_modified, 1722974790);
            assert_eq!(
                inner.locked().nar_hash,
                "sha256-zBZ9BvKF8pMF0ywcn1BI0+ntM1R0N8nysUmMDGmi0ts="
            );
            assert_eq!(inner.original(), &github("hyprwm", "aquamarine"));
        }
        Node::Unlocked(_) => panic!("the node is locked"),
    }
    assert_eq!(UnlockedNode::default(), UnlockedNode::new());
}

#[test]
fn get_node_finds_by_index() {
    let lock = graph(&[("a", indexed("nodeA"))], &[("nodeA", locked(&[]))]);
    assert_eq!(lock.get_node("nodeA"), Some(&locked(&[])));
    assert_eq!(lock.get_node("root"), Some(&unlocked(&[("a", indexed("nodeA"))])));
    assert_eq!(lock.get_node("nodeB"), None);
    assert_eq!(lock.node_position("root"), Some(0));
    assert_eq!(lock.node_position("nodeA"), Some(1));
    assert_eq!(lock.node_position("nodeB"), None);
    assert_eq!(lock.node_at(1), ("nodeA", &locked(&[])));
    assert_eq!(lock.input_count(), 1);
    assert_eq!(LockFile::new().input_count(), 0);
    assert_eq!(lock.root(), lock.get_node("root"));
}

#[test]
fn get_node_mut_changes_one_node_only() {
    let mut lock = graph(
        &[("a", indexed("nodeA"))],
        &[("nodeA", locked(&[("x", indexed("1"))])), ("nodeB", locked(&[("x", indexed("2"))]))],
    );
    match lock.get_node_mut("nodeA") {
        Some(node) => {
            node.insert_edge("x".to_string(), follows(&["x"]));
        }
        None => panic!("nodeA exists"),
    }
    assert!(lock.get_node_mut("nodeC").is_none());
    assert_eq!(
        lock,
        graph(
            &[("a", indexed("nodeA"))],
            &[
                ("nodeA", locked(&[("x", follows(&["x"]))])),
                ("nodeB", locked(&[("x", indexed("2"))])),
            ],
        )
    );
}

#[test]
fn insert_node_adds_or_replaces() {
    let mut lock = LockFile::with_root("top".to_string(), unlocked(&[]), 6);
    assert_eq!(lock.root_index(), "top");
    assert_eq!(lock.version(), 6);
    assert_eq!(lock.insert_node("dep".to_string(), locked(&[])), None);
    assert_eq!(lock.node_indices(), vec!["top", "dep"]);
    assert_eq!(
        lock.insert_node("dep".to_string(), unlocked(&[("x", indexed("dep"))])),
        Some(locked(&[]))
    );
    assert_eq!(lock.node_indices(), vec!["top", "dep"]);
    assert_eq!(lock.get_node("dep"), Some(&unlocked(&[("x", indexed("dep"))])));
    assert_eq!(
        lock.insert_node("top".to_string(), unlocked(&[("dep", indexed("dep"))])),
        Some(unlocked(&[]))
    );
    assert_eq!(lock.root(), Some(&unlocked(&[("dep", indexed("dep"))])));
}

#[test]
fn remove_node_hands_the_node_back() {
    let mut lock = graph(&[], &[("nodeA", locked(&[])), ("nodeB", unlocked(&[]))]);
    assert_eq!(lock.remove_node("nodeA"), Some(locked(&[])));
    assert_eq!(lock.remove_node("nodeA"), None);
    assert_eq!(lock.remove_node("nodeC"), None);
    assert_eq!(lock.node_indices(), vec!["root", "nodeB"]);
    assert_eq!(lock, graph(&[], &[("nodeB", unlocked(&[]))]));
}

#[test]
fn indexed_edge_resolves_to_its_index_whatever_the_graph_holds() {
    let empty = LockFile::new();
    let full = graph(&[("a", indexed("nodeA"))], &[("nodeA", locked(&[]))]);
    for lock in [&empty, &full] {
        assert_eq!(lock.resolve_edge(&indexed("nodeA")), Some("nodeA".to_string()));
        assert_eq!(lock.resolve_edge(&indexed("missing")), Some("missing".to_string()));
        assert_eq!(lock.resolve_edge(&indexed("")), Some(String::new()));
        assert_eq!(lock.try_resolve_edge(&indexed("missing")), Ok("missing".to_string()));
    }
}

#[test]
fn follows_resolves_step_by_step_from_the_root() {
    let lock = graph(
        &[("a", indexed("nodeA")), ("c", indexed("nodeC"))],
        &[
            ("nodeA", locked(&[("b", indexed("nodeB"))])),
            ("nodeB", locked(&[("c", follows(&["c"]))])),
            ("nodeC", locked(&[])),
        ],
    );
    assert_eq!(lock.resolve_edge(&follows(&[])), Some("root".to_string()));
    assert_eq!(lock.resolve_edge(&follows(&["a"])), Some("nodeA".to_string()));
    assert_eq!(lock.resolve_edge(&follows(&["a", "b"])), Some("nodeB".to_string()));
    assert_eq!(lock.resolve_edge(&follows(&["a", "b", "c"])), Some("nodeC".to_string()));
    assert_eq!(lock.follow_path(&vec!["a".to_string(), "b".to_string()]), Some("nodeB".to_string()));
    assert_eq!(lock.follow_path(&vec![]), Some("root".to_string()));

    let root_a = lock.root().unwrap().get_edge("a").unwrap();
    let first = lock.resolve_edge(root_a).unwrap();
    let node_b = lock.get_node(&first).unwrap().get_edge("b").unwrap();
    assert_eq!(lock.resolve_edge(&follows(&["a", "b"])), lock.resolve_edge(node_b));
}

#[test]
fn follows_of_a_missing_root_input_reports_absence() {
    let lock = graph(&[("a", indexed("nodeA"))], &[("nodeA", locked(&[]))]);
    assert_eq!(lock.resolve_edge(&follows(&["missing"])), None);
    assert_eq!(lock.try_resolve_edge(&follows(&["missing"])), Err(GraphError::Dangling));
    assert_eq!(lock.follow_path(&vec!["missing".to_string()]), None);
    assert_eq!(LockFile::new().resolve_edge(&follows(&["missing"])), None);
}

#[test]
fn follows_through_a_missing_node_or_input_reports_absence() {
    let lock = graph(
        &[("a", indexed("nodeA")), ("gone", indexed("nowhere"))],
        &[("nodeA", locked(&[("b", indexed("nodeB"))]))],
    );
    assert_eq!(lock.resolve_edge(&follows(&["gone"])), Some("nowhere".to_string()));
    assert_eq!(lock.try_resolve_edge(&follows(&["gone", "x"])), Err(GraphError::Dangling));
    assert_eq!(lock.try_resolve_edge(&follows(&["a", "x"])), Err(GraphError::Dangling));
    assert_eq!(lock.try_resolve_edge(&follows(&["a", "b"])), Ok("nodeB".to_string()));
    assert_eq!(lock.try_resolve_edge(&follows(&["a", "b", "c"])), Err(GraphError::Dangling));
}

#[test]
fn follows_may_lead_into_follows() {
    let lock = graph(
        &[("a", follows(&["b"])), ("b", follows(&["c", "d"])), ("c", indexed("nodeC"))],
        &[("nodeC", locked(&[("d", indexed("nodeD"))])), ("nodeD", locked(&[]))],
    );
    assert_eq!(lock.resolve_edge(&follows(&["a"])), Some("nodeD".to_string()));
    assert_eq!(lock.resolve_edge(&follows(&["b"])), Some("nodeD".to_string()));
    assert_eq!(lock.resolve_edge(&follows(&["c", "d"])), Some("nodeD".to_string()));
}

#[test]
fn follows_that_lead_back_to_themselves_are_a_cycle() {
    let own = graph(&[("a", follows(&["a"]))], &[]);
    assert_eq!(own.try_resolve_edge(&follows(&["a"])), Err(GraphError::Cycle));
    assert_eq!(own.resolve_edge(&follows(&["a"])), None);
    let pair = graph(&[("a", follows(&["b"])), ("b", follows(&["a"]))], &[]);
    assert_eq!(pair.try_resolve_edge(&follows(&["b"])), Err(GraphError::Cycle));
    assert_eq!(pair.follow_path(&vec!["a".to_string()]), None);
    assert_eq!(pair.try_resolve_edge(&indexed("a")), Ok("a".to_string()));
}

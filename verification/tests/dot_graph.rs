use flake_lock_prune::dot_graph::Edge;
use flake_lock_prune::flake_lock::{LockFile, Node, NodeEdge, UnlockedNode};

fn node(inputs: &[(&str, NodeEdge)]) -> Node {
    let mut node = Node::Unlocked(UnlockedNode::new());
    for (name, edge) in inputs {
        node.insert_edge(name.to_string(), edge.clone());
    }
    node
}

fn indexed(index: &str) -> NodeEdge {
    NodeEdge::Indexed(index.to_string())
}

fn edge(source: &str, name: &str, inner: NodeEdge) -> Edge {
    Edge { source: source.to_string(), name: name.to_string(), inner }
}

fn sample() -> LockFile {
    let follow = NodeEdge::Follows(vec!["nixpkgs".to_string()]);
    let mut lock = LockFile::with_root(
        "root".to_string(),
        node(&[("hyprland", indexed("hyprland")), ("nixpkgs", indexed("nixpkgs_2"))]),
        7,
    );
    lock.insert_node("hyprland".to_string(), node(&[("nixpkgs", follow), ("gone", indexed("lost"))]));
    lock.insert_node("nixpkgs_2".to_string(), node(&[]));
    lock
}

#[test]
fn drawing_has_every_node_and_every_input() {
    let lock = sample();
    assert_eq!(lock.nodes(), vec!["root", "hyprland", "nixpkgs_2"]);
    assert_eq!(
        lock.edges(),
        vec![
            edge("root", "hyprland", indexed("hyprland")),
            edge("root", "nixpkgs", indexed("nixpkgs_2")),
            edge("hyprland", "nixpkgs", NodeEdge::Follows(vec!["nixpkgs".to_string()])),
            edge("hyprland", "gone", indexed("lost")),
        ]
    );
    assert_eq!(LockFile::new().edges(), vec![]);
}

#[test]
fn edges_lead_from_their_source_to_what_they_resolve_to() {
    let lock = sample();
    let edges = lock.edges();
    assert_eq!(lock.source(&edges[2]), "hyprland");
    assert_eq!(lock.target(&edges[2]), Some("nixpkgs_2".to_string()));
    assert_eq!(lock.target(&edges[3]), Some("lost".to_string()));
    let dangling = edge("hyprland", "x", NodeEdge::Follows(vec!["missing".to_string()]));
    assert_eq!(lock.target(&dangling), None);
}

#[test]
fn node_names_have_underscores_for_hyphens() {
    let lock = sample();
    assert_eq!(lock.graph_id(), "flakelock");
    assert_eq!(lock.node_id("hyprwayland-scanner_2"), Some("hyprwayland_scanner_2".to_string()));
    assert_eq!(lock.node_id("nixpkgs"), Some("nixpkgs".to_string()));
    assert_eq!(lock.node_id("-x-"), Some("_x_".to_string()));
    assert_eq!(lock.node_id("_"), Some("_".to_string()));
    assert_eq!(lock.node_label("hyprwayland-scanner_2"), "hyprwayland-scanner_2");
}

#[test]
fn node_names_that_are_no_identifiers_are_refused() {
    let lock = sample();
    assert_eq!(lock.node_id(""), None);
    assert_eq!(lock.node_id("2fast"), None);
    assert_eq!(lock.node_id("flake utils"), None);
    assert_eq!(lock.node_id("a.b"), None);
    assert_eq!(lock.node_id("née"), None);
}

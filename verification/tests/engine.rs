//! Scenario tests for the dependency-graph engine: cycles, diamonds,
//! duplicate versions, depth limits, pruning, path search, and virtual
//! workspaces.

use upkeep::graph::{DepKind, Package, RawEdge, ResolveNode, ResolvedGraph};
use upkeep::path::{DependencyGraph, PathPackage, PathResult};
use upkeep::stats::build_stats;
use upkeep::tree::{build_tree, TreeArgs, TreeNode};

fn pkg(name: &str, version: &str) -> Package {
    Package {
        id: format!("{name} {version}"),
        name: name.to_string(),
        version: version.to_string(),
        features: Vec::new(),
    }
}

fn edge(target: usize) -> RawEdge {
    RawEdge {
        target,
        kinds: vec![DepKind::Normal],
    }
}

fn node(idx: usize, targets: &[usize]) -> ResolveNode {
    ResolveNode {
        node: idx,
        deps: targets.iter().map(|t| edge(*t)).collect(),
    }
}

fn default_args() -> TreeArgs {
    TreeArgs {
        depth: None,
        duplicates: false,
        invert: None,
        features: false,
        no_dev: false,
    }
}

fn child<'a>(t: &'a TreeNode, name: &str) -> &'a TreeNode {
    t.dependencies
        .iter()
        .find(|c| c.name == name)
        .unwrap_or_else(|| panic!("no child named {name}"))
}

#[test]
fn cycle_terminates_without_repeats() {
    let packages = vec![pkg("a", "1.0.0"), pkg("b", "1.0.0")];
    let nodes = vec![node(0, &[1]), node(1, &[0])];
    let graph = ResolvedGraph::build(packages, &nodes, false);
    assert!(graph.validate());

    let tree = build_tree(&graph, Some(0), &Vec::new(), &default_args()).expect("tree");
    assert_eq!(tree.name, "a");
    assert_eq!(tree.dependencies.len(), 1);
    let b = &tree.dependencies[0];
    assert_eq!(b.name, "b");
    // the edge back to `a` sits on the active path, so it is skipped
    assert_eq!(b.dependencies.len(), 0);
}

#[test]
fn diamond_expands_shared_node_once() {
    // a -> b, a -> c, b -> d, c -> d, d -> e
    let packages = vec![
        pkg("a", "1.0.0"),
        pkg("b", "1.0.0"),
        pkg("c", "1.0.0"),
        pkg("d", "1.0.0"),
        pkg("e", "1.0.0"),
    ];
    let nodes = vec![
        node(0, &[1, 2]),
        node(1, &[3]),
        node(2, &[3]),
        node(3, &[4]),
        node(4, &[]),
    ];
    let graph = ResolvedGraph::build(packages, &nodes, false);
    let tree = build_tree(&graph, Some(0), &Vec::new(), &default_args()).expect("tree");

    assert_eq!(tree.dependencies.len(), 2);
    // children are sorted by name, so `b` comes first and expands `d`
    assert_eq!(tree.dependencies[0].name, "b");
    assert_eq!(tree.dependencies[1].name, "c");
    let d_under_b = child(&tree.dependencies[0], "d");
    assert_eq!(d_under_b.dependencies.len(), 1);
    assert_eq!(d_under_b.dependencies[0].name, "e");
    // the later encounter of `d` is rendered childless
    let d_under_c = child(&tree.dependencies[1], "d");
    assert_eq!(d_under_c.dependencies.len(), 0);
}

#[test]
fn duplicate_versions_are_flagged_and_counted() {
    // root -> dep_a -> dup 0.1.0, root -> dep_b -> dup 0.2.0
    let packages = vec![
        pkg("root", "1.0.0"),
        pkg("dep_a", "1.0.0"),
        pkg("dep_b", "1.0.0"),
        pkg("dup", "0.1.0"),
        pkg("dup", "0.2.0"),
    ];
    let nodes = vec![
        node(0, &[1, 2]),
        node(1, &[3]),
        node(2, &[4]),
        node(3, &[]),
        node(4, &[]),
    ];
    let graph = ResolvedGraph::build(packages, &nodes, false);
    let tree = build_tree(&graph, Some(0), &Vec::new(), &default_args()).expect("tree");

    let dup_one = child(child(&tree, "dep_a"), "dup");
    let dup_two = child(child(&tree, "dep_b"), "dup");
    assert!(dup_one.duplicate);
    assert!(dup_two.duplicate);

    let stats = build_stats(&tree);
    assert!(stats.duplicate_crates >= 1);
    assert_eq!(stats.total_crates, 5);
    assert_eq!(stats.direct_deps, 2);
    assert!(stats.total_crates >= stats.direct_deps);
}

#[test]
fn depth_limit_leaves_depth_one_nodes_childless() {
    // root -> a -> leaf_a, root -> b -> leaf_b
    let packages = vec![
        pkg("root", "1.0.0"),
        pkg("a", "1.0.0"),
        pkg("b", "1.0.0"),
        pkg("leaf_a", "1.0.0"),
        pkg("leaf_b", "1.0.0"),
    ];
    let nodes = vec![
        node(0, &[1, 2]),
        node(1, &[3]),
        node(2, &[4]),
        node(3, &[]),
        node(4, &[]),
    ];
    let graph = ResolvedGraph::build(packages, &nodes, false);
    let mut args = default_args();
    args.depth = Some(1);
    let tree = build_tree(&graph, Some(0), &Vec::new(), &args).expect("tree");

    assert_eq!(tree.dependencies.len(), 2);
    for node in &tree.dependencies {
        assert_eq!(node.dependencies.len(), 0);
    }
}

#[test]
fn duplicates_filter_keeps_root_and_duplicate_branches() {
    // root -> plain -> leaf (no duplicates), root -> carrier -> dup 0.1.0
    // and a second instance dup 0.2.0 reached via carrier_b
    let packages = vec![
        pkg("root", "1.0.0"),
        pkg("plain", "1.0.0"),
        pkg("leaf", "1.0.0"),
        pkg("carrier", "1.0.0"),
        pkg("dup", "0.1.0"),
        pkg("carrier_b", "1.0.0"),
        pkg("dup", "0.2.0"),
    ];
    let nodes = vec![
        node(0, &[1, 3, 5]),
        node(1, &[2]),
        node(2, &[]),
        node(3, &[4]),
        node(4, &[]),
        node(5, &[6]),
        node(6, &[]),
    ];
    let graph = ResolvedGraph::build(packages, &nodes, false);
    let mut args = default_args();
    args.duplicates = true;
    let tree = build_tree(&graph, Some(0), &Vec::new(), &args).expect("tree");

    // the root always stays; the plain branch is gone
    assert_eq!(tree.name, "root");
    assert!(tree.dependencies.iter().all(|c| c.name != "plain"));
    assert!(tree.dependencies.iter().any(|c| c.name == "carrier"));
    assert!(tree.dependencies.iter().any(|c| c.name == "carrier_b"));
}

fn path_graph() -> DependencyGraph {
    // roots r1, r2; r1 -> x; r2 -> y -> x; z is present but unreachable
    DependencyGraph {
        packages: vec![
            PathPackage {
                name: "r1".to_string(),
                version: "1.0.0".to_string(),
                source: None,
            },
            PathPackage {
                name: "r2".to_string(),
                version: "1.0.0".to_string(),
                source: None,
            },
            PathPackage {
                name: "x".to_string(),
                version: "1.0.0".to_string(),
                source: None,
            },
            PathPackage {
                name: "y".to_string(),
                version: "1.0.0".to_string(),
                source: None,
            },
            PathPackage {
                name: "z".to_string(),
                version: "1.0.0".to_string(),
                source: None,
            },
        ],
        adjacency: vec![vec![2], vec![3], vec![], vec![2], vec![]],
        roots: vec![0, 1],
    }
}

#[test]
fn path_to_prefers_fewest_edges_over_all_roots() {
    let graph = path_graph();
    match graph.path_to("x", "1.0.0", None) {
        PathResult::Found(path) => {
            assert_eq!(path, vec!["r1".to_string(), "x".to_string()]);
        }
        other => panic!("expected a path, got {other:?}"),
    }
}

fn tie_package(name: &str) -> PathPackage {
    PathPackage {
        name: name.to_string(),
        version: "1.0.0".to_string(),
        source: None,
    }
}

#[test]
fn path_to_breaks_ties_by_root_order() {
    // r1 and r2 both reach t in one step: the earlier root wins
    let graph = DependencyGraph {
        packages: vec![tie_package("r1"), tie_package("r2"), tie_package("t")],
        adjacency: vec![vec![2], vec![2], vec![]],
        roots: vec![0, 1],
    };
    match graph.path_to("t", "1.0.0", None) {
        PathResult::Found(path) => {
            assert_eq!(path, vec!["r1".to_string(), "t".to_string()]);
        }
        other => panic!("expected a path, got {other:?}"),
    }
}

#[test]
fn path_to_breaks_ties_by_edge_order() {
    // r reaches t through a or b, equally short: the earlier edge wins
    let graph = DependencyGraph {
        packages: vec![
            tie_package("r"),
            tie_package("a"),
            tie_package("b"),
            tie_package("t"),
        ],
        adjacency: vec![vec![1, 2], vec![3], vec![3], vec![]],
        roots: vec![0],
    };
    match graph.path_to("t", "1.0.0", None) {
        PathResult::Found(path) => {
            assert_eq!(
                path,
                vec!["r".to_string(), "a".to_string(), "t".to_string()]
            );
        }
        other => panic!("expected a path, got {other:?}"),
    }
}

#[test]
fn path_to_distinguishes_absent_from_unreachable() {
    let graph = path_graph();
    assert!(matches!(
        graph.path_to("missing", "0.0.0", None),
        PathResult::NotFound
    ));
    assert!(matches!(
        graph.path_to("z", "1.0.0", None),
        PathResult::NoPath
    ));
}

#[test]
fn virtual_workspace_gets_synthetic_root() {
    let packages = vec![pkg("a", "1.0.0"), pkg("b", "1.0.0")];
    let nodes = vec![node(0, &[]), node(1, &[])];
    let graph = ResolvedGraph::build(packages, &nodes, false);
    let members = vec![0, 1];
    let tree = build_tree(&graph, None, &members, &default_args()).expect("tree");

    assert_eq!(tree.name, "(workspace)");
    assert_eq!(tree.package_id, "");
    assert_eq!(tree.dependencies.len(), 2);
    assert_eq!(tree.dependencies[0].name, "a");
    assert_eq!(tree.dependencies[1].name, "b");

    let stats = build_stats(&tree);
    assert_eq!(stats.direct_deps, 2);
    assert_eq!(stats.total_crates, 2);
    assert_eq!(stats.transitive_deps, 0);
}

#[test]
fn inverting_twice_restores_the_adjacency() {
    // 0 -> 1, 0 -> 2, 1 -> 2
    let adjacency = vec![
        vec![
            upkeep::graph::Edge {
                target: 1,
                is_dev: false,
                is_build: false,
            },
            upkeep::graph::Edge {
                target: 2,
                is_dev: true,
                is_build: false,
            },
        ],
        vec![upkeep::graph::Edge {
            target: 2,
            is_dev: false,
            is_build: true,
        }],
        vec![],
    ];
    let inverted = upkeep::graph::invert_graph(&adjacency);
    let restored = upkeep::graph::invert_graph(&inverted);

    let flatten = |adj: &Vec<Vec<upkeep::graph::Edge>>| -> Vec<(usize, usize, bool, bool)> {
        let mut edges: Vec<(usize, usize, bool, bool)> = adj
            .iter()
            .enumerate()
            .flat_map(|(from, row)| {
                row.iter()
                    .map(move |e| (from, e.target, e.is_dev, e.is_build))
            })
            .collect();
        edges.sort();
        edges
    };
    assert_eq!(flatten(&restored), flatten(&adjacency));
    assert_eq!(flatten(&inverted).len(), 3);
}

#[test]
fn inverted_lookup_by_name_builds_reverse_tree() {
    // app -> mid -> base; reverse from `base` should climb to `app`
    let packages = vec![pkg("app", "1.0.0"), pkg("mid", "1.0.0"), pkg("base", "1.0.0")];
    let nodes = vec![node(0, &[1]), node(1, &[2]), node(2, &[])];
    let forward = ResolvedGraph::build(packages, &nodes, false);
    let inverted_rows = upkeep::graph::invert_graph(&forward.adjacency);
    let graph = ResolvedGraph {
        packages: forward.packages,
        adjacency: inverted_rows,
        duplicate: forward.duplicate,
    };
    let mut args = default_args();
    args.invert = Some("base".to_string());
    let tree = build_tree(&graph, Some(0), &Vec::new(), &args).expect("tree");
    assert_eq!(tree.name, "base");
    assert_eq!(tree.dependencies.len(), 1);
    assert_eq!(tree.dependencies[0].name, "mid");
    assert_eq!(tree.dependencies[0].dependencies[0].name, "app");
}

#[test]
fn tree_rendering_uses_connectors_and_annotations() {
    let packages = vec![pkg("root", "1.0.0"), pkg("a", "1.0.0"), pkg("b", "1.0.0")];
    let nodes = vec![node(0, &[1, 2]), node(1, &[]), node(2, &[])];
    let graph = ResolvedGraph::build(packages, &nodes, false);
    let tree = build_tree(&graph, Some(0), &Vec::new(), &default_args()).expect("tree");
    let text = upkeep::render::render_tree(&tree, false);
    let lines: Vec<&str> = text.lines().collect();
    assert_eq!(lines[0], "root v1.0.0");
    assert_eq!(lines[1], "|-- a v1.0.0");
    assert_eq!(lines[2], "`-- b v1.0.0");
}

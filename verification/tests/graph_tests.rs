use cargo_geiger::extra_deps::ExtraDeps;
use cargo_geiger::graph::{build_graph, pg_edges, GraphConfiguration};
use cargo_geiger::ident::{Dependency, DependencyKind, Package, PackageId, Version};
use cargo_geiger::metadata::Metadata;

fn package(id: &str, name: &str, v: (u64, u64, u64), dependencies: Vec<Dependency>) -> Package {
    Package {
        id: PackageId { repr: id.to_string() },
        name: name.to_string(),
        version: Version { major: v.0, minor: v.1, patch: v.2, pre: String::new() },
        source: "registry+https://crates.example/index".to_string(),
        dependencies,
    }
}

fn dependency(name: &str, req: &str, kind: DependencyKind) -> Dependency {
    Dependency { name: name.to_string(), req: req.to_string(), kind, target: None }
}

// root depends (Normal) on a; a depends (Development) on b
fn chain_metadata() -> Metadata {
    Metadata {
        packages: vec![
            package(
                "r 1.0.0 (reg)",
                "r",
                (1, 0, 0),
                vec![dependency("a", "^1.0", DependencyKind::Normal)],
            ),
            package(
                "a 1.1.0 (reg)",
                "a",
                (1, 1, 0),
                vec![dependency("b", "^0.2", DependencyKind::Development)],
            ),
            package("b 0.2.5 (reg)", "b", (0, 2, 5), vec![]),
        ],
    }
}

fn configuration(extra_deps: ExtraDeps) -> GraphConfiguration {
    GraphConfiguration { target: None, cfgs: None, extra_deps }
}

fn node_reprs(graph: &cargo_geiger::graph::Graph) -> Vec<String> {
    graph.nodes.iter().map(|n| n.repr.clone()).collect()
}

#[test]
fn build_policy_stops_at_development_edge() {
    let metadata = chain_metadata();
    let root = PackageId { repr: "r 1.0.0 (reg)".to_string() };
    let (graph, omitted) = build_graph(&metadata, &configuration(ExtraDeps::Build), root);
    assert!(omitted.is_empty());

    let reprs = node_reprs(&graph);
    assert_eq!(reprs, vec!["r 1.0.0 (reg)".to_string(), "a 1.1.0 (reg)".to_string()]);

    let edges = pg_edges(&graph.graph);
    assert_eq!(edges, vec![(0, 1, DependencyKind::Normal)]);
}

#[test]
fn dev_policy_follows_development_edge() {
    let metadata = chain_metadata();
    let root = PackageId { repr: "r 1.0.0 (reg)".to_string() };
    let (graph, omitted) = build_graph(&metadata, &configuration(ExtraDeps::Dev), root);
    assert!(omitted.is_empty());

    let reprs = node_reprs(&graph);
    assert_eq!(
        reprs,
        vec![
            "r 1.0.0 (reg)".to_string(),
            "a 1.1.0 (reg)".to_string(),
            "b 0.2.5 (reg)".to_string()
        ]
    );

    let edges = pg_edges(&graph.graph);
    assert_eq!(
        edges,
        vec![(0, 1, DependencyKind::Normal), (1, 2, DependencyKind::Development)]
    );
}

#[test]
fn no_more_policy_keeps_only_the_root() {
    let metadata = chain_metadata();
    let root = PackageId { repr: "r 1.0.0 (reg)".to_string() };
    let (graph, omitted) = build_graph(&metadata, &configuration(ExtraDeps::NoMore), root);
    assert!(omitted.is_empty());
    assert_eq!(node_reprs(&graph), vec!["r 1.0.0 (reg)".to_string()]);
    assert_eq!(pg_edges(&graph.graph).len(), 0);
}

#[test]
fn repeated_runs_agree() {
    let metadata = chain_metadata();
    let root = PackageId { repr: "r 1.0.0 (reg)".to_string() };
    let (first, _) = build_graph(&metadata, &configuration(ExtraDeps::Dev), root.clone());
    let (second, _) = build_graph(&metadata, &configuration(ExtraDeps::Dev), root);
    assert_eq!(node_reprs(&first), node_reprs(&second));
    assert_eq!(pg_edges(&first.graph), pg_edges(&second.graph));
}

#[test]
fn shared_dependency_gets_one_node_and_two_edges() {
    // r depends on a and b; both depend on c
    let metadata = Metadata {
        packages: vec![
            package(
                "r 1.0.0 (reg)",
                "r",
                (1, 0, 0),
                vec![
                    dependency("a", "^1", DependencyKind::Normal),
                    dependency("b", "^1", DependencyKind::Normal),
                ],
            ),
            package(
                "a 1.0.0 (reg)",
                "a",
                (1, 0, 0),
                vec![dependency("c", "^1", DependencyKind::Normal)],
            ),
            package(
                "b 1.0.0 (reg)",
                "b",
                (1, 0, 0),
                vec![dependency("c", "^1", DependencyKind::Normal)],
            ),
            package("c 1.0.0 (reg)", "c", (1, 0, 0), vec![]),
        ],
    };
    let root = PackageId { repr: "r 1.0.0 (reg)".to_string() };
    let (graph, omitted) = build_graph(&metadata, &configuration(ExtraDeps::Build), root);
    assert!(omitted.is_empty());

    let reprs = node_reprs(&graph);
    assert_eq!(reprs.len(), 4);
    assert_eq!(reprs.iter().filter(|r| r.starts_with("c ")).count(), 1);

    let edges = pg_edges(&graph.graph);
    let into_c = edges
        .iter()
        .filter(|(_, to, _)| reprs[*to] == "c 1.0.0 (reg)".to_string())
        .count();
    assert_eq!(into_c, 2);
}

#[test]
fn unresolvable_package_subtree_is_omitted() {
    // r depends on ghost, which no catalog entry satisfies
    let metadata = Metadata {
        packages: vec![package(
            "r 1.0.0 (reg)",
            "r",
            (1, 0, 0),
            vec![dependency("ghost", "^1", DependencyKind::Normal)],
        )],
    };
    let root = PackageId { repr: "r 1.0.0 (reg)".to_string() };
    let (graph, omitted) = build_graph(&metadata, &configuration(ExtraDeps::Build), root);
    assert!(omitted.is_empty());
    assert_eq!(node_reprs(&graph), vec!["r 1.0.0 (reg)".to_string()]);
}

#[test]
fn dependency_cycles_terminate_with_one_node_each() {
    // r and a require each other; the node map stops the traversal
    let metadata = Metadata {
        packages: vec![
            package(
                "r 1.0.0 (reg)",
                "r",
                (1, 0, 0),
                vec![dependency("a", "^1", DependencyKind::Normal)],
            ),
            package(
                "a 1.0.0 (reg)",
                "a",
                (1, 0, 0),
                vec![dependency("r", "^1", DependencyKind::Normal)],
            ),
        ],
    };
    let root = PackageId { repr: "r 1.0.0 (reg)".to_string() };
    let (graph, omitted) = build_graph(&metadata, &configuration(ExtraDeps::Build), root);
    assert!(omitted.is_empty());
    assert_eq!(
        node_reprs(&graph),
        vec!["r 1.0.0 (reg)".to_string(), "a 1.0.0 (reg)".to_string()]
    );
    assert_eq!(
        pg_edges(&graph.graph),
        vec![(0, 1, DependencyKind::Normal), (1, 0, DependencyKind::Normal)]
    );
}

#[test]
fn unknown_kind_is_followed_only_under_all() {
    let metadata = Metadata {
        packages: vec![
            package(
                "r 1.0.0 (reg)",
                "r",
                (1, 0, 0),
                vec![dependency("odd", "^1", DependencyKind::Unknown)],
            ),
            package("odd 1.0.0 (reg)", "odd", (1, 0, 0), vec![]),
        ],
    };
    let root = PackageId { repr: "r 1.0.0 (reg)".to_string() };
    let (graph, omitted) = build_graph(&metadata, &configuration(ExtraDeps::Dev), root.clone());
    assert!(omitted.is_empty());
    assert_eq!(node_reprs(&graph), vec!["r 1.0.0 (reg)".to_string()]);
    let (graph, omitted) = build_graph(&metadata, &configuration(ExtraDeps::All), root);
    assert!(omitted.is_empty());
    assert_eq!(
        node_reprs(&graph),
        vec!["r 1.0.0 (reg)".to_string(), "odd 1.0.0 (reg)".to_string()]
    );
    assert_eq!(pg_edges(&graph.graph), vec![(0, 1, DependencyKind::Unknown)]);
}

fn windows_constrained_metadata() -> Metadata {
    let constrained = Dependency {
        name: "winonly".to_string(),
        req: "^1".to_string(),
        kind: DependencyKind::Normal,
        target: Some("cfg(target_os = \"windows\")".to_string()),
    };
    Metadata {
        packages: vec![
            package("r 1.0.0 (reg)", "r", (1, 0, 0), vec![constrained]),
            package("winonly 1.0.0 (reg)", "winonly", (1, 0, 0), vec![]),
        ],
    }
}

#[test]
fn platform_constraint_excludes_on_other_target() {
    let metadata = windows_constrained_metadata();
    let root = PackageId { repr: "r 1.0.0 (reg)".to_string() };
    let configuration = GraphConfiguration {
        target: Some("x86_64-unknown-linux-gnu".to_string()),
        cfgs: Some(vec![
            "unix".to_string(),
            "target_os=\"linux\"".to_string(),
            "target_family=\"unix\"".to_string(),
        ]),
        extra_deps: ExtraDeps::Build,
    };
    let (graph, omitted) = build_graph(&metadata, &configuration, root);
    assert!(omitted.is_empty());
    assert_eq!(node_reprs(&graph), vec!["r 1.0.0 (reg)".to_string()]);
}

#[test]
fn platform_constraint_admits_matching_target() {
    let metadata = windows_constrained_metadata();
    let root = PackageId { repr: "r 1.0.0 (reg)".to_string() };
    let configuration = GraphConfiguration {
        target: Some("x86_64-pc-windows-msvc".to_string()),
        cfgs: Some(vec!["windows".to_string(), "target_os=\"windows\"".to_string()]),
        extra_deps: ExtraDeps::Build,
    };
    let (graph, omitted) = build_graph(&metadata, &configuration, root);
    assert!(omitted.is_empty());
    assert_eq!(
        node_reprs(&graph),
        vec!["r 1.0.0 (reg)".to_string(), "winonly 1.0.0 (reg)".to_string()]
    );
}

#[test]
fn all_targets_mode_bypasses_platform_axis() {
    let metadata = windows_constrained_metadata();
    let root = PackageId { repr: "r 1.0.0 (reg)".to_string() };
    let configuration = GraphConfiguration {
        target: None,
        cfgs: Some(vec!["target_os=\"linux\"".to_string()]),
        extra_deps: ExtraDeps::Build,
    };
    let (graph, omitted) = build_graph(&metadata, &configuration, root);
    assert!(omitted.is_empty());
    assert_eq!(
        node_reprs(&graph),
        vec!["r 1.0.0 (reg)".to_string(), "winonly 1.0.0 (reg)".to_string()]
    );
}

#[test]
fn missing_compiler_configuration_excludes_constrained_dependency() {
    let metadata = windows_constrained_metadata();
    let root = PackageId { repr: "r 1.0.0 (reg)".to_string() };
    let configuration = GraphConfiguration {
        target: Some("x86_64-pc-windows-msvc".to_string()),
        cfgs: None,
        extra_deps: ExtraDeps::Build,
    };
    let (graph, omitted) = build_graph(&metadata, &configuration, root);
    assert!(omitted.is_empty());
    assert_eq!(node_reprs(&graph), vec!["r 1.0.0 (reg)".to_string()]);
}

#[test]
fn unknown_root_is_reported_omitted() {
    // the root itself has no catalog record: it stays the only node, its
    // subtree is omitted, and the omission is reported for logging
    let metadata = Metadata { packages: vec![] };
    let root = PackageId { repr: "r 1.0.0 (reg)".to_string() };
    let (graph, omitted) = build_graph(&metadata, &configuration(ExtraDeps::Build), root);
    assert_eq!(node_reprs(&graph), vec!["r 1.0.0 (reg)".to_string()]);
    assert_eq!(pg_edges(&graph.graph).len(), 0);
    assert_eq!(omitted.len(), 1);
    assert_eq!(omitted[0].repr, "r 1.0.0 (reg)".to_string());
}

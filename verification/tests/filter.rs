use arielosbom::bloat::{normalize, BloatCrate, BloatData, BloatOutput};
use arielosbom::graph::{DataInconsistency, DependencyEdge, DependencyGraph, DependencyKind, Package};
use semver::Version;

fn package(id: &str, name: &str, edges: Vec<DependencyEdge>) -> Package {
    Package {
        id: id.to_string(),
        name: name.to_string(),
        version: Version::new(1, 0, 0),
        authors: vec![format!("{} author", name)],
        license: Some("MIT".to_string()),
        repository: None,
        edges,
    }
}

fn edge(target: &str, kinds: Vec<DependencyKind>) -> DependencyEdge {
    DependencyEdge { target: target.to_string(), kinds }
}

fn observed(names: &[&str]) -> BloatData {
    let mut data = BloatData::new();
    for name in names {
        data.insert(name.to_string());
    }
    data
}

fn ids(graph: &DependencyGraph) -> Vec<String> {
    graph.packages().iter().map(|p| p.id.clone()).collect()
}

fn chain() -> DependencyGraph {
    DependencyGraph::new(vec![
        package("A", "a", vec![edge("B", vec![DependencyKind::Normal])]),
        package("B", "b", vec![edge("C", vec![DependencyKind::Build])]),
        package("C", "c", vec![edge("D", vec![DependencyKind::Normal])]),
        package("D", "d", vec![]),
    ])
    .unwrap()
}

#[test]
fn normal_edge_of_a_seed_starts_no_closure() {
    let kept = observed(&["a"]).filter_cargo_metadata(chain());
    assert_eq!(ids(&kept), vec!["A"]);
    assert!(kept.packages()[0].edges.is_empty());
}

#[test]
fn build_edge_of_a_seed_is_followed() {
    let graph = DependencyGraph::new(vec![
        package("A", "a", vec![edge("B", vec![DependencyKind::Build])]),
        package("B", "b", vec![]),
    ])
    .unwrap();
    let kept = observed(&["a"]).filter_cargo_metadata(graph);
    assert_eq!(ids(&kept), vec!["A", "B"]);
    assert_eq!(kept.packages()[0].edges, vec![edge("B", vec![DependencyKind::Build])]);
}

#[test]
fn closure_follows_every_kind_after_the_first_hop() {
    let kept = observed(&["b"]).filter_cargo_metadata(chain());
    assert_eq!(ids(&kept), vec!["B", "C", "D"]);
    assert_eq!(kept.packages()[0].edges, vec![edge("C", vec![DependencyKind::Build])]);
    assert_eq!(kept.packages()[1].edges, vec![edge("D", vec![DependencyKind::Normal])]);
}

#[test]
fn nothing_observed_keeps_nothing() {
    let kept = BloatData::new().filter_cargo_metadata(chain());
    assert_eq!(kept.packages().len(), 0);
}

#[test]
fn hyphens_are_normalised_before_lookup() {
    assert_eq!(normalize("serde-json-core"), "serde_json_core");
    assert_eq!(normalize("plain"), "plain");
    assert_eq!(normalize("-"), "_");
    let graph = DependencyGraph::new(vec![
        package("X", "my-crate", vec![]),
        package("Y", "other", vec![]),
    ])
    .unwrap();
    let kept = observed(&["my_crate"]).filter_cargo_metadata(graph);
    assert_eq!(ids(&kept), vec!["X"]);
}

#[test]
fn reported_names_are_normalised() {
    let report = BloatOutput {
        crates: vec![
            BloatCrate { crate_name: "foo-bar".to_string() },
            BloatCrate { crate_name: "a-b-c".to_string() },
            BloatCrate { crate_name: "plain_name".to_string() },
        ],
    };
    let data = report.data();
    assert!(data.contains(&"foo_bar".to_string()));
    assert!(!data.contains(&"foo-bar".to_string()));
    assert!(data.contains(&"a_b_c".to_string()));
    assert!(!data.contains(&"a-b-c".to_string()));
    assert!(!data.contains(&"a_b-c".to_string()));
    assert!(data.contains(&"plain_name".to_string()));
}

#[test]
fn inserted_names_are_normalised() {
    let mut data = BloatData::new();
    data.insert("foo-bar".to_string());
    data.insert("baz".to_string());
    assert!(data.contains(&"foo_bar".to_string()));
    assert!(!data.contains(&"foo-bar".to_string()));
    assert!(data.contains(&"baz".to_string()));
    data.insert("foo_bar".to_string());
    assert!(data.contains(&"foo_bar".to_string()));
    assert!(!data.contains(&"foo-bar".to_string()));
}

#[test]
fn package_reported_with_a_hyphen_is_a_seed() {
    let report = BloatOutput { crates: vec![BloatCrate { crate_name: "foo-bar".to_string() }] };
    let graph = DependencyGraph::new(vec![package("F", "foo-bar", vec![])]).unwrap();
    let kept = report.data().filter_cargo_metadata(graph);
    assert_eq!(ids(&kept), vec!["F"]);
}

#[test]
fn observing_every_name_as_the_graph_spells_it_keeps_the_graph() {
    let graph = || {
        DependencyGraph::new(vec![
            package("X", "my-crate", vec![edge("Y", vec![DependencyKind::Normal])]),
            package("Y", "other_crate", vec![]),
        ])
        .unwrap()
    };
    let kept = observed(&["my-crate", "other_crate"]).filter_cargo_metadata(graph());
    assert_eq!(kept, graph());
}

#[test]
fn report_becomes_set_of_names() {
    let report = BloatOutput {
        crates: vec![
            BloatCrate { crate_name: "std".to_string() },
            BloatCrate { crate_name: "core".to_string() },
            BloatCrate { crate_name: "std".to_string() },
        ],
    };
    let data = report.data();
    assert!(data.contains(&"std".to_string()));
    assert!(data.contains(&"core".to_string()));
    assert!(!data.contains(&"alloc".to_string()));
}

#[test]
fn duplicate_identifier_is_rejected() {
    let made = DependencyGraph::new(vec![package("A", "a", vec![]), package("A", "b", vec![])]);
    assert_eq!(made, Err(DataInconsistency::DuplicatePackageId));
}

#[test]
fn unknown_edge_target_is_rejected() {
    let made = DependencyGraph::new(vec![package(
        "A",
        "a",
        vec![edge("missing", vec![DependencyKind::Normal])],
    )]);
    assert_eq!(made, Err(DataInconsistency::UnknownPackageId));
}

fn cyclic() -> DependencyGraph {
    DependencyGraph::new(vec![
        package("app", "app", vec![
            edge("gen", vec![DependencyKind::Normal, DependencyKind::Build]),
            edge("rt", vec![DependencyKind::Normal]),
        ]),
        package("rt", "rt", vec![edge("util", vec![DependencyKind::Normal])]),
        package("gen", "gen", vec![
            edge("tool", vec![DependencyKind::Dev]),
            edge("util", vec![DependencyKind::Normal]),
        ]),
        package("tool", "tool", vec![edge("gen", vec![DependencyKind::Dev])]),
        package("util", "util", vec![]),
        package("stray", "stray", vec![edge("util", vec![DependencyKind::Build])]),
    ])
    .unwrap()
}

#[test]
fn cycles_end_the_closure() {
    let kept = observed(&["app"]).filter_cargo_metadata(cyclic());
    assert_eq!(ids(&kept), vec!["app", "gen", "tool", "util"]);
}

#[test]
fn edges_to_dropped_packages_are_dropped() {
    let kept = observed(&["app"]).filter_cargo_metadata(cyclic());
    assert_eq!(
        kept.packages()[0].edges,
        vec![edge("gen", vec![DependencyKind::Normal, DependencyKind::Build])]
    );
    for package in kept.packages() {
        for e in &package.edges {
            assert!(ids(&kept).contains(&e.target));
        }
    }
}

#[test]
fn kept_packages_keep_the_order_of_the_graph() {
    let kept = observed(&["util", "app", "rt"]).filter_cargo_metadata(cyclic());
    assert_eq!(ids(&kept), vec!["app", "rt", "gen", "tool", "util"]);
}

#[test]
fn every_seed_is_kept() {
    let kept = observed(&["stray", "rt"]).filter_cargo_metadata(cyclic());
    assert!(ids(&kept).contains(&"stray".to_string()));
    assert!(ids(&kept).contains(&"rt".to_string()));
    assert_eq!(ids(&kept), vec!["rt", "util", "stray"]);
}

#[test]
fn filtering_twice_changes_nothing() {
    let data = observed(&["app"]);
    let once = data.filter_cargo_metadata(cyclic());
    let twice = data.filter_cargo_metadata(once.clone());
    assert_eq!(once, twice);
}

#[test]
fn observing_everything_keeps_the_graph() {
    let data = observed(&["app", "rt", "gen", "tool", "util", "stray"]);
    let kept = data.filter_cargo_metadata(cyclic());
    assert_eq!(kept, cyclic());
}

#[test]
fn filtered_graph_is_a_graph_again() {
    let kept = observed(&["app"]).filter_cargo_metadata(cyclic());
    let rebuilt = DependencyGraph::new(kept.packages().clone());
    assert_eq!(rebuilt, Ok(kept));
}

#[test]
fn copies_equal_what_they_were_made_of() {
    let graph = cyclic();
    assert_eq!(graph.clone(), graph);
    let first = &graph.packages()[0];
    assert_eq!(&first.clone(), first);
    assert_eq!(first.edges[0].clone(), first.edges[0]);
    assert!(first.edges[0].is_build());
    assert!(!first.edges[1].is_build());
}

#[test]
fn duplicate_is_reported_before_unknown_target() {
    let made = DependencyGraph::new(vec![
        package("A", "a", vec![edge("missing", vec![DependencyKind::Normal])]),
        package("A", "b", vec![]),
    ]);
    assert_eq!(made, Err(DataInconsistency::DuplicatePackageId));
}

#[test]
fn empty_graph_is_a_graph() {
    let graph = DependencyGraph::new(vec![]).unwrap();
    assert_eq!(graph.packages().len(), 0);
    let kept = observed(&["a"]).filter_cargo_metadata(graph);
    assert_eq!(kept.packages().len(), 0);
}

#[test]
fn self_edge_is_accepted_and_kept() {
    let graph = DependencyGraph::new(vec![package(
        "A",
        "a",
        vec![edge("A", vec![DependencyKind::Dev])],
    )])
    .unwrap();
    let kept = observed(&["a"]).filter_cargo_metadata(graph);
    assert_eq!(kept.packages()[0].edges, vec![edge("A", vec![DependencyKind::Dev])]);
}

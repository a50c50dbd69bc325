use arielosbom::bloat::BloatData;
use arielosbom::component::{Component, Dependency};
use arielosbom::graph::{DependencyEdge, DependencyGraph, DependencyKind, Package};
use arielosbom::lock::ChecksumTable;
use arielosbom::sbom::{assemble, BomFormat, SbomError, SBOM};
use chrono::{NaiveDate, NaiveDateTime};
use semver::Version;

fn moment() -> NaiveDateTime {
    NaiveDate::from_ymd_opt(2024, 2, 29).unwrap().and_hms_opt(13, 14, 15).unwrap()
}

fn node(id: &str, edges: Vec<DependencyEdge>) -> Package {
    Package {
        id: id.to_string(),
        name: id.to_lowercase(),
        version: Version::new(0, 1, 0),
        authors: vec![],
        license: None,
        repository: None,
        edges,
    }
}

fn link(target: &str, kind: DependencyKind) -> DependencyEdge {
    DependencyEdge { target: target.to_string(), kinds: vec![kind] }
}

fn a_builds_with_b() -> DependencyGraph {
    DependencyGraph::new(vec![
        node("A", vec![link("B", DependencyKind::Build)]),
        node("B", vec![]),
        node("C", vec![link("A", DependencyKind::Normal)]),
    ])
    .unwrap()
}

fn seen(names: &[&str]) -> BloatData {
    let mut data = BloatData::new();
    for name in names {
        data.insert(name.to_string());
    }
    data
}

fn component(id: &str) -> Component {
    Component::create_component_from_metadata(&node(id, vec![]), None, vec![])
}

fn before_the_epoch() -> NaiveDateTime {
    NaiveDate::from_ymd_opt(1969, 12, 31).unwrap().and_hms_opt(23, 59, 59).unwrap()
}

#[test]
fn new_sbom_is_empty_and_names_its_creator() {
    let sbom = SBOM::new(BomFormat::SPDX, moment());
    assert_eq!(sbom.bom_format, BomFormat::SPDX);
    assert_eq!(sbom.bom_metadata.creator, "ArielOSBOM");
    assert_eq!(sbom.bom_metadata.timestamp, moment());
    assert!(sbom.components.is_empty());
}

#[test]
fn any_timestamp_is_kept() {
    let sbom = SBOM::new(BomFormat::Raw, before_the_epoch());
    assert_eq!(sbom.bom_format, BomFormat::Raw);
    assert_eq!(sbom.bom_metadata.timestamp, before_the_epoch());
    assert!(sbom.components.is_empty());
}

#[test]
fn components_are_appended_in_order() {
    let mut sbom = SBOM::new(BomFormat::Raw, moment());
    sbom.add_components(vec![component("one"), component("two")]);
    sbom.add_components(vec![component("three")]);
    let ids: Vec<&str> = sbom.components.iter().map(|c| c.id.as_str()).collect();
    assert_eq!(ids, vec!["one", "two", "three"]);
    assert_eq!(sbom.bom_metadata.timestamp, moment());
}

#[test]
fn graph_becomes_components() {
    let mut sbom = SBOM::new(BomFormat::Raw, moment());
    sbom.convert_cargo_metadata_packages_to_components(&a_builds_with_b(), &ChecksumTable::new());
    assert_eq!(sbom.components.len(), 3);
    assert_eq!(sbom.components[0].id, "A");
    assert_eq!(
        sbom.components[0].dependencies,
        vec![Dependency { id: "B".to_string(), build: true }]
    );
    assert_eq!(
        sbom.components[2].dependencies,
        vec![Dependency { id: "A".to_string(), build: false }]
    );
}

#[test]
fn raw_document_holds_metadata_and_components() {
    let mut sbom = SBOM::new(BomFormat::Raw, moment());
    sbom.add_components(vec![component("one"), component("two")]);
    let document = sbom.serialize().unwrap();
    assert_eq!(document.bom_metadata, sbom.bom_metadata);
    assert_eq!(document.components, sbom.components);
}

#[test]
fn other_formats_are_refused() {
    let mut spdx = SBOM::new(BomFormat::SPDX, moment());
    spdx.add_components(vec![component("one")]);
    assert_eq!(spdx.serialize(), Err(SbomError::UnsupportedFormat(BomFormat::SPDX)));
    let cdx = SBOM::new(BomFormat::CDX, moment());
    assert_eq!(cdx.serialize(), Err(SbomError::UnsupportedFormat(BomFormat::CDX)));
}

#[test]
fn assembled_sbom_holds_the_filtered_graph() {
    let sbom =
        assemble(BomFormat::Raw, moment(), true, &seen(&["a"]), a_builds_with_b(), &ChecksumTable::new());
    let ids: Vec<&str> = sbom.components.iter().map(|c| c.id.as_str()).collect();
    assert_eq!(ids, vec!["A", "B"]);
    assert_eq!(
        sbom.components[0].dependencies,
        vec![Dependency { id: "B".to_string(), build: true }]
    );
    assert!(sbom.components[1].dependencies.is_empty());
    assert_eq!(sbom.bom_metadata.creator, "ArielOSBOM");
    assert_eq!(sbom.bom_metadata.timestamp, moment());
    assert_eq!(sbom.bom_format, BomFormat::Raw);
}

#[test]
fn switched_off_filter_keeps_the_whole_graph() {
    let sbom =
        assemble(BomFormat::Raw, moment(), false, &seen(&["a"]), a_builds_with_b(), &ChecksumTable::new());
    let ids: Vec<&str> = sbom.components.iter().map(|c| c.id.as_str()).collect();
    assert_eq!(ids, vec!["A", "B", "C"]);
}

#[test]
fn nothing_observed_gives_no_components() {
    let sbom = assemble(BomFormat::Raw, moment(), true, &seen(&[]), a_builds_with_b(), &ChecksumTable::new());
    assert!(sbom.components.is_empty());
    assert!(sbom.serialize().unwrap().components.is_empty());
}

#[test]
fn no_component_depends_on_a_dropped_package() {
    let graph = DependencyGraph::new(vec![
        node("A", vec![link("B", DependencyKind::Build), link("C", DependencyKind::Normal)]),
        node("B", vec![link("D", DependencyKind::Dev)]),
        node("C", vec![link("D", DependencyKind::Normal)]),
        node("D", vec![link("C", DependencyKind::Normal)]),
        node("E", vec![link("A", DependencyKind::Build)]),
    ])
    .unwrap();
    let sbom = assemble(BomFormat::Raw, moment(), true, &seen(&["a"]), graph, &ChecksumTable::new());
    let ids: Vec<&str> = sbom.components.iter().map(|c| c.id.as_str()).collect();
    assert_eq!(ids, vec!["A", "B", "C", "D"]);
    for component in &sbom.components {
        for dependency in &component.dependencies {
            assert!(ids.contains(&dependency.id.as_str()));
        }
    }
    assert_eq!(
        sbom.components[0].dependencies,
        vec![
            Dependency { id: "B".to_string(), build: true },
            Dependency { id: "C".to_string(), build: false },
        ]
    );
}

#[test]
fn dependency_on_a_dropped_package_is_dropped() {
    let graph = DependencyGraph::new(vec![
        node("A", vec![link("B", DependencyKind::Normal), link("C", DependencyKind::Build)]),
        node("B", vec![]),
        node("C", vec![]),
    ])
    .unwrap();
    let sbom = assemble(BomFormat::Raw, moment(), true, &seen(&["a"]), graph, &ChecksumTable::new());
    let ids: Vec<&str> = sbom.components.iter().map(|c| c.id.as_str()).collect();
    assert_eq!(ids, vec!["A", "C"]);
    assert_eq!(
        sbom.components[0].dependencies,
        vec![Dependency { id: "C".to_string(), build: true }]
    );
}

#[test]
fn assembled_sbom_of_another_format_is_refused_when_written() {
    let sbom = assemble(
        BomFormat::SPDX,
        moment(),
        true,
        &seen(&["a"]),
        a_builds_with_b(),
        &ChecksumTable::new(),
    );
    assert_eq!(sbom.bom_format, BomFormat::SPDX);
    assert_eq!(sbom.components.len(), 2);
    assert_eq!(sbom.serialize(), Err(SbomError::UnsupportedFormat(BomFormat::SPDX)));
}

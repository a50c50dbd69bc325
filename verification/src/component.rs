//! The components of the bill of materials: one for each package of the
//! graph that is handed in.

use vstd::prelude::*;
use cargo_lock::Checksum;
use semver::Version;
use crate::graph::{
    clone_optional_text, clone_texts, edges_model, has_id, optional_text, packages_model, texts,
    well_formed, DependencyEdge, DependencyGraph, EdgeModel, Package, PackageModel,
};
use crate::lock::{checksum_text, checksum_to_string, ChecksumKey, ChecksumTable};
use crate::version::version_text;

verus! {

/// What a component depends on, and whether it does so for its build.
#[derive(Debug, PartialEq, Eq)]
pub struct Dependency {
    pub id: String,
    pub build: bool,
}

/// Where the data of a component came from.
#[derive(Clone, Copy, Debug, PartialEq, Eq, Structural)]
pub enum ComponentSource {
    CargoMetadata,
    CargoBloat,
    Other,
}

/// One entry of the bill of materials.
#[derive(Debug, PartialEq, Eq)]
pub struct Component {
    pub name: String,
    pub source: ComponentSource,
    pub id: String,
    pub version: Version,
    pub creators: Vec<String>,
    pub filename: Option<String>,
    pub licenses: Option<String>,
    pub identifiers: Vec<String>,
    pub executable_property: Option<bool>,
    pub archive_property: Option<bool>,
    pub structured_property: Option<bool>,
    pub uri_source_code: Option<String>,
    pub hash_source_code: Option<String>,
    pub uri_deployable_form: Option<String>,
    pub url_security_text: Option<String>,
    pub dependencies: Vec<Dependency>,
}

/// What a dependency is, as a mathematical value.
pub struct DependencyModel {
    pub id: Seq<char>,
    pub build: bool,
}

/// What a component is, as a mathematical value.
pub struct ComponentModel {
    pub name: Seq<char>,
    pub source: ComponentSource,
    pub id: Seq<char>,
    pub version: Version,
    pub creators: Seq<Seq<char>>,
    pub filename: Option<Seq<char>>,
    pub licenses: Option<Seq<char>>,
    pub identifiers: Seq<Seq<char>>,
    pub executable_property: Option<bool>,
    pub archive_property: Option<bool>,
    pub structured_property: Option<bool>,
    pub uri_source_code: Option<Seq<char>>,
    pub hash_source_code: Option<Seq<char>>,
    pub uri_deployable_form: Option<Seq<char>>,
    pub url_security_text: Option<Seq<char>>,
    pub dependencies: Seq<DependencyModel>,
}

/// The dependencies as mathematical values, in their order.
pub open spec fn dependencies_model(dependencies: Seq<Dependency>) -> Seq<DependencyModel> {
    dependencies.map_values(|d: Dependency| d@)
}

/// The components as mathematical values, in their order.
pub open spec fn components_model(components: Seq<Component>) -> Seq<ComponentModel> {
    components.map_values(|c: Component| c@)
}

impl View for Dependency {
    type V = DependencyModel;

    open spec fn view(&self) -> DependencyModel {
        DependencyModel { id: self.id@, build: self.build }
    }
}

impl View for Component {
    type V = ComponentModel;

    open spec fn view(&self) -> ComponentModel {
        ComponentModel {
            name: self.name@,
            source: self.source,
            id: self.id@,
            version: self.version,
            creators: texts(self.creators@),
            filename: optional_text(self.filename),
            licenses: optional_text(self.licenses),
            identifiers: texts(self.identifiers@),
            executable_property: self.executable_property,
            archive_property: self.archive_property,
            structured_property: self.structured_property,
            uri_source_code: optional_text(self.uri_source_code),
            hash_source_code: optional_text(self.hash_source_code),
            uri_deployable_form: optional_text(self.uri_deployable_form),
            url_security_text: optional_text(self.url_security_text),
            dependencies: dependencies_model(self.dependencies@),
        }
    }
}

/// The dependency that an edge becomes: it is a build dependency as soon as
/// `Build` is among the edge's kinds, whatever else is.
pub open spec fn dependency_from(edge: EdgeModel) -> DependencyModel {
    DependencyModel { id: edge.target, build: edge.is_build() }
}

/// One dependency for each edge, in the edges' order.
pub open spec fn dependencies_from(edges: Seq<EdgeModel>) -> Seq<DependencyModel> {
    edges.map_values(|e: EdgeModel| dependency_from(e))
}

/// The component that is made of a package, the checksum found for it and
/// its dependencies. What the package does not say stays empty.
pub open spec fn component_from(
    package: PackageModel,
    checksum: Option<Checksum>,
    dependencies: Seq<DependencyModel>,
) -> ComponentModel {
    ComponentModel {
        name: package.name,
        source: ComponentSource::CargoMetadata,
        id: package.id,
        version: package.version,
        creators: package.authors,
        filename: None,
        licenses: package.license,
        identifiers: match checksum {
            Some(checksum) => seq![checksum_text(checksum)],
            None => seq![],
        },
        executable_property: None,
        archive_property: None,
        structured_property: None,
        uri_source_code: package.repository,
        hash_source_code: None,
        uri_deployable_form: None,
        url_security_text: None,
        dependencies,
    }
}

/// The checksum that the table holds for a package.
pub open spec fn checksum_of(package: PackageModel, checksums: Map<ChecksumKey, Checksum>) -> Option<
    Checksum,
> {
    let key = (package.name, version_text(package.version));
    if checksums.contains_key(key) {
        Some(checksums[key])
    } else {
        None
    }
}

/// The component of a package of the graph.
pub open spec fn component_of(
    package: PackageModel,
    checksums: Map<ChecksumKey, Checksum>,
) -> ComponentModel {
    component_from(package, checksum_of(package, checksums), dependencies_from(package.edges))
}

/// The components of a graph: one for each package, in the graph's order.
pub open spec fn components_of(
    packages: Seq<PackageModel>,
    checksums: Map<ChecksumKey, Checksum>,
) -> Seq<ComponentModel> {
    packages.map_values(|p: PackageModel| component_of(p, checksums))
}

/// Every dependency names a component of the same list.
pub open spec fn no_dangling_dependencies(components: Seq<ComponentModel>) -> bool {
    forall|c: int, d: int|
        0 <= c < components.len() && 0 <= d < components[c].dependencies.len() ==> exists|t: int|
            0 <= t < components.len() && (#[trigger] components[t]).id == (
            #[trigger] components[c].dependencies[d]).id
}

/// The components of a graph are as many as its packages, and none of them
/// depends on a component that is not among them.
pub proof fn lemma_components_of_graph(
    packages: Seq<PackageModel>,
    checksums: Map<ChecksumKey, Checksum>,
)
    requires
        well_formed(packages),
    ensures
        components_of(packages, checksums).len() == packages.len(),
        no_dangling_dependencies(components_of(packages, checksums)),
{
    let components = components_of(packages, checksums);
    assert forall|c: int, d: int|
        0 <= c < components.len() && 0 <= d < components[c].dependencies.len() implies exists|
        t: int,
    |
        0 <= t < components.len() && (#[trigger] components[t]).id == (
        #[trigger] components[c].dependencies[d]).id by {
        let target = packages[c].edges[d].target;
        assert(has_id(packages, target));
        let t = choose|t: int| 0 <= t < packages.len() && (#[trigger] packages[t]).id == target;
        assert(components[t].id == components[c].dependencies[d].id);
    }
}

impl Clone for Dependency {
    fn clone(&self) -> (copy: Self)
        ensures
            copy@ == self@,
    {
        Dependency { id: self.id.clone(), build: self.build }
    }
}

/// A copy of the dependencies.
pub(crate) fn clone_dependencies(dependencies: &Vec<Dependency>) -> (copy: Vec<Dependency>)
    ensures
        dependencies_model(copy@) == dependencies_model(dependencies@),
{
    let mut copy: Vec<Dependency> = Vec::new();
    let mut i: usize = 0;
    while i < dependencies.len()
        invariant
            0 <= i <= dependencies.len(),
            copy.len() == i,
            forall|j: int| 0 <= j < i ==> copy@[j]@ == dependencies@[j]@,
        decreases dependencies.len() - i,
    {
        copy.push(dependencies[i].clone());
        i += 1;
    }
    proof {
        assert(dependencies_model(copy@) =~= dependencies_model(dependencies@));
    }
    copy
}

impl Clone for Component {
    fn clone(&self) -> (copy: Self)
        ensures
            copy@ == self@,
    {
        Component {
            name: self.name.clone(),
            source: self.source,
            id: self.id.clone(),
            version: self.version.clone(),
            creators: clone_texts(&self.creators),
            filename: clone_optional_text(&self.filename),
            licenses: clone_optional_text(&self.licenses),
            identifiers: clone_texts(&self.identifiers),
            executable_property: self.executable_property,
            archive_property: self.archive_property,
            structured_property: self.structured_property,
            uri_source_code: clone_optional_text(&self.uri_source_code),
            hash_source_code: clone_optional_text(&self.hash_source_code),
            uri_deployable_form: clone_optional_text(&self.uri_deployable_form),
            url_security_text: clone_optional_text(&self.url_security_text),
            dependencies: clone_dependencies(&self.dependencies),
        }
    }
}

/// The checksum that was handed in, if one was.
pub open spec fn optional_checksum(hash: Option<&Checksum>) -> Option<Checksum> {
    match hash {
        Some(checksum) => Some(*checksum),
        None => None,
    }
}

impl Component {
    /// The component of a package: identity, version, authors, licence and
    /// repository are the package's; the checksum, where there is one, is
    /// its only identifier.
    pub fn create_component_from_metadata(
        package: &Package,
        hash: Option<&Checksum>,
        dependencies: Vec<Dependency>,
    ) -> (component: Component)
        ensures
            component@ == component_from(
                package@,
                optional_checksum(hash),
                dependencies_model(dependencies@),
            ),
    {
        let identifiers = match hash {
            Some(checksum) => vec![checksum_to_string(checksum)],
            None => Vec::new(),
        };
        let component = Component {
            source: ComponentSource::CargoMetadata,
            id: package.id.clone(),
            name: package.name.clone(),
            version: package.version.clone(),
            creators: clone_texts(&package.authors),
            filename: None,
            licenses: clone_optional_text(&package.license),
            identifiers,
            executable_property: None,
            archive_property: None,
            structured_property: None,
            uri_source_code: clone_optional_text(&package.repository),
            hash_source_code: None,
            uri_deployable_form: None,
            url_security_text: None,
            dependencies,
        };
        proof {
            assert(component@.identifiers =~= component_from(
                package@,
                optional_checksum(hash),
                dependencies_model(dependencies@),
            ).identifiers);
        }
        component
    }
}

/// One dependency for each edge, in the edges' order.
pub fn dependencies_of_edges(edges: &Vec<DependencyEdge>) -> (dependencies: Vec<Dependency>)
    ensures
        dependencies_model(dependencies@) == dependencies_from(edges_model(edges@)),
{
    let mut dependencies: Vec<Dependency> = Vec::new();
    let mut k: usize = 0;
    while k < edges.len()
        invariant
            0 <= k <= edges.len(),
            dependencies.len() == k,
            forall|j: int| 0 <= j < k ==> dependencies@[j]@ == dependency_from(edges@[j]@),
        decreases edges.len() - k,
    {
        dependencies.push(Dependency { id: edges[k].target.clone(), build: edges[k].is_build() });
        k += 1;
    }
    proof {
        assert(dependencies_model(dependencies@) =~= dependencies_from(
            edges_model(edges@),
        ));
    }
    dependencies
}

/// One component for each package of the graph, in the graph's order, with
/// the checksum that the table holds for the package's name and version.
pub fn build_components(graph: &DependencyGraph, checksums: &ChecksumTable) -> (components: Vec<
    Component,
>)
    ensures
        components_model(components@) == components_of(graph@, checksums@),
        components.len() == graph@.len(),
        no_dangling_dependencies(components_model(components@)),
{
    let packages = graph.packages();
    let ghost model = packages_model(packages@);
    let mut components: Vec<Component> = Vec::new();
    let mut i: usize = 0;
    while i < packages.len()
        invariant
            0 <= i <= packages.len(),
            model == packages_model(packages@),
            components.len() == i,
            forall|j: int| 0 <= j < i ==> components@[j]@ == component_of(model[j], checksums@),
        decreases packages.len() - i,
    {
        let package = &packages[i];
        let hash = checksums.get(&package.name, &package.version);
        let dependencies = dependencies_of_edges(&package.edges);
        components.push(Component::create_component_from_metadata(package, hash, dependencies));
        i += 1;
    }
    proof {
        assert(components_model(components@) =~= components_of(model, checksums@));
        lemma_components_of_graph(model, checksums@);
    }
    components
}

} // verus!

//! The dependency graph: packages, their typed edges, and the checks that
//! make a list of packages a graph.

use vstd::prelude::*;
use vstd::hash_map::StringHashMap;
use semver::Version;

verus! {

/// The capacity in which one package depends on another.
#[derive(Clone, Copy, Debug, PartialEq, Eq, Hash, Structural)]
pub enum DependencyKind {
    Normal,
    Build,
    Dev,
}

/// One outgoing edge of a package. An edge may carry several kinds at once.
#[derive(Debug, PartialEq, Eq)]
pub struct DependencyEdge {
    pub target: String,
    pub kinds: Vec<DependencyKind>,
}

/// A node of the graph.
#[derive(Debug, PartialEq, Eq)]
pub struct Package {
    pub id: String,
    pub name: String,
    pub version: Version,
    pub authors: Vec<String>,
    pub license: Option<String>,
    pub repository: Option<String>,
    pub edges: Vec<DependencyEdge>,
}

/// Why a list of packages is not a graph.
#[derive(Clone, Copy, Debug, PartialEq, Eq, Structural)]
pub enum DataInconsistency {
    /// Two packages share one identifier.
    DuplicatePackageId,
    /// An edge points at an identifier that no package has.
    UnknownPackageId,
}

/// What an edge is, as a mathematical value.
pub struct EdgeModel {
    pub target: Seq<char>,
    pub kinds: Seq<DependencyKind>,
}

/// What a package is, as a mathematical value.
pub struct PackageModel {
    pub id: Seq<char>,
    pub name: Seq<char>,
    pub version: Version,
    pub authors: Seq<Seq<char>>,
    pub license: Option<Seq<char>>,
    pub repository: Option<Seq<char>>,
    pub edges: Seq<EdgeModel>,
}

impl EdgeModel {
    /// An edge counts as a build edge as soon as `Build` is among its kinds.
    pub open spec fn is_build(self) -> bool {
        self.kinds.contains(DependencyKind::Build)
    }
}

/// The strings as sequences of characters.
pub open spec fn texts(strings: Seq<String>) -> Seq<Seq<char>> {
    strings.map_values(|s: String| s@)
}

/// The string, where there is one, as a sequence of characters.
pub open spec fn optional_text(string: Option<String>) -> Option<Seq<char>> {
    match string {
        Some(s) => Some(s@),
        None => None,
    }
}

/// The edges as mathematical values, in their order.
pub open spec fn edges_model(edges: Seq<DependencyEdge>) -> Seq<EdgeModel> {
    edges.map_values(|e: DependencyEdge| e@)
}

/// The packages as mathematical values, in their order.
pub open spec fn packages_model(packages: Seq<Package>) -> Seq<PackageModel> {
    packages.map_values(|p: Package| p@)
}

impl View for DependencyEdge {
    type V = EdgeModel;

    open spec fn view(&self) -> EdgeModel {
        EdgeModel { target: self.target@, kinds: self.kinds@ }
    }
}

impl View for Package {
    type V = PackageModel;

    open spec fn view(&self) -> PackageModel {
        PackageModel {
            id: self.id@,
            name: self.name@,
            version: self.version,
            authors: texts(self.authors@),
            license: optional_text(self.license),
            repository: optional_text(self.repository),
            edges: edges_model(self.edges@),
        }
    }
}

/// A copy of the strings.
pub(crate) fn clone_texts(strings: &Vec<String>) -> (copy: Vec<String>)
    ensures
        copy@ == strings@,
{
    let mut copy: Vec<String> = Vec::new();
    let mut i: usize = 0;
    while i < strings.len()
        invariant
            0 <= i <= strings.len(),
            copy@ == strings@.take(i as int),
        decreases strings.len() - i,
    {
        copy.push(strings[i].clone());
        proof {
            assert(copy@ =~= strings@.take(i + 1));
        }
        i += 1;
    }
    proof {
        assert(strings@.take(strings.len() as int) =~= strings@);
    }
    copy
}

/// A copy of the string, where there is one.
pub(crate) fn clone_optional_text(string: &Option<String>) -> (copy: Option<String>)
    ensures
        copy == *string,
{
    match string {
        Some(s) => Some(s.clone()),
        None => None,
    }
}

impl Clone for DependencyEdge {
    fn clone(&self) -> (copy: Self)
        ensures
            copy@ == self@,
    {
        let mut kinds: Vec<DependencyKind> = Vec::new();
        let mut k: usize = 0;
        while k < self.kinds.len()
            invariant
                0 <= k <= self.kinds.len(),
                kinds@ == self.kinds@.take(k as int),
            decreases self.kinds.len() - k,
        {
            kinds.push(self.kinds[k]);
            proof {
                assert(kinds@ =~= self.kinds@.take(k + 1));
            }
            k += 1;
        }
        proof {
            assert(self.kinds@.take(self.kinds.len() as int) =~= self.kinds@);
        }
        DependencyEdge { target: self.target.clone(), kinds }
    }
}

impl DependencyEdge {
    /// Whether `Build` is among the edge's kinds.
    pub fn is_build(&self) -> (build: bool)
        ensures
            build == self@.is_build(),
    {
        let mut k: usize = 0;
        while k < self.kinds.len()
            invariant
                0 <= k <= self.kinds.len(),
                forall|b: int| 0 <= b < k ==> self.kinds@[b] != DependencyKind::Build,
            decreases self.kinds.len() - k,
        {
            if self.kinds[k] == DependencyKind::Build {
                return true;
            }
            k += 1;
        }
        false
    }
}

/// A copy of the edges.
pub(crate) fn clone_edges(edges: &Vec<DependencyEdge>) -> (copy: Vec<DependencyEdge>)
    ensures
        edges_model(copy@) == edges_model(edges@),
{
    let mut copy: Vec<DependencyEdge> = Vec::new();
    let mut k: usize = 0;
    while k < edges.len()
        invariant
            0 <= k <= edges.len(),
            copy.len() == k,
            forall|j: int| 0 <= j < k ==> copy@[j]@ == edges@[j]@,
        decreases edges.len() - k,
    {
        copy.push(edges[k].clone());
        k += 1;
    }
    proof {
        assert(edges_model(copy@) =~= edges_model(edges@));
    }
    copy
}

impl Package {
    /// A copy of the package that has `edges` for its edges.
    pub(crate) fn with_edges(&self, edges: Vec<DependencyEdge>) -> (copy: Package)
        ensures
            copy@ == (PackageModel { edges: edges_model(edges@), ..self@ }),
    {
        Package {
            id: self.id.clone(),
            name: self.name.clone(),
            version: self.version.clone(),
            authors: clone_texts(&self.authors),
            license: clone_optional_text(&self.license),
            repository: clone_optional_text(&self.repository),
            edges,
        }
    }
}

impl Clone for Package {
    fn clone(&self) -> (copy: Self)
        ensures
            copy@ == self@,
    {
        self.with_edges(clone_edges(&self.edges))
    }
}

/// A copy of the packages.
pub(crate) fn clone_packages(packages: &Vec<Package>) -> (copy: Vec<Package>)
    ensures
        packages_model(copy@) == packages_model(packages@),
{
    let mut copy: Vec<Package> = Vec::new();
    let mut i: usize = 0;
    while i < packages.len()
        invariant
            0 <= i <= packages.len(),
            copy.len() == i,
            forall|j: int| 0 <= j < i ==> copy@[j]@ == packages@[j]@,
        decreases packages.len() - i,
    {
        copy.push(packages[i].clone());
        i += 1;
    }
    proof {
        assert(packages_model(copy@) =~= packages_model(packages@));
    }
    copy
}

/// Some package of `packages` has the identifier `id`.
pub open spec fn has_id(packages: Seq<PackageModel>, id: Seq<char>) -> bool {
    exists|i: int| 0 <= i < packages.len() && (#[trigger] packages[i]).id == id
}

/// No two packages share an identifier.
pub open spec fn unique_ids(packages: Seq<PackageModel>) -> bool {
    forall|i: int, j: int|
        0 <= i < j < packages.len() ==> (#[trigger] packages[i]).id != (#[trigger] packages[j]).id
}

/// Every edge points at a package of the same list.
pub open spec fn no_dangling_edges(packages: Seq<PackageModel>) -> bool {
    forall|i: int, k: int|
        0 <= i < packages.len() && 0 <= k < packages[i].edges.len() ==> has_id(
            packages,
            (#[trigger] packages[i].edges[k]).target,
        )
}

/// What makes a list of packages a dependency graph.
pub open spec fn well_formed(packages: Seq<PackageModel>) -> bool {
    unique_ids(packages) && no_dangling_edges(packages)
}

/// `index` sends the identifier of each of the first `n` packages to its
/// position, and knows no other identifier.
pub open spec fn indexes_prefix(
    index: Map<Seq<char>, usize>,
    packages: Seq<PackageModel>,
    n: int,
) -> bool {
    &&& forall|i: int|
        0 <= i < n ==> index.contains_key((#[trigger] packages[i]).id) && index[packages[i].id]
            == i
    &&& forall|id: Seq<char>| #[trigger]
        index.contains_key(id) ==> 0 <= index[id] < n && packages[index[id] as int].id == id
}

/// Builds the lookup from identifier to position, or reports that two
/// packages share an identifier.
pub(crate) fn index_packages(packages: &Vec<Package>) -> (found: Option<StringHashMap<usize>>)
    ensures
        match found {
            Some(index) => unique_ids(packages_model(packages@)) && indexes_prefix(
                index@,
                packages_model(packages@),
                packages.len() as int,
            ),
            None => !unique_ids(packages_model(packages@)),
        },
{
    let ghost model = packages_model(packages@);
    let mut index: StringHashMap<usize> = StringHashMap::new();
    let mut i: usize = 0;
    while i < packages.len()
        invariant
            0 <= i <= packages.len(),
            model == packages_model(packages@),
            indexes_prefix(index@, model, i as int),
            forall|a: int, b: int|
                0 <= a < b < i ==> (#[trigger] model[a]).id != (#[trigger] model[b]).id,
        decreases packages.len() - i,
    {
        let id = &packages[i].id;
        if index.contains_key(id.as_str()) {
            proof {
                let earlier = index@[id@] as int;
                assert(model[earlier].id == model[i as int].id);
            }
            return None;
        }
        index.insert(id.clone(), i);
        proof {
            assert(model[i as int].id == id@);
        }
        i += 1;
    }
    Some(index)
}

/// A list of packages whose identifiers are pairwise distinct and whose edges
/// all point at packages of the list.
#[derive(Debug, PartialEq, Eq)]
pub struct DependencyGraph {
    packages: Vec<Package>,
}

impl View for DependencyGraph {
    type V = Seq<PackageModel>;

    closed spec fn view(&self) -> Seq<PackageModel> {
        packages_model(self.packages@)
    }
}

impl Clone for DependencyGraph {
    fn clone(&self) -> (copy: Self)
        ensures
            copy@ == self@,
    {
        proof {
            use_type_invariant(self);
        }
        DependencyGraph { packages: clone_packages(&self.packages) }
    }
}

impl DependencyGraph {
    #[verifier::type_invariant]
    pub open spec fn wf(self) -> bool {
        well_formed(self@)
    }

    /// Checks the packages and makes a graph of them. Fails when two packages
    /// share an identifier, and otherwise when some edge points at an
    /// identifier that no package has.
    pub fn new(packages: Vec<Package>) -> (made: Result<DependencyGraph, DataInconsistency>)
        ensures
            match made {
                Ok(graph) => graph@ == packages_model(packages@) && well_formed(graph@),
                Err(DataInconsistency::DuplicatePackageId) => !unique_ids(
                    packages_model(packages@),
                ),
                Err(DataInconsistency::UnknownPackageId) => unique_ids(packages_model(packages@))
                    && !no_dangling_edges(packages_model(packages@)),
            },
    {
        let ghost model = packages_model(packages@);
        let index = match index_packages(&packages) {
            Some(index) => index,
            None => {
                return Err(DataInconsistency::DuplicatePackageId);
            },
        };
        let mut i: usize = 0;
        while i < packages.len()
            invariant
                0 <= i <= packages.len(),
                model == packages_model(packages@),
                indexes_prefix(index@, model, packages.len() as int),
                forall|a: int, k: int|
                    0 <= a < i && 0 <= k < model[a].edges.len() ==> has_id(
                        model,
                        (#[trigger] model[a].edges[k]).target,
                    ),
            decreases packages.len() - i,
        {
            let edges = &packages[i].edges;
            let mut k: usize = 0;
            while k < edges.len()
                invariant
                    0 <= i < packages.len(),
                    0 <= k <= edges.len(),
                    model == packages_model(packages@),
                    edges == &packages[i as int].edges,
                    indexes_prefix(index@, model, packages.len() as int),
                    forall|b: int|
                        0 <= b < k ==> has_id(model, (#[trigger] model[i as int].edges[b]).target),
                decreases edges.len() - k,
            {
                if !index.contains_key(edges[k].target.as_str()) {
                    proof {
                        let target = model[i as int].edges[k as int].target;
                        assert(target == edges[k as int].target@);
                        assert(!has_id(model, target));
                    }
                    return Err(DataInconsistency::UnknownPackageId);
                }
                proof {
                    let target = model[i as int].edges[k as int].target;
                    assert(target == edges[k as int].target@);
                    assert(model[index@[target] as int].id == target);
                }
                k += 1;
            }
            i += 1;
        }
        Ok(DependencyGraph { packages })
    }

    /// The packages, in the graph's order.
    pub fn packages(&self) -> (packages: &Vec<Package>)
        ensures
            packages_model(packages@) == self@,
            well_formed(self@),
    {
        proof {
            use_type_invariant(self);
        }
        &self.packages
    }

    /// Makes a graph of packages that are known to form one.
    pub(crate) fn from_checked(packages: Vec<Package>) -> (graph: DependencyGraph)
        requires
            well_formed(packages_model(packages@)),
        ensures
            graph@ == packages_model(packages@),
    {
        DependencyGraph { packages }
    }
}

} // verus!

//! Which packages a filtered graph keeps, stated over the graph's model.
//!
//! A package is a seed when its normalised name was observed in the binary.
//! The build frontier is what the seeds reach over one build edge; from there
//! every edge is followed, whatever its kind. The filtered graph keeps the
//! seeds and whatever is reached that way, in the order of the input, and
//! drops each edge whose target it does not keep.

use vstd::prelude::*;
use crate::graph::{EdgeModel, PackageModel};

verus! {

/// A package name as the binary's symbols spell it: every hyphen becomes an
/// underscore.
pub open spec fn normalized_name(name: Seq<char>) -> Seq<char> {
    name.map_values(
        |c: char|
            if c == '-' {
                '_'
            } else {
                c
            },
    )
}

/// The package was observed in the binary.
pub open spec fn is_seed(package: PackageModel, observed: Set<Seq<char>>) -> bool {
    observed.contains(normalized_name(package.name))
}

/// Some seed has a build edge to `id`.
pub open spec fn in_build_frontier(
    packages: Seq<PackageModel>,
    observed: Set<Seq<char>>,
    id: Seq<char>,
) -> bool {
    exists|i: int, k: int|
        0 <= i < packages.len() && 0 <= k < packages[i].edges.len() && is_seed(
            packages[i],
            observed,
        ) && packages[i].edges[k].is_build() && (#[trigger] packages[i].edges[k]).target == id
}

/// `id` is reached from the build frontier over exactly `hops` edges of any
/// kind.
pub open spec fn build_reached_in(
    packages: Seq<PackageModel>,
    observed: Set<Seq<char>>,
    hops: nat,
    id: Seq<char>,
) -> bool
    decreases hops,
{
    if hops == 0 {
        in_build_frontier(packages, observed, id)
    } else {
        exists|i: int, k: int|
            0 <= i < packages.len() && 0 <= k < packages[i].edges.len() && build_reached_in(
                packages,
                observed,
                (hops - 1) as nat,
                packages[i].id,
            ) && (#[trigger] packages[i].edges[k]).target == id
    }
}

/// `id` is needed to build something that was observed.
pub open spec fn build_reachable(
    packages: Seq<PackageModel>,
    observed: Set<Seq<char>>,
    id: Seq<char>,
) -> bool {
    exists|hops: nat| build_reached_in(packages, observed, hops, id)
}

/// The filtered graph keeps this package.
pub open spec fn keeps(
    packages: Seq<PackageModel>,
    observed: Set<Seq<char>>,
    package: PackageModel,
) -> bool {
    is_seed(package, observed) || build_reachable(packages, observed, package.id)
}

/// The filtered graph keeps a package with this identifier.
pub open spec fn keeps_id(
    packages: Seq<PackageModel>,
    observed: Set<Seq<char>>,
    id: Seq<char>,
) -> bool {
    exists|i: int|
        0 <= i < packages.len() && (#[trigger] packages[i]).id == id && keeps(
            packages,
            observed,
            packages[i],
        )
}

/// [`keeps`] as a predicate on packages.
pub open spec fn kept_package(packages: Seq<PackageModel>, observed: Set<Seq<char>>) -> spec_fn(
    PackageModel,
) -> bool {
    |package: PackageModel| keeps(packages, observed, package)
}

/// Whether an edge's target is kept, as a predicate on edges.
pub open spec fn kept_edge(packages: Seq<PackageModel>, observed: Set<Seq<char>>) -> spec_fn(
    EdgeModel,
) -> bool {
    |edge: EdgeModel| keeps_id(packages, observed, edge.target)
}

/// The package without the edges whose targets are not kept.
pub open spec fn pruned(
    packages: Seq<PackageModel>,
    observed: Set<Seq<char>>,
    package: PackageModel,
) -> PackageModel {
    PackageModel { edges: package.edges.filter(kept_edge(packages, observed)), ..package }
}

/// [`pruned`] as a function on packages.
pub open spec fn pruning(packages: Seq<PackageModel>, observed: Set<Seq<char>>) -> spec_fn(
    PackageModel,
) -> PackageModel {
    |package: PackageModel| pruned(packages, observed, package)
}

/// The filtered graph: the kept packages in their old order, each pruned.
pub open spec fn filtered(packages: Seq<PackageModel>, observed: Set<Seq<char>>) -> Seq<
    PackageModel,
> {
    packages.filter(kept_package(packages, observed)).map_values(pruning(packages, observed))
}

} // verus!

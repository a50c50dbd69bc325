//! What holds of every filtered graph.

use vstd::prelude::*;
use crate::graph::{has_id, no_dangling_edges, unique_ids, well_formed, PackageModel};
use crate::reach::{
    build_reachable, build_reached_in, filtered, in_build_frontier, is_seed, kept_edge,
    kept_package, keeps, keeps_id, pruned, pruning,
};

verus! {

/// `to` is reached from `from` over exactly `hops` edges of any kind.
pub open spec fn reached_in(
    packages: Seq<PackageModel>,
    from: Seq<char>,
    hops: nat,
    to: Seq<char>,
) -> bool
    decreases hops,
{
    if hops == 0 {
        from == to
    } else {
        exists|i: int, k: int|
            0 <= i < packages.len() && 0 <= k < packages[i].edges.len() && reached_in(
                packages,
                from,
                (hops - 1) as nat,
                packages[i].id,
            ) && (#[trigger] packages[i].edges[k]).target == to
    }
}

/// `to` is reached from `from` over edges of any kind.
pub open spec fn reaches(packages: Seq<PackageModel>, from: Seq<char>, to: Seq<char>) -> bool {
    exists|hops: nat| reached_in(packages, from, hops, to)
}

proof fn lemma_filter_keeps_all<A>(s: Seq<A>, wanted: spec_fn(A) -> bool)
    requires
        forall|i: int| 0 <= i < s.len() ==> wanted(#[trigger] s[i]),
    ensures
        s.filter(wanted) == s,
    decreases s.len(),
{
    reveal(Seq::filter);
    if s.len() > 0 {
        lemma_filter_keeps_all(s.drop_last(), wanted);
        assert(s.drop_last().push(s.last()) =~= s);
    }
}

proof fn lemma_filter_unique(s: Seq<PackageModel>, wanted: spec_fn(PackageModel) -> bool)
    requires
        unique_ids(s),
    ensures
        unique_ids(s.filter(wanted)),
    decreases s.len(),
{
    reveal(Seq::filter);
    if s.len() > 0 {
        let rest = s.drop_last();
        assert(unique_ids(rest)) by {
            assert forall|i: int, j: int| 0 <= i < j < rest.len() implies (#[trigger] rest[i]).id != (
            #[trigger] rest[j]).id by {
                assert(s[i].id != s[j].id);
            }
        }
        lemma_filter_unique(rest, wanted);
        let chosen = rest.filter(wanted);
        if wanted(s.last()) {
            let all = chosen.push(s.last());
            assert forall|a: int, b: int| 0 <= a < b < all.len() implies (#[trigger] all[a]).id != (
            #[trigger] all[b]).id by {
                if b == chosen.len() {
                    assert(chosen.contains(chosen[a]));
                    rest.lemma_filter_contains_rev(wanted, chosen[a]);
                    let i = choose|i: int| 0 <= i < rest.len() && rest[i] == chosen[a];
                    assert(s[i].id != s[s.len() - 1].id);
                } else {
                    assert(chosen[a].id != chosen[b].id);
                }
            }
        }
    }
}

/// Where a package of the filtered graph comes from.
proof fn lemma_origin(packages: Seq<PackageModel>, observed: Set<Seq<char>>, a: int) -> (i: int)
    requires
        0 <= a < filtered(packages, observed).len(),
    ensures
        0 <= i < packages.len(),
        keeps(packages, observed, packages[i]),
        filtered(packages, observed)[a] == pruned(packages, observed, packages[i]),
{
    let wanted = kept_package(packages, observed);
    let chosen = packages.filter(wanted);
    packages.lemma_filter_pred(wanted, a);
    assert(chosen.contains(chosen[a]));
    packages.lemma_filter_contains_rev(wanted, chosen[a]);
    choose|i: int| 0 <= i < packages.len() && packages[i] == chosen[a]
}

/// Where a kept package went.
proof fn lemma_position(packages: Seq<PackageModel>, observed: Set<Seq<char>>, i: int) -> (a: int)
    requires
        0 <= i < packages.len(),
        keeps(packages, observed, packages[i]),
    ensures
        0 <= a < filtered(packages, observed).len(),
        filtered(packages, observed)[a] == pruned(packages, observed, packages[i]),
{
    let wanted = kept_package(packages, observed);
    let chosen = packages.filter(wanted);
    packages.lemma_filter_contains(wanted, i);
    choose|a: int| 0 <= a < chosen.len() && chosen[a] == packages[i]
}

/// An edge of a pruned package is an edge of the package, and its target is
/// kept.
proof fn lemma_pruned_edge(
    packages: Seq<PackageModel>,
    observed: Set<Seq<char>>,
    package: PackageModel,
    k: int,
) -> (b: int)
    requires
        0 <= k < pruned(packages, observed, package).edges.len(),
    ensures
        0 <= b < package.edges.len(),
        package.edges[b] == pruned(packages, observed, package).edges[k],
        keeps_id(packages, observed, package.edges[b].target),
{
    let wanted = kept_edge(packages, observed);
    let chosen = package.edges.filter(wanted);
    package.edges.lemma_filter_pred(wanted, k);
    assert(chosen.contains(chosen[k]));
    package.edges.lemma_filter_contains_rev(wanted, chosen[k]);
    choose|b: int| 0 <= b < package.edges.len() && package.edges[b] == chosen[k]
}

/// An edge to a kept target survives the pruning.
proof fn lemma_edge_survives(
    packages: Seq<PackageModel>,
    observed: Set<Seq<char>>,
    package: PackageModel,
    b: int,
) -> (k: int)
    requires
        0 <= b < package.edges.len(),
        keeps_id(packages, observed, package.edges[b].target),
    ensures
        0 <= k < pruned(packages, observed, package).edges.len(),
        pruned(packages, observed, package).edges[k] == package.edges[b],
{
    let wanted = kept_edge(packages, observed);
    let chosen = package.edges.filter(wanted);
    package.edges.lemma_filter_contains(wanted, b);
    choose|k: int| 0 <= k < chosen.len() && chosen[k] == package.edges[b]
}

/// In a graph, whatever is needed for a build is a package of the graph, and
/// is kept.
proof fn lemma_build_reachable_is_kept(
    packages: Seq<PackageModel>,
    observed: Set<Seq<char>>,
    id: Seq<char>,
)
    requires
        no_dangling_edges(packages),
        build_reachable(packages, observed, id),
    ensures
        keeps_id(packages, observed, id),
{
    let hops = choose|hops: nat| build_reached_in(packages, observed, hops, id);
    if hops == 0 {
        let (i, k) = choose|i: int, k: int|
            0 <= i < packages.len() && 0 <= k < packages[i].edges.len() && is_seed(
                packages[i],
                observed,
            ) && packages[i].edges[k].is_build() && (#[trigger] packages[i].edges[k]).target == id;
        assert(has_id(packages, id));
    } else {
        let (i, k) = choose|i: int, k: int|
            0 <= i < packages.len() && 0 <= k < packages[i].edges.len() && build_reached_in(
                packages,
                observed,
                (hops - 1) as nat,
                packages[i].id,
            ) && (#[trigger] packages[i].edges[k]).target == id;
        assert(has_id(packages, id));
    }
    let j = choose|j: int| 0 <= j < packages.len() && (#[trigger] packages[j]).id == id;
    assert(keeps(packages, observed, packages[j]));
}

/// The filtered graph is a graph: identifiers stay distinct, and no edge is
/// left that points at a package that was dropped.
pub proof fn lemma_filtered_is_well_formed(packages: Seq<PackageModel>, observed: Set<Seq<char>>)
    requires
        unique_ids(packages),
    ensures
        well_formed(filtered(packages, observed)),
{
    let wanted = kept_package(packages, observed);
    let chosen = packages.filter(wanted);
    let result = filtered(packages, observed);
    lemma_filter_unique(packages, wanted);
    assert forall|a: int, b: int| 0 <= a < b < result.len() implies (#[trigger] result[a]).id != (
    #[trigger] result[b]).id by {
        assert(chosen[a].id != chosen[b].id);
    }
    assert forall|a: int, k: int| 0 <= a < result.len() && 0 <= k < result[a].edges.len() implies has_id(
        result,
        (#[trigger] result[a].edges[k]).target,
    ) by {
        let i = lemma_origin(packages, observed, a);
        let b = lemma_pruned_edge(packages, observed, packages[i], k);
        let target = packages[i].edges[b].target;
        let j = choose|j: int|
            0 <= j < packages.len() && (#[trigger] packages[j]).id == target && keeps(
                packages,
                observed,
                packages[j],
            );
        let c = lemma_position(packages, observed, j);
        assert(result[c].id == target);
    }
}

/// The filtered graph keeps every seed.
pub proof fn lemma_seeds_are_kept(packages: Seq<PackageModel>, observed: Set<Seq<char>>, i: int)
    requires
        0 <= i < packages.len(),
        is_seed(packages[i], observed),
    ensures
        has_id(filtered(packages, observed), packages[i].id),
{
    let a = lemma_position(packages, observed, i);
    assert(filtered(packages, observed)[a].id == packages[i].id);
}

proof fn lemma_reached_from_build_reached(
    packages: Seq<PackageModel>,
    observed: Set<Seq<char>>,
    first: nat,
    from: Seq<char>,
    then: nat,
    to: Seq<char>,
)
    requires
        build_reached_in(packages, observed, first, from),
        reached_in(packages, from, then, to),
    ensures
        build_reached_in(packages, observed, first + then, to),
    decreases then,
{
    if then > 0 {
        let (i, k) = choose|i: int, k: int|
            0 <= i < packages.len() && 0 <= k < packages[i].edges.len() && reached_in(
                packages,
                from,
                (then - 1) as nat,
                packages[i].id,
            ) && (#[trigger] packages[i].edges[k]).target == to;
        lemma_reached_from_build_reached(
            packages,
            observed,
            first,
            from,
            (then - 1) as nat,
            packages[i].id,
        );
        assert(build_reached_in(
            packages,
            observed,
            (first + then - 1) as nat,
            packages[i].id,
        ));
    }
}

/// Whatever is reached, over edges of any kind, from a package that is
/// needed for a build is in the filtered graph.
pub proof fn lemma_closure(
    packages: Seq<PackageModel>,
    observed: Set<Seq<char>>,
    from: Seq<char>,
    to: Seq<char>,
)
    requires
        well_formed(packages),
        build_reachable(packages, observed, from),
        reaches(packages, from, to),
    ensures
        build_reachable(packages, observed, to),
        has_id(filtered(packages, observed), to),
{
    let first = choose|hops: nat| build_reached_in(packages, observed, hops, from);
    let then = choose|hops: nat| reached_in(packages, from, hops, to);
    lemma_reached_from_build_reached(packages, observed, first, from, then, to);
    lemma_build_reachable_is_kept(packages, observed, to);
    let j = choose|j: int|
        0 <= j < packages.len() && (#[trigger] packages[j]).id == to && keeps(
            packages,
            observed,
            packages[j],
        );
    let a = lemma_position(packages, observed, j);
    assert(filtered(packages, observed)[a].id == to);
}

/// A seed's build edge leads into the filtered graph.
pub proof fn lemma_build_edge_of_seed(
    packages: Seq<PackageModel>,
    observed: Set<Seq<char>>,
    i: int,
    k: int,
)
    requires
        well_formed(packages),
        0 <= i < packages.len(),
        0 <= k < packages[i].edges.len(),
        is_seed(packages[i], observed),
        packages[i].edges[k].is_build(),
    ensures
        build_reachable(packages, observed, packages[i].edges[k].target),
        has_id(filtered(packages, observed), packages[i].edges[k].target),
{
    let target = packages[i].edges[k].target;
    assert(in_build_frontier(packages, observed, target));
    assert(build_reached_in(packages, observed, 0, target));
    assert(reached_in(packages, target, 0, target));
    lemma_closure(packages, observed, target, target);
}

/// Where every package is kept, filtering changes nothing.
proof fn lemma_all_kept_is_identity(packages: Seq<PackageModel>, observed: Set<Seq<char>>)
    requires
        no_dangling_edges(packages),
        forall|i: int|
            0 <= i < packages.len() ==> keeps(packages, observed, #[trigger] packages[i]),
    ensures
        filtered(packages, observed) == packages,
{
    let wanted = kept_package(packages, observed);
    let prune = pruning(packages, observed);
    assert forall|i: int| 0 <= i < packages.len() implies wanted(#[trigger] packages[i]) by {
        assert(keeps(packages, observed, packages[i]));
    }
    lemma_filter_keeps_all(packages, wanted);
    assert forall|i: int| 0 <= i < packages.len() implies prune(#[trigger] packages[i])
        == packages[i] by {
        let edges = packages[i].edges;
        let wanted_edge = kept_edge(packages, observed);
        assert forall|k: int| 0 <= k < edges.len() implies wanted_edge(#[trigger] edges[k]) by {
            let target = packages[i].edges[k].target;
            assert(has_id(packages, target));
            let j = choose|j: int| 0 <= j < packages.len() && (#[trigger] packages[j]).id == target;
            assert(keeps(packages, observed, packages[j]));
            assert(keeps_id(packages, observed, target));
        }
        lemma_filter_keeps_all(edges, wanted_edge);
    }
    assert(filtered(packages, observed) =~= packages);
}

/// What is needed for a build in a graph is needed for a build in the
/// filtered graph, over as many edges.
proof fn lemma_build_reached_survives(
    packages: Seq<PackageModel>,
    observed: Set<Seq<char>>,
    hops: nat,
    id: Seq<char>,
)
    requires
        well_formed(packages),
        build_reached_in(packages, observed, hops, id),
    ensures
        build_reached_in(filtered(packages, observed), observed, hops, id),
    decreases hops,
{
    let result = filtered(packages, observed);
    lemma_build_reachable_is_kept(packages, observed, id);
    if hops == 0 {
        let (i, k) = choose|i: int, k: int|
            0 <= i < packages.len() && 0 <= k < packages[i].edges.len() && is_seed(
                packages[i],
                observed,
            ) && packages[i].edges[k].is_build() && (#[trigger] packages[i].edges[k]).target == id;
        let a = lemma_position(packages, observed, i);
        let b = lemma_edge_survives(packages, observed, packages[i], k);
        assert(is_seed(result[a], observed));
        assert(result[a].edges[b].is_build() && result[a].edges[b].target == id);
        assert(in_build_frontier(result, observed, id));
    } else {
        let (i, k) = choose|i: int, k: int|
            0 <= i < packages.len() && 0 <= k < packages[i].edges.len() && build_reached_in(
                packages,
                observed,
                (hops - 1) as nat,
                packages[i].id,
            ) && (#[trigger] packages[i].edges[k]).target == id;
        lemma_build_reached_survives(packages, observed, (hops - 1) as nat, packages[i].id);
        assert(build_reachable(packages, observed, packages[i].id));
        let a = lemma_position(packages, observed, i);
        let b = lemma_edge_survives(packages, observed, packages[i], k);
        assert(result[a].id == packages[i].id);
        assert(result[a].edges[b].target == id);
    }
}

/// Filtering a filtered graph again, with the same observed names, changes
/// nothing.
pub proof fn lemma_filter_is_idempotent(packages: Seq<PackageModel>, observed: Set<Seq<char>>)
    requires
        well_formed(packages),
    ensures
        filtered(filtered(packages, observed), observed) == filtered(packages, observed),
{
    let result = filtered(packages, observed);
    lemma_filtered_is_well_formed(packages, observed);
    assert forall|a: int| 0 <= a < result.len() implies keeps(
        result,
        observed,
        #[trigger] result[a],
    ) by {
        let i = lemma_origin(packages, observed, a);
        if !is_seed(packages[i], observed) {
            let hops = choose|hops: nat|
                build_reached_in(packages, observed, hops, packages[i].id);
            lemma_build_reached_survives(packages, observed, hops, packages[i].id);
            assert(build_reachable(result, observed, result[a].id));
        }
    }
    lemma_all_kept_is_identity(result, observed);
}

/// Where every package of the graph was observed, that is, where the
/// observed set holds the normalised name of each, the filtered graph is the
/// graph.
pub proof fn lemma_full_coverage(packages: Seq<PackageModel>, observed: Set<Seq<char>>)
    requires
        well_formed(packages),
        forall|i: int| 0 <= i < packages.len() ==> is_seed(#[trigger] packages[i], observed),
    ensures
        filtered(packages, observed) == packages,
{
    lemma_all_kept_is_identity(packages, observed);
}

/// Where nothing was observed, the filtered graph is empty.
pub proof fn lemma_nothing_observed(packages: Seq<PackageModel>)
    ensures
        filtered(packages, Set::<Seq<char>>::empty()).len() == 0,
{
    let observed = Set::<Seq<char>>::empty();
    let wanted = kept_package(packages, observed);
    assert forall|hops: nat, id: Seq<char>| !build_reached_in(packages, observed, hops, id) by {
        lemma_no_seed_no_reach(packages, hops, id);
    }
    packages.lemma_all_neg_filter_empty(wanted);
}

proof fn lemma_no_seed_no_reach(packages: Seq<PackageModel>, hops: nat, id: Seq<char>)
    ensures
        !build_reached_in(packages, Set::<Seq<char>>::empty(), hops, id),
    decreases hops,
{
    if hops > 0 {
        assert forall|i: int| 0 <= i < packages.len() implies !build_reached_in(
            packages,
            Set::<Seq<char>>::empty(),
            (hops - 1) as nat,
            (#[trigger] packages[i]).id,
        ) by {
            lemma_no_seed_no_reach(packages, (hops - 1) as nat, packages[i].id);
        }
    }
}

} // verus!

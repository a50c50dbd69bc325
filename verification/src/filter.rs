//! The filter itself: seeds, the closure over what is needed to build them,
//! and the copy of the graph that keeps only those.

use vstd::prelude::*;
use vstd::hash_map::StringHashMap;
use vstd::pervasive::unreached;
use crate::bloat::{normalize, BloatData};
use crate::graph::{
    edges_model, has_id, index_packages, indexes_prefix, no_dangling_edges, packages_model,
    unique_ids, well_formed, DependencyEdge, Package, PackageModel,
};
use crate::reach::{
    build_reachable, build_reached_in, filtered, in_build_frontier, is_seed, kept_edge,
    kept_package, keeps, keeps_id, pruning,
};

verus! {

/// `targets[i][k]` is the position of the package that edge `k` of package
/// `i` points at.
spec fn resolved(targets: Seq<Vec<usize>>, packages: Seq<PackageModel>) -> bool {
    &&& targets.len() == packages.len()
    &&& forall|i: int|
        0 <= i < packages.len() ==> (#[trigger] targets[i])@.len() == packages[i].edges.len()
    &&& forall|i: int, k: int|
        0 <= i < packages.len() && 0 <= k < packages[i].edges.len() ==> (#[trigger] targets[i]@[k])
            < packages.len() && packages[targets[i]@[k] as int].id == packages[i].edges[k].target
}

/// Looks every edge's target up in the index.
fn resolve_targets(packages: &Vec<Package>, index: &StringHashMap<usize>) -> (targets: Vec<
    Vec<usize>,
>)
    requires
        indexes_prefix(index@, packages_model(packages@), packages.len() as int),
        no_dangling_edges(packages_model(packages@)),
    ensures
        resolved(targets@, packages_model(packages@)),
{
    let ghost model = packages_model(packages@);
    let mut targets: Vec<Vec<usize>> = Vec::new();
    let mut i: usize = 0;
    while i < packages.len()
        invariant
            0 <= i <= packages.len(),
            model == packages_model(packages@),
            indexes_prefix(index@, model, packages.len() as int),
            no_dangling_edges(model),
            targets.len() == i,
            forall|a: int| 0 <= a < i ==> (#[trigger] targets@[a])@.len() == model[a].edges.len(),
            forall|a: int, k: int|
                0 <= a < i && 0 <= k < model[a].edges.len() ==> (#[trigger] targets@[a]@[k])
                    < model.len() && model[targets@[a]@[k] as int].id == model[a].edges[k].target,
        decreases packages.len() - i,
    {
        let edges = &packages[i].edges;
        let mut row: Vec<usize> = Vec::new();
        let mut k: usize = 0;
        while k < edges.len()
            invariant
                0 <= i < packages.len(),
                0 <= k <= edges.len(),
                model == packages_model(packages@),
                edges == &packages[i as int].edges,
                indexes_prefix(index@, model, packages.len() as int),
                no_dangling_edges(model),
                row.len() == k,
                forall|b: int|
                    0 <= b < k ==> (#[trigger] row@[b]) < model.len() && model[row@[b] as int].id
                        == model[i as int].edges[b].target,
            decreases edges.len() - k,
        {
            proof {
                let target = model[i as int].edges[k as int].target;
                assert(target == edges[k as int].target@);
                assert(has_id(model, target));
                let j = choose|j: int| 0 <= j < model.len() && (#[trigger] model[j]).id == target;
                assert(index@.contains_key(model[j].id));
            }
            let position = match index.get(edges[k].target.as_str()) {
                Some(position) => *position,
                None => unreached(),
            };
            row.push(position);
            k += 1;
        }
        targets.push(row);
        i += 1;
    }
    targets
}

/// Marks the packages whose normalised name was observed.
fn mark_seeds(packages: &Vec<Package>, observed: &BloatData) -> (seeds: Vec<bool>)
    ensures
        seeds.len() == packages.len(),
        forall|i: int|
            0 <= i < packages.len() ==> #[trigger] seeds@[i] == is_seed(
                packages_model(packages@)[i],
                observed@,
            ),
{
    let mut seeds: Vec<bool> = Vec::new();
    let mut i: usize = 0;
    while i < packages.len()
        invariant
            0 <= i <= packages.len(),
            seeds.len() == i,
            forall|a: int|
                0 <= a < i ==> #[trigger] seeds@[a] == is_seed(
                    packages_model(packages@)[a],
                    observed@,
                ),
        decreases packages.len() - i,
    {
        let name = normalize(packages[i].name.as_str());
        seeds.push(observed.contains(&name));
        i += 1;
    }
    seeds
}

fn all_false(n: usize) -> (flags: Vec<bool>)
    ensures
        flags.len() == n,
        forall|i: int| 0 <= i < n ==> !(#[trigger] flags@[i]),
{
    let mut flags: Vec<bool> = Vec::new();
    let mut i: usize = 0;
    while i < n
        invariant
            0 <= i <= n,
            flags.len() == i,
            forall|a: int| 0 <= a < i ==> !(#[trigger] flags@[a]),
        decreases n - i,
    {
        flags.push(false);
        i += 1;
    }
    flags
}

spec fn count_true(flags: Seq<bool>) -> nat
    decreases flags.len(),
{
    if flags.len() == 0 {
        0
    } else {
        count_true(flags.drop_last()) + if flags.last() {
            1nat
        } else {
            0nat
        }
    }
}

proof fn lemma_count_true_bound(flags: Seq<bool>)
    ensures
        count_true(flags) <= flags.len(),
    decreases flags.len(),
{
    if flags.len() > 0 {
        lemma_count_true_bound(flags.drop_last());
    }
}

proof fn lemma_count_true_set(flags: Seq<bool>, i: int)
    requires
        0 <= i < flags.len(),
        !flags[i],
    ensures
        count_true(flags.update(i, true)) == count_true(flags) + 1,
    decreases flags.len(),
{
    let after = flags.update(i, true);
    if i == flags.len() - 1 {
        assert(after.drop_last() =~= flags.drop_last());
    } else {
        lemma_count_true_set(flags.drop_last(), i);
        assert(after.drop_last() =~= flags.drop_last().update(i, true));
    }
}

/// Every marked package is needed to build something observed.
spec fn sound(reach: Seq<bool>, packages: Seq<PackageModel>, observed: Set<Seq<char>>) -> bool {
    forall|j: int|
        0 <= j < reach.len() && #[trigger] reach[j] ==> build_reachable(
            packages,
            observed,
            packages[j].id,
        )
}

/// Every target of package `i` is marked.
spec fn targets_marked(reach: Seq<bool>, targets: Seq<Vec<usize>>, i: int) -> bool {
    forall|k: int|
        0 <= k < targets[i]@.len() ==> (#[trigger] targets[i]@[k]) < reach.len()
            && reach[targets[i]@[k] as int]
}

/// The build edges of the first `upto` packages, where they are seeds, lead
/// to marked packages.
spec fn frontier_marked(
    reach: Seq<bool>,
    targets: Seq<Vec<usize>>,
    seeds: Seq<bool>,
    packages: Seq<PackageModel>,
    upto: int,
) -> bool {
    forall|a: int, k: int|
        0 <= a < upto && 0 <= k < packages[a].edges.len() && seeds[a]
            && packages[a].edges[k].is_build() ==> reach[(#[trigger] targets[a]@[k]) as int]
}

/// What is on the worklist is marked.
spec fn queued_marked(reach: Seq<bool>, work: Seq<usize>) -> bool {
    forall|w: int| 0 <= w < work.len() ==> (#[trigger] work[w]) < reach.len() && reach[work[w] as int]
}

/// A marked package is on the worklist, or is `current`, or has its targets
/// marked.
spec fn settled(reach: Seq<bool>, targets: Seq<Vec<usize>>, work: Seq<usize>, current: int) -> bool {
    forall|j: int|
        0 <= j < reach.len() && #[trigger] reach[j] ==> j == current || work.contains(j as usize)
            || targets_marked(reach, targets, j)
}

proof fn lemma_reached_in_is_marked(
    packages: Seq<PackageModel>,
    observed: Set<Seq<char>>,
    reach: Seq<bool>,
    targets: Seq<Vec<usize>>,
    seeds: Seq<bool>,
    hops: nat,
    j: int,
)
    requires
        unique_ids(packages),
        resolved(targets, packages),
        reach.len() == packages.len(),
        seeds.len() == packages.len(),
        forall|i: int|
            0 <= i < packages.len() ==> #[trigger] seeds[i] == is_seed(packages[i], observed),
        frontier_marked(reach, targets, seeds, packages, packages.len() as int),
        forall|i: int|
            0 <= i < reach.len() && #[trigger] reach[i] ==> targets_marked(reach, targets, i),
        0 <= j < packages.len(),
        build_reached_in(packages, observed, hops, packages[j].id),
    ensures
        reach[j],
    decreases hops,
{
    if hops == 0 {
        let (i, k) = choose|i: int, k: int|
            0 <= i < packages.len() && 0 <= k < packages[i].edges.len() && is_seed(
                packages[i],
                observed,
            ) && packages[i].edges[k].is_build() && (#[trigger] packages[i].edges[k]).target
                == packages[j].id;
        let t = targets[i]@[k] as int;
        assert(seeds[i]);
        assert(reach[t]);
        if t < j {
            assert(packages[t].id != packages[j].id);
        } else if j < t {
            assert(packages[j].id != packages[t].id);
        }
    } else {
        let (i, k) = choose|i: int, k: int|
            0 <= i < packages.len() && 0 <= k < packages[i].edges.len() && build_reached_in(
                packages,
                observed,
                (hops - 1) as nat,
                packages[i].id,
            ) && (#[trigger] packages[i].edges[k]).target == packages[j].id;
        lemma_reached_in_is_marked(
            packages,
            observed,
            reach,
            targets,
            seeds,
            (hops - 1) as nat,
            i,
        );
        assert(reach[i]);
        assert(targets_marked(reach, targets, i));
        let t = targets[i]@[k] as int;
        assert(reach[t]);
        if t < j {
            assert(packages[t].id != packages[j].id);
        } else if j < t {
            assert(packages[j].id != packages[t].id);
        }
    }
}

proof fn lemma_push_contains(work: Seq<usize>, pushed: usize, x: usize)
    requires
        work.contains(x) || x == pushed,
    ensures
        work.push(pushed).contains(x),
{
    let after = work.push(pushed);
    if x == pushed {
        assert(after[work.len() as int] == x);
    } else {
        let w = choose|w: int| 0 <= w < work.len() && work[w] == x;
        assert(after[w] == x);
    }
}

proof fn lemma_drop_last_contains(work: Seq<usize>, x: usize)
    requires
        work.len() > 0,
        work.contains(x),
        x != work.last(),
    ensures
        work.drop_last().contains(x),
{
    let w = choose|w: int| 0 <= w < work.len() && work[w] == x;
    assert(work.drop_last()[w] == x);
}

/// Marks package `j`, which is known to be needed for a build, and queues it
/// unless it was marked before.
fn mark(
    reach: &mut Vec<bool>,
    work: &mut Vec<usize>,
    j: usize,
    Ghost(packages): Ghost<Seq<PackageModel>>,
    Ghost(observed): Ghost<Set<Seq<char>>>,
    Ghost(targets): Ghost<Seq<Vec<usize>>>,
    Ghost(current): Ghost<int>,
)
    requires
        j < old(reach).len(),
        old(reach).len() == packages.len(),
        targets.len() == packages.len(),
        build_reachable(packages, observed, packages[j as int].id),
        sound(old(reach)@, packages, observed),
        queued_marked(old(reach)@, old(work)@),
        settled(old(reach)@, targets, old(work)@, current),
    ensures
        final(reach).len() == old(reach).len(),
        final(reach)@[j as int],
        forall|i: int| 0 <= i < old(reach).len() && old(reach)@[i] ==> final(reach)@[i],
        sound(final(reach)@, packages, observed),
        queued_marked(final(reach)@, final(work)@),
        settled(final(reach)@, targets, final(work)@, current),
        2 * (final(reach).len() - count_true(final(reach)@)) + final(work).len() <= 2 * (old(
            reach,
        ).len() - count_true(old(reach)@)) + old(work).len(),
{
    if !reach[j] {
        let ghost reach_before = reach@;
        let ghost work_before = work@;
        reach.set(j, true);
        work.push(j);
        proof {
            lemma_count_true_set(reach_before, j as int);
            lemma_count_true_bound(reach@);
            assert forall|i: int| 0 <= i < reach@.len() && #[trigger] reach@[i] implies i
                == current || work@.contains(i as usize) || targets_marked(reach@, targets, i) by {
                if i == j as int {
                    lemma_push_contains(work_before, j, j);
                } else if i != current {
                    assert(reach_before[i]);
                    if work_before.contains(i as usize) {
                        lemma_push_contains(work_before, j, i as usize);
                    } else {
                        assert(targets_marked(reach_before, targets, i));
                        assert forall|k: int| 0 <= k < targets[i]@.len() implies (
                        #[trigger] targets[i]@[k]) < reach@.len() && reach@[targets[i]@[k] as int] by {
                            assert(reach_before[targets[i]@[k] as int]);
                        }
                    }
                }
            }
        }
    }
}

/// Marks every package that is needed to build a seed: what the seeds reach
/// over one build edge, and from there everything that is reached over edges
/// of any kind.
fn mark_build_reachable(
    packages: &Vec<Package>,
    targets: &Vec<Vec<usize>>,
    seeds: &Vec<bool>,
    Ghost(observed): Ghost<Set<Seq<char>>>,
) -> (reach: Vec<bool>)
    requires
        unique_ids(packages_model(packages@)),
        resolved(targets@, packages_model(packages@)),
        seeds.len() == packages.len(),
        forall|i: int|
            0 <= i < packages.len() ==> #[trigger] seeds@[i] == is_seed(
                packages_model(packages@)[i],
                observed,
            ),
    ensures
        reach.len() == packages.len(),
        forall|j: int|
            0 <= j < packages.len() ==> #[trigger] reach@[j] == build_reachable(
                packages_model(packages@),
                observed,
                packages_model(packages@)[j].id,
            ),
{
    let ghost model = packages_model(packages@);
    let n = packages.len();
    let mut reach = all_false(n);
    let mut work: Vec<usize> = Vec::new();
    let mut i: usize = 0;
    while i < n
        invariant
            0 <= i <= n,
            n == packages.len(),
            model == packages_model(packages@),
            resolved(targets@, model),
            seeds.len() == n,
            forall|a: int| 0 <= a < n ==> #[trigger] seeds@[a] == is_seed(model[a], observed),
            reach.len() == n,
            sound(reach@, model, observed),
            queued_marked(reach@, work@),
            settled(reach@, targets@, work@, -1),
            frontier_marked(reach@, targets@, seeds@, model, i as int),
        decreases n - i,
    {
        if seeds[i] {
            let edges = &packages[i].edges;
            let row = &targets[i];
            let mut k: usize = 0;
            while k < edges.len()
                invariant
                    0 <= i < n,
                    0 <= k <= edges.len(),
                    n == packages.len(),
                    model == packages_model(packages@),
                    edges == &packages[i as int].edges,
                    row == &targets[i as int],
                    resolved(targets@, model),
                    seeds.len() == n,
                    seeds@[i as int],
                    is_seed(model[i as int], observed),
                    reach.len() == n,
                    sound(reach@, model, observed),
                    queued_marked(reach@, work@),
                    settled(reach@, targets@, work@, -1),
                    frontier_marked(reach@, targets@, seeds@, model, i as int),
                    forall|b: int|
                        0 <= b < k && model[i as int].edges[b].is_build() ==> reach@[(
                        #[trigger] row@[b]) as int],
                decreases edges.len() - k,
            {
                if edges[k].is_build() {
                    let j = row[k];
                    proof {
                        assert(model[i as int].edges[k as int] == edges[k as int]@);
                        assert(targets@[i as int]@[k as int] == j);
                        assert(model[i as int].edges[k as int].target == model[j as int].id);
                        assert(in_build_frontier(model, observed, model[j as int].id));
                        assert(build_reached_in(model, observed, 0, model[j as int].id));
                    }
                    mark(
                        &mut reach,
                        &mut work,
                        j,
                        Ghost(model),
                        Ghost(observed),
                        Ghost(targets@),
                        Ghost(-1),
                    );
                }
                k += 1;
            }
        }
        i += 1;
    }
    while work.len() > 0
        invariant
            n == packages.len(),
            model == packages_model(packages@),
            resolved(targets@, model),
            reach.len() == n,
            sound(reach@, model, observed),
            queued_marked(reach@, work@),
            settled(reach@, targets@, work@, -1),
            frontier_marked(reach@, targets@, seeds@, model, n as int),
        decreases 2 * (n - count_true(reach@)) + work.len(),
    {
        let ghost measure = 2 * (n - count_true(reach@)) + work.len();
        let ghost work_before = work@;
        let current = match work.pop() {
            Some(current) => current,
            None => unreached(),
        };
        proof {
            assert(work_before[work_before.len() - 1] == current);
            assert forall|j: int| 0 <= j < reach@.len() && #[trigger] reach@[j] implies j
                == current as int || work@.contains(j as usize) || targets_marked(
                reach@,
                targets@,
                j,
            ) by {
                if j != current as int && work_before.contains(j as usize) {
                    lemma_drop_last_contains(work_before, j as usize);
                }
            }
        }
        let row = &targets[current];
        let mut k: usize = 0;
        while k < row.len()
            invariant
                0 <= k <= row.len(),
                current < n,
                n == packages.len(),
                model == packages_model(packages@),
                row == &targets[current as int],
                resolved(targets@, model),
                reach.len() == n,
                reach@[current as int],
                sound(reach@, model, observed),
                queued_marked(reach@, work@),
                settled(reach@, targets@, work@, current as int),
                frontier_marked(reach@, targets@, seeds@, model, n as int),
                forall|b: int| 0 <= b < k ==> reach@[(#[trigger] row@[b]) as int],
                2 * (n - count_true(reach@)) + work.len() < measure,
            decreases row.len() - k,
        {
            let j = row[k];
            proof {
                assert(targets@[current as int]@[k as int] == j);
                assert(model[current as int].edges[k as int].target == model[j as int].id);
                let hops = choose|hops: nat|
                    build_reached_in(model, observed, hops, model[current as int].id);
                assert(build_reached_in(model, observed, hops + 1, model[j as int].id));
            }
            mark(
                &mut reach,
                &mut work,
                j,
                Ghost(model),
                Ghost(observed),
                Ghost(targets@),
                Ghost(current as int),
            );
            k += 1;
        }
        proof {
            assert(targets_marked(reach@, targets@, current as int));
            lemma_count_true_bound(reach@);
        }
    }
    proof {
        assert forall|j: int| 0 <= j < n implies #[trigger] reach@[j] == build_reachable(
            model,
            observed,
            model[j].id,
        ) by {
            if build_reachable(model, observed, model[j].id) {
                let hops = choose|hops: nat| build_reached_in(model, observed, hops, model[j].id);
                assert forall|i: int| 0 <= i < reach@.len() && #[trigger] reach@[i] implies targets_marked(
                    reach@,
                    targets@,
                    i,
                ) by {
                    assert(!work@.contains(i as usize));
                }
                lemma_reached_in_is_marked(model, observed, reach@, targets@, seeds@, hops, j);
            }
        }
    }
    reach
}

/// With distinct identifiers, the flag of the package that an identifier
/// names says whether the identifier is kept.
proof fn lemma_flag_is_keeps_id(
    packages: Seq<PackageModel>,
    observed: Set<Seq<char>>,
    keep: Seq<bool>,
    t: int,
)
    requires
        unique_ids(packages),
        keep.len() == packages.len(),
        forall|i: int|
            0 <= i < packages.len() ==> #[trigger] keep[i] == keeps(packages, observed, packages[i]),
        0 <= t < packages.len(),
    ensures
        keep[t] == keeps_id(packages, observed, packages[t].id),
{
    if keeps_id(packages, observed, packages[t].id) {
        let i = choose|i: int|
            0 <= i < packages.len() && (#[trigger] packages[i]).id == packages[t].id && keeps(
                packages,
                observed,
                packages[i],
            );
        if i < t {
            assert(packages[i].id != packages[t].id);
        } else if t < i {
            assert(packages[t].id != packages[i].id);
        }
        assert(keep[i]);
    }
    if keep[t] {
        assert(keeps(packages, observed, packages[t]));
    }
}

/// Copies the edges whose targets are kept.
fn prune_edges(
    edges: &Vec<DependencyEdge>,
    row: &Vec<usize>,
    keep: &Vec<bool>,
    Ghost(packages): Ghost<Seq<PackageModel>>,
    Ghost(observed): Ghost<Set<Seq<char>>>,
) -> (kept: Vec<DependencyEdge>)
    requires
        unique_ids(packages),
        keep.len() == packages.len(),
        forall|i: int|
            0 <= i < packages.len() ==> #[trigger] keep@[i] == keeps(
                packages,
                observed,
                packages[i],
            ),
        row.len() == edges.len(),
        forall|k: int|
            0 <= k < edges.len() ==> (#[trigger] row@[k]) < packages.len()
                && packages[row@[k] as int].id == edges@[k].target@,
    ensures
        edges_model(kept@) == edges_model(edges@).filter(kept_edge(packages, observed)),
{
    let ghost all = edges_model(edges@);
    let ghost wanted = kept_edge(packages, observed);
    let mut kept: Vec<DependencyEdge> = Vec::new();
    let mut k: usize = 0;
    proof {
        reveal(Seq::filter);
        assert(all.take(0).filter(wanted) =~= edges_model(kept@));
    }
    while k < edges.len()
        invariant
            0 <= k <= edges.len(),
            all == edges_model(edges@),
            wanted == kept_edge(packages, observed),
            unique_ids(packages),
            keep.len() == packages.len(),
            forall|i: int|
                0 <= i < packages.len() ==> #[trigger] keep@[i] == keeps(
                    packages,
                    observed,
                    packages[i],
                ),
            row.len() == edges.len(),
            forall|b: int|
                0 <= b < edges.len() ==> (#[trigger] row@[b]) < packages.len()
                    && packages[row@[b] as int].id == edges@[b].target@,
            edges_model(kept@) == all.take(k as int).filter(wanted),
        decreases edges.len() - k,
    {
        let ghost kept_before = kept@;
        proof {
            lemma_flag_is_keeps_id(packages, observed, keep@, row@[k as int] as int);
            assert(all.take(k + 1) =~= all.take(k as int).push(all[k as int]));
            all.take(k as int).lemma_filter_push(all[k as int], wanted);
            assert(wanted(all[k as int]) == keep@[row@[k as int] as int]);
        }
        if keep[row[k]] {
            kept.push(edges[k].clone());
            proof {
                assert(edges_model(kept@) =~= edges_model(kept_before).push(all[k as int]));
            }
        }
        k += 1;
    }
    proof {
        assert(all.take(edges.len() as int) =~= all);
    }
    kept
}

/// Copies the flagged packages, each without the edges to packages that are
/// not flagged.
fn collect_kept(
    packages: &Vec<Package>,
    targets: &Vec<Vec<usize>>,
    keep: &Vec<bool>,
    Ghost(observed): Ghost<Set<Seq<char>>>,
) -> (kept: Vec<Package>)
    requires
        unique_ids(packages_model(packages@)),
        resolved(targets@, packages_model(packages@)),
        keep.len() == packages.len(),
        forall|i: int|
            0 <= i < packages.len() ==> #[trigger] keep@[i] == keeps(
                packages_model(packages@),
                observed,
                packages_model(packages@)[i],
            ),
    ensures
        packages_model(kept@) == filtered(packages_model(packages@), observed),
{
    let ghost model = packages_model(packages@);
    let ghost wanted = kept_package(model, observed);
    let ghost prune = pruning(model, observed);
    let mut kept: Vec<Package> = Vec::new();
    let mut i: usize = 0;
    proof {
        reveal(Seq::filter);
        assert(model.take(0).filter(wanted).map_values(prune) =~= packages_model(kept@));
    }
    while i < packages.len()
        invariant
            0 <= i <= packages.len(),
            model == packages_model(packages@),
            wanted == kept_package(model, observed),
            prune == pruning(model, observed),
            unique_ids(model),
            resolved(targets@, model),
            keep.len() == packages.len(),
            forall|a: int|
                0 <= a < packages.len() ==> #[trigger] keep@[a] == keeps(
                    model,
                    observed,
                    model[a],
                ),
            packages_model(kept@) == model.take(i as int).filter(wanted).map_values(prune),
        decreases packages.len() - i,
    {
        let ghost kept_before = kept@;
        proof {
            assert(model.take(i + 1) =~= model.take(i as int).push(model[i as int]));
            model.take(i as int).lemma_filter_push(model[i as int], wanted);
            assert(wanted(model[i as int]) == keep@[i as int]);
        }
        if keep[i] {
            proof {
                assert forall|k: int| 0 <= k < packages@[i as int].edges.len() implies (
                #[trigger] targets@[i as int]@[k]) < model.len() && model[targets@[i as int]@[k] as int].id
                    == packages@[i as int].edges@[k].target@ by {
                    assert(model[i as int].edges[k] == packages@[i as int].edges@[k]@);
                }
            }
            let edges = prune_edges(
                &packages[i].edges,
                &targets[i],
                keep,
                Ghost(model),
                Ghost(observed),
            );
            let package = packages[i].with_edges(edges);
            kept.push(package);
            proof {
                assert(package@ == prune(model[i as int]));
                let chosen = model.take(i as int).filter(wanted);
                assert(chosen.push(model[i as int]).map_values(prune) =~= chosen.map_values(
                    prune,
                ).push(prune(model[i as int])));
                assert(packages_model(kept@) =~= packages_model(kept_before).push(package@));
            }
        }
        i += 1;
    }
    proof {
        assert(model.take(packages.len() as int) =~= model);
    }
    kept
}

/// The packages that the filtered graph keeps, in their old order, each
/// without the edges to packages that were dropped.
pub(crate) fn filter_packages(packages: &Vec<Package>, observed: &BloatData) -> (kept: Vec<Package>)
    requires
        well_formed(packages_model(packages@)),
    ensures
        packages_model(kept@) == filtered(packages_model(packages@), observed@),
{
    let ghost model = packages_model(packages@);
    let index = match index_packages(packages) {
        Some(index) => index,
        None => unreached(),
    };
    let targets = resolve_targets(packages, &index);
    let seeds = mark_seeds(packages, observed);
    let reach = mark_build_reachable(packages, &targets, &seeds, Ghost(observed@));
    let mut keep: Vec<bool> = Vec::new();
    let mut i: usize = 0;
    while i < packages.len()
        invariant
            0 <= i <= packages.len(),
            model == packages_model(packages@),
            seeds.len() == packages.len(),
            reach.len() == packages.len(),
            forall|a: int|
                0 <= a < packages.len() ==> #[trigger] seeds@[a] == is_seed(model[a], observed@),
            forall|a: int|
                0 <= a < packages.len() ==> #[trigger] reach@[a] == build_reachable(
                    model,
                    observed@,
                    model[a].id,
                ),
            keep.len() == i,
            forall|a: int| 0 <= a < i ==> #[trigger] keep@[a] == keeps(model, observed@, model[a]),
        decreases packages.len() - i,
    {
        keep.push(seeds[i] || reach[i]);
        i += 1;
    }
    collect_kept(packages, &targets, &keep, Ghost(observed@))
}

} // verus!

//! The crates that the size profiler saw in the compiled binary.

use vstd::prelude::*;
use vstd::hash_set::StringHashSet;
use crate::filter::filter_packages;
use crate::graph::{well_formed, DependencyGraph};
use crate::laws::lemma_filtered_is_well_formed;
use crate::reach::{filtered, normalized_name};

verus! {

/// One crate of the profiler's report.
#[derive(Debug, PartialEq, Eq)]
pub struct BloatCrate {
    pub crate_name: String,
}

/// The profiler's report: the crates it found code of.
#[derive(Debug, PartialEq, Eq)]
pub struct BloatOutput {
    pub crates: Vec<BloatCrate>,
}

/// The set of observed crate names.
pub struct BloatData {
    set: StringHashSet,
}

impl View for BloatData {
    type V = Set<Seq<char>>;

    closed spec fn view(&self) -> Set<Seq<char>> {
        self.set@
    }
}

/// `text` with every `from` replaced by `to`.
pub open spec fn with_char_replaced(text: Seq<char>, from: char, to: char) -> Seq<char> {
    text.map_values(
        |c: char|
            if c == from {
                to
            } else {
                c
            },
    )
}

/// Calls `str::replace`, which replaces all matches of a pattern with
/// another string. The contract is for a pattern and a replacement of one
/// character each: every character that is the pattern's becomes the
/// replacement's, and the others stay.
#[verifier::external_body]
fn replace_char(text: &str, from: &str, to: &str) -> (result: String)
    requires
        from@.len() == 1,
        to@.len() == 1,
    ensures
        result@ == with_char_replaced(text@, from@[0], to@[0]),
{
    text.replace(from, to)
}

/// The name as the profiler spells it: hyphens become underscores.
pub fn normalize(name: &str) -> (normalized: String)
    ensures
        normalized@ == normalized_name(name@),
{
    proof {
        reveal_strlit("-");
        reveal_strlit("_");
        assert(with_char_replaced(name@, '-', '_') =~= normalized_name(name@));
    }
    replace_char(name, "-", "_")
}

/// Every name of the set is spelled as the profiler spells it: none holds a
/// hyphen that normalising would replace.
pub open spec fn all_normalized(names: Set<Seq<char>>) -> bool {
    forall|name: Seq<char>| names.contains(name) ==> normalized_name(name) == name
}

/// Normalising a normalised name changes nothing.
pub proof fn lemma_normalized_twice(name: Seq<char>)
    ensures
        normalized_name(normalized_name(name)) == normalized_name(name),
{
    assert(normalized_name(normalized_name(name)) =~= normalized_name(name));
}

impl BloatData {
    /// The set holds normalised names only.
    #[verifier::type_invariant]
    pub open spec fn wf(self) -> bool {
        all_normalized(self@)
    }

    /// No crate observed.
    pub fn new() -> (data: BloatData)
        ensures
            data@ == Set::<Seq<char>>::empty(),
            all_normalized(data@),
    {
        BloatData { set: StringHashSet::new() }
    }

    /// Adds a crate name to the set, in its normalised form.
    pub fn insert(&mut self, name: String)
        ensures
            final(self)@ == old(self)@.insert(normalized_name(name@)),
            all_normalized(final(self)@),
    {
        proof {
            use_type_invariant(&*self);
            lemma_normalized_twice(name@);
        }
        // The set is taken out while it changes: what `self` holds is a set
        // of normalised names at every moment.
        let mut set = StringHashSet::new();
        std::mem::swap(&mut self.set, &mut set);
        set.insert(normalize(name.as_str()));
        std::mem::swap(&mut self.set, &mut set);
    }

    /// Whether the set holds the name as it is given. The set holds
    /// normalised names, so a name is looked up in its normalised form.
    pub fn contains(&self, value: &String) -> (found: bool)
        ensures
            found == self@.contains(value@),
            all_normalized(self@),
    {
        proof {
            use_type_invariant(self);
        }
        self.set.contains(value.as_str())
    }

    /// Cuts the graph down to the packages whose normalised name was
    /// observed and the packages needed to build them: what an observed
    /// package reaches over one build edge, and everything reached from
    /// there over edges of any kind. The packages keep their order, and each
    /// loses the edges to packages that were dropped.
    pub fn filter_cargo_metadata(&self, metadata: DependencyGraph) -> (kept: DependencyGraph)
        ensures
            kept@ == filtered(metadata@, self@),
            well_formed(kept@),
    {
        let packages = filter_packages(metadata.packages(), self);
        proof {
            lemma_filtered_is_well_formed(metadata@, self@);
        }
        DependencyGraph::from_checked(packages)
    }
}

/// The names that a report lists, each in its normalised form.
pub open spec fn observed_names(crates: Seq<BloatCrate>) -> Set<Seq<char>> {
    Set::new(
        |name: Seq<char>|
            exists|i: int|
                0 <= i < crates.len() && normalized_name((#[trigger] crates[i]).crate_name@)
                    == name,
    )
}

impl BloatOutput {
    /// The observed set of the report: the normalised form of every crate
    /// name that it lists.
    pub fn data(&self) -> (data: BloatData)
        ensures
            data@ == observed_names(self.crates@),
            all_normalized(data@),
    {
        let mut data = BloatData::new();
        let mut i: usize = 0;
        while i < self.crates.len()
            invariant
                0 <= i <= self.crates.len(),
                data@ == observed_names(self.crates@.take(i as int)),
                all_normalized(data@),
            decreases self.crates.len() - i,
        {
            data.insert(self.crates[i].crate_name.clone());
            proof {
                let before = self.crates@.take(i as int);
                let after = self.crates@.take(i + 1);
                let name = normalized_name(self.crates@[i as int].crate_name@);
                assert forall|n: Seq<char>|
                    observed_names(after).contains(n) <==> observed_names(before).insert(
                        name,
                    ).contains(n) by {
                    if observed_names(before).contains(n) {
                        let j = choose|j: int|
                            0 <= j < before.len() && normalized_name(
                                (#[trigger] before[j]).crate_name@,
                            ) == n;
                        assert(normalized_name(after[j].crate_name@) == n);
                    }
                    if n == name {
                        assert(normalized_name(after[i as int].crate_name@) == n);
                    }
                    if observed_names(after).contains(n) {
                        let j = choose|j: int|
                            0 <= j < after.len() && normalized_name(
                                (#[trigger] after[j]).crate_name@,
                            ) == n;
                        if j < i {
                            assert(normalized_name(before[j].crate_name@) == n);
                        }
                    }
                }
                assert(data@ =~= observed_names(after));
            }
            i += 1;
        }
        proof {
            assert(self.crates@.take(self.crates.len() as int) =~= self.crates@);
        }
        data
    }
}

} // verus!

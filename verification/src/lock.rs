//! The checksums that the lockfile records, by package name and exact
//! version.

use vstd::prelude::*;
use cargo_lock::Checksum;
use semver::Version;
use crate::version::{version_text, version_to_string};

verus! {

/// `cargo_lock::Checksum`, carried through the library without looking
/// inside.
#[verifier::external_type_specification]
#[verifier::external_body]
pub struct ExChecksum(cargo_lock::Checksum);

/// The text that `cargo_lock` prints for a checksum: its digest in lower-case
/// hexadecimal digits.
pub uninterp spec fn checksum_text(checksum: cargo_lock::Checksum) -> Seq<char>;

/// Calls `cargo_lock::Checksum`'s `Display` through `to_string`. The contract
/// only gives the printed text its name: the same checksum always prints
/// alike.
#[verifier::external_body]
pub(crate) fn checksum_to_string(checksum: &cargo_lock::Checksum) -> (text: String)
    ensures
        text@ == checksum_text(*checksum),
{
    checksum.to_string()
}

/// `cargo_lock::Checksum`'s derived `Clone`, which copies the digest: the
/// copy is the checksum it was made from.
pub assume_specification[ <cargo_lock::Checksum as Clone>::clone ](
    checksum: &cargo_lock::Checksum,
) -> (copy: cargo_lock::Checksum)
    ensures
        copy == *checksum,
;

/// A package as the lockfile lists it.
#[derive(Debug, PartialEq, Eq)]
pub struct LockPackage {
    pub name: String,
    pub version: Version,
    pub checksum: Option<Checksum>,
}

/// What a checksum is looked up by: a package name and the text of an exact
/// version.
pub type ChecksumKey = (Seq<char>, Seq<char>);

/// The checksums of a lockfile's packages. Packages without a checksum add
/// nothing; of two packages with one name and version the later one counts.
pub open spec fn lock_checksums(packages: Seq<LockPackage>) -> Map<ChecksumKey, Checksum>
    decreases packages.len(),
{
    if packages.len() == 0 {
        Map::empty()
    } else {
        let earlier = lock_checksums(packages.drop_last());
        let last = packages.last();
        match last.checksum {
            Some(checksum) => earlier.insert((last.name@, version_text(last.version)), checksum),
            None => earlier,
        }
    }
}

struct ChecksumEntry {
    name: String,
    version: String,
    checksum: Checksum,
}

spec fn entry_key(entry: ChecksumEntry) -> ChecksumKey {
    (entry.name@, entry.version@)
}

spec fn entries_table(entries: Seq<ChecksumEntry>) -> Map<ChecksumKey, Checksum>
    decreases entries.len(),
{
    if entries.len() == 0 {
        Map::empty()
    } else {
        entries_table(entries.drop_last()).insert(
            entry_key(entries.last()),
            entries.last().checksum,
        )
    }
}

proof fn lemma_last_match_wins(entries: Seq<ChecksumEntry>, key: ChecksumKey, i: int)
    requires
        0 <= i < entries.len(),
        entry_key(entries[i]) == key,
        forall|j: int| i < j < entries.len() ==> entry_key(#[trigger] entries[j]) != key,
    ensures
        entries_table(entries).contains_key(key),
        entries_table(entries)[key] == entries[i].checksum,
    decreases entries.len(),
{
    if i < entries.len() - 1 {
        assert(entry_key(entries[entries.len() - 1]) != key);
        lemma_last_match_wins(entries.drop_last(), key, i);
    }
}

proof fn lemma_no_match(entries: Seq<ChecksumEntry>, key: ChecksumKey)
    requires
        forall|j: int| 0 <= j < entries.len() ==> entry_key(#[trigger] entries[j]) != key,
    ensures
        !entries_table(entries).contains_key(key),
    decreases entries.len(),
{
    if entries.len() > 0 {
        assert(entry_key(entries[entries.len() - 1]) != key);
        lemma_no_match(entries.drop_last(), key);
    }
}

/// The checksum table: at most one checksum for a package name and exact
/// version.
pub struct ChecksumTable {
    entries: Vec<ChecksumEntry>,
}

impl View for ChecksumTable {
    type V = Map<ChecksumKey, Checksum>;

    closed spec fn view(&self) -> Map<ChecksumKey, Checksum> {
        entries_table(self.entries@)
    }
}

impl ChecksumTable {
    /// A table without checksums.
    pub fn new() -> (table: ChecksumTable)
        ensures
            table@ == Map::<ChecksumKey, Checksum>::empty(),
    {
        ChecksumTable { entries: Vec::new() }
    }

    /// Records the checksum of a package, in place of an earlier one for the
    /// same name and version.
    pub fn insert(&mut self, name: String, version: &Version, checksum: Checksum)
        ensures
            final(self)@ == old(self)@.insert((name@, version_text(*version)), checksum),
    {
        let ghost before = self.entries@;
        let entry = ChecksumEntry { name, version: version_to_string(version), checksum };
        self.entries.push(entry);
        proof {
            assert(self.entries@.drop_last() =~= before);
        }
    }

    /// The checksum recorded for a package name and exact version, if there
    /// is one.
    pub fn get(&self, name: &String, version: &Version) -> (found: Option<&Checksum>)
        ensures
            match found {
                Some(checksum) => self@.contains_key((name@, version_text(*version)))
                    && *checksum == self@[(name@, version_text(*version))],
                None => !self@.contains_key((name@, version_text(*version))),
            },
    {
        let text = version_to_string(version);
        let ghost key = (name@, version_text(*version));
        let mut i: usize = self.entries.len();
        while i > 0
            invariant
                0 <= i <= self.entries.len(),
                key == (name@, version_text(*version)),
                text@ == version_text(*version),
                forall|j: int|
                    i <= j < self.entries.len() ==> entry_key(#[trigger] self.entries@[j]) != key,
            decreases i,
        {
            i -= 1;
            let entry = &self.entries[i];
            if entry.name == *name && entry.version == text {
                proof {
                    assert(entry == self.entries@[i as int]);
                    assert(entry_key(self.entries@[i as int]) == key);
                    lemma_last_match_wins(self.entries@, key, i as int);
                }
                return Some(&entry.checksum);
            }
        }
        proof {
            lemma_no_match(self.entries@, key);
        }
        None
    }

    /// The checksums that a lockfile records.
    pub fn from_lock(packages: &Vec<LockPackage>) -> (table: ChecksumTable)
        ensures
            table@ == lock_checksums(packages@),
    {
        let mut table = ChecksumTable::new();
        let mut i: usize = 0;
        while i < packages.len()
            invariant
                0 <= i <= packages.len(),
                table@ == lock_checksums(packages@.take(i as int)),
            decreases packages.len() - i,
        {
            proof {
                assert(packages@.take(i + 1).drop_last() =~= packages@.take(i as int));
            }
            match &packages[i].checksum {
                Some(checksum) => {
                    table.insert(packages[i].name.clone(), &packages[i].version, checksum.clone());
                },
                None => {},
            }
            i += 1;
        }
        proof {
            assert(packages@.take(packages.len() as int) =~= packages@);
        }
        table
    }
}

} // verus!

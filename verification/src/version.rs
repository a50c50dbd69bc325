//! The exact version of a package, as `semver` represents it.

use vstd::prelude::*;

verus! {

/// `semver::Version`, carried through the library without looking inside.
#[verifier::external_type_specification]
#[verifier::external_body]
pub struct ExVersion(semver::Version);

/// The text that `semver` prints for a version, such as `1.2.0-rc.1+build`.
pub uninterp spec fn version_text(version: semver::Version) -> Seq<char>;

/// Calls `semver::Version`'s `Display` through `to_string`. The contract only
/// gives the printed text its name: the same version always prints alike.
#[verifier::external_body]
pub(crate) fn version_to_string(version: &semver::Version) -> (text: String)
    ensures
        text@ == version_text(*version),
{
    version.to_string()
}

/// `semver::Version`'s derived `Clone`, which copies every field: the copy is
/// the version it was made from.
pub assume_specification[ <semver::Version as Clone>::clone ](version: &semver::Version) -> (copy:
    semver::Version)
    ensures
        copy == *version,
;

} // verus!

//! The bill of materials: run metadata and the components, in the order in
//! which they were added.

use vstd::prelude::*;
use chrono::NaiveDateTime;
use crate::bloat::BloatData;
use crate::component::{
    build_components, components_model, components_of, lemma_components_of_graph,
    no_dangling_dependencies, Component,
};
use crate::graph::{DependencyGraph, PackageModel};
use crate::lock::ChecksumTable;
use crate::reach::filtered;

verus! {

/// `chrono::NaiveDateTime`, carried through the library without looking
/// inside.
#[verifier::external_type_specification]
#[verifier::external_body]
pub struct ExNaiveDateTime(chrono::NaiveDateTime);

/// The layout of a bill of materials.
#[derive(Clone, Copy, Debug, PartialEq, Eq, Structural)]
pub enum BomFormat {
    Raw,
    SPDX,
    CDX,
}

/// The encoding of the file that a bill of materials is written to.
#[derive(Clone, Copy, Debug, PartialEq, Eq, Structural)]
pub enum FileFormat {
    Json,
}

/// Who made the bill of materials, and when.
#[derive(Debug, PartialEq, Eq)]
pub struct BomMetadata {
    pub creator: String,
    pub timestamp: NaiveDateTime,
}

impl Clone for BomMetadata {
    fn clone(&self) -> (copy: Self)
        ensures
            copy == *self,
    {
        BomMetadata { creator: self.creator.clone(), timestamp: self.timestamp }
    }
}

/// The bill of materials while it is put together.
#[derive(Debug, PartialEq, Eq)]
pub struct SBOM {
    pub bom_format: BomFormat,
    pub bom_metadata: BomMetadata,
    pub components: Vec<Component>,
}

/// What is written out of a bill of materials: the metadata and the
/// components, without the format.
#[derive(Debug, PartialEq, Eq)]
pub struct Document {
    pub bom_metadata: BomMetadata,
    pub components: Vec<Component>,
}

/// Why a bill of materials cannot be written out.
#[derive(Clone, Copy, Debug, PartialEq, Eq, Structural)]
pub enum SbomError {
    /// Nothing is implemented for this format.
    UnsupportedFormat(BomFormat),
}

/// The creator that every bill of materials names.
pub open spec fn creator_label() -> Seq<char> {
    "ArielOSBOM"@
}

/// A copy of the components.
pub(crate) fn clone_components(components: &Vec<Component>) -> (copy: Vec<Component>)
    ensures
        components_model(copy@) == components_model(components@),
{
    let mut copy: Vec<Component> = Vec::new();
    let mut i: usize = 0;
    while i < components.len()
        invariant
            0 <= i <= components.len(),
            copy.len() == i,
            forall|j: int| 0 <= j < i ==> copy@[j]@ == components@[j]@,
        decreases components.len() - i,
    {
        copy.push(components[i].clone());
        i += 1;
    }
    proof {
        assert(components_model(copy@) =~= components_model(components@));
    }
    copy
}

impl SBOM {
    /// An empty bill of materials of the given format, stamped with the
    /// creator and with the time that the caller read off the clock.
    pub fn new(format: BomFormat, timestamp: NaiveDateTime) -> (sbom: SBOM)
        ensures
            sbom.bom_format == format,
            sbom.bom_metadata.creator@ == creator_label(),
            sbom.bom_metadata.timestamp == timestamp,
            sbom.components@.len() == 0,
    {
        SBOM {
            bom_format: format,
            bom_metadata: BomMetadata { creator: "ArielOSBOM".to_owned(), timestamp },
            components: Vec::new(),
        }
    }

    /// Appends the components, in their order, behind those already there.
    pub fn add_components(&mut self, components: Vec<Component>)
        ensures
            final(self).bom_format == old(self).bom_format,
            final(self).bom_metadata == old(self).bom_metadata,
            final(self).components@ == old(self).components@ + components@,
    {
        let mut components = components;
        self.components.append(&mut components);
    }

    /// Appends one component for each package of the graph, in the graph's
    /// order: the package's own data, the checksum that the table holds for
    /// its name and version as its only identifier, and one dependency for
    /// each of its edges.
    pub fn convert_cargo_metadata_packages_to_components(
        &mut self,
        metadata: &DependencyGraph,
        lockdata: &ChecksumTable,
    )
        ensures
            final(self).bom_format == old(self).bom_format,
            final(self).bom_metadata == old(self).bom_metadata,
            components_model(final(self).components@) == components_model(old(self).components@)
                + components_of(metadata@, lockdata@),
            final(self).components.len() == old(self).components.len() + metadata@.len(),
    {
        let ghost before = self.components@;
        let components = build_components(metadata, lockdata);
        let ghost added = components@;
        self.add_components(components);
        proof {
            assert(components_model(before + added) =~= components_model(before)
                + components_model(added));
        }
    }

    /// The document to write out. Only the raw format has one: for any other
    /// format this fails, and names the format.
    pub fn serialize(&self) -> (written: Result<Document, SbomError>)
        ensures
            match written {
                Ok(document) => self.bom_format == BomFormat::Raw && document.bom_metadata
                    == self.bom_metadata && components_model(document.components@)
                    == components_model(self.components@),
                Err(error) => self.bom_format != BomFormat::Raw && error
                    == SbomError::UnsupportedFormat(self.bom_format),
            },
    {
        match self.bom_format {
            BomFormat::Raw => Ok(
                Document {
                    bom_metadata: self.bom_metadata.clone(),
                    components: clone_components(&self.components),
                },
            ),
            _ => Err(SbomError::UnsupportedFormat(self.bom_format)),
        }
    }
}

/// The packages of a run: those of the filtered graph where the filter is
/// switched on, those of the whole graph where it is not.
pub open spec fn selected(
    bloat_filter: bool,
    metadata: Seq<PackageModel>,
    observed: Set<Seq<char>>,
) -> Seq<PackageModel> {
    if bloat_filter {
        filtered(metadata, observed)
    } else {
        metadata
    }
}

/// Puts a bill of materials together, stamped with the time at which the
/// run began: filters the graph by what was observed, unless the filter is
/// switched off, and makes one component of each package that is left.
pub fn assemble(
    format: BomFormat,
    timestamp: NaiveDateTime,
    bloat_filter: bool,
    observed: &BloatData,
    metadata: DependencyGraph,
    lockdata: &ChecksumTable,
) -> (sbom: SBOM)
    ensures
        sbom.bom_format == format,
        sbom.bom_metadata.creator@ == creator_label(),
        sbom.bom_metadata.timestamp == timestamp,
        components_model(sbom.components@) == components_of(
            selected(bloat_filter, metadata@, observed@),
            lockdata@,
        ),
        sbom.components.len() == selected(bloat_filter, metadata@, observed@).len(),
        no_dangling_dependencies(components_model(sbom.components@)),
{
    let mut sbom = SBOM::new(format, timestamp);
    let graph = if bloat_filter {
        observed.filter_cargo_metadata(metadata)
    } else {
        metadata
    };
    sbom.convert_cargo_metadata_packages_to_components(&graph, lockdata);
    proof {
        use_type_invariant(&graph);
        lemma_components_of_graph(graph@, lockdata@);
        assert(components_model(sbom.components@) =~= components_of(graph@, lockdata@));
    }
    sbom
}

} // verus!

//! Builds a software bill of materials for a Cargo project: the dependency
//! graph is cut down to the crates observed in the compiled binary plus
//! whatever is needed to build them, and each remaining package becomes one
//! component of the document.

pub mod bloat;
pub mod cliarg;
pub mod command;
pub mod component;
mod filter;
pub mod graph;
pub mod laws;
pub mod lock;
pub mod reach;
pub mod sbom;
pub mod version;

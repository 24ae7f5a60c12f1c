//! Bulk seeding engine: renders resource templates into per-entity payloads,
//! plans their dispatch to remote endpoints, tallies upload outcomes, and
//! reconciles the expected entity-ID set against what a registry reports.

pub mod dispatch;
pub mod docker;
pub mod index;
pub mod jsonval;
pub mod order;
pub mod reconcile;
pub mod registry;
pub mod select;
pub mod text;

use vstd::prelude::*;

verus! {

/// The error taxonomy of the library: every fatal condition a phase can
/// report. Per-entity upload failures are not errors of the library; they
/// are outcomes tallied by the dispatcher.
#[derive(Debug, Clone, PartialEq, Eq)]
pub enum SeedError {
    /// The authored-date index text was not a JSON object of strings.
    MalformedIndex,
    /// An entity ID in scope has no authored date in the index.
    MissingAuthoredDate(String),
    /// The registry response was not parseable JSON.
    RegistryUnparseable,
    /// The registry response lacked the expected two-level structure.
    RegistryStructure,
    /// A subject entry's identifier was not a plain string at the known path.
    RegistryIdentifier,
}

} // verus!

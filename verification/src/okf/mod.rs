//! The knowledge-base tool's own rules: identifiers, paths, bodies, hashes,
//! the relation graph and the diagnostics it reports.

pub mod validate;
pub mod body;
pub mod graph;
pub mod diagnostics;
pub mod hash;
pub mod time;
pub mod cli;
pub mod history;
pub mod yaml;
pub mod canonical;
pub mod projection;
pub mod administrative;
pub mod rehash;
pub mod fields;
pub mod registries;
pub mod document;
pub mod relations;
pub mod references;
pub mod sources;
pub mod github;
pub mod contracts;
pub mod serialized;
pub mod edges;
pub mod handoff;
pub mod draft;
pub mod freshness;
pub mod views;
pub mod generated;

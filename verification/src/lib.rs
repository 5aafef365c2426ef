//! sporaxis: an ontology-first OCI bundle assembler.
//!
//! A composition declaration (a closed set of five entity types and six
//! predicates) goes in; the physical outputs of a bundle come out: a
//! multi-stage Dockerfile or a by-digest layer plan, `bundle.yaml`, the s6
//! service tree, the smoke script and `composition.ttl`.

pub mod text;
pub mod ontology;
pub mod error;
pub mod sorting;
pub mod search;
pub mod render;
pub mod ttl;
pub mod invariants;
pub mod compose;

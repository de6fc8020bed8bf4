//! Library persistence and metadata enrichment for a catalog of audio
//! tracks ("beats"), user-defined groupings ("collections"), and the
//! membership links between them.
//!
//! The catalog store keeps three relations — beats, collections and
//! membership — under a well-formedness invariant: unique, monotonically
//! assigned ids, at most one membership row per (collection, beat) pair,
//! and every membership row referencing an existing beat and collection.
//! Every operation is specified over that model; deletions cascade to the
//! membership relation as a store-level guarantee.
//!
//! Derived audio metadata comes from two sources: a duration computed
//! from the container-header parameters the host probes (best-effort,
//! never fatal) and an external analyzer whose result is merged into the
//! stored row by the enrichment step. Both cross into the library as
//! plain values, so every contract holds whatever the host's parsers and
//! analyzers did.

pub mod catalog;
pub mod clock;
pub mod enrich;
pub mod error;
pub mod models;
pub mod probe;
pub mod settings;

//! A provenance ledger: product records with owners and allow-listed actors,
//! an append-only log of tracking events with a per-type index, and paginated
//! queries over that log.

pub mod error;
pub mod validation;
pub mod fields;
pub mod types;
pub mod query;
pub mod model;
pub mod ledger;
pub mod laws;

pub use error::Error;

//! An in-memory relational model of public-transit data: typed record
//! stores with identifier lookup, a relation graph with generic
//! correspondence queries, referential-integrity enforcement, stop-area
//! merging and validity-period restriction.

pub mod collection;
pub mod decimal;
pub mod error;
pub mod fares;
pub mod idxset;
pub mod merge_stop_areas;
pub mod model;
pub mod objects;
pub mod prefix;
pub mod read_utils;
pub mod relations;
pub mod schema;
pub mod transform;
pub mod xml;

pub use error::Error;

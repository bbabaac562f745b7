//! Core engine of a command-line tool for inspecting and bulk-editing
//! collections of columnar tabular files.
//!
//! The library resolves user input specifications into a concrete set of
//! input files, derives the matching output paths under rename policies,
//! and folds per-file structural metadata (schema, row count, byte size)
//! into aggregate summaries used for display and safety checks.
//!
//! All filesystem traversal and footer reading happens outside the library;
//! the functions here take the observed facts as plain values and compute
//! the resolved sets, mappings and summaries from them.

pub mod aggregate;
pub mod errors;
pub mod fileset;
pub mod laws;
pub mod outputs;
pub mod path;
pub mod precheck;
pub mod schema;

pub use aggregate::AggregateSummary;
pub use aggregate::FileMeta;
pub use aggregate::MetaRead;
pub use aggregate::SchemaGroup;
pub use aggregate::SortKey;
pub use errors::TblError;
pub use fileset::FileSet;
pub use fileset::Listing;
pub use outputs::DirPolicy;
pub use outputs::OutputPolicy;
pub use outputs::PathMapping;
pub use path::FilePath;
pub use schema::Column;
pub use schema::FileSchema;

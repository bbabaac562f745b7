//! Failure taxonomy of the core engine.
//!
//! Every error names the specific path, and where relevant the column, it
//! arose from, so that no failure reaches the user without its cause.

use vstd::prelude::*;
use crate::path::FilePath;

verus! {

/// A failure of file-set resolution, output derivation or metadata
/// aggregation.
#[derive(Debug)]
pub enum TblError {
    /// An explicitly given input path does not exist.
    NotFound(FilePath),
    /// No file matched the input specification.
    EmptySet,
    /// The structural metadata of the named file could not be read.
    UnreadableMetadata(FilePath),
    /// The two named inputs would map to the same output path.
    PathCollision(FilePath, FilePath),
    /// The first named path lacks the required column named second.
    MissingColumn(FilePath, String),
}

impl TblError {
    /// A short machine-readable tag for the error kind, for rendering by
    /// the shell around the library.
    pub fn kind(&self) -> (r: &'static str)
        ensures
            r@ == match self {
                TblError::NotFound(_) => "not_found"@,
                TblError::EmptySet => "empty_set"@,
                TblError::UnreadableMetadata(_) => "unreadable_metadata"@,
                TblError::PathCollision(_, _) => "path_collision"@,
                TblError::MissingColumn(_, _) => "missing_column"@,
            },
    {
        match self {
            TblError::NotFound(_) => "not_found",
            TblError::EmptySet => "empty_set",
            TblError::UnreadableMetadata(_) => "unreadable_metadata",
            TblError::PathCollision(_, _) => "path_collision",
            TblError::MissingColumn(_, _) => "missing_column",
        }
    }
}

} // verus!

//! The kinds of errors that give context to a failure.

use vstd::prelude::*;

verus! {

/// What went wrong, in a word.
#[derive(Debug, PartialEq, Eq, Structural, Copy, Clone)]
pub enum ErrorKind {
    InvalidLockfile,
    InvalidManifestFile,
    InvalidSourceUrl,
    InvalidPackageId,
    InvalidConstraint,
    IndexInvalidConfig,
    InvalidIndex,
    NotInIndex,
}

/// The sentence shown for each kind of error.
pub open spec fn error_message(k: ErrorKind) -> Seq<char> {
    match k {
        ErrorKind::InvalidLockfile => "Invalid lockfile."@,
        ErrorKind::InvalidManifestFile => "Invalid manifest file."@,
        ErrorKind::InvalidSourceUrl => "Invalid source url."@,
        ErrorKind::InvalidPackageId => "Invalid package id."@,
        ErrorKind::InvalidConstraint => "Invalid constraint."@,
        ErrorKind::IndexInvalidConfig => "Index is missing a valid `index.toml` file."@,
        ErrorKind::InvalidIndex => "Invalid index structure."@,
        ErrorKind::NotInIndex => "Package doesn't exist in index."@,
    }
}

impl ErrorKind {
    /// The sentence that describes this kind of error.
    pub fn message(&self) -> (r: String)
        ensures
            r@ == error_message(*self),
    {
        match self {
            ErrorKind::InvalidLockfile => String::from_str("Invalid lockfile."),
            ErrorKind::InvalidManifestFile => String::from_str("Invalid manifest file."),
            ErrorKind::InvalidSourceUrl => String::from_str("Invalid source url."),
            ErrorKind::InvalidPackageId => String::from_str("Invalid package id."),
            ErrorKind::InvalidConstraint => String::from_str("Invalid constraint."),
            ErrorKind::IndexInvalidConfig => String::from_str("Index is missing a valid `index.toml` file."),
            ErrorKind::InvalidIndex => String::from_str("Invalid index structure."),
            ErrorKind::NotInIndex => String::from_str("Package doesn't exist in index."),
        }
    }
}

} // verus!

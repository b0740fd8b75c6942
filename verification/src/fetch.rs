//! What retrieving a direct source decides: whether the bytes of an archive match the
//! checksum it is listed with, and what a git source is locked to once checked out.

use vstd::prelude::*;
use sha2::Digest;
use crate::package::Checksum;
use crate::resolution::{str_eq, DirectRes, DirectResV};

verus! {

/// The SHA-256 digest of the bytes, as `sha2` computes it.
pub uninterp spec fn sha256_bytes(data: Seq<u8>) -> Seq<u8>;

/// `sha2::Sha256::digest`: the digest of the bytes, named `sha256_bytes`; SHA-256 digests
/// are 32 bytes long.
#[verifier::external_body]
fn sha256_digest(data: &[u8]) -> (r: Vec<u8>)
    ensures
        r@ == sha256_bytes(data@),
        r@.len() == 32,
{
    sha2::Sha256::digest(data).to_vec()
}

/// The lowercase hexadecimal digit of a number below sixteen.
pub open spec fn hex_digit(n: int) -> char {
    seq!['0', '1', '2', '3', '4', '5', '6', '7', '8', '9', 'a', 'b', 'c', 'd', 'e', 'f'][n]
}

/// The bytes written in lowercase hexadecimal, two digits a byte, the high digit first.
pub open spec fn hex_text(s: Seq<u8>) -> Seq<char>
    decreases s.len(),
{
    if s.len() == 0 {
        seq![]
    } else {
        hex_text(s.drop_last()) + seq![hex_digit((s.last() / 16) as int), hex_digit((s.last() % 16) as int)]
    }
}

/// `hex::encode`: each byte as two lowercase hexadecimal digits, the high one first.
#[verifier::external_body]
fn hex_encode(data: &[u8]) -> (r: String)
    ensures
        r@ == hex_text(data@),
{
    hex::encode(data)
}

/// Whether the bytes of an archive match the checksum it is listed with: it has none, or the
/// checksum's hash is the SHA-256 digest of the bytes in lowercase hexadecimal.
pub fn archive_matches(cksum: &Option<Checksum>, data: &[u8]) -> (r: bool)
    ensures
        r == match cksum {
            None => true,
            Some(c) => c.hash@ == hex_text(sha256_bytes(data@)),
        },
{
    let digest = sha256_digest(data);
    let hash = hex_encode(digest.as_slice());
    match cksum {
        None => true,
        Some(c) => str_eq(c.hash.as_str(), hash.as_str()),
    }
}

/// What a git source comes to be locked to once its checkout stands at `commit`: nothing new
/// where its tag already names that commit, else the same repository at the commit.
pub fn relocked(repo: &str, tag: &str, commit: &str) -> (r: Option<DirectRes>)
    ensures
        match r {
            None => tag@ == commit@,
            Some(d) => tag@ != commit@ && d@ == (DirectResV::Git { repo: repo@, tag: commit@ }),
        },
{
    if str_eq(tag, commit) {
        None
    } else {
        Some(DirectRes::Git { repo: repo.to_string(), tag: commit.to_string() })
    }
}

/// Why a source on disk cannot be used.
#[derive(Debug, PartialEq, Eq, Structural, Clone, Copy)]
pub enum DirSourceError {
    /// Its path is relative: it names no directory by itself.
    RelativePath,
    /// Its directory does not exist.
    Missing,
}

/// Whether a source on disk can be used, given whether its directory exists: its path must be
/// absolute, and the directory must be there.
pub open spec fn dir_source_spec(path: Seq<char>, exists: bool) -> Result<(), DirSourceError> {
    if !crate::paths::path_is_absolute(path) {
        Err(DirSourceError::RelativePath)
    } else if !exists {
        Err(DirSourceError::Missing)
    } else {
        Ok(())
    }
}

pub fn check_dir_source(path: &str, exists: bool) -> (r: Result<(), DirSourceError>)
    ensures
        r == dir_source_spec(path@, exists),
{
    if !crate::paths::is_absolute(path) {
        Err(DirSourceError::RelativePath)
    } else if !exists {
        Err(DirSourceError::Missing)
    } else {
        Ok(())
    }
}

} // verus!

use elba::fetch::{archive_matches, check_dir_source, relocked, DirSourceError};
use elba::package::Checksum;
use elba::resolution::DirectRes;

#[test]
fn archives_match_their_sha256_checksum() {
    let abc = Checksum::from_str("sha256=ba7816bf8f01cfea414140de5dae2223b00361a396177a9cb410ff61f20015ad").unwrap();
    let empty = Checksum::from_str("sha256=e3b0c44298fc1c149afbf4c8996fb92427ae41e4649b934ca495991b7852b855").unwrap();
    assert!(archive_matches(&Some(abc), b"abc"));
    let abc = Checksum::from_str("sha256=ba7816bf8f01cfea414140de5dae2223b00361a396177a9cb410ff61f20015ad").unwrap();
    assert!(!archive_matches(&Some(abc), b"abd"));
    assert!(archive_matches(&Some(empty), b""));
    // The hash is written in lowercase.
    let upper = Checksum::from_str("sha256=BA7816BF8F01CFEA414140DE5DAE2223B00361A396177A9CB410FF61F20015AD").unwrap();
    assert!(!archive_matches(&Some(upper), b"abc"));
    // Without a checksum every archive matches.
    assert!(archive_matches(&None, b"anything"));
}

#[test]
fn git_sources_are_relocked_to_their_commit() {
    assert!(relocked("https://github.com/a/b", "abc123", "abc123").is_none());
    match relocked("https://github.com/a/b", "master", "abc123") {
        Some(DirectRes::Git { repo, tag }) => {
            assert_eq!(repo, "https://github.com/a/b");
            assert_eq!(tag, "abc123");
        }
        _ => panic!("expected a git source"),
    }
}

#[test]
fn a_source_on_disk_needs_an_absolute_existing_directory() {
    assert_eq!(check_dir_source("here/there", true), Err(DirSourceError::RelativePath));
    assert_eq!(check_dir_source("/here/there", false), Err(DirSourceError::Missing));
    assert_eq!(check_dir_source("/here/there", true), Ok(()));
}

use elba::lockfile::{LockedPkg, LockfileToml};
use elba::errors::ErrorKind;
use elba::ids::{split_once, IdError, PackageId, Spec, Summary};
use elba::package::{Checksum, ChecksumFmt, Name, NameError};
use elba::registry::{search, Registry, RegistryError};
use elba::resolution::{DirectRes, IndexRes, Resolution};
use elba::version::Version;

fn v(s: &str) -> Version {
    Version::parse(s).unwrap()
}

fn name(s: &str) -> Name {
    Name::from_str(s).unwrap()
}

#[test]
fn name_keeps_its_form_and_normalizes() {
    let n = name("Ring_Ding/Test-Pkg");
    assert_eq!(n.group(), "Ring_Ding");
    assert_eq!(n.name(), "Test-Pkg");
    assert_eq!(n.as_str(), "Ring_Ding/Test-Pkg");
    assert_eq!(n.as_normalized(), "ring-ding/test-pkg");
    assert_eq!(n.normalized_group(), "ring-ding");
    assert_eq!(n.normalized_name(), "test-pkg");
}

#[test]
fn names_compare_by_normal_form() {
    assert!(name("ring_ding/test").same(&name("Ring-Ding/TEST")));
    assert!(!name("ring/test").same(&name("ring/tests")));
    assert!(name("a/b").copy().same(&name("a/b")));
}

#[test]
fn name_errors() {
    assert_eq!(Name::from_str("a/b/c").unwrap_err(), NameError::NoSeparator);
    assert_eq!(Name::from_str("ab").unwrap_err(), NameError::NoSeparator);
    assert_eq!(Name::from_str("/b").unwrap_err(), NameError::EmptyGroup);
    assert_eq!(Name::from_str("a/").unwrap_err(), NameError::EmptyName);
    assert_eq!(Name::from_str("a b/c").unwrap_err(), NameError::InvalidGroup);
    assert_eq!(Name::from_str("a/c.d").unwrap_err(), NameError::InvalidName);
    assert_eq!(
        Name::new("gr".to_string(), "n!".to_string()).unwrap_err(),
        NameError::InvalidName
    );
    assert!(Name::new("gr".to_string(), "nämé".to_string()).is_ok());
}

#[test]
fn checksums() {
    let c = Checksum::from_str("sha256=abcdef").unwrap();
    assert_eq!(c.fmt, ChecksumFmt::Sha256);
    assert_eq!(c.hash, "abcdef");
    assert_eq!(c.to_text(), "sha256=abcdef");
    assert!(Checksum::from_str("md5=abcdef").is_err());
    assert!(Checksum::from_str("sha256").is_err());
    assert!(ChecksumFmt::from_str("sha256").is_ok());
    assert!(ChecksumFmt::from_str("sha2566").is_err());
}

#[test]
fn direct_sources_parse_and_print() {
    let g = DirectRes::from_str("git+https://github.com/super/cool#v1.0.0").unwrap();
    assert!(g.is_git());
    assert_eq!(g.to_text(), "git+https://github.com/super/cool#v1.0.0");

    let m = DirectRes::from_str("git+https://github.com/super/cool").unwrap();
    assert_eq!(m.to_text(), "git+https://github.com/super/cool#master");
    assert!(m.lowkey_eq(&g));
    assert!(!m.same(&g));

    let d = DirectRes::from_str("dir+/here/there").unwrap();
    assert!(d.is_dir());
    assert_eq!(d.to_text(), "dir+/here/there");
    assert!(d.same(&DirectRes::from_str("dir+/here//there").unwrap()));

    let t = DirectRes::from_str("tar+https://elba.io/pkg.tar#sha256=beef").unwrap();
    assert!(t.is_tar());
    assert_eq!(t.to_text(), "tar+https://elba.io/pkg.tar#sha256=beef");
    let t2 = DirectRes::from_str("tar+file:///tmp/pkg.tar").unwrap();
    assert_eq!(t2.to_text(), "tar+file:///tmp/pkg.tar");
}

#[test]
fn malformed_sources_are_invalid_urls() {
    for s in &["git", "svn+https://a.b/c", "git+not a url", "tar+ftp://a.b/c.tar", ""] {
        assert_eq!(DirectRes::from_str(s).unwrap_err(), ErrorKind::InvalidSourceUrl);
    }
    assert_eq!(IndexRes::from_str("dir+/idx").unwrap_err(), ErrorKind::InvalidSourceUrl);
    assert_eq!(Resolution::from_str("index+svn+x").unwrap_err(), ErrorKind::InvalidSourceUrl);
}

#[test]
fn resolutions_try_direct_then_index() {
    let r = Resolution::from_str("index+dir+/idx").unwrap();
    assert!(r.direct().is_none());
    // An index resolution is no directory, whatever its index is.
    assert!(!r.is_dir());
    assert_eq!(r.to_text(), "index+dir+/idx");
    let d = Resolution::from_str("dir+/idx").unwrap();
    assert!(d.direct().is_some());
    assert!(!d.same(&r));
    assert!(r.same(&r.copy()));
    let i = IndexRes::from_str("index+tar+https://elba.io/pkg").unwrap();
    assert_eq!(i.to_text(), "index+tar+https://elba.io/pkg");
}

#[test]
fn package_ids() {
    let id = PackageId::from_str("terminator/one@index+tar+https://elba.io/pkg").unwrap();
    assert_eq!(id.name().as_str(), "terminator/one");
    assert_eq!(id.to_text(), "terminator/one@index+tar+https://elba.io/pkg");
    let other = PackageId::from_str("Terminator/One@index+tar+https://elba.io/pkg").unwrap();
    assert!(id.same(&other));
    let g1 = PackageId::from_str("a/b@git+https://x.io/r#one").unwrap();
    let g2 = PackageId::from_str("a/b@git+https://x.io/r#two").unwrap();
    assert!(g1.lowkey_eq(&g2));
    assert!(!g1.same(&g2));
    assert_eq!(PackageId::from_str("a/b").unwrap_err(), IdError::MissingResolution);
    assert_eq!(
        PackageId::from_str("ab@dir+/x").unwrap_err(),
        IdError::InvalidName(NameError::NoSeparator)
    );
    assert_eq!(PackageId::from_str("a/b@nope").unwrap_err(), IdError::InvalidResolution);
}

#[test]
fn split_once_at_first() {
    let (a, b) = split_once("a@b@c", '@');
    assert_eq!(a, "a");
    assert_eq!(b.unwrap(), "b@c");
    let (a, b) = split_once("abc", '@');
    assert_eq!(a, "abc");
    assert!(b.is_none());
}

#[test]
fn summaries_print_name_version_and_source() {
    let id = PackageId::from_str("good/package@dir+/here/there").unwrap();
    let s = Summary::new(id, v("1.0.5-alpha.5"));
    assert_eq!(s.to_text(), "good/package 1.0.5-alpha.5 (dir+/here/there)");
    assert_eq!(s.version().to_text(), "1.0.5-alpha.5");
    let s2 = Summary::from_comps(name("x/y"), Resolution::from_str("dir+/p").unwrap(), v("2.0.0"));
    assert_eq!(s2.to_text(), "x/y 2.0.0 (dir+/p)");
}

#[test]
fn specs_match_summaries() {
    let id = PackageId::from_str("good/package@dir+/here").unwrap();
    let s = Summary::new(id, v("1.0.0"));
    assert!(Spec::from_str("good/package").unwrap().matches(&s));
    assert!(Spec::from_str("Good/Package|1.0.0").unwrap().matches(&s));
    assert!(Spec::from_str("good/package@dir+/here|1.0.0").unwrap().matches(&s));
    assert!(!Spec::from_str("good/package|1.0.1").unwrap().matches(&s));
    assert!(!Spec::from_str("good/package@dir+/there").unwrap().matches(&s));
    assert!(Spec::from_name(name("good/package")).matches(&s));
    assert_eq!(Spec::from_str("good/package|x").unwrap_err(), IdError::InvalidVersion);
    assert_eq!(Spec::from_str("good/package@no").unwrap_err(), IdError::InvalidResolution);
}

#[test]
fn registries_need_http() {
    let r = Registry::from_str("https://elba.io").unwrap();
    assert_eq!(r.to_text(), "https://elba.io/");
    assert_eq!(Registry::from_str("ftp://elba.io").unwrap_err(), RegistryError::InvalidScheme);
    assert_eq!(Registry::from_str("elba.io").unwrap_err(), RegistryError::InvalidUrl);
}

#[test]
fn search_lists_hits() {
    let default = DirectRes::from_str("dir+/default").unwrap();
    let pkgs = vec![
        (name("a/one"), v("1.0.0"), IndexRes::from_str("index+dir+/default").unwrap()),
        (name("b/two"), v("0.2.0"), IndexRes::from_str("index+dir+/other").unwrap()),
    ];
    assert_eq!(
        search(&pkgs, &default),
        "\"a/one\" = \"1.0.0\"\"b/two\" = \"{ version = 0.2.0, index = index+dir+/other }\""
    );
    assert_eq!(search(&Vec::new(), &default), "");
}

#[test]
fn error_messages() {
    assert_eq!(ErrorKind::InvalidSourceUrl.message(), "Invalid source url.");
    assert_eq!(ErrorKind::NotInIndex.message(), "Package doesn't exist in index.");
    assert_eq!(
        ErrorKind::IndexInvalidConfig.message(),
        "Index is missing a valid `index.toml` file."
    );
}

#[test]
fn lockfile_graph_shares_equal_packages() {
    let one = || Summary::new(PackageId::from_str("terminator/one@index+tar+https://elba.io/pkg").unwrap(), v("0.1.4"));
    let good = || Summary::new(PackageId::from_str("good/package@dir+/here/there").unwrap(), v("1.0.5-alpha.5-zeta.15"));
    let lock = LockfileToml {
        packages: vec![
            LockedPkg { sum: one(), dependencies: vec![] },
            LockedPkg { sum: good(), dependencies: vec![one()] },
        ],
    };
    let g = lock.graph();
    assert_eq!(g.nodes.len(), 2);
    assert_eq!(g.nodes[0].to_text(), "terminator/one 0.1.4 (index+tar+https://elba.io/pkg)");
    assert_eq!(g.edges, vec![(1, 0)]);
}

#[test]
fn names_and_checksums_read_back() {
    for g in &["Ring_Ding", "a", "x-y_z9"] {
        for n in &["Test-Pkg", "b", "Q_1"] {
            let made = Name::new(g.to_string(), n.to_string()).unwrap();
            let back = Name::from_str(made.as_str()).unwrap();
            assert_eq!(back.group(), *g);
            assert_eq!(back.name(), *n);
        }
    }
    for h in &["abcdef", "", "a=b"] {
        let c = Checksum::from_str(&format!("sha256={}", h)).unwrap();
        let back = Checksum::from_str(&c.to_text()).unwrap();
        assert_eq!(back.hash, c.hash);
        assert_eq!(back.hash, *h);
    }
}

#[test]
fn a_solve_finds_its_nodes_and_versions() {
    let one = || Summary::new(PackageId::from_str("terminator/one@index+tar+https://elba.io/pkg").unwrap(), v("0.1.4"));
    let good = || Summary::new(PackageId::from_str("good/package@dir+/here/there").unwrap(), v("1.0.5"));
    let lock = LockfileToml {
        packages: vec![
            LockedPkg { sum: good(), dependencies: vec![one()] },
            LockedPkg { sum: one(), dependencies: vec![] },
        ],
    };
    let g = lock.graph();
    assert_eq!(g.find_node(&one()), Some(1));
    assert_eq!(g.find_node(&good()), Some(0));
    let other = Summary::new(PackageId::from_str("good/package@dir+/here/there").unwrap(), v("2.0.0"));
    assert_eq!(g.find_node(&other), None);
    let id = PackageId::from_str("terminator/one@index+tar+https://elba.io/pkg").unwrap();
    assert_eq!(g.get_pkg_version(&id).unwrap().to_text(), "0.1.4");
    let missing = PackageId::from_str("no/such@dir+/x").unwrap();
    assert!(g.get_pkg_version(&missing).is_none());
}

#[test]
fn a_name_reads_back_from_its_text() {
    let n = Name::new("Good".to_string(), "package-1".to_string()).unwrap();
    assert_eq!(n.as_str(), "Good/package-1");
    let back = Name::from_str(n.as_str()).unwrap();
    assert!(back.same(&n));
    assert_eq!(back.as_str(), n.as_str());
}

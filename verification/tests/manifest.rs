use elba::constraint::Constraint;
use elba::ids::PackageId;
use elba::ipkg::Ipkg;
use elba::manifest::{
    default_bin_subpath, default_lib_subpath, default_tag, default_test_subpath, sub_path,
    BinTarget, ConvertError, DepError, DepReq, LibTarget, Manifest, ManifestError,
    ManifestTargets, PackageInfo, TestTarget,
};
use elba::package::{Name, NameError};
use elba::resolution::IndexRes;
use elba::version::Version;

fn name(s: &str) -> Name {
    Name::from_str(s).unwrap()
}

fn info(description: Option<&str>, license: Option<&str>, keywords: &[&str]) -> PackageInfo {
    PackageInfo {
        name: name("ring_ding/test"),
        version: Version::parse("1.0.0").unwrap(),
        authors: vec!["me".to_string()],
        description: description.map(|s| s.to_string()),
        keywords: keywords.iter().map(|s| s.to_string()).collect(),
        homepage: None,
        repository: None,
        readme: None,
        license: license.map(|s| s.to_string()),
        exclude: None,
    }
}

fn ixmap() -> Vec<(String, IndexRes)> {
    vec![
        ("default".to_string(), IndexRes::from_str("index+dir+/default").unwrap()),
        ("other".to_string(), IndexRes::from_str("index+dir+/other").unwrap()),
    ]
}

fn manifest(deps: Vec<(Name, DepReq)>, dev: Vec<(Name, DepReq)>) -> Manifest {
    Manifest {
        package: info(None, None, &[]),
        dependencies: deps,
        dev_dependencies: dev,
        targets: ManifestTargets { lib: None, bin: vec![], test: vec![] },
        workspace: vec![],
        scripts: vec![],
    }
}

#[test]
fn defaults() {
    assert_eq!(default_tag(), "master");
    assert_eq!(default_lib_subpath(), "src");
    assert_eq!(default_bin_subpath(), "src");
    assert_eq!(default_test_subpath(), "tests");
}

#[test]
fn package_info_checks() {
    assert_eq!(info(Some("The best package ever released"), Some("MIT"), &["package-manager", "packaging"]).validate(), Ok(()));
    let long = "x".repeat(245);
    assert_eq!(info(Some(&long), None, &[]).validate(), Err(ManifestError::DescriptionTooLong));
    assert_eq!(info(Some(&"x".repeat(244)), None, &[]).validate(), Ok(()));
    // The limits count bytes, not characters.
    assert_eq!(info(None, Some("ééééééééééé"), &[]).validate(), Err(ManifestError::LicenseTooLong));
    assert_eq!(info(None, Some("abcdefghijklmnopqrst"), &[]).validate(), Ok(()));
    assert_eq!(info(None, None, &["a", "b", "c", "d", "e", "f"]).validate(), Err(ManifestError::TooManyKeywords));
    assert_eq!(info(None, None, &["a", "  "]).validate(), Err(ManifestError::EmptyKeyword));
    assert_eq!(info(None, None, &["a", " two words "]).validate(), Err(ManifestError::KeywordWhitespace));
    assert_eq!(info(None, None, &[" one "]).validate(), Ok(()));
}

#[test]
fn paths_must_stay_inside_the_package() {
    assert!(sub_path(&"src/lib/".to_string()).is_ok());
    assert_eq!(sub_path(&"../oops".to_string()), Err(ConvertError::InvalidPath));
    assert_eq!(sub_path(&"/abs".to_string()), Err(ConvertError::InvalidPath));
    assert_eq!(sub_path(&"a/../b".to_string()), Err(ConvertError::InvalidPath));
}

#[test]
fn test_targets_get_a_default_name() {
    let t = TestTarget { name: None, path: "tests".to_string(), main: "src/Foo.idr".to_string(), idris_opts: vec![] };
    let b = BinTarget::from_test(t);
    assert_eq!(b.name, "test-src_Foo");
    assert_eq!(b.path, "tests");
    assert_eq!(b.main, "src/Foo.idr");
    let t = TestTarget { name: None, path: "tests".to_string(), main: "Test.Main.lidr".to_string(), idris_opts: vec![] };
    assert_eq!(BinTarget::from_test(t).name, "test-Test_Main");
    let t = TestTarget { name: Some("mine".to_string()), path: "t".to_string(), main: "M".to_string(), idris_opts: vec!["-q".to_string()] };
    let b = BinTarget::from_test(t);
    assert_eq!(b.name, "mine");
    assert_eq!(b.idris_opts, vec!["-q".to_string()]);
}

#[test]
fn dependency_requirements() {
    let parent = PackageId::from_str("me/root@dir+/home/me/root").unwrap();
    let c = Constraint::from_str(">= 1.0.0 < 2.0.0").unwrap();

    let (p, k) = DepReq::Registry(c.copy()).into_dep(&ixmap(), &parent, name("awesome/a")).unwrap();
    assert_eq!(p.to_text(), "awesome/a@index+dir+/default");
    assert!(k.same(&c));
    assert_eq!(DepReq::Registry(c.copy()).into_dep(&vec![], &parent, name("awesome/a")).unwrap_err(), DepError::NoDefaultIndex);

    let r = DepReq::RegLong { version: c.copy(), index: "other".to_string() };
    assert_eq!(r.into_dep(&ixmap(), &parent, name("a/b")).unwrap().0.to_text(), "a/b@index+dir+/other");
    let r = DepReq::RegLong { version: c.copy(), index: "index+dir+/third".to_string() };
    assert_eq!(r.into_dep(&ixmap(), &parent, name("a/b")).unwrap().0.to_text(), "a/b@index+dir+/third");
    let r = DepReq::RegLong { version: c.copy(), index: "nowhere".to_string() };
    assert_eq!(r.into_dep(&ixmap(), &parent, name("a/b")).unwrap_err(), DepError::InvalidIndex);

    let r = DepReq::Local { path: "here/right/now".to_string() };
    let (p, k) = r.into_dep(&ixmap(), &parent, name("great/c")).unwrap();
    assert_eq!(p.to_text(), "great/c@dir+/home/me/root/here/right/now");
    assert!(k.same(&Constraint::any()));
    let indexed = PackageId::from_str("me/root@index+dir+/default").unwrap();
    let r = DepReq::Local { path: "x".to_string() };
    assert_eq!(r.into_dep(&ixmap(), &indexed, name("great/c")).unwrap_err(), DepError::NonLocalParent);

    let r = DepReq::Git { git: "https://github.com/super/cool".to_string(), tag: "v1.0.0".to_string() };
    let (p, _) = r.into_dep(&ixmap(), &parent, name("cool/b")).unwrap();
    assert_eq!(p.to_text(), "cool/b@git+https://github.com/super/cool#v1.0.0");
}

#[test]
fn manifest_deps_keep_first_place_and_last_constraint() {
    let parent = PackageId::from_str("me/root@dir+/root").unwrap();
    let c1 = Constraint::from_str(">= 1.0.0 < 2.0.0").unwrap();
    let c2 = Constraint::from_str(">= 2.0.0 < 3.0.0").unwrap();
    let m = manifest(
        vec![
            (name("a/x"), DepReq::Registry(c1.copy())),
            (name("b/y"), DepReq::Registry(c1.copy())),
        ],
        vec![(name("A/X"), DepReq::Registry(c2.copy()))],
    );
    let plain = m.deps(&ixmap(), &parent, false).unwrap();
    assert_eq!(plain.len(), 2);
    let all = m.deps(&ixmap(), &parent, true).unwrap();
    assert_eq!(all.len(), 2);
    assert_eq!(all[0].0.name().as_str(), "A/X");
    assert!(all[0].1.same(&c2));
    assert_eq!(all[1].0.name().as_str(), "b/y");
    let bad = manifest(vec![(name("a/x"), DepReq::Local { path: "p".to_string() })], vec![]);
    let indexed = PackageId::from_str("me/root@index+dir+/default").unwrap();
    assert_eq!(bad.deps(&ixmap(), &indexed, false).unwrap_err(), DepError::NonLocalParent);
}

#[test]
fn binary_main_candidates() {
    let b = BinTarget { name: "bin1".to_string(), path: "src".to_string(), main: "src/bin/Here".to_string(), idris_opts: vec![] };
    let cs = b.bin_candidates("/pkg");
    let files: Vec<&str> = cs.iter().map(|c| c.file.as_str()).collect();
    assert_eq!(files, vec!["/pkg/src/bin/Here.idr", "/pkg/src/bin/Here.lidr", "/pkg/src/src/bin/Here.idr", "/pkg/src/src/bin/Here.lidr"]);
    assert_eq!(cs[0].found, Some(("/pkg/src/bin".to_string(), "Here.idr".to_string())));
    assert_eq!(cs[3].found, Some(("/pkg/src".to_string(), "src/bin/Here.lidr".to_string())));
    let found = BinTarget::resolve_bin(&cs, &vec![false, true, true, false]);
    assert_eq!(found, Some(("/pkg/src/bin".to_string(), "Here.lidr".to_string())));
    assert_eq!(BinTarget::resolve_bin(&cs, &vec![false, false, false, false]), None);
}

#[test]
fn binary_main_from_module_name() {
    let b = BinTarget { name: "b".to_string(), path: "src".to_string(), main: "Control.Monad.Main".to_string(), idris_opts: vec![] };
    let cs = b.bin_candidates("/pkg");
    let files: Vec<&str> = cs.iter().map(|c| c.file.as_str()).collect();
    assert_eq!(
        files,
        vec![
            "/pkg/Control.Monad.idr",
            "/pkg/Control.Monad.lidr",
            "/pkg/src/Control/Monad/Main.idr",
            "/pkg/src/Control/Monad/Main.lidr",
            "/pkg/src/Control/Monad.idr",
            "/pkg/src/Control/Monad.lidr",
        ]
    );
    let found = BinTarget::resolve_bin(&cs, &vec![false, false, false, false, true, true]);
    assert_eq!(found, Some(("/pkg/src".to_string(), "Control/Monad.Main".to_string())));
    let found = BinTarget::resolve_bin(&cs, &vec![false, false, true, false, true, true]);
    assert_eq!(found, Some(("/pkg/src".to_string(), "Control/Monad/Main.idr".to_string())));
    // A main path that leaves the package is only looked up as a module name.
    let b = BinTarget { name: "b".to_string(), path: "src".to_string(), main: "../Main".to_string(), idris_opts: vec![] };
    assert_eq!(b.bin_candidates("/pkg").len(), 2);
}

#[test]
fn manifest_from_ipkg() {
    let input = "package maths\nsourcedir = src\npkgs = contrib, effects\nopts = \"--quiet\"\nmodules = A, B.C\nmain = Test.Main\ntests = T.one, T.two\nmakefile = build.mk\nauthor = me\n";
    let d = Ipkg::from_str(input).unwrap();
    let m = Manifest::from_ipkg(d).unwrap();
    assert_eq!(m.name().as_str(), "legacy/maths");
    assert_eq!(m.version().to_text(), "0.0.0");
    assert_eq!(m.package.authors, vec!["me".to_string()]);
    let opts = vec!["-p".to_string(), "contrib".to_string(), "-p".to_string(), "effects".to_string(), "--quiet".to_string()];
    let lib = m.targets.lib.as_ref().unwrap();
    assert_eq!(lib.path, "src");
    assert_eq!(lib.mods, vec!["A".to_string(), "B.C".to_string()]);
    assert_eq!(lib.idris_opts, opts);
    assert_eq!(m.targets.bin.len(), 1);
    assert_eq!(m.targets.bin[0].name, "Main");
    assert_eq!(m.targets.bin[0].main, "Test.Main");
    assert_eq!(m.targets.test.len(), 2);
    assert_eq!(m.targets.test[1].main, "T.two");
    assert!(m.targets.test[1].name.is_none());
    assert_eq!(m.scripts, vec![("prebuild".to_string(), "make -f build.mk".to_string())]);

    let back = m.to_ipkg().unwrap();
    assert_eq!(back.name, "maths");
    assert_eq!(back.sourcedir, "src");
    assert_eq!(back.opts, opts);
    assert_eq!(back.modules, vec!["A".to_string(), "B.C".to_string()]);
    assert_eq!(back.main, Some("Test.Main".to_string()));
    assert_eq!(back.executable, Some("Main".to_string()));
    assert_eq!(back.tests, vec!["T.one".to_string(), "T.two".to_string()]);
    assert_eq!(back.version, Some("0.0.0".to_string()));
    assert_eq!(back.author, Some("me".to_string()));
    assert_eq!(back.maintainer, None);
}

#[test]
fn ipkg_conversion_errors() {
    let mut d = Ipkg::empty();
    d.name = "bad.name".to_string();
    assert_eq!(Manifest::from_ipkg(d).unwrap_err(), ConvertError::InvalidName(NameError::InvalidName));
    let d = Ipkg::from_str("package ok\nsourcedir = \"../src\"\nmodules = A\n").unwrap();
    assert_eq!(Manifest::from_ipkg(d).unwrap_err(), ConvertError::InvalidPath);
    // Without targets the source directory is not used.
    let d = Ipkg::from_str("package ok\nsourcedir = \"../src\"\n").unwrap();
    assert!(Manifest::from_ipkg(d).is_ok());
    let d = Ipkg::from_str("package ok\nsourcedir = src\nreadme = \"/etc/readme\"\n").unwrap();
    assert_eq!(Manifest::from_ipkg(d).unwrap_err(), ConvertError::InvalidPath);

    let m = manifest(vec![], vec![]);
    assert_eq!(m.to_ipkg().unwrap_err(), ConvertError::NoLibTarget);
    let mut m = manifest(vec![], vec![]);
    m.targets.lib = Some(LibTarget { path: "src".to_string(), mods: vec!["A".to_string()], idris_opts: vec![] });
    m.targets.bin.push(BinTarget { name: "b".to_string(), path: "bin".to_string(), main: "Main".to_string(), idris_opts: vec![] });
    assert_eq!(m.to_ipkg().unwrap_err(), ConvertError::AmbiguousSourcePath);
    m.targets.bin[0].path = "src/".to_string();
    assert!(m.to_ipkg().is_ok());
}

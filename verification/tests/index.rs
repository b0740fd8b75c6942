use elba::constraint::Constraint;
use elba::ids::Spec;
use elba::index::{sort_entries, Dep, Index, IndexConfInner, IndexConfig, IndexEntry, IndexError, Indices, TomlEntry};
use elba::package::Name;
use elba::resolution::{DirectRes, IndexRes};
use elba::version::Version;

fn ir(s: &str) -> IndexRes {
    IndexRes::from_str(s).unwrap()
}

fn index(id: &str) -> Index {
    Index {
        id: ir(id),
        config: IndexConfig {
            index: IndexConfInner { secure: false, dependencies: vec![("other".to_string(), ir("index+dir+/other"))] },
        },
    }
}

fn entry(ver: &str, yanked: bool, deps: Vec<(&str, Option<&str>)>) -> TomlEntry {
    IndexEntry {
        name: Name::from_str("a/pkg").unwrap(),
        version: Version::parse(ver).unwrap(),
        dependencies: deps
            .into_iter()
            .map(|(n, ix)| Dep {
                name: Name::from_str(n).unwrap(),
                index: ix.map(|s| s.to_string()),
                req: Constraint::from_str(">= 1.0.0").unwrap(),
            })
            .collect(),
        yanked,
        location: DirectRes::from_str("dir+/pkgs/a").unwrap(),
    }
}

#[test]
fn entries_resolve_dependency_indices() {
    let ix = index("index+dir+/main");
    let raw = vec![entry("1.0.0", false, vec![("b/x", Some("other")), ("c/y", None), ("d/z", Some("unknown"))])];
    let es = ix.entries(&raw);
    assert_eq!(es.len(), 1);
    let deps = &es[0].dependencies;
    assert_eq!(deps[0].index.to_text(), "index+dir+/other");
    assert_eq!(deps[1].index.to_text(), "index+dir+/main");
    assert_eq!(deps[2].index.to_text(), "index+dir+/main");
    assert_eq!(deps[0].name.as_str(), "b/x");
}

#[test]
fn a_later_entry_of_a_version_replaces_the_earlier() {
    let ix = index("index+dir+/main");
    let raw = vec![
        entry("1.0.0", false, vec![]),
        entry("2.0.0", false, vec![]),
        entry("1.0.0+build", true, vec![]),
    ];
    let es = ix.entries(&raw);
    assert_eq!(es.len(), 2);
    assert!(es[0].yanked);
    assert_eq!(es[1].version.to_text(), "2.0.0");
}

#[test]
fn entries_sort_by_version() {
    let ix = index("index+dir+/main");
    let raw = vec![entry("2.0.0", false, vec![]), entry("1.0.0-alpha", false, vec![]), entry("1.0.0", false, vec![])];
    let sorted = sort_entries(ix.entries(&raw));
    let vs: Vec<String> = sorted.iter().map(|e| e.version.to_text()).collect();
    assert_eq!(vs, vec!["1.0.0-alpha".to_string(), "1.0.0".to_string(), "2.0.0".to_string()]);
}

#[test]
fn indices_keep_one_index_per_source() {
    let is = Indices::new(vec![index("index+dir+/main"), index("index+dir+/two"), index("index+dir+/main")]);
    assert_eq!(is.len(), 2);
    assert_eq!(is.index(0).id.to_text(), "index+dir+/main");
    let pkg = elba::ids::PackageId::from_str("a/pkg@index+dir+/two").unwrap();
    assert_eq!(is.index_of(&pkg), Ok(1));
    let other = elba::ids::PackageId::from_str("a/pkg@index+dir+/none").unwrap();
    assert_eq!(is.index_of(&other), Err(IndexError::PackageNotFound));
    let direct = elba::ids::PackageId::from_str("a/pkg@dir+/two").unwrap();
    assert_eq!(is.index_of(&direct), Err(IndexError::PackageNotFound));
}

#[test]
fn specs_select_the_last_entry_that_is_not_yanked() {
    let main = index("index+dir+/main");
    let two = index("index+dir+/two");
    let per_index = vec![
        Some(main.entries(&vec![entry("1.0.0", false, vec![]), entry("1.1.0", true, vec![])])),
        Some(two.entries(&vec![entry("3.0.0", false, vec![])])),
    ];
    let is = Indices::new(vec![main, two]);
    let s = is.select_by_spec(&Spec::from_str("a/pkg").unwrap(), &per_index).unwrap();
    assert_eq!(s.to_text(), "a/pkg 1.0.0 (index+dir+/main)");
    let s = is.select_by_spec(&Spec::from_str("a/pkg@index+dir+/two").unwrap(), &per_index).unwrap();
    assert_eq!(s.to_text(), "a/pkg 3.0.0 (index+dir+/two)");
    let s = is.select_by_spec(&Spec::from_str("a/pkg|3.0.0").unwrap(), &per_index).unwrap();
    assert_eq!(s.version().to_text(), "3.0.0");
    assert_eq!(is.select_by_spec(&Spec::from_str("a/pkg|1.1.0").unwrap(), &per_index).unwrap_err(), IndexError::PackageNotFound);
    assert_eq!(is.select_by_spec(&Spec::from_str("a/pkg").unwrap(), &vec![None, None]).unwrap_err(), IndexError::PackageNotFound);
}

use elba::constraint::Constraint;
use elba::interval::{Interval, Range};
use elba::ids::PackageId;
use elba::resolution::Resolution;
use elba::retriever::{IndexEntry, Retriever};
use elba::solver::Resolver;
use elba::version::Version;

fn pid(name: &str) -> PackageId {
    PackageId::from_str(&format!("{}@index+dir+/idx", name)).unwrap()
}

fn v(s: &str) -> Version {
    Version::parse(s).unwrap()
}

fn c(s: &str) -> Constraint {
    Constraint::from_str(s).unwrap()
}

fn entry(ver: &str, deps: Vec<(usize, &str)>) -> IndexEntry {
    IndexEntry {
        version: v(ver),
        deps: deps.into_iter().map(|(p, s)| (p, c(s))).collect(),
    }
}

/// Packages: 0 is the root, 1 is `a`, 2 is `b`. The root is found, like every package,
/// through the indices.
fn table() -> Vec<PackageId> {
    vec![pid("me/root"), pid("me/a"), pid("me/b")]
}

#[test]
fn resolver_picks_greatest_fitting_versions() {
    let entries = vec![
        Some(vec![entry("0.1.0", vec![])]),
        Some(vec![
            entry("1.0.0", vec![]),
            entry("1.1.0", vec![(2, "1")]),
            entry("2.0.0", vec![]),
        ]),
        Some(vec![entry("1.0.0", vec![]), entry("1.2.0", vec![])]),
    ];
    let r = Retriever::new(
        table(),
        0,
        v("0.1.0"),
        vec![(1, c("1"))],
        entries,
        vec![None, None, None],
    )
    .unwrap();
    let mut res = Resolver::new(r);
    let sol = res.solve().unwrap();
    let mut got: Vec<(usize, String)> = sol
        .nodes
        .iter()
        .map(|(p, ver)| (*p, ver.to_text()))
        .collect();
    assert_eq!(got[0], (0, "0.1.0".to_string()));
    got.sort();
    assert_eq!(
        got,
        vec![
            (0, "0.1.0".to_string()),
            (1, "1.1.0".to_string()),
            (2, "1.2.0".to_string())
        ]
    );
    assert_eq!(sol.edges.len(), 2);
}

#[test]
fn resolver_prefers_locked_version() {
    let entries = vec![
        Some(vec![entry("0.1.0", vec![])]),
        Some(vec![entry("1.0.0", vec![]), entry("1.5.0", vec![])]),
        None,
    ];
    let r = Retriever::new(
        table(),
        0,
        v("0.1.0"),
        vec![(1, c("1"))],
        entries,
        vec![None, Some(v("1.0.0")), None],
    )
    .unwrap();
    let mut res = Resolver::new(r);
    let sol = res.solve().unwrap();
    let a = sol.nodes.iter().find(|(p, _)| *p == 1).unwrap();
    assert_eq!(a.1.to_text(), "1.0.0");
}

#[test]
fn resolver_reports_unavailable_dependency() {
    let entries = vec![
        Some(vec![entry("0.1.0", vec![])]),
        Some(vec![entry("2.0.0", vec![])]),
        None,
    ];
    let r = Retriever::new(
        table(),
        0,
        v("0.1.0"),
        vec![(1, c("1"))],
        entries,
        vec![None, None, None],
    )
    .unwrap();
    let mut res = Resolver::new(r);
    let err = match res.solve() {
        Ok(_) => panic!("resolution should fail"),
        Err(e) => e,
    };
    assert!(err.ends_with("Thus, version solving has failed.\n"), "{}", err);
    assert!(err.starts_with("Because me/a@index+dir+/idx >=1.0.0 <2.0.0 is unavailable and me/root@index+dir+/idx >=0.1.0 <=0.1.0 depends on me/a@index+dir+/idx >=1.0.0 <2.0.0, "), "{}", err);
    assert!(err.contains(" is impossible."), "{}", err);
}

#[test]
fn resolver_fails_without_the_root() {
    // The root is not found: resolution fails with no derivation to explain.
    let r = Retriever::new(
        table(),
        0,
        v("0.1.0"),
        vec![],
        vec![None, None, None],
        vec![None, None, None],
    )
    .unwrap();
    let mut res = Resolver::new(r);
    match res.solve() {
        Ok(_) => panic!("resolution should fail"),
        Err(e) => assert_eq!(e, "version solving failed"),
    }
}

#[test]
fn retriever_refuses_bad_tables() {
    // A dependency on a package outside the table.
    assert!(Retriever::new(
        table(),
        0,
        v("0.1.0"),
        vec![(7, c("1"))],
        vec![None, None, None],
        vec![None, None, None],
    )
    .is_none());
    // Versions out of order.
    assert!(Retriever::new(
        table(),
        0,
        v("0.1.0"),
        vec![],
        vec![
            None,
            Some(vec![entry("2.0.0", vec![]), entry("1.0.0", vec![])]),
            None
        ],
        vec![None, None, None],
    )
    .is_none());
}

#[test]
fn retriever_best_and_count() {
    let entries = vec![
        None,
        Some(vec![
            entry("1.0.0", vec![]),
            entry("1.1.0-alpha.1", vec![]),
            entry("1.1.0", vec![]),
        ]),
        None,
    ];
    let mut r = Retriever::new(
        table(),
        0,
        v("0.1.0"),
        vec![],
        entries,
        vec![None, None, None],
    )
    .unwrap();
    assert_eq!(r.count_versions(1), 0);
    assert_eq!(r.best(1, &c("1"), false).unwrap().to_text(), "1.1.0");
    assert_eq!(r.count_versions(1), 3);
    assert_eq!(r.best(1, &c("1"), true).unwrap().to_text(), "1.0.0");
    assert!(r.best(2, &c("1"), false).is_err());
    let _ = Resolution::from_str("dir+/x").unwrap();
}

#[test]
fn the_best_version_fits_the_constraint() {
    let entries = vec![
        None,
        Some(vec![
            entry("1.0.0", vec![]),
            entry("1.1.0-alpha.1", vec![]),
            entry("1.1.0", vec![]),
            entry("2.0.0-beta.1", vec![]),
        ]),
        None,
    ];
    let mut r = Retriever::new(
        table(),
        0,
        v("0.1.0"),
        vec![],
        entries,
        vec![None, Some(v("1.0.0")), None],
    )
    .unwrap();
    // The pinned version wins where it fits.
    assert_eq!(r.best(1, &c(">= 1.0.0 < 2.0.0"), false).unwrap().to_text(), "1.0.0");
    // Elsewhere a fitting release, and a pre-release only where no release fits.
    let pre = Range::new(Interval::Closed(v("1.1.0-alpha.1"), false), Interval::Closed(v("1.1.0"), false)).unwrap();
    assert_eq!(r.best(1, &Constraint::from_range(pre), false).unwrap().to_text(), "1.1.0");
    // Range text holds release versions only: a pre-release in it is left over, and refused.
    assert!(Constraint::from_str(">= 1.1.0-alpha.1 <= 1.1.0").is_err());
    assert_eq!(r.best(1, &c(">= 1.5.0 <= 2.0.0"), false).unwrap().to_text(), "2.0.0-beta.1");
    assert!(r.best(1, &c(">= 3.0.0"), false).is_err());
}

#[test]
fn solution_edges_follow_the_dependencies() {
    let entries = vec![
        Some(vec![entry("0.1.0", vec![])]),
        Some(vec![entry("1.0.0", vec![(2, ">= 1.0.0")]), entry("1.3.0", vec![(2, ">= 1.1.0")])]),
        Some(vec![entry("1.0.0", vec![]), entry("1.1.0", vec![]), entry("1.4.0", vec![])]),
    ];
    let r = Retriever::new(
        table(),
        0,
        v("0.1.0"),
        vec![(1, c("1")), (2, c(">= 1.0.0 < 2.0.0"))],
        entries,
        vec![None, None, None],
    )
    .unwrap();
    let mut res = Resolver::new(r);
    let sol = res.solve().unwrap();
    let edges: Vec<(usize, usize)> = sol
        .edges
        .iter()
        .map(|(i, j)| (sol.nodes[*i].0, sol.nodes[*j].0))
        .collect();
    // The root depends on `a` and `b`, and `a` on `b`: one edge each.
    assert_eq!(edges.len(), 3);
    assert!(edges.contains(&(0, 1)));
    assert!(edges.contains(&(0, 2)));
    assert!(edges.contains(&(1, 2)));
    let b = sol.nodes.iter().find(|(p, _)| *p == 2).unwrap();
    assert_eq!(b.1.to_text(), "1.4.0");
}

#[test]
fn dependency_incompatibilities_cover_the_versions_sharing_the_dependency() {
    let entries = vec![
        Some(vec![entry("0.1.0", vec![])]),
        Some(vec![
            entry("1.0.0", vec![(2, "1.5")]),
            entry("1.1.0", vec![(2, "1")]),
            entry("2.0.0", vec![(2, "2")]),
        ]),
        Some(vec![entry("1.0.0", vec![]), entry("1.6.0", vec![])]),
    ];
    let mut r = Retriever::new(table(), 0, v("0.1.0"), vec![], entries, vec![None, None, None]).unwrap();
    let is = r.incompats(1, &v("1.1.0")).unwrap();
    assert_eq!(is.len(), 1);
    assert_eq!(is[0].deps[0].0, 1);
    assert_eq!(is[0].deps[0].1.to_text(), ">=1.0.0 <=1.1.0");
    assert!(!is[0].deps[0].1.satisfies(&v("2.0.0")));
    assert_eq!(is[0].deps[1].0, 2);
    assert_eq!(is[0].deps[1].1.to_text(), "<!1.0.0, >=!2.0.0");

    let alike = vec![
        Some(vec![entry("0.1.0", vec![])]),
        Some(vec![entry("1.0.0", vec![(2, "1")]), entry("1.1.0", vec![(2, "1")])]),
        Some(vec![entry("1.0.0", vec![])]),
    ];
    let mut r = Retriever::new(table(), 0, v("0.1.0"), vec![], alike, vec![None, None, None]).unwrap();
    let is = r.incompats(1, &v("1.0.0")).unwrap();
    assert_eq!(is[0].deps[0].1.to_text(), "any");
}

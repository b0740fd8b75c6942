use elba::constraint::{Constraint, Relation};
use elba::interval::{Interval, Range};
use elba::syntax::bare_version;
use elba::version::Version;

fn v(s: &str) -> Version {
    Version::parse(s).unwrap()
}

/// `[a, b)`
fn closed_open(a: &str, b: &str) -> Range {
    Range::new(Interval::Closed(v(a), false), Interval::Open(v(b), false)).unwrap()
}

/// `(a, b]`
fn open_closed(a: &str, b: &str) -> Range {
    Range::new(Interval::Open(v(a), false), Interval::Closed(v(b), false)).unwrap()
}

/// `[a, b]`
fn closed_closed(a: &str, b: &str) -> Range {
    Range::new(Interval::Closed(v(a), false), Interval::Closed(v(b), false)).unwrap()
}

fn same_ranges(a: &[Range], b: &[Range]) -> bool {
    a.len() == b.len() && a.iter().zip(b.iter()).all(|(x, y)| x.same(y))
}

fn range(s: &str) -> Range {
    Range::from_str(s).unwrap()
}

fn constraint(s: &str) -> Constraint {
    Constraint::from_str(s).unwrap()
}

#[test]
fn version_parse() {
    let vs = vec![
        "1",
        "1.0",
        "1.0.0",
        "1.0.0-alpha.1",
        "1.0.0+b1231231",
        "1.0.0-alpha.1+b1231231",
    ];

    for s in vs {
        assert!(bare_version(s).is_some());
    }
}

#[test]
fn range_parse_caret() {
    let vs = vec!["1", "1.4", "1.4.3", "0", "0.2", "0.2.3", "0.0.2"]
        .into_iter()
        .map(|s| range(s))
        .collect::<Vec<_>>();

    let ns = vec![
        closed_open("1.0.0", "2.0.0"),
        closed_open("1.4.0", "2.0.0"),
        closed_open("1.4.3", "2.0.0"),
        closed_open("0.0.0", "1.0.0"),
        closed_open("0.2.0", "0.3.0"),
        closed_open("0.2.3", "0.3.0"),
        closed_open("0.0.2", "0.0.3"),
    ];

    assert!(same_ranges(&ns, &vs));
}

#[test]
fn range_parse_tilde() {
    let vs = vec!["~1", "~1.4", "~1.4.3", "~0", "~0.2", "~0.2.3", "~0.0.2"]
        .into_iter()
        .map(|s| range(s))
        .collect::<Vec<_>>();

    let ns = vec![
        closed_open("1.0.0", "2.0.0"),
        closed_open("1.4.0", "1.5.0"),
        closed_open("1.4.3", "1.5.0"),
        closed_open("0.0.0", "1.0.0"),
        closed_open("0.2.0", "0.3.0"),
        closed_open("0.2.3", "0.3.0"),
        closed_open("0.0.2", "0.1.0"),
    ];

    assert!(same_ranges(&ns, &vs));
}

#[test]
fn range_parse_manual() {
    let vs = vec![">= 1.0.0 < 2.0.0", ">= 1.0.0", "< 2.0.0"]
        .into_iter()
        .map(|s| range(s))
        .collect::<Vec<_>>();

    let ns = vec![
        closed_open("1.0.0", "2.0.0"),
        Range::new(Interval::Closed(v("1.0.0"), false), Interval::Unbounded).unwrap(),
        Range::new(Interval::Unbounded, Interval::Open(v("2.0.0"), false)).unwrap(),
    ];

    assert!(same_ranges(&ns, &vs));
}

#[test]
fn range_pre_ok() {
    let r = range(">=! 1.0.0 <! 2.0.0");
    let vs = vec!["1.0.0-alpha.1", "1.0.0", "1.4.2", "1.6.3", "2.0.0-alpha.1"];
    for s in vs {
        assert!(r.satisfies(&v(s)));
    }
}

#[test]
fn constraint_relation() {
    let c = Constraint::new(vec![range("1")]);
    let c2 = c.complement();

    assert_eq!(Relation::Disjoint, c.relation(&c2));
}

#[test]
fn constraint_relation_single() {
    let c = Constraint::new(vec![range("<! 1.0.0"), range(">! 1.0.0")]);
    let c2 = Constraint::new(vec![range(">= 1.0.0 <= 1.0.0")]);

    assert_eq!(c.relation(&c2), Relation::Disjoint);
}

#[test]
fn constraint_relation_opposite() {
    let c1 = constraint(">! 2.0.0 < 3.0.0");
    let c2 = constraint("<! 2.0.0, >=! 3.0.0");

    assert_eq!(Relation::Disjoint, c1.relation(&c2));
}

#[test]
fn constraint_complement() {
    let c = Constraint::new(vec![
        closed_open("1.0.0", "2.0.0"),
        closed_closed("2.5.3-beta.1", "2.7.8"),
    ]);
    let a = c.complement();

    let vs = vec![
        "1.0.0-alpha.1",
        "1.0.0",
        "1.4.2",
        "1.6.3",
        "2.0.0-alpha.1",
        "2.5.3-alpha.1",
        "2.5.3-zeta.1",
        "2.7.8-beta.3",
    ];

    for s in vs {
        let x = v(s);
        assert_eq!(c.satisfies(&x), !a.satisfies(&x));
    }
}

#[test]
fn constraint_complement_symmetry() {
    let c = Constraint::new(vec![
        closed_open("1.0.0", "2.0.0"),
        closed_closed("1.5.0", "2.6.1"),
    ]);

    assert!(c.same(&c.complement().complement()));
}

#[test]
fn constraint_complement_correct() {
    let c1 = constraint("<! 2.0.0, >=! 3.0.0");
    let c2 = constraint(">= 2.0.0 < 3.0.0");

    assert!(c2.same(&c1.complement()));
}

#[test]
fn constraint_complement_single() {
    let c = Constraint::new(vec![range("<! 1.0.0"), range(">! 1.0.0")]);
    let c2 = Constraint::new(vec![range(">= 1.0.0 <= 1.0.0")]);

    assert!(c.complement().same(&c2));
}

#[test]
fn constraint_subset() {
    let a = Constraint::new(vec![
        open_closed("1.0.0", "1.3.2"),
        closed_closed("5.5.7", "5.6.2-alpha.2"),
    ]);
    let b = Constraint::new(vec![
        closed_closed("1.0.0", "1.5.2"),
        closed_closed("5.3.2", "5.7.7"),
    ]);

    assert_eq!(Relation::Subset, a.relation(&b));
    assert_eq!(Relation::Superset, b.relation(&a));
}

#[test]
fn version_single() {
    let x = Version::new(1, 4, 2);
    let x2 = Version::new(1, 4, 3);
    let x3 = Version::new(1, 4, 1);
    let c = Constraint::from_version(x.copy());

    assert!(c.satisfies(&x));
    assert!(!c.satisfies(&x2));
    assert!(!c.satisfies(&x3));
}

#[test]
fn constraint_difference() {
    let c1 = constraint("<! 2.0.0");
    let c2 = constraint(">! 2.0.0 < 3.0.0");

    let _ = c1.difference(&c2);

    // just check that this doesn't unwrap on None.
}

#[test]
fn constraint_difference_any() {
    let c1 = constraint(">= 2.0.0 < 3.0.0");
    let c2 = constraint("any");
    let ce = Constraint::empty();

    assert!(ce.same(&c1.difference(&c2)));
}

#[test]
fn constraint_difference_any_union() {
    let c1 = constraint("<! 1.1.0, >= 2.0.0");
    let c2 = constraint("any");
    let ce = Constraint::empty();

    assert!(ce.same(&c1.difference(&c2)));
}

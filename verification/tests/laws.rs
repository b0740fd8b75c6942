use elba::interval::{Interval, Range};
use elba::constraint::{Constraint, Relation};
use elba::version::Version;

fn v(s: &str) -> Version {
    Version::parse(s).unwrap()
}

fn c(s: &str) -> Constraint {
    Constraint::from_str(s).unwrap()
}

#[test]
fn any_is_satisfied_by_every_version() {
    for s in &["0.0.0", "1.2.3", "2.0.0-alpha.1", "999.0.0"] {
        assert!(Constraint::any().satisfies(&v(s)));
    }
}

#[test]
fn the_empty_constraint_is_satisfied_by_none() {
    for s in &["0.0.0", "1.2.3", "2.0.0-alpha.1"] {
        assert!(!Constraint::empty().satisfies(&v(s)));
    }
}

#[test]
fn a_version_constraint_holds_that_version_only() {
    let k = Constraint::from_version(v("1.2.3"));
    assert!(k.satisfies(&v("1.2.3")));
    assert!(k.satisfies(&v("1.2.3+build.5")));
    assert!(!k.satisfies(&v("1.2.4")));
    assert!(!k.satisfies(&v("1.2.3-alpha")));
}

#[test]
fn a_union_holds_what_either_holds() {
    let a = c(">= 1.0.0 < 2.0.0");
    let b = c(">= 1.5.0 < 4.0.0");
    let u = a.union(&b);
    for s in &["0.5.0", "1.0.0", "1.7.0", "2.5.0", "3.9.9", "4.0.0", "5.0.0"] {
        let x = v(s);
        assert_eq!(u.satisfies(&x), a.satisfies(&x) || b.satisfies(&x), "{}", s);
    }
    assert_eq!(u.to_text(), ">=1.0.0 <4.0.0");
    let one = c("1");
    let u = one.union(&c("1.5"));
    assert_eq!(u.retrieve().len(), 1);
    assert!(u.retrieve()[0].same(&Range::from_str("1").unwrap()));
}

#[test]
fn refused_ranges_hold_no_version() {
    assert!(Range::new(Interval::Open(v("1.0.0"), false), Interval::Closed(v("1.0.0"), false)).is_none());
    assert!(Range::new(Interval::Closed(v("2.0.0"), false), Interval::Open(v("1.0.0"), false)).is_none());
    assert!(Range::new(Interval::Closed(v("1.0.0"), false), Interval::Open(v("1.0.0"), false)).is_none());
    assert!(Range::new(Interval::Closed(v("1.0.0"), false), Interval::Closed(v("1.0.0"), false)).is_some());
}

#[test]
fn ranges_without_intersection_share_no_version() {
    let a = Range::from_str(">= 1.0.0 < 2.0.0").unwrap();
    let b = Range::from_str(">= 2.0.0 < 3.0.0").unwrap();
    assert!(a.intersection(&b).is_none());
    for s in &["1.5.0", "2.0.0", "2.5.0"] {
        assert!(!(a.satisfies(&v(s)) && b.satisfies(&v(s))));
    }
    let c = Range::from_str(">= 1.5.0 < 2.5.0").unwrap();
    assert!(a.intersection(&c).unwrap().satisfies(&v("1.7.0")));
}

#[test]
fn unified_ranges_share_no_version() {
    let k = c(">= 1.5.0 < 3.0.0, >= 1.0.0 < 2.0.0, > 4.0.0, >= 3.0.0 < 3.5.0");
    let ranges = k.retrieve();
    for s in &["0.5.0", "1.0.0", "1.7.0", "2.9.9", "3.0.0", "3.2.0", "3.5.0", "4.0.0", "4.0.1", "9.0.0"] {
        let x = v(s);
        let hits = ranges.iter().filter(|r| r.satisfies(&x)).count();
        assert!(hits <= 1, "{} lies in {} ranges", s, hits);
    }
    assert_eq!(k.to_text(), ">=1.0.0 <3.5.0, >4.0.0");
}

#[test]
fn the_complement_holds_the_release_versions_the_constraint_misses() {
    for text in &[">= 1.0.0 < 2.0.0, > 3.0.0 <= 4.0.0", "< 1.5.0, >= 2.0.0", "any", "<= 0.5.0"] {
        let k = c(text);
        let a = k.try_complement().unwrap();
        for s in &["0.1.0", "0.5.0", "1.0.0", "1.5.0", "2.0.0", "3.0.0", "3.5.0", "4.0.0", "4.0.1", "7.0.0"] {
            let x = v(s);
            assert_eq!(a.satisfies(&x), !k.satisfies(&x), "{} with {}", text, s);
        }
    }
    assert!(Constraint::empty().try_complement().unwrap().same(&Constraint::any()));
}

#[test]
fn taking_the_complement_twice_gives_the_constraint_back() {
    for text in &[">= 1.0.0 < 2.0.0, > 3.0.0 <= 4.0.0", "< 1.5.0, >= 2.0.0", "any", "> 0.5.0"] {
        let k = c(text);
        let twice = k.try_complement().unwrap().try_complement().unwrap();
        assert!(twice.same(&k), "{}", text);
    }
}

#[test]
fn related_constraints_hold_versions_accordingly() {
    let a = c(">= 1.0.0 < 2.0.0");
    let b = c(">= 0.5.0 < 3.0.0");
    let d = c(">= 4.0.0 < 5.0.0");
    assert_eq!(a.relation(&b), Relation::Subset);
    assert_eq!(b.relation(&a), Relation::Superset);
    assert_eq!(a.relation(&d), Relation::Disjoint);
    assert_eq!(a.relation(&a.copy()), Relation::Equal);
    for s in &["0.1.0", "0.7.0", "1.0.0", "1.5.0", "2.5.0", "4.5.0"] {
        let x = v(s);
        if a.satisfies(&x) {
            assert!(b.satisfies(&x));
        }
        assert!(!(a.satisfies(&x) && d.satisfies(&x)));
    }
}

#[test]
fn unification_adds_no_version() {
    let parts = [">= 1.0.0 < 2.0.0", ">= 1.5.0 <= 2.5.0", "> 3.0.0 < 4.0.0", "<= 0.5.0"];
    let k = c(&parts.join(", "));
    for s in &["0.1.0", "0.5.0", "0.7.0", "1.2.0", "2.5.0", "2.7.0", "3.0.0", "3.5.0", "4.0.0"] {
        let x = v(s);
        if k.satisfies(&x) {
            assert!(parts.iter().any(|p| c(p).satisfies(&x)), "{}", s);
        }
    }
}

#[test]
fn unification_keeps_every_version() {
    let k = c(">= 1.0.0 < 5.0.0, >= 2.0.0 < 3.0.0");
    assert_eq!(k.to_text(), ">=1.0.0 <5.0.0");
    for s in &["1.0.0", "2.5.0", "4.0.0", "4.9.9"] {
        assert!(k.satisfies(&v(s)), "{}", s);
    }
    assert!(!k.satisfies(&v("5.0.0")));
    let parts = [">= 1.0.0 < 2.0.0", ">= 1.5.0 <= 2.5.0", "> 3.0.0 < 4.0.0", "<= 0.5.0", ">= 3.2.0 < 3.4.0"];
    let k = c(&parts.join(", "));
    for s in &["0.1.0", "0.5.0", "0.7.0", "1.2.0", "2.5.0", "2.7.0", "3.0.0", "3.3.0", "3.5.0", "4.0.0"] {
        let x = v(s);
        assert_eq!(k.satisfies(&x), parts.iter().any(|p| c(p).satisfies(&x)), "{}", s);
    }
}

#[test]
fn a_range_naming_a_pre_release_below_admits_pre_releases() {
    let r = Range::new(Interval::Closed(v("1.0.0-alpha.1"), false), Interval::Open(v("2.0.0"), false)).unwrap();
    assert!(r.satisfies(&v("1.0.0-alpha.2")));
    assert!(r.satisfies(&v("1.5.0")));
    assert!(!r.satisfies(&v("1.0.0-alpha.0")));
    let plain = Range::from_str(">= 1.0.0 < 2.0.0").unwrap();
    assert!(!plain.satisfies(&v("1.5.0-beta")));
}

#[test]
fn text_left_over_after_a_range_is_refused() {
    assert!(Range::from_str("< 1 > 2").is_err());
    assert!(Range::from_str(">= 1.0.0 < 2.0.0 junk").is_err());
    assert!(Range::from_str(" >= 1.0.0 < 2.0.0 ").is_ok());
    assert!(Constraint::from_str("< 1 > 2").is_err());
    assert!(Constraint::from_str(">= 1.0.0, < 0.5.0").is_ok());
}

#[test]
fn ranges_without_a_lower_bound_are_merged() {
    let a = Range::new(Interval::Unbounded, Interval::Open(v("1.0.0"), false)).unwrap();
    let b = Range::new(Interval::Unbounded, Interval::Open(v("2.0.0"), false)).unwrap();
    let k = Constraint::new(vec![a, b]);
    assert_eq!(k.retrieve().len(), 1);
    assert_eq!(k.to_text(), "<2.0.0");
    assert!(k.satisfies(&v("0.5.0")));
    assert!(k.satisfies(&v("1.5.0")));
    assert!(!k.satisfies(&v("2.0.0")));
    assert_eq!(c("< 1.0.0, < 2.0.0").to_text(), "<2.0.0");
}

#[test]
fn a_bang_on_a_bound_does_not_change_which_ranges_meet() {
    let k = c("<! 1.0.0, > 1.0.0");
    assert!(!k.satisfies(&v("1.0.0")));
    assert!(k.satisfies(&v("0.9.0")));
    assert!(k.satisfies(&v("1.0.1")));
    assert_eq!(k.retrieve().len(), 2);
    let same = c("<! 1.0.0, >! 1.0.0");
    assert!(!same.satisfies(&v("1.0.0")));
}

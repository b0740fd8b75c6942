//! Interval bounds and contiguous version ranges.
//!
//! A `Range` is a lower and an upper `Interval` bound. Syntax for ranges mirrors that of Pub
//! or Cargo: pre-release versions satisfy a range only where the range allows them, and a `!`
//! after an inequality lets a bound accept the pre-releases of its version.

use vstd::prelude::*;
use crate::version::{
    bool_order, is_pre, lemma_version_order_antisym, lemma_version_order_trans, ver_eq, ver_le, ver_lt,
    version_order, version_text, Order, Version, VersionV,
};
use crate::text::push_char;

verus! {

/// One side of a range.
#[derive(Debug)]
pub enum Interval {
    /// The bound includes its version; the flag says whether pre-releases are accepted.
    Closed(Version, bool),
    /// The bound excludes its version; the flag says whether pre-releases are accepted.
    Open(Version, bool),
    /// No bound on this side.
    Unbounded,
}

pub enum IntervalV {
    Closed(VersionV, bool),
    Open(VersionV, bool),
    Unbounded,
}

impl View for Interval {
    type V = IntervalV;

    open spec fn view(&self) -> IntervalV {
        match self {
            Interval::Closed(v, p) => IntervalV::Closed(v@, *p),
            Interval::Open(v, p) => IntervalV::Open(v@, *p),
            Interval::Unbounded => IntervalV::Unbounded,
        }
    }
}

/// The order of two bounds; `lower` says whether both are lower bounds (else both are upper
/// bounds).
#[verifier::opaque]
pub open spec fn interval_order(a: IntervalV, b: IntervalV, lower: bool) -> Order {
    match (a, b) {
        (IntervalV::Unbounded, IntervalV::Unbounded) => Order::Equal,
        (IntervalV::Unbounded, _) => if lower {
            Order::Less
        } else {
            Order::Greater
        },
        (_, IntervalV::Unbounded) => if lower {
            Order::Greater
        } else {
            Order::Less
        },
        (IntervalV::Open(x, xp), IntervalV::Open(y, yp)) => {
            let c = version_order(x, y);
            if c == Order::Equal {
                if lower {
                    Order::Equal
                } else {
                    bool_order(xp, yp)
                }
            } else {
                c
            }
        },
        (IntervalV::Closed(x, xp), IntervalV::Closed(y, yp)) => {
            let c = version_order(x, y);
            if c == Order::Equal {
                if lower {
                    bool_order(xp, yp).flipped()
                } else {
                    bool_order(xp, yp)
                }
            } else {
                c
            }
        },
        (IntervalV::Open(x, _), IntervalV::Closed(y, _)) => {
            if ver_eq(x, y) {
                if lower {
                    Order::Greater
                } else {
                    Order::Less
                }
            } else {
                version_order(x, y)
            }
        },
        (IntervalV::Closed(x, _), IntervalV::Open(y, _)) => {
            if ver_eq(x, y) {
                if lower {
                    Order::Less
                } else {
                    Order::Greater
                }
            } else {
                version_order(x, y)
            }
        },
    }
}

/// Interval equality: the same kind of bound, versions equal up to build metadata, the same
/// flag.
pub open spec fn interval_same(a: IntervalV, b: IntervalV) -> bool {
    match (a, b) {
        (IntervalV::Unbounded, IntervalV::Unbounded) => true,
        (IntervalV::Open(x, xp), IntervalV::Open(y, yp)) => ver_eq(x, y) && xp == yp,
        (IntervalV::Closed(x, xp), IntervalV::Closed(y, yp)) => ver_eq(x, y) && xp == yp,
        _ => false,
    }
}

pub open spec fn interval_min(a: IntervalV, b: IntervalV, lower: bool) -> IntervalV {
    if interval_order(a, b, lower) == Order::Greater {
        b
    } else {
        a
    }
}

pub open spec fn interval_max(a: IntervalV, b: IntervalV, lower: bool) -> IntervalV {
    if interval_order(a, b, lower) == Order::Less {
        b
    } else {
        a
    }
}

/// An open bound becomes closed and the reverse, with the pre-release flag negated.
pub open spec fn interval_flip(a: IntervalV) -> IntervalV {
    match a {
        IntervalV::Closed(v, p) => IntervalV::Open(v, !p),
        IntervalV::Open(v, p) => IntervalV::Closed(v, !p),
        IntervalV::Unbounded => IntervalV::Unbounded,
    }
}

pub open spec fn interval_pre_ok(a: IntervalV) -> bool {
    match a {
        IntervalV::Closed(_, p) => p,
        IntervalV::Open(_, p) => p,
        IntervalV::Unbounded => true,
    }
}

/// The textual form of a bound: `>=`, `>=!`, `>`, `<=`, `<` or `<!` and the version; the
/// empty text for no bound.
pub open spec fn interval_text(a: IntervalV, lower: bool) -> Seq<char> {
    match a {
        IntervalV::Unbounded => Seq::empty(),
        IntervalV::Closed(v, p) => if lower {
            if !is_pre(v) && p {
                seq!['>', '=', '!'] + version_text(v)
            } else {
                seq!['>', '='] + version_text(v)
            }
        } else {
            seq!['<', '='] + version_text(v)
        },
        IntervalV::Open(v, p) => if lower {
            seq!['>'] + version_text(v)
        } else if !is_pre(v) && p {
            seq!['<', '!'] + version_text(v)
        } else {
            seq!['<'] + version_text(v)
        },
    }
}

// ---------------------------------------------------------------------------------------
// Laws of the bound order.

/// The bound order, in either mode, is antisymmetric and transitive: a total preorder.
pub proof fn lemma_interval_order(a: IntervalV, b: IntervalV, c: IntervalV, lower: bool)
    ensures
        interval_order(a, b, lower) == interval_order(b, a, lower).flipped(),
        interval_order(a, a, lower) == Order::Equal,
        interval_order(a, b, lower) != Order::Greater && interval_order(b, c, lower)
            != Order::Greater ==> interval_order(a, c, lower) != Order::Greater,
        interval_order(a, b, lower) == Order::Less && interval_order(b, c, lower)
            != Order::Greater ==> interval_order(a, c, lower) == Order::Less,
        interval_order(a, b, lower) != Order::Greater && interval_order(b, c, lower)
            == Order::Less ==> interval_order(a, c, lower) == Order::Less,
{
    reveal(interval_order);
    lemma_bound_versions(a, b, c);
}

/// Upper bounds compare equal exactly when they are the same bound.
pub proof fn lemma_upper_equal(a: IntervalV, b: IntervalV)
    ensures
        interval_order(a, b, false) == Order::Equal <==> interval_same(a, b),
{
    reveal(interval_order);
    lemma_bound_versions(a, b, b);
}

pub open spec fn bound_version(a: IntervalV) -> VersionV {
    match a {
        IntervalV::Closed(v, _) => v,
        IntervalV::Open(v, _) => v,
        IntervalV::Unbounded => VersionV {
            major: 0,
            minor: 0,
            patch: 0,
            pre: Seq::empty(),
            build: Seq::empty(),
        },
    }
}

pub proof fn lemma_bound_versions(a: IntervalV, b: IntervalV, c: IntervalV)
    ensures
        version_order(bound_version(a), bound_version(b)) == version_order(
            bound_version(b),
            bound_version(a),
        ).flipped(),
        version_order(bound_version(a), bound_version(b)) == Order::Equal <==> ver_eq(
            bound_version(a),
            bound_version(b),
        ),
        version_order(bound_version(a), bound_version(a)) == Order::Equal,
        version_order(bound_version(b), bound_version(c)) == version_order(
            bound_version(c),
            bound_version(b),
        ).flipped(),
        version_order(bound_version(b), bound_version(c)) == Order::Equal <==> ver_eq(
            bound_version(b),
            bound_version(c),
        ),
        version_order(bound_version(a), bound_version(c)) == version_order(
            bound_version(c),
            bound_version(a),
        ).flipped(),
        version_order(bound_version(a), bound_version(c)) == Order::Equal <==> ver_eq(
            bound_version(a),
            bound_version(c),
        ),
        ver_le(bound_version(a), bound_version(b)) && ver_le(bound_version(b), bound_version(c))
            ==> ver_le(bound_version(a), bound_version(c)),
        ver_lt(bound_version(a), bound_version(b)) && ver_le(bound_version(b), bound_version(c))
            ==> ver_lt(bound_version(a), bound_version(c)),
        ver_le(bound_version(a), bound_version(b)) && ver_lt(bound_version(b), bound_version(c))
            ==> ver_lt(bound_version(a), bound_version(c)),
{
    let (x, y, z) = (bound_version(a), bound_version(b), bound_version(c));
    lemma_version_order_antisym(x, y);
    lemma_version_order_antisym(y, z);
    lemma_version_order_antisym(x, z);
    lemma_version_order_antisym(x, x);
    lemma_version_order_trans(x, y, z);
}

// ---------------------------------------------------------------------------------------
// Executable bounds.

impl Interval {
    /// A copy of this bound.
    pub fn copy(&self) -> (r: Interval)
        ensures
            r@ == self@,
    {
        match self {
            Interval::Closed(v, p) => Interval::Closed(v.copy(), *p),
            Interval::Open(v, p) => Interval::Open(v.copy(), *p),
            Interval::Unbounded => Interval::Unbounded,
        }
    }

    /// Compares two bounds; `lower` says whether both are lower bounds.
    pub fn compare(&self, other: &Interval, lower: bool) -> (r: Order)
        ensures
            r == interval_order(self@, other@, lower),
    {
        reveal(interval_order);
        match (self, other) {
            (Interval::Unbounded, Interval::Unbounded) => Order::Equal,
            (Interval::Unbounded, _) => {
                if lower {
                    Order::Less
                } else {
                    Order::Greater
                }
            },
            (_, Interval::Unbounded) => {
                if lower {
                    Order::Greater
                } else {
                    Order::Less
                }
            },
            (Interval::Open(a, ap), Interval::Open(b, bp)) => {
                let c = a.compare(b);
                if c == Order::Equal {
                    if lower {
                        Order::Equal
                    } else {
                        compare_bool(*ap, *bp)
                    }
                } else {
                    c
                }
            },
            (Interval::Closed(a, ap), Interval::Closed(b, bp)) => {
                let c = a.compare(b);
                if c == Order::Equal {
                    if lower {
                        compare_bool(*ap, *bp).reverse()
                    } else {
                        compare_bool(*ap, *bp)
                    }
                } else {
                    c
                }
            },
            (Interval::Open(a, _), Interval::Closed(b, _)) => {
                if a.same(b) {
                    if lower {
                        Order::Greater
                    } else {
                        Order::Less
                    }
                } else {
                    a.compare(b)
                }
            },
            (Interval::Closed(a, _), Interval::Open(b, _)) => {
                if a.same(b) {
                    if lower {
                        Order::Less
                    } else {
                        Order::Greater
                    }
                } else {
                    a.compare(b)
                }
            },
        }
    }

    /// Interval equality.
    pub fn same(&self, other: &Interval) -> (r: bool)
        ensures
            r == interval_same(self@, other@),
    {
        match (self, other) {
            (Interval::Unbounded, Interval::Unbounded) => true,
            (Interval::Open(a, ap), Interval::Open(b, bp)) => a.same(b) && *ap == *bp,
            (Interval::Closed(a, ap), Interval::Closed(b, bp)) => a.same(b) && *ap == *bp,
            _ => false,
        }
    }

    /// The smaller of two bounds.
    pub fn min<'a>(&'a self, other: &'a Interval, lower: bool) -> (r: &'a Interval)
        ensures
            r@ == interval_min(self@, other@, lower),
    {
        if self.compare(other, lower) == Order::Greater {
            other
        } else {
            self
        }
    }

    /// The greater of two bounds.
    pub fn max<'a>(&'a self, other: &'a Interval, lower: bool) -> (r: &'a Interval)
        ensures
            r@ == interval_max(self@, other@, lower),
    {
        if self.compare(other, lower) == Order::Less {
            other
        } else {
            self
        }
    }

    /// The bound on the other side of this one.
    pub fn flip(self) -> (r: Interval)
        ensures
            r@ == interval_flip(self@),
    {
        match self {
            Interval::Closed(v, pre_ok) => Interval::Open(v, !pre_ok),
            Interval::Open(v, pre_ok) => Interval::Closed(v, !pre_ok),
            Interval::Unbounded => Interval::Unbounded,
        }
    }

    /// Whether the bound accepts pre-releases of its version.
    pub fn pre_ok(&self) -> (r: bool)
        ensures
            r == interval_pre_ok(self@),
    {
        match self {
            Interval::Closed(_, pre_ok) => *pre_ok,
            Interval::Open(_, pre_ok) => *pre_ok,
            Interval::Unbounded => true,
        }
    }

    pub fn is_unbounded(&self) -> (r: bool)
        ensures
            r == (self@ is Unbounded),
    {
        match self {
            Interval::Unbounded => true,
            _ => false,
        }
    }

    /// The textual form of the bound.
    pub fn show(&self, lower: bool) -> (r: String)
        ensures
            r@ == interval_text(self@, lower),
    {
        let mut s = String::new();
        match self {
            Interval::Unbounded => {},
            Interval::Closed(v, p) => {
                if lower {
                    push_char(&mut s, '>');
                    push_char(&mut s, '=');
                    if !v.is_prerelease() && *p {
                        push_char(&mut s, '!');
                    }
                } else {
                    push_char(&mut s, '<');
                    push_char(&mut s, '=');
                }
                let t = v.to_text();
                crate::text::push_str(&mut s, t.as_str());
            },
            Interval::Open(v, p) => {
                if lower {
                    push_char(&mut s, '>');
                } else {
                    push_char(&mut s, '<');
                    if !v.is_prerelease() && *p {
                        push_char(&mut s, '!');
                    }
                }
                let t = v.to_text();
                crate::text::push_str(&mut s, t.as_str());
            },
        }
        assert(s@ =~= interval_text(self@, lower));
        s
    }
}

fn compare_bool(a: bool, b: bool) -> (r: Order)
    ensures
        r == bool_order(a, b),
{
    if a == b {
        Order::Equal
    } else if !a {
        Order::Less
    } else {
        Order::Greater
    }
}

// ---------------------------------------------------------------------------------------
// Ranges.

/// A contiguous range in which a version can fall.
#[derive(Debug)]
pub struct Range {
    lower: Interval,
    upper: Interval,
}

pub struct RangeV {
    pub lower: IntervalV,
    pub upper: IntervalV,
}

impl View for Range {
    type V = RangeV;

    closed spec fn view(&self) -> RangeV {
        RangeV { lower: self.lower@, upper: self.upper@ }
    }
}

/// Whether `Range::new` accepts the two bounds: a nonsensical range, one that no version
/// can satisfy, is refused.
pub open spec fn range_new_ok(lower: IntervalV, upper: IntervalV) -> bool {
    match (lower, upper) {
        (IntervalV::Unbounded, _) => true,
        (_, IntervalV::Unbounded) => true,
        (IntervalV::Open(a, _), IntervalV::Closed(b, _)) => !ver_eq(a, b) && interval_order(
            lower,
            upper,
            true,
        ) != Order::Greater,
        (IntervalV::Closed(a, ap), IntervalV::Open(b, bp)) => !(ver_eq(a, b) && !(ap && bp))
            && interval_order(lower, upper, true) != Order::Greater,
        (IntervalV::Open(a, _), IntervalV::Open(b, _)) => !ver_eq(a, b) && interval_order(
            lower,
            upper,
            true,
        ) != Order::Greater,
        _ => interval_order(lower, upper, true) != Order::Greater,
    }
}

pub open spec fn range_valid(r: RangeV) -> bool {
    range_new_ok(r.lower, r.upper)
}

/// Range equality: both bounds are the same.
pub open spec fn range_same(a: RangeV, b: RangeV) -> bool {
    interval_same(a.lower, b.lower) && interval_same(a.upper, b.upper)
}

/// `(a.major, a.minor, a.patch) >= (b.major, b.minor, b.patch)`.
pub open spec fn release_ge(a: VersionV, b: VersionV) -> bool {
    a.major > b.major || (a.major == b.major && (a.minor > b.minor || (a.minor == b.minor
        && a.patch >= b.patch)))
}

/// Whether a bound names a pre-release version.
pub open spec fn names_pre(a: IntervalV) -> bool {
    match a {
        IntervalV::Closed(x, _) => is_pre(x),
        IntervalV::Open(x, _) => is_pre(x),
        IntervalV::Unbounded => false,
    }
}

/// Whether a version falls in a range. A pre-release version satisfies the range only if the
/// range lets pre-releases in: either bound names a pre-release version, or the upper bound
/// is closed, absent, or open with a `!`. A lower bound `>=!` accepts the pre-releases of its
/// version.
pub open spec fn range_satisfies(r: RangeV, v: VersionV) -> bool {
    let upper_pre_ok = match r.upper {
        IntervalV::Open(u, p) => is_pre(u) || p,
        _ => true,
    } || names_pre(r.lower);
    let satisfies_upper = match r.upper {
        IntervalV::Open(u, _) => ver_lt(v, u),
        IntervalV::Closed(u, _) => ver_le(v, u),
        IntervalV::Unbounded => true,
    };
    let satisfies_lower = match r.lower {
        IntervalV::Open(l, _) => ver_lt(l, v),
        IntervalV::Closed(l, p) => if p {
            release_ge(v, l)
        } else {
            ver_le(l, v)
        },
        IntervalV::Unbounded => true,
    };
    satisfies_lower && satisfies_upper && (!is_pre(v) || upper_pre_ok)
}

/// The meet of two ranges: the greater lower bound and the smaller upper bound, where
/// `Range::new` accepts them.
pub open spec fn range_meet(a: RangeV, b: RangeV) -> Option<RangeV> {
    let lower = interval_max(a.lower, b.lower, true);
    let upper = interval_min(a.upper, b.upper, false);
    if range_new_ok(lower, upper) {
        Some(RangeV { lower, upper })
    } else {
        None
    }
}

/// The textual form of a range: `any`, one bound, or both separated by a space.
pub open spec fn range_text(r: RangeV) -> Seq<char> {
    match (r.lower, r.upper) {
        (IntervalV::Unbounded, IntervalV::Unbounded) => seq!['a', 'n', 'y'],
        (IntervalV::Unbounded, b) => interval_text(b, false),
        (a, IntervalV::Unbounded) => interval_text(a, true),
        (a, b) => interval_text(a, true) + seq![' '] + interval_text(b, false),
    }
}

pub open spec fn any_range() -> RangeV {
    RangeV { lower: IntervalV::Unbounded, upper: IntervalV::Unbounded }
}

pub open spec fn exact_range(v: VersionV) -> RangeV {
    RangeV { lower: IntervalV::Closed(v, false), upper: IntervalV::Closed(v, false) }
}

impl Range {
    /// Every range is one that `Range::new` accepts.
    #[verifier::type_invariant]
    pub closed spec fn inv(self) -> bool {
        range_new_ok(self.lower@, self.upper@)
    }

    pub proof fn lemma_inv(r: Range)
        requires
            r.inv(),
        ensures
            range_valid(r@),
    {
    }

    /// Creates a new `Range`, or `None` where the bounds make a nonsensical range.
    pub fn new(lower: Interval, upper: Interval) -> (r: Option<Range>)
        ensures
            r is Some <==> range_new_ok(lower@, upper@),
            r matches Some(x) ==> x@ == (RangeV { lower: lower@, upper: upper@ }),
    {
        let ok = match (&lower, &upper) {
            (Interval::Unbounded, _) => true,
            (_, Interval::Unbounded) => true,
            (Interval::Open(a, _), Interval::Closed(b, _)) => !a.same(b) && lower.compare(
                &upper,
                true,
            ) != Order::Greater,
            (Interval::Closed(a, ap), Interval::Open(b, bp)) => !(a.same(b) && !(*ap && *bp))
                && lower.compare(&upper, true) != Order::Greater,
            (Interval::Open(a, _), Interval::Open(b, _)) => !a.same(b) && lower.compare(
                &upper,
                true,
            ) != Order::Greater,
            _ => lower.compare(&upper, true) != Order::Greater,
        };
        if ok {
            Some(Range { lower, upper })
        } else {
            None
        }
    }

    /// The range without bounds, which every version satisfies.
    pub fn any() -> (r: Range)
        ensures
            r@ == any_range(),
    {
        Range { lower: Interval::Unbounded, upper: Interval::Unbounded }
    }

    /// The range holding exactly one version.
    pub fn from_version(v: Version) -> (r: Range)
        ensures
            r@ == exact_range(v@),
    {
        proof {
            reveal(interval_order);
            lemma_version_order_antisym(v@, v@);
        }
        let lower = Interval::Closed(v.copy(), false);
        let upper = Interval::Closed(v, false);
        Range { lower, upper }
    }

    pub fn upper(&self) -> (r: &Interval)
        ensures
            r@ == self@.upper,
    {
        &self.upper
    }

    pub fn lower(&self) -> (r: &Interval)
        ensures
            r@ == self@.lower,
    {
        &self.lower
    }

    /// The two bounds, lower first.
    pub fn take(self) -> (r: (Interval, Interval))
        ensures
            r.0@ == self@.lower,
            r.1@ == self@.upper,
    {
        (self.lower, self.upper)
    }

    /// A copy of this range.
    pub fn copy(&self) -> (r: Range)
        ensures
            r@ == self@,
    {
        proof {
            use_type_invariant(self);
        }
        Range { lower: self.lower.copy(), upper: self.upper.copy() }
    }

    /// Range equality.
    pub fn same(&self, other: &Range) -> (r: bool)
        ensures
            r == range_same(self@, other@),
    {
        self.lower.same(&other.lower) && self.upper.same(&other.upper)
    }

    /// Checks if a version is satisfied by this `Range`.
    pub fn satisfies(&self, version: &Version) -> (r: bool)
        ensures
            r == range_satisfies(self@, version@),
    {
        let lower_names_pre = match &self.lower {
            Interval::Closed(l, _) => l.is_prerelease(),
            Interval::Open(l, _) => l.is_prerelease(),
            Interval::Unbounded => false,
        };
        let upper_pre_ok = match &self.upper {
            Interval::Open(u, p) => u.is_prerelease() || *p,
            _ => true,
        } || lower_names_pre;
        let satisfies_upper = match &self.upper {
            Interval::Open(u, _) => version.compare(u) == Order::Less,
            Interval::Closed(u, _) => version.compare(u) != Order::Greater,
            Interval::Unbounded => true,
        };
        let satisfies_lower = match &self.lower {
            Interval::Open(l, _) => l.compare(version) == Order::Less,
            Interval::Closed(l, p) => {
                if *p {
                    version.major > l.major || (version.major == l.major && (version.minor
                        > l.minor || (version.minor == l.minor && version.patch >= l.patch)))
                } else {
                    l.compare(version) != Order::Greater
                }
            },
            Interval::Unbounded => true,
        };
        satisfies_lower && satisfies_upper && (!version.is_prerelease() || upper_pre_ok)
    }

    /// The intersection of two ranges, or `None` where they are disjoint.
    pub fn intersection(&self, other: &Range) -> (r: Option<Range>)
        ensures
            match r {
                Some(x) => range_meet(self@, other@) == Some(x@),
                None => range_meet(self@, other@) is None,
            },
    {
        let lower = self.lower.max(&other.lower, true);
        let upper = self.upper.min(&other.upper, false);
        Range::new(lower.copy(), upper.copy())
    }

    /// The textual form of the range.
    pub fn to_text(&self) -> (r: String)
        ensures
            r@ == range_text(self@),
    {
        match (&self.lower, &self.upper) {
            (Interval::Unbounded, Interval::Unbounded) => {
                let mut s = String::new();
                push_char(&mut s, 'a');
                push_char(&mut s, 'n');
                push_char(&mut s, 'y');
                assert(s@ =~= seq!['a', 'n', 'y']);
                s
            },
            (Interval::Unbounded, b) => b.show(false),
            (a, Interval::Unbounded) => a.show(true),
            (a, b) => {
                let mut s = a.show(true);
                push_char(&mut s, ' ');
                let t = b.show(false);
                crate::text::push_str(&mut s, t.as_str());
                s
            },
        }
    }
}

} // verus!

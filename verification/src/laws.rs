//! What holds of constraints whatever they hold: the meaning of `any`, of the empty
//! constraint, of a single version, of union, intersection and difference; what unification
//! leaves; what the complement holds, once and twice taken; and what the relation found
//! between two constraints says of their versions.

use vstd::prelude::*;
use crate::version::{VersionV, ver_eq, ver_le, ver_lt, is_pre, version_order, Order,
    lemma_version_order_antisym, lemma_version_order_congruent, lemma_version_order_trans};
use crate::interval::{IntervalV, RangeV, range_satisfies, range_same, any_range, exact_range,
    range_meet, range_valid, interval_order, interval_max, interval_min, interval_same, release_ge,
    interval_flip, range_new_ok, lemma_interval_order};
use crate::constraint::{ranges_satisfy, contains_same, push_new, extend, extend_prefix,
    intersection, meet_prefix, meet_row, difference, diff_prefix, diff_row, diff_step, DiffState,
    all_valid, unify, dedup, dedup_prefix, coalesce, coalesce_prefix, merge_step, sort_by_lower,
    sort_prefix, insert_pos, sorted_by_lower, lemma_sort_prefix, lemma_diff_row_none, relation,
    same_set, Relation};

verus! {

/// Every version satisfies `any`.
pub proof fn law_any_satisfies(v: VersionV)
    ensures
        ranges_satisfy(seq![any_range()], v),
{
    assert(range_satisfies(seq![any_range()][0], v));
}

/// No version satisfies the empty constraint.
pub proof fn law_empty_satisfies_none(v: VersionV)
    ensures
        !ranges_satisfy(Seq::<RangeV>::empty(), v),
{
}

/// The constraint made from a version is satisfied by exactly the versions equal to it (build
/// metadata aside).
pub proof fn law_version_constraint(w: VersionV, v: VersionV)
    ensures
        ranges_satisfy(seq![exact_range(w)], v) <==> ver_eq(v, w),
{
    lemma_version_order_antisym(v, w);
    if ver_eq(v, w) {
        assert(range_satisfies(seq![exact_range(w)][0], v));
    }
}

/// Ranges that are the same are satisfied by the same versions.
proof fn lemma_same_satisfies(a: RangeV, b: RangeV, v: VersionV)
    requires
        range_same(a, b),
    ensures
        range_satisfies(a, v) <==> range_satisfies(b, v),
{
    match (a.lower, b.lower) {
        (IntervalV::Closed(x, _), IntervalV::Closed(y, _)) => {
            lemma_version_order_congruent(x, y, v);
        },
        (IntervalV::Open(x, _), IntervalV::Open(y, _)) => {
            lemma_version_order_congruent(x, y, v);
        },
        _ => {},
    }
    match (a.upper, b.upper) {
        (IntervalV::Closed(x, _), IntervalV::Closed(y, _)) => {
            lemma_version_order_congruent(x, y, v);
        },
        (IntervalV::Open(x, _), IntervalV::Open(y, _)) => {
            lemma_version_order_congruent(x, y, v);
        },
        _ => {},
    }
}

proof fn lemma_contains_same_satisfies(s: Seq<RangeV>, x: RangeV, v: VersionV)
    requires
        contains_same(s, x),
        range_satisfies(x, v),
    ensures
        ranges_satisfy(s, v),
    decreases s.len(),
{
    if range_same(s.last(), x) {
        lemma_same_satisfies(s.last(), x, v);
        assert(range_satisfies(s[s.len() - 1], v));
    } else {
        lemma_contains_same_satisfies(s.drop_last(), x, v);
        let i = choose|i: int| 0 <= i < s.drop_last().len() && range_satisfies(#[trigger] s.drop_last()[i], v);
        assert(s[i] == s.drop_last()[i]);
    }
}

/// Inserting a range into a set adds what it is satisfied by.
proof fn lemma_push_new_satisfies(s: Seq<RangeV>, x: RangeV, v: VersionV)
    ensures
        ranges_satisfy(push_new(s, x), v) <==> ranges_satisfy(s, v) || range_satisfies(x, v),
{
    if contains_same(s, x) {
        if range_satisfies(x, v) {
            lemma_contains_same_satisfies(s, x, v);
        }
    } else {
        let t = s.push(x);
        if ranges_satisfy(s, v) {
            let i = choose|i: int| 0 <= i < s.len() && range_satisfies(#[trigger] s[i], v);
            assert(t[i] == s[i]);
        }
        if range_satisfies(x, v) {
            assert(t[s.len() as int] == x);
        }
        if ranges_satisfy(t, v) {
            let i = choose|i: int| 0 <= i < t.len() && range_satisfies(#[trigger] t[i], v);
            if i < s.len() {
                assert(t[i] == s[i]);
            }
        }
    }
}

proof fn lemma_extend_prefix_satisfies(a: Seq<RangeV>, b: Seq<RangeV>, n: int, v: VersionV)
    requires
        0 <= n <= b.len(),
    ensures
        ranges_satisfy(extend_prefix(a, b, n), v) <==> ranges_satisfy(a, v) || ranges_satisfy(b.take(n), v),
    decreases n,
{
    if n > 0 {
        lemma_extend_prefix_satisfies(a, b, n - 1, v);
        lemma_push_new_satisfies(extend_prefix(a, b, n - 1), b[n - 1], v);
        let t = b.take(n);
        let p = b.take(n - 1);
        assert(t =~= p.push(b[n - 1]));
        if ranges_satisfy(t, v) {
            let i = choose|i: int| 0 <= i < t.len() && range_satisfies(#[trigger] t[i], v);
            if i < n - 1 {
                assert(p[i] == t[i]);
            }
        }
        if ranges_satisfy(p, v) {
            let i = choose|i: int| 0 <= i < p.len() && range_satisfies(#[trigger] p[i], v);
            assert(t[i] == p[i]);
        }
        if range_satisfies(b[n - 1], v) {
            assert(t[n - 1] == b[n - 1]);
        }
    } else {
        assert(b.take(0).len() == 0);
    }
}

/// Whether `x` is a range of `a` or of `b`.
spec fn from_either(a: Seq<RangeV>, b: Seq<RangeV>, x: RangeV) -> bool {
    (exists|j: int| 0 <= j < a.len() && a[j] == x) || (exists|j: int| 0 <= j < b.len() && b[j] == x)
}

/// Each range of `b` inserted into `a` is a range of `a` or of `b`.
proof fn lemma_extend_members(a: Seq<RangeV>, b: Seq<RangeV>, n: int)
    requires
        0 <= n <= b.len(),
    ensures
        forall|i: int| 0 <= i < extend_prefix(a, b, n).len() ==> from_either(a, b, #[trigger] extend_prefix(a, b, n)[i]),
    decreases n,
{
    if n > 0 {
        lemma_extend_members(a, b, n - 1);
        let p = extend_prefix(a, b, n - 1);
        let q = extend_prefix(a, b, n);
        assert forall|i: int| 0 <= i < q.len() implies from_either(a, b, #[trigger] q[i]) by {
            if i < p.len() {
                assert(q[i] == p[i]);
                assert(from_either(a, b, p[i]));
            } else {
                assert(q[i] == b[n - 1]);
                assert(b[n - 1] == q[i]);
            }
        }
    } else {
        assert forall|i: int| 0 <= i < extend_prefix(a, b, 0).len() implies from_either(a, b, #[trigger] extend_prefix(a, b, 0)[i]) by {
            assert(a[i] == extend_prefix(a, b, 0)[i]);
        }
    }
}

/// A release version satisfies the union of two constraints exactly when it satisfies one of
/// them.
pub proof fn law_union(a: Seq<RangeV>, b: Seq<RangeV>, v: VersionV)
    requires
        all_valid(a),
        all_valid(b),
        !is_pre(v),
    ensures
        ranges_satisfy(unify(extend(a, b)), v) <==> ranges_satisfy(a, v) || ranges_satisfy(b, v),
{
    let e = extend(a, b);
    lemma_extend_prefix_satisfies(a, b, b.len() as int, v);
    assert(b.take(b.len() as int) =~= b);
    lemma_extend_members(a, b, b.len() as int);
    assert forall|i: int| 0 <= i < e.len() implies crate::interval::range_valid(#[trigger] e[i]) by {
        assert(from_either(a, b, e[i]));
        if exists|j: int| 0 <= j < a.len() && a[j] == e[i] {
            let j = choose|j: int| 0 <= j < a.len() && a[j] == e[i];
            assert(crate::interval::range_valid(a[j]));
        } else {
            let j = choose|j: int| 0 <= j < b.len() && b[j] == e[i];
            assert(crate::interval::range_valid(b[j]));
        }
    }
    law_unify_keeps(e, v);
}

/// What satisfies the meet of two ranges satisfies both, for a release version.
proof fn lemma_meet_sound(x: RangeV, y: RangeV, v: VersionV)
    requires
        !is_pre(v),
        range_meet(x, y) is Some,
        range_satisfies(range_meet(x, y).unwrap(), v),
    ensures
        range_satisfies(x, v),
        range_satisfies(y, v),
{
    reveal(interval_order);
    lemma_bound_satisfies(x.lower, y.lower, v);
    lemma_upper_satisfies(x.upper, y.upper, v);
}

/// For a release version, the greater of two lower bounds is met exactly when both are.
proof fn lemma_bound_satisfies(a: IntervalV, b: IntervalV, v: VersionV)
    requires
        !is_pre(v),
    ensures
        lower_ok(interval_max(a, b, true), v) <==> lower_ok(a, v) && lower_ok(b, v),
{
    reveal(interval_order);
    let x = bound_or(a, v);
    let y = bound_or(b, v);
    lemma_version_order_antisym(x, y);
    lemma_version_order_antisym(x, v);
    lemma_version_order_antisym(y, v);
    lemma_version_order_trans(x, y, v);
    lemma_version_order_trans(y, x, v);
    if ver_eq(x, y) {
        lemma_version_order_congruent(x, y, v);
    }
    lemma_release_ge(v, x);
    lemma_release_ge(v, y);
}

/// For a release version, the smaller of two upper bounds is met exactly when both are.
proof fn lemma_upper_satisfies(a: IntervalV, b: IntervalV, v: VersionV)
    requires
        !is_pre(v),
    ensures
        upper_ok(interval_min(a, b, false), v) <==> upper_ok(a, v) && upper_ok(b, v),
{
    reveal(interval_order);
    let x = bound_or(a, v);
    let y = bound_or(b, v);
    lemma_version_order_antisym(x, y);
    lemma_version_order_antisym(v, x);
    lemma_version_order_antisym(v, y);
    lemma_version_order_trans(v, x, y);
    lemma_version_order_trans(v, y, x);
    if ver_eq(x, y) {
        lemma_version_order_congruent(x, y, v);
    }
}

/// The version of a bound, or `v` where there is none.
spec fn bound_or(a: IntervalV, v: VersionV) -> VersionV {
    match a {
        IntervalV::Closed(x, _) => x,
        IntervalV::Open(x, _) => x,
        IntervalV::Unbounded => v,
    }
}

/// For a release version, `>=!` means the same as `>=`.
proof fn lemma_release_ge(v: VersionV, l: VersionV)
    requires
        !is_pre(v),
    ensures
        release_ge(v, l) <==> ver_le(l, v),
{
    lemma_version_order_antisym(l, v);
    if l.pre.len() == 0 {
        assert(release_ge(v, l) <==> ver_le(l, v));
    }
}

/// Whether a version meets a lower bound.
pub open spec fn lower_ok(a: IntervalV, v: VersionV) -> bool {
    match a {
        IntervalV::Open(l, _) => ver_lt(l, v),
        IntervalV::Closed(l, p) => if p {
            release_ge(v, l)
        } else {
            ver_le(l, v)
        },
        IntervalV::Unbounded => true,
    }
}

/// Whether a version meets an upper bound.
pub open spec fn upper_ok(a: IntervalV, v: VersionV) -> bool {
    match a {
        IntervalV::Open(u, _) => ver_lt(v, u),
        IntervalV::Closed(u, _) => ver_le(v, u),
        IntervalV::Unbounded => true,
    }
}

/// Whether the meet of two ranges exists and is satisfied by `v`.
pub open spec fn meet_satisfied(x: RangeV, y: RangeV, v: VersionV) -> bool {
    range_meet(x, y) matches Some(z) && range_satisfies(z, v)
}

proof fn lemma_meet_row(acc: Seq<RangeV>, r: RangeV, b: Seq<RangeV>, n: int, v: VersionV)
    requires
        0 <= n <= b.len(),
    ensures
        ranges_satisfy(meet_row(acc, r, b, n), v) <==> ranges_satisfy(acc, v) || exists|j: int|
            0 <= j < n && #[trigger] meet_satisfied(r, b[j], v),
    decreases n,
{
    if n > 0 {
        lemma_meet_row(acc, r, b, n - 1, v);
        let p = meet_row(acc, r, b, n - 1);
        match range_meet(r, b[n - 1]) {
            Some(x) => {
                lemma_push_new_satisfies(p, x, v);
            },
            None => {},
        }
        if exists|j: int| 0 <= j < n && #[trigger] meet_satisfied(r, b[j], v) {
            let j = choose|j: int| 0 <= j < n && #[trigger] meet_satisfied(r, b[j], v);
            if j < n - 1 {
                assert(exists|k: int| 0 <= k < n - 1 && #[trigger] meet_satisfied(r, b[k], v));
            }
        }
        if meet_satisfied(r, b[n - 1], v) {
            assert(exists|k: int| 0 <= k < n && #[trigger] meet_satisfied(r, b[k], v));
        }
    }
}

proof fn lemma_meet_prefix(a: Seq<RangeV>, b: Seq<RangeV>, m: int, v: VersionV)
    requires
        0 <= m <= a.len(),
    ensures
        ranges_satisfy(meet_prefix(a, b, m), v) <==> exists|i: int, j: int|
            0 <= i < m && 0 <= j < b.len() && #[trigger] meet_satisfied(a[i], b[j], v),
    decreases m,
{
    if m > 0 {
        lemma_meet_prefix(a, b, m - 1, v);
        lemma_meet_row(meet_prefix(a, b, m - 1), a[m - 1], b, b.len() as int, v);
        if exists|i: int, j: int| 0 <= i < m && 0 <= j < b.len() && #[trigger] meet_satisfied(a[i], b[j], v) {
            let (i, j) = choose|i: int, j: int|
                0 <= i < m && 0 <= j < b.len() && #[trigger] meet_satisfied(a[i], b[j], v);
            if i < m - 1 {
                assert(exists|i2: int, j2: int|
                    0 <= i2 < m - 1 && 0 <= j2 < b.len() && #[trigger] meet_satisfied(a[i2], b[j2], v));
            } else {
                assert(exists|k: int| 0 <= k < b.len() && #[trigger] meet_satisfied(a[m - 1], b[k], v));
            }
        }
        if exists|k: int| 0 <= k < b.len() && #[trigger] meet_satisfied(a[m - 1], b[k], v) {
            let k = choose|k: int| 0 <= k < b.len() && #[trigger] meet_satisfied(a[m - 1], b[k], v);
            assert(meet_satisfied(a[m - 1], b[k], v));
        }
    }
}

/// A release version that satisfies the intersection of two constraints satisfies both.
pub proof fn law_intersection_sound(a: Seq<RangeV>, b: Seq<RangeV>, v: VersionV)
    requires
        !is_pre(v),
        ranges_satisfy(intersection(a, b), v),
    ensures
        ranges_satisfy(a, v),
        ranges_satisfy(b, v),
{
    lemma_meet_prefix(a, b, a.len() as int, v);
    let (i, j) = choose|i: int, j: int|
        0 <= i < a.len() && 0 <= j < b.len() && #[trigger] meet_satisfied(a[i], b[j], v);
    lemma_meet_sound(a[i], b[j], v);
}

/// A release version that satisfies both constraints satisfies their intersection, where the
/// meet of the ranges that it satisfies is a range that `Range::new` accepts.
pub proof fn law_intersection_complete(a: Seq<RangeV>, b: Seq<RangeV>, v: VersionV)
    requires
        !is_pre(v),
        ranges_satisfy(a, v),
        ranges_satisfy(b, v),
        forall|i: int, j: int|
            0 <= i < a.len() && 0 <= j < b.len() && range_satisfies(#[trigger] a[i], v)
                && range_satisfies(#[trigger] b[j], v) ==> range_meet(a[i], b[j]) is Some,
    ensures
        ranges_satisfy(intersection(a, b), v),
{
    let i = choose|i: int| 0 <= i < a.len() && range_satisfies(#[trigger] a[i], v);
    let j = choose|j: int| 0 <= j < b.len() && range_satisfies(#[trigger] b[j], v);
    lemma_bound_satisfies(a[i].lower, b[j].lower, v);
    lemma_upper_satisfies(a[i].upper, b[j].upper, v);
    assert(meet_satisfied(a[i], b[j], v));
    lemma_meet_prefix(a, b, a.len() as int, v);
}

proof fn lemma_diff_any_row(st: DiffState)
    requires
        !st.stop,
    ensures
        diff_row(st, seq![any_range()], 1) == Some(DiffState { keep: false, stop: true, ..st }),
{
    reveal(interval_order);
    assert(diff_row(st, seq![any_range()], 0) == Some(st));
}

proof fn lemma_diff_any_prefix(a: Seq<RangeV>, m: int)
    requires
        0 <= m <= a.len(),
    ensures
        diff_prefix(a, seq![any_range()], m) == Some(Seq::<RangeV>::empty()),
    decreases m,
{
    if m > 0 {
        lemma_diff_any_prefix(a, m - 1);
        lemma_diff_any_row(DiffState { r: a[m - 1], keep: true, stop: false, set: Seq::empty() });
    }
}

/// Taking every version away from a constraint leaves nothing.
pub proof fn law_difference_any(a: Seq<RangeV>)
    ensures
        difference(a, seq![any_range()]) == Some(Seq::<RangeV>::empty()),
{
    lemma_diff_any_prefix(a, a.len() as int);
}

/// Whether a bound carries `!`.
pub open spec fn flagged(a: IntervalV) -> bool {
    match a {
        IntervalV::Closed(_, p) => p,
        IntervalV::Open(_, p) => p,
        IntervalV::Unbounded => false,
    }
}

/// A range that `Range::new` refuses is satisfied by no version, where neither bound carries
/// `!`.
pub proof fn law_refused_range_is_empty(lower: IntervalV, upper: IntervalV, v: VersionV)
    requires
        !flagged(lower),
        !flagged(upper),
        !crate::interval::range_new_ok(lower, upper),
    ensures
        !range_satisfies(RangeV { lower, upper }, v),
{
    reveal(interval_order);
    match (lower, upper) {
        (IntervalV::Open(a, _), IntervalV::Open(b, _)) => {
            lemma_version_order_antisym(a, b);
            lemma_version_order_antisym(a, v);
            lemma_version_order_trans(a, v, b);
            lemma_version_order_trans(b, a, v);
            if ver_eq(a, b) {
                lemma_version_order_congruent(a, b, v);
            }
        },
        (IntervalV::Closed(a, _), IntervalV::Closed(b, _)) => {
            lemma_version_order_antisym(a, b);
            lemma_version_order_antisym(a, v);
            lemma_version_order_antisym(v, b);
            lemma_version_order_trans(a, v, b);
        },
        (IntervalV::Open(a, _), IntervalV::Closed(b, _)) => {
            lemma_version_order_antisym(a, b);
            lemma_version_order_antisym(a, v);
            lemma_version_order_antisym(v, b);
            lemma_version_order_trans(a, v, b);
            if ver_eq(a, b) {
                lemma_version_order_congruent(a, b, v);
            }
        },
        (IntervalV::Closed(a, _), IntervalV::Open(b, _)) => {
            lemma_version_order_antisym(a, b);
            lemma_version_order_antisym(a, v);
            lemma_version_order_antisym(v, b);
            lemma_version_order_trans(a, v, b);
            if ver_eq(a, b) {
                lemma_version_order_congruent(a, b, v);
            }
        },
        _ => {},
    }
}

/// Two ranges without `!` whose intersection `Range::intersection` finds empty have no
/// version in common.
pub proof fn law_no_meet_is_disjoint(x: RangeV, y: RangeV, v: VersionV)
    requires
        !flagged(x.lower),
        !flagged(x.upper),
        !flagged(y.lower),
        !flagged(y.upper),
        range_meet(x, y) is None,
    ensures
        !(range_satisfies(x, v) && range_satisfies(y, v)),
{
    let lo = interval_max(x.lower, y.lower, true);
    let up = interval_min(x.upper, y.upper, false);
    law_refused_range_is_empty(lo, up, v);
    if range_satisfies(x, v) && range_satisfies(y, v) {
        reveal(interval_order);
        assert(lo == x.lower || lo == y.lower);
        assert(up == x.upper || up == y.upper);
        assert(range_satisfies(RangeV { lower: lo, upper: up }, v));
    }
}

// ---------------------------------------------------------------------------------------
// Unification leaves disjoint ranges.

/// A `>=!` lower bound: it lets in the pre-releases of its own version, which lie below it.
pub open spec fn pre_lower(a: IntervalV) -> bool {
    a matches IntervalV::Closed(_, true)
}

pub open spec fn unbounded_below(r: RangeV) -> bool {
    r.lower is Unbounded
}

proof fn lemma_satisfies_bounds(r: RangeV, v: VersionV)
    requires
        range_satisfies(r, v),
    ensures
        lower_ok(r.lower, v),
        upper_ok(r.upper, v),
{
}

/// A version above a lower bound is above every lower bound that orders before it.
proof fn lemma_lower_ok_mono(a: IntervalV, b: IntervalV, v: VersionV)
    requires
        interval_order(a, b, true) != Order::Greater,
        !pre_lower(a),
        !pre_lower(b),
        lower_ok(b, v),
    ensures
        lower_ok(a, v),
{
    reveal(interval_order);
    match (a, b) {
        (IntervalV::Unbounded, _) => {},
        (_, IntervalV::Unbounded) => {},
        _ => {
            let x = crate::interval::bound_version(a);
            let y = crate::interval::bound_version(b);
            lemma_version_order_antisym(x, y);
            lemma_version_order_trans(x, y, v);
            if ver_eq(x, y) {
                lemma_version_order_congruent(x, y, v);
            }
        },
    }
}

/// Where unification does not merge a range with its successor, no version lies both under
/// the range's upper bound and over the successor's lower bound.
proof fn lemma_merge_gap(a: RangeV, b: RangeV, v: VersionV)
    requires
        merge_step(a, b) is None,
        !unbounded_below(b),
        !pre_lower(b.lower),
        upper_ok(a.upper, v),
    ensures
        !lower_ok(b.lower, v),
{
    reveal(interval_order);
    match (a.upper, b.lower) {
        (IntervalV::Unbounded, _) => {},
        _ => {
            let x = crate::interval::bound_version(a.upper);
            let y = crate::interval::bound_version(b.lower);
            lemma_version_order_antisym(x, y);
            lemma_version_order_antisym(v, y);
            lemma_version_order_antisym(y, v);
            lemma_version_order_trans(v, x, y);
            if ver_eq(x, y) {
                lemma_version_order_congruent(x, y, v);
            }
        },
    }
}

/// Sorting keeps the ranges it was given, and keeps a pairwise property of them.
proof fn lemma_sort_members(s: Seq<RangeV>, n: int)
    requires
        0 <= n <= s.len(),
        all_valid(s),
    ensures
        forall|i: int|
            0 <= i < sort_prefix(s, n).len() ==> exists|m: int|
                0 <= m < n && #[trigger] sort_prefix(s, n)[i] == s[m],
        (forall|i: int, j: int|
            0 <= i < j < n ==> !(#[trigger] unbounded_below(s[i]) && #[trigger] unbounded_below(s[j])))
            ==> forall|i: int, j: int|
            0 <= i < j < sort_prefix(s, n).len() ==> !(#[trigger] unbounded_below(sort_prefix(s, n)[i])
                && #[trigger] unbounded_below(sort_prefix(s, n)[j])),
    decreases n,
{
    lemma_sort_prefix(s, n);
    if n > 0 {
        lemma_sort_members(s, n - 1);
        lemma_sort_prefix(s, n - 1);
        let t = sort_prefix(s, n - 1);
        let x = s[n - 1];
        let p = insert_pos(t, x);
        let u = sort_prefix(s, n);
        assert(u == t.insert(p, x));
        assert(0 <= p <= t.len()) by {
            crate::constraint::lemma_insert_pos(t, x);
        }
        assert forall|i: int| 0 <= i < u.len() implies exists|m: int|
            0 <= m < n && #[trigger] u[i] == s[m] by {
            if i < p {
                assert(u[i] == t[i]);
            } else if i == p {
                assert(u[i] == s[n - 1]);
            } else {
                assert(u[i] == t[i - 1]);
            }
        }
        if forall|i: int, j: int|
            0 <= i < j < n ==> !(#[trigger] unbounded_below(s[i]) && #[trigger] unbounded_below(s[j])) {
            assert forall|i: int, j: int| 0 <= i < j < u.len() implies !(#[trigger] unbounded_below(u[i])
                && #[trigger] unbounded_below(u[j])) by {
                if i != p && j != p {
                    let a = if i < p { i } else { i - 1 };
                    let b = if j < p { j } else { j - 1 };
                    assert(u[i] == t[a] && u[j] == t[b]);
                    assert(unbounded_below(t[a]) && unbounded_below(t[b]) ==> false);
                } else {
                    let k = if i == p { j } else { i };
                    let a = if k < p { k } else { k - 1 };
                    assert(u[k] == t[a]);
                    assert(u[p] == x);
                    let m = choose|m: int| 0 <= m < n - 1 && #[trigger] t[a] == s[m];
                    if m < n - 1 {
                        assert(!(unbounded_below(s[m]) && unbounded_below(s[n - 1])));
                    }
                }
            }
        }
    }
}

/// The state of unification after `n` ranges: the finished ranges are pairwise disjoint, and
/// none of them reaches the lower bound of the range being grown, which is that of one of the
/// first `n` ranges.
proof fn lemma_coalesce_disjoint(s: Seq<RangeV>, n: int, v: VersionV)
    requires
        1 <= n <= s.len(),
        sorted_by_lower(s),
        forall|i: int| 0 <= i < s.len() ==> !pre_lower(#[trigger] s[i].lower),
    ensures
        ({
            let (done, acc) = coalesce_prefix(s, n);
            &&& exists|m: int| 0 <= m < n && acc.lower == #[trigger] s[m].lower
            &&& forall|i: int, j: int|
                0 <= i < j < done.len() ==> !(range_satisfies(#[trigger] done[i], v) && range_satisfies(
                    #[trigger] done[j],
                    v,
                ))
            &&& forall|i: int| 0 <= i < done.len() && range_satisfies(#[trigger] done[i], v) ==> !lower_ok(acc.lower, v)
        }),
    decreases n,
{
    if n > 1 {
        lemma_coalesce_disjoint(s, n - 1, v);
        let (done, acc) = coalesce_prefix(s, n - 1);
        let m = choose|m: int| 0 <= m < n - 1 && acc.lower == #[trigger] s[m].lower;
        let b = s[n - 1];
        if merge_step(acc, b) is None {
            let d = done.push(acc);
            assert(coalesce_prefix(s, n) == (d, b));
            assert(b.lower == s[n - 1].lower);
            assert forall|i: int, j: int| 0 <= i < j < d.len() implies !(range_satisfies(#[trigger] d[i], v)
                && range_satisfies(#[trigger] d[j], v)) by {
                assert(d[i] == done[i]);
                if j < done.len() {
                    assert(d[j] == done[j]);
                } else {
                    assert(d[j] == acc);
                    if range_satisfies(acc, v) {
                        lemma_satisfies_bounds(acc, v);
                    }
                }
            }
            assert forall|i: int| 0 <= i < d.len() && range_satisfies(#[trigger] d[i], v) implies !lower_ok(
                b.lower,
                v,
            ) by {
                if i < done.len() {
                    assert(d[i] == done[i]);
                    assert(interval_order(s[m].lower, s[n - 1].lower, true) != Order::Greater);
                    if lower_ok(b.lower, v) {
                        lemma_lower_ok_mono(s[m].lower, b.lower, v);
                    }
                } else {
                    assert(d[i] == acc);
                    lemma_satisfies_bounds(acc, v);
                    lemma_merge_gap(acc, b, v);
                }
            }
        } else {
            assert(coalesce_prefix(s, n).0 == done);
            assert(coalesce_prefix(s, n).1.lower == s[m].lower);
        }
    }
}

/// Unification leaves ranges that no version satisfies two of, where no lower bound is `>=!`.
pub proof fn law_unify_disjoint(s: Seq<RangeV>, v: VersionV)
    requires
        all_valid(s),
        forall|i: int| 0 <= i < s.len() ==> !pre_lower(#[trigger] s[i].lower),
    ensures
        forall|i: int, j: int|
            0 <= i < j < unify(s).len() ==> !(range_satisfies(#[trigger] unify(s)[i], v) && range_satisfies(
                #[trigger] unify(s)[j],
                v,
            )),
{
    let t = sort_by_lower(s);
    lemma_sort_prefix(s, s.len() as int);
    lemma_sort_members(s, s.len() as int);
    assert forall|i: int| 0 <= i < t.len() implies !pre_lower(#[trigger] t[i].lower) by {
        let m = choose|m: int| 0 <= m < s.len() && #[trigger] t[i] == s[m];
        assert(!pre_lower(s[m].lower));
    }
    let c = coalesce(t);
    if t.len() > 0 {
        lemma_coalesce_disjoint(t, t.len() as int, v);
        let (done, acc) = coalesce_prefix(t, t.len() as int);
        assert(c == done.push(acc));
        assert forall|i: int, j: int| 0 <= i < j < c.len() implies !(range_satisfies(#[trigger] c[i], v)
            && range_satisfies(#[trigger] c[j], v)) by {
            assert(c[i] == done[i]);
            if j < done.len() {
                assert(c[j] == done[j]);
            } else {
                assert(c[j] == acc);
                if range_satisfies(acc, v) {
                    lemma_satisfies_bounds(acc, v);
                }
            }
        }
    }
    lemma_dedup_disjoint(c, c.len() as int, v);
}

/// Dropping repeated ranges keeps ranges of the given sequence, each at most once.
proof fn lemma_dedup_disjoint(s: Seq<RangeV>, n: int, v: VersionV)
    requires
        0 <= n <= s.len(),
        forall|i: int, j: int|
            0 <= i < j < s.len() ==> !(range_satisfies(#[trigger] s[i], v) && range_satisfies(#[trigger] s[j], v)),
    ensures
        forall|i: int|
            0 <= i < dedup_prefix(s, n).len() ==> exists|m: int|
                0 <= m < n && #[trigger] dedup_prefix(s, n)[i] == s[m],
        forall|i: int, j: int|
            0 <= i < j < dedup_prefix(s, n).len() ==> !(range_satisfies(#[trigger] dedup_prefix(s, n)[i], v)
                && range_satisfies(#[trigger] dedup_prefix(s, n)[j], v)),
    decreases n,
{
    if n > 0 {
        lemma_dedup_disjoint(s, n - 1, v);
        let t = dedup_prefix(s, n - 1);
        let x = s[n - 1];
        if !contains_same(t, x) {
            let u = t.push(x);
            assert(dedup_prefix(s, n) == u);
            assert forall|i: int| 0 <= i < u.len() implies exists|m: int|
                0 <= m < n && #[trigger] u[i] == s[m] by {
                if i < t.len() {
                    assert(u[i] == t[i]);
                } else {
                    assert(u[i] == s[n - 1]);
                }
            }
            assert forall|i: int, j: int| 0 <= i < j < u.len() implies !(range_satisfies(#[trigger] u[i], v)
                && range_satisfies(#[trigger] u[j], v)) by {
                assert(u[i] == t[i]);
                if j < t.len() {
                    assert(u[j] == t[j]);
                } else {
                    assert(u[j] == x);
                    let m = choose|m: int| 0 <= m < n - 1 && #[trigger] t[i] == s[m];
                    assert(!(range_satisfies(s[m], v) && range_satisfies(s[n - 1], v)));
                }
            }
        }
    }
}

// ---------------------------------------------------------------------------------------
// The complement of a unified constraint.

/// The form unification gives a set of ranges: valid ranges sorted by lower bound, no `>=!`
/// lower bound, none but the first unbounded below, and each range apart from the next (the
/// two would not be merged).
pub open spec fn separated(c: Seq<RangeV>) -> bool {
    &&& all_valid(c)
    &&& sorted_by_lower(c)
    &&& forall|i: int| 0 <= i < c.len() ==> !pre_lower(#[trigger] c[i].lower)
    &&& forall|i: int| 1 <= i < c.len() ==> !unbounded_below(#[trigger] c[i])
    &&& forall|i: int, j: int|
        0 <= i && j == i + 1 && j < c.len() ==> #[trigger] merge_step(c[i], c[j]) is None
}

/// `v` lies below the `j`-th range and above the one before it.
pub open spec fn gap_before(c: Seq<RangeV>, j: int, v: VersionV) -> bool {
    !lower_ok(c[j].lower, v) && (j == 0 || !upper_ok(c[j - 1].upper, v))
}

pub open spec fn in_gap(c: Seq<RangeV>, k: int, v: VersionV) -> bool {
    exists|j: int| 0 <= j < k && #[trigger] gap_before(c, j, v)
}

/// `v` lies above the first `k` ranges' last one.
pub open spec fn above_last(c: Seq<RangeV>, k: int, v: VersionV) -> bool {
    k == 0 || !upper_ok(c[k - 1].upper, v)
}

/// What the subtraction state holds: its finished ranges and, where it is kept, its range.
pub open spec fn state_satisfies(st: DiffState, v: VersionV) -> bool {
    ranges_satisfy(st.set, v) || (st.keep && range_satisfies(st.r, v))
}

proof fn lemma_release_satisfies(r: RangeV, v: VersionV)
    requires
        !is_pre(v),
    ensures
        range_satisfies(r, v) <==> lower_ok(r.lower, v) && upper_ok(r.upper, v),
{
}

/// For a release version, a flipped lower bound admits from above exactly what the bound
/// turns away, and a flipped upper bound admits from below what the bound turns away.
proof fn lemma_flip(a: IntervalV, v: VersionV)
    requires
        !is_pre(v),
        !(a is Unbounded),
    ensures
        upper_ok(interval_flip(a), v) <==> !lower_ok(a, v),
        lower_ok(interval_flip(a), v) <==> !upper_ok(a, v),
{
    let x = crate::interval::bound_version(a);
    lemma_version_order_antisym(x, v);
    lemma_release_ge(v, x);
}

/// A version above a valid range's upper bound meets its lower bound.
proof fn lemma_above_range(r: RangeV, v: VersionV)
    requires
        range_valid(r),
        !pre_lower(r.lower),
        !upper_ok(r.upper, v),
    ensures
        lower_ok(r.lower, v),
{
    reveal(interval_order);
    match (r.lower, r.upper) {
        (IntervalV::Unbounded, _) => {},
        (_, IntervalV::Unbounded) => {},
        _ => {
            let x = crate::interval::bound_version(r.lower);
            let y = crate::interval::bound_version(r.upper);
            lemma_version_order_antisym(x, y);
            lemma_version_order_antisym(y, v);
            lemma_version_order_trans(x, y, v);
            if ver_eq(x, y) {
                lemma_version_order_congruent(x, y, v);
            }
        },
    }
}

/// A range apart from its successor has an upper bound.
proof fn lemma_apart_bounded(a: RangeV, b: RangeV)
    requires
        merge_step(a, b) is None,
    ensures
        !(a.upper is Unbounded),
{
    reveal(interval_order);
}

/// The bound just above a range comes before the lower bound of a range apart from it.
proof fn lemma_flip_before(a: RangeV, b: RangeV)
    requires
        merge_step(a, b) is None,
        !unbounded_below(b),
        !pre_lower(b.lower),
    ensures
        interval_order(interval_flip(a.upper), b.lower, true) == Order::Less,
{
    reveal(interval_order);
    lemma_apart_bounded(a, b);
    let x = crate::interval::bound_version(a.upper);
    let y = crate::interval::bound_version(b.lower);
    lemma_version_order_antisym(x, y);
}

/// For a release version, the ranges of a separated set miss `v` exactly when `v` lies
/// below the first, between two of them, or above the last.
proof fn lemma_misses(c: Seq<RangeV>, v: VersionV)
    requires
        separated(c),
        !is_pre(v),
    ensures
        !ranges_satisfy(c, v) <==> in_gap(c, c.len() as int, v) || above_last(c, c.len() as int, v),
{
    let n = c.len() as int;
    if !ranges_satisfy(c, v) {
        lemma_first_gap(c, n, v);
        if !in_gap(c, n, v) && n > 0 {
            lemma_release_satisfies(c[n - 1], v);
        }
    }
    if in_gap(c, n, v) {
        let j = choose|j: int| 0 <= j < n && #[trigger] gap_before(c, j, v);
        assert forall|i: int| 0 <= i < n implies !range_satisfies(#[trigger] c[i], v) by {
            lemma_release_satisfies(c[i], v);
            if i >= j {
                lemma_below_later(c, j, i, v);
            } else {
                lemma_above_earlier(c, j, i, v);
            }
        }
    }
    if above_last(c, n, v) && n > 0 {
        assert forall|i: int| 0 <= i < n implies !range_satisfies(#[trigger] c[i], v) by {
            lemma_release_satisfies(c[i], v);
            lemma_above_earlier(c, n, i, v);
        }
    }
}

/// A version missed by every range meets every lower bound up to the first gap it lies in.
proof fn lemma_first_gap(c: Seq<RangeV>, k: int, v: VersionV)
    requires
        separated(c),
        !is_pre(v),
        0 <= k <= c.len(),
        !ranges_satisfy(c, v),
    ensures
        in_gap(c, k, v) || forall|j: int| 0 <= j < k ==> lower_ok(#[trigger] c[j].lower, v),
    decreases k,
{
    if k > 0 {
        lemma_first_gap(c, k - 1, v);
        if !in_gap(c, k - 1, v) {
            if !lower_ok(c[k - 1].lower, v) {
                if k >= 2 {
                    assert(lower_ok(c[k - 2].lower, v));
                    assert(!range_satisfies(c[k - 2], v));
                    lemma_release_satisfies(c[k - 2], v);
                }
                assert(gap_before(c, k - 1, v));
            }
        } else {
            let j = choose|j: int| 0 <= j < k - 1 && #[trigger] gap_before(c, j, v);
            assert(gap_before(c, j, v));
        }
    }
}

/// Below one range's lower bound is below every later range's.
proof fn lemma_below_later(c: Seq<RangeV>, j: int, i: int, v: VersionV)
    requires
        separated(c),
        0 <= j <= i < c.len(),
        !lower_ok(c[j].lower, v),
    ensures
        !lower_ok(c[i].lower, v),
{
    if i > j {
        assert(interval_order(c[j].lower, c[i].lower, true) != Order::Greater);
        if lower_ok(c[i].lower, v) {
            lemma_lower_ok_mono(c[j].lower, c[i].lower, v);
        }
    }
}

/// Above the upper bound of the range before the `k`-th is above every earlier range's.
proof fn lemma_above_earlier(c: Seq<RangeV>, k: int, i: int, v: VersionV)
    requires
        separated(c),
        0 <= i < k <= c.len(),
        !upper_ok(c[k - 1].upper, v),
    ensures
        !upper_ok(c[i].upper, v),
{
    if i < k - 1 {
        lemma_above_range(c[k - 1], v);
        lemma_interval_order(c[i + 1].lower, c[k - 1].lower, c[k - 1].lower, true);
        assert(interval_order(c[i + 1].lower, c[k - 1].lower, true) != Order::Greater);
        lemma_lower_ok_mono(c[i + 1].lower, c[k - 1].lower, v);
        assert(merge_step(c[i], c[i + 1]) is None);
        if upper_ok(c[i].upper, v) {
            lemma_merge_gap(c[i], c[i + 1], v);
        }
    }
}

pub open spec fn complement_start() -> DiffState {
    DiffState { r: any_range(), keep: true, stop: false, set: Seq::empty() }
}

/// Taking the first `k` ranges of a separated set from the unbounded range leaves the gaps
/// before them and, while the last has an upper bound, the range above it.
#[verifier::rlimit(60)]
proof fn lemma_complement_row(c: Seq<RangeV>, k: int, v: VersionV)
    requires
        separated(c),
        !is_pre(v),
        0 <= k <= c.len(),
        diff_row(complement_start(), c, k) is Some,
    ensures
        ({
            let st = diff_row(complement_start(), c, k).unwrap();
            &&& k == 0 ==> st == complement_start()
            &&& (k >= 1 && !(c[k - 1].upper is Unbounded)) ==> {
                &&& !st.stop
                &&& st.keep
                &&& st.r == (RangeV { lower: interval_flip(c[k - 1].upper), upper: IntervalV::Unbounded })
                &&& (ranges_satisfy(st.set, v) <==> in_gap(c, k, v))
            }
            &&& (k >= 1 && c[k - 1].upper is Unbounded) ==> {
                &&& k == c.len()
                &&& (state_satisfies(st, v) <==> in_gap(c, k, v))
            }
        }),
    decreases k,
{
    if k > 0 {
        if diff_row(complement_start(), c, k - 1) is None {
            lemma_diff_row_none(complement_start(), c, k - 1, k);
        }
        lemma_complement_row(c, k - 1, v);
        let st = diff_row(complement_start(), c, k - 1).unwrap();
        let s = c[k - 1];
        let st2 = diff_row(complement_start(), c, k).unwrap();
        assert(st2 == diff_step(st, s).unwrap());
        let lo = if k == 1 { IntervalV::Unbounded } else { interval_flip(c[k - 2].upper) };
        if k >= 2 {
            assert(merge_step(c[k - 2], c[k - 1]) is None);
            lemma_apart_bounded(c[k - 2], c[k - 1]);
            lemma_flip(c[k - 2].upper, v);
        }
        assert(st.r == (RangeV { lower: lo, upper: IntervalV::Unbounded }));
        assert(!st.stop && st.keep);
        assert(ranges_satisfy(st.set, v) <==> in_gap(c, k - 1, v));
        if s.upper is Unbounded && k < c.len() {
            assert(merge_step(c[k - 1], c[k as int]) is None);
            lemma_apart_bounded(c[k - 1], c[k as int]);
        }
        if !(s.upper is Unbounded) {
            lemma_flip(s.upper, v);
        }
        if !unbounded_below(s) {
            lemma_flip(s.lower, v);
        }
        assert(in_gap(c, k, v) <==> in_gap(c, k - 1, v) || gap_before(c, k - 1, v)) by {
            if in_gap(c, k, v) {
                let j = choose|j: int| 0 <= j < k && #[trigger] gap_before(c, j, v);
                if j < k - 1 {
                    assert(in_gap(c, k - 1, v));
                }
            }
            if in_gap(c, k - 1, v) {
                let j = choose|j: int| 0 <= j < k - 1 && #[trigger] gap_before(c, j, v);
                assert(gap_before(c, j, v));
            }
        }
        if k == 1 && unbounded_below(s) {
            reveal(interval_order);
            assert(interval_order(st.r.lower, s.lower, true) == Order::Equal);
            assert(!gap_before(c, 0, v));
        } else {
            if k >= 2 {
                lemma_flip_before(c[k - 2], s);
            } else {
                reveal(interval_order);
            }
            assert(interval_order(st.r.lower, s.lower, true) == Order::Less);
            reveal(interval_order);
            assert(interval_order(st.r.upper, s.lower, false) == Order::Greater);
            let piece = RangeV { lower: lo, upper: interval_flip(s.lower) };
            lemma_release_satisfies(piece, v);
            assert(range_satisfies(piece, v) <==> gap_before(c, k - 1, v));
            if !(s.upper is Unbounded) {
                assert(st2.set == push_new(st.set, piece));
                lemma_push_new_satisfies(st.set, piece, v);
            } else {
                assert(st2.r == piece);
            }
        }
    }
}

/// The complement of a separated set of ranges holds exactly the release versions that none
/// of its ranges holds, where it can be computed.
pub proof fn law_complement(c: Seq<RangeV>, v: VersionV)
    requires
        separated(c),
        !is_pre(v),
        difference(seq![any_range()], c) is Some,
    ensures
        ranges_satisfy(difference(seq![any_range()], c).unwrap(), v) <==> !ranges_satisfy(c, v),
{
    let n = c.len() as int;
    let a = seq![any_range()];
    assert(a[0] == any_range());
    assert(diff_prefix(a, c, 0) == Some(Seq::<RangeV>::empty()));
    let init = DiffState { r: a[0], keep: true, stop: false, set: Seq::<RangeV>::empty() };
    assert(init == complement_start());
    assert(diff_row(complement_start(), c, n) is Some);
    lemma_complement_row(c, n, v);
    lemma_misses(c, v);
    let st = diff_row(complement_start(), c, n).unwrap();
    let out = difference(a, c).unwrap();
    if st.keep {
        assert(out == push_new(st.set, st.r));
        lemma_push_new_satisfies(st.set, st.r, v);
    } else {
        assert(out == st.set);
    }
    if n == 0 {
        assert(range_satisfies(any_range(), v));
    } else if !(c[n - 1].upper is Unbounded) {
        lemma_release_satisfies(st.r, v);
        lemma_flip(c[n - 1].upper, v);
    } else {
        assert(!above_last(c, n, v));
    }
}

// ---------------------------------------------------------------------------------------
// Unification gives a separated set.

/// A range apart from its successor is apart from every range further on, where no lower
/// bound carries `!`.
proof fn lemma_apart_later(a: RangeV, b: RangeV, c: RangeV)
    requires
        merge_step(a, b) is None,
        interval_order(b.lower, c.lower, true) != Order::Greater,
        !flagged(b.lower),
        !flagged(c.lower),
        !unbounded_below(b),
        !unbounded_below(c),
    ensures
        merge_step(a, c) is None,
{
    reveal(interval_order);
    crate::interval::lemma_bound_versions(a.upper, b.lower, c.lower);
    let x = crate::interval::bound_version(a.upper);
    let y = crate::interval::bound_version(b.lower);
    let z = crate::interval::bound_version(c.lower);
    if ver_eq(x, y) {
        lemma_version_order_congruent(x, y, z);
    }
    if ver_eq(y, z) {
        lemma_version_order_congruent(y, z, x);
    }
    if ver_eq(x, z) {
        lemma_version_order_congruent(x, z, y);
    }
}

/// Merging sorted ranges leaves a separated set whose lower bounds are those of the ranges
/// given.
proof fn lemma_coalesce_separated(t: Seq<RangeV>, n: int)
    requires
        1 <= n <= t.len(),
        all_valid(t),
        sorted_by_lower(t),
        forall|i: int| 0 <= i < t.len() ==> !flagged(#[trigger] t[i].lower),
        forall|i: int| 1 <= i < t.len() ==> !unbounded_below(#[trigger] t[i]),
    ensures
        ({
            let (done, acc) = coalesce_prefix(t, n);
            let y = done.push(acc);
            &&& separated(y)
            &&& forall|i: int| 0 <= i < y.len() ==> exists|m: int|
                0 <= m < n && (#[trigger] y[i]).lower == t[m].lower
            &&& forall|i: int| 1 <= i < y.len() ==> exists|m: int|
                1 <= m < n && (#[trigger] y[i]).lower == t[m].lower
        }),
    decreases n,
{
    let (done, acc) = coalesce_prefix(t, n);
    let y = done.push(acc);
    if n == 1 {
        assert(y =~= seq![t[0]]);
        assert(y[0].lower == t[0].lower);
    } else {
        lemma_coalesce_separated(t, n - 1);
        crate::constraint::lemma_coalesce_prefix(t, n - 1);
        let (d0, a0) = coalesce_prefix(t, n - 1);
        let y0 = d0.push(a0);
        let b = t[n - 1];
        if merge_step(a0, b) is Some {
            let m0 = merge_step(a0, b).unwrap();
            assert(done == d0 && acc == m0);
            assert(m0.lower == a0.lower);
            let k = y0.len() - 1;
            assert(y0[k] == a0);
            assert(y =~= y0.update(k, m0));
            crate::constraint::lemma_coalesce_prefix(t, n);
            assert forall|i: int| 0 <= i < y.len() implies range_valid(#[trigger] y[i]) by {
                if i < k {
                    assert(y[i] == y0[i]);
                }
            }
            assert forall|i: int, j: int| 0 <= i < j < y.len() implies interval_order(
                #[trigger] y[i].lower,
                #[trigger] y[j].lower,
                true,
            ) != Order::Greater by {
                assert(y0[i].lower == y[i].lower && y0[j].lower == y[j].lower);
            }
            assert forall|i: int, j: int|
                0 <= i && j == i + 1 && j < y.len() implies #[trigger] merge_step(y[i], y[j]) is None by {
                assert(y0[i].upper == y[i].upper && y0[j].lower == y[j].lower);
                assert(merge_step(y0[i], y0[j]) is None);
            }
            assert forall|i: int| 0 <= i < y.len() implies exists|m: int|
                0 <= m < n && (#[trigger] y[i]).lower == t[m].lower by {
                assert(y0[i].lower == y[i].lower);
                let m = choose|m: int| 0 <= m < n - 1 && (#[trigger] y0[i]).lower == t[m].lower;
                assert(t[m].lower == y[i].lower);
            }
            assert forall|i: int| 1 <= i < y.len() implies exists|m: int|
                1 <= m < n && (#[trigger] y[i]).lower == t[m].lower by {
                assert(y0[i].lower == y[i].lower);
                let m = choose|m: int| 1 <= m < n - 1 && (#[trigger] y0[i]).lower == t[m].lower;
                assert(t[m].lower == y[i].lower);
            }
            assert(separated(y));
        } else {
            assert(done == y0 && acc == b);
            assert(y == y0.push(b));
            let k = y0.len();
            assert forall|i: int| 0 <= i < y.len() implies range_valid(#[trigger] y[i]) by {
                if i < k {
                    assert(y[i] == y0[i]);
                }
            }
            assert forall|i: int, j: int| 0 <= i < j < y.len() implies interval_order(
                #[trigger] y[i].lower,
                #[trigger] y[j].lower,
                true,
            ) != Order::Greater by {
                assert(y[i] == y0[i]);
                if j < k {
                    assert(y[j] == y0[j]);
                } else {
                    let m = choose|m: int| 0 <= m < n - 1 && (#[trigger] y0[i]).lower == t[m].lower;
                    assert(interval_order(t[m].lower, t[n - 1].lower, true) != Order::Greater);
                }
            }
            assert forall|i: int, j: int|
                0 <= i && j == i + 1 && j < y.len() implies #[trigger] merge_step(y[i], y[j]) is None by {
                assert(y[i] == y0[i]);
                if j < k {
                    assert(y[j] == y0[j]);
                    assert(merge_step(y0[i], y0[j]) is None);
                } else {
                    assert(y[i] == a0 && y[j] == b);
                }
            }
            assert forall|i: int| 0 <= i < y.len() implies exists|m: int|
                0 <= m < n && (#[trigger] y[i]).lower == t[m].lower by {
                if i < k {
                    assert(y[i] == y0[i]);
                    let m = choose|m: int| 0 <= m < n - 1 && (#[trigger] y0[i]).lower == t[m].lower;
                    assert(t[m].lower == y[i].lower);
                } else {
                    assert(y[i].lower == t[n - 1].lower);
                }
            }
            assert forall|i: int| 1 <= i < y.len() implies exists|m: int|
                1 <= m < n && (#[trigger] y[i]).lower == t[m].lower by {
                if i < k {
                    assert(y[i] == y0[i]);
                    let m = choose|m: int| 1 <= m < n - 1 && (#[trigger] y0[i]).lower == t[m].lower;
                    assert(t[m].lower == y[i].lower);
                } else {
                    assert(y[i].lower == t[n - 1].lower);
                }
            }
            assert forall|i: int| 0 <= i < y.len() implies !pre_lower(#[trigger] y[i].lower) by {
                let m = choose|m: int| 0 <= m < n && (#[trigger] y[i]).lower == t[m].lower;
                assert(!flagged(t[m].lower));
            }
            assert forall|i: int| 1 <= i < y.len() implies !unbounded_below(#[trigger] y[i]) by {
                let m = choose|m: int| 1 <= m < n && (#[trigger] y[i]).lower == t[m].lower;
                assert(!unbounded_below(t[m]));
            }
            assert(separated(y));
        }
    }
}

/// `f` picks, in increasing order, the places in `x` among the first `n` that `d` holds.
pub open spec fn picks(d: Seq<RangeV>, x: Seq<RangeV>, f: Seq<int>, n: int) -> bool {
    &&& f.len() == d.len()
    &&& forall|i: int| 0 <= i < f.len() ==> 0 <= #[trigger] f[i] < n && d[i] == x[f[i]]
    &&& forall|i: int, j: int| 0 <= i < j < f.len() ==> #[trigger] f[i] < #[trigger] f[j]
}

/// Dropping repeated ranges keeps the others in their order.
proof fn lemma_dedup_picks(x: Seq<RangeV>, n: int)
    requires
        0 <= n <= x.len(),
    ensures
        exists|f: Seq<int>| #[trigger] picks(dedup_prefix(x, n), x, f, n),
    decreases n,
{
    if n == 0 {
        assert(picks(dedup_prefix(x, 0), x, Seq::<int>::empty(), 0));
    } else {
        lemma_dedup_picks(x, n - 1);
        let d = dedup_prefix(x, n - 1);
        let f = choose|f: Seq<int>| #[trigger] picks(d, x, f, n - 1);
        if contains_same(d, x[n - 1]) {
            assert(picks(dedup_prefix(x, n), x, f, n));
        } else {
            let g = f.push(n - 1);
            let e = d.push(x[n - 1]);
            assert(dedup_prefix(x, n) == e);
            assert forall|i: int| 0 <= i < g.len() implies 0 <= #[trigger] g[i] < n && e[i] == x[g[i]] by {
                if i < f.len() {
                    assert(g[i] == f[i] && e[i] == d[i]);
                }
            }
            assert forall|i: int, j: int| 0 <= i < j < g.len() implies #[trigger] g[i] < #[trigger] g[j] by {
                assert(g[i] == f[i]);
                if j < f.len() {
                    assert(g[j] == f[j]);
                }
            }
            assert(picks(e, x, g, n));
        }
    }
}

/// A separated set stays separated when repeated ranges are dropped.
proof fn lemma_dedup_separated(x: Seq<RangeV>)
    requires
        separated(x),
        forall|i: int| 0 <= i < x.len() ==> !flagged(#[trigger] x[i].lower),
    ensures
        separated(dedup(x)),
        forall|i: int| 0 <= i < dedup(x).len() ==> !flagged(#[trigger] dedup(x)[i].lower),
{
    let n = x.len() as int;
    lemma_dedup_picks(x, n);
    let d = dedup(x);
    let f = choose|f: Seq<int>| #[trigger] picks(d, x, f, n);
    assert forall|i: int| 0 <= i < d.len() implies range_valid(#[trigger] d[i]) by {
        assert(d[i] == x[f[i]]);
    }
    assert forall|i: int, j: int| 0 <= i < j < d.len() implies interval_order(
        #[trigger] d[i].lower,
        #[trigger] d[j].lower,
        true,
    ) != Order::Greater by {
        assert(f[i] < f[j]);
        assert(d[i] == x[f[i]] && d[j] == x[f[j]]);
    }
    assert forall|i: int| 0 <= i < d.len() implies !flagged(#[trigger] d[i].lower) by {
        assert(d[i] == x[f[i]]);
    }
    assert forall|i: int| 0 <= i < d.len() implies !pre_lower(#[trigger] d[i].lower) by {
        assert(d[i] == x[f[i]]);
    }
    assert forall|i: int| 1 <= i < d.len() implies !unbounded_below(#[trigger] d[i]) by {
        assert(f[0] < f[i]);
        assert(d[i] == x[f[i]]);
    }
    assert forall|i: int, j: int|
        0 <= i && j == i + 1 && j < d.len() implies #[trigger] merge_step(d[i], d[j]) is None by {
        let p = f[i];
        let q = f[j];
        assert(p < q);
        assert(d[i] == x[p] && d[j] == x[q]);
        assert(merge_step(x[p], x[p + 1]) is None);
        if q > p + 1 {
            assert(interval_order(x[p + 1].lower, x[q].lower, true) != Order::Greater);
            lemma_apart_later(x[p], x[p + 1], x[q]);
        }
    }
}

/// Unification gives a separated set, where no lower bound carries `!` and at most one range
/// has no lower bound.
pub proof fn law_unify_separated(s: Seq<RangeV>)
    requires
        all_valid(s),
        forall|i: int| 0 <= i < s.len() ==> !flagged(#[trigger] s[i].lower),
        forall|i: int, j: int|
            0 <= i < j < s.len() ==> !(#[trigger] unbounded_below(s[i]) && #[trigger] unbounded_below(s[j])),
    ensures
        separated(unify(s)),
{
    let t = sort_by_lower(s);
    lemma_sort_prefix(s, s.len() as int);
    lemma_sort_members(s, s.len() as int);
    assert forall|i: int| 0 <= i < t.len() implies !flagged(#[trigger] t[i].lower) by {
        let m = choose|m: int| 0 <= m < s.len() && #[trigger] t[i] == s[m];
        assert(!flagged(s[m].lower));
    }
    assert forall|i: int| 1 <= i < t.len() implies !unbounded_below(#[trigger] t[i]) by {
        if unbounded_below(t[i]) {
            reveal(interval_order);
            assert(interval_order(t[0].lower, t[i].lower, true) != Order::Greater);
            assert(unbounded_below(t[0]));
        }
    }
    let c = coalesce(t);
    if t.len() > 0 {
        lemma_coalesce_separated(t, t.len() as int);
        let (done, acc) = coalesce_prefix(t, t.len() as int);
        assert(c == done.push(acc));
        assert forall|i: int| 0 <= i < c.len() implies !flagged(#[trigger] c[i].lower) by {
            let m = choose|m: int| 0 <= m < t.len() && (#[trigger] c[i]).lower == t[m].lower;
            assert(!flagged(t[m].lower));
        }
    } else {
        assert(c =~= Seq::<RangeV>::empty());
    }
    lemma_dedup_separated(c);
}

/// The complement of a unified constraint holds exactly the release versions that the
/// constraint does not hold, where it can be computed, no lower bound carries `!` and at
/// most one range has no lower bound.
pub proof fn law_complement_of_unified(s: Seq<RangeV>, v: VersionV)
    requires
        all_valid(s),
        forall|i: int| 0 <= i < s.len() ==> !flagged(#[trigger] s[i].lower),
        forall|i: int, j: int|
            0 <= i < j < s.len() ==> !(#[trigger] unbounded_below(s[i]) && #[trigger] unbounded_below(s[j])),
        !is_pre(v),
        difference(seq![any_range()], unify(s)) is Some,
    ensures
        ranges_satisfy(difference(seq![any_range()], unify(s)).unwrap(), v) <==> !ranges_satisfy(
            unify(s),
            v,
        ),
{
    law_unify_separated(s);
    law_complement(unify(s), v);
}

// ---------------------------------------------------------------------------------------
// The complement of the complement.

/// What the complement needs of a set of ranges: each but the first has a lower bound, each
/// but the last an upper bound, and the bound just above each range comes before the next
/// range's lower bound.
pub open spec fn steps_up(c: Seq<RangeV>) -> bool {
    &&& forall|i: int| 1 <= i < c.len() ==> !unbounded_below(#[trigger] c[i])
    &&& forall|i: int| 0 <= i < c.len() - 1 ==> !((#[trigger] c[i]).upper is Unbounded)
    &&& forall|i: int, j: int|
        0 <= i && j == i + 1 && j < c.len() ==> #[trigger] interval_order(
            interval_flip(c[i].upper),
            c[j].lower,
            true,
        ) == Order::Less
}

/// The lower bound of the gap before the `k`-th range.
pub open spec fn gap_lower(c: Seq<RangeV>, k: int) -> IntervalV {
    if k == 0 {
        IntervalV::Unbounded
    } else {
        interval_flip(c[k - 1].upper)
    }
}

/// The gap before the `j`-th range.
pub open spec fn gap_piece(c: Seq<RangeV>, j: int) -> RangeV {
    RangeV { lower: gap_lower(c, j), upper: interval_flip(c[j].lower) }
}

/// The gaps before the first `k` ranges; there is none before a first range unbounded below.
pub open spec fn gap_pieces(c: Seq<RangeV>, k: int) -> Seq<RangeV>
    decreases k,
{
    if k <= 0 {
        Seq::empty()
    } else if k == 1 && unbounded_below(c[0]) {
        Seq::empty()
    } else {
        gap_pieces(c, k - 1).push(gap_piece(c, k - 1))
    }
}

/// The part above the last range: everything where there is no range, nothing where the last
/// range is unbounded above.
pub open spec fn top_piece(c: Seq<RangeV>) -> Seq<RangeV> {
    if c.len() == 0 {
        seq![any_range()]
    } else if c[c.len() - 1].upper is Unbounded {
        Seq::empty()
    } else {
        seq![RangeV { lower: gap_lower(c, c.len() as int), upper: IntervalV::Unbounded }]
    }
}

/// The ranges of the complement: the gaps between the ranges and the part above them.
pub open spec fn complement_pieces(c: Seq<RangeV>) -> Seq<RangeV> {
    gap_pieces(c, c.len() as int) + top_piece(c)
}

/// Where the gaps start: one range later where the first is unbounded below.
pub open spec fn gap_offset(c: Seq<RangeV>) -> int {
    if c.len() > 0 && unbounded_below(c[0]) {
        1
    } else {
        0
    }
}

proof fn lemma_gap_pieces_index(c: Seq<RangeV>, k: int)
    requires
        1 <= k <= c.len(),
    ensures
        gap_pieces(c, k).len() == k - gap_offset(c),
        forall|i: int|
            0 <= i < gap_pieces(c, k).len() ==> #[trigger] gap_pieces(c, k)[i] == gap_piece(c, i + gap_offset(c)),
    decreases k,
{
    if k == 1 {
        assert(gap_pieces(c, 0) == Seq::<RangeV>::empty());
        if !unbounded_below(c[0]) {
            assert(gap_pieces(c, 1) == seq![gap_piece(c, 0)]);
        }
    } else {
        lemma_gap_pieces_index(c, k - 1);
        let g = gap_pieces(c, k - 1);
        assert forall|i: int|
            0 <= i < gap_pieces(c, k).len() implies #[trigger] gap_pieces(c, k)[i] == gap_piece(c, i + gap_offset(c)) by {
            if i < g.len() {
                assert(gap_pieces(c, k)[i] == g[i]);
            }
        }
    }
}

/// A valid range's lower bound comes before the bound just above it.
proof fn lemma_lower_before_flip(r: RangeV)
    requires
        range_valid(r),
        !(r.upper is Unbounded),
    ensures
        interval_order(r.lower, interval_flip(r.upper), true) == Order::Less,
{
    reveal(interval_order);
    crate::interval::lemma_bound_versions(r.lower, r.upper, r.upper);
}

/// Equal bounds compare equal as lower bounds.
proof fn lemma_same_lower(a: IntervalV, b: IntervalV)
    requires
        interval_same(a, b),
    ensures
        interval_order(a, b, true) == Order::Equal,
{
    reveal(interval_order);
    crate::interval::lemma_bound_versions(a, b, b);
}

/// No lower bound comes before the absent one.
proof fn lemma_unbounded_first(b: IntervalV)
    requires
        !(b is Unbounded),
    ensures
        interval_order(IntervalV::Unbounded, b, true) == Order::Less,
{
    reveal(interval_order);
}

/// The lower bound of each gap comes before that of the next.
proof fn lemma_gap_lower_step(c: Seq<RangeV>, m: int)
    requires
        all_valid(c),
        steps_up(c),
        0 <= m < c.len(),
        !(c[m].upper is Unbounded),
    ensures
        interval_order(gap_lower(c, m), gap_lower(c, m + 1), true) == Order::Less,
{
    if m == 0 {
        lemma_unbounded_first(gap_lower(c, 1));
    } else {
        assert(interval_order(interval_flip(c[m - 1].upper), c[m].lower, true) == Order::Less);
        lemma_lower_before_flip(c[m]);
        lemma_interval_order(gap_lower(c, m), c[m].lower, gap_lower(c, m + 1), true);
    }
}

/// The gaps' lower bounds rise.
proof fn lemma_gap_lower_rises(c: Seq<RangeV>, j: int, k: int)
    requires
        all_valid(c),
        steps_up(c),
        0 <= j < k <= c.len(),
        !(c[k - 1].upper is Unbounded),
    ensures
        interval_order(gap_lower(c, j), gap_lower(c, k), true) == Order::Less,
    decreases k - j,
{
    lemma_gap_lower_step(c, k - 1);
    if k - 1 > j {
        assert(!(c[k - 2].upper is Unbounded));
        lemma_gap_lower_rises(c, j, k - 1);
        lemma_interval_order(gap_lower(c, j), gap_lower(c, k - 1), gap_lower(c, k), true);
    }
}

/// No upper bound comes after the absent one.
proof fn lemma_unbounded_top(b: IntervalV)
    requires
        !(b is Unbounded),
    ensures
        interval_order(IntervalV::Unbounded, b, false) == Order::Greater,
{
    reveal(interval_order);
}

/// A range whose lower bound is that of the `k`-th gap is none of the gaps before it.
proof fn lemma_new_after(c: Seq<RangeV>, k: int, x: RangeV)
    requires
        all_valid(c),
        steps_up(c),
        0 <= k <= c.len(),
        k >= 1 ==> !(c[k - 1].upper is Unbounded),
        x.lower == gap_lower(c, k),
    ensures
        !contains_same(gap_pieces(c, k), x),
{
    let g = gap_pieces(c, k);
    crate::constraint::lemma_contains_same_index(g, x);
    if k >= 1 {
        lemma_gap_pieces_index(c, k);
        assert forall|i: int| 0 <= i < g.len() implies !range_same(#[trigger] g[i], x) by {
            let j = i + gap_offset(c);
            assert(g[i] == gap_piece(c, j));
            lemma_gap_lower_rises(c, j, k);
            if interval_same(g[i].lower, x.lower) {
                lemma_same_lower(g[i].lower, x.lower);
            }
        }
    }
}

/// A gap added to the earlier ones is new: its lower bound comes after theirs.
proof fn lemma_new_gap(c: Seq<RangeV>, k: int)
    requires
        all_valid(c),
        steps_up(c),
        1 <= k <= c.len(),
        k >= 2 ==> !(c[k - 2].upper is Unbounded),
    ensures
        !contains_same(gap_pieces(c, k - 1), gap_piece(c, k - 1)),
{
    lemma_new_after(c, k - 1, gap_piece(c, k - 1));
}

/// Taking the first `k` ranges from the unbounded range leaves exactly the gaps before them
/// and, while the last has an upper bound, the range above it.
proof fn lemma_complement_steps(c: Seq<RangeV>, k: int)
    requires
        all_valid(c),
        steps_up(c),
        0 <= k <= c.len(),
        diff_row(complement_start(), c, k) is Some,
    ensures
        ({
            let st = diff_row(complement_start(), c, k).unwrap();
            &&& k == 0 ==> st == complement_start()
            &&& (k >= 1 && !(c[k - 1].upper is Unbounded)) ==> {
                &&& !st.stop
                &&& st.keep
                &&& st.r == (RangeV { lower: gap_lower(c, k), upper: IntervalV::Unbounded })
                &&& st.set == gap_pieces(c, k)
                &&& all_valid(st.set)
            }
            &&& (k >= 1 && c[k - 1].upper is Unbounded) ==> {
                &&& k == c.len()
                &&& if k == 1 && unbounded_below(c[0]) {
                    !st.keep && st.set == Seq::<RangeV>::empty()
                } else {
                    &&& st.keep
                    &&& st.set == gap_pieces(c, k - 1)
                    &&& st.r == gap_piece(c, k - 1)
                    &&& all_valid(st.set.push(st.r))
                }
            }
        }),
    decreases k,
{
    if k > 0 {
        if diff_row(complement_start(), c, k - 1) is None {
            lemma_diff_row_none(complement_start(), c, k - 1, k);
        }
        lemma_complement_steps(c, k - 1);
        let st = diff_row(complement_start(), c, k - 1).unwrap();
        let s = c[k - 1];
        let st2 = diff_row(complement_start(), c, k).unwrap();
        assert(st2 == diff_step(st, s).unwrap());
        if k >= 2 {
            assert(!(c[k - 2].upper is Unbounded));
        }
        assert(st.r == (RangeV { lower: gap_lower(c, k - 1), upper: IntervalV::Unbounded }));
        assert(!st.stop && st.keep);
        if s.upper is Unbounded && k < c.len() {
            assert(!(c[k - 1].upper is Unbounded));
        }
        if k == 1 && unbounded_below(s) {
            lemma_interval_order(IntervalV::Unbounded, IntervalV::Unbounded, IntervalV::Unbounded, true);
            assert(interval_order(st.r.lower, s.lower, true) == Order::Equal);
        } else {
            if k == 1 {
                lemma_unbounded_first(s.lower);
            } else {
                assert(interval_order(interval_flip(c[k - 2].upper), c[k - 1].lower, true) == Order::Less);
            }
            assert(interval_order(st.r.lower, s.lower, true) == Order::Less);
            lemma_unbounded_top(s.lower);
            assert(interval_order(st.r.upper, s.lower, false) == Order::Greater);
            let piece = gap_piece(c, k - 1);
            if s.upper is Unbounded {
                lemma_interval_order(IntervalV::Unbounded, IntervalV::Unbounded, IntervalV::Unbounded, false);
                assert(st2.r == piece);
                assert(st2.set == st.set);
                assert forall|i: int| 0 <= i < st2.set.push(st2.r).len() implies range_valid(
                    #[trigger] st2.set.push(st2.r)[i],
                ) by {
                    if i < st2.set.len() {
                        assert(st2.set.push(st2.r)[i] == st2.set[i]);
                    }
                }
            } else {
                lemma_unbounded_top(s.upper);
                lemma_new_gap(c, k);
                assert(st2.set == st.set.push(piece));
                assert(st2.set == gap_pieces(c, k));
                assert forall|i: int| 0 <= i < st2.set.len() implies range_valid(#[trigger] st2.set[i]) by {
                    if i < st.set.len() {
                        assert(st2.set[i] == st.set[i]);
                    }
                }
            }
        }
    }
}

/// The complement of a set that steps up is exactly its gaps and the part above it.
proof fn lemma_complement_exact(c: Seq<RangeV>)
    requires
        all_valid(c),
        steps_up(c),
        difference(seq![any_range()], c) is Some,
    ensures
        difference(seq![any_range()], c) == Some(complement_pieces(c)),
        all_valid(complement_pieces(c)),
{
    let n = c.len() as int;
    let a = seq![any_range()];
    assert(a[0] == any_range());
    assert(diff_prefix(a, c, 0) == Some(Seq::<RangeV>::empty()));
    let init = DiffState { r: a[0], keep: true, stop: false, set: Seq::<RangeV>::empty() };
    assert(init == complement_start());
    assert(diff_row(complement_start(), c, n) is Some);
    lemma_complement_steps(c, n);
    let st = diff_row(complement_start(), c, n).unwrap();
    let out = difference(a, c).unwrap();
    let pieces = complement_pieces(c);
    if st.keep {
        assert(out == push_new(st.set, st.r));
    } else {
        assert(out == st.set);
    }
    if n == 0 {
        assert(out == seq![any_range()]);
        assert(pieces =~= seq![any_range()]);
        assert(range_valid(any_range()));
    } else if !(c[n - 1].upper is Unbounded) {
        lemma_new_after(c, n, st.r);
        assert(out == gap_pieces(c, n).push(st.r));
        assert(pieces =~= gap_pieces(c, n).push(st.r));
        assert(range_valid(st.r));
        assert forall|i: int| 0 <= i < pieces.len() implies range_valid(#[trigger] pieces[i]) by {
            if i < gap_pieces(c, n).len() {
                assert(pieces[i] == gap_pieces(c, n)[i]);
            }
        }
    } else if n == 1 && unbounded_below(c[0]) {
        assert(out == Seq::<RangeV>::empty());
        assert(pieces =~= Seq::<RangeV>::empty());
    } else {
        if n >= 2 {
            assert(!(c[n - 2].upper is Unbounded));
        }
        lemma_new_gap(c, n);
        assert(out == gap_pieces(c, n - 1).push(gap_piece(c, n - 1)));
        assert(gap_pieces(c, n) == gap_pieces(c, n - 1).push(gap_piece(c, n - 1)));
        assert(pieces =~= gap_pieces(c, n));
    }
}

/// Flipping a bound twice gives it back.
proof fn lemma_flip_twice(a: IntervalV)
    ensures
        interval_flip(interval_flip(a)) == a,
{
}

/// Where each range of the complement comes from.
proof fn lemma_piece_at(c: Seq<RangeV>, i: int)
    requires
        c.len() >= 1,
        0 <= i < complement_pieces(c).len(),
    ensures
        i < c.len() - gap_offset(c) ==> complement_pieces(c)[i] == gap_piece(c, i + gap_offset(c)),
        i >= c.len() - gap_offset(c) ==> i == c.len() - gap_offset(c) && !(c[c.len() - 1].upper is Unbounded)
            && complement_pieces(c)[i] == (RangeV {
            lower: gap_lower(c, c.len() as int),
            upper: IntervalV::Unbounded,
        }),
{
    let n = c.len() as int;
    lemma_gap_pieces_index(c, n);
    let g = gap_pieces(c, n);
    let p = complement_pieces(c);
    if i < g.len() {
        assert(p[i] == g[i]);
    } else {
        assert(p[i] == top_piece(c)[i - g.len()]);
    }
}

proof fn lemma_pieces_bounded(c: Seq<RangeV>)
    requires
        all_valid(c),
        steps_up(c),
        c.len() >= 1,
    ensures
        forall|i: int|
            1 <= i < complement_pieces(c).len() ==> !unbounded_below(#[trigger] complement_pieces(c)[i]),
        forall|i: int|
            0 <= i < complement_pieces(c).len() - 1 ==> !((#[trigger] complement_pieces(c)[i]).upper is Unbounded),
{
    let p = complement_pieces(c);
    let off = gap_offset(c);
    assert forall|i: int| 1 <= i < p.len() implies !unbounded_below(#[trigger] p[i]) by {
        lemma_piece_at(c, i);
        if i < c.len() - off {
            assert(!(c[i + off - 1].upper is Unbounded));
        }
    }
    assert forall|i: int| 0 <= i < p.len() - 1 implies !((#[trigger] p[i]).upper is Unbounded) by {
        lemma_piece_at(c, i);
        lemma_piece_at(c, p.len() - 1);
        if i + off >= 1 {
            assert(!unbounded_below(c[i + off]));
        }
    }
}

/// The complement's ranges step up in turn.
proof fn lemma_pieces_step_up(c: Seq<RangeV>)
    requires
        all_valid(c),
        steps_up(c),
    ensures
        steps_up(complement_pieces(c)),
{
    let n = c.len() as int;
    let p = complement_pieces(c);
    if n == 0 {
        assert(p =~= seq![any_range()]);
        assert(p.len() == 1);
    } else {
        lemma_pieces_bounded(c);
        assert forall|i: int, j: int|
            0 <= i && j == i + 1 && j < p.len() implies #[trigger] interval_order(
                interval_flip(p[i].upper),
                p[j].lower,
                true,
            ) == Order::Less by {
            lemma_piece_step(c, j);
        }
    }
}

proof fn lemma_piece_step(c: Seq<RangeV>, i: int)
    requires
        all_valid(c),
        steps_up(c),
        c.len() >= 1,
        1 <= i < complement_pieces(c).len(),
    ensures
        interval_order(
            interval_flip(complement_pieces(c)[i - 1].upper),
            complement_pieces(c)[i].lower,
            true,
        ) == Order::Less,
{
    let p = complement_pieces(c);
    let j = i - 1 + gap_offset(c);
    lemma_piece_at(c, i - 1);
    lemma_piece_at(c, i);
    assert(p[i - 1] == gap_piece(c, j));
    lemma_flip_twice(c[j].lower);
    assert(p[i].lower == interval_flip(c[j].upper));
    if j < c.len() - 1 {
        assert(!(c[j].upper is Unbounded));
    }
    assert(range_valid(c[j]));
    lemma_lower_before_flip(c[j]);
}

/// The gaps of the gaps of a set that steps up are its ranges.
proof fn lemma_pieces_twice(c: Seq<RangeV>)
    requires
        all_valid(c),
        steps_up(c),
    ensures
        complement_pieces(complement_pieces(c)) == c,
{
    let n = c.len() as int;
    let p = complement_pieces(c);
    let q = complement_pieces(p);
    if n == 0 {
        assert(p =~= seq![any_range()]);
        assert(unbounded_below(p[0]));
        assert(gap_pieces(p, 1) == Seq::<RangeV>::empty());
        assert(top_piece(p) =~= Seq::<RangeV>::empty());
        assert(q =~= c);
    } else {
        let off = gap_offset(c);
        let m = p.len() as int;
        lemma_gap_pieces_index(c, n);
        assert(m == n - off + top_piece(c).len());
        if m == 0 {
            assert(c[0].lower is Unbounded && c[0].upper is Unbounded);
            assert(c =~= seq![any_range()]);
            assert(gap_pieces(p, 0) == Seq::<RangeV>::empty());
            assert(q =~= seq![any_range()]);
        } else {
            lemma_pieces_step_up(c);
            lemma_piece_at(c, 0);
            lemma_piece_at(c, m - 1);
            let off2 = gap_offset(p);
            assert(off2 == 1 - off) by {
                if off == 0 {
                    assert(!unbounded_below(c[0]));
                    assert(p[0] == gap_piece(c, 0));
                } else if n - off >= 1 {
                    assert(p[0] == gap_piece(c, 1));
                    assert(!(c[0].upper is Unbounded));
                } else {
                    assert(!(c[n - 1].upper is Unbounded));
                }
            }
            lemma_gap_pieces_index(p, m);
            let g2 = gap_pieces(p, m);
            assert(g2.len() == m - off2);
            assert(q == g2 + top_piece(p));
            assert forall|i: int| 0 <= i < g2.len() implies #[trigger] g2[i] == c[i] by {
                let j = i + off2;
                assert(g2[i] == gap_piece(p, j));
                lemma_piece_at(c, j);
                lemma_flip_twice(c[i].upper);
                lemma_flip_twice(c[i].lower);
                if j >= 1 {
                    lemma_piece_at(c, j - 1);
                    assert(p[j - 1] == gap_piece(c, i));
                } else {
                    assert(off == 1 && i == 0);
                }
                assert(p[j].lower == interval_flip(c[i].upper));
            }
            if !(c[n - 1].upper is Unbounded) {
                assert(p[m - 1].upper is Unbounded);
                assert(top_piece(p) =~= Seq::<RangeV>::empty());
                assert(q =~= c);
            } else {
                assert(m - 1 < n - off);
                assert(p[m - 1] == gap_piece(c, n - 1));
                if n - 1 >= 1 {
                    assert(!unbounded_below(c[n - 1]));
                }
                assert(!(p[m - 1].upper is Unbounded));
                lemma_flip_twice(c[n - 1].lower);
                assert(top_piece(p) == seq![c[n - 1]]);
                assert(q =~= c);
            }
        }
    }
}

/// Taking the complement twice gives back the ranges of a set that steps up, where both
/// complements can be computed.
pub proof fn law_complement_twice(c: Seq<RangeV>)
    requires
        all_valid(c),
        steps_up(c),
        difference(seq![any_range()], c) is Some,
        difference(seq![any_range()], difference(seq![any_range()], c).unwrap()) is Some,
    ensures
        difference(seq![any_range()], difference(seq![any_range()], c).unwrap()) == Some(c),
{
    lemma_complement_exact(c);
    let p = complement_pieces(c);
    lemma_pieces_step_up(c);
    lemma_complement_exact(p);
    lemma_pieces_twice(c);
}

/// A separated set steps up.
pub proof fn law_separated_steps_up(c: Seq<RangeV>)
    requires
        separated(c),
    ensures
        steps_up(c),
{
    assert forall|i: int| 0 <= i < c.len() - 1 implies !((#[trigger] c[i]).upper is Unbounded) by {
        assert(merge_step(c[i], c[i + 1]) is None);
        lemma_apart_bounded(c[i], c[i + 1]);
    }
    assert forall|i: int, j: int| 0 <= i && j == i + 1 && j < c.len() implies #[trigger] interval_order(
        interval_flip(c[i].upper),
        c[j].lower,
        true,
    ) == Order::Less by {
        assert(merge_step(c[i], c[j]) is None);
        lemma_flip_before(c[i], c[j]);
    }
}

// ---------------------------------------------------------------------------------------
// Relations between constraints.

/// No two ranges of the sequence are the same.
pub open spec fn distinct(s: Seq<RangeV>) -> bool {
    forall|x: int, y: int| 0 <= x < y < s.len() ==> !range_same(#[trigger] s[x], #[trigger] s[y])
}

proof fn lemma_range_same_equiv(a: RangeV, b: RangeV, c: RangeV)
    ensures
        range_same(a, b) ==> range_same(b, a),
        range_same(a, b) && range_same(b, c) ==> range_same(a, c),
{
}

proof fn lemma_push_new_distinct(s: Seq<RangeV>, x: RangeV)
    requires
        distinct(s),
    ensures
        distinct(push_new(s, x)),
{
    if !contains_same(s, x) {
        crate::constraint::lemma_contains_same_index(s, x);
        let t = s.push(x);
        assert forall|i: int, j: int| 0 <= i < j < t.len() implies !range_same(#[trigger] t[i], #[trigger] t[j]) by {
            assert(t[i] == s[i]);
            if j < s.len() {
                assert(t[j] == s[j]);
            } else {
                assert(t[j] == x);
            }
        }
    }
}

proof fn lemma_meet_row_distinct(acc: Seq<RangeV>, r: RangeV, b: Seq<RangeV>, n: int)
    requires
        distinct(acc),
    ensures
        distinct(meet_row(acc, r, b, n)),
    decreases n,
{
    if n > 0 {
        lemma_meet_row_distinct(acc, r, b, n - 1);
        if range_meet(r, b[n - 1]) is Some {
            lemma_push_new_distinct(meet_row(acc, r, b, n - 1), range_meet(r, b[n - 1]).unwrap());
        }
    }
}

proof fn lemma_meet_prefix_distinct(a: Seq<RangeV>, b: Seq<RangeV>, m: int)
    ensures
        distinct(meet_prefix(a, b, m)),
    decreases m,
{
    if m > 0 {
        lemma_meet_prefix_distinct(a, b, m - 1);
        lemma_meet_row_distinct(meet_prefix(a, b, m - 1), a[m - 1], b, b.len() as int);
    }
}

/// A sequence without repeats that is set-equal to another holds every range of the other:
/// the ranges of the first match distinct ranges of the second, as many as it has.
proof fn lemma_same_set_covers(i: Seq<RangeV>, a: Seq<RangeV>, y: int)
    requires
        same_set(i, a),
        distinct(i),
        0 <= y < a.len(),
    ensures
        contains_same(i, a[y]),
{
    let n = i.len() as int;
    assert forall|x: int| 0 <= x < n implies exists|z: int| 0 <= z < a.len() && range_same(#[trigger] a[z], #[trigger] i[x]) by {
        assert(contains_same(a, i[x]));
        crate::constraint::lemma_contains_same_index(a, i[x]);
    }
    let f = |x: int| choose|z: int| 0 <= z < a.len() && range_same(#[trigger] a[z], i[x]);
    let dom = vstd::set_lib::set_int_range(0, n);
    vstd::set_lib::lemma_int_range(0, n);
    assert forall|x1: int, x2: int| dom.contains(x1) && dom.contains(x2) && #[trigger] f(x1) == #[trigger] f(x2)
        implies x1 == x2 by {
        let z = f(x1);
        lemma_range_same_equiv(i[x1], a[z], i[x2]);
        lemma_range_same_equiv(a[z], i[x1], i[x1]);
        if x1 < x2 {
            assert(!range_same(i[x1], i[x2]));
        } else if x2 < x1 {
            lemma_range_same_equiv(i[x2], a[z], i[x1]);
            lemma_range_same_equiv(a[z], i[x2], i[x2]);
            assert(!range_same(i[x2], i[x1]));
        }
    }
    let img = dom.map(f);
    vstd::set_lib::lemma_map_size(dom, img, f);
    assert(img.subset_of(dom)) by {
        assert forall|z: int| img.contains(z) implies dom.contains(z) by {
            let x = choose|x: int| dom.contains(x) && f(x) == z;
        }
    }
    vstd::set_lib::lemma_subset_equality(img, dom);
    assert(dom.contains(y));
    assert(img.contains(y));
    let x = choose|x: int| dom.contains(x) && f(x) == y;
    lemma_range_same_equiv(a[y], i[x], i[x]);
    crate::constraint::lemma_contains_same_index(i, a[y]);
    assert(range_same(i[x], a[y]));
}

/// A release version in a constraint found a subset of another (or equal to it) is in the
/// other.
pub proof fn law_relation_subset(a: Seq<RangeV>, b: Seq<RangeV>, v: VersionV)
    requires
        relation(a, b) == Relation::Subset || relation(a, b) == Relation::Equal,
        !is_pre(v),
        ranges_satisfy(a, v),
    ensures
        ranges_satisfy(b, v),
{
    let i = intersection(a, b);
    assert(same_set(i, a));
    lemma_meet_prefix_distinct(a, b, a.len() as int);
    let k = choose|k: int| 0 <= k < a.len() && range_satisfies(#[trigger] a[k], v);
    lemma_same_set_covers(i, a, k);
    lemma_contains_same_satisfies(i, a[k], v);
    law_intersection_sound(a, b, v);
}

/// A release version in a constraint that another is found a subset of (or equal to) is in
/// that one.
pub proof fn law_relation_superset(a: Seq<RangeV>, b: Seq<RangeV>, v: VersionV)
    requires
        relation(a, b) == Relation::Superset || relation(a, b) == Relation::Equal,
        !is_pre(v),
        ranges_satisfy(b, v),
    ensures
        ranges_satisfy(a, v),
{
    let i = intersection(a, b);
    assert(same_set(i, b));
    lemma_meet_prefix_distinct(a, b, a.len() as int);
    let k = choose|k: int| 0 <= k < b.len() && range_satisfies(#[trigger] b[k], v);
    lemma_same_set_covers(i, b, k);
    lemma_contains_same_satisfies(i, b[k], v);
    law_intersection_sound(a, b, v);
}

/// Constraints found disjoint share no release version, where no bound carries `!`.
pub proof fn law_relation_disjoint(a: Seq<RangeV>, b: Seq<RangeV>, v: VersionV)
    requires
        relation(a, b) == Relation::Disjoint,
        !is_pre(v),
        forall|i: int| 0 <= i < a.len() ==> !flagged(#[trigger] a[i].lower) && !flagged(a[i].upper),
        forall|j: int| 0 <= j < b.len() ==> !flagged(#[trigger] b[j].lower) && !flagged(b[j].upper),
    ensures
        !(ranges_satisfy(a, v) && ranges_satisfy(b, v)),
{
    if ranges_satisfy(a, v) && ranges_satisfy(b, v) {
        assert forall|i: int, j: int|
            0 <= i < a.len() && 0 <= j < b.len() && range_satisfies(#[trigger] a[i], v)
                && range_satisfies(#[trigger] b[j], v) implies range_meet(a[i], b[j]) is Some by {
            if range_meet(a[i], b[j]) is None {
                law_no_meet_is_disjoint(a[i], b[j], v);
            }
        }
        law_intersection_complete(a, b, v);
        assert(intersection(a, b).len() == 0);
    }
}

// ---------------------------------------------------------------------------------------
// Unification adds no version.

/// A release version in the merge of two ranges lies in one of them, where the bounds that
/// meet carry no `!`.
proof fn lemma_merge_covers(a: RangeV, b: RangeV, v: VersionV)
    requires
        merge_step(a, b) is Some,
        !is_pre(v),
        range_satisfies(merge_step(a, b).unwrap(), v),
    ensures
        range_satisfies(a, v) || range_satisfies(b, v),
{
    let m = merge_step(a, b).unwrap();
    if m.upper == a.upper {
        assert(m == a);
    } else {
        assert(m.lower == a.lower && m.upper == b.upper);
        lemma_release_satisfies(m, v);
        lemma_release_satisfies(a, v);
        lemma_release_satisfies(b, v);
        if !upper_ok(a.upper, v) {
            reveal(interval_order);
            match (a.upper, b.lower) {
                (IntervalV::Unbounded, _) => {},
                (_, IntervalV::Unbounded) => {},
                _ => {
                    let x = crate::interval::bound_version(a.upper);
                    let y = crate::interval::bound_version(b.lower);
                    lemma_version_order_antisym(x, y);
                    lemma_version_order_antisym(x, v);
                    lemma_version_order_trans(y, x, v);
                    lemma_release_ge(v, y);
                    if ver_eq(x, y) {
                        lemma_version_order_congruent(x, y, v);
                    }
                },
            }
        }
    }
}

/// Each range left by merging the first `n` sorted ranges holds only release versions that
/// one of those ranges holds.
proof fn lemma_coalesce_sound(t: Seq<RangeV>, n: int, v: VersionV)
    requires
        1 <= n <= t.len(),
        !is_pre(v),
    ensures
        ({
            let (done, acc) = coalesce_prefix(t, n);
            forall|i: int| 0 <= i < done.push(acc).len() && range_satisfies(#[trigger] done.push(acc)[i], v)
                ==> exists|m: int| 0 <= m < n && range_satisfies(#[trigger] t[m], v)
        }),
    decreases n,
{
    let (done, acc) = coalesce_prefix(t, n);
    let y = done.push(acc);
    if n == 1 {
        assert(y =~= seq![t[0]]);
        assert forall|i: int| 0 <= i < y.len() && range_satisfies(#[trigger] y[i], v) implies exists|m: int|
            0 <= m < n && range_satisfies(#[trigger] t[m], v) by {
            assert(y[i] == t[0]);
        }
    } else {
        lemma_coalesce_sound(t, n - 1, v);
        let (d0, a0) = coalesce_prefix(t, n - 1);
        let y0 = d0.push(a0);
        let b = t[n - 1];
        assert forall|i: int| 0 <= i < y.len() && range_satisfies(#[trigger] y[i], v) implies exists|m: int|
            0 <= m < n && range_satisfies(#[trigger] t[m], v) by {
            if merge_step(a0, b) is Some {
                assert(y =~= y0.update(y0.len() - 1, merge_step(a0, b).unwrap()));
                if i < y0.len() - 1 {
                    assert(y[i] == y0[i]);
                } else {
                    lemma_merge_covers(a0, b, v);
                    if range_satisfies(a0, v) {
                        assert(y0[y0.len() - 1] == a0);
                    } else {
                        assert(range_satisfies(t[n - 1], v));
                    }
                }
            } else {
                assert(y == y0.push(b));
                if i < y0.len() {
                    assert(y[i] == y0[i]);
                } else {
                    assert(range_satisfies(t[n - 1], v));
                }
            }
        }
    }
}

/// Unification adds no release version to a set of ranges.
pub proof fn law_unify_sound(s: Seq<RangeV>, v: VersionV)
    requires
        all_valid(s),
        !is_pre(v),
        ranges_satisfy(unify(s), v),
    ensures
        ranges_satisfy(s, v),
{
    let t = sort_by_lower(s);
    lemma_sort_prefix(s, s.len() as int);
    lemma_sort_members(s, s.len() as int);
    let c = coalesce(t);
    let u = unify(s);
    lemma_dedup_picks(c, c.len() as int);
    let f = choose|f: Seq<int>| #[trigger] picks(u, c, f, c.len() as int);
    let k = choose|k: int| 0 <= k < u.len() && range_satisfies(#[trigger] u[k], v);
    assert(u[k] == c[f[k]]);
    if t.len() > 0 {
        lemma_coalesce_sound(t, t.len() as int, v);
        let (done, acc) = coalesce_prefix(t, t.len() as int);
        assert(c == done.push(acc));
        assert(range_satisfies(c[f[k]], v));
        let m = choose|m: int| 0 <= m < t.len() && range_satisfies(#[trigger] t[m], v);
        let j = choose|j: int| 0 <= j < s.len() && #[trigger] t[m] == s[j];
        assert(range_satisfies(s[j], v));
    } else {
        assert(c.len() == 0);
    }
}

// ---------------------------------------------------------------------------------------
// Unification drops no version.

/// Sorting drops none of the ranges it was given.
proof fn lemma_sort_keeps(s: Seq<RangeV>, n: int, m: int)
    requires
        0 <= m < n <= s.len(),
    ensures
        exists|i: int| 0 <= i < sort_prefix(s, n).len() && #[trigger] sort_prefix(s, n)[i] == s[m],
    decreases n,
{
    let t = sort_prefix(s, n - 1);
    let x = s[n - 1];
    let p = insert_pos(t, x);
    let u = sort_prefix(s, n);
    assert(u == t.insert(p, x));
    assert(0 <= p <= t.len()) by {
        crate::constraint::lemma_insert_pos(t, x);
    }
    if m == n - 1 {
        assert(u[p] == s[m]);
    } else {
        lemma_sort_keeps(s, n - 1, m);
        let i = choose|i: int| 0 <= i < t.len() && #[trigger] t[i] == s[m];
        if i < p {
            assert(u[i] == s[m]);
        } else {
            assert(u[i + 1] == s[m]);
        }
    }
}

/// A version above a lower bound, for a release version, is above every lower bound that
/// orders before it.
proof fn lemma_release_lower_mono(a: IntervalV, b: IntervalV, v: VersionV)
    requires
        interval_order(a, b, true) != Order::Greater,
        !is_pre(v),
        lower_ok(b, v),
    ensures
        lower_ok(a, v),
{
    reveal(interval_order);
    match (a, b) {
        (IntervalV::Unbounded, _) => {},
        (_, IntervalV::Unbounded) => {},
        _ => {
            let x = crate::interval::bound_version(a);
            let y = crate::interval::bound_version(b);
            lemma_release_ge(v, x);
            lemma_release_ge(v, y);
            lemma_version_order_antisym(x, y);
            lemma_version_order_antisym(x, v);
            lemma_version_order_antisym(y, v);
            lemma_version_order_trans(x, y, v);
            if ver_eq(x, y) {
                lemma_version_order_congruent(x, y, v);
            }
        },
    }
}

/// A version under an upper bound is under every upper bound that orders after it.
proof fn lemma_upper_ok_mono(a: IntervalV, b: IntervalV, v: VersionV)
    requires
        interval_order(a, b, false) != Order::Greater,
        upper_ok(a, v),
    ensures
        upper_ok(b, v),
{
    reveal(interval_order);
    match (a, b) {
        (IntervalV::Unbounded, _) => {},
        (_, IntervalV::Unbounded) => {},
        _ => {
            let x = crate::interval::bound_version(a);
            let y = crate::interval::bound_version(b);
            lemma_version_order_antisym(x, y);
            lemma_version_order_antisym(v, x);
            lemma_version_order_trans(v, x, y);
            if ver_eq(x, y) {
                lemma_version_order_congruent(x, y, v);
            }
        },
    }
}

/// A release version in a range, or in its successor, lies in their merge.
proof fn lemma_merge_includes(a: RangeV, b: RangeV, v: VersionV)
    requires
        merge_step(a, b) is Some,
        interval_order(a.lower, b.lower, true) != Order::Greater,
        !is_pre(v),
        range_satisfies(a, v) || range_satisfies(b, v),
    ensures
        range_satisfies(merge_step(a, b).unwrap(), v),
{
    let m = merge_step(a, b).unwrap();
    lemma_release_satisfies(m, v);
    lemma_release_satisfies(a, v);
    lemma_release_satisfies(b, v);
    lemma_interval_order(a.upper, b.upper, b.upper, false);
    lemma_interval_order(b.upper, a.upper, b.upper, false);
    if range_satisfies(a, v) {
        lemma_upper_ok_mono(a.upper, m.upper, v);
    } else {
        lemma_release_lower_mono(a.lower, b.lower, v);
        lemma_upper_ok_mono(b.upper, m.upper, v);
    }
}

/// Each release version that one of the first `n` sorted ranges holds, one of the ranges
/// left by merging them holds.
proof fn lemma_coalesce_complete(t: Seq<RangeV>, n: int, v: VersionV)
    requires
        1 <= n <= t.len(),
        sorted_by_lower(t),
        all_valid(t),
        !is_pre(v),
    ensures
        ({
            let (done, acc) = coalesce_prefix(t, n);
            forall|m: int| 0 <= m < n && range_satisfies(#[trigger] t[m], v)
                ==> exists|i: int| 0 <= i < done.push(acc).len() && range_satisfies(#[trigger] done.push(acc)[i], v)
        }),
    decreases n,
{
    let (done, acc) = coalesce_prefix(t, n);
    let y = done.push(acc);
    if n == 1 {
        assert(y =~= seq![t[0]]);
        assert forall|m: int| 0 <= m < n && range_satisfies(#[trigger] t[m], v) implies exists|i: int|
            0 <= i < y.len() && range_satisfies(#[trigger] y[i], v) by {
            assert(y[0] == t[0]);
        }
    } else {
        lemma_coalesce_complete(t, n - 1, v);
        crate::constraint::lemma_coalesce_prefix(t, n - 1);
        let (d0, a0) = coalesce_prefix(t, n - 1);
        let y0 = d0.push(a0);
        let b = t[n - 1];
        let k = choose|k: int| 0 <= k < n - 1 && a0.lower == #[trigger] t[k].lower;
        assert(interval_order(t[k].lower, t[n - 1].lower, true) != Order::Greater);
        assert forall|m: int| 0 <= m < n && range_satisfies(#[trigger] t[m], v) implies exists|i: int|
            0 <= i < y.len() && range_satisfies(#[trigger] y[i], v) by {
            if merge_step(a0, b) is Some {
                let mm = merge_step(a0, b).unwrap();
                assert(y =~= y0.update(y0.len() - 1, mm));
                if m == n - 1 {
                    lemma_merge_includes(a0, b, v);
                    assert(y[y.len() - 1] == mm);
                } else {
                    let i = choose|i: int| 0 <= i < y0.len() && range_satisfies(#[trigger] y0[i], v);
                    if i < y0.len() - 1 {
                        assert(y[i] == y0[i]);
                    } else {
                        assert(y0[i] == a0);
                        lemma_merge_includes(a0, b, v);
                        assert(y[y.len() - 1] == mm);
                    }
                }
            } else {
                assert(y == y0.push(b));
                if m == n - 1 {
                    assert(y[y.len() - 1] == b);
                } else {
                    let i = choose|i: int| 0 <= i < y0.len() && range_satisfies(#[trigger] y0[i], v);
                    assert(y[i] == y0[i]);
                }
            }
        }
    }
}

/// Inserting the first `n` ranges of `s` into an empty set keeps what they are satisfied by.
proof fn lemma_dedup_prefix_satisfies(s: Seq<RangeV>, n: int, v: VersionV)
    requires
        0 <= n <= s.len(),
    ensures
        ranges_satisfy(dedup_prefix(s, n), v) <==> ranges_satisfy(s.take(n), v),
    decreases n,
{
    if n > 0 {
        lemma_dedup_prefix_satisfies(s, n - 1, v);
        lemma_push_new_satisfies(dedup_prefix(s, n - 1), s[n - 1], v);
        let t = s.take(n);
        let p = s.take(n - 1);
        assert(t =~= p.push(s[n - 1]));
        if ranges_satisfy(t, v) {
            let i = choose|i: int| 0 <= i < t.len() && range_satisfies(#[trigger] t[i], v);
            if i < n - 1 {
                assert(p[i] == t[i]);
            }
        }
        if ranges_satisfy(p, v) {
            let i = choose|i: int| 0 <= i < p.len() && range_satisfies(#[trigger] p[i], v);
            assert(t[i] == p[i]);
        }
        if range_satisfies(s[n - 1], v) {
            assert(t[n - 1] == s[n - 1]);
        }
    } else {
        assert(s.take(0).len() == 0);
    }
}

/// Unification drops no release version: one that a range of the set holds, the unified set
/// holds.
pub proof fn law_unify_complete(s: Seq<RangeV>, v: VersionV)
    requires
        all_valid(s),
        !is_pre(v),
        ranges_satisfy(s, v),
    ensures
        ranges_satisfy(unify(s), v),
{
    let t = sort_by_lower(s);
    lemma_sort_prefix(s, s.len() as int);
    let j = choose|j: int| 0 <= j < s.len() && range_satisfies(#[trigger] s[j], v);
    lemma_sort_keeps(s, s.len() as int, j);
    let m = choose|m: int| 0 <= m < t.len() && #[trigger] t[m] == s[j];
    lemma_coalesce_complete(t, t.len() as int, v);
    let c = coalesce(t);
    let (done, acc) = coalesce_prefix(t, t.len() as int);
    assert(c == done.push(acc));
    assert(range_satisfies(t[m], v));
    lemma_dedup_prefix_satisfies(c, c.len() as int, v);
    assert(c.take(c.len() as int) =~= c);
}

/// For release versions, unification keeps exactly the versions of the ranges it is given.
pub proof fn law_unify_keeps(s: Seq<RangeV>, v: VersionV)
    requires
        all_valid(s),
        !is_pre(v),
    ensures
        ranges_satisfy(unify(s), v) <==> ranges_satisfy(s, v),
{
    if ranges_satisfy(s, v) {
        law_unify_complete(s, v);
    }
    if ranges_satisfy(unify(s), v) {
        law_unify_sound(s, v);
    }
}

} // verus!

//! Version constraints: unions of ranges.
//!
//! A `Constraint` is the union of a set of `Range`s. Creating a constraint, or inserting a
//! range into one, unifies its ranges: they are sorted by their lower bounds and every range
//! that overlaps or touches its predecessor is merged into it.

use vstd::prelude::*;
use crate::interval::{
    interval_max, any_range, exact_range, interval_flip, interval_order, interval_same, lemma_interval_order,
    lemma_upper_equal, range_meet, range_new_ok, range_same, range_satisfies, range_text,
    range_valid, Interval, IntervalV, Range, RangeV,
};
use crate::version::{Order, Version, VersionV};
use crate::text::push_char;

verus! {

// ---------------------------------------------------------------------------------------
// Sets of ranges.

/// Whether `s` holds a range equal to `x`.
pub open spec fn contains_same(s: Seq<RangeV>, x: RangeV) -> bool
    decreases s.len(),
{
    s.len() > 0 && (range_same(s.last(), x) || contains_same(s.drop_last(), x))
}

/// Set insertion: `x` is appended unless an equal range is already there.
pub open spec fn push_new(s: Seq<RangeV>, x: RangeV) -> Seq<RangeV> {
    if contains_same(s, x) {
        s
    } else {
        s.push(x)
    }
}

/// The first `n` ranges of `s` inserted in order into an empty set.
pub open spec fn dedup_prefix(s: Seq<RangeV>, n: int) -> Seq<RangeV>
    decreases n,
{
    if n <= 0 {
        Seq::empty()
    } else {
        push_new(dedup_prefix(s, n - 1), s[n - 1])
    }
}

pub open spec fn dedup(s: Seq<RangeV>) -> Seq<RangeV> {
    dedup_prefix(s, s.len() as int)
}

/// `b` inserted into `a` range by range.
pub open spec fn extend_prefix(a: Seq<RangeV>, b: Seq<RangeV>, n: int) -> Seq<RangeV>
    decreases n,
{
    if n <= 0 {
        a
    } else {
        push_new(extend_prefix(a, b, n - 1), b[n - 1])
    }
}

pub open spec fn extend(a: Seq<RangeV>, b: Seq<RangeV>) -> Seq<RangeV> {
    extend_prefix(a, b, b.len() as int)
}

pub proof fn lemma_contains_same_index(s: Seq<RangeV>, x: RangeV)
    ensures
        contains_same(s, x) <==> exists|i: int| 0 <= i < s.len() && range_same(#[trigger] s[i], x),
    decreases s.len(),
{
    if s.len() > 0 {
        lemma_contains_same_index(s.drop_last(), x);
        if contains_same(s.drop_last(), x) {
            let i = choose|i: int| 0 <= i < s.drop_last().len() && range_same(s.drop_last()[i], x);
            assert(s[i] == s.drop_last()[i]);
        }
        if exists|i: int| 0 <= i < s.len() && range_same(#[trigger] s[i], x) {
            let i = choose|i: int| 0 <= i < s.len() && range_same(#[trigger] s[i], x);
            if i < s.len() - 1 {
                assert(s.drop_last()[i] == s[i]);
            }
        }
    }
}

// ---------------------------------------------------------------------------------------
// Sorting by lower bound: insertion that keeps equal lower bounds in the order they came in.

/// Where `x` goes in a sorted sequence: before the first range whose lower bound is greater.
pub open spec fn insert_pos(s: Seq<RangeV>, x: RangeV) -> int
    decreases s.len(),
{
    if s.len() == 0 {
        0
    } else if interval_order(s[0].lower, x.lower, true) == Order::Greater {
        0
    } else {
        1 + insert_pos(s.drop_first(), x)
    }
}

pub open spec fn sort_prefix(s: Seq<RangeV>, n: int) -> Seq<RangeV>
    decreases n,
{
    if n <= 0 {
        Seq::empty()
    } else {
        let t = sort_prefix(s, n - 1);
        t.insert(insert_pos(t, s[n - 1]), s[n - 1])
    }
}

/// The stable sort of `s` by lower bound.
pub open spec fn sort_by_lower(s: Seq<RangeV>) -> Seq<RangeV> {
    sort_prefix(s, s.len() as int)
}

pub open spec fn sorted_by_lower(s: Seq<RangeV>) -> bool {
    forall|i: int, j: int|
        0 <= i < j < s.len() ==> interval_order(#[trigger] s[i].lower, #[trigger] s[j].lower, true)
            != Order::Greater
}

pub open spec fn all_valid(s: Seq<RangeV>) -> bool {
    forall|i: int| 0 <= i < s.len() ==> range_valid(#[trigger] s[i])
}

pub proof fn lemma_insert_pos(s: Seq<RangeV>, x: RangeV)
    ensures
        0 <= insert_pos(s, x) <= s.len(),
        forall|i: int|
            0 <= i < insert_pos(s, x) ==> interval_order(#[trigger] s[i].lower, x.lower, true)
                != Order::Greater,
        insert_pos(s, x) < s.len() ==> interval_order(s[insert_pos(s, x)].lower, x.lower, true)
            == Order::Greater,
    decreases s.len(),
{
    if s.len() > 0 && interval_order(s[0].lower, x.lower, true) != Order::Greater {
        lemma_insert_pos(s.drop_first(), x);
        assert forall|i: int| 0 <= i < insert_pos(s, x) implies interval_order(
            #[trigger] s[i].lower,
            x.lower,
            true,
        ) != Order::Greater by {
            if i > 0 {
                assert(s[i] == s.drop_first()[i - 1]);
            }
        }
    }
}

pub proof fn lemma_sort_prefix(s: Seq<RangeV>, n: int)
    requires
        0 <= n <= s.len(),
        all_valid(s),
    ensures
        sort_prefix(s, n).len() == n,
        sorted_by_lower(sort_prefix(s, n)),
        all_valid(sort_prefix(s, n)),
    decreases n,
{
    if n > 0 {
        lemma_sort_prefix(s, n - 1);
        let t = sort_prefix(s, n - 1);
        let x = s[n - 1];
        let p = insert_pos(t, x);
        lemma_insert_pos(t, x);
        let u = t.insert(p, x);
        assert forall|i: int, j: int| 0 <= i < j < u.len() implies interval_order(
            #[trigger] u[i].lower,
            #[trigger] u[j].lower,
            true,
        ) != Order::Greater by {
            if i < p && j < p {
                assert(u[i] == t[i] && u[j] == t[j]);
            } else if i < p && j == p {
                assert(u[i] == t[i] && u[j] == x);
            } else if i < p && j > p {
                assert(u[i] == t[i] && u[j] == t[j - 1]);
                lemma_interval_order(t[i].lower, x.lower, t[j - 1].lower, true);
                lemma_interval_order(x.lower, t[p].lower, t[j - 1].lower, true);
                lemma_interval_order(t[p].lower, x.lower, x.lower, true);
                if j - 1 > p {
                    assert(interval_order(t[p].lower, t[j - 1].lower, true) != Order::Greater);
                }
                lemma_interval_order(t[i].lower, t[p].lower, t[j - 1].lower, true);
            } else if i == p {
                assert(u[i] == x && u[j] == t[j - 1]);
                lemma_interval_order(t[p].lower, x.lower, x.lower, true);
                lemma_interval_order(x.lower, t[p].lower, t[j - 1].lower, true);
                if j - 1 > p {
                    assert(interval_order(t[p].lower, t[j - 1].lower, true) != Order::Greater);
                }
            } else {
                assert(u[i] == t[i - 1] && u[j] == t[j - 1]);
            }
        }
        assert forall|i: int| 0 <= i < u.len() implies range_valid(#[trigger] u[i]) by {
            if i < p {
                assert(u[i] == t[i]);
            } else if i > p {
                assert(u[i] == t[i - 1]);
            }
        }
    }
}

// ---------------------------------------------------------------------------------------
// Merging neighbouring ranges.

/// A bound without its pre-release flag: whether one range reaches the next does not depend
/// on the flags (`>!` means the same as `>`, and `<=!` the same as `<=`).
pub open spec fn clear_flag(a: IntervalV) -> IntervalV {
    match a {
        IntervalV::Closed(v, _) => IntervalV::Closed(v, false),
        IntervalV::Open(v, _) => IntervalV::Open(v, false),
        IntervalV::Unbounded => IntervalV::Unbounded,
    }
}

fn cleared(a: &Interval) -> (r: Interval)
    ensures
        r@ == clear_flag(a@),
{
    match a {
        Interval::Closed(v, _) => Interval::Closed(v.copy(), false),
        Interval::Open(v, _) => Interval::Open(v.copy(), false),
        Interval::Unbounded => Interval::Unbounded,
    }
}

/// What the unification step makes of a range `a` and its successor `b`: one range running
/// from `a`'s lower bound to the greater of the two upper bounds where `a` reaches `b` or
/// touches it (as it always does where `b` has no lower bound), else nothing.
pub open spec fn merge_step(a: RangeV, b: RangeV) -> Option<RangeV> {
    let c = interval_order(clear_flag(a.upper), clear_flag(b.lower), false);
    let merged = RangeV { lower: a.lower, upper: interval_max(a.upper, b.upper, false) };
    if b.lower is Unbounded {
        Some(merged)
    } else if c == Order::Greater {
        Some(merged)
    } else if c == Order::Equal {
        if a.upper is Open && b.lower is Open {
            None
        } else {
            Some(merged)
        }
    } else {
        match (a.upper, b.lower) {
            (IntervalV::Open(v, _), IntervalV::Closed(w, _)) => if crate::version::ver_eq(v, w) {
                Some(merged)
            } else {
                None
            },
            _ => None,
        }
    }
}

/// The state after merging the first `n` ranges (`n >= 1`): the finished ranges and the
/// range being grown.
pub open spec fn coalesce_prefix(s: Seq<RangeV>, n: int) -> (Seq<RangeV>, RangeV)
    decreases n,
{
    if n <= 1 {
        (Seq::empty(), s[0])
    } else {
        let (done, acc) = coalesce_prefix(s, n - 1);
        match merge_step(acc, s[n - 1]) {
            Some(m) => (done, m),
            None => (done.push(acc), s[n - 1]),
        }
    }
}

pub open spec fn coalesce(s: Seq<RangeV>) -> Seq<RangeV> {
    if s.len() == 0 {
        Seq::empty()
    } else {
        let (done, acc) = coalesce_prefix(s, s.len() as int);
        done.push(acc)
    }
}

/// Unification: sort by lower bound, merge neighbours, and drop repeated ranges.
pub open spec fn unify(s: Seq<RangeV>) -> Seq<RangeV> {
    dedup(coalesce(sort_by_lower(s)))
}

/// A bound below (or at) a valid range's lower bound still makes a valid range with its
/// upper bound.
pub proof fn lemma_valid_lower_mono(x: IntervalV, y: IntervalV, u: IntervalV)
    requires
        interval_order(x, y, true) != Order::Greater,
        range_new_ok(y, u),
    ensures
        range_new_ok(x, u),
{
    reveal(interval_order);
    lemma_interval_order(x, y, u, true);
    lemma_interval_order(y, x, u, true);
    crate::interval::lemma_bound_versions(x, y, u);
}

pub proof fn lemma_coalesce_prefix(s: Seq<RangeV>, n: int)
    requires
        1 <= n <= s.len(),
        sorted_by_lower(s),
        all_valid(s),
    ensures
        ({
            let (done, acc) = coalesce_prefix(s, n);
            &&& range_valid(acc)
            &&& all_valid(done)
            &&& exists|k: int| 0 <= k < n && acc.lower == #[trigger] s[k].lower
        }),
    decreases n,
{
    if n > 1 {
        lemma_coalesce_prefix(s, n - 1);
        let (done, acc) = coalesce_prefix(s, n - 1);
        let k = choose|k: int| 0 <= k < n - 1 && acc.lower == #[trigger] s[k].lower;
        let b = s[n - 1];
        assert(interval_order(s[k].lower, s[n - 1].lower, true) != Order::Greater);
        if merge_step(acc, b) is Some {
            lemma_valid_lower_mono(acc.lower, b.lower, b.upper);
        } else {
            assert forall|i: int| 0 <= i < done.push(acc).len() implies range_valid(
                #[trigger] done.push(acc)[i],
            ) by {
                if i < done.len() {
                    assert(done.push(acc)[i] == done[i]);
                }
            }
        }
    }
}

// ---------------------------------------------------------------------------------------
// The constraint type.

/// The union of a set of ranges.
#[derive(Debug)]
pub struct Constraint {
    set: Vec<Range>,
}

pub open spec fn ranges_view(s: Seq<Range>) -> Seq<RangeV> {
    s.map_values(|r: Range| r@)
}

impl View for Constraint {
    type V = Seq<RangeV>;

    closed spec fn view(&self) -> Seq<RangeV> {
        ranges_view(self.set@)
    }
}

/// Whether a version satisfies one of the ranges.
pub open spec fn ranges_satisfy(s: Seq<RangeV>, v: VersionV) -> bool {
    exists|i: int| 0 <= i < s.len() && range_satisfies(#[trigger] s[i], v)
}

/// The ranges' textual forms joined by `, `.
pub open spec fn ranges_text(s: Seq<RangeV>) -> Seq<char>
    decreases s.len(),
{
    if s.len() == 0 {
        Seq::empty()
    } else if s.len() == 1 {
        range_text(s[0])
    } else {
        ranges_text(s.drop_last()) + seq![',', ' '] + range_text(s.last())
    }
}

fn valid_of(r: &Range)
    ensures
        range_valid(r@),
{
    proof {
        use_type_invariant(r);
        Range::lemma_inv(*r);
    }
}

fn all_valid_of(v: &Vec<Range>)
    ensures
        all_valid(ranges_view(v@)),
{
    let mut i: usize = 0;
    while i < v.len()
        invariant
            i <= v.len(),
            forall|j: int| 0 <= j < i ==> range_valid(#[trigger] ranges_view(v@)[j]),
        decreases v.len() - i,
    {
        valid_of(&v[i]);
        i = i + 1;
    }
}

fn contains_same_exec(v: &Vec<Range>, x: &Range) -> (r: bool)
    ensures
        r == contains_same(ranges_view(v@), x@),
{
    let ghost s = ranges_view(v@);
    let mut i: usize = v.len();
    assert(s.take(i as int) =~= s);
    while i > 0
        invariant
            s == ranges_view(v@),
            i <= v.len(),
            contains_same(s, x@) == contains_same(s.take(i as int), x@),
        decreases i,
    {
        proof {
            let t = s.take(i as int);
            assert(t.last() == v@[i - 1]@);
            assert(t.drop_last() =~= s.take(i - 1));
        }
        if v[i - 1].same(x) {
            return true;
        }
        i = i - 1;
    }
    false
}

/// Inserts `x` unless an equal range is already there.
fn push_new_exec(v: &mut Vec<Range>, x: Range)
    ensures
        ranges_view(final(v)@) == push_new(ranges_view(old(v)@), x@),
{
    if !contains_same_exec(v, &x) {
        let ghost s0 = v@;
        v.push(x);
        assert(ranges_view(v@) =~= ranges_view(s0).push(x@));
    }
}

fn sort_ranges(v: &Vec<Range>) -> (r: Vec<Range>)
    ensures
        ranges_view(r@) == sort_by_lower(ranges_view(v@)),
{
    let ghost s = ranges_view(v@);
    let mut out: Vec<Range> = Vec::new();
    let mut i: usize = 0;
    while i < v.len()
        invariant
            s == ranges_view(v@),
            i <= v.len(),
            ranges_view(out@) == sort_prefix(s, i as int),
        decreases v.len() - i,
    {
        let x = v[i].copy();
        let ghost t = ranges_view(out@);
        let mut k: usize = 0;
        assert(t.skip(0) =~= t);
        while k < out.len() && out[k].lower().compare(x.lower(), true) != Order::Greater
            invariant
                t == ranges_view(out@),
                k <= out.len(),
                insert_pos(t, x@) == k + insert_pos(t.skip(k as int), x@),
            decreases out.len() - k,
        {
            assert(t.skip(k as int)[0] == t[k as int]);
            assert(t.skip(k as int).drop_first() =~= t.skip(k as int + 1));
            k = k + 1;
        }
        proof {
            if k < out.len() {
                assert(t.skip(k as int)[0] == t[k as int]);
            }
        }
        let ghost o0 = out@;
        out.insert(k, x);
        assert(ranges_view(out@) =~= t.insert(k as int, x@));
        assert(s[i as int] == x@);
        i = i + 1;
    }
    assert(sort_prefix(s, v.len() as int) == sort_by_lower(s));
    out
}

/// Whether `a` and its successor `b` merge when unifying.
fn merges(a: &Range, b: &Range) -> (r: bool)
    ensures
        r == (merge_step(a@, b@) is Some),
{
    if b.lower().is_unbounded() {
        return true;
    }
    let c = cleared(a.upper()).compare(&cleared(b.lower()), false);
    if c == Order::Greater {
        true
    } else if c == Order::Equal {
        match (a.upper(), b.lower()) {
            (Interval::Open(_, _), Interval::Open(_, _)) => false,
            _ => true,
        }
    } else {
        match (a.upper(), b.lower()) {
            (Interval::Open(x, _), Interval::Closed(y, _)) => x.same(y),
            _ => false,
        }
    }
}

fn coalesce_ranges(v: &Vec<Range>) -> (r: Vec<Range>)
    requires
        sorted_by_lower(ranges_view(v@)),
    ensures
        ranges_view(r@) == coalesce(ranges_view(v@)),
{
    let ghost s = ranges_view(v@);
    all_valid_of(v);
    if v.len() == 0 {
        let r: Vec<Range> = Vec::new();
        assert(ranges_view(r@) =~= Seq::<RangeV>::empty());
        return r;
    }
    let mut done: Vec<Range> = Vec::new();
    let mut acc = v[0].copy();
    let mut i: usize = 1;
    assert(ranges_view(done@) =~= Seq::<RangeV>::empty());
    while i < v.len()
        invariant
            s == ranges_view(v@),
            sorted_by_lower(s),
            all_valid(s),
            1 <= i <= v.len(),
            (ranges_view(done@), acc@) == coalesce_prefix(s, i as int),
        decreases v.len() - i,
    {
        proof {
            lemma_coalesce_prefix(s, i as int);
        }
        let b = &v[i];
        assert(b@ == s[i as int]);
        if merges(&acc, b) {
            proof {
                let k = choose|k: int| 0 <= k < i && acc@.lower == #[trigger] s[k].lower;
                assert(interval_order(s[k].lower, s[i as int].lower, true) != Order::Greater);
                lemma_valid_lower_mono(acc@.lower, b@.lower, b@.upper);
            }
            let up = acc.upper().max(b.upper(), false);
            let m = Range::new(acc.lower().copy(), up.copy());
            acc = m.unwrap();
        } else {
            let ghost d0 = done@;
            let next = b.copy();
            done.push(acc);
            assert(ranges_view(done@) =~= ranges_view(d0).push(coalesce_prefix(s, i as int).1));
            acc = next;
        }
        i = i + 1;
    }
    let ghost d0 = done@;
    done.push(acc);
    assert(ranges_view(done@) =~= ranges_view(d0).push(acc@));
    done
}

fn dedup_ranges(v: &Vec<Range>) -> (r: Vec<Range>)
    ensures
        ranges_view(r@) == dedup(ranges_view(v@)),
{
    let ghost s = ranges_view(v@);
    let mut out: Vec<Range> = Vec::new();
    let mut i: usize = 0;
    assert(ranges_view(out@) =~= Seq::<RangeV>::empty());
    while i < v.len()
        invariant
            s == ranges_view(v@),
            i <= v.len(),
            ranges_view(out@) == dedup_prefix(s, i as int),
        decreases v.len() - i,
    {
        push_new_exec(&mut out, v[i].copy());
        i = i + 1;
    }
    out
}

fn copy_ranges(v: &Vec<Range>) -> (r: Vec<Range>)
    ensures
        ranges_view(r@) == ranges_view(v@),
{
    let mut out: Vec<Range> = Vec::new();
    let mut i: usize = 0;
    while i < v.len()
        invariant
            i <= v.len(),
            ranges_view(out@) == ranges_view(v@).take(i as int),
        decreases v.len() - i,
    {
        let ghost o0 = out@;
        let x = v[i].copy();
        out.push(x);
        assert(out@ =~= o0.push(x));
        assert(ranges_view(out@) =~= ranges_view(o0).push(x@));
        assert(ranges_view(v@)[i as int] == x@);
        assert(ranges_view(out@) =~= ranges_view(v@).take(i as int + 1));
        i = i + 1;
    }
    assert(ranges_view(v@).take(v.len() as int) =~= ranges_view(v@));
    out
}

impl Constraint {
    /// Creates a new `Constraint` from a set of `Range`s, unifying them.
    pub fn new(ranges: Vec<Range>) -> (c: Constraint)
        ensures
            c@ == unify(dedup(ranges_view(ranges@))),
    {
        let set = dedup_ranges(&ranges);
        let mut c = Constraint { set };
        c.unify();
        c
    }

    /// The constraint no version satisfies.
    pub fn empty() -> (c: Constraint)
        ensures
            c@ == Seq::<RangeV>::empty(),
    {
        let c = Constraint { set: Vec::new() };
        assert(c@ =~= Seq::<RangeV>::empty());
        c
    }

    /// The constraint every version satisfies.
    pub fn any() -> (c: Constraint)
        ensures
            c@ == seq![any_range()],
    {
        Constraint::from_range(Range::any())
    }

    /// The constraint holding one range.
    pub fn from_range(r: Range) -> (c: Constraint)
        ensures
            c@ == seq![r@],
    {
        let mut set: Vec<Range> = Vec::new();
        set.push(r);
        let c = Constraint { set };
        assert(c@ =~= seq![r@]);
        c
    }

    /// The constraint holding exactly one version.
    pub fn from_version(v: Version) -> (c: Constraint)
        ensures
            c@ == seq![exact_range(v@)],
    {
        Constraint::from_range(Range::from_version(v))
    }

    /// Inserts a `Range` into the set and unifies the set.
    pub fn insert(&mut self, range: Range)
        ensures
            final(self)@ == unify(push_new(old(self)@, range@)),
    {
        push_new_exec(&mut self.set, range);
        self.unify();
    }

    /// Borrows the set of `Range`s.
    pub fn retrieve(&self) -> (r: &Vec<Range>)
        ensures
            ranges_view(r@) == self@,
    {
        &self.set
    }

    /// Takes the set of `Range`s from this constraint.
    pub fn take(self) -> (r: Vec<Range>)
        ensures
            ranges_view(r@) == self@,
    {
        self.set
    }

    /// A copy of this constraint.
    pub fn copy(&self) -> (r: Constraint)
        ensures
            r@ == self@,
    {
        Constraint { set: copy_ranges(&self.set) }
    }

    /// Unifies the ranges: sorts them by lower bound, merges every range that overlaps or
    /// touches its predecessor into it, and drops repeated ranges.
    pub fn unify(&mut self)
        ensures
            final(self)@ == unify(old(self)@),
    {
        let sorted = sort_ranges(&self.set);
        all_valid_of(&self.set);
        proof {
            lemma_sort_prefix(ranges_view(self.set@), self.set.len() as int);
        }
        let merged = coalesce_ranges(&sorted);
        self.set = dedup_ranges(&merged);
    }

    pub fn is_empty(&self) -> (r: bool)
        ensures
            r == (self@.len() == 0),
    {
        self.set.len() == 0
    }

    /// Checks if a `Version` is satisfied by this `Constraint`: by one of its ranges.
    pub fn satisfies(&self, v: &Version) -> (r: bool)
        ensures
            r == ranges_satisfy(self@, v@),
    {
        if self.set.len() == 0 {
            return false;
        }
        let mut i: usize = 0;
        while i < self.set.len()
            invariant
                i <= self.set.len(),
                forall|j: int| 0 <= j < i ==> !range_satisfies(#[trigger] self@[j], v@),
            decreases self.set.len() - i,
        {
            if self.set[i].satisfies(v) {
                assert(self@[i as int] == self.set@[i as int]@);
                assert(range_satisfies(self@[i as int], v@));
                return true;
            }
            i = i + 1;
        }
        false
    }

    /// The textual form: the ranges joined by `, `.
    pub fn to_text(&self) -> (r: String)
        ensures
            r@ == ranges_text(self@),
    {
        let ghost s = self@;
        let mut out = String::new();
        let mut i: usize = 0;
        while i < self.set.len()
            invariant
                s == self@,
                i <= self.set.len(),
                out@ == ranges_text(s.take(i as int)),
            decreases self.set.len() - i,
        {
            if i > 0 {
                push_char(&mut out, ',');
                push_char(&mut out, ' ');
            }
            let t = self.set[i].to_text();
            crate::text::push_str(&mut out, t.as_str());
            proof {
                let u = s.take(i as int + 1);
                assert(u.drop_last() =~= s.take(i as int));
                if i == 0 {
                    assert(s.take(0) =~= Seq::<RangeV>::empty());
                }
                assert(out@ =~= ranges_text(u));
            }
            i = i + 1;
        }
        assert(s.take(self.set.len() as int) =~= s);
        out
    }
}

// ---------------------------------------------------------------------------------------
// Intersection, union and relation.

/// The meets of `r` with the first `n` ranges of `b`, inserted into `acc`.
pub open spec fn meet_row(acc: Seq<RangeV>, r: RangeV, b: Seq<RangeV>, n: int) -> Seq<RangeV>
    decreases n,
{
    if n <= 0 {
        acc
    } else {
        let p = meet_row(acc, r, b, n - 1);
        match range_meet(r, b[n - 1]) {
            Some(x) => push_new(p, x),
            None => p,
        }
    }
}

pub open spec fn meet_prefix(a: Seq<RangeV>, b: Seq<RangeV>, m: int) -> Seq<RangeV>
    decreases m,
{
    if m <= 0 {
        Seq::empty()
    } else {
        meet_row(meet_prefix(a, b, m - 1), a[m - 1], b, b.len() as int)
    }
}

/// The meets of every range of `a` with every range of `b`, in that order, as a set.
pub open spec fn intersection(a: Seq<RangeV>, b: Seq<RangeV>) -> Seq<RangeV> {
    meet_prefix(a, b, a.len() as int)
}

/// Set equality of two sets of ranges.
pub open spec fn same_set(a: Seq<RangeV>, b: Seq<RangeV>) -> bool {
    a.len() == b.len() && forall|i: int| 0 <= i < a.len() ==> contains_same(b, #[trigger] a[i])
}

/// How two constraints relate.
#[derive(PartialEq, Eq, Structural, Copy, Clone, Debug, Hash)]
pub enum Relation {
    Superset,
    Subset,
    Overlapping,
    Disjoint,
    Equal,
}

/// The relation of `a` to `b`, judged by their intersection: equal to both, to `b` only, to
/// `a` only, empty, or none of these.
pub open spec fn relation(a: Seq<RangeV>, b: Seq<RangeV>) -> Relation {
    let i = intersection(a, b);
    if same_set(i, b) && same_set(i, a) {
        Relation::Equal
    } else if same_set(i, b) {
        Relation::Superset
    } else if same_set(i, a) {
        Relation::Subset
    } else if i.len() == 0 {
        Relation::Disjoint
    } else {
        Relation::Overlapping
    }
}

fn same_set_exec(a: &Vec<Range>, b: &Vec<Range>) -> (r: bool)
    ensures
        r == same_set(ranges_view(a@), ranges_view(b@)),
{
    if a.len() != b.len() {
        return false;
    }
    let mut i: usize = 0;
    while i < a.len()
        invariant
            a.len() == b.len(),
            i <= a.len(),
            forall|j: int| 0 <= j < i ==> contains_same(ranges_view(b@), #[trigger] ranges_view(a@)[j]),
        decreases a.len() - i,
    {
        if !contains_same_exec(b, &a[i]) {
            assert(ranges_view(a@)[i as int] == a@[i as int]@);
            assert(!contains_same(ranges_view(b@), ranges_view(a@)[i as int]));
            return false;
        }
        i = i + 1;
    }
    true
}

impl Constraint {
    /// The intersection of two constraints: every range of one met with every range of the
    /// other.
    pub fn intersection(&self, other: &Constraint) -> (c: Constraint)
        ensures
            c@ == intersection(self@, other@),
    {
        let ghost a = self@;
        let ghost b = other@;
        let mut set: Vec<Range> = Vec::new();
        let mut i: usize = 0;
        assert(ranges_view(set@) =~= Seq::<RangeV>::empty());
        while i < self.set.len()
            invariant
                a == self@,
                b == other@,
                i <= self.set.len(),
                ranges_view(set@) == meet_prefix(a, b, i as int),
            decreases self.set.len() - i,
        {
            let r = &self.set[i];
            let ghost start = ranges_view(set@);
            let mut j: usize = 0;
            while j < other.set.len()
                invariant
                    a == self@,
                    b == other@,
                    r@ == a[i as int],
                    j <= other.set.len(),
                    ranges_view(set@) == meet_row(start, a[i as int], b, j as int),
                decreases other.set.len() - j,
            {
                assert(other.set@[j as int]@ == b[j as int]);
                match r.intersection(&other.set[j]) {
                    Some(x) => push_new_exec(&mut set, x),
                    None => {},
                }
                j = j + 1;
            }
            i = i + 1;
        }
        Constraint { set }
    }

    /// The union of two constraints: the ranges of the other are added to these, where not
    /// already present, and the whole is unified.
    pub fn union(&self, other: &Constraint) -> (c: Constraint)
        ensures
            c@ == unify(extend(self@, other@)),
    {
        let mut set = copy_ranges(&self.set);
        let mut j: usize = 0;
        while j < other.set.len()
            invariant
                j <= other.set.len(),
                ranges_view(set@) == extend_prefix(self@, other@, j as int),
            decreases other.set.len() - j,
        {
            push_new_exec(&mut set, other.set[j].copy());
            j = j + 1;
        }
        let mut c = Constraint { set };
        c.unify();
        c
    }

    /// Set equality of the ranges.
    pub fn same(&self, other: &Constraint) -> (r: bool)
        ensures
            r == same_set(self@, other@),
    {
        same_set_exec(&self.set, &other.set)
    }

    /// How this constraint relates to another.
    pub fn relation(&self, other: &Constraint) -> (r: Relation)
        ensures
            r == relation(self@, other@),
    {
        let i = &self.intersection(other);
        if i.same(other) && i.same(self) {
            Relation::Equal
        } else if i.same(other) {
            Relation::Superset
        } else if i.same(self) {
            Relation::Subset
        } else if i.set.len() == 0 {
            Relation::Disjoint
        } else {
            Relation::Overlapping
        }
    }
}

// ---------------------------------------------------------------------------------------
// Difference and complement.

/// The state of subtracting the ranges of one constraint from a range `r` of another: the
/// part of `r` still to be kept, whether anything of it is left (`keep`), whether the
/// subtraction stopped early (`stop`), and the ranges already split off.
pub struct DiffState {
    pub r: RangeV,
    pub keep: bool,
    pub stop: bool,
    pub set: Seq<RangeV>,
}

pub open spec fn diff_cut(st: DiffState) -> DiffState {
    DiffState { keep: false, stop: true, ..st }
}

pub open spec fn diff_with(st: DiffState, lower: IntervalV, upper: IntervalV) -> DiffState {
    DiffState { r: RangeV { lower, upper }, ..st }
}

/// One subtraction step: what remains of `st.r` once `s` is taken away. `None` where a
/// range the step must build is refused by `Range::new` (the computation fails there).
pub open spec fn diff_step(st: DiffState, s: RangeV) -> Option<DiffState> {
    let r = st.r;
    if st.stop {
        Some(st)
    } else if interval_order(r.lower, s.lower, true) == Order::Greater {
        let c = interval_order(r.lower, s.upper, false);
        if c == Order::Greater {
            Some(st)
        } else if c == Order::Equal {
            let lower = if s.upper is Open {
                s.upper
            } else {
                interval_flip(s.upper)
            };
            if range_new_ok(lower, r.upper) {
                Some(diff_with(st, lower, r.upper))
            } else {
                None
            }
        } else if s.upper is Unbounded {
            Some(diff_cut(st))
        } else {
            let lower = interval_flip(s.upper);
            if range_new_ok(lower, r.upper) {
                Some(diff_with(st, lower, r.upper))
            } else {
                Some(diff_cut(st))
            }
        }
    } else if interval_order(r.lower, s.lower, true) == Order::Less {
        let c = interval_order(r.upper, s.lower, false);
        if c == Order::Less {
            Some(st)
        } else if c == Order::Equal {
            match r.upper {
                IntervalV::Closed(a, ap) => {
                    let upper = IntervalV::Open(a, ap);
                    if range_new_ok(r.lower, upper) {
                        Some(diff_with(st, r.lower, upper))
                    } else {
                        None
                    }
                },
                IntervalV::Open(_, _) => if range_new_ok(r.lower, r.upper) {
                    Some(st)
                } else {
                    None
                },
                IntervalV::Unbounded => None,
            }
        } else if interval_order(r.upper, s.upper, false) != Order::Greater {
            let upper = interval_flip(s.lower);
            if range_new_ok(r.lower, upper) {
                Some(diff_with(st, r.lower, upper))
            } else {
                None
            }
        } else {
            let u1 = interval_flip(s.lower);
            let l2 = interval_flip(s.upper);
            if range_new_ok(r.lower, u1) && range_new_ok(l2, r.upper) {
                Some(
                    DiffState {
                        r: RangeV { lower: l2, upper: r.upper },
                        set: push_new(st.set, RangeV { lower: r.lower, upper: u1 }),
                        ..st
                    },
                )
            } else {
                None
            }
        }
    } else if interval_same(s.upper, r.upper) || s.upper is Unbounded {
        Some(diff_cut(st))
    } else {
        let lower = interval_flip(s.upper);
        if range_new_ok(lower, r.upper) {
            Some(diff_with(st, lower, r.upper))
        } else {
            Some(diff_cut(st))
        }
    }
}

/// The subtraction steps for the first `n` ranges of `b`.
pub open spec fn diff_row(st: DiffState, b: Seq<RangeV>, n: int) -> Option<DiffState>
    decreases n,
{
    if n <= 0 {
        Some(st)
    } else {
        match diff_row(st, b, n - 1) {
            Some(p) => diff_step(p, b[n - 1]),
            None => None,
        }
    }
}

pub open spec fn diff_prefix(a: Seq<RangeV>, b: Seq<RangeV>, m: int) -> Option<Seq<RangeV>>
    decreases m,
{
    if m <= 0 {
        Some(Seq::empty())
    } else {
        match diff_prefix(a, b, m - 1) {
            None => None,
            Some(set) => match diff_row(
                DiffState { r: a[m - 1], keep: true, stop: false, set },
                b,
                b.len() as int,
            ) {
                None => None,
                Some(st) => Some(
                    if st.keep {
                        push_new(st.set, st.r)
                    } else {
                        st.set
                    },
                ),
            },
        }
    }
}

/// The ranges of `a` with the ranges of `b` subtracted, range by range; `None` where the
/// computation fails.
pub open spec fn difference(a: Seq<RangeV>, b: Seq<RangeV>) -> Option<Seq<RangeV>> {
    diff_prefix(a, b, a.len() as int)
}

/// The complement of one version is always found: every version below it, and every version
/// above it.
pub proof fn lemma_complement_of_version(v: VersionV)
    ensures
        difference(seq![any_range()], seq![exact_range(v)]) is Some,
{
    reveal(interval_order);
    crate::version::lemma_version_order_antisym(v, v);
    let st = DiffState { r: any_range(), keep: true, stop: false, set: Seq::empty() };
    let b = seq![exact_range(v)];
    assert(diff_row(st, b, 0) == Some(st));
    assert(diff_step(st, b[0]) is Some);
    assert(diff_row(st, b, 1) is Some);
    assert(diff_prefix(seq![any_range()], b, 0) == Some(Seq::<RangeV>::empty()));
}

pub proof fn lemma_diff_row_none(st: DiffState, b: Seq<RangeV>, j: int, n: int)
    requires
        0 <= j <= n,
        diff_row(st, b, j) is None,
    ensures
        diff_row(st, b, n) is None,
    decreases n - j,
{
    if j < n {
        lemma_diff_row_none(st, b, j, n - 1);
    }
}

proof fn lemma_diff_prefix_none(a: Seq<RangeV>, b: Seq<RangeV>, j: int, n: int)
    requires
        0 <= j <= n,
        diff_prefix(a, b, j) is None,
    ensures
        diff_prefix(a, b, n) is None,
    decreases n - j,
{
    if j < n {
        lemma_diff_prefix_none(a, b, j, n - 1);
    }
}

/// Where one subtraction step fails, the whole difference fails.
proof fn lemma_diff_fails(a: Seq<RangeV>, b: Seq<RangeV>, i: int, j: int, init: DiffState)
    requires
        0 <= i < a.len(),
        0 <= j < b.len(),
        diff_prefix(a, b, i) == Some(init.set),
        init.r == a[i],
        init.keep,
        !init.stop,
        diff_row(init, b, j) is Some,
        diff_step(diff_row(init, b, j).unwrap(), b[j]) is None,
    ensures
        difference(a, b) is None,
{
    assert(diff_row(init, b, j + 1) is None);
    lemma_diff_row_none(init, b, j + 1, b.len() as int);
    assert(diff_prefix(a, b, i + 1) is None);
    lemma_diff_prefix_none(a, b, i + 1, a.len() as int);
}

impl Constraint {
    /// The difference of two constraints: each range of this one with the ranges of the
    /// other taken away. The computation fails on some inputs; those are left out.
    pub fn difference(&self, other: &Constraint) -> (c: Constraint)
        requires
            difference(self@, other@) is Some,
        ensures
            difference(self@, other@) == Some(c@),
    {
        self.try_difference(other).unwrap()
    }

    /// The difference of two constraints, or `None` on the inputs where its computation fails
    /// (where a range that it builds is refused).
    pub fn try_difference(&self, other: &Constraint) -> (c: Option<Constraint>)
        ensures
            match c {
                Some(c) => difference(self@, other@) == Some(c@),
                None => difference(self@, other@) is None,
            },
    {
        let ghost a = self@;
        let ghost b = other@;
        let mut set: Vec<Range> = Vec::new();
        let mut i: usize = 0;
        assert(ranges_view(set@) =~= Seq::<RangeV>::empty());
        while i < self.set.len()
            invariant
                a == self@,
                b == other@,
                i <= self.set.len(),
                diff_prefix(a, b, i as int) == Some(ranges_view(set@)),
            decreases self.set.len() - i,
        {
            let ghost start = ranges_view(set@);
            let ghost init = DiffState { r: a[i as int], keep: true, stop: false, set: start };
            let mut r = self.set[i].copy();
            let mut keep = true;
            let mut stop = false;
            let mut j: usize = 0;
            while j < other.set.len()
                invariant
                    a == self@,
                    b == other@,
                    j <= other.set.len(),
                    i < a.len(),
                    diff_prefix(a, b, i as int) == Some(start),
                    init == (DiffState { r: a[i as int], keep: true, stop: false, set: start }),
                    diff_row(init, b, j as int) == Some(
                        DiffState { r: r@, keep, stop, set: ranges_view(set@) },
                    ),
                decreases other.set.len() - j,
            {
                let ghost st = DiffState { r: r@, keep, stop, set: ranges_view(set@) };
                proof {
                    assert(diff_row(init, b, j as int + 1) == diff_step(st, b[j as int]));
                }
                let s = &other.set[j];
                assert(s@ == b[j as int]);
                if !stop {
                    let c0 = r.lower().compare(s.lower(), true);
                    if c0 == Order::Greater {
                        let c = r.lower().compare(s.upper(), false);
                        if c == Order::Greater {
                        } else if c == Order::Equal {
                            let lower = match s.upper() {
                                Interval::Open(_, _) => s.upper().copy(),
                                _ => s.upper().copy().flip(),
                            };
                            let upper = r.upper().copy();
                            match Range::new(lower, upper) {
                                Some(range) => {
                                    r = range;
                                },
                                None => {
                                    proof {
                                        lemma_diff_fails(a, b, i as int, j as int, init);
                                    }
                                    return None;
                                },
                            }
                        } else {
                            if s.upper().is_unbounded() {
                                keep = false;
                                stop = true;
                            } else {
                                let lower = s.upper().copy().flip();
                                let upper = r.upper().copy();
                                match Range::new(lower, upper) {
                                    Some(range) => {
                                        r = range;
                                    },
                                    None => {
                                        keep = false;
                                        stop = true;
                                    },
                                }
                            }
                        }
                    } else if c0 == Order::Less {
                        let c = r.upper().compare(s.lower(), false);
                        if c == Order::Less {
                        } else if c == Order::Equal {
                            let lower = r.lower().copy();
                            let upper = match r.upper() {
                                Interval::Closed(v, ap) => Interval::Open(v.copy(), *ap),
                                Interval::Open(_, _) => r.upper().copy(),
                                Interval::Unbounded => {
                                    proof {
                                        lemma_diff_fails(a, b, i as int, j as int, init);
                                    }
                                    return None;
                                },
                            };
                            match Range::new(lower, upper) {
                                Some(range) => {
                                    r = range;
                                },
                                None => {
                                    proof {
                                        lemma_diff_fails(a, b, i as int, j as int, init);
                                    }
                                    return None;
                                },
                            }
                        } else {
                            if r.upper().compare(s.upper(), false) != Order::Greater {
                                let lower = r.lower().copy();
                                let upper = s.lower().copy().flip();
                                match Range::new(lower, upper) {
                                    Some(range) => {
                                        r = range;
                                    },
                                    None => {
                                        proof {
                                            lemma_diff_fails(a, b, i as int, j as int, init);
                                        }
                                        return None;
                                    },
                                }
                            } else {
                                let l1 = r.lower().copy();
                                let u1 = s.lower().copy().flip();
                                let l2 = s.upper().copy().flip();
                                let u2 = r.upper().copy();
                                let first = Range::new(l1, u1);
                                let second = Range::new(l2, u2);
                                match (first, second) {
                                    (Some(x), Some(y)) => {
                                        push_new_exec(&mut set, x);
                                        r = y;
                                    },
                                    _ => {
                                        proof {
                                            lemma_diff_fails(a, b, i as int, j as int, init);
                                        }
                                        return None;
                                    },
                                }
                            }
                        }
                    } else {
                        if s.upper().same(r.upper()) || s.upper().is_unbounded() {
                            keep = false;
                            stop = true;
                        } else {
                            let lower = s.upper().copy().flip();
                            let upper = r.upper().copy();
                            match Range::new(lower, upper) {
                                Some(range) => {
                                    r = range;
                                },
                                None => {
                                    keep = false;
                                    stop = true;
                                },
                            }
                        }
                    }
                }
                j = j + 1;
            }
            if keep {
                push_new_exec(&mut set, r);
            }
            i = i + 1;
        }
        assert(diff_prefix(a, b, a.len() as int) == difference(a, b));
        Some(Constraint { set })
    }

    /// The complement of this constraint: the unbounded range with these ranges taken away.
    pub fn complement(&self) -> (c: Constraint)
        requires
            difference(seq![any_range()], self@) is Some,
        ensures
            difference(seq![any_range()], self@) == Some(c@),
    {
        let any = Constraint::any();
        any.difference(self)
    }

    /// The complement of this constraint, or `None` where the difference that makes it fails.
    pub fn try_complement(&self) -> (c: Option<Constraint>)
        ensures
            match c {
                Some(c) => difference(seq![any_range()], self@) == Some(c@),
                None => difference(seq![any_range()], self@) is None,
            },
    {
        let any = Constraint::any();
        any.try_difference(self)
    }
}

} // verus!

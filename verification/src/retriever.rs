//! What the resolver asks of the package indices: the versions of a package, the best one
//! for a constraint, and the dependencies of a version as incompatibilities.
//!
//! Packages are numbered: the retriever holds the table of package identifiers, and every
//! dependency names its package by its number in that table.

use vstd::prelude::*;
use crate::version::{Version, VersionV, ver_eq, is_pre, version_order, Order};
use crate::constraint::{Constraint, ranges_satisfy, difference, relation, Relation};
use crate::interval::{any_range, IntervalV, Interval, Range, RangeV};
use crate::ids::PackageId;
use crate::resolve::{Incompatibility, IncompatV, IncompatibilityCause, ResolveError, pair_deps};

verus! {

/// A version of a package in an index, with its dependencies.
#[derive(Debug)]
pub struct IndexEntry {
    pub version: Version,
    pub deps: Vec<(usize, Constraint)>,
}

pub struct EntryV {
    pub version: VersionV,
    pub deps: Seq<(usize, Seq<crate::interval::RangeV>)>,
}

pub open spec fn deps_view(d: Seq<(usize, Constraint)>) -> Seq<(usize, Seq<crate::interval::RangeV>)> {
    d.map_values(|p: (usize, Constraint)| (p.0, p.1@))
}

pub open spec fn entry_view(e: IndexEntry) -> EntryV {
    EntryV { version: e.version@, deps: deps_view(e.deps@) }
}

pub open spec fn entries_view(es: Seq<IndexEntry>) -> Seq<EntryV> {
    es.map_values(|e: IndexEntry| entry_view(e))
}

/// Versions in strictly increasing order.
pub open spec fn entries_sorted(es: Seq<EntryV>) -> bool {
    forall|i: int, j: int| 0 <= i < j < es.len() ==> version_order(#[trigger] es[i].version, #[trigger] es[j].version) == Order::Less
}

/// Every dependency names a package of the table.
pub open spec fn deps_in_range(d: Seq<(usize, Seq<crate::interval::RangeV>)>, n: int) -> bool {
    forall|k: int| 0 <= k < d.len() ==> (#[trigger] d[k]).0 < n
}

/// The package indices: for each package of the table, its versions (if the indices know it),
/// the version that the lockfile pins (if any), and whether its versions have been looked up.
pub struct Retriever {
    packages: Vec<PackageId>,
    root: usize,
    root_version: Version,
    root_deps: Vec<(usize, Constraint)>,
    entries: Vec<Option<Vec<IndexEntry>>>,
    locked: Vec<Option<Version>>,
    loaded: Vec<bool>,
}

impl Retriever {
    #[verifier::type_invariant]
    closed spec fn inv(self) -> bool {
        &&& self.entries@.len() == self.packages@.len()
        &&& self.locked@.len() == self.packages@.len()
        &&& self.loaded@.len() == self.packages@.len()
        &&& self.root < self.packages@.len()
        &&& deps_in_range(deps_view(self.root_deps@), self.packages@.len() as int)
        &&& forall|p: int| 0 <= p < self.entries@.len() ==> match #[trigger] self.entries@[p] {
            Some(es) => entries_sorted(entries_view(es@)) && forall|k: int| 0 <= k < es@.len()
                ==> deps_in_range(deps_view((#[trigger] es@[k]).deps@), self.packages@.len() as int),
            None => true,
        }
    }

    /// The number of packages in the table.
    pub closed spec fn count(&self) -> nat {
        self.packages@.len()
    }

    pub closed spec fn root_pkg(&self) -> usize {
        self.root
    }

    pub closed spec fn root_ver(&self) -> VersionV {
        self.root_version@
    }

    pub closed spec fn root_deps_view(&self) -> Seq<(usize, Seq<crate::interval::RangeV>)> {
        deps_view(self.root_deps@)
    }

    /// The versions of a package, where the indices know it.
    pub closed spec fn entries_of(&self, p: int) -> Option<Seq<EntryV>> {
        match self.entries@[p] {
            Some(es) => Some(entries_view(es@)),
            None => None,
        }
    }

    pub closed spec fn locked_of(&self, p: int) -> Option<VersionV> {
        match self.locked@[p] {
            Some(v) => Some(v@),
            None => None,
        }
    }

    /// Whether the versions of a package have been looked up.
    pub closed spec fn loaded_of(&self, p: int) -> bool {
        self.loaded@[p]
    }

    /// What holds of every retriever: the root and every dependency are in the table, and each
    /// package's versions increase.
    pub fn facts(&self)
        ensures
            self.root_pkg() < self.count(),
            deps_in_range(self.root_deps_view(), self.count() as int),
            forall|p: int| 0 <= p < self.count() ==> match #[trigger] self.entries_of(p) {
                Some(es) => entries_sorted(es) && forall|k: int| 0 <= k < es.len()
                    ==> deps_in_range((#[trigger] es[k]).deps, self.count() as int),
                None => true,
            },
    {
        proof {
        use_type_invariant(self);
        assert forall|p: int| 0 <= p < self.count() implies match #[trigger] self.entries_of(p) {
            Some(es) => entries_sorted(es) && forall|k: int| 0 <= k < es.len()
                ==> deps_in_range((#[trigger] es[k]).deps, self.count() as int),
            None => true,
        } by {
            match self.entries@[p] {
                Some(es) => {
                    assert forall|k: int| 0 <= k < entries_view(es@).len() implies deps_in_range(
                        (#[trigger] entries_view(es@)[k]).deps,
                        self.count() as int,
                    ) by {
                        assert(deps_in_range(deps_view(es@[k].deps@), self.packages@.len() as int));
                    }
                },
                None => {},
            }
        }
        }
    }

    /// The table of packages, with the root, its version and dependencies, and for each package
    /// its versions in increasing order (or `None` where the indices do not know it) and the
    /// version the lockfile pins. `None` where the lengths differ, the root or a dependency is
    /// not in the table, or the versions of a package are not strictly increasing.
    pub fn new(
        packages: Vec<PackageId>,
        root: usize,
        root_version: Version,
        root_deps: Vec<(usize, Constraint)>,
        entries: Vec<Option<Vec<IndexEntry>>>,
        locked: Vec<Option<Version>>,
    ) -> (r: Option<Retriever>)
        ensures
            match r {
                Some(x) => x.count() == packages@.len() && x.root_pkg() == root && x.root_ver()
                    == root_version@ && x.root_deps_view() == deps_view(root_deps@) && (forall|p: int|
                    0 <= p < x.count() ==> x.entries_of(p) == match #[trigger] entries@[p] {
                        Some(es) => Some(entries_view(es@)),
                        None => None,
                    } && x.locked_of(p) == match locked@[p] {
                        Some(v) => Some(v@),
                        None => None,
                    } && !x.loaded_of(p)),
                None => !(entries@.len() == packages@.len() && locked@.len() == packages@.len()
                    && root < packages@.len() && deps_in_range(deps_view(root_deps@), packages@.len() as int)
                    && forall|p: int| 0 <= p < entries@.len() ==> match #[trigger] entries@[p] {
                    Some(es) => entries_sorted(entries_view(es@)) && forall|k: int| 0 <= k < es@.len()
                        ==> deps_in_range(deps_view((#[trigger] es@[k]).deps@), packages@.len() as int),
                    None => true,
                }),
            },
    {
        let n = packages.len();
        if entries.len() != n || locked.len() != n || root >= n {
            return None;
        }
        if !deps_ok(&root_deps, n) {
            return None;
        }
        let mut p: usize = 0;
        while p < entries.len()
            invariant
                p <= entries.len(),
                entries.len() == n,
                forall|q: int| 0 <= q < p ==> match #[trigger] entries@[q] {
                    Some(es) => entries_sorted(entries_view(es@)) && forall|k: int| 0 <= k < es@.len()
                        ==> deps_in_range(deps_view((#[trigger] es@[k]).deps@), n as int),
                    None => true,
                },
            decreases entries.len() - p,
        {
            match &entries[p] {
                Some(es) => {
                    if !entries_ok(es, n) {
                        return None;
                    }
                },
                None => {},
            }
            p = p + 1;
        }
        let mut loaded: Vec<bool> = Vec::new();
        let mut q: usize = 0;
        while q < n
            invariant
                q <= n,
                loaded@.len() == q,
                forall|k: int| 0 <= k < q ==> !loaded@[k],
            decreases n - q,
        {
            loaded.push(false);
            q = q + 1;
        }
        Some(Retriever { packages, root, root_version, root_deps, entries, locked, loaded })
    }

    /// The identifier of a package of the table.
    /// The identifier of a package, as text.
    pub closed spec fn package_text(&self, p: int) -> Seq<char> {
        crate::ids::package_id_text(self.packages@[p]@)
    }

    pub fn package(&self, p: usize) -> (r: &PackageId)
        requires
            p < self.count(),
        ensures
            crate::ids::package_id_text(r@) == self.package_text(p as int),
    {
        &self.packages[p]
    }

    pub fn count_packages(&self) -> (r: usize)
        ensures
            r == self.count(),
    {
        self.packages.len()
    }

    pub fn root(&self) -> (r: usize)
        ensures
            r == self.root_pkg(),
    {
        self.root
    }

    pub fn root_version(&self) -> (r: &Version)
        ensures
            r@ == self.root_ver(),
    {
        &self.root_version
    }

    /// How many versions of a package have been looked up: none until its versions are.
    pub fn count_versions(&self, p: usize) -> (r: usize)
        requires
            p < self.count(),
        ensures
            r == (if self.loaded_of(p as int) {
                match self.entries_of(p as int) {
                    Some(es) => es.len(),
                    None => 0,
                }
            } else {
                0
            }),
    {
        proof {
            use_type_invariant(self);
        }
        if self.loaded[p] {
            match &self.entries[p] {
                Some(es) => es.len(),
                None => 0,
            }
        } else {
            0
        }
    }

    /// Looks the versions of a package up, which counts them from then on.
    fn load(&mut self, p: usize) -> (r: bool)
        requires
            p < old(self).count(),
        ensures
            r == (old(self).entries_of(p as int) is Some),
            final(self).count() == old(self).count(),
            final(self).root_pkg() == old(self).root_pkg(),
            final(self).root_ver() == old(self).root_ver(),
            final(self).root_deps_view() == old(self).root_deps_view(),
            forall|q: int| 0 <= q < final(self).count() ==> #[trigger] final(self).entries_of(q) == old(self).entries_of(q)
                && final(self).locked_of(q) == old(self).locked_of(q)
                && final(self).loaded_of(q) == (old(self).loaded_of(q) || (q == p && r)),
    {
        proof {
            use_type_invariant(&*self);
        }
        let found = self.entries[p].is_some();
        if found {
            let mut l = self.loaded.clone();
            assert(l@ == self.loaded@);
            l.set(p, true);
            self.loaded = l;
        }
        found
    }

    /// The best version of a package for a constraint: the pinned one if it fits, else the
    /// greatest (or, to minimize, the least) fitting release, else pre-release.
    pub fn best(&mut self, p: usize, con: &Constraint, minimize: bool) -> (r: Result<Version, ResolveError>)
        requires
            p < old(self).count(),
        ensures
            final(self).count() == old(self).count(),
            final(self).root_pkg() == old(self).root_pkg(),
            final(self).root_ver() == old(self).root_ver(),
            final(self).root_deps_view() == old(self).root_deps_view(),
            forall|q: int| 0 <= q < final(self).count() ==> #[trigger] final(self).entries_of(q) == old(self).entries_of(q)
                && final(self).locked_of(q) == old(self).locked_of(q)
                && final(self).loaded_of(q) == (old(self).loaded_of(q) || (q == p && old(self).entries_of(q) is Some
                    && !(old(self).locked_of(q) matches Some(v) && ranges_satisfy(con@, v)))),
            match r {
                Ok(v) => best_spec(old(self).locked_of(p as int), old(self).entries_of(p as int), con@, minimize) == Ok::<VersionV, ResolveError>(v@),
                Err(e) => best_spec(old(self).locked_of(p as int), old(self).entries_of(p as int), con@, minimize) == Err::<VersionV, ResolveError>(e),
            },
    {
        proof {
            use_type_invariant(&*self);
        }
        match &self.locked[p] {
            Some(v) => {
                if con.satisfies(v) {
                    return Ok(v.copy());
                }
            },
            None => {},
        }
        if !self.load(p) {
            return Err(ResolveError::PackageNotFound);
        }
        proof {
            use_type_invariant(&*self);
            assert(self.entries_of(p as int) == old(self).entries_of(p as int));
            assert(self.locked_of(p as int) == old(self).locked_of(p as int));
        }
        let es = match &self.entries[p] {
            Some(es) => es,
            None => {
                return Err(ResolveError::PackageNotFound);
            },
        };
        best_of(es, con, minimize)
    }

    /// The dependencies of a version of a package, as its entry (or, for the root, the root
    /// itself) lists them.
    pub fn deps_of(&self, p: usize, v: &Version) -> (r: Option<&Vec<(usize, Constraint)>>)
        requires
            p < self.count(),
        ensures
            match r {
                Some(d) => deps_spec(self.root_pkg(), self.root_ver(), self.root_deps_view(),
                    self.entries_of(p as int), p, v@) == Some(deps_view(d@)),
                None => deps_spec(self.root_pkg(), self.root_ver(), self.root_deps_view(),
                    self.entries_of(p as int), p, v@) is None,
            },
    {
        proof {
            use_type_invariant(self);
        }
        if p == self.root && v.same(&self.root_version) {
            return Some(&self.root_deps);
        }
        let es = match &self.entries[p] {
            Some(es) => es,
            None => {
                return None;
            },
        };
        let ghost ev = entries_view(es@);
        let mut ix: usize = 0;
        while ix < es.len() && !es[ix].version.same(v)
            invariant
                ix <= es.len(),
                ev == entries_view(es@),
                find_version(ev, v@) == find_version_from(ev, v@, ix as int),
            decreases es.len() - ix,
        {
            ix = ix + 1;
        }
        if ix == es.len() {
            return None;
        }
        assert(ev[ix as int].deps == deps_view(es@[ix as int].deps@));
        Some(&es[ix].deps)
    }

    /// The dependencies of a version of a package, each as an incompatibility: for the root,
    /// its own dependencies; for another package, every version of it with each dependency of
    /// this version.
    pub fn incompats(&mut self, p: usize, v: &Version) -> (r: Result<Vec<Incompatibility>, ResolveError>)
        requires
            p < old(self).count(),
        ensures
            final(self).count() == old(self).count(),
            final(self).root_pkg() == old(self).root_pkg(),
            final(self).root_ver() == old(self).root_ver(),
            final(self).root_deps_view() == old(self).root_deps_view(),
            forall|q: int| 0 <= q < final(self).count() ==> #[trigger] final(self).entries_of(q) == old(self).entries_of(q)
                && final(self).locked_of(q) == old(self).locked_of(q)
                && final(self).loaded_of(q) == (old(self).loaded_of(q) || (q == p && old(self).entries_of(q) is Some
                    && !(p == old(self).root_pkg() && ver_eq(v@, old(self).root_ver())))),
            match r {
                Ok(is) => incompats_spec(old(self).root_pkg(), old(self).root_ver(), old(self).root_deps_view(),
                    old(self).entries_of(p as int), p, v@) == Ok::<Seq<IncompatV>, ResolveError>(incompats_view(is@)),
                Err(e) => incompats_spec(old(self).root_pkg(), old(self).root_ver(), old(self).root_deps_view(),
                    old(self).entries_of(p as int), p, v@) == Err::<Seq<IncompatV>, ResolveError>(e),
            },
    {
        proof {
            use_type_invariant(&*self);
        }
        if p == self.root && v.same(&self.root_version) {
            return root_incompats_exec(p, v, &self.root_deps);
        }
        if !self.load(p) {
            return Err(ResolveError::PackageNotFound);
        }
        proof {
            use_type_invariant(&*self);
            assert(self.entries_of(p as int) == old(self).entries_of(p as int));
            assert(self.locked_of(p as int) == old(self).locked_of(p as int));
        }
        let es = match &self.entries[p] {
            Some(es) => es,
            None => {
                return Err(ResolveError::PackageNotFound);
            },
        };
        let ghost ev = entries_view(es@);
        let mut ix: usize = 0;
        while ix < es.len() && !es[ix].version.same(v)
            invariant
                ix <= es.len(),
                ev == entries_view(es@),
                find_version(ev, v@) == find_version_from(ev, v@, ix as int),
            decreases es.len() - ix,
        {
            ix = ix + 1;
        }
        if ix == es.len() {
            return Err(ResolveError::PackageNotFound);
        }
        assert(ev[ix as int].deps == deps_view(es@[ix as int].deps@));
        dep_incompats_exec(p, es, ix)
    }
}

fn best_of(es: &Vec<IndexEntry>, con: &Constraint, minimize: bool) -> (r: Result<Version, ResolveError>)
    ensures
        match r {
            Ok(v) => best_spec(None, Some(entries_view(es@)), con@, minimize) == Ok::<VersionV, ResolveError>(v@),
            Err(e) => best_spec(None, Some(entries_view(es@)), con@, minimize) == Err::<VersionV, ResolveError>(e),
        },
{
    let ghost ev = entries_view(es@);
    let mut pre: Vec<Version> = Vec::new();
    let mut not_pre: Vec<Version> = Vec::new();
    let mut i: usize = 0;
    while i < es.len()
        invariant
            i <= es.len(),
            ev == entries_view(es@),
            versions_view(pre@) == fitting(ev.take(i as int), con@, true),
            versions_view(not_pre@) == fitting(ev.take(i as int), con@, false),
        decreases es.len() - i,
    {
        let v = &es[i].version;
        assert(ev.take(i as int + 1).drop_last() =~= ev.take(i as int));
        assert(ev.take(i as int + 1).last().version == v@);
        if con.satisfies(v) {
            if v.is_prerelease() {
                let ghost b = versions_view(pre@);
                pre.push(v.copy());
                assert(versions_view(pre@) =~= b.push(v@));
            } else {
                let ghost b = versions_view(not_pre@);
                not_pre.push(v.copy());
                assert(versions_view(not_pre@) =~= b.push(v@));
            }
        }
        i = i + 1;
    }
    assert(ev.take(es.len() as int) =~= ev);
    if not_pre.len() > 0 {
        if !minimize {
            Ok(not_pre[not_pre.len() - 1].copy())
        } else {
            Ok(not_pre[0].copy())
        }
    } else if pre.len() > 0 {
        if !minimize {
            Ok(pre[pre.len() - 1].copy())
        } else {
            Ok(pre[0].copy())
        }
    } else {
        Err(ResolveError::PackageNotFound)
    }
}

fn root_incompats_exec(p: usize, v: &Version, deps: &Vec<(usize, Constraint)>) -> (r: Result<Vec<Incompatibility>, ResolveError>)
    ensures
        match r {
            Ok(is) => root_incompats(p, v@, deps_view(deps@)) == Ok::<Seq<IncompatV>, ResolveError>(incompats_view(is@)),
            Err(e) => root_incompats(p, v@, deps_view(deps@)) == Err::<Seq<IncompatV>, ResolveError>(e),
        },
{
    let mut res: Vec<Incompatibility> = Vec::new();
    let ghost rd = deps_view(deps@);
    let mut i: usize = 0;
    assert(rd.take(0) =~= Seq::<(usize, Seq<crate::interval::RangeV>)>::empty());
    assert(incompats_view(res@) =~= Seq::<IncompatV>::empty());
    while i < deps.len()
        invariant
            i <= deps.len(),
            rd == deps_view(deps@),
            root_incompats(p, v@, rd.take(i as int)) == Ok::<Seq<IncompatV>, ResolveError>(incompats_view(res@)),
        decreases deps.len() - i,
    {
        let d = &deps[i];
        assert(rd.take(i as int + 1).drop_last() =~= rd.take(i as int));
        assert(rd.take(i as int + 1).last() == (d.0, d.1@));
        match d.1.try_complement() {
            Some(c) => {
                let ghost b = incompats_view(res@);
                let inc = Incompatibility::from_dep((p, v.copy()), (d.0, c));
                res.push(inc);
                assert(incompats_view(res@) =~= b.push(inc@));
            },
            None => {
                proof {
                    lemma_root_incompats_err(p, v@, rd, i as int + 1);
                }
                return Err(ResolveError::ConstraintFailure);
            },
        }
        i = i + 1;
    }
    assert(rd.take(deps.len() as int) =~= rd);
    Ok(res)
}

fn shares_dep_exec(e: &IndexEntry, q: usize, c: &Constraint) -> (r: bool)
    ensures
        r == shares_dep(entry_view(*e), q, c@),
{
    let ghost ev = entry_view(*e);
    let mut k: usize = 0;
    while k < e.deps.len()
        invariant
            k <= e.deps.len(),
            ev == entry_view(*e),
            forall|j: int| 0 <= j < k ==> !((#[trigger] ev.deps[j]).0 == q && (relation(c@, ev.deps[j].1)
                == Relation::Equal || relation(c@, ev.deps[j].1) == Relation::Superset)),
        decreases e.deps.len() - k,
    {
        assert(ev.deps[k as int] == (e.deps@[k as int].0, e.deps@[k as int].1@));
        if e.deps[k].0 == q {
            let rel = c.relation(&e.deps[k].1);
            if rel == Relation::Equal || rel == Relation::Superset {
                return true;
            }
        }
        k = k + 1;
    }
    false
}

/// The range of versions of a package that the dependency on `q` with constraint `c` of its
/// `ix`-th entry stands for.
fn version_span_exec(es: &Vec<IndexEntry>, ix: usize, q: usize, c: &Constraint) -> (r: Constraint)
    requires
        ix < es.len(),
        entries_sorted(entries_view(es@)),
    ensures
        r@ == version_span(entries_view(es@), ix as int, q, c@),
{
    let ghost ev = entries_view(es@);
    let mut lo: usize = ix;
    while lo > 0 && shares_dep_exec(&es[lo - 1], q, c)
        invariant
            lo <= ix < es.len(),
            ev == entries_view(es@),
            widen_below(ev, ix as int, q, c@) == widen_below(ev, lo as int, q, c@),
        decreases lo,
    {
        assert(ev[lo - 1] == entry_view(es@[lo - 1]));
        lo = lo - 1;
    }
    proof {
        if lo > 0 {
            assert(ev[lo - 1] == entry_view(es@[lo - 1]));
        }
    }
    let mut hi: usize = ix;
    while hi + 1 < es.len() && shares_dep_exec(&es[hi + 1], q, c)
        invariant
            lo <= ix <= hi < es.len(),
            ev == entries_view(es@),
            widen_above(ev, ix as int, q, c@) == widen_above(ev, hi as int, q, c@),
        decreases es.len() - hi,
    {
        assert(ev[hi + 1] == entry_view(es@[hi + 1]));
        hi = hi + 1;
    }
    proof {
        if hi + 1 < es.len() {
            assert(ev[hi + 1] == entry_view(es@[hi + 1]));
        }
    }
    if lo == 0 && hi == es.len() - 1 {
        return Constraint::any();
    }
    let a = es[lo].version.copy();
    let b = es[hi].version.copy();
    proof {
        reveal(crate::interval::interval_order);
        assert(ev[lo as int].version == a@);
        assert(ev[hi as int].version == b@);
        crate::version::lemma_version_order_antisym(a@, b@);
        if lo < hi {
            assert(version_order(ev[lo as int].version, ev[hi as int].version) == Order::Less);
        }
        assert(crate::interval::range_new_ok(IntervalV::Closed(a@, false), IntervalV::Closed(b@, false)));
    }
    let r = Range::new(Interval::Closed(a, false), Interval::Closed(b, false)).unwrap();
    Constraint::from_range(r)
}

fn dep_incompats_exec(p: usize, es: &Vec<IndexEntry>, ix: usize) -> (r: Result<Vec<Incompatibility>, ResolveError>)
    requires
        ix < es.len(),
        entries_sorted(entries_view(es@)),
    ensures
        match r {
            Ok(is) => dep_incompats(p, entries_view(es@), ix as int) == Ok::<Seq<IncompatV>, ResolveError>(incompats_view(is@)),
            Err(e) => dep_incompats(p, entries_view(es@), ix as int) == Err::<Seq<IncompatV>, ResolveError>(e),
        },
{
    let ghost ev = entries_view(es@);
    let deps = &es[ix].deps;
    assert(ev[ix as int].deps == deps_view(deps@));
    let mut res: Vec<Incompatibility> = Vec::new();
    let mut i: usize = 0;
    assert(incompats_view(res@) =~= Seq::<IncompatV>::empty());
    while i < deps.len()
        invariant
            i <= deps.len(),
            ix < es.len(),
            entries_sorted(entries_view(es@)),
            ev == entries_view(es@),
            ev[ix as int].deps == deps_view(deps@),
            deps == &es@[ix as int].deps,
            dep_incompats_upto(p, ev, ix as int, i as int) == Ok::<Seq<IncompatV>, ResolveError>(incompats_view(res@)),
        decreases deps.len() - i,
    {
        let d = &deps[i];
        assert(ev[ix as int].deps[i as int] == (d.0, d.1@));
        match d.1.try_complement() {
            Some(c) => {
                let ghost b = incompats_view(res@);
                let span = version_span_exec(es, ix, d.0, &d.1);
                let inc = Incompatibility { deps: pair_deps(p, span, d.0, c), cause: IncompatibilityCause::Dependency };
                res.push(inc);
                assert(incompats_view(res@) =~= b.push(inc@));
            },
            None => {
                proof {
                    lemma_dep_incompats_err(p, ev, ix as int, i as int + 1);
                }
                return Err(ResolveError::ConstraintFailure);
            },
        }
        i = i + 1;
    }
    Ok(res)
}

proof fn lemma_dep_incompats_err(p: usize, es: Seq<EntryV>, ix: int, n: int)
    requires
        0 < n <= es[ix].deps.len(),
        dep_incompats_upto(p, es, ix, n) is Err,
    ensures
        dep_incompats(p, es, ix) == dep_incompats_upto(p, es, ix, n),
    decreases es[ix].deps.len() - n,
{
    if n < es[ix].deps.len() {
        lemma_dep_incompats_err(p, es, ix, n + 1);
    }
}

fn deps_ok(d: &Vec<(usize, Constraint)>, n: usize) -> (r: bool)
    ensures
        r == deps_in_range(deps_view(d@), n as int),
{
    let mut k: usize = 0;
    while k < d.len()
        invariant
            k <= d.len(),
            forall|j: int| 0 <= j < k ==> (#[trigger] deps_view(d@)[j]).0 < n,
        decreases d.len() - k,
    {
        if d[k].0 >= n {
            assert(deps_view(d@)[k as int].0 >= n);
            return false;
        }
        k = k + 1;
    }
    true
}

fn entries_ok(es: &Vec<IndexEntry>, n: usize) -> (r: bool)
    ensures
        r == (entries_sorted(entries_view(es@)) && forall|k: int| 0 <= k < es@.len()
            ==> deps_in_range(deps_view((#[trigger] es@[k]).deps@), n as int)),
{
    let ghost ev = entries_view(es@);
    let mut k: usize = 0;
    while k < es.len()
        invariant
            k <= es.len(),
            ev == entries_view(es@),
            forall|j: int| 0 <= j < k ==> deps_in_range(deps_view((#[trigger] es@[j]).deps@), n as int),
            forall|a: int, b: int| 0 <= a < b < k ==> version_order(#[trigger] ev[a].version, #[trigger] ev[b].version) == Order::Less,
        decreases es.len() - k,
    {
        if !deps_ok(&es[k].deps, n) {
            assert(!deps_in_range(deps_view(es@[k as int].deps@), n as int));
            return false;
        }
        if k > 0 && es[k - 1].version.compare(&es[k].version) != Order::Less {
            assert(ev[k - 1].version == es@[k - 1].version@);
            assert(ev[k as int].version == es@[k as int].version@);
            assert(!entries_sorted(ev));
            return false;
        }
        proof {
            assert forall|a: int, b: int| 0 <= a < b < k + 1 implies version_order(#[trigger] ev[a].version, #[trigger] ev[b].version) == Order::Less by {
                if b == k && a < k - 1 {
                    crate::version::lemma_version_order_trans(ev[a].version, ev[k - 1].version, ev[k as int].version);
                    crate::version::lemma_version_order_antisym(ev[a].version, ev[k - 1].version);
                }
            }
        }
        k = k + 1;
    }
    true
}

pub open spec fn versions_view(v: Seq<Version>) -> Seq<VersionV> {
    v.map_values(|x: Version| x@)
}

/// The versions of the entries that satisfy a constraint and are (or are not) pre-releases,
/// in order.
pub open spec fn fitting(es: Seq<EntryV>, con: Seq<crate::interval::RangeV>, pre: bool) -> Seq<VersionV>
    decreases es.len(),
{
    if es.len() == 0 {
        seq![]
    } else {
        let p = fitting(es.drop_last(), con, pre);
        let v = es.last().version;
        if ranges_satisfy(con, v) && is_pre(v) == pre {
            p.push(v)
        } else {
            p
        }
    }
}

/// What `Retriever::best` chooses.
pub open spec fn best_spec(
    locked: Option<VersionV>,
    entries: Option<Seq<EntryV>>,
    con: Seq<crate::interval::RangeV>,
    minimize: bool,
) -> Result<VersionV, ResolveError> {
    if locked matches Some(v) && ranges_satisfy(con, v) {
        Ok(locked.unwrap())
    } else {
        match entries {
            None => Err(ResolveError::PackageNotFound),
            Some(es) => {
                let rel = fitting(es, con, false);
                let pre = fitting(es, con, true);
                if rel.len() > 0 {
                    Ok(if minimize { rel[0] } else { rel.last() })
                } else if pre.len() > 0 {
                    Ok(if minimize { pre[0] } else { pre.last() })
                } else {
                    Err(ResolveError::PackageNotFound)
                }
            },
        }
    }
}

pub open spec fn incompats_view(s: Seq<Incompatibility>) -> Seq<IncompatV> {
    s.map_values(|i: Incompatibility| i@)
}

/// The root's dependencies as incompatibilities: the root at its version with the complement
/// of each dependency's constraint.
pub open spec fn root_incompats(p: usize, v: VersionV, deps: Seq<(usize, Seq<crate::interval::RangeV>)>) -> Result<Seq<IncompatV>, ResolveError>
    decreases deps.len(),
{
    if deps.len() == 0 {
        Ok(seq![])
    } else {
        match root_incompats(p, v, deps.drop_last()) {
            Err(e) => Err(e),
            Ok(s) => match difference(seq![any_range()], deps.last().1) {
                None => Err(ResolveError::ConstraintFailure),
                Some(c) => Ok(s.push(crate::resolve::from_dep_spec(p, v, deps.last().0, c))),
            },
        }
    }
}

/// Whether a version of a package depends on package `q` with a constraint that `c` takes
/// in whole: equal to it or a superset of it.
pub open spec fn shares_dep(e: EntryV, q: usize, c: Seq<RangeV>) -> bool {
    exists|k: int| 0 <= k < e.deps.len() && (#[trigger] e.deps[k]).0 == q && (relation(c, e.deps[k].1)
        == Relation::Equal || relation(c, e.deps[k].1) == Relation::Superset)
}

/// The first position of the run of entries, ending at `i`, that share the dependency.
pub open spec fn widen_below(es: Seq<EntryV>, i: int, q: usize, c: Seq<RangeV>) -> int
    decreases i,
{
    if 0 < i <= es.len() && shares_dep(es[i - 1], q, c) {
        widen_below(es, i - 1, q, c)
    } else {
        i
    }
}

/// The last position of the run of entries, starting at `i`, that share the dependency.
pub open spec fn widen_above(es: Seq<EntryV>, i: int, q: usize, c: Seq<RangeV>) -> int
    decreases es.len() - i,
{
    if 0 <= i && i + 1 < es.len() && shares_dep(es[i + 1], q, c) {
        widen_above(es, i + 1, q, c)
    } else {
        i
    }
}

/// The versions of a package that a dependency of its `ix`-th entry stands for: those of the
/// neighbouring entries that share the dependency, from the first to the last of the run;
/// every version where the run takes all the entries.
pub open spec fn version_span(es: Seq<EntryV>, ix: int, q: usize, c: Seq<RangeV>) -> Seq<RangeV> {
    let lo = widen_below(es, ix, q, c);
    let hi = widen_above(es, ix, q, c);
    if lo == 0 && hi == es.len() - 1 {
        seq![any_range()]
    } else {
        seq![RangeV { lower: IntervalV::Closed(es[lo].version, false), upper: IntervalV::Closed(es[hi].version, false) }]
    }
}

proof fn lemma_widen_below(es: Seq<EntryV>, i: int, q: usize, c: Seq<RangeV>)
    requires
        0 <= i < es.len(),
    ensures
        0 <= widen_below(es, i, q, c) <= i,
        forall|j: int| widen_below(es, i, q, c) <= j < i ==> shares_dep(#[trigger] es[j], q, c),
    decreases i,
{
    if i > 0 && shares_dep(es[i - 1], q, c) {
        lemma_widen_below(es, i - 1, q, c);
    }
}

proof fn lemma_widen_above(es: Seq<EntryV>, i: int, q: usize, c: Seq<RangeV>)
    requires
        0 <= i < es.len(),
    ensures
        i <= widen_above(es, i, q, c) < es.len(),
        forall|j: int| i < j <= widen_above(es, i, q, c) ==> shares_dep(#[trigger] es[j], q, c),
    decreases es.len() - i,
{
    if i + 1 < es.len() && shares_dep(es[i + 1], q, c) {
        lemma_widen_above(es, i + 1, q, c);
    }
}

/// Every other version of the package that the incompatibility of a dependency covers has a
/// dependency on the same package with a constraint that the first one takes in whole: the
/// incompatibility claims of those versions only what their own dependencies say.
pub proof fn law_span_shares(es: Seq<EntryV>, ix: int, q: usize, c: Seq<RangeV>, k: int)
    requires
        entries_sorted(es),
        0 <= ix < es.len(),
        0 <= k < es.len(),
        k != ix,
        ranges_satisfy(version_span(es, ix, q, c), es[k].version),
    ensures
        shares_dep(es[k], q, c),
{
    lemma_widen_below(es, ix, q, c);
    lemma_widen_above(es, ix, q, c);
    let lo = widen_below(es, ix, q, c);
    let hi = widen_above(es, ix, q, c);
    if !(lo == 0 && hi == es.len() - 1) {
        let span = version_span(es, ix, q, c);
        assert(crate::interval::range_satisfies(span[0], es[k].version));
        let v = es[k].version;
        if k < lo {
            assert(version_order(es[k].version, es[lo].version) == Order::Less);
            crate::version::lemma_version_order_antisym(es[k].version, es[lo].version);
        }
        if k > hi {
            assert(version_order(es[hi].version, es[k].version) == Order::Less);
            crate::version::lemma_version_order_antisym(es[hi].version, es[k].version);
        }
    }
}

/// The first `n` dependencies of the `ix`-th entry of a package as incompatibilities: the
/// versions that share the dependency, with the complement of its constraint.
pub open spec fn dep_incompats_upto(p: usize, es: Seq<EntryV>, ix: int, n: int) -> Result<Seq<IncompatV>, ResolveError>
    decreases n,
{
    if n <= 0 {
        Ok(seq![])
    } else {
        match dep_incompats_upto(p, es, ix, n - 1) {
            Err(e) => Err(e),
            Ok(s) => {
                let d = es[ix].deps[n - 1];
                match difference(seq![any_range()], d.1) {
                    None => Err(ResolveError::ConstraintFailure),
                    Some(c) => Ok(s.push(IncompatV {
                        deps: crate::resolve::pair_spec(p, version_span(es, ix, d.0, d.1), d.0, c),
                        cause: IncompatibilityCause::Dependency,
                    })),
                }
            },
        }
    }
}

/// A package's dependencies, those of its `ix`-th entry, as incompatibilities.
pub open spec fn dep_incompats(p: usize, es: Seq<EntryV>, ix: int) -> Result<Seq<IncompatV>, ResolveError> {
    dep_incompats_upto(p, es, ix, es[ix].deps.len() as int)
}

proof fn lemma_root_incompats_err(p: usize, v: VersionV, deps: Seq<(usize, Seq<crate::interval::RangeV>)>, n: int)
    requires
        0 < n <= deps.len(),
        root_incompats(p, v, deps.take(n)) is Err,
    ensures
        root_incompats(p, v, deps) == root_incompats(p, v, deps.take(n)),
    decreases deps.len() - n,
{
    if n < deps.len() {
        assert(deps.take(n + 1).drop_last() =~= deps.take(n));
        lemma_root_incompats_err(p, v, deps, n + 1);
    } else {
        assert(deps.take(n) =~= deps);
    }
}

/// The position of a version among the entries, or their number.
pub open spec fn find_version_from(es: Seq<EntryV>, v: VersionV, i: int) -> int
    decreases es.len() - i,
{
    if i < 0 || i >= es.len() {
        es.len() as int
    } else if ver_eq(es[i].version, v) {
        i
    } else {
        find_version_from(es, v, i + 1)
    }
}

pub open spec fn find_version(es: Seq<EntryV>, v: VersionV) -> int {
    find_version_from(es, v, 0)
}

pub proof fn lemma_find_version(es: Seq<EntryV>, v: VersionV, i: int)
    requires
        0 <= i,
    ensures
        0 <= find_version_from(es, v, i) <= es.len(),
    decreases es.len() - i,
{
    if i < es.len() && !ver_eq(es[i].version, v) {
        lemma_find_version(es, v, i + 1);
    }
}

/// The dependencies of a version of a package: the root's own at the root version, else those
/// of the package's entry at that version; `None` where there is no such entry.
pub open spec fn deps_spec(
    root: usize,
    root_ver: VersionV,
    root_deps: Seq<(usize, Seq<RangeV>)>,
    entries: Option<Seq<EntryV>>,
    p: usize,
    v: VersionV,
) -> Option<Seq<(usize, Seq<RangeV>)>> {
    if p == root && ver_eq(v, root_ver) {
        Some(root_deps)
    } else {
        match entries {
            None => None,
            Some(es) => {
                let ix = find_version(es, v);
                if ix >= es.len() {
                    None
                } else {
                    Some(es[ix].deps)
                }
            },
        }
    }
}

/// What `Retriever::incompats` gives.
pub open spec fn incompats_spec(
    root: usize,
    root_ver: VersionV,
    root_deps: Seq<(usize, Seq<crate::interval::RangeV>)>,
    entries: Option<Seq<EntryV>>,
    p: usize,
    v: VersionV,
) -> Result<Seq<IncompatV>, ResolveError> {
    if p == root && ver_eq(v, root_ver) {
        root_incompats(p, v, root_deps)
    } else {
        match entries {
            None => Err(ResolveError::PackageNotFound),
            Some(es) => {
                let ix = find_version(es, v);
                if ix >= es.len() {
                    Err(ResolveError::PackageNotFound)
                } else {
                    dep_incompats(p, es, ix)
                }
            },
        }
    }
}

proof fn lemma_root_incompats_err_kind(p: usize, v: VersionV, deps: Seq<(usize, Seq<RangeV>)>)
    ensures
        root_incompats(p, v, deps) matches Err(e) ==> e == ResolveError::ConstraintFailure,
    decreases deps.len(),
{
    if deps.len() > 0 {
        lemma_root_incompats_err_kind(p, v, deps.drop_last());
    }
}

proof fn lemma_dep_incompats_err_kind(p: usize, es: Seq<EntryV>, ix: int, n: int)
    ensures
        dep_incompats_upto(p, es, ix, n) matches Err(e) ==> e == ResolveError::ConstraintFailure,
    decreases n,
{
    if n > 0 {
        lemma_dep_incompats_err_kind(p, es, ix, n - 1);
    }
}

/// The dependencies of a version are not found, or a constraint of them cannot be
/// complemented: there is no other way for them to fail.
pub proof fn lemma_incompats_err_kind(
    root: usize,
    root_ver: VersionV,
    root_deps: Seq<(usize, Seq<RangeV>)>,
    entries: Option<Seq<EntryV>>,
    p: usize,
    v: VersionV,
)
    ensures
        incompats_spec(root, root_ver, root_deps, entries, p, v) matches Err(e) ==> e
            == ResolveError::ConstraintFailure || e == ResolveError::PackageNotFound,
{
    lemma_root_incompats_err_kind(p, v, root_deps);
    match entries {
        Some(es) => {
            let ix = find_version(es, v);
            lemma_find_version(es, v, 0);
            if ix < es.len() {
                lemma_dep_incompats_err_kind(p, es, ix, es[ix].deps.len() as int);
                assert(dep_incompats(p, es, ix) == dep_incompats_upto(p, es, ix, es[ix].deps.len() as int));
            }
        },
        None => {},
    }
}

/// The fitting versions are versions of the entries that satisfy the constraint and are (or
/// are not) pre-releases; and where an entry is such a version, some are found.
proof fn lemma_fitting(es: Seq<EntryV>, con: Seq<crate::interval::RangeV>, pre: bool)
    ensures
        forall|k: int| 0 <= k < fitting(es, con, pre).len() ==> {
            let v = #[trigger] fitting(es, con, pre)[k];
            &&& ranges_satisfy(con, v)
            &&& is_pre(v) == pre
            &&& exists|i: int| 0 <= i < es.len() && es[i].version == v
        },
        (exists|i: int| 0 <= i < es.len() && ranges_satisfy(con, #[trigger] es[i].version) && is_pre(es[i].version) == pre)
            ==> fitting(es, con, pre).len() > 0,
    decreases es.len(),
{
    if es.len() > 0 {
        let d = es.drop_last();
        lemma_fitting(d, con, pre);
        let f = fitting(es, con, pre);
        let g = fitting(d, con, pre);
        assert forall|k: int| 0 <= k < f.len() implies {
            let v = #[trigger] f[k];
            &&& ranges_satisfy(con, v)
            &&& is_pre(v) == pre
            &&& exists|i: int| 0 <= i < es.len() && es[i].version == v
        } by {
            if k < g.len() {
                assert(f[k] == g[k]);
                let i = choose|i: int| 0 <= i < d.len() && d[i].version == g[k];
                assert(es[i] == d[i]);
            } else {
                assert(f[k] == es[es.len() - 1].version);
            }
        }
        if exists|i: int| 0 <= i < es.len() && ranges_satisfy(con, #[trigger] es[i].version) && is_pre(es[i].version) == pre {
            let i = choose|i: int| 0 <= i < es.len() && ranges_satisfy(con, #[trigger] es[i].version) && is_pre(es[i].version) == pre;
            if i < es.len() - 1 {
                assert(d[i] == es[i]);
            }
        }
    }
}

/// The best version of a package for a constraint satisfies the constraint. Unless it is the
/// pinned version, it is a version of the package's entries, and it is a pre-release only
/// where no release of the entries satisfies the constraint.
pub proof fn law_best_fits(
    locked: Option<VersionV>,
    entries: Option<Seq<EntryV>>,
    con: Seq<crate::interval::RangeV>,
    minimize: bool,
)
    ensures
        best_spec(locked, entries, con, minimize) matches Ok(v) ==> {
            &&& ranges_satisfy(con, v)
            &&& (locked != Some(v) ==> (entries matches Some(es) && {
                &&& exists|i: int| 0 <= i < es.len() && es[i].version == v
                &&& is_pre(v) ==> forall|i: int|
                    0 <= i < es.len() && ranges_satisfy(con, #[trigger] es[i].version) ==> is_pre(es[i].version)
            }))
        },
{
    if let Some(es) = entries {
        lemma_fitting(es, con, false);
        lemma_fitting(es, con, true);
        let rel = fitting(es, con, false);
        if rel.len() > 0 {
            assert(rel[0] == rel[0]);
            assert(rel.last() == rel[rel.len() - 1]);
        }
        let pre = fitting(es, con, true);
        if pre.len() > 0 {
            assert(pre[0] == pre[0]);
            assert(pre.last() == pre[pre.len() - 1]);
        }
    }
}

} // verus!

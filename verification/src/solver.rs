//! The dependency resolver, after the Pubgrub algorithm: unit propagation, conflict
//! resolution with learned incompatibilities, decisions, and the report of a failure.
//!
//! Loops whose termination rests on the algorithm rather than on their own structure run on a
//! budget of steps; resolution gives up with `TooManySteps` when it is spent.

use vstd::prelude::*;
use crate::version::{Version, VersionV};
use crate::interval::{RangeV, any_range, exact_range};
use crate::constraint::{Constraint, Relation, relation, intersection, difference, ranges_text, same_set};
use crate::text::{push_char, push_str, push_u64, nat_text};
use crate::resolve::{Incompatibility, IncompatV, IncompatibilityCause, ResolveError, Assignment,
    AssignmentType, AssignmentV, AssignmentTypeV, assignment_constraint, assignment_cause,
    terms_view, terms_distinct};
use crate::retriever::{Retriever, incompats_view, incompats_spec, deps_spec, root_incompats, dep_incompats, dep_incompats_upto, deps_in_range, EntryV, find_version, best_spec};

verus! {

/// What an incompatibility says of the current assignments.
pub enum IncompatMatch {
    /// Every term holds: the incompatibility is violated.
    Satisfied,
    /// Every term but the one of this package holds.
    Almost(usize),
    /// Some term cannot hold, or too little is known.
    Contradicted,
}

pub type DerivV = (usize, bool, Seq<RangeV>);

/// The index of incompatibilities by package once the one at `icix` is added under the
/// packages of its first `k` terms.
pub open spec fn ixs_with(ixs: Seq<Seq<usize>>, deps: Seq<(usize, Seq<RangeV>)>, icix: usize, k: int) -> Seq<Seq<usize>>
    decreases k,
{
    if k <= 0 {
        ixs
    } else {
        let prev = ixs_with(ixs, deps, icix, k - 1);
        let p = deps[k - 1].0 as int;
        prev.update(p, prev[p].push(icix))
    }
}

/// The position of a package among the derivations, or -1.
pub open spec fn deriv_index(d: Seq<DerivV>, p: usize) -> int
    decreases d.len(),
{
    if d.len() == 0 {
        -1
    } else if d.last().0 == p {
        d.len() - 1
    } else {
        deriv_index(d.drop_last(), p)
    }
}

/// The derivations once an assignment is registered: a decision makes its package positive
/// with the decided version alone; a derivation is added, or met with the package's
/// derivation so far (positive once either is).
pub open spec fn register_derivs(d: Seq<DerivV>, a: AssignmentV) -> Seq<DerivV> {
    let k = deriv_index(d, a.pkg);
    match a.ty {
        AssignmentTypeV::Decision { version } => if k < 0 {
            d.push((a.pkg, true, seq![exact_range(version)]))
        } else {
            d.update(k, (a.pkg, true, seq![exact_range(version)]))
        },
        AssignmentTypeV::Derivation { constraint, positive, .. } => if k < 0 {
            d.push((a.pkg, positive, constraint))
        } else {
            d.update(k, (a.pkg, d[k].1 || positive, intersection(d[k].2, constraint)))
        },
    }
}

pub open spec fn register_decisions(d: Seq<Option<VersionV>>, a: AssignmentV) -> Seq<Option<VersionV>> {
    match a.ty {
        AssignmentTypeV::Decision { version } => d.update(a.pkg as int, Some(version)),
        _ => d,
    }
}

/// How a package's derivation relates to a constraint; a package without one allows every
/// version.
pub open spec fn relation_spec(d: Seq<DerivV>, p: usize, c: Seq<RangeV>) -> Relation {
    let k = deriv_index(d, p);
    if k < 0 {
        Relation::Superset
    } else {
        relation(d[k].2, c)
    }
}

/// The intersection of the constraints of the package's assignments among the first `n`.
pub open spec fn assigned_term(a: Seq<AssignmentV>, p: usize, n: int) -> Seq<RangeV>
    decreases n,
{
    if n <= 0 {
        seq![any_range()]
    } else if a[n - 1].pkg == p {
        intersection(assigned_term(a, p, n - 1), assignment_constraint(a[n - 1]))
    } else {
        assigned_term(a, p, n - 1)
    }
}

/// The first assignment at which the package's accumulated term falls within the constraint.
pub open spec fn satisfier_from(a: Seq<AssignmentV>, p: usize, c: Seq<RangeV>, i: int) -> Option<int>
    decreases a.len() - i,
{
    if i < 0 || i >= a.len() {
        None
    } else if a[i].pkg == p && (relation(assigned_term(a, p, i + 1), c) == Relation::Subset
        || relation(assigned_term(a, p, i + 1), c) == Relation::Equal) {
        Some(i)
    } else {
        satisfier_from(a, p, c, i + 1)
    }
}

pub open spec fn assignments_view(a: Seq<Assignment>) -> Seq<AssignmentV> {
    a.map_values(|x: Assignment| x@)
}

pub open spec fn derivs_view(d: Seq<(usize, bool, Constraint)>) -> Seq<DerivV> {
    d.map_values(|x: (usize, bool, Constraint)| (x.0, x.1, x.2@))
}

pub open spec fn decisions_view(d: Seq<Option<Version>>) -> Seq<Option<VersionV>> {
    d.map_values(|x: Option<Version>| match x {
        Some(v) => Some(v@),
        None => None,
    })
}

/// Every package of the terms is in a table of `n` packages.
pub open spec fn terms_in(d: Seq<(usize, Seq<RangeV>)>, n: nat) -> bool {
    forall|k: int| 0 <= k < d.len() ==> (#[trigger] d[k]).0 < n
}

/// An incompatibility at position `i` is well formed: its packages are in the table, occur
/// once, and an incompatibility it is derived from comes before it.
pub open spec fn incompat_wf(ic: IncompatV, i: int, n: nat) -> bool {
    &&& terms_in(ic.deps, n)
    &&& terms_distinct(ic.deps)
    &&& match ic.cause {
        IncompatibilityCause::Derived(l, r) => l < i && r < i,
        _ => true,
    }
}

/// The packages of the assignments from position `m` on, taken from the last back, each once,
/// in the order first met.
pub open spec fn popped_pkgs(a: Seq<AssignmentV>, m: int) -> Seq<usize>
    decreases a.len() - m,
{
    if m < 0 || m >= a.len() {
        seq![]
    } else {
        let rest = popped_pkgs(a, m + 1);
        if rest.contains(a[m].pkg) {
            rest
        } else {
            rest.push(a[m].pkg)
        }
    }
}

/// The number of assignments kept when backtracking to a level: all up to the last one at
/// that level or below.
pub open spec fn kept_count(a: Seq<AssignmentV>, level: u16, n: int) -> int
    decreases n,
{
    if n <= 0 {
        0
    } else if a[n - 1].level > level {
        kept_count(a, level, n - 1)
    } else {
        n
    }
}

/// The incompatibility that resolution starts from: the root package at any version but its
/// own.
pub open spec fn root_incompat(root: usize, root_ver: VersionV) -> IncompatV {
    IncompatV {
        deps: seq![(root, difference(seq![any_range()], seq![crate::interval::exact_range(root_ver)]).unwrap())],
        cause: IncompatibilityCause::Root,
    }
}

/// Whether a version satisfies every constraint that dependencies put on package `q`.
pub open spec fn fits_deps_spec(ds: Seq<(usize, Seq<RangeV>)>, q: usize, v: VersionV) -> bool {
    forall|t: int| 0 <= t < ds.len() && (#[trigger] ds[t]).0 == q ==> crate::constraint::ranges_satisfy(ds[t].1, v)
}

/// Whether a version satisfies every constraint that dependencies put on package `q`.
fn fits_deps(ds: &Vec<(usize, Constraint)>, q: usize, v: &Version) -> (r: bool)
    ensures
        r == fits_deps_spec(crate::retriever::deps_view(ds@), q, v@),
{
    let ghost dv = crate::retriever::deps_view(ds@);
    let mut t: usize = 0;
    while t < ds.len()
        invariant
            t <= ds@.len(),
            dv == crate::retriever::deps_view(ds@),
            forall|u: int| 0 <= u < t && (#[trigger] dv[u]).0 == q ==> crate::constraint::ranges_satisfy(dv[u].1, v@),
        decreases ds@.len() - t,
    {
        assert(dv[t as int] == (ds@[t as int].0, ds@[t as int].1@));
        if ds[t].0 == q && !ds[t].1.satisfies(v) {
            return false;
        }
        t = t + 1;
    }
    true
}

/// What one pass of conflict resolution learns from the terms of an incompatibility: the term
/// satisfied last and its satisfier, the part of that term its satisfier leaves over (where
/// any), and the greatest decision level at which the other terms, and that part, are
/// satisfied (at least 1).
pub struct ConflictScan {
    pub term: Option<int>,
    pub satisfier: Option<int>,
    pub diff: Option<(usize, Seq<RangeV>)>,
    pub prev_level: u16,
}

pub open spec fn max_level(a: u16, b: u16) -> u16 {
    if a >= b {
        a
    } else {
        b
    }
}

/// The scan of the first `k` terms of an incompatibility against the assignments; `None` where
/// a term has no satisfier or a difference cannot be computed.
pub open spec fn conflict_scan(a: Seq<AssignmentV>, d: Seq<(usize, Seq<RangeV>)>, k: int) -> Option<ConflictScan>
    decreases k,
{
    if k <= 0 {
        Some(ConflictScan { term: None, satisfier: None, diff: None, prev_level: 1 })
    } else {
        match conflict_scan(a, d, k - 1) {
            None => None,
            Some(st) => {
                let pkg = d[k - 1].0;
                let c = d[k - 1].1;
                match satisfier_from(a, pkg, c, 0) {
                    None => None,
                    Some(sat) => {
                        let st2 = match st.satisfier {
                            Some(m) => if a[m].step < a[sat].step {
                                ConflictScan {
                                    term: Some(k - 1),
                                    satisfier: Some(sat),
                                    diff: None,
                                    prev_level: max_level(st.prev_level, a[m].level),
                                }
                            } else {
                                ConflictScan { prev_level: max_level(st.prev_level, a[sat].level), ..st }
                            },
                            None => ConflictScan { term: Some(k - 1), satisfier: Some(sat), ..st },
                        };
                        if st2.term == Some(k - 1) {
                            match difference(assignment_constraint(a[sat]), c) {
                                None => None,
                                Some(df) => if df.len() == 0 {
                                    Some(ConflictScan { diff: None, ..st2 })
                                } else {
                                    match difference(seq![any_range()], df) {
                                        None => None,
                                        Some(comp) => match satisfier_from(a, pkg, comp, 0) {
                                            None => None,
                                            Some(s2) => Some(ConflictScan {
                                                prev_level: max_level(st2.prev_level, a[s2].level),
                                                diff: Some((pkg, df)),
                                                ..st2
                                            }),
                                        },
                                    }
                                },
                            }
                        } else {
                            Some(st2)
                        }
                    },
                }
            },
        }
    }
}

/// Where conflict resolution stops on an incompatibility and to which level it goes back: the
/// scan of its terms succeeds, and the satisfier of the term satisfied last is a decision or
/// lies above the previous-satisfier level, which is `level`.
pub open spec fn backjumps_to(a: Seq<AssignmentV>, d: Seq<(usize, Seq<RangeV>)>, level: u16) -> bool {
    &&& conflict_scan(a, d, d.len() as int) is Some
    &&& conflict_scan(a, d, d.len() as int).unwrap().satisfier is Some
    &&& {
        let st = conflict_scan(a, d, d.len() as int).unwrap();
        let m = st.satisfier.unwrap();
        &&& 0 <= m < a.len()
        &&& st.prev_level < a[m].level || assignment_cause(a[m]) is None
        &&& level == st.prev_level
    }
}

/// The terms of `d` put in one by one, all but the one at position `skip`.
pub open spec fn put_terms_but_at(acc: Seq<(usize, Seq<RangeV>)>, d: Seq<(usize, Seq<RangeV>)>, skip: int, n: int) -> Seq<(usize, Seq<RangeV>)>
    decreases n,
{
    if n <= 0 {
        acc
    } else {
        let p = put_terms_but_at(acc, d, skip, n - 1);
        if n - 1 == skip {
            p
        } else {
            map_insert_spec(p, d[n - 1].0, d[n - 1].1)
        }
    }
}

/// The terms of `d` put in one by one, all but those of package `skip`.
pub open spec fn put_terms_but_of(acc: Seq<(usize, Seq<RangeV>)>, d: Seq<(usize, Seq<RangeV>)>, skip: usize, n: int) -> Seq<(usize, Seq<RangeV>)>
    decreases n,
{
    if n <= 0 {
        acc
    } else {
        let p = put_terms_but_of(acc, d, skip, n - 1);
        if d[n - 1].0 == skip {
            p
        } else {
            map_insert_spec(p, d[n - 1].0, d[n - 1].1)
        }
    }
}

/// The resolvent of an incompatibility and the cause of the satisfier of its term at `term`:
/// its other terms, then the cause's terms but on the satisfier's package, then the
/// complement of what the satisfier leaves over of the term, where it leaves something.
pub open spec fn resolvent(
    d: Seq<(usize, Seq<RangeV>)>,
    term: int,
    cause: Seq<(usize, Seq<RangeV>)>,
    sat_pkg: usize,
    diff: Option<(usize, Seq<RangeV>)>,
) -> Option<Seq<(usize, Seq<RangeV>)>> {
    let t1 = put_terms_but_at(seq![], d, term, d.len() as int);
    let t2 = put_terms_but_of(t1, cause, sat_pkg, cause.len() as int);
    match diff {
        None => Some(t2),
        Some((p, df)) => match difference(seq![any_range()], df) {
            None => None,
            Some(c) => Some(map_insert_spec(t2, p, c)),
        },
    }
}

/// The incompatibility at `k`, learned during conflict resolution, is the resolvent of the
/// one before it (the one resolution started from, for the first) with the cause of its
/// satisfier.
pub open spec fn learned_by_resolution(a: Seq<AssignmentV>, f: Seq<IncompatV>, base: int, start: int, k: int) -> bool {
    let prev = if k == base { start } else { k - 1 };
    let ic = f[prev];
    &&& 0 <= prev < k
    &&& conflict_scan(a, ic.deps, ic.deps.len() as int) is Some
    &&& {
        let st = conflict_scan(a, ic.deps, ic.deps.len() as int).unwrap();
        &&& st.satisfier is Some
        &&& st.term is Some
        &&& {
            let m = st.satisfier.unwrap();
            &&& 0 <= m < a.len()
            &&& assignment_cause(a[m]) matches Some(c) && c < k && f[k].cause == IncompatibilityCause::Derived(
                prev as usize,
                c,
            ) && resolvent(ic.deps, st.term.unwrap(), f[c as int].deps, a[m].pkg, st.diff) == Some(f[k].deps)
        }
    }
}

pub open spec fn opt_index(o: Option<usize>) -> Option<int> {
    match o {
        Some(x) => Some(x as int),
        None => None,
    }
}

pub open spec fn opt_term(o: Option<(usize, Constraint)>) -> Option<(usize, Seq<RangeV>)> {
    match o {
        Some((p, c)) => Some((p, c@)),
        None => None,
    }
}

/// The line with which a failure report ends.
pub open spec fn failed_ending() -> Seq<char> {
    "Thus, version solving has failed."@ + "\n"@
}

/// Whether a text ends with the line that says version solving has failed.
pub open spec fn ends_failed(t: Seq<char>) -> bool {
    t.len() >= failed_ending().len() && t.subrange(t.len() - failed_ending().len(), t.len() as int)
        == failed_ending()
}

/// Whether one of the incompatibilities says that resolution fails.
pub open spec fn has_failure(s: Seq<IncompatV>, root: usize) -> bool {
    exists|i: int| 0 <= i < s.len() && #[trigger] incompat_failure(s[i], root)
}

/// The position of the last of the first `n` incompatibilities that says resolution fails.
pub open spec fn last_failure(s: Seq<IncompatV>, root: usize, n: int) -> Option<int>
    decreases n,
{
    if n <= 0 {
        None
    } else if incompat_failure(s[n - 1], root) {
        Some(n - 1)
    } else {
        last_failure(s, root, n - 1)
    }
}

proof fn lemma_last_failure(s: Seq<IncompatV>, root: usize, n: int)
    requires
        0 <= n <= s.len(),
    ensures
        last_failure(s, root, n) is None ==> forall|i: int| 0 <= i < n ==> !incompat_failure(#[trigger] s[i], root),
    decreases n,
{
    if n > 0 {
        lemma_last_failure(s, root, n - 1);
    }
}

/// Decision levels never decrease along the assignments, and none is above `level`.
pub open spec fn levels_ordered(a: Seq<AssignmentV>, level: u16) -> bool {
    forall|i: int, j: int| 0 <= i <= j < a.len() ==> (#[trigger] a[i]).level <= (#[trigger] a[j]).level
        && a[j].level <= level
}

/// An incompatibility that says resolution fails: it has no term, or only one of the root.
pub open spec fn incompat_failure(i: IncompatV, root: usize) -> bool {
    i.deps.len() == 0 || (i.deps.len() == 1 && i.deps[0].0 == root)
}

/// Conflict resolution cannot go on from a term: no assignment satisfies it, or what its
/// satisfier leaves over of it cannot be taken, or that remainder has no complement or no
/// satisfier of its complement.
pub open spec fn term_stuck(a: Seq<AssignmentV>, t: (usize, Seq<RangeV>)) -> bool {
    match satisfier_from(a, t.0, t.1, 0) {
        None => true,
        Some(s) => match difference(assignment_constraint(a[s]), t.1) {
            None => true,
            Some(diff) => diff.len() > 0 && match difference(seq![any_range()], diff) {
                None => true,
                Some(comp) => satisfier_from(a, t.0, comp, 0) is None,
            },
        },
    }
}

pub open spec fn conflict_stuck(i: IncompatV, a: Seq<AssignmentV>) -> bool {
    exists|k: int| 0 <= k < i.deps.len() && term_stuck(a, #[trigger] i.deps[k])
}

/// Backtracking to `level` cannot be done: no assignment is at that level or below, or the
/// step counter is smaller than the number of assignments above it.
pub open spec fn backtrack_blocked(a: Seq<AssignmentV>, step: u16, level: u16) -> bool {
    kept_count(a, level, a.len() as int) == 0 || step < a.len() - kept_count(a, level, a.len() as int)
}

proof fn lemma_kept_count_bound(a: Seq<AssignmentV>, level: u16, n: int)
    ensures
        kept_count(a, level, n) <= (if n < 0 { 0 } else { n }),
        kept_count(a, level, n) >= 0,
    decreases n,
{
    if n > 0 {
        lemma_kept_count_bound(a, level, n - 1);
    }
}

/// A package's derivation removed by moving the last one into its place.
pub open spec fn swap_remove_key(d: Seq<DerivV>, p: usize) -> Seq<DerivV> {
    let k = deriv_index(d, p);
    if k < 0 {
        d
    } else {
        d.update(k, d.last()).drop_last()
    }
}

pub open spec fn remove_keys(d: Seq<DerivV>, ps: Seq<usize>) -> Seq<DerivV>
    decreases ps.len(),
{
    if ps.len() == 0 {
        d
    } else {
        swap_remove_key(remove_keys(d, ps.drop_last()), ps.last())
    }
}

/// The assignments of the given packages registered again, in order.
pub open spec fn reregister(d: Seq<DerivV>, a: Seq<AssignmentV>, ps: Seq<usize>) -> Seq<DerivV>
    decreases a.len(),
{
    if a.len() == 0 {
        d
    } else {
        let prev = reregister(d, a.drop_last(), ps);
        if ps.contains(a.last().pkg) {
            register_derivs(prev, a.last())
        } else {
            prev
        }
    }
}

/// The decisions with those of the given packages taken away.
pub open spec fn clear_decisions(d: Seq<Option<VersionV>>, ps: Seq<usize>) -> Seq<Option<VersionV>>
    decreases ps.len(),
{
    if ps.len() == 0 {
        d
    } else {
        clear_decisions(d, ps.drop_last()).update(ps.last() as int, None)
    }
}

pub open spec fn redecide(d: Seq<Option<VersionV>>, a: Seq<AssignmentV>, ps: Seq<usize>) -> Seq<Option<VersionV>>
    decreases a.len(),
{
    if a.len() == 0 {
        d
    } else {
        let prev = redecide(d, a.drop_last(), ps);
        if ps.contains(a.last().pkg) {
            register_decisions(prev, a.last())
        } else {
            prev
        }
    }
}

/// The outcome of scanning an incompatibility's terms against the derivations: a term that
/// cannot hold, or the position of the one term not yet known to hold (if any).
pub enum ScanV {
    Contradicted,
    Unsat(Option<int>),
}

/// Whether the term at position `ix` of an incompatibility with this cause derives a positive
/// constraint: the dependee of a dependency, or the root.
pub open spec fn term_positive(ix: int, cause: IncompatibilityCause) -> bool {
    (ix == 1 && cause == IncompatibilityCause::Dependency) || cause == IncompatibilityCause::Root
}

/// The scan of the first `k` terms, in order.
pub open spec fn scan(d: Seq<DerivV>, deps: Seq<(usize, Seq<RangeV>)>, k: int) -> ScanV
    decreases k,
{
    if k <= 0 {
        ScanV::Unsat(None)
    } else {
        match scan(d, deps, k - 1) {
            ScanV::Contradicted => ScanV::Contradicted,
            ScanV::Unsat(u) => {
                let t = deps[k - 1];
                let rel = relation_spec(d, t.0, t.1);
                if rel == Relation::Disjoint || (t.1.len() == 0 && deriv_index(d, t.0) >= 0) {
                    ScanV::Contradicted
                } else if rel != Relation::Subset && rel != Relation::Equal {
                    if u is None {
                        ScanV::Unsat(Some(k - 1))
                    } else {
                        ScanV::Contradicted
                    }
                } else {
                    ScanV::Unsat(u)
                }
            },
        }
    }
}

/// The resolver's state.
pub struct Resolver {
    step: u16,
    level: u16,
    assignments: Vec<Assignment>,
    decisions: Vec<Option<Version>>,
    derivations: Vec<(usize, bool, Constraint)>,
    incompats: Vec<Incompatibility>,
    incompat_ixs: Vec<Vec<usize>>,
    retriever: Retriever,
}

impl Resolver {
    pub closed spec fn n(&self) -> nat {
        self.retriever.count()
    }

    pub closed spec fn incompats_v(&self) -> Seq<IncompatV> {
        incompats_view(self.incompats@)
    }

    pub closed spec fn assignments_v(&self) -> Seq<AssignmentV> {
        assignments_view(self.assignments@)
    }

    pub closed spec fn derivs_v(&self) -> Seq<DerivV> {
        derivs_view(self.derivations@)
    }

    pub closed spec fn decisions_v(&self) -> Seq<Option<VersionV>> {
        decisions_view(self.decisions@)
    }

    /// The root package.
    pub closed spec fn root_pkg_v(&self) -> usize {
        self.retriever.root_pkg()
    }

    /// The version of the root package.
    pub closed spec fn root_ver_v(&self) -> VersionV {
        self.retriever.root_ver()
    }

    /// What the retriever gives for version `v` of package `p`: an incompatibility for each of
    /// its dependencies, whose second term is the package depended on.
    pub closed spec fn dep_incompats_of(&self, p: usize, v: VersionV) -> Result<Seq<IncompatV>, ResolveError> {
        incompats_spec(
            self.retriever.root_pkg(),
            self.retriever.root_ver(),
            self.retriever.root_deps_view(),
            self.retriever.entries_of(p as int),
            p,
            v,
        )
    }

    /// The dependencies of version `v` of package `p`, as the retriever lists them.
    pub closed spec fn deps_of_v(&self, p: usize, v: VersionV) -> Option<Seq<(usize, Seq<RangeV>)>> {
        deps_spec(
            self.retriever.root_pkg(),
            self.retriever.root_ver(),
            self.retriever.root_deps_view(),
            self.retriever.entries_of(p as int),
            p,
            v,
        )
    }

    /// The version at the end of an edge satisfies every constraint that the version at its
    /// start puts on its package.
    pub open spec fn edge_fits(&self, nodes: Seq<(usize, Version)>, e: (usize, usize)) -> bool {
        self.deps_of_v(nodes[e.0 as int].0, nodes[e.0 as int].1@) matches Some(ds) && fits_deps_spec(
            ds,
            nodes[e.1 as int].0,
            nodes[e.1 as int].1@,
        )
    }

    /// Version `v` of package `p` depends on package `q`.
    pub open spec fn depends(&self, p: usize, v: VersionV, q: usize) -> bool {
        self.dep_incompats_of(p, v) matches Ok(ts) && exists|t: int|
            0 <= t < ts.len() && (#[trigger] ts[t]).deps.len() >= 2 && ts[t].deps[1].0 == q
    }

    /// Every dependency of the `i`-th node has an edge from it to a node of the package
    /// depended on.
    pub open spec fn deps_followed(&self, nodes: Seq<(usize, Version)>, edges: Seq<(usize, usize)>, i: int) -> bool {
        self.dep_incompats_of(nodes[i].0, nodes[i].1@) matches Ok(ts) && forall|t: int|
            0 <= t < ts.len() ==> (#[trigger] ts[t]).deps.len() >= 2 && exists|k: int|
                0 <= k < edges.len() && (#[trigger] edges[k]).0 == i && nodes[edges[k].1 as int].0 == ts[t].deps[1].0
    }

    pub closed spec fn step_v(&self) -> u16 {
        self.step
    }

    pub closed spec fn level_v(&self) -> u16 {
        self.level
    }

    /// The positions of the incompatibilities that mention each package.
    pub closed spec fn ixs_v(&self) -> Seq<Seq<usize>> {
        self.incompat_ixs@.map_values(|v: Vec<usize>| v@)
    }

    /// The invariant of the resolver's state.
    pub closed spec fn wf(&self) -> bool {
        let n = self.retriever.count();
        &&& self.decisions@.len() == n
        &&& self.incompat_ixs@.len() == n
        &&& forall|p: int, k: int| 0 <= p < n && 0 <= k < self.incompat_ixs@[p]@.len()
            ==> #[trigger] self.incompat_ixs@[p]@[k] < self.incompats@.len()
        &&& forall|k: int| 0 <= k < self.derivations@.len() ==> (#[trigger] self.derivations@[k]).0 < n
        &&& forall|k: int| 0 <= k < self.assignments@.len() ==> (#[trigger] self.assignments@[k]).pkg < n
            && match assignment_cause(self.assignments@[k]@) {
                Some(c) => c < self.incompats@.len(),
                None => true,
            }
        &&& forall|i: int| 0 <= i < self.incompats@.len() ==> incompat_wf(#[trigger] self.incompats@[i]@, i, n)
        &&& forall|i: int, j: int| 0 <= i <= j < self.assignments@.len()
            ==> (#[trigger] self.assignments@[i]).level <= (#[trigger] self.assignments@[j]).level
        &&& forall|k: int| 0 <= k < self.assignments@.len() ==> (#[trigger] self.assignments@[k]).level <= self.level
    }

    proof fn lemma_levels_ordered(&self)
        requires
            self.wf(),
        ensures
            levels_ordered(self.assignments_v(), self.level_v()),
    {
        assert forall|i: int, j: int| 0 <= i <= j < self.assignments_v().len() implies (#[trigger] self.assignments_v()[i]).level
            <= (#[trigger] self.assignments_v()[j]).level && self.assignments_v()[j].level <= self.level_v() by {
            assert(self.assignments@[i].level <= self.assignments@[j].level);
            assert(self.assignments@[j].level <= self.level);
        }
    }

    /// A resolver at the start: step 1, level 0, nothing assigned or known.
    pub fn new(retriever: Retriever) -> (r: Resolver)
        ensures
            r.wf(),
            r.n() == retriever.count(),
            r.step_v() == 1,
            r.level_v() == 0,
            r.assignments_v().len() == 0,
            r.derivs_v().len() == 0,
            r.incompats_v().len() == 0,
    {
        let n = retriever.count_packages();
        let mut decisions: Vec<Option<Version>> = Vec::new();
        let mut incompat_ixs: Vec<Vec<usize>> = Vec::new();
        let mut i: usize = 0;
        while i < n
            invariant
                i <= n,
                decisions@.len() == i,
                incompat_ixs@.len() == i,
                forall|p: int| 0 <= p < i ==> (#[trigger] incompat_ixs@[p])@.len() == 0,
            decreases n - i,
        {
            decisions.push(None);
            incompat_ixs.push(Vec::new());
            i = i + 1;
        }
        let r = Resolver {
            step: 1,
            level: 0,
            assignments: Vec::new(),
            decisions,
            derivations: Vec::new(),
            incompats: Vec::new(),
            incompat_ixs,
            retriever,
        };
        assert(r.assignments_v() =~= Seq::<AssignmentV>::empty());
        assert(r.derivs_v() =~= Seq::<DerivV>::empty());
        assert(r.incompats_v() =~= Seq::<IncompatV>::empty());
        r
    }

    /// The position of a package's derivation.
    fn deriv_pos(&self, p: usize) -> (r: Option<usize>)
        ensures
            match r {
                Some(k) => deriv_index(self.derivs_v(), p) == k && k < self.derivations@.len(),
                None => deriv_index(self.derivs_v(), p) < 0,
            },
    {
        let ghost d = self.derivs_v();
        let mut k: usize = self.derivations.len();
        assert(d.take(k as int) =~= d);
        while k > 0
            invariant
                k <= self.derivations@.len(),
                d == self.derivs_v(),
                deriv_index(d, p) == deriv_index(d.take(k as int), p),
            decreases k,
        {
            assert(d.take(k as int).last() == d[k - 1]);
            if self.derivations[k - 1].0 == p {
                return Some(k - 1);
            }
            assert(d.take(k as int).drop_last() =~= d.take(k - 1));
            k = k - 1;
        }
        None
    }

    /// Records an assignment in the decisions and derivations.
    fn register(&mut self, a: &Assignment)
        requires
            old(self).wf(),
            a.pkg < old(self).n(),
        ensures
            final(self).wf(),
            final(self).derivs_v() == register_derivs(old(self).derivs_v(), a@),
            final(self).decisions_v() == register_decisions(old(self).decisions_v(), a@),
            final(self).n() == old(self).n(),
            final(self).incompats_v() == old(self).incompats_v(),
            final(self).assignments_v() == old(self).assignments_v(),
            final(self).ixs_v() == old(self).ixs_v(),
            final(self).step_v() == old(self).step_v(),
            final(self).level_v() == old(self).level_v(),
            final(self).retriever == old(self).retriever,
    {
        let ghost d0 = self.derivs_v();
        let k = self.deriv_pos(a.pkg);
        match &a.ty {
            AssignmentType::Decision { version } => {
                let ghost dec0 = self.decisions_v();
                self.decisions.set(a.pkg, Some(version.copy()));
                assert(self.decisions_v() =~= dec0.update(a.pkg as int, Some(version@)));
                let entry = (a.pkg, true, Constraint::from_version(version.copy()));
                match k {
                    None => {
                        self.derivations.push(entry);
                        assert(self.derivs_v() =~= d0.push((a.pkg, true, seq![exact_range(version@)])));
                    },
                    Some(k) => {
                        self.derivations.set(k, entry);
                        assert(self.derivs_v() =~= d0.update(k as int, (a.pkg, true, seq![exact_range(version@)])));
                    },
                }
            },
            AssignmentType::Derivation { constraint, positive, .. } => {
                match k {
                    None => {
                        self.derivations.push((a.pkg, *positive, constraint.copy()));
                        assert(self.derivs_v() =~= d0.push((a.pkg, *positive, constraint@)));
                    },
                    Some(k) => {
                        let merged = self.derivations[k].2.intersection(constraint);
                        let pos = self.derivations[k].1 || *positive;
                        self.derivations.set(k, (a.pkg, pos, merged));
                        assert(self.derivs_v() =~= d0.update(k as int, (a.pkg, d0[k as int].1 || *positive, intersection(d0[k as int].2, constraint@))));
                    },
                }
            },
        }
    }

    /// How a package's derivation relates to a constraint.
    fn relation(&self, p: usize, con: &Constraint) -> (r: Relation)
        ensures
            r == relation_spec(self.derivs_v(), p, con@),
    {
        match self.deriv_pos(p) {
            Some(k) => self.derivations[k].2.relation(con),
            None => Relation::Superset,
        }
    }

    /// Adds an incompatibility and indexes it under its packages; gives its position.
    fn incompatibility(&mut self, pkgs: Vec<(usize, Constraint)>, cause: IncompatibilityCause) -> (r: usize)
        requires
            old(self).wf(),
            incompat_wf(IncompatV { deps: terms_view(pkgs@), cause }, old(self).incompats_v().len() as int, old(self).n()),
        ensures
            final(self).wf(),
            r == old(self).incompats_v().len(),
            final(self).incompats_v() == old(self).incompats_v().push(IncompatV { deps: terms_view(pkgs@), cause }),
            final(self).ixs_v() == ixs_with(old(self).ixs_v(), terms_view(pkgs@), r, terms_view(pkgs@).len() as int),
            final(self).n() == old(self).n(),
            final(self).derivs_v() == old(self).derivs_v(),
            final(self).decisions_v() == old(self).decisions_v(),
            final(self).assignments_v() == old(self).assignments_v(),
            final(self).step_v() == old(self).step_v(),
            final(self).level_v() == old(self).level_v(),
            final(self).retriever == old(self).retriever,
    {
        let new_ix = self.incompats.len();
        let ghost i0 = self.incompats_v();
        let inc = Incompatibility::new(pkgs, cause);
        self.incompats.push(inc);
        assert(self.incompats_v() =~= i0.push(inc@));
        proof {
            assert forall|i: int| 0 <= i < self.incompats@.len() implies incompat_wf(#[trigger] self.incompats@[i]@, i, self.n()) by {
                if i < new_ix {
                    assert(self.incompats@[i] == old(self).incompats@[i]);
                }
            }
        }
        self.index_incompat(new_ix);
        new_ix
    }

    /// Indexes an incompatibility under each of its packages.
    fn index_incompat(&mut self, icix: usize)
        requires
            old(self).wf(),
            icix < old(self).incompats_v().len(),
        ensures
            final(self).wf(),
            final(self).ixs_v() == ixs_with(
                old(self).ixs_v(),
                old(self).incompats_v()[icix as int].deps,
                icix,
                old(self).incompats_v()[icix as int].deps.len() as int,
            ),
            final(self).incompats_v() == old(self).incompats_v(),
            final(self).n() == old(self).n(),
            final(self).derivs_v() == old(self).derivs_v(),
            final(self).decisions_v() == old(self).decisions_v(),
            final(self).assignments_v() == old(self).assignments_v(),
            final(self).step_v() == old(self).step_v(),
            final(self).level_v() == old(self).level_v(),
            final(self).retriever == old(self).retriever,
    {
        let n = self.decisions.len();
        let mut k: usize = 0;
        let len = self.incompats[icix].deps.len();
        while k < len
            invariant
                self.wf(),
                icix < self.incompats@.len(),
                len == self.incompats@[icix as int].deps@.len(),
                k <= len,
                n == self.n(),
                self.incompats_v() == old(self).incompats_v(),
                self.derivs_v() == old(self).derivs_v(),
                self.decisions_v() == old(self).decisions_v(),
                self.assignments_v() == old(self).assignments_v(),
                self.step_v() == old(self).step_v(),
                self.level_v() == old(self).level_v(),
                self.retriever == old(self).retriever,
                self.ixs_v() == ixs_with(old(self).ixs_v(), old(self).incompats_v()[icix as int].deps, icix, k as int),
            decreases len - k,
        {
            let ghost prev = self.ixs_v();
            let p = self.incompats[icix].deps[k].0;
            assert(terms_view(self.incompats@[icix as int].deps@)[k as int].0 == p);
            assert(incompat_wf(self.incompats@[icix as int]@, icix as int, self.n()));
            let mut v = self.incompat_ixs[p].clone();
            assert(v@ == self.incompat_ixs@[p as int]@);
            v.push(icix);
            self.incompat_ixs.set(p, v);
            proof {
                assert(self.ixs_v() =~= prev.update(p as int, prev[p as int].push(icix)));
            }
            k = k + 1;
        }
    }
    /// Decides a version of a package: a new decision level.
    fn decision(&mut self, pkg: usize, version: Version) -> (r: Result<(), ResolveError>)
        requires
            old(self).wf(),
            pkg < old(self).n(),
        ensures
            final(self).wf(),
            final(self).n() == old(self).n(),
            final(self).incompats_v() == old(self).incompats_v(),
            final(self).ixs_v() == old(self).ixs_v(),
            final(self).retriever == old(self).retriever,
            match r {
                Ok(_) => {
                    let a = AssignmentV {
                        step: old(self).step_v(),
                        level: (old(self).level_v() + 1) as u16,
                        ty: AssignmentTypeV::Decision { version: version@ },
                        pkg,
                    };
                    &&& old(self).level_v() < u16::MAX && old(self).step_v() < u16::MAX
                    &&& final(self).assignments_v() == old(self).assignments_v().push(a)
                    &&& final(self).derivs_v() == register_derivs(old(self).derivs_v(), a)
                    &&& final(self).decisions_v() == register_decisions(old(self).decisions_v(), a)
                    &&& final(self).step_v() == old(self).step_v() + 1
                    &&& final(self).level_v() == old(self).level_v() + 1
                },
                Err(e) => e == ResolveError::TooManySteps && (old(self).level_v() == u16::MAX
                    || old(self).step_v() == u16::MAX) && final(self).assignments_v() == old(self).assignments_v()
                    && final(self).derivs_v() == old(self).derivs_v() && final(self).decisions_v()
                    == old(self).decisions_v() && final(self).step_v() == old(self).step_v()
                    && final(self).level_v() == old(self).level_v(),
            },
    {
        if self.level == u16::MAX || self.step == u16::MAX {
            return Err(ResolveError::TooManySteps);
        }
        self.level = self.level + 1;
        let a = Assignment::new(self.step, self.level, pkg, AssignmentType::Decision { version });
        self.register(&a);
        let ghost a0 = self.assignments_v();
        let ghost av = a@;
        self.assignments.push(a);
        assert(self.assignments_v() =~= a0.push(av));
        self.step = self.step + 1;
        Ok(())
    }

    /// Derives a constraint on a package from an incompatibility.
    fn derivation(&mut self, pkg: usize, c: Constraint, cause: usize, positive: bool) -> (r: Result<(), ResolveError>)
        requires
            old(self).wf(),
            pkg < old(self).n(),
            cause < old(self).incompats_v().len(),
        ensures
            final(self).wf(),
            final(self).n() == old(self).n(),
            final(self).incompats_v() == old(self).incompats_v(),
            final(self).ixs_v() == old(self).ixs_v(),
            final(self).retriever == old(self).retriever,
            final(self).level_v() == old(self).level_v(),
            match r {
                Ok(_) => {
                    let a = AssignmentV {
                        step: old(self).step_v(),
                        level: old(self).level_v(),
                        ty: AssignmentTypeV::Derivation { constraint: c@, cause, positive },
                        pkg,
                    };
                    &&& old(self).step_v() < u16::MAX
                    &&& final(self).assignments_v() == old(self).assignments_v().push(a)
                    &&& final(self).derivs_v() == register_derivs(old(self).derivs_v(), a)
                    &&& final(self).decisions_v() == register_decisions(old(self).decisions_v(), a)
                    &&& final(self).step_v() == old(self).step_v() + 1
                },
                Err(e) => e == ResolveError::TooManySteps && old(self).step_v() == u16::MAX
                    && final(self).assignments_v() == old(self).assignments_v() && final(self).derivs_v()
                    == old(self).derivs_v() && final(self).decisions_v() == old(self).decisions_v()
                    && final(self).step_v() == old(self).step_v(),
            },
    {
        if self.step == u16::MAX {
            return Err(ResolveError::TooManySteps);
        }
        let a = Assignment::new(self.step, self.level, pkg, AssignmentType::Derivation { constraint: c, cause, positive });
        self.register(&a);
        let ghost a0 = self.assignments_v();
        let ghost av = a@;
        self.assignments.push(a);
        assert(self.assignments_v() =~= a0.push(av));
        self.step = self.step + 1;
        Ok(())
    }

    /// The first assignment at which the package's accumulated term falls within `con`.
    fn satisfier(&self, pkg: usize, con: &Constraint) -> (r: Option<usize>)
        ensures
            match r {
                Some(i) => satisfier_from(self.assignments_v(), pkg, con@, 0) == Some(i as int)
                    && i < self.assignments@.len(),
                None => satisfier_from(self.assignments_v(), pkg, con@, 0) is None,
            },
    {
        let ghost a = self.assignments_v();
        let mut term = Constraint::any();
        let mut i: usize = 0;
        while i < self.assignments.len()
            invariant
                i <= self.assignments@.len(),
                a == self.assignments_v(),
                term@ == assigned_term(a, pkg, i as int),
                satisfier_from(a, pkg, con@, 0) == satisfier_from(a, pkg, con@, i as int),
            decreases self.assignments@.len() - i,
        {
            let asg = &self.assignments[i];
            assert(a[i as int] == asg@);
            if asg.pkg == pkg {
                term = term.intersection(&asg.constraint());
                let rel = term.relation(con);
                if rel == Relation::Subset || rel == Relation::Equal {
                    return Some(i);
                }
            }
            i = i + 1;
        }
        None
    }

    /// Whether an incompatibility says that resolution has failed: it has no terms, or only
    /// one, on the root package.
    fn is_failure(&self, inc: &Incompatibility) -> (r: bool)
        ensures
            r == (inc@.deps.len() == 0 || (inc@.deps.len() == 1 && inc@.deps[0].0 == self.retriever.root_pkg())),
    {
        inc.deps.len() == 0 || (inc.deps.len() == 1 && inc.deps[0].0 == self.retriever.root())
    }
    /// Goes back to a decision level: the assignments after the last one at that level or
    /// below are taken away, and the decisions and derivations of their packages are made again
    /// from the assignments that stay.
    fn backtrack(&mut self, prev: u16) -> (r: Result<(), ResolveError>)
        requires
            old(self).wf(),
        ensures
            final(self).wf(),
            final(self).n() == old(self).n(),
            final(self).incompats_v() == old(self).incompats_v(),
            final(self).ixs_v() == old(self).ixs_v(),
            final(self).retriever == old(self).retriever,
            match r {
                Ok(_) => {
                    let a = old(self).assignments_v();
                    let m = kept_count(a, prev, a.len() as int);
                    let ps = popped_pkgs(a, m);
                    &&& m > 0
                    &&& final(self).level_v() == prev
                    &&& final(self).assignments_v() == a.take(m)
                    &&& final(self).step_v() == old(self).step_v() - (a.len() - m)
                    &&& final(self).derivs_v() == reregister(remove_keys(old(self).derivs_v(), ps), a.take(m), ps)
                    &&& final(self).decisions_v() == redecide(clear_decisions(old(self).decisions_v(), ps), a.take(m), ps)
                },
                Err(e) => e == ResolveError::Inconsistent && backtrack_blocked(
                    old(self).assignments_v(),
                    old(self).step_v(),
                    prev,
                ),
            },
    {
        let ghost a = self.assignments_v();
        let ghost len = a.len();
        let ghost step0 = self.step;
        let mut packages: Vec<usize> = Vec::new();
        assert(a.take(len as int) =~= a);
        while self.assignments.len() > 0
            invariant
                self.wf(),
                a == old(self).assignments_v(),
                len == a.len(),
                self.assignments@.len() <= len,
                self.assignments_v() == a.take(self.assignments@.len() as int),
                packages@ == popped_pkgs(a, self.assignments@.len() as int),
                self.step as int == step0 - (len - self.assignments@.len()),
                step0 == old(self).step_v(),
                kept_count(a, prev, len as int) == kept_count(a, prev, self.assignments@.len() as int),
                self.n() == old(self).n(),
                self.incompats_v() == old(self).incompats_v(),
                self.ixs_v() == old(self).ixs_v(),
                self.retriever == old(self).retriever,
                self.derivs_v() == old(self).derivs_v(),
                self.decisions_v() == old(self).decisions_v(),
                self.level == old(self).level_v(),
                forall|k: int| 0 <= k < packages@.len() ==> #[trigger] packages@[k] < self.n(),
            ensures
                self.assignments@.len() == 0 || self.assignments@[self.assignments@.len() - 1].level <= prev,
            decreases self.assignments@.len(),
        {
            let j = self.assignments.len();
            let ghost before = self.assignments_v();
            assert(before.last() == a[j - 1]);
            assert(self.assignments@[j - 1].pkg < self.n());
            if self.assignments[j - 1].level > prev {
                if self.step == 0 {
                    proof {
                        assert(a[j - 1].level > prev);
                        assert(kept_count(a, prev, j as int) == kept_count(a, prev, j - 1));
                        lemma_kept_count_bound(a, prev, j - 1);
                    }
                    return Err(ResolveError::Inconsistent);
                }
                let last = self.assignments.pop().unwrap();
                assert(self.assignments_v() =~= a.take(j - 1));
                self.step = self.step - 1;
                if !contains_usize(&packages, last.pkg) {
                    packages.push(last.pkg);
                }
                proof {
                    assert(a[j - 1].pkg == last.pkg);
                    assert(packages@ =~= popped_pkgs(a, j - 1));
                }
            } else {
                break;
            }
        }
        let m = self.assignments.len();
        if m == 0 {
            return Err(ResolveError::Inconsistent);
        }
        assert(kept_count(a, prev, m as int) == m);
        assert forall|k: int| 0 <= k < self.assignments@.len() implies (#[trigger] self.assignments@[k]).level <= prev by {
            assert(self.assignments@[k].level <= self.assignments@[m - 1].level);
        }
        self.level = prev;
        let ghost ps = packages@;
        let ghost d0 = old(self).derivs_v();
        let ghost dec0 = old(self).decisions_v();
        let mut i: usize = 0;
        while i < packages.len()
            invariant
                self.wf(),
                ps == packages@,
                i <= packages@.len(),
                forall|k: int| 0 <= k < packages@.len() ==> #[trigger] packages@[k] < self.n(),
                self.derivs_v() == remove_keys(d0, ps.take(i as int)),
                self.decisions_v() == clear_decisions(dec0, ps.take(i as int)),
                self.assignments_v() == a.take(m as int),
                self.n() == old(self).n(),
                self.incompats_v() == old(self).incompats_v(),
                self.ixs_v() == old(self).ixs_v(),
                self.retriever == old(self).retriever,
                self.level == prev,
                self.step as int == step0 - (len - m),
                dec0.len() == self.n(),
            decreases packages@.len() - i,
        {
            let p = packages[i];
            let ghost dv = self.decisions_v();
            self.decisions.set(p, None);
            proof {
                assert(ps.take(i as int + 1).drop_last() =~= ps.take(i as int));
                assert(self.decisions_v() =~= dv.update(p as int, None));
            }
            proof {
                assert(ps.take(i as int + 1).drop_last() =~= ps.take(i as int));
                assert(ps.take(i as int + 1).last() == p);
            }
            match self.deriv_pos(p) {
                Some(k) => {
                    let ghost dd = self.derivs_v();
                    self.derivations.swap_remove(k);
                    assert(self.derivs_v() =~= dd.update(k as int, dd.last()).drop_last());
                },
                None => {},
            }
            i = i + 1;
        }
        assert(ps.take(ps.len() as int) =~= ps);
        let ghost kept = a.take(m as int);
        let ghost d1 = self.derivs_v();
        let ghost dec1 = self.decisions_v();
        let mut k: usize = 0;
        assert(kept.take(0) =~= Seq::<AssignmentV>::empty());
        while k < m
            invariant
                self.wf(),
                k <= m,
                m == self.assignments@.len(),
                kept == self.assignments_v(),
                kept == a.take(m as int),
                ps == packages@,
                self.derivs_v() == reregister(d1, kept.take(k as int), ps),
                self.decisions_v() == redecide(dec1, kept.take(k as int), ps),
                self.n() == old(self).n(),
                self.incompats_v() == old(self).incompats_v(),
                self.ixs_v() == old(self).ixs_v(),
                self.retriever == old(self).retriever,
                self.level == prev,
                self.step as int == step0 - (len - m),
            decreases m - k,
        {
            let asg = self.assignments[k].copy();
            assert(kept.take(k as int + 1).drop_last() =~= kept.take(k as int));
            assert(kept.take(k as int + 1).last() == asg@);
            if contains_usize(&packages, asg.pkg) {
                self.register(&asg);
                assert(self.assignments@.len() == self.assignments_v().len());
            }
            k = k + 1;
        }
        assert(kept.take(m as int) =~= kept);
        Ok(())
    }
}

/// Whether a vector holds a value.
fn contains_usize(v: &Vec<usize>, x: usize) -> (r: bool)
    ensures
        r == v@.contains(x),
{
    let mut i: usize = 0;
    while i < v.len()
        invariant
            i <= v.len(),
            forall|j: int| 0 <= j < i ==> v@[j] != x,
        decreases v.len() - i,
    {
        if v[i] == x {
            assert(v@[i as int] == x);
            return true;
        }
        i = i + 1;
    }
    false
}

impl Resolver {
    /// Unit propagation on one incompatibility: where all its terms but one hold, the opposite
    /// of that term is derived.
    fn propagate_incompat(&mut self, icix: usize) -> (r: Result<IncompatMatch, ResolveError>)
        requires
            old(self).wf(),
            icix < old(self).incompats_v().len(),
        ensures
            final(self).wf(),
            final(self).n() == old(self).n(),
            final(self).incompats_v() == old(self).incompats_v(),
            final(self).ixs_v() == old(self).ixs_v(),
            final(self).retriever == old(self).retriever,
            final(self).level_v() == old(self).level_v(),
            r matches Ok(IncompatMatch::Almost(p)) ==> exists|j: int|
                0 <= j < old(self).incompats_v()[icix as int].deps.len()
                    && #[trigger] old(self).incompats_v()[icix as int].deps[j].0 == p,
            ({
                let ic = old(self).incompats_v()[icix as int];
                let sc = scan(old(self).derivs_v(), ic.deps, ic.deps.len() as int);
                match r {
                    Ok(IncompatMatch::Contradicted) => sc is Contradicted && final(self).assignments_v()
                        == old(self).assignments_v() && final(self).derivs_v() == old(self).derivs_v(),
                    Ok(IncompatMatch::Satisfied) => sc == ScanV::Unsat(None) && final(self).assignments_v()
                        == old(self).assignments_v() && final(self).derivs_v() == old(self).derivs_v(),
                    Ok(IncompatMatch::Almost(p)) => match sc {
                        ScanV::Unsat(Some(j)) => ic.deps[j].0 == p && difference(seq![any_range()], ic.deps[j].1) is Some
                            && final(self).assignments_v() == old(self).assignments_v().push(AssignmentV {
                                step: old(self).step_v(),
                                level: old(self).level_v(),
                                ty: AssignmentTypeV::Derivation {
                                    constraint: difference(seq![any_range()], ic.deps[j].1).unwrap(),
                                    cause: icix,
                                    positive: term_positive(j, ic.cause),
                                },
                                pkg: p,
                            }),
                        _ => false,
                    },
                    Err(e) => sc matches ScanV::Unsat(Some(j)) && (e == ResolveError::ConstraintFailure
                        || e == ResolveError::TooManySteps),
                }
            }),
    {
        let ghost ic = self.incompats_v()[icix as int];
        let ghost d = self.derivs_v();
        assert(incompat_wf(self.incompats@[icix as int]@, icix as int, self.n()));
        let inc = self.incompats[icix].copy();
        let cause = inc.cause;
        let mut unsatis: Option<usize> = None;
        let mut ix: usize = 0;
        while ix < inc.deps.len()
            invariant
                ix <= inc.deps.len(),
                inc@ == ic,
                d == self.derivs_v(),
                self.wf(),
                icix < self.incompats_v().len(),
                ic == old(self).incompats_v()[icix as int],
                self.n() == old(self).n(),
                self.incompats_v() == old(self).incompats_v(),
                self.ixs_v() == old(self).ixs_v(),
                self.retriever == old(self).retriever,
                self.level_v() == old(self).level_v(),
                self.step_v() == old(self).step_v(),
                self.assignments_v() == old(self).assignments_v(),
                self.derivs_v() == old(self).derivs_v(),
                self.decisions_v() == old(self).decisions_v(),
                scan(d, ic.deps, ix as int) == ScanV::Unsat(match unsatis {
                    Some(u) => Some(u as int),
                    None => None,
                }),
                match unsatis {
                    Some(u) => u < ix,
                    None => true,
                },
            decreases inc.deps.len() - ix,
        {
            let pkg = inc.deps[ix].0;
            let con = &inc.deps[ix].1;
            assert(ic.deps[ix as int] == (pkg, con@));
            let relation = self.relation(pkg, con);
            if relation == Relation::Disjoint || (con.is_empty() && self.deriv_pos(pkg).is_some()) {
                proof {
                    lemma_scan_contradicted(d, ic.deps, ix as int + 1, ic.deps.len() as int);
                }
                return Ok(IncompatMatch::Contradicted);
            } else if relation != Relation::Subset && relation != Relation::Equal {
                if unsatis.is_none() {
                    unsatis = Some(ix);
                } else {
                    proof {
                        lemma_scan_contradicted(d, ic.deps, ix as int + 1, ic.deps.len() as int);
                    }
                    return Ok(IncompatMatch::Contradicted);
                }
            }
            ix = ix + 1;
        }
        match unsatis {
            Some(j) => {
                let pkg = inc.deps[j].0;
                let positive = (j == 1 && cause == IncompatibilityCause::Dependency) || cause == IncompatibilityCause::Root;
                assert(ic.deps[j as int].0 == pkg);
                assert(terms_in(ic.deps, self.n()));
                match inc.deps[j].1.try_complement() {
                    Some(c) => {
                        let ghost cv = c@;
                        match self.derivation(pkg, c, icix, positive) {
                            Ok(_) => {
                                assert(ic.deps[j as int].0 == pkg);
                                Ok(IncompatMatch::Almost(pkg))
                            },
                            Err(e) => Err(e),
                        }
                    },
                    None => Err(ResolveError::ConstraintFailure),
                }
            },
            None => Ok(IncompatMatch::Satisfied),
        }
    }
}

proof fn lemma_scan_contradicted(d: Seq<DerivV>, deps: Seq<(usize, Seq<RangeV>)>, k: int, n: int)
    requires
        0 <= k <= n,
        scan(d, deps, k) is Contradicted,
    ensures
        scan(d, deps, n) is Contradicted,
    decreases n - k,
{
    if k < n {
        lemma_scan_contradicted(d, deps, k, n - 1);
    }
}

impl Resolver {
    /// Conflict resolution: from a violated incompatibility, learns incompatibilities until one
    /// says that resolution fails or one allows backtracking; gives the position of the last.
    fn resolve_conflict(&mut self, inc0: usize) -> (r: Result<usize, ResolveError>)
        requires
            old(self).wf(),
            inc0 < old(self).incompats_v().len(),
        ensures
            final(self).wf(),
            final(self).n() == old(self).n(),
            final(self).retriever == old(self).retriever,
            final(self).incompats_v().len() >= old(self).incompats_v().len(),
            final(self).incompats_v().take(old(self).incompats_v().len() as int) == old(self).incompats_v(),
            forall|k: int| old(self).incompats_v().len() <= k < final(self).incompats_v().len()
                ==> (#[trigger] final(self).incompats_v()[k]).cause is Derived,
            forall|k: int| old(self).incompats_v().len() <= k < final(self).incompats_v().len()
                ==> #[trigger] learned_by_resolution(
                    old(self).assignments_v(),
                    final(self).incompats_v(),
                    old(self).incompats_v().len() as int,
                    inc0 as int,
                    k,
                ),
            ({
                let f = final(self).incompats_v();
                let base = old(self).incompats_v();
                let last = if f.len() > base.len() { f.len() - 1 } else { inc0 as int };
                let a = old(self).assignments_v();
                match r {
                    Ok(i) => i == last && !incompat_failure(f[last], old(self).retriever.root_pkg())
                        && levels_ordered(final(self).assignments_v(), final(self).level_v())
                        && backjumps_to(a, f[last].deps, final(self).level_v())
                        && kept_count(a, final(self).level_v(), a.len() as int) > 0
                        && final(self).assignments_v() == a.take(kept_count(a, final(self).level_v(), a.len() as int))
                        && final(self).ixs_v() == (if f.len() > base.len() {
                            ixs_with(old(self).ixs_v(), f[last].deps, i, f[last].deps.len() as int)
                        } else {
                            old(self).ixs_v()
                        }),
                    Err(ResolveError::NoConflictRes) => incompat_failure(f[last], old(self).retriever.root_pkg())
                        && final(self).assignments_v() == a,
                    Err(ResolveError::TooManySteps) => f.len() - base.len() == u64::MAX,
                    Err(ResolveError::ConstraintFailure) => conflict_stuck(f[last], a),
                    Err(ResolveError::Inconsistent) => conflict_stuck(f[last], a) || exists|l: u16|
                        #[trigger] backtrack_blocked(a, old(self).step_v(), l),
                    Err(_) => false,
                }
            }),
    {
        let ghost base = self.incompats_v();
        let ghost a0 = self.assignments_v();
        let mut inc = inc0;
        let mut new_incompatibility = false;
        let mut fuel: u64 = u64::MAX;
        loop
            invariant
                self.wf(),
                inc < self.incompats_v().len(),
                self.n() == old(self).n(),
                self.retriever == old(self).retriever,
                base == old(self).incompats_v(),
                self.incompats_v().len() >= base.len(),
                self.incompats_v().take(base.len() as int) == base,
                forall|k: int| base.len() <= k < self.incompats_v().len()
                    ==> (#[trigger] self.incompats_v()[k]).cause is Derived,
                a0 == old(self).assignments_v(),
                self.assignments_v() == a0,
                self.step_v() == old(self).step_v(),
                self.ixs_v() == old(self).ixs_v(),
                new_incompatibility ==> inc == self.incompats_v().len() - 1 && self.incompats_v().len() > base.len(),
                !new_incompatibility ==> inc == inc0 && self.incompats_v().len() == base.len(),
                fuel + (self.incompats_v().len() - base.len()) == u64::MAX,
                inc0 < base.len(),
                forall|k: int| base.len() <= k < self.incompats_v().len()
                    ==> #[trigger] learned_by_resolution(a0, self.incompats_v(), base.len() as int, inc0 as int, k),
            decreases fuel,
        {
            assert(self.incompats_v()[inc as int] == self.incompats@[inc as int]@);
            if self.is_failure(&self.incompats[inc]) {
                proof {
                    assert(self.incompats_v()[inc as int] == self.incompats@[inc as int]@);
                }
                return Err(ResolveError::NoConflictRes);
            }
            if fuel == 0 {
                return Err(ResolveError::TooManySteps);
            }
            fuel = fuel - 1;
            let i = self.incompats[inc].copy();
            assert(incompat_wf(self.incompats@[inc as int]@, inc as int, self.n()));
            let mut most_recent_term: Option<usize> = None;
            let mut most_recent_satisfier: Option<usize> = None;
            let mut difference: Option<(usize, Constraint)> = None;
            let mut previous_satisfier_level: u16 = 1;
            let mut k: usize = 0;
            while k < i.deps.len()
                invariant
                    k <= i.deps.len(),
                    self.wf(),
                    i@ == self.incompats@[inc as int]@,
                    inc < self.incompats@.len(),
                    incompat_wf(i@, inc as int, self.n()),
                    match most_recent_term {
                        Some(t) => t < k,
                        None => k == 0,
                    },
                    i@ == self.incompats_v()[inc as int],
                    self.assignments_v() == a0,
                    a0 == old(self).assignments_v(),
                    new_incompatibility ==> inc == self.incompats_v().len() - 1 && self.incompats_v().len() > base.len(),
                    !new_incompatibility ==> inc == inc0 && self.incompats_v().len() == base.len(),
                    match difference {
                        Some((_, d)) => crate::constraint::difference(seq![any_range()], d@) is Some,
                        None => true,
                    },
                    match most_recent_satisfier {
                        Some(a) => a < self.assignments@.len(),
                        None => k == 0,
                    },
                    most_recent_term is Some <==> most_recent_satisfier is Some,
                    match difference {
                        Some((p, _)) => p < self.n(),
                        None => true,
                    },
                    self.n() == old(self).n(),
                    self.retriever == old(self).retriever,
                    base == old(self).incompats_v(),
                    self.incompats_v().len() >= base.len(),
                    self.incompats_v().take(base.len() as int) == base,
                    forall|q: int| base.len() <= q < self.incompats_v().len()
                        ==> (#[trigger] self.incompats_v()[q]).cause is Derived,
                    inc0 < base.len(),
                    forall|q: int| base.len() <= q < self.incompats_v().len()
                        ==> #[trigger] learned_by_resolution(a0, self.incompats_v(), base.len() as int, inc0 as int, q),
                    conflict_scan(a0, i@.deps, k as int) == Some(ConflictScan {
                        term: opt_index(most_recent_term),
                        satisfier: opt_index(most_recent_satisfier),
                        diff: opt_term(difference),
                        prev_level: previous_satisfier_level,
                    }),
                decreases i.deps.len() - k,
            {
                let pkg = i.deps[k].0;
                let c = &i.deps[k].1;
                proof {
                    assert(i@.deps[k as int] == (pkg, c@));
                }
                let satisfier = match self.satisfier(pkg, c) {
                    Some(x) => x,
                    None => {
                        proof {
                            assert(term_stuck(a0, i@.deps[k as int]));
                        }
                        return Err(ResolveError::Inconsistent);
                    },
                };
                match most_recent_satisfier {
                    Some(a) => {
                        if self.assignments[a].step < self.assignments[satisfier].step {
                            previous_satisfier_level = max_u16(previous_satisfier_level, self.assignments[a].level);
                            most_recent_term = Some(k);
                            most_recent_satisfier = Some(satisfier);
                            difference = None;
                        } else {
                            previous_satisfier_level = max_u16(previous_satisfier_level, self.assignments[satisfier].level);
                        }
                    },
                    None => {
                        most_recent_term = Some(k);
                        most_recent_satisfier = Some(satisfier);
                    },
                }
                if most_recent_term == Some(k) {
                    let mrs = match most_recent_satisfier {
                        Some(x) => x,
                        None => {
                            return Err(ResolveError::Inconsistent);
                        },
                    };
                    assert(mrs == satisfier);
                    assert(self.assignments_v()[mrs as int] == self.assignments@[mrs as int]@);
                    let diff = match self.assignments[mrs].constraint().try_difference(c) {
                        Some(d) => d,
                        None => {
                            proof {
                                assert(term_stuck(a0, i@.deps[k as int]));
                            }
                            return Err(ResolveError::ConstraintFailure);
                        },
                    };
                    assert(terms_in(i@.deps, self.n()));
                    assert(i@.deps[k as int].0 == pkg);
                    if diff.is_empty() {
                        difference = None;
                    } else {
                        let comp = match diff.try_complement() {
                            Some(x) => x,
                            None => {
                                proof {
                                    assert(term_stuck(a0, i@.deps[k as int]));
                                }
                                return Err(ResolveError::ConstraintFailure);
                            },
                        };
                        match self.satisfier(pkg, &comp) {
                            Some(s2) => {
                                previous_satisfier_level = max_u16(previous_satisfier_level, self.assignments[s2].level);
                            },
                            None => {
                                proof {
                                    assert(term_stuck(a0, i@.deps[k as int]));
                                }
                                return Err(ResolveError::Inconsistent);
                            },
                        }
                        difference = Some((pkg, diff));
                    }
                }
                k = k + 1;
            }
            let (mrt, mrs) = match (most_recent_term, most_recent_satisfier) {
                (Some(t), Some(a)) => (t, a),
                _ => {
                    return Err(ResolveError::Inconsistent);
                },
            };
            let sat_level = self.assignments[mrs].level;
            let sat_pkg = self.assignments[mrs].pkg;
            let sat_cause = self.assignments[mrs].cause();
            assert(self.assignments@[mrs as int]@.pkg == self.assignments@[mrs as int].pkg);
            assert(a0[mrs as int].level == sat_level);
            assert(assignment_cause(a0[mrs as int]) == sat_cause);
            if previous_satisfier_level < sat_level || sat_cause.is_none() {
                match self.backtrack(previous_satisfier_level) {
                    Ok(_) => {},
                    Err(e) => {
                        proof {
                            assert(backtrack_blocked(a0, old(self).step_v(), previous_satisfier_level));
                        }
                        return Err(e);
                    },
                }
                if new_incompatibility {
                    self.index_incompat(inc);
                }
                proof {
                    self.lemma_levels_ordered();
                }
                return Ok(inc);
            }
            let cause_ix = match sat_cause {
                Some(c) => c,
                None => {
                    return Err(ResolveError::Inconsistent);
                },
            };
            assert(cause_ix < self.incompats@.len());
            assert(incompat_wf(self.incompats@[cause_ix as int]@, cause_ix as int, self.n()));
            let cause = self.incompats[cause_ix].copy();
            let mut new_terms: Vec<(usize, Constraint)> = Vec::new();
            let mut t: usize = 0;
            while t < i.deps.len()
                invariant
                    t <= i.deps.len(),
                    terms_in(i@.deps, self.n()),
                    terms_in(terms_view(new_terms@), self.n()),
                    terms_distinct(terms_view(new_terms@)),
                    terms_view(new_terms@) == put_terms_but_at(seq![], i@.deps, mrt as int, t as int),
                decreases i.deps.len() - t,
            {
                if t != mrt {
                    assert(i@.deps[t as int] == (i.deps@[t as int].0, i.deps@[t as int].1@));
                    map_insert(&mut new_terms, i.deps[t].0, i.deps[t].1.copy());
                }
                t = t + 1;
            }
            let ghost t1 = terms_view(new_terms@);
            let mut t: usize = 0;
            while t < cause.deps.len()
                invariant
                    t <= cause.deps.len(),
                    terms_in(cause@.deps, self.n()),
                    terms_in(terms_view(new_terms@), self.n()),
                    terms_distinct(terms_view(new_terms@)),
                    terms_view(new_terms@) == put_terms_but_of(t1, cause@.deps, sat_pkg, t as int),
                decreases cause.deps.len() - t,
            {
                if cause.deps[t].0 != sat_pkg {
                    assert(cause@.deps[t as int] == (cause.deps@[t as int].0, cause.deps@[t as int].1@));
                    map_insert(&mut new_terms, cause.deps[t].0, cause.deps[t].1.copy());
                }
                t = t + 1;
            }
            match difference {
                Some((p, diff)) => {
                    match diff.try_complement() {
                        Some(c) => {
                            map_insert(&mut new_terms, p, c);
                        },
                        None => {
                            return Err(ResolveError::ConstraintFailure);
                        },
                    }
                },
                None => {},
            }
            let ghost nt = terms_view(new_terms@);
            let ghost prev_inc = inc;
            let new_i = Incompatibility::new(new_terms, IncompatibilityCause::Derived(inc, cause_ix));
            let ghost before = self.incompats_v();
            inc = self.incompats.len();
            self.incompats.push(new_i);
            proof {
                assert(self.incompats_v() =~= before.push(new_i@));
                let f = self.incompats_v();
                assert(i@ == before[prev_inc as int]);
                assert(cause@ == before[cause_ix as int]);
                assert(new_i@.deps == nt);
                assert(resolvent(i@.deps, mrt as int, cause@.deps, sat_pkg, opt_term(difference)) == Some(nt));
                assert(learned_by_resolution(a0, f, base.len() as int, inc0 as int, inc as int));
                assert forall|k: int| base.len() <= k < f.len() implies #[trigger] learned_by_resolution(
                    a0,
                    f,
                    base.len() as int,
                    inc0 as int,
                    k,
                ) by {
                    if k < before.len() {
                        assert(learned_by_resolution(a0, before, base.len() as int, inc0 as int, k));
                        let prev = if k == base.len() { inc0 as int } else { k - 1 };
                        assert(f[prev] == before[prev]);
                        assert(f[k] == before[k]);
                        let st = conflict_scan(a0, before[prev].deps, before[prev].deps.len() as int).unwrap();
                        let c = assignment_cause(a0[st.satisfier.unwrap()]).unwrap();
                        assert(f[c as int] == before[c as int]);
                    }
                }
                assert(self.incompats_v().take(base.len() as int) =~= before.take(base.len() as int));
                assert forall|q: int| 0 <= q < self.incompats@.len() implies incompat_wf(#[trigger] self.incompats@[q]@, q, self.n()) by {
                    if q < inc {
                        assert(self.incompats@[q]@ == before[q]);
                    }
                }
            }
            new_incompatibility = true;
        }
    }
}

fn max_u16(a: u16, b: u16) -> (r: u16)
    ensures
        r == if a >= b { a } else { b },
{
    if a >= b { a } else { b }
}

/// Inserts a term into a map of terms: a package already there gets the new constraint in
/// its place; another is appended.
fn map_insert(terms: &mut Vec<(usize, Constraint)>, k: usize, v: Constraint)
    ensures
        terms_view(final(terms)@) == map_insert_spec(terms_view(old(terms)@), k, v@),
        terms_distinct(terms_view(old(terms)@)) ==> terms_distinct(terms_view(final(terms)@)),
        forall|n: nat| terms_in(terms_view(old(terms)@), n) && k < n ==> terms_in(terms_view(final(terms)@), n),
{
    let ghost t0 = terms_view(terms@);
    let mut i: usize = 0;
    while i < terms.len()
        invariant
            i <= terms.len(),
            t0 == terms_view(terms@),
            terms@ == old(terms)@,
            forall|j: int| 0 <= j < i ==> t0[j].0 != k,
        decreases terms.len() - i,
    {
        if terms[i].0 == k {
            terms.set(i, (k, v));
            proof {
                assert(forall|j: int| 0 <= j < i ==> t0[j].0 != k);
                lemma_first_key(t0, k, i as int);
                assert(terms_view(terms@) =~= t0.update(i as int, (k, v@)));
            }
            return;
        }
        i = i + 1;
    }
    let ghost vv = v@;
    terms.push((k, v));
    proof {
        lemma_no_key(t0, k);
        assert(terms_view(terms@) =~= t0.push((k, vv)));
    }
}

/// The position of the first term of a package, or -1.
pub open spec fn first_key(d: Seq<(usize, Seq<RangeV>)>, k: usize, i: int) -> int
    decreases d.len() - i,
{
    if i < 0 || i >= d.len() {
        -1
    } else if d[i].0 == k {
        i
    } else {
        first_key(d, k, i + 1)
    }
}

/// A map of terms with one term put in: in place of the package's term, or at the end.
pub open spec fn map_insert_spec(d: Seq<(usize, Seq<RangeV>)>, k: usize, v: Seq<RangeV>) -> Seq<(usize, Seq<RangeV>)> {
    let i = first_key(d, k, 0);
    if i < 0 {
        d.push((k, v))
    } else {
        d.update(i, (k, v))
    }
}

proof fn lemma_first_key(d: Seq<(usize, Seq<RangeV>)>, k: usize, i: int)
    requires
        0 <= i < d.len(),
        d[i].0 == k,
        forall|j: int| 0 <= j < i ==> d[j].0 != k,
    ensures
        first_key(d, k, 0) == i,
{
    lemma_first_key_from(d, k, 0, i);
}

proof fn lemma_first_key_from(d: Seq<(usize, Seq<RangeV>)>, k: usize, j: int, i: int)
    requires
        0 <= j <= i < d.len(),
        d[i].0 == k,
        forall|m: int| j <= m < i ==> d[m].0 != k,
    ensures
        first_key(d, k, j) == i,
    decreases i - j,
{
    if j < i {
        lemma_first_key_from(d, k, j + 1, i);
    }
}

proof fn lemma_no_key(d: Seq<(usize, Seq<RangeV>)>, k: usize)
    requires
        forall|j: int| 0 <= j < d.len() ==> d[j].0 != k,
    ensures
        first_key(d, k, 0) == -1,
{
    lemma_no_key_from(d, k, 0);
}

proof fn lemma_no_key_from(d: Seq<(usize, Seq<RangeV>)>, k: usize, j: int)
    requires
        0 <= j,
        forall|m: int| j <= m < d.len() ==> d[m].0 != k,
    ensures
        first_key(d, k, j) == -1,
    decreases d.len() - j,
{
    if j < d.len() {
        lemma_no_key_from(d, k, j + 1);
    }
}

impl Resolver {
    /// Unit propagation from a package: every incompatibility that mentions a changed package
    /// is looked at, latest first; a violated one starts conflict resolution.
    fn propagate(&mut self, pkg: usize) -> (r: Result<(), ResolveError>)
        requires
            old(self).wf(),
            pkg < old(self).n(),
        ensures
            final(self).wf(),
            final(self).n() == old(self).n(),
            final(self).retriever == old(self).retriever,
            final(self).incompats_v().len() >= old(self).incompats_v().len(),
            final(self).incompats_v().take(old(self).incompats_v().len() as int) == old(self).incompats_v(),
            r == Err::<(), ResolveError>(ResolveError::NoConflictRes) ==> has_failure(
                final(self).incompats_v(),
                final(self).retriever.root_pkg(),
            ),
    {
        let ghost base = self.incompats_v();
        let mut changed: Vec<usize> = Vec::new();
        changed.push(pkg);
        let mut fuel: u64 = u64::MAX;
        while changed.len() > 0
            invariant
                self.wf(),
                self.n() == old(self).n(),
                self.retriever == old(self).retriever,
                base == old(self).incompats_v(),
                self.incompats_v().len() >= base.len(),
                self.incompats_v().take(base.len() as int) == base,
                forall|k: int| 0 <= k < changed@.len() ==> #[trigger] changed@[k] < self.n(),
            decreases fuel,
        {
            if fuel == 0 {
                return Err(ResolveError::TooManySteps);
            }
            fuel = fuel - 1;
            let package = changed.pop().unwrap();
            assert(self.ixs_v()[package as int] == self.incompat_ixs@[package as int]@);
            let icixs = self.incompat_ixs[package].clone();
            assert(icixs@ == self.incompat_ixs@[package as int]@);
            let mut j: usize = icixs.len();
            while j > 0
                invariant
                    j <= icixs@.len(),
                    self.wf(),
                    self.n() == old(self).n(),
                    self.retriever == old(self).retriever,
                    base == old(self).incompats_v(),
                    self.incompats_v().len() >= base.len(),
                    self.incompats_v().take(base.len() as int) == base,
                    forall|k: int| 0 <= k < icixs@.len() ==> #[trigger] icixs@[k] < self.incompats@.len(),
                    forall|k: int| 0 <= k < changed@.len() ==> #[trigger] changed@[k] < self.n(),
                decreases j,
            {
                let icix = icixs[j - 1];
                let ghost ic = self.incompats_v()[icix as int];
                assert(incompat_wf(self.incompats@[icix as int]@, icix as int, self.n()));
                let res = match self.propagate_incompat(icix) {
                    Ok(x) => x,
                    Err(e) => {
                        return Err(e);
                    },
                };
                match res {
                    IncompatMatch::Almost(name) => {
                        proof {
                            lemma_almost_in_range(self.n(), ic, name);
                        }
                        insert_usize(&mut changed, name);
                    },
                    IncompatMatch::Satisfied => {
                        let ghost mid = self.incompats_v();
                        let root = match self.resolve_conflict(icix) {
                            Ok(x) => x,
                            Err(e) => {
                                proof {
                                    assert(self.incompats_v().take(base.len() as int) =~= mid.take(base.len() as int));
                                    if e == ResolveError::NoConflictRes {
                                        let f = self.incompats_v();
                                        let last = if f.len() > mid.len() { f.len() - 1 } else { icix as int };
                                        assert(incompat_failure(f[last], self.retriever.root_pkg()));
                                    }
                                }
                                return Err(e);
                            },
                        };
                        proof {
                            assert(self.incompats_v().take(base.len() as int) =~= mid.take(base.len() as int));
                        }
                        changed.clear();
                        let ghost ric = self.incompats_v()[root as int];
                        assert(incompat_wf(self.incompats@[root as int]@, root as int, self.n()));
                        match self.propagate_incompat(root) {
                            Ok(IncompatMatch::Almost(name)) => {
                                proof {
                                    lemma_almost_in_range(self.n(), ric, name);
                                }
                                insert_usize(&mut changed, name);
                            },
                            Ok(_) => {
                                return Err(ResolveError::Inconsistent);
                            },
                            Err(e) => {
                                return Err(e);
                            },
                        }
                        break;
                    },
                    IncompatMatch::Contradicted => {},
                }
                j = j - 1;
            }
        }
        Ok(())
    }
}

/// The package of an `Almost` is one of the incompatibility's terms.
proof fn lemma_almost_in_range(n: nat, ic: IncompatV, p: usize)
    requires
        terms_in(ic.deps, n),
        exists|j: int| 0 <= j < ic.deps.len() && ic.deps[j].0 == p,
    ensures
        p < n,
{
    let j = choose|j: int| 0 <= j < ic.deps.len() && ic.deps[j].0 == p;
    assert(ic.deps[j].0 < n);
}

/// Puts a value into an ordered set: appended unless it is there.
fn insert_usize(v: &mut Vec<usize>, x: usize)
    ensures
        final(v)@ == if old(v)@.contains(x) { old(v)@ } else { old(v)@.push(x) },
{
    if !contains_usize(v, x) {
        v.push(x);
    }
}

/// How many versions of a package the retriever counts.
pub open spec fn version_count(r: Retriever, p: int) -> nat {
    if r.loaded_of(p) {
        match r.entries_of(p) {
            Some(es) => es.len(),
            None => 0,
        }
    } else {
        0
    }
}

/// Whether a derivation asks for a package that is not decided yet.
pub open spec fn unsatisfied(d: DerivV, dec: Seq<Option<VersionV>>) -> bool {
    d.1 && dec[d.0 as int] is None
}

/// The next package to decide among the first `k` derivations: one with the fewest versions
/// known, the latest of those.
pub open spec fn chosen_from(d: Seq<DerivV>, dec: Seq<Option<VersionV>>, r: Retriever, k: int) -> Option<int>
    decreases k,
{
    if k <= 0 {
        None
    } else {
        let prev = chosen_from(d, dec, r, k - 1);
        if unsatisfied(d[k - 1], dec) && (prev is None || version_count(r, d[k - 1].0 as int)
            <= version_count(r, d[prev.unwrap()].0 as int)) {
            Some(k - 1)
        } else {
            prev
        }
    }
}

proof fn lemma_chosen_range(d: Seq<DerivV>, dec: Seq<Option<VersionV>>, r: Retriever, k: int)
    requires
        0 <= k <= d.len(),
    ensures
        chosen_from(d, dec, r, k) matches Some(i) ==> 0 <= i < k && unsatisfied(d[i], dec),
        chosen_from(d, dec, r, k) is None <==> forall|i: int| 0 <= i < k ==> !unsatisfied(#[trigger] d[i], dec),
    decreases k,
{
    if k > 0 {
        lemma_chosen_range(d, dec, r, k - 1);
    }
}

proof fn lemma_root_incompats_wf(p: usize, v: VersionV, deps: Seq<(usize, Seq<RangeV>)>, n: nat)
    requires
        p < n,
        deps_in_range(deps, n as int),
        root_incompats(p, v, deps) is Ok,
    ensures
        forall|k: int| 0 <= k < root_incompats(p, v, deps).unwrap().len() ==> incompat_wf(
            #[trigger] root_incompats(p, v, deps).unwrap()[k],
            0,
            n,
        ),
    decreases deps.len(),
{
    if deps.len() > 0 {
        assert(deps_in_range(deps.drop_last(), n as int)) by {
            assert forall|k: int| 0 <= k < deps.drop_last().len() implies (#[trigger] deps.drop_last()[k]).0 < n by {
                assert(deps.drop_last()[k] == deps[k]);
            }
        }
        lemma_root_incompats_wf(p, v, deps.drop_last(), n);
        assert(deps[deps.len() - 1].0 < n);
    }
}

proof fn lemma_dep_incompats_wf(p: usize, es: Seq<EntryV>, ix: int, m: int, n: nat)
    requires
        p < n,
        0 <= ix < es.len(),
        0 <= m <= es[ix].deps.len(),
        deps_in_range(es[ix].deps, n as int),
        dep_incompats_upto(p, es, ix, m) is Ok,
    ensures
        forall|k: int| 0 <= k < dep_incompats_upto(p, es, ix, m).unwrap().len() ==> incompat_wf(
            #[trigger] dep_incompats_upto(p, es, ix, m).unwrap()[k],
            0,
            n,
        ),
    decreases m,
{
    if m > 0 {
        lemma_dep_incompats_wf(p, es, ix, m - 1, n);
        assert(es[ix].deps[m - 1].0 < n);
    }
}

impl Resolver {
    /// Decision making: the undecided package with a positive derivation and the fewest known
    /// versions gets its best version, whose dependencies become incompatibilities; it is
    /// decided unless one of them is violated at once. `None` where every package asked for is
    /// decided.
    fn choose_pkg_version(&mut self) -> (r: Result<Option<usize>, ResolveError>)
        requires
            old(self).wf(),
        ensures
            final(self).wf(),
            final(self).n() == old(self).n(),
            final(self).incompats_v().len() >= old(self).incompats_v().len(),
            final(self).incompats_v().take(old(self).incompats_v().len() as int) == old(self).incompats_v(),
            final(self).retriever.root_pkg() == old(self).retriever.root_pkg(),
            final(self).retriever.root_ver() == old(self).retriever.root_ver(),
            final(self).retriever.root_deps_view() == old(self).retriever.root_deps_view(),
            forall|q: int| 0 <= q < final(self).n() ==> #[trigger] final(self).retriever.entries_of(q)
                == old(self).retriever.entries_of(q),
            r matches Ok(Some(p)) ==> p < final(self).n(),
            match r {
                Ok(None) => chosen_from(old(self).derivs_v(), old(self).decisions_v(), old(self).retriever,
                    old(self).derivs_v().len() as int) is None && final(self).assignments_v()
                    == old(self).assignments_v() && final(self).incompats_v() == old(self).incompats_v()
                    && final(self).level_v() == old(self).level_v() && final(self).step_v() == old(self).step_v(),
                Ok(Some(p)) => chosen_from(old(self).derivs_v(), old(self).decisions_v(), old(self).retriever,
                    old(self).derivs_v().len() as int) matches Some(i) && old(self).derivs_v()[i].0 == p
                    && match best_spec(
                    old(self).retriever.locked_of(p as int),
                    old(self).retriever.entries_of(p as int),
                    old(self).derivs_v()[i].2,
                    false,
                ) {
                    Err(_) => final(self).incompats_v() == old(self).incompats_v().push(IncompatV {
                        deps: seq![(p, old(self).derivs_v()[i].2)],
                        cause: IncompatibilityCause::Unavailable,
                    }) && final(self).assignments_v() == old(self).assignments_v(),
                    Ok(bv) => incompats_spec(
                        old(self).retriever.root_pkg(),
                        old(self).retriever.root_ver(),
                        old(self).retriever.root_deps_view(),
                        old(self).retriever.entries_of(p as int),
                        p,
                        bv,
                    ) matches Ok(iv) && final(self).incompats_v() == old(self).incompats_v() + iv && (
                    final(self).assignments_v() == old(self).assignments_v() || final(self).assignments_v()
                        == old(self).assignments_v().push(AssignmentV {
                        step: old(self).step_v(),
                        level: (old(self).level_v() + 1) as u16,
                        ty: AssignmentTypeV::Decision { version: bv },
                        pkg: p,
                    })),
                },
                Err(e) => chosen_from(old(self).derivs_v(), old(self).decisions_v(), old(self).retriever,
                    old(self).derivs_v().len() as int) matches Some(i) && best_spec(
                    old(self).retriever.locked_of(old(self).derivs_v()[i].0 as int),
                    old(self).retriever.entries_of(old(self).derivs_v()[i].0 as int),
                    old(self).derivs_v()[i].2,
                    false,
                ) matches Ok(bv) && (incompats_spec(
                    old(self).retriever.root_pkg(),
                    old(self).retriever.root_ver(),
                    old(self).retriever.root_deps_view(),
                    old(self).retriever.entries_of(old(self).derivs_v()[i].0 as int),
                    old(self).derivs_v()[i].0,
                    bv,
                ) == Err::<Seq<IncompatV>, ResolveError>(e) || (e == ResolveError::TooManySteps && (
                    old(self).level_v() == u16::MAX || old(self).step_v() == u16::MAX))),
            },
            chosen_from(old(self).derivs_v(), old(self).decisions_v(), old(self).retriever,
                old(self).derivs_v().len() as int) is None ==> r == Ok::<Option<usize>, ResolveError>(None),
    {
        let ghost d = self.derivs_v();
        let ghost dec = self.decisions_v();
        let mut best_k: Option<usize> = None;
        let mut best_count: usize = 0;
        let mut k: usize = 0;
        while k < self.derivations.len()
            invariant
                k <= self.derivations@.len(),
                self.wf(),
                d == self.derivs_v(),
                dec == self.decisions_v(),
                chosen_from(d, dec, self.retriever, k as int) == match best_k {
                    Some(b) => Some(b as int),
                    None => None,
                },
                match best_k {
                    Some(b) => b < k && best_count == version_count(self.retriever, d[b as int].0 as int),
                    None => true,
                },
            decreases self.derivations@.len() - k,
        {
            let p = self.derivations[k].0;
            assert(d[k as int] == (p, self.derivations@[k as int].1, self.derivations@[k as int].2@));
            assert(self.decisions_v()[p as int] == match self.decisions@[p as int] {
                Some(v) => Some(v@),
                None => None,
            });
            if self.derivations[k].1 && self.decisions[p].is_none() {
                let c = self.retriever.count_versions(p);
                if best_k.is_none() || c <= best_count {
                    best_k = Some(k);
                    best_count = c;
                }
            }
            k = k + 1;
        }
        let k = match best_k {
            Some(k) => k,
            None => {
                return Ok(None);
            },
        };
        let pkg = self.derivations[k].0;
        let con = self.derivations[k].2.copy();
        let res = Some(pkg);
        proof {
            lemma_chosen_range(d, dec, self.retriever, d.len() as int);
            assert(d[k as int] == (pkg, self.derivations@[k as int].1, self.derivations@[k as int].2@));
        }
        let ghost r0 = self.retriever;
        match self.retriever.best(pkg, &con, false) {
            Ok(best) => {
                self.retriever.facts();
                let ghost r1 = self.retriever;
                let incompats = match self.retriever.incompats(pkg, &best) {
                    Ok(x) => x,
                    Err(e) => {
                        proof {
                            assert(best_spec(r0.locked_of(pkg as int), r0.entries_of(pkg as int), con@, false)
                                == Ok::<VersionV, ResolveError>(best@));
                            assert(r1.entries_of(pkg as int) == r0.entries_of(pkg as int));
                        }
                        return Err(e);
                    },
                };
                proof {
                    let n = self.n();
                    let sp = incompats_spec(r1.root_pkg(), r1.root_ver(), r1.root_deps_view(), r1.entries_of(pkg as int), pkg, best@);
                    assert(sp == Ok::<Seq<IncompatV>, ResolveError>(incompats_view(incompats@)));
                    if pkg == r1.root_pkg() && crate::version::ver_eq(best@, r1.root_ver()) {
                        lemma_root_incompats_wf(pkg, best@, r1.root_deps_view(), n);
                        assert(incompats_view(incompats@) == root_incompats(pkg, best@, r1.root_deps_view()).unwrap());
                    } else {
                        let es = r1.entries_of(pkg as int).unwrap();
                        let ix = find_version(es, best@);
                        crate::retriever::lemma_find_version(es, best@, 0);
                        assert(0 <= ix < es.len());
                        assert(deps_in_range(es[ix].deps, n as int));
                        lemma_dep_incompats_wf(pkg, es, ix, es[ix].deps.len() as int, n);
                        assert(incompats_view(incompats@) == dep_incompats(pkg, es, ix).unwrap());
                    }
                    assert(forall|q: int| 0 <= q < incompats_view(incompats@).len() ==> incompat_wf(#[trigger] incompats_view(incompats@)[q], 0, n));
                }
                let ghost iv = incompats_view(incompats@);
                let ghost bv0 = best@;
                let ghost base = self.incompats_v();
                let mut conflict = false;
                let mut incompats = incompats;
                let mut rest: Vec<Incompatibility> = Vec::new();
                while incompats.len() > 0
                    invariant
                        incompats_view(incompats@) + incompats_view(rest@).reverse() == iv,
                    decreases incompats.len(),
                {
                    let ghost a = incompats_view(incompats@);
                    let ghost b = incompats_view(rest@);
                    let it = incompats.pop().unwrap();
                    let ghost x = it@;
                    rest.push(it);
                    assert(incompats_view(incompats@) =~= a.drop_last());
                    assert(incompats_view(rest@) =~= b.push(x));
                    assert(a =~= a.drop_last().push(x));
                    assert((b.push(x)).reverse() =~= seq![x] + b.reverse());
                    assert(a.drop_last() + (seq![x] + b.reverse()) =~= a.drop_last().push(x) + b.reverse());
                }
                assert(incompats_view(incompats@) =~= Seq::<IncompatV>::empty());
                assert(incompats_view(rest@).reverse() =~= iv);
                assert(base + iv.take(0) =~= base);
                while rest.len() > 0
                    invariant
                        self.wf(),
                        self.n() == old(self).n(),
                        pkg < self.n(),
                        forall|q: int| 0 <= q < iv.len() ==> incompat_wf(#[trigger] iv[q], 0, self.n()),
                        incompats_view(rest@).reverse() == iv.skip(iv.len() - rest@.len()),
                        rest@.len() <= iv.len(),
                        self.incompats_v().len() >= base.len(),
                        self.incompats_v().take(base.len() as int) == base,
                        base == old(self).incompats_v(),
                        self.retriever.root_pkg() == old(self).retriever.root_pkg(),
                        self.retriever.root_ver() == old(self).retriever.root_ver(),
                        self.retriever.root_deps_view() == old(self).retriever.root_deps_view(),
                        forall|q: int| 0 <= q < self.n() ==> #[trigger] self.retriever.entries_of(q)
                            == old(self).retriever.entries_of(q),
                        self.step_v() == old(self).step_v(),
                        self.level_v() == old(self).level_v(),
                        self.assignments_v() == old(self).assignments_v(),
                        self.incompats_v() == base + iv.take(iv.len() - rest@.len()),
                    decreases rest.len(),
                {
                    let ghost b = incompats_view(rest@);
                    let ghost q = iv.len() - rest@.len();
                    let ic = rest.pop().unwrap();
                    assert(b =~= incompats_view(rest@).push(ic@));
                    assert(b.reverse() =~= seq![ic@] + incompats_view(rest@).reverse());
                    assert(iv.skip(q)[0] == ic@);
                    assert(iv.skip(q).drop_first() =~= iv.skip(q + 1));
                    assert(incompat_wf(iv[q], 0, self.n()));
                    if !conflict {
                        let mut all = true;
                        let mut t: usize = 0;
                        while t < ic.deps.len()
                            invariant
                                t <= ic.deps.len(),
                            decreases ic.deps.len() - t,
                        {
                            let kk = ic.deps[t].0;
                            if kk != pkg {
                                let rel = self.relation(kk, &ic.deps[t].1);
                                if rel != Relation::Subset && rel != Relation::Equal {
                                    all = false;
                                }
                            }
                            t = t + 1;
                        }
                        conflict = all;
                    }
                    let ghost before = self.incompats_v();
                    let Incompatibility { deps, cause } = ic;
                    self.incompatibility(deps, cause);
                    proof {
                        assert(self.incompats_v().take(base.len() as int) =~= before.take(base.len() as int));
                        assert(iv.take(q + 1) =~= iv.take(q).push(iv[q]));
                        assert(self.incompats_v() =~= base + iv.take(q + 1));
                    }
                }
                assert(iv.take(iv.len() as int) =~= iv);
                if !conflict {
                    let ghost before = self.incompats_v();
                    match self.decision(pkg, best) {
                        Ok(_) => {},
                        Err(e) => {
                            proof {
                                assert(best_spec(r0.locked_of(pkg as int), r0.entries_of(pkg as int), con@, false)
                                    == Ok::<VersionV, ResolveError>(bv0));
                            }
                            return Err(e);
                        },
                    }
                }
            },
            Err(_) => {
                let ghost cv = con@;
                let mut pkgs: Vec<(usize, Constraint)> = Vec::new();
                pkgs.push((pkg, con));
                assert(terms_view(pkgs@) =~= seq![(pkg, cv)]);
                assert(terms_distinct(terms_view(pkgs@)));
                assert(terms_in(terms_view(pkgs@), self.n()));
                let ghost before = self.incompats_v();
                self.incompatibility(pkgs, IncompatibilityCause::Unavailable);
                proof {
                    assert(self.incompats_v().take(before.len() as int) =~= before);
                }
            },
        }
        Ok(res)
    }
}

// ---------------------------------------------------------------------------------------
// Reporting a failure.

/// A term as text: the package and its constraint.
pub open spec fn term_spec(r: Retriever, p: usize, c: Seq<RangeV>) -> Seq<char> {
    r.package_text(p as int) + seq![' '] + ranges_text(c)
}

/// The terms as text, joined by `; `.
pub open spec fn join_terms(r: Retriever, d: Seq<(usize, Seq<RangeV>)>) -> Seq<char>
    decreases d.len(),
{
    if d.len() == 0 {
        seq![]
    } else if d.len() == 1 {
        term_spec(r, d[0].0, d[0].1)
    } else {
        join_terms(r, d.drop_last()) + seq![';', ' '] + term_spec(r, d.last().0, d.last().1)
    }
}

/// How an incompatibility reads; `None` where it cannot be shown (a dependency or an
/// unavailable package with another number of terms, or a complement that fails).
pub open spec fn show_spec(r: Retriever, ic: IncompatV) -> Option<Seq<char>> {
    let d = ic.deps;
    match ic.cause {
        IncompatibilityCause::Dependency => if d.len() != 2 {
            None
        } else {
            match difference(seq![any_range()], d[1].1) {
                None => None,
                Some(c) => Some(term_spec(r, d[0].0, d[0].1) + " depends on "@ + term_spec(r, d[1].0, c)),
            }
        },
        IncompatibilityCause::Unavailable => if d.len() != 1 {
            None
        } else {
            Some(term_spec(r, d[0].0, d[0].1) + " is unavailable"@)
        },
        IncompatibilityCause::Root => Some("the root package was chosen"@),
        IncompatibilityCause::Derived(_, _) => if d.len() == 1 {
            Some(term_spec(r, d[0].0, d[0].1) + " is impossible"@)
        } else if d.len() == 2 {
            Some(term_spec(r, d[0].0, d[0].1) + " is incompatible with "@ + term_spec(r, d[1].0, d[1].1))
        } else {
            Some("one of "@ + join_terms(r, d) + " must be false"@)
        },
    }
}

fn push_term(out: &mut String, r: &Retriever, p: usize, c: &Constraint)
    requires
        p < r.count(),
    ensures
        final(out)@ == old(out)@ + term_spec(*r, p, c@),
{
    let t = r.package(p).to_text();
    push_str(out, t.as_str());
    push_char(out, ' ');
    let u = c.to_text();
    push_str(out, u.as_str());
    assert(final(out)@ =~= old(out)@ + term_spec(*r, p, c@));
}

/// An incompatibility as text.
fn show(ic: &Incompatibility, r: &Retriever) -> (res: Option<String>)
    requires
        terms_in(ic@.deps, r.count()),
    ensures
        match res {
            Some(t) => show_spec(*r, ic@) == Some(t@),
            None => show_spec(*r, ic@) is None,
        },
{
    let mut s = String::new();
    let d = &ic.deps;
    assert(forall|k: int| 0 <= k < d@.len() ==> (#[trigger] terms_view(d@)[k]).0 == d@[k].0);
    match ic.cause {
        IncompatibilityCause::Dependency => {
            if d.len() != 2 {
                return None;
            }
            let c = match d[1].1.try_complement() {
                Some(c) => c,
                None => {
                    return None;
                },
            };
            assert(terms_view(d@)[0].0 < r.count() && terms_view(d@)[1].0 < r.count());
            push_term(&mut s, r, d[0].0, &d[0].1);
            push_str(&mut s, " depends on ");
            push_term(&mut s, r, d[1].0, &c);
        },
        IncompatibilityCause::Unavailable => {
            if d.len() != 1 {
                return None;
            }
            assert(terms_view(d@)[0].0 < r.count());
            push_term(&mut s, r, d[0].0, &d[0].1);
            push_str(&mut s, " is unavailable");
        },
        IncompatibilityCause::Root => {
            push_str(&mut s, "the root package was chosen");
        },
        IncompatibilityCause::Derived(_, _) => {
            if d.len() == 1 {
                assert(terms_view(d@)[0].0 < r.count());
                push_term(&mut s, r, d[0].0, &d[0].1);
                push_str(&mut s, " is impossible");
            } else if d.len() == 2 {
                assert(terms_view(d@)[0].0 < r.count() && terms_view(d@)[1].0 < r.count());
                push_term(&mut s, r, d[0].0, &d[0].1);
                push_str(&mut s, " is incompatible with ");
                push_term(&mut s, r, d[1].0, &d[1].1);
            } else {
                push_str(&mut s, "one of ");
                let ghost tv = terms_view(d@);
                let mut k: usize = 0;
                let ghost start = s@;
                while k < d.len()
                    invariant
                        k <= d@.len(),
                        tv == terms_view(d@),
                        terms_in(tv, r.count()),
                        s@ == start + join_terms(*r, tv.take(k as int)),
                    decreases d@.len() - k,
                {
                    if k > 0 {
                        push_char(&mut s, ';');
                        push_char(&mut s, ' ');
                    }
                    assert(tv[k as int].0 == d@[k as int].0 && tv[k as int].0 < r.count());
                    push_term(&mut s, r, d[k].0, &d[k].1);
                    proof {
                        let u = tv.take(k as int + 1);
                        assert(u.drop_last() =~= tv.take(k as int));
                        assert(u.last() == (d@[k as int].0, d@[k as int].1@));
                        if k == 0 {
                            assert(tv.take(0) =~= Seq::<(usize, Seq<RangeV>)>::empty());
                        }
                        assert(s@ =~= start + join_terms(*r, u));
                    }
                    k = k + 1;
                }
                assert(tv.take(d@.len() as int) =~= tv);
                push_str(&mut s, " must be false");
            }
        },
    }
    Some(s)
}

/// Whether the terms hold a term of the package of `t` with an equal constraint.
pub open spec fn has_term(bv: Seq<(usize, Seq<RangeV>)>, t: (usize, Seq<RangeV>)) -> bool {
    exists|j: int| 0 <= j < bv.len() && bv[j].0 == t.0 && same_set(t.1, #[trigger] bv[j].1)
}

/// Equality of incompatibilities: the same cause, and the same terms as maps.
pub open spec fn incompat_same(a: IncompatV, b: IncompatV) -> bool {
    a.cause == b.cause && a.deps.len() == b.deps.len() && forall|i: int| 0 <= i < a.deps.len() ==> #[trigger] has_term(b.deps, a.deps[i])
}

/// Whether two incompatibilities are equal: the same cause and the same terms as maps.
fn incompat_eq(a: &Incompatibility, b: &Incompatibility) -> (r: bool)
    ensures
        r == incompat_same(a@, b@),
{
    if a.cause != b.cause || a.deps.len() != b.deps.len() {
        return false;
    }
    let ghost av = a@.deps;
    let ghost bv = b@.deps;
    let mut i: usize = 0;
    while i < a.deps.len()
        invariant
            i <= a.deps@.len(),
            av == a@.deps,
            bv == b@.deps,
            av.len() == bv.len(),
            forall|q: int| 0 <= q < i ==> #[trigger] has_term(bv, av[q]),
        decreases a.deps@.len() - i,
    {
        let mut found = false;
        let mut j: usize = 0;
        while j < b.deps.len()
            invariant
                j <= b.deps@.len(),
                i < a.deps@.len(),
                av == a@.deps,
                bv == b@.deps,
                av.len() == bv.len(),
                !found ==> forall|q: int| 0 <= q < j ==> !(bv[q].0 == av[i as int].0 && same_set(av[i as int].1, #[trigger] bv[q].1)),
                found ==> has_term(bv, av[i as int]),
            decreases b.deps@.len() - j,
        {
            assert(av[i as int] == (a.deps@[i as int].0, a.deps@[i as int].1@));
            assert(bv[j as int] == (b.deps@[j as int].0, b.deps@[j as int].1@));
            if !found && a.deps[i].0 == b.deps[j].0 && a.deps[i].1.same(&b.deps[j].1) {
                assert(bv[j as int].0 == av[i as int].0 && same_set(av[i as int].1, bv[j as int].1));
                assert(has_term(bv, av[i as int]));
                found = true;
            }
            j = j + 1;
        }
        if !found {
            assert(!has_term(bv, av[i as int]));
            return false;
        }
        i = i + 1;
    }
    true
}

/// ` (n)`.
fn push_linum(out: &mut String, l: u64)
    ensures
        final(out)@ == old(out)@ + seq![' ', '('] + nat_text(l as nat) + seq![')'],
{
    push_char(out, ' ');
    push_char(out, '(');
    push_u64(out, l);
    push_char(out, ')');
}

pub open spec fn cause_parents(c: IncompatibilityCause) -> Option<(usize, usize)> {
    match c {
        IncompatibilityCause::Derived(l, r) => Some((l, r)),
        _ => None,
    }
}

pub open spec fn opt_u64(l: Option<u16>) -> Option<u64> {
    match l {
        Some(x) => Some(x as u64),
        None => None,
    }
}

/// ` (n)`: a line number.
pub open spec fn linum_text(l: nat) -> Seq<char> {
    seq![' ', '('] + nat_text(l) + seq![')']
}

pub open spec fn opt_linum_text(l: Option<u64>) -> Seq<char> {
    match l {
        Some(x) => linum_text(x as nat),
        None => seq![],
    }
}

/// Two incompatibilities joined by `and`, each followed by its line number where it has one;
/// the first alone where the two are equal.
pub open spec fn combine_spec(r: Retriever, a: IncompatV, b: IncompatV, la: Option<u64>, lb: Option<u64>) -> Option<Seq<char>> {
    match show_spec(r, a) {
        None => None,
        Some(ta) => {
            let buf = ta + opt_linum_text(la);
            if incompat_same(a, b) {
                if buf.len() == 0 {
                    None
                } else {
                    Some(buf)
                }
            } else {
                match show_spec(r, b) {
                    None => None,
                    Some(tb) => Some(buf + " and "@ + tb + opt_linum_text(lb)),
                }
            }
        },
    }
}

/// Two incompatibilities joined by `and`, each with its line number where it has one; one
/// incompatibility alone where the two are equal.
fn show_combine(a: &Incompatibility, b: &Incompatibility, r: &Retriever, la: Option<u64>, lb: Option<u64>) -> (res: Option<String>)
    requires
        terms_in(a@.deps, r.count()),
        terms_in(b@.deps, r.count()),
    ensures
        match combine_spec(*r, a@, b@, la, lb) {
            Some(t) => res matches Some(x) && x@ == t,
            None => res is None,
        },
{
    let mut buf = match show(a, r) {
        Some(t) => t,
        None => {
            return None;
        },
    };
    match la {
        Some(l) => {
            push_linum(&mut buf, l);
        },
        None => {},
    }
    if incompat_eq(a, b) {
        if buf.as_str().unicode_len() == 0 {
            return None;
        }
        return Some(buf);
    }
    push_str(&mut buf, " and ");
    let t = match show(b, r) {
        Some(t) => t,
        None => {
            return None;
        },
    };
    push_str(&mut buf, t.as_str());
    match lb {
        Some(l) => {
            push_linum(&mut buf, l);
        },
        None => {},
    }
    proof {
        reveal_strlit(" and ");
    }
    Some(buf)
}

/// Removes the last character of a text.
fn pop_char(s: &mut String)
    requires
        old(s)@.len() > 0,
    ensures
        final(s)@ == old(s)@.drop_last(),
{
    let n = s.as_str().unicode_len();
    let t = String::from_str(s.as_str().substring_char(0, n - 1));
    assert(old(s)@.subrange(0, n - 1) =~= old(s)@.drop_last());
    *s = t;
}

impl Resolver {
    fn push_show(&self, out: &mut String, ic: usize) -> (ok: bool)
        requires
            self.wf(),
            ic < self.incompats_v().len(),
        ensures
            ok == show_spec(self.retriever, self.incompats_v()[ic as int]) is Some,
            ok ==> final(out)@ == old(out)@ + show_spec(self.retriever, self.incompats_v()[ic as int])->Some_0,
    {
        assert(self.incompats_v()[ic as int] == self.incompats@[ic as int]@);
        assert(incompat_wf(self.incompats@[ic as int]@, ic as int, self.n()));
        match show(&self.incompats[ic], &self.retriever) {
            Some(t) => {
                push_str(out, t.as_str());
                true
            },
            None => false,
        }
    }

    fn push_combine(&self, out: &mut String, a: usize, b: usize, la: Option<u16>, lb: Option<u16>) -> (ok: bool)
        requires
            self.wf(),
            a < self.incompats_v().len(),
            b < self.incompats_v().len(),
        ensures
            ok == combine_spec(self.retriever, self.incompats_v()[a as int], self.incompats_v()[b as int], opt_u64(la), opt_u64(lb)) is Some,
            ok ==> final(out)@ == old(out)@ + combine_spec(self.retriever, self.incompats_v()[a as int],
                self.incompats_v()[b as int], opt_u64(la), opt_u64(lb))->Some_0,
    {
        assert(self.incompats_v()[a as int] == self.incompats@[a as int]@);
        assert(self.incompats_v()[b as int] == self.incompats@[b as int]@);
        assert(incompat_wf(self.incompats@[a as int]@, a as int, self.n()));
        assert(incompat_wf(self.incompats@[b as int]@, b as int, self.n()));
        let la64: Option<u64> = match la {
            Some(l) => Some(l as u64),
            None => None,
        };
        let lb64: Option<u64> = match lb {
            Some(l) => Some(l as u64),
            None => None,
        };
        match show_combine(&self.incompats[a], &self.incompats[b], &self.retriever, la64, lb64) {
            Some(t) => {
                push_str(out, t.as_str());
                true
            },
            None => false,
        }
    }

    /// The explanation of the derived incompatibility at `i`, with the line numbers given so
    /// far and the next free one: the text, and the numbers once it is written. `None` where
    /// an incompatibility cannot be shown, a number would overflow, or the derivations are not
    /// as the report expects.
    pub closed spec fn explain(&self, i: usize, occur: Seq<u16>, ln: Seq<Option<u16>>, cur: u16) -> Option<(Seq<char>, Seq<Option<u16>>, u16)>
        decreases i, 3int,
    {
        match cause_parents(self.incompats_v()[i as int].cause) {
            None => None,
            Some((l, r)) => if !(l < i && r < i) {
                None
            } else {
                match self.explain_head(i, l, r, occur, ln, cur) {
                    None => None,
                    Some((out, ln2, c2)) => match show_spec(self.retriever, self.incompats_v()[i as int]) {
                        None => None,
                        Some(x) => {
                            let body = out + ", "@ + x + seq!['.'];
                            if occur[i as int] >= 2 {
                                if c2 == u16::MAX {
                                    None
                                } else {
                                    Some((body + linum_text(c2 as nat) + seq!['\n'], ln2.update(i as int, Some(c2)), (c2 + 1) as u16))
                                }
                            } else {
                                Some((body + seq!['\n'], ln2, c2))
                            }
                        },
                    },
                }
            },
        }
    }

    /// How the incompatibility at `i` follows from those at `l` and `r`, before it is named.
    pub closed spec fn explain_head(&self, i: usize, l: usize, r: usize, occur: Seq<u16>, ln: Seq<Option<u16>>, cur: u16) -> Option<(Seq<char>, Seq<Option<u16>>, u16)>
        decreases i, 2int,
    {
        let ics = self.incompats_v();
        if !(l < i && r < i) {
            None
        } else {
            match (cause_parents(ics[l as int].cause), cause_parents(ics[r as int].cause)) {
                (Some(_), Some(_)) => self.explain_both(i, l, r, occur, ln, cur),
                (None, None) => match combine_spec(self.retriever, ics[l as int], ics[r as int], None, None) {
                    None => None,
                    Some(t) => Some(("Because "@ + t, ln, cur)),
                },
                (ld, _) => self.explain_one(i, l, r, ld is Some, occur, ln, cur),
            }
        }
    }

    /// Both incompatibilities that `i` follows from are derived.
    pub closed spec fn explain_both(&self, i: usize, l: usize, r: usize, occur: Seq<u16>, ln: Seq<Option<u16>>, cur: u16) -> Option<(Seq<char>, Seq<Option<u16>>, u16)>
        decreases i, 1int,
    {
        let ics = self.incompats_v();
        let rt = self.retriever;
        if !(l < i && r < i) {
            None
        } else {
            match (ln[l as int], ln[r as int]) {
                (Some(a), Some(b)) => match combine_spec(rt, ics[l as int], ics[r as int], Some(a as u64), Some(b as u64)) {
                    None => None,
                    Some(t) => Some(("Because "@ + t, ln, cur)),
                },
                (Some(a), None) => match self.explain(r, occur, ln, cur) {
                    None => None,
                    Some((t, ln2, c2)) => match show_spec(rt, ics[l as int]) {
                        None => None,
                        Some(x) => Some((t + "And because "@ + x + " ("@ + nat_text(a as nat) + ")"@, ln2, c2)),
                    },
                },
                (None, Some(b)) => match self.explain(r, occur, ln, cur) {
                    None => None,
                    Some((t, ln2, c2)) => match show_spec(rt, ics[r as int]) {
                        None => None,
                        Some(x) => Some((t + "And because "@ + x + " ("@ + nat_text(b as nat) + ")"@, ln2, c2)),
                    },
                },
                (None, None) => {
                    let (l1, l2) = cause_parents(ics[l as int].cause)->Some_0;
                    let (r1, r2) = cause_parents(ics[r as int].cause)->Some_0;
                    let d1 = ics[l1 as int].cause is Derived;
                    let d2 = ics[l2 as int].cause is Derived;
                    let d3 = ics[r1 as int].cause is Derived;
                    let d4 = ics[r2 as int].cause is Derived;
                    if (d1 && d2 && d3 && d4) || (d1 && d2 && !d3 && !d4) {
                        match self.explain(r, occur, ln, cur) {
                            None => None,
                            Some((t1, ln1, c1)) => match self.explain(l, occur, ln1, c1) {
                                None => None,
                                Some((t2, ln2, c2)) => Some((t1 + t2 + "Thus"@, ln2, c2)),
                            },
                        }
                    } else if !d1 && !d2 && d3 && d4 {
                        match self.explain(l, occur, ln, cur) {
                            None => None,
                            Some((t1, ln1, c1)) => match self.explain(r, occur, ln1, c1) {
                                None => None,
                                Some((t2, ln2, c2)) => Some((t1 + t2 + "Thus"@, ln2, c2)),
                            },
                        }
                    } else {
                        self.explain_chain(i, l, r, occur, ln, cur)
                    }
                },
            }
        }
    }

    /// Both incompatibilities that `i` follows from are derived and unnumbered, and neither
    /// pattern of their own derivations applies: the left one is explained and numbered, then
    /// the right one, and `i` gets a number.
    pub closed spec fn explain_chain(&self, i: usize, l: usize, r: usize, occur: Seq<u16>, ln: Seq<Option<u16>>, cur: u16) -> Option<(Seq<char>, Seq<Option<u16>>, u16)>
        decreases i, 0int,
    {
        if !(l < i && r < i) {
            None
        } else {
            match self.explain(l, occur, ln, cur) {
                None => None,
                Some((t1, ln1, c1)) => {
                    let first: Option<(Seq<char>, Seq<Option<u16>>, u16)> = if ln1[l as int] is None {
                        if c1 == u16::MAX {
                            None
                        } else {
                            Some((t1.drop_last() + linum_text(c1 as nat) + "\n"@, ln1.update(i as int, Some(c1)), (c1 + 1) as u16))
                        }
                    } else {
                        Some((t1, ln1, c1))
                    };
                    match first {
                        None => None,
                        Some((o1, lnb, cb)) => match self.explain(r, occur, lnb, cb) {
                            None => None,
                            Some((t3, ln3, c3)) => if c3 == u16::MAX {
                                None
                            } else {
                                match show_spec(self.retriever, self.incompats_v()[l as int]) {
                                    None => None,
                                    Some(x) => Some((
                                        (o1 + "\n"@ + t3).drop_last() + linum_text(c3 as nat) + "\n"@ + "And because "@ + x,
                                        ln3.update(i as int, Some(c3)),
                                        (c3 + 1) as u16,
                                    )),
                                }
                            },
                        },
                    }
                },
            }
        }
    }

    /// One of the incompatibilities that `i` follows from is derived (the left one where
    /// `left_derived`), the other is not.
    pub closed spec fn explain_one(&self, i: usize, l: usize, r: usize, left_derived: bool, occur: Seq<u16>, ln: Seq<Option<u16>>, cur: u16) -> Option<(Seq<char>, Seq<Option<u16>>, u16)>
        decreases i, 1int,
    {
        let ics = self.incompats_v();
        let rt = self.retriever;
        let di = if left_derived { l } else { r };
        let ei = if left_derived { r } else { l };
        if !(l < i && r < i) {
            None
        } else {
            match ln[di as int] {
                Some(x) => match combine_spec(rt, ics[ei as int], ics[di as int], None, Some(x as u64)) {
                    None => None,
                    Some(t) => Some(("Because "@ + t, ln, cur)),
                },
                None => match cause_parents(ics[di as int].cause) {
                    None => None,
                    Some((p1, p2)) => {
                        let ad = ics[p1 as int].cause is Derived;
                        let bd = ics[p2 as int].cause is Derived;
                        let a_open = ad && ln[p1 as int] is None;
                        let b_open = bd && ln[p2 as int] is None;
                        if a_open != b_open {
                            if !((ad && !bd) || (!ad && bd)) || !(p1 < i && p2 < i) {
                                None
                            } else {
                                let pd = if ad && !bd { p1 } else { p2 };
                                let pe = if ad && !bd { p2 } else { p1 };
                                match self.explain(pd, occur, ln, cur) {
                                    None => None,
                                    Some((t, ln2, c2)) => match combine_spec(rt, ics[pe as int], ics[ei as int], None, None) {
                                        None => None,
                                        Some(u) => Some((t + "And because "@ + u, ln2, c2)),
                                    },
                                }
                            }
                        } else {
                            match self.explain(di, occur, ln, cur) {
                                None => None,
                                Some((t, ln2, c2)) => match show_spec(rt, ics[ei as int]) {
                                    None => None,
                                    Some(u) => Some((t + "And because "@ + u, ln2, c2)),
                                },
                            }
                        }
                    },
                },
            }
        }
    }

    /// The explanation of a derived incompatibility: how it follows from the two it was derived
    /// from, those explained first where they are derived and not yet numbered. Lines that are
    /// referred to again get a number.
    #[verifier::rlimit(100)]
    fn pp_err_recur(&self, icix: usize, occur: &Vec<u16>, linum: &mut Vec<Option<u16>>, cur: &mut u16) -> (r: Option<String>)
        requires
            self.wf(),
            icix < self.incompats_v().len(),
            occur@.len() == self.incompats_v().len(),
            old(linum)@.len() == self.incompats_v().len(),
        ensures
            final(linum)@.len() == old(linum)@.len(),
            r matches Some(t) ==> t@.len() > 0 && t@.last() == '\n',
            match self.explain(icix, occur@, old(linum)@, *old(cur)) {
                Some((t, l2, c2)) => r matches Some(x) && x@ == t && final(linum)@ == l2 && *final(cur) == c2,
                None => r is None,
            },
        decreases icix, 3int,
    {
        assert(self.incompats_v()[icix as int] == self.incompats@[icix as int]@);
        assert(incompat_wf(self.incompats@[icix as int]@, icix as int, self.n()));
        let (left_ix, right_ix) = match self.incompats[icix].derived() {
            Some(p) => p,
            None => {
                return None;
            },
        };
        let mut out = match self.pp_head(icix, left_ix, right_ix, occur, linum, cur) {
            Some(t) => t,
            None => {
                return None;
            },
        };
        push_str(&mut out, ", ");
        if !self.push_show(&mut out, icix) {
            return None;
        }
        push_char(&mut out, '.');
        if occur[icix] >= 2 {
            if *cur == u16::MAX {
                return None;
            }
            push_linum(&mut out, *cur as u64);
            linum.set(icix, Some(*cur));
            *cur = *cur + 1;
        }
        push_char(&mut out, '\n');
        Some(out)
    }

    fn pp_head(&self, icix: usize, l: usize, r: usize, occur: &Vec<u16>, linum: &mut Vec<Option<u16>>, cur: &mut u16) -> (res: Option<String>)
        requires
            self.wf(),
            icix < self.incompats_v().len(),
            l < icix,
            r < icix,
            occur@.len() == self.incompats_v().len(),
            old(linum)@.len() == self.incompats_v().len(),
        ensures
            final(linum)@.len() == old(linum)@.len(),
            match self.explain_head(icix, l, r, occur@, old(linum)@, *old(cur)) {
                Some((t, l2, c2)) => res matches Some(x) && x@ == t && final(linum)@ == l2 && *final(cur) == c2,
                None => res is None,
            },
        decreases icix, 2int,
    {
        assert(self.incompats_v()[l as int] == self.incompats@[l as int]@);
        assert(self.incompats_v()[r as int] == self.incompats@[r as int]@);
        let ld = self.incompats[l].derived();
        let rd = self.incompats[r].derived();
        if ld.is_some() && rd.is_some() {
            self.pp_both(icix, l, r, occur, linum, cur)
        } else if ld.is_none() && rd.is_none() {
            let mut out = String::new();
            push_str(&mut out, "Because ");
            if !self.push_combine(&mut out, l, r, None, None) {
                return None;
            }
            Some(out)
        } else {
            self.pp_one(icix, l, r, ld.is_some(), occur, linum, cur)
        }
    }

    fn pp_both(&self, icix: usize, left_ix: usize, right_ix: usize, occur: &Vec<u16>, linum: &mut Vec<Option<u16>>, cur: &mut u16) -> (res: Option<String>)
        requires
            self.wf(),
            icix < self.incompats_v().len(),
            left_ix < icix,
            right_ix < icix,
            self.incompats_v()[left_ix as int].cause is Derived,
            self.incompats_v()[right_ix as int].cause is Derived,
            occur@.len() == self.incompats_v().len(),
            old(linum)@.len() == self.incompats_v().len(),
        ensures
            final(linum)@.len() == old(linum)@.len(),
            match self.explain_both(icix, left_ix, right_ix, occur@, old(linum)@, *old(cur)) {
                Some((t, l2, c2)) => res matches Some(x) && x@ == t && final(linum)@ == l2 && *final(cur) == c2,
                None => res is None,
            },
        decreases icix, 1int,
    {
        assert(self.incompats_v()[left_ix as int] == self.incompats@[left_ix as int]@);
        assert(self.incompats_v()[right_ix as int] == self.incompats@[right_ix as int]@);
        assert(incompat_wf(self.incompats@[left_ix as int]@, left_ix as int, self.n()));
        assert(incompat_wf(self.incompats@[right_ix as int]@, right_ix as int, self.n()));
        let mut out = String::new();
        let left_line = linum[left_ix];
        let right_line = linum[right_ix];
        match (left_line, right_line) {
            (Some(l), Some(r)) => {
                push_str(&mut out, "Because ");
                if !self.push_combine(&mut out, left_ix, right_ix, Some(l), Some(r)) {
                    return None;
                }
                Some(out)
            },
            (Some(l), None) => {
                match self.pp_err_recur(right_ix, occur, linum, cur) {
                    Some(t) => push_str(&mut out, t.as_str()),
                    None => {
                        return None;
                    },
                }
                push_str(&mut out, "And because ");
                if !self.push_show(&mut out, left_ix) {
                    return None;
                }
                push_str(&mut out, " (");
                push_u64(&mut out, l as u64);
                push_str(&mut out, ")");
                Some(out)
            },
            (None, Some(r)) => {
                match self.pp_err_recur(right_ix, occur, linum, cur) {
                    Some(t) => push_str(&mut out, t.as_str()),
                    None => {
                        return None;
                    },
                }
                push_str(&mut out, "And because ");
                if !self.push_show(&mut out, right_ix) {
                    return None;
                }
                push_str(&mut out, " (");
                push_u64(&mut out, r as u64);
                push_str(&mut out, ")");
                Some(out)
            },
            (None, None) => {
                let (l1, l2) = match self.incompats[left_ix].derived() {
                    Some(p) => p,
                    None => {
                        return None;
                    },
                };
                let (r1, r2) = match self.incompats[right_ix].derived() {
                    Some(p) => p,
                    None => {
                        return None;
                    },
                };
                assert(self.incompats_v()[l1 as int] == self.incompats@[l1 as int]@);
                assert(self.incompats_v()[l2 as int] == self.incompats@[l2 as int]@);
                assert(self.incompats_v()[r1 as int] == self.incompats@[r1 as int]@);
                assert(self.incompats_v()[r2 as int] == self.incompats@[r2 as int]@);
                let d1 = self.incompats[l1].is_derived();
                let d2 = self.incompats[l2].is_derived();
                let d3 = self.incompats[r1].is_derived();
                let d4 = self.incompats[r2].is_derived();
                if (d1 && d2 && d3 && d4) || (d1 && d2 && !d3 && !d4) {
                    match self.pp_err_recur(right_ix, occur, linum, cur) {
                        Some(t) => push_str(&mut out, t.as_str()),
                        None => {
                            return None;
                        },
                    }
                    match self.pp_err_recur(left_ix, occur, linum, cur) {
                        Some(t) => push_str(&mut out, t.as_str()),
                        None => {
                            return None;
                        },
                    }
                    push_str(&mut out, "Thus");
                    Some(out)
                } else if !d1 && !d2 && d3 && d4 {
                    match self.pp_err_recur(left_ix, occur, linum, cur) {
                        Some(t) => push_str(&mut out, t.as_str()),
                        None => {
                            return None;
                        },
                    }
                    match self.pp_err_recur(right_ix, occur, linum, cur) {
                        Some(t) => push_str(&mut out, t.as_str()),
                        None => {
                            return None;
                        },
                    }
                    push_str(&mut out, "Thus");
                    Some(out)
                } else {
                    self.pp_chain(icix, left_ix, right_ix, occur, linum, cur)
                }
            },
        }
    }

    #[verifier::rlimit(80)]
    fn pp_chain(&self, icix: usize, left_ix: usize, right_ix: usize, occur: &Vec<u16>, linum: &mut Vec<Option<u16>>, cur: &mut u16) -> (res: Option<String>)
        requires
            self.wf(),
            icix < self.incompats_v().len(),
            left_ix < icix,
            right_ix < icix,
            occur@.len() == self.incompats_v().len(),
            old(linum)@.len() == self.incompats_v().len(),
        ensures
            final(linum)@.len() == old(linum)@.len(),
            match self.explain_chain(icix, left_ix, right_ix, occur@, old(linum)@, *old(cur)) {
                Some((t, l2, c2)) => res matches Some(x) && x@ == t && final(linum)@ == l2 && *final(cur) == c2,
                None => res is None,
            },
        decreases icix, 0int,
    {
        let ghost ln0 = linum@;
        let ghost c0 = *cur;
        let mut out = String::new();
        match self.pp_err_recur(left_ix, occur, linum, cur) {
            Some(t) => push_str(&mut out, t.as_str()),
            None => {
                return None;
            },
        }
        let ghost e1 = self.explain(left_ix, occur@, ln0, c0);
        assert(e1 is Some);
        assert(out@ == e1->Some_0.0 && linum@ == e1->Some_0.1 && *cur == e1->Some_0.2);
        if linum[left_ix].is_none() {
            pop_char(&mut out);
            if *cur == u16::MAX {
                return None;
            }
            push_linum(&mut out, *cur as u64);
            linum.set(icix, Some(*cur));
            *cur = *cur + 1;
            push_str(&mut out, "\n");
        }
        let ghost o1 = out@;
        let ghost lnb = linum@;
        let ghost cb = *cur;
        push_str(&mut out, "\n");
        match self.pp_err_recur(right_ix, occur, linum, cur) {
            Some(t) => push_str(&mut out, t.as_str()),
            None => {
                return None;
            },
        }
        let ghost e3 = self.explain(right_ix, occur@, lnb, cb);
        assert(e3 is Some);
        assert(out@ == o1 + "\n"@ + e3->Some_0.0);
        pop_char(&mut out);
        if *cur == u16::MAX {
            return None;
        }
        push_linum(&mut out, *cur as u64);
        linum.set(icix, Some(*cur));
        *cur = *cur + 1;
        push_str(&mut out, "\n");
        push_str(&mut out, "And because ");
        if !self.push_show(&mut out, left_ix) {
            return None;
        }
        Some(out)
    }

    fn pp_one(&self, icix: usize, l: usize, r: usize, left_derived: bool, occur: &Vec<u16>, linum: &mut Vec<Option<u16>>, cur: &mut u16) -> (res: Option<String>)
        requires
            self.wf(),
            icix < self.incompats_v().len(),
            l < icix,
            r < icix,
            occur@.len() == self.incompats_v().len(),
            old(linum)@.len() == self.incompats_v().len(),
        ensures
            final(linum)@.len() == old(linum)@.len(),
            match self.explain_one(icix, l, r, left_derived, occur@, old(linum)@, *old(cur)) {
                Some((t, l2, c2)) => res matches Some(x) && x@ == t && final(linum)@ == l2 && *final(cur) == c2,
                None => res is None,
            },
        decreases icix, 1int,
    {
        let mut out = String::new();
        let (derived_ix, external_ix) = if left_derived { (l, r) } else { (r, l) };
        match linum[derived_ix] {
            Some(x) => {
                push_str(&mut out, "Because ");
                if !self.push_combine(&mut out, external_ix, derived_ix, None, Some(x)) {
                    return None;
                }
                Some(out)
            },
            None => {
                assert(self.incompats_v()[derived_ix as int] == self.incompats@[derived_ix as int]@);
                assert(incompat_wf(self.incompats@[derived_ix as int]@, derived_ix as int, self.n()));
                let (p1, p2) = match self.incompats[derived_ix].derived() {
                    Some(p) => p,
                    None => {
                        return None;
                    },
                };
                assert(self.incompats_v()[p1 as int] == self.incompats@[p1 as int]@);
                assert(self.incompats_v()[p2 as int] == self.incompats@[p2 as int]@);
                let ad = self.incompats[p1].is_derived();
                let bd = self.incompats[p2].is_derived();
                let a_open = ad && linum[p1].is_none();
                let b_open = bd && linum[p2].is_none();
                if a_open != b_open {
                    let (prior_derived_ix, prior_external_ix) = if ad && !bd {
                        (p1, p2)
                    } else if !ad && bd {
                        (p2, p1)
                    } else {
                        return None;
                    };
                    match self.pp_err_recur(prior_derived_ix, occur, linum, cur) {
                        Some(t) => push_str(&mut out, t.as_str()),
                        None => {
                            return None;
                        },
                    }
                    push_str(&mut out, "And because ");
                    if !self.push_combine(&mut out, prior_external_ix, external_ix, None, None) {
                        return None;
                    }
                    Some(out)
                } else {
                    match self.pp_err_recur(derived_ix, occur, linum, cur) {
                        Some(t) => push_str(&mut out, t.as_str()),
                        None => {
                            return None;
                        },
                    }
                    push_str(&mut out, "And because ");
                    if !self.push_show(&mut out, external_ix) {
                        return None;
                    }
                    Some(out)
                }
            },
        }
    }
}

/// Appending nodes and edges keeps the dependencies of a node followed.
proof fn lemma_followed_grows(
    r: Resolver,
    n0: Seq<(usize, Version)>,
    e0: Seq<(usize, usize)>,
    n1: Seq<(usize, Version)>,
    e1: Seq<(usize, usize)>,
    i: int,
)
    requires
        n0.len() <= n1.len(),
        forall|j: int| 0 <= j < n0.len() ==> #[trigger] n1[j] == n0[j],
        e0.len() <= e1.len(),
        forall|k: int| 0 <= k < e0.len() ==> #[trigger] e1[k] == e0[k],
        forall|k: int| 0 <= k < e0.len() ==> (#[trigger] e0[k]).1 < n0.len(),
        0 <= i < n0.len(),
        r.deps_followed(n0, e0, i),
    ensures
        r.deps_followed(n1, e1, i),
{
    assert(n1[i] == n0[i]);
    let ts = r.dep_incompats_of(n0[i].0, n0[i].1@).unwrap();
    assert forall|t: int| 0 <= t < ts.len() implies (#[trigger] ts[t]).deps.len() >= 2 && exists|k: int|
        0 <= k < e1.len() && (#[trigger] e1[k]).0 == i && n1[e1[k].1 as int].0 == ts[t].deps[1].0 by {
        let k = choose|k: int| 0 <= k < e0.len() && (#[trigger] e0[k]).0 == i && n0[e0[k].1 as int].0 == ts[t].deps[1].0;
        assert(e1[k] == e0[k]);
        assert(n1[e0[k].1 as int] == n0[e0[k].1 as int]);
    }
}

/// The packages chosen, each at its version, the root first, and which depends on which (as
/// positions in `nodes`).
#[derive(Debug)]
pub struct Solution {
    pub nodes: Vec<(usize, Version)>,
    pub edges: Vec<(usize, usize)>,
}

proof fn lemma_occurrences_none(s: &Resolver, k: int, m: int)
    requires
        0 < k <= m,
        s.occurrences(k) is None,
    ensures
        s.occurrences(m) is None,
    decreases m - k,
{
    if k < m {
        lemma_occurrences_none(s, k, m - 1);
    }
}

impl Resolver {
    /// How many times each incompatibility is one that one of the first `n` was derived from;
    /// `None` where a count would overflow.
    pub closed spec fn occurrences(&self, n: int) -> Option<Seq<u16>>
        decreases n,
    {
        let ics = self.incompats_v();
        if n <= 0 {
            Some(Seq::new(ics.len(), |k: int| 0u16))
        } else {
            match self.occurrences(n - 1) {
                None => None,
                Some(oc) => match cause_parents(ics[n - 1].cause) {
                    None => Some(oc),
                    Some((l, r)) => if oc[l as int] == u16::MAX {
                        None
                    } else {
                        let oc1 = oc.update(l as int, (oc[l as int] + 1) as u16);
                        if oc1[r as int] == u16::MAX {
                            None
                        } else {
                            Some(oc1.update(r as int, (oc1[r as int] + 1) as u16))
                        }
                    },
                },
            }
        }
    }

    /// The report of a failed resolution from the incompatibility at `root`: its explanation,
    /// lines numbered from 1 where they are referred to twice, then the conclusion.
    /// A report ends by saying that version solving has failed.
    pub proof fn lemma_report_ending(&self, root: usize)
        ensures
            self.report(root) matches Some(t) ==> ends_failed(t),
    {
        if let Some(t) = self.report(root) {
            let ics = self.incompats_v();
            let oc = self.occurrences(ics.len() as int).unwrap();
            let x = self.explain(root, oc, Seq::new(ics.len(), |k: int| None::<u16>), 1).unwrap().0;
            let e = failed_ending();
            assert(t =~= (x + "\n"@) + e);
            assert(t.subrange(t.len() - e.len(), t.len() as int) =~= e);
        }
    }

    pub closed spec fn report(&self, root: usize) -> Option<Seq<char>> {
        let ics = self.incompats_v();
        match self.occurrences(ics.len() as int) {
            None => None,
            Some(oc) => if !(ics[root as int].cause is Derived) {
                None
            } else {
                match self.explain(root, oc, Seq::new(ics.len(), |k: int| None::<u16>), 1) {
                    None => None,
                    Some((t, _, _)) => Some(t + "\n"@ + "Thus, version solving has failed."@ + "\n"@),
                }
            },
        }
    }

    /// The report of a failed resolution, from the incompatibility that says so.
    fn pp_error(&self, root_icix: usize) -> (r: Option<String>)
        requires
            self.wf(),
            root_icix < self.incompats_v().len(),
        ensures
            match self.report(root_icix) {
                Some(t) => r matches Some(x) && x@ == t,
                None => r is None,
            },
    {
        let n = self.incompats.len();
        let mut occur: Vec<u16> = Vec::new();
        let mut linum: Vec<Option<u16>> = Vec::new();
        let mut i: usize = 0;
        while i < n
            invariant
                i <= n,
                n == self.incompats_v().len(),
                occur@ == Seq::new(i as nat, |k: int| 0u16),
                linum@ == Seq::new(i as nat, |k: int| None::<u16>),
            decreases n - i,
        {
            occur.push(0);
            linum.push(None);
            assert(occur@ =~= Seq::new((i + 1) as nat, |k: int| 0u16));
            assert(linum@ =~= Seq::new((i + 1) as nat, |k: int| None::<u16>));
            i = i + 1;
        }
        let mut ix: usize = 0;
        while ix < n
            invariant
                ix <= n,
                n == self.incompats@.len(),
                n == self.incompats_v().len(),
                occur@.len() == n,
                self.wf(),
                self.occurrences(ix as int) == Some(occur@),
            decreases n - ix,
        {
            assert(incompat_wf(self.incompats@[ix as int]@, ix as int, self.n()));
            assert(self.incompats_v()[ix as int] == self.incompats@[ix as int]@);
            match self.incompats[ix].derived() {
                Some((l, r)) => {
                    if occur[l] == u16::MAX {
                        proof {
                            lemma_occurrences_none(self, ix as int + 1, n as int);
                        }
                        return None;
                    }
                    let v = occur[l] + 1;
                    occur.set(l, v);
                    if occur[r] == u16::MAX {
                        proof {
                            lemma_occurrences_none(self, ix as int + 1, n as int);
                        }
                        return None;
                    }
                    let w = occur[r] + 1;
                    occur.set(r, w);
                },
                None => {},
            }
            ix = ix + 1;
        }
        if !self.incompats[root_icix].is_derived() {
            return None;
        }
        assert(self.incompats_v()[root_icix as int] == self.incompats@[root_icix as int]@);
        let mut cur: u16 = 1;
        let mut s = match self.pp_err_recur(root_icix, &occur, &mut linum, &mut cur) {
            Some(t) => t,
            None => {
                return None;
            },
        };
        push_str(&mut s, "\n");
        push_str(&mut s, "Thus, version solving has failed.");
        push_str(&mut s, "\n");
        Some(s)
    }

    /// The loop of resolution: the root's incompatibility, then unit propagation and decisions
    /// until every package asked for is decided; then the tree of chosen packages, read from
    /// their dependencies breadth first.
    fn solve_loop(&mut self) -> (r: Result<Solution, ResolveError>)
        requires
            old(self).wf(),
        ensures
            final(self).wf(),
            final(self).n() == old(self).n(),
            final(self).retriever.root_pkg() == old(self).retriever.root_pkg(),
            match r {
                Ok(sol) => sol.nodes@.len() > 0 && sol.nodes@[0].0 == old(self).retriever.root_pkg()
                    && sol.nodes@[0].1@ == old(self).retriever.root_ver()
                    && (forall|k: int| 0 <= k < sol.edges@.len() ==> (#[trigger] sol.edges@[k]).0 < sol.nodes@.len()
                        && sol.edges@[k].1 < sol.nodes@.len())
                    && (forall|k: int| 1 <= k < sol.nodes@.len() ==> final(self).decisions_v()[(#[trigger] sol.nodes@[k]).0 as int]
                        == Some(sol.nodes@[k].1@))
                    && (forall|k: int| 0 <= k < sol.edges@.len() ==> old(self).depends(
                        sol.nodes@[(#[trigger] sol.edges@[k]).0 as int].0,
                        sol.nodes@[sol.edges@[k].0 as int].1@,
                        sol.nodes@[sol.edges@[k].1 as int].0,
                    ))
                    && (forall|i: int| 0 <= i < sol.nodes@.len() ==> #[trigger] old(self).deps_followed(
                        sol.nodes@,
                        sol.edges@,
                        i,
                    ))
                    && (forall|i: int, j: int| 0 <= i < j < sol.nodes@.len() ==> (#[trigger] sol.nodes@[i]).0
                        != (#[trigger] sol.nodes@[j]).0)
                    && (forall|k: int| 0 <= k < sol.edges@.len() ==> old(self).edge_fits(sol.nodes@, #[trigger] sol.edges@[k])),
                Err(e) => (e == ResolveError::NoConflictRes ==> has_failure(
                    final(self).incompats_v(),
                    old(self).retriever.root_pkg(),
                )) && final(self).incompats_v().len() > old(self).incompats_v().len()
                    && final(self).incompats_v()[old(self).incompats_v().len() as int] == root_incompat(
                    old(self).retriever.root_pkg(),
                    old(self).retriever.root_ver(),
                ),
            },
    {
        self.retriever.facts();
        let root = self.retriever.root();
        let root_version = self.retriever.root_version().copy();
        let c = Constraint::from_version(root_version.copy());
        proof {
            crate::constraint::lemma_complement_of_version(root_version@);
        }
        let comp = c.try_complement().unwrap();
        let ghost base = self.incompats_v();
        let mut pkgs: Vec<(usize, Constraint)> = Vec::new();
        pkgs.push((root, comp));
        assert(terms_distinct(terms_view(pkgs@)));
        assert(terms_in(terms_view(pkgs@), self.n()));
        assert(terms_view(pkgs@) =~= root_incompat(self.retriever.root_pkg(), self.retriever.root_ver()).deps);
        self.incompatibility(pkgs, IncompatibilityCause::Root);
        let ghost rp = self.retriever.root_pkg();
        let ghost rv = self.retriever.root_ver();
        let ghost ri = root_incompat(rp, rv);
        assert(self.incompats_v()[base.len() as int] == ri);
        let mut next: Option<usize> = Some(root);
        let mut fuel: u64 = u64::MAX;
        while next.is_some()
            invariant
                self.wf(),
                self.n() == old(self).n(),
                rp == old(self).retriever.root_pkg(),
                rv == old(self).retriever.root_ver(),
                self.retriever.root_pkg() == rp,
                self.retriever.root_ver() == rv,
                self.retriever.root_deps_view() == old(self).retriever.root_deps_view(),
                forall|q: int| 0 <= q < self.n() ==> #[trigger] self.retriever.entries_of(q)
                    == old(self).retriever.entries_of(q),
                match next {
                    Some(p) => p < self.n(),
                    None => true,
                },
                base == old(self).incompats_v(),
                ri == root_incompat(rp, rv),
                self.incompats_v().len() > base.len(),
                self.incompats_v()[base.len() as int] == ri,
            decreases fuel,
        {
            if fuel == 0 {
                return Err(ResolveError::TooManySteps);
            }
            fuel = fuel - 1;
            let n = next.unwrap();
            let ghost pre = self.incompats_v();
            match self.propagate(n) {
                Ok(_) => {},
                Err(e) => {
                    assert(self.incompats_v()[base.len() as int] == self.incompats_v().take(pre.len() as int)[base.len() as int]);
                    return Err(e);
                },
            }
            assert(self.incompats_v()[base.len() as int] == self.incompats_v().take(pre.len() as int)[base.len() as int]);
            let ghost before = *self;
            let ghost pre2 = self.incompats_v();
            next = match self.choose_pkg_version() {
                Ok(x) => x,
                Err(e) => {
                    proof {
                        let i = chosen_from(before.derivs_v(), before.decisions_v(), before.retriever,
                            before.derivs_v().len() as int).unwrap();
                        let q = before.derivs_v()[i].0;
                        let bv = best_spec(before.retriever.locked_of(q as int), before.retriever.entries_of(q as int),
                            before.derivs_v()[i].2, false).unwrap();
                        crate::retriever::lemma_incompats_err_kind(before.retriever.root_pkg(), before.retriever.root_ver(),
                            before.retriever.root_deps_view(), before.retriever.entries_of(q as int), q, bv);
                        assert(self.incompats_v()[base.len() as int] == self.incompats_v().take(pre2.len() as int)[base.len() as int]);
                    }
                    return Err(e);
                },
            };
            assert(self.incompats_v()[base.len() as int] == self.incompats_v().take(pre2.len() as int)[base.len() as int]);
            proof {
                if next is Some {
                    assert(next.unwrap() < self.n());
                }
            }
        }
        let mut nodes: Vec<(usize, Version)> = Vec::new();
        let mut edges: Vec<(usize, usize)> = Vec::new();
        nodes.push((root, root_version));
        let mut head: usize = 0;
        let mut fuel: u64 = u64::MAX;
        while head < nodes.len()
            invariant
                self.wf(),
                self.n() == old(self).n(),
                nodes@.len() > 0,
                nodes@[0].0 == old(self).retriever.root_pkg(),
                nodes@[0].1@ == old(self).retriever.root_ver(),
                forall|k: int| 0 <= k < nodes@.len() ==> (#[trigger] nodes@[k]).0 < self.n(),
                forall|k: int| 0 <= k < edges@.len() ==> (#[trigger] edges@[k]).0 < nodes@.len() && edges@[k].1 < nodes@.len(),
                forall|k: int| 1 <= k < nodes@.len() ==> self.decisions_v()[(#[trigger] nodes@[k]).0 as int] == Some(nodes@[k].1@),
                forall|i: int, j: int| 0 <= i < j < nodes@.len() ==> (#[trigger] nodes@[i]).0 != (#[trigger] nodes@[j]).0,
                self.retriever.root_pkg() == old(self).retriever.root_pkg(),
                self.retriever.root_ver() == old(self).retriever.root_ver(),
                self.retriever.root_deps_view() == old(self).retriever.root_deps_view(),
                forall|q: int| 0 <= q < self.n() ==> #[trigger] self.retriever.entries_of(q) == old(self).retriever.entries_of(q),
                forall|k: int| 0 <= k < edges@.len() ==> old(self).depends(
                    nodes@[(#[trigger] edges@[k]).0 as int].0,
                    nodes@[edges@[k].0 as int].1@,
                    nodes@[edges@[k].1 as int].0,
                ),
                head <= nodes@.len(),
                forall|k: int| 0 <= k < edges@.len() ==> (#[trigger] edges@[k]).0 < head,
                base == old(self).incompats_v(),
                ri == root_incompat(rp, rv),
                rp == old(self).retriever.root_pkg(),
                rv == old(self).retriever.root_ver(),
                self.incompats_v().len() > base.len(),
                self.incompats_v()[base.len() as int] == ri,
                forall|q: int| 0 <= q < edges@.len() ==> old(self).edge_fits(nodes@, #[trigger] edges@[q]),
                forall|i: int| 0 <= i < head ==> old(self).deps_followed(nodes@, edges@, i),
            decreases fuel,
        {
            if fuel == 0 {
                return Err(ResolveError::TooManySteps);
            }
            fuel = fuel - 1;
            let pid = head;
            head = head + 1;
            let p = nodes[pid].0;
            let v = nodes[pid].1.copy();
            let ghost dec = self.decisions_v();
            let ghost r0 = self.retriever;
            let deps = match self.retriever.incompats(p, &v) {
                Ok(x) => x,
                Err(e) => {
                    proof {
                        crate::retriever::lemma_incompats_err_kind(r0.root_pkg(), r0.root_ver(),
                            r0.root_deps_view(), r0.entries_of(p as int), p, v@);
                    }
                    return Err(e);
                },
            };
            assert(self.decisions_v() == dec);
            let mut k: usize = 0;
            while k < deps.len()
                invariant
                    k <= deps.len(),
                    self.wf(),
                    self.n() == old(self).n(),
                    nodes@.len() > 0,
                    pid < nodes@.len(),
                    nodes@[0].0 == old(self).retriever.root_pkg(),
                    nodes@[0].1@ == old(self).retriever.root_ver(),
                    forall|q: int| 0 <= q < nodes@.len() ==> (#[trigger] nodes@[q]).0 < self.n(),
                    forall|q: int| 0 <= q < edges@.len() ==> (#[trigger] edges@[q]).0 < nodes@.len() && edges@[q].1 < nodes@.len(),
                    forall|q: int| 1 <= q < nodes@.len() ==> self.decisions_v()[(#[trigger] nodes@[q]).0 as int] == Some(nodes@[q].1@),
                    forall|i: int, j: int| 0 <= i < j < nodes@.len() ==> (#[trigger] nodes@[i]).0 != (#[trigger] nodes@[j]).0,
                    self.retriever.root_pkg() == old(self).retriever.root_pkg(),
                    self.retriever.root_ver() == old(self).retriever.root_ver(),
                    self.retriever.root_deps_view() == old(self).retriever.root_deps_view(),
                    forall|q: int| 0 <= q < self.n() ==> #[trigger] self.retriever.entries_of(q) == old(self).retriever.entries_of(q),
                    nodes@[pid as int].0 == p,
                    nodes@[pid as int].1@ == v@,
                    incompats_spec(
                        old(self).retriever.root_pkg(),
                        old(self).retriever.root_ver(),
                        old(self).retriever.root_deps_view(),
                        old(self).retriever.entries_of(p as int),
                        p,
                        v@,
                    ) == Ok::<Seq<IncompatV>, ResolveError>(incompats_view(deps@)),
                    forall|q: int| 0 <= q < edges@.len() ==> old(self).depends(
                        nodes@[(#[trigger] edges@[q]).0 as int].0,
                        nodes@[edges@[q].0 as int].1@,
                        nodes@[edges@[q].1 as int].0,
                    ),
                    head == pid + 1,
                    forall|q: int| 0 <= q < edges@.len() ==> (#[trigger] edges@[q]).0 < head,
                    base == old(self).incompats_v(),
                    ri == root_incompat(rp, rv),
                    rp == old(self).retriever.root_pkg(),
                    rv == old(self).retriever.root_ver(),
                    self.incompats_v().len() > base.len(),
                    self.incompats_v()[base.len() as int] == ri,
                    forall|q: int| 0 <= q < edges@.len() ==> old(self).edge_fits(nodes@, #[trigger] edges@[q]),
                    forall|i: int| 0 <= i < pid ==> old(self).deps_followed(nodes@, edges@, i),
                    forall|t: int| 0 <= t < k ==> (#[trigger] incompats_view(deps@)[t]).deps.len() >= 2 && exists|e: int|
                        0 <= e < edges@.len() && (#[trigger] edges@[e]).0 == pid
                            && nodes@[edges@[e].1 as int].0 == incompats_view(deps@)[t].deps[1].0,
                decreases deps.len() - k,
            {
                let ghost n_start = nodes@;
                let ghost e_start = edges@;
                if deps[k].deps.len() < 2 {
                    return Err(ResolveError::Inconsistent);
                }
                let pkg = deps[k].deps[1].0;
                if pkg >= self.decisions.len() {
                    return Err(ResolveError::Inconsistent);
                }
                let ver = match &self.decisions[pkg] {
                    Some(x) => x.copy(),
                    None => {
                        return Err(ResolveError::Inconsistent);
                    },
                };
                assert(self.decisions_v()[pkg as int] == Some(ver@));
                let mut found: Option<usize> = None;
                let mut q: usize = 0;
                while q < nodes.len()
                    invariant
                        q <= nodes@.len(),
                        match found {
                            Some(f) => f < nodes@.len() && nodes@[f as int].0 == pkg,
                            None => forall|j: int| 0 <= j < q ==> (#[trigger] nodes@[j]).0 != pkg,
                        },
                    decreases nodes@.len() - q,
                {
                    if found.is_none() && nodes[q].0 == pkg {
                        found = Some(q);
                    }
                    q = q + 1;
                }
                let nix = match found {
                    Some(f) => f,
                    None => {
                        let ghost before = nodes@;
                        nodes.push((pkg, ver));
                        assert(nodes@[nodes@.len() - 1].0 == pkg);
                        nodes.len() - 1
                    },
                };
                proof {
                    let iv = incompats_view(deps@);
                    assert(iv[k as int] == deps@[k as int]@);
                    assert(iv[k as int].deps.len() >= 2 && iv[k as int].deps[1].0 == pkg);
                    assert(old(self).depends(p, v@, pkg));
                }
                let fits = match self.retriever.deps_of(p, &v) {
                    Some(ds) => fits_deps(ds, pkg, &nodes[nix].1),
                    None => false,
                };
                if !fits {
                    return Err(ResolveError::Inconsistent);
                }
                proof {
                    assert(old(self).deps_of_v(p, v@) == self.deps_of_v(p, v@));
                    assert(old(self).edge_fits(nodes@, (pid, nix)));
                }
                let ghost e0 = edges@;
                edges.push((pid, nix));
                proof {
                    assert forall|q: int| 0 <= q < edges@.len() implies old(self).depends(
                        nodes@[(#[trigger] edges@[q]).0 as int].0,
                        nodes@[edges@[q].0 as int].1@,
                        nodes@[edges@[q].1 as int].0,
                    ) by {
                        if q < e0.len() {
                            assert(edges@[q] == e0[q]);
                        }
                    }
                    assert forall|q: int| 0 <= q < edges@.len() implies old(self).edge_fits(nodes@, #[trigger] edges@[q]) by {
                        if q < e0.len() {
                            assert(edges@[q] == e0[q]);
                        }
                    }
                    assert forall|i: int| 0 <= i < pid implies old(self).deps_followed(nodes@, edges@, i) by {
                        lemma_followed_grows(*old(self), n_start, e_start, nodes@, edges@, i);
                    }
                    let iv = incompats_view(deps@);
                    assert forall|t: int| 0 <= t < k + 1 implies (#[trigger] iv[t]).deps.len() >= 2 && exists|e: int|
                        0 <= e < edges@.len() && (#[trigger] edges@[e]).0 == pid
                            && nodes@[edges@[e].1 as int].0 == iv[t].deps[1].0 by {
                        if t < k {
                            let e = choose|e: int| 0 <= e < e0.len() && (#[trigger] e0[e]).0 == pid
                                && n_start[e0[e].1 as int].0 == iv[t].deps[1].0;
                            assert(edges@[e] == e0[e]);
                            assert(nodes@[e0[e].1 as int] == n_start[e0[e].1 as int]);
                        } else {
                            assert(edges@[e0.len() as int] == (pid, nix));
                        }
                    }
                }
                k = k + 1;
            }
            proof {
                let iv = incompats_view(deps@);
                assert(old(self).dep_incompats_of(p, v@) == Ok::<Seq<IncompatV>, ResolveError>(iv));
                assert(old(self).deps_followed(nodes@, edges@, pid as int));
            }
        }
        Ok(Solution { nodes, edges })
    }

    /// Resolves the dependencies: the solution, or the report of why there is none.
    pub fn solve(&mut self) -> (r: Result<Solution, String>)
        requires
            old(self).wf(),
        ensures
            final(self).wf(),
            match r {
                Ok(sol) => sol.nodes@.len() > 0 && sol.nodes@[0].0 == old(self).root_pkg_v()
                    && sol.nodes@[0].1@ == old(self).root_ver_v()
                    && (forall|k: int| 0 <= k < sol.edges@.len() ==> (#[trigger] sol.edges@[k]).0 < sol.nodes@.len()
                        && sol.edges@[k].1 < sol.nodes@.len())
                    && (forall|k: int| 1 <= k < sol.nodes@.len() ==> final(self).decisions_v()[(#[trigger] sol.nodes@[k]).0 as int]
                        == Some(sol.nodes@[k].1@))
                    && (forall|k: int| 0 <= k < sol.edges@.len() ==> old(self).depends(
                        sol.nodes@[(#[trigger] sol.edges@[k]).0 as int].0,
                        sol.nodes@[sol.edges@[k].0 as int].1@,
                        sol.nodes@[sol.edges@[k].1 as int].0,
                    ))
                    && (forall|i: int| 0 <= i < sol.nodes@.len() ==> #[trigger] old(self).deps_followed(
                        sol.nodes@,
                        sol.edges@,
                        i,
                    ))
                    && (forall|i: int, j: int| 0 <= i < j < sol.nodes@.len() ==> (#[trigger] sol.nodes@[i]).0
                        != (#[trigger] sol.nodes@[j]).0)
                    && (forall|k: int| 0 <= k < sol.edges@.len() ==> old(self).edge_fits(sol.nodes@, #[trigger] sol.edges@[k])),
                Err(t) => final(self).incompats_v().len() > old(self).incompats_v().len()
                    && final(self).incompats_v()[old(self).incompats_v().len() as int] == root_incompat(
                    old(self).root_pkg_v(),
                    old(self).root_ver_v(),
                ) && match last_failure(
                    final(self).incompats_v(),
                    old(self).root_pkg_v(),
                    final(self).incompats_v().len() as int,
                ) {
                    Some(i) => match final(self).report(i as usize) {
                        Some(x) => t@ == x && ends_failed(t@),
                        None => exists|e: ResolveError| t@ == #[trigger] failure_spec(e),
                    },
                    None => exists|e: ResolveError| e != ResolveError::NoConflictRes && t@ == #[trigger] failure_spec(e),
                },
            },
    {
        match self.solve_loop() {
            Ok(sol) => Ok(sol),
            Err(e) => Err(self.failure_report(e)),
        }
    }

    /// The report of a failed resolution: the explanation of the last incompatibility that says
    /// resolution fails, where there is one and it can be explained; else what the error says.
    fn failure_report(&self, e: ResolveError) -> (t: String)
        requires
            self.wf(),
            e == ResolveError::NoConflictRes ==> has_failure(self.incompats_v(), self.root_pkg_v()),
        ensures
            match last_failure(self.incompats_v(), self.root_pkg_v(), self.incompats_v().len() as int) {
                Some(i) => match self.report(i as usize) {
                    Some(x) => t@ == x && ends_failed(t@),
                    None => exists|e: ResolveError| t@ == #[trigger] failure_spec(e),
                },
                None => exists|e: ResolveError| e != ResolveError::NoConflictRes && t@ == #[trigger] failure_spec(e),
            },
    {
        let ghost v = self.incompats_v();
        let ghost root = self.retriever.root_pkg();
        let n = self.incompats.len();
        let mut i: usize = n;
        while i > 0 && !self.is_failure(&self.incompats[i - 1])
            invariant
                i <= n,
                n == self.incompats_v().len(),
                v == self.incompats_v(),
                root == self.retriever.root_pkg(),
                last_failure(v, root, n as int) == last_failure(v, root, i as int),
            decreases i,
        {
            assert(v[i - 1] == self.incompats@[i - 1]@);
            i = i - 1;
        }
        let t = failure_text(e);
        assert(t@ == failure_spec(e));
        if i > 0 {
            assert(v[i - 1] == self.incompats@[i - 1]@);
            assert(last_failure(v, root, i as int) == Some(i - 1));
            proof {
                self.lemma_report_ending((i - 1) as usize);
            }
            match self.pp_error(i - 1) {
                Some(x) => {
                    return x;
                },
                None => {},
            }
            return t;
        }
        proof {
            lemma_last_failure(v, root, n as int);
            if e == ResolveError::NoConflictRes {
                let k = choose|k: int| 0 <= k < v.len() && #[trigger] incompat_failure(v[k], root);
                assert(!incompat_failure(v[k], root));
            }
        }
        t
    }
}

/// What is reported where a failure cannot be explained by its incompatibilities.
pub fn failure_text(e: ResolveError) -> (r: String)
    ensures
        r@ == failure_spec(e),
{
    match e {
        ResolveError::PackageNotFound => String::from_str("version solving failed: a package or version was not found"),
        ResolveError::NoConflictRes => String::from_str("version solving failed"),
        ResolveError::ConstraintFailure => String::from_str("version solving failed: a constraint could not be complemented"),
        ResolveError::Inconsistent => String::from_str("version solving failed: inconsistent state"),
        ResolveError::TooManySteps => String::from_str("version solving failed: too many steps"),
    }
}

pub open spec fn failure_spec(e: ResolveError) -> Seq<char> {
    match e {
        ResolveError::PackageNotFound => "version solving failed: a package or version was not found"@,
        ResolveError::NoConflictRes => "version solving failed"@,
        ResolveError::ConstraintFailure => "version solving failed: a constraint could not be complemented"@,
        ResolveError::Inconsistent => "version solving failed: inconsistent state"@,
        ResolveError::TooManySteps => "version solving failed: too many steps"@,
    }
}

} // verus!

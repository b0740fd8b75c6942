//! Dependency resolution: incompatibilities, assignments, and the state that resolution keeps.
//!
//! Packages are named by their number in the retriever's table of packages.

use vstd::prelude::*;
use crate::version::{Version, VersionV};
use crate::interval::{RangeV, any_range, exact_range};
use crate::constraint::{Constraint, same_set};
use crate::text::{push_char, push_str, push_u64};

verus! {

/// Why an incompatibility holds.
#[derive(Debug, PartialEq, Eq, Structural, Copy, Clone)]
pub enum IncompatibilityCause {
    /// A package depends on another.
    Dependency,
    /// The root package was chosen.
    Root,
    /// No version of a package is available.
    Unavailable,
    /// Derived during conflict resolution from the two incompatibilities at these positions.
    Derived(usize, usize),
}

/// Why resolution failed.
#[derive(Debug, PartialEq, Eq, Structural, Copy, Clone)]
pub enum ResolveError {
    /// A package, or a version of it, is not in the indices.
    PackageNotFound,
    /// Conflict resolution found no way out.
    NoConflictRes,
    /// The complement or difference of a constraint could not be computed.
    ConstraintFailure,
    /// The state of resolution is not one that the algorithm can reach.
    Inconsistent,
    /// More steps than a step counter holds.
    TooManySteps,
}

/// A set of package terms that must not all hold: each package with a constraint. A package
/// occurs at most once.
#[derive(Debug)]
pub struct Incompatibility {
    pub deps: Vec<(usize, Constraint)>,
    pub cause: IncompatibilityCause,
}

pub struct IncompatV {
    pub deps: Seq<(usize, Seq<RangeV>)>,
    pub cause: IncompatibilityCause,
}

pub open spec fn terms_view(d: Seq<(usize, Constraint)>) -> Seq<(usize, Seq<RangeV>)> {
    d.map_values(|p: (usize, Constraint)| (p.0, p.1@))
}

impl View for Incompatibility {
    type V = IncompatV;

    open spec fn view(&self) -> IncompatV {
        IncompatV { deps: terms_view(self.deps@), cause: self.cause }
    }
}

/// Two terms as a map: where both name the same package, the second replaces the first.
pub open spec fn pair_spec(a: usize, ca: Seq<RangeV>, b: usize, cb: Seq<RangeV>) -> Seq<(usize, Seq<RangeV>)> {
    if a == b {
        seq![(a, cb)]
    } else {
        seq![(a, ca), (b, cb)]
    }
}

/// The incompatibility of a package at a version depending on a package with a constraint.
pub open spec fn from_dep_spec(a: usize, v: VersionV, b: usize, c: Seq<RangeV>) -> IncompatV {
    IncompatV { deps: pair_spec(a, seq![exact_range(v)], b, c), cause: IncompatibilityCause::Dependency }
}

/// Two terms as a map, the second replacing the first where both name the same package.
pub fn pair_deps(a: usize, ca: Constraint, b: usize, cb: Constraint) -> (r: Vec<(usize, Constraint)>)
    ensures
        terms_view(r@) == pair_spec(a, ca@, b, cb@),
{
    let mut r: Vec<(usize, Constraint)> = Vec::new();
    if a == b {
        r.push((b, cb));
    } else {
        r.push((a, ca));
        r.push((b, cb));
    }
    assert(terms_view(r@) =~= pair_spec(a, ca@, b, cb@));
    r
}

/// Whether no package occurs twice among the terms.
pub open spec fn terms_distinct(d: Seq<(usize, Seq<RangeV>)>) -> bool {
    forall|i: int, j: int| 0 <= i < j < d.len() ==> (#[trigger] d[i]).0 != (#[trigger] d[j]).0
}

/// The position of a package among the terms, or -1.
pub open spec fn term_index(d: Seq<(usize, Seq<RangeV>)>, p: usize) -> int
    decreases d.len(),
{
    if d.len() == 0 {
        -1
    } else if d.last().0 == p {
        d.len() - 1
    } else {
        term_index(d.drop_last(), p)
    }
}

impl Incompatibility {
    pub fn new(deps: Vec<(usize, Constraint)>, cause: IncompatibilityCause) -> (r: Incompatibility)
        ensures
            r@ == (IncompatV { deps: terms_view(deps@), cause }),
    {
        Incompatibility { deps, cause }
    }

    /// A package at a version depending on a package with a constraint.
    pub fn from_dep(a: (usize, Version), b: (usize, Constraint)) -> (r: Incompatibility)
        ensures
            r@ == from_dep_spec(a.0, a.1@, b.0, b.1@),
    {
        Incompatibility::new(pair_deps(a.0, Constraint::from_version(a.1), b.0, b.1), IncompatibilityCause::Dependency)
    }

    pub fn deps(&self) -> (r: &Vec<(usize, Constraint)>)
        ensures
            terms_view(r@) == self@.deps,
    {
        &self.deps
    }

    /// The two incompatibilities it was derived from, where it was derived.
    pub fn derived(&self) -> (r: Option<(usize, usize)>)
        ensures
            r == match self.cause {
                IncompatibilityCause::Derived(l, r) => Some((l, r)),
                _ => None,
            },
    {
        match self.cause {
            IncompatibilityCause::Derived(l, r) => Some((l, r)),
            _ => None,
        }
    }

    pub fn is_derived(&self) -> (r: bool)
        ensures
            r == (self.cause is Derived),
    {
        self.derived().is_some()
    }

    pub fn cause(&self) -> (r: IncompatibilityCause)
        ensures
            r == self.cause,
    {
        self.cause
    }

    pub fn copy(&self) -> (r: Incompatibility)
        ensures
            r@ == self@,
    {
        let mut deps: Vec<(usize, Constraint)> = Vec::new();
        let mut i: usize = 0;
        while i < self.deps.len()
            invariant
                i <= self.deps.len(),
                terms_view(deps@) == terms_view(self.deps@).take(i as int),
            decreases self.deps.len() - i,
        {
            let ghost b = terms_view(deps@);
            deps.push((self.deps[i].0, self.deps[i].1.copy()));
            assert(terms_view(deps@) =~= b.push(terms_view(self.deps@)[i as int]));
            assert(terms_view(self.deps@).take(i as int + 1) =~= terms_view(self.deps@).take(i as int).push(terms_view(self.deps@)[i as int]));
            i = i + 1;
        }
        assert(terms_view(self.deps@).take(self.deps.len() as int) =~= terms_view(self.deps@));
        Incompatibility { deps, cause: self.cause }
    }
}

/// How a package got its current term: decided at a version, or derived from an
/// incompatibility.
#[derive(Debug)]
pub enum AssignmentType {
    Decision { version: Version },
    Derivation { constraint: Constraint, cause: usize, positive: bool },
}

pub enum AssignmentTypeV {
    Decision { version: VersionV },
    Derivation { constraint: Seq<RangeV>, cause: usize, positive: bool },
}

/// One step of resolution: at a step and decision level, a package's term.
#[derive(Debug)]
pub struct Assignment {
    pub step: u16,
    pub level: u16,
    pub ty: AssignmentType,
    pub pkg: usize,
}

pub struct AssignmentV {
    pub step: u16,
    pub level: u16,
    pub ty: AssignmentTypeV,
    pub pkg: usize,
}

impl View for Assignment {
    type V = AssignmentV;

    open spec fn view(&self) -> AssignmentV {
        AssignmentV {
            step: self.step,
            level: self.level,
            ty: match self.ty {
                AssignmentType::Decision { version } => AssignmentTypeV::Decision { version: version@ },
                AssignmentType::Derivation { constraint, cause, positive } => AssignmentTypeV::Derivation {
                    constraint: constraint@,
                    cause,
                    positive,
                },
            },
            pkg: self.pkg,
        }
    }
}

/// The constraint an assignment puts on its package: the decided version alone, or the
/// derived constraint.
pub open spec fn assignment_constraint(a: AssignmentV) -> Seq<RangeV> {
    match a.ty {
        AssignmentTypeV::Decision { version } => seq![exact_range(version)],
        AssignmentTypeV::Derivation { constraint, .. } => constraint,
    }
}

pub open spec fn assignment_cause(a: AssignmentV) -> Option<usize> {
    match a.ty {
        AssignmentTypeV::Decision { .. } => None,
        AssignmentTypeV::Derivation { cause, .. } => Some(cause),
    }
}

pub open spec fn assignment_positive(a: AssignmentV) -> bool {
    match a.ty {
        AssignmentTypeV::Decision { .. } => false,
        AssignmentTypeV::Derivation { positive, .. } => positive,
    }
}

impl Assignment {
    pub fn new(step: u16, level: u16, pkg: usize, ty: AssignmentType) -> (r: Assignment)
        ensures
            r.step == step,
            r.level == level,
            r.pkg == pkg,
            r.ty == ty,
    {
        Assignment { step, level, ty, pkg }
    }

    pub fn ty(&self) -> (r: &AssignmentType)
        ensures
            r == self.ty,
    {
        &self.ty
    }

    pub fn pkg(&self) -> (r: usize)
        ensures
            r == self.pkg,
    {
        self.pkg
    }

    pub fn step(&self) -> (r: u16)
        ensures
            r == self.step,
    {
        self.step
    }

    pub fn level(&self) -> (r: u16)
        ensures
            r == self.level,
    {
        self.level
    }

    /// The incompatibility it was derived from, for a derivation.
    pub fn cause(&self) -> (r: Option<usize>)
        ensures
            r == assignment_cause(self@),
    {
        match &self.ty {
            AssignmentType::Decision { .. } => None,
            AssignmentType::Derivation { cause, .. } => Some(*cause),
        }
    }

    /// The constraint it puts on its package.
    pub fn constraint(&self) -> (r: Constraint)
        ensures
            r@ == assignment_constraint(self@),
    {
        match &self.ty {
            AssignmentType::Decision { version } => Constraint::from_version(version.copy()),
            AssignmentType::Derivation { constraint, .. } => constraint.copy(),
        }
    }

    /// Whether it requires its package to be chosen: a positive derivation.
    pub fn is_positive(&self) -> (r: bool)
        ensures
            r == assignment_positive(self@),
    {
        match &self.ty {
            AssignmentType::Decision { .. } => false,
            AssignmentType::Derivation { positive, .. } => *positive,
        }
    }

    pub fn copy(&self) -> (r: Assignment)
        ensures
            r@ == self@,
    {
        let ty = match &self.ty {
            AssignmentType::Decision { version } => AssignmentType::Decision { version: version.copy() },
            AssignmentType::Derivation { constraint, cause, positive } => AssignmentType::Derivation {
                constraint: constraint.copy(),
                cause: *cause,
                positive: *positive,
            },
        };
        Assignment { step: self.step, level: self.level, ty, pkg: self.pkg }
    }
}

/// The graph of dependent packages, built up as dependencies are added.
#[derive(Debug)]
pub struct PackageGraph {}

impl PackageGraph {
    pub fn new() -> (r: PackageGraph) {
        PackageGraph {}
    }
}

/// A state of resolution that can be returned to when resolution fails.
#[derive(Debug)]
pub struct Context {}

impl Context {
    pub fn new() -> (r: Context) {
        Context {}
    }
}

} // verus!

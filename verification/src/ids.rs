//! Package identifiers (a name and where it comes from), summaries (an identifier and a
//! version) and specs (a name with an optional source and version, to match summaries).

use vstd::prelude::*;
use crate::text::{push_char, push_str};
use crate::package::{Name, NameV, NameError, name_text, name_same, name_parse, first_index,
    find_char, lemma_first_index_bound};
use crate::resolution::{Resolution, ResolutionV, resolution_parse, resolution_text, resolution_eq,
    direct_res_lowkey_eq, direct_res_eq};
use crate::version::{Version, VersionV, ver_eq, version_text, semver_parse, opt_version_view};

verus! {

/// Why a package identifier or a spec was refused.
#[derive(Debug, PartialEq, Eq, Structural, Copy, Clone)]
pub enum IdError {
    /// There is no `@` between the name and the resolution.
    MissingResolution,
    InvalidName(NameError),
    InvalidResolution,
    InvalidVersion,
}

/// A package: its name and where it is resolved from.
#[derive(Debug)]
pub struct PackageId {
    name: Name,
    resolution: Resolution,
}

pub struct PackageIdV {
    pub name: NameV,
    pub resolution: ResolutionV,
}

impl View for PackageId {
    type V = PackageIdV;

    closed spec fn view(&self) -> PackageIdV {
        PackageIdV { name: self.name@, resolution: self.resolution@ }
    }
}

/// Identifier equality: the same name and the same resolution.
pub open spec fn package_id_eq(a: PackageIdV, b: PackageIdV) -> bool {
    name_same(a.name, b.name) && resolution_eq(a.resolution, b.resolution)
}

/// Loose equality, for finding a package in a lockfile.
pub open spec fn package_id_lowkey_eq(a: PackageIdV, b: PackageIdV) -> bool {
    name_same(a.name, b.name) && match (a.resolution, b.resolution) {
        (ResolutionV::Direct(d1), ResolutionV::Direct(d2)) => direct_res_lowkey_eq(d1, d2),
        (ResolutionV::Index(d1), ResolutionV::Index(d2)) => direct_res_eq(d1, d2),
        _ => false,
    }
}

pub open spec fn package_id_text(p: PackageIdV) -> Seq<char> {
    name_text(p.name) + seq!['@'] + resolution_text(p.resolution)
}

/// A text split at the first occurrence of `c`: before and after, where `c` occurs.
pub open spec fn split_first(s: Seq<char>, c: char) -> (Seq<char>, Option<Seq<char>>) {
    let k = first_index(s, c);
    if k < s.len() {
        (s.take(k), Some(s.skip(k + 1)))
    } else {
        (s, None)
    }
}

/// What `PackageId::from_str` makes of `name@resolution`.
pub open spec fn package_id_parse(s: Seq<char>) -> Result<PackageIdV, IdError> {
    let (n, rest) = split_first(s, '@');
    match rest {
        None => Err(IdError::MissingResolution),
        Some(r) => match name_parse(n) {
            Err(e) => Err(IdError::InvalidName(e)),
            Ok(name) => match resolution_parse(r) {
                None => Err(IdError::InvalidResolution),
                Some(res) => Ok(PackageIdV { name, resolution: res }),
            },
        },
    }
}

/// Splits a text at the first occurrence of `c`.
pub fn split_once(s: &str, c: char) -> (r: (String, Option<String>))
    ensures
        (r.0@, match r.1 {
            Some(t) => Some(t@),
            None => None,
        }) == split_first(s@, c),
{
    let k = find_char(s, c);
    let n = s.unicode_len();
    proof {
        lemma_first_index_bound(s@, c);
    }
    if k == n {
        assert(s@.subrange(0, n as int) =~= s@);
        (String::from_str(s.substring_char(0, n)), None)
    } else {
        assert(s@.subrange(0, k as int) =~= s@.take(k as int));
        assert(s@.subrange(k as int + 1, n as int) =~= s@.skip(k as int + 1));
        (String::from_str(s.substring_char(0, k)), Some(String::from_str(s.substring_char(k + 1, n))))
    }
}

impl PackageId {
    pub fn new(name: Name, resolution: Resolution) -> (r: PackageId)
        ensures
            r@ == (PackageIdV { name: name@, resolution: resolution@ }),
    {
        PackageId { name, resolution }
    }

    pub fn name(&self) -> (r: &Name)
        ensures
            r@ == self@.name,
    {
        &self.name
    }

    pub fn resolution(&self) -> (r: &Resolution)
        ensures
            r@ == self@.resolution,
    {
        &self.resolution
    }

    pub fn copy(&self) -> (r: PackageId)
        ensures
            r@ == self@,
    {
        PackageId { name: self.name.copy(), resolution: self.resolution.copy() }
    }

    /// Equality of identifiers.
    pub fn same(&self, other: &PackageId) -> (r: bool)
        ensures
            r == package_id_eq(self@, other@),
    {
        self.name.same(&other.name) && self.resolution.same(&other.resolution)
    }

    /// Like equality, but git sources are the same whatever the tag: for finding a package in a
    /// lockfile.
    pub fn lowkey_eq(&self, other: &PackageId) -> (r: bool)
        ensures
            r == package_id_lowkey_eq(self@, other@),
    {
        self.name.same(&other.name) && self.resolution.lowkey_eq(&other.resolution)
    }

    /// Parses `group/name@resolution`.
    pub fn from_str(s: &str) -> (r: Result<PackageId, IdError>)
        ensures
            match r {
                Ok(p) => package_id_parse(s@) == Ok::<PackageIdV, IdError>(p@),
                Err(e) => package_id_parse(s@) == Err::<PackageIdV, IdError>(e),
            },
    {
        let (n, rest) = split_once(s, '@');
        let r = match rest {
            Some(r) => r,
            None => return Err(IdError::MissingResolution),
        };
        let name = match Name::from_str(n.as_str()) {
            Ok(name) => name,
            Err(e) => return Err(IdError::InvalidName(e)),
        };
        let resolution = match Resolution::from_str(r.as_str()) {
            Ok(res) => res,
            Err(_) => return Err(IdError::InvalidResolution),
        };
        Ok(PackageId { name, resolution })
    }

    /// `group/name@resolution`.
    pub fn to_text(&self) -> (r: String)
        ensures
            r@ == package_id_text(self@),
    {
        let mut s = String::new();
        push_str(&mut s, self.name.as_str());
        push_char(&mut s, '@');
        let t = self.resolution.to_text();
        push_str(&mut s, t.as_str());
        s
    }
}

/// A package at a version.
#[derive(Debug)]
pub struct Summary {
    pub id: PackageId,
    pub version: Version,
}

pub open spec fn summary_text(id: PackageIdV, v: VersionV) -> Seq<char> {
    name_text(id.name) + seq![' '] + version_text(v) + seq![' ', '('] + resolution_text(id.resolution)
        + seq![')']
}

impl Summary {
    pub fn new(id: PackageId, version: Version) -> (r: Summary)
        ensures
            r.id@ == id@,
            r.version@ == version@,
    {
        Summary { id, version }
    }

    pub fn from_comps(name: Name, res: Resolution, version: Version) -> (r: Summary)
        ensures
            r.id@ == (PackageIdV { name: name@, resolution: res@ }),
            r.version@ == version@,
    {
        Summary::new(PackageId::new(name, res), version)
    }

    pub fn id(&self) -> (r: &PackageId)
        ensures
            r@ == self.id@,
    {
        &self.id
    }

    pub fn name(&self) -> (r: &Name)
        ensures
            r@ == self.id@.name,
    {
        self.id.name()
    }

    pub fn resolution(&self) -> (r: &Resolution)
        ensures
            r@ == self.id@.resolution,
    {
        self.id.resolution()
    }

    pub fn version(&self) -> (r: &Version)
        ensures
            r@ == self.version@,
    {
        &self.version
    }

    /// `group/name version (resolution)`.
    pub fn to_text(&self) -> (r: String)
        ensures
            r@ == summary_text(self.id@, self.version@),
    {
        let mut s = String::new();
        push_str(&mut s, self.id.name.as_str());
        push_char(&mut s, ' ');
        let v = self.version.to_text();
        push_str(&mut s, v.as_str());
        push_char(&mut s, ' ');
        push_char(&mut s, '(');
        let t = self.id.resolution.to_text();
        push_str(&mut s, t.as_str());
        push_char(&mut s, ')');
        s
    }
}

/// A name, with the resolution and the version that a summary must have where they are given.
#[derive(Debug)]
pub struct Spec {
    pub name: Name,
    pub resolution: Option<Resolution>,
    pub version: Option<Version>,
}

/// Whether a spec matches a summary.
pub open spec fn spec_matches(
    name: NameV,
    res: Option<ResolutionV>,
    ver: Option<VersionV>,
    id: PackageIdV,
    v: VersionV,
) -> bool {
    &&& name_same(name, id.name)
    &&& match res {
        Some(r) => resolution_eq(r, id.resolution),
        None => true,
    }
    &&& match ver {
        Some(w) => ver_eq(w, v),
        None => true,
    }
}

pub open spec fn opt_res_view(r: Option<Resolution>) -> Option<ResolutionV> {
    match r {
        Some(x) => Some(x@),
        None => None,
    }
}

/// What `Spec::from_str` makes of `name[@resolution][|version]`: the version is read first.
pub open spec fn spec_parse(s: Seq<char>) -> Result<(NameV, Option<ResolutionV>, Option<VersionV>), IdError> {
    let (pre, ver) = split_first(s, '|');
    let version = match ver {
        Some(v) => match semver_parse(v) {
            Some(x) => Ok(Some(x)),
            None => Err(IdError::InvalidVersion),
        },
        None => Ok(None),
    };
    match version {
        Err(e) => Err(e),
        Ok(version) => {
            let (n, res) = split_first(pre, '@');
            match name_parse(n) {
                Err(e) => Err(IdError::InvalidName(e)),
                Ok(name) => match res {
                    None => Ok((name, None, version)),
                    Some(r) => match resolution_parse(r) {
                        None => Err(IdError::InvalidResolution),
                        Some(x) => Ok((name, Some(x), version)),
                    },
                },
            }
        },
    }
}

impl Spec {
    /// A spec of a name alone.
    pub fn from_name(name: Name) -> (r: Spec)
        ensures
            r.name@ == name@,
            r.resolution is None,
            r.version is None,
    {
        Spec { name, resolution: None, version: None }
    }

    /// Whether a summary has this name and, where given, this resolution and this version.
    pub fn matches(&self, sum: &Summary) -> (r: bool)
        ensures
            r == spec_matches(
                self.name@,
                opt_res_view(self.resolution),
                opt_version_view(self.version),
                sum.id@,
                sum.version@,
            ),
    {
        if !self.name.same(sum.name()) {
            return false;
        }
        match &self.resolution {
            Some(res) => {
                if !res.same(sum.resolution()) {
                    return false;
                }
            },
            None => {},
        }
        match &self.version {
            Some(ver) => {
                if !ver.same(sum.version()) {
                    return false;
                }
            },
            None => {},
        }
        true
    }

    /// Parses `group/name`, optionally followed by `@resolution`, then by `|version`.
    pub fn from_str(s: &str) -> (r: Result<Spec, IdError>)
        ensures
            match r {
                Ok(x) => spec_parse(s@) == Ok::<_, IdError>(
                    (x.name@, opt_res_view(x.resolution), opt_version_view(x.version)),
                ),
                Err(e) => spec_parse(s@) == Err::<(NameV, Option<ResolutionV>, Option<VersionV>), IdError>(e),
            },
    {
        let (pre, ver) = split_once(s, '|');
        let version = match ver {
            Some(v) => match Version::parse(v.as_str()) {
                Ok(x) => Some(x),
                Err(_) => return Err(IdError::InvalidVersion),
            },
            None => None,
        };
        let (n, res) = split_once(pre.as_str(), '@');
        let name = match Name::from_str(n.as_str()) {
            Ok(x) => x,
            Err(e) => return Err(IdError::InvalidName(e)),
        };
        let resolution = match res {
            Some(r) => match Resolution::from_str(r.as_str()) {
                Ok(x) => Some(x),
                Err(_) => return Err(IdError::InvalidResolution),
            },
            None => None,
        };
        Ok(Spec { name, resolution, version })
    }
}

} // verus!

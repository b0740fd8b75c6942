//! The package manifest: package information and its checks, dependency requirements, and the
//! library, binary and test targets, with how a binary's main module is found on disk.

use vstd::prelude::*;
use crate::text::{push_char, push_str};
use crate::package::{Name, NameV, NameError, name_result};
use crate::version::{Version, VersionV, version_text};
use crate::constraint::Constraint;
use crate::builds::Target;
use crate::interval::{RangeV, any_range};
use crate::ids::{PackageId, PackageIdV, package_id_eq};
use crate::resolution::{DirectRes, DirectResV, IndexRes, Resolution, ResolutionV, index_res_parse, path_eq, str_eq};
use crate::ipkg::{Ipkg, IpkgV, strings_view};
use crate::paths::{join, with_extension, extension, parent, file_name, is_absolute, has_parent_dir,
    path_join, path_with_extension, path_extension, path_parent, path_file_name, path_is_absolute,
    path_has_parent_dir};

verus! {

// ---------------------------------------------------------------------------------------
// Defaults.

/// The branch of a git dependency when none is given.
pub fn default_tag() -> (r: String)
    ensures
        r@ == "master"@,
{
    String::from_str("master")
}

/// Where a library's sources are when no path is given.
pub fn default_lib_subpath() -> (r: String)
    ensures
        r@ == "src"@,
{
    String::from_str("src")
}

/// Where a binary's sources are when no path is given.
pub fn default_bin_subpath() -> (r: String)
    ensures
        r@ == "src"@,
{
    String::from_str("src")
}

/// Where a test's sources are when no path is given.
pub fn default_test_subpath() -> (r: String)
    ensures
        r@ == "tests"@,
{
    String::from_str("tests")
}


// ---------------------------------------------------------------------------------------
// Package information and its checks.

/// Whether a character has Unicode's White_Space property (what `char::is_whitespace`
/// answers): tab to carriage return, space, next line, no-break space, ogham space mark, the
/// spaces from en quad to hair space, line and paragraph separators, narrow no-break space,
/// medium mathematical space and ideographic space.
pub open spec fn unicode_whitespace(c: char) -> bool {
    let u = c as u32;
    (0x9 <= u && u <= 0xD) || u == 0x20 || u == 0x85 || u == 0xA0 || u == 0x1680 || (0x2000 <= u
        && u <= 0x200A) || u == 0x2028 || u == 0x2029 || u == 0x202F || u == 0x205F || u == 0x3000
}

fn char_is_whitespace(c: char) -> (r: bool)
    ensures
        r == unicode_whitespace(c),
{
    let u = c as u32;
    (0x9 <= u && u <= 0xD) || u == 0x20 || u == 0x85 || u == 0xA0 || u == 0x1680 || (0x2000 <= u
        && u <= 0x200A) || u == 0x2028 || u == 0x2029 || u == 0x202F || u == 0x205F || u == 0x3000
}

/// Whether every character is white space: what `str::trim` leaves empty.
pub open spec fn all_whitespace(s: Seq<char>) -> bool {
    forall|i: int| 0 <= i < s.len() ==> unicode_whitespace(#[trigger] s[i])
}

/// The number of words: runs of characters that are not white space.
pub open spec fn word_count(s: Seq<char>) -> nat
    decreases s.len(),
{
    if s.len() == 0 {
        0
    } else {
        let p = word_count(s.drop_last());
        if !unicode_whitespace(s.last()) && (s.len() == 1 || unicode_whitespace(s[s.len() - 2])) {
            p + 1
        } else {
            p
        }
    }
}

/// The number of bytes of a character in UTF-8, as `char::len_utf8` documents it.
pub open spec fn utf8_width(c: char) -> nat {
    if (c as u32) < 0x80 {
        1
    } else if (c as u32) < 0x800 {
        2
    } else if (c as u32) < 0x10000 {
        3
    } else {
        4
    }
}

/// The length of a text in bytes, in UTF-8: what `str::len` gives.
pub open spec fn byte_len(s: Seq<char>) -> nat
    decreases s.len(),
{
    if s.len() == 0 {
        0
    } else {
        byte_len(s.drop_last()) + utf8_width(s.last())
    }
}

/// Whether a text is longer than `limit` bytes in UTF-8.
fn longer_than(s: &str, limit: usize) -> (r: bool)
    requires
        limit < 1000,
    ensures
        r == (byte_len(s@) > limit),
{
    let n = s.unicode_len();
    let mut total: usize = 0;
    let mut i: usize = 0;
    while i < n
        invariant
            n == s@.len(),
            i <= n,
            total == byte_len(s@.take(i as int)),
            total <= limit,
            limit < 1000,
        decreases n - i,
    {
        let c = s.get_char(i);
        let w: usize = if (c as u32) < 0x80 { 1 } else if (c as u32) < 0x800 { 2 } else if (c as u32) < 0x10000 { 3 } else { 4 };
        assert(s@.take(i as int + 1).drop_last() =~= s@.take(i as int));
        assert(s@.take(i as int + 1).last() == c);
        total = total + w;
        if total > limit {
            proof {
                lemma_byte_len_prefix(s@, i as int + 1);
            }
            return true;
        }
        i = i + 1;
    }
    assert(s@.take(n as int) =~= s@);
    false
}

/// A text is at least as long in bytes as any of its prefixes.
proof fn lemma_byte_len_prefix(s: Seq<char>, k: int)
    requires
        0 <= k <= s.len(),
    ensures
        byte_len(s) >= byte_len(s.take(k)),
    decreases s.len() - k,
{
    if k < s.len() {
        lemma_byte_len_prefix(s, k + 1);
        assert(s.take(k + 1).drop_last() =~= s.take(k));
    } else {
        assert(s.take(k) =~= s);
    }
}

/// What a manifest describes of its package.
#[derive(Debug)]
pub struct PackageInfo {
    pub name: Name,
    pub version: Version,
    pub authors: Vec<String>,
    pub description: Option<String>,
    pub keywords: Vec<String>,
    pub homepage: Option<String>,
    pub repository: Option<String>,
    pub readme: Option<String>,
    pub license: Option<String>,
    pub exclude: Option<Vec<String>>,
}

/// Why a manifest was refused.
#[derive(Debug, PartialEq, Eq, Structural, Copy, Clone)]
pub enum ManifestError {
    /// The description is over 244 bytes.
    DescriptionTooLong,
    /// The license is over 20 bytes.
    LicenseTooLong,
    /// More than five keywords.
    TooManyKeywords,
    /// A keyword is empty or white space only.
    EmptyKeyword,
    /// A keyword holds more than one word.
    KeywordWhitespace,
}

/// The checks of a manifest's package information, in order.
pub open spec fn validate_spec(
    description: Option<Seq<char>>,
    license: Option<Seq<char>>,
    keywords: Seq<Seq<char>>,
) -> Result<(), ManifestError> {
    if description matches Some(d) && byte_len(d) > 244 {
        Err(ManifestError::DescriptionTooLong)
    } else if license matches Some(l) && byte_len(l) > 20 {
        Err(ManifestError::LicenseTooLong)
    } else if keywords.len() > 5 {
        Err(ManifestError::TooManyKeywords)
    } else if exists|i: int| 0 <= i < keywords.len() && all_whitespace(#[trigger] keywords[i]) {
        Err(ManifestError::EmptyKeyword)
    } else if exists|i: int| 0 <= i < keywords.len() && word_count(#[trigger] keywords[i]) >= 2 {
        Err(ManifestError::KeywordWhitespace)
    } else {
        Ok(())
    }
}

fn is_blank(s: &str) -> (r: bool)
    ensures
        r == all_whitespace(s@),
{
    let n = s.unicode_len();
    let mut i: usize = 0;
    while i < n
        invariant
            n == s@.len(),
            i <= n,
            forall|j: int| 0 <= j < i ==> unicode_whitespace(#[trigger] s@[j]),
        decreases n - i,
    {
        if !char_is_whitespace(s.get_char(i)) {
            return false;
        }
        i = i + 1;
    }
    true
}

fn has_two_words(s: &str) -> (r: bool)
    ensures
        r == (word_count(s@) >= 2),
{
    let n = s.unicode_len();
    let mut count: usize = 0;
    let mut prev_ws = true;
    let mut i: usize = 0;
    while i < n
        invariant
            n == s@.len(),
            i <= n,
            count == word_count(s@.take(i as int)),
            count <= i,
            prev_ws == (i == 0 || unicode_whitespace(s@[i - 1])),
        decreases n - i,
    {
        let c = s.get_char(i);
        let ws = char_is_whitespace(c);
        assert(s@.take(i as int + 1).drop_last() =~= s@.take(i as int));
        assert(s@.take(i as int + 1).last() == c);
        if i > 0 {
            assert(s@.take(i as int + 1)[i - 1] == s@[i - 1]);
        }
        if !ws && prev_ws {
            count = count + 1;
        }
        prev_ws = ws;
        i = i + 1;
    }
    assert(s@.take(n as int) =~= s@);
    count >= 2
}

impl PackageInfo {
    /// Checks the description's and license's lengths and the keywords.
    pub fn validate(&self) -> (r: Result<(), ManifestError>)
        ensures
            r == validate_spec(
                crate::ipkg::opt_view(self.description),
                crate::ipkg::opt_view(self.license),
                strings_view(self.keywords@),
            ),
    {
        match &self.description {
            Some(d) => {
                if longer_than(d.as_str(), 244) {
                    return Err(ManifestError::DescriptionTooLong);
                }
            },
            None => {},
        }
        match &self.license {
            Some(l) => {
                if longer_than(l.as_str(), 20) {
                    return Err(ManifestError::LicenseTooLong);
                }
            },
            None => {},
        }
        if self.keywords.len() > 5 {
            return Err(ManifestError::TooManyKeywords);
        }
        let ghost kw = strings_view(self.keywords@);
        let mut i: usize = 0;
        while i < self.keywords.len()
            invariant
                i <= self.keywords@.len(),
                kw == strings_view(self.keywords@),
                kw.len() <= 5,
                !(crate::ipkg::opt_view(self.description) matches Some(d) && byte_len(d) > 244),
                !(crate::ipkg::opt_view(self.license) matches Some(l) && byte_len(l) > 20),
                forall|j: int| 0 <= j < i ==> !all_whitespace(#[trigger] kw[j]),
            decreases self.keywords@.len() - i,
        {
            if is_blank(self.keywords[i].as_str()) {
                assert(all_whitespace(kw[i as int]));
                return Err(ManifestError::EmptyKeyword);
            }
            i = i + 1;
        }
        let mut i: usize = 0;
        while i < self.keywords.len()
            invariant
                i <= self.keywords@.len(),
                kw == strings_view(self.keywords@),
                kw.len() <= 5,
                !(crate::ipkg::opt_view(self.description) matches Some(d) && byte_len(d) > 244),
                !(crate::ipkg::opt_view(self.license) matches Some(l) && byte_len(l) > 20),
                forall|j: int| 0 <= j < kw.len() ==> !all_whitespace(#[trigger] kw[j]),
                forall|j: int| 0 <= j < i ==> word_count(#[trigger] kw[j]) < 2,
            decreases self.keywords@.len() - i,
        {
            if has_two_words(self.keywords[i].as_str()) {
                assert(word_count(kw[i as int]) >= 2);
                return Err(ManifestError::KeywordWhitespace);
            }
            i = i + 1;
        }
        Ok(())
    }
}

// ---------------------------------------------------------------------------------------
// Dependency requirements.

/// A dependency as a manifest writes it.
#[derive(Debug)]
pub enum DepReq {
    /// A constraint on the package in the default index.
    Registry(Constraint),
    /// A constraint on the package in a named index (a name the manifest maps, or a source).
    RegLong { version: Constraint, index: String },
    /// A directory, relative to the depending package's own directory.
    Local { path: String },
    /// A git repository at a tag.
    Git { git: String, tag: String },
}

/// Why a dependency requirement could not be resolved.
#[derive(Debug, PartialEq, Eq, Structural, Copy, Clone)]
pub enum DepError {
    /// No index is configured to stand as the default.
    NoDefaultIndex,
    /// The index is neither a configured name nor a valid index source.
    InvalidIndex,
    /// A local dependency of a package that is not itself local.
    NonLocalParent,
}

/// The first position from `i` on of an index configured under `name`, or the length.
pub open spec fn index_named_from(ixmap: Seq<(String, IndexRes)>, name: Seq<char>, i: int) -> int
    decreases ixmap.len() - i,
{
    if i >= ixmap.len() {
        ixmap.len() as int
    } else if ixmap[i].0@ == name {
        i
    } else {
        index_named_from(ixmap, name, i + 1)
    }
}

/// The package and constraint that a requirement stands for, or why it has none.
pub open spec fn dep_result(
    req: DepReq,
    ixmap: Seq<(String, IndexRes)>,
    parent: PackageIdV,
    n: NameV,
) -> Result<(PackageIdV, Seq<RangeV>), DepError> {
    match req {
        DepReq::Registry(c) => if ixmap.len() == 0 {
            Err(DepError::NoDefaultIndex)
        } else {
            Ok((PackageIdV { name: n, resolution: ResolutionV::Index(ixmap[0].1.res@) }, c@))
        },
        DepReq::RegLong { version, index } => {
            let k = index_named_from(ixmap, index@, 0);
            if k < ixmap.len() {
                Ok((PackageIdV { name: n, resolution: ResolutionV::Index(ixmap[k].1.res@) }, version@))
            } else {
                match index_res_parse(index@) {
                    Some(d) => Ok((PackageIdV { name: n, resolution: ResolutionV::Index(d) }, version@)),
                    None => Err(DepError::InvalidIndex),
                }
            }
        },
        DepReq::Local { path } => match parent.resolution {
            ResolutionV::Direct(DirectResV::Dir { path: root }) => Ok((
                PackageIdV {
                    name: n,
                    resolution: ResolutionV::Direct(DirectResV::Dir { path: path_join(root, path@) }),
                },
                seq![any_range()],
            )),
            _ => Err(DepError::NonLocalParent),
        },
        DepReq::Git { git, tag } => Ok((
            PackageIdV { name: n, resolution: ResolutionV::Direct(DirectResV::Git { repo: git@, tag: tag@ }) },
            seq![any_range()],
        )),
    }
}

pub open spec fn dep_view(r: Result<(PackageId, Constraint), DepError>) -> Result<(PackageIdV, Seq<RangeV>), DepError> {
    match r {
        Ok((p, c)) => Ok((p@, c@)),
        Err(e) => Err(e),
    }
}

impl DepReq {
    /// The package that the requirement names, with its constraint: an index's package with
    /// the constraint, or a directory's or repository's package with any version.
    pub fn into_dep(self, ixmap: &Vec<(String, IndexRes)>, parent_pkg: &PackageId, n: Name) -> (r: Result<(PackageId, Constraint), DepError>)
        ensures
            dep_view(r) == dep_result(self, ixmap@, parent_pkg@, n@),
    {
        match self {
            DepReq::Registry(c) => {
                if ixmap.len() == 0 {
                    return Err(DepError::NoDefaultIndex);
                }
                let pi = PackageId::new(n, Resolution::Index(ixmap[0].1.copy()));
                Ok((pi, c))
            },
            DepReq::RegLong { version, index } => {
                match find_index(ixmap, index.as_str()) {
                    Some(i) => {
                        let pi = PackageId::new(n, Resolution::Index(ixmap[i].1.copy()));
                        return Ok((pi, version));
                    },
                    None => {},
                }
                match IndexRes::from_str(index.as_str()) {
                    Ok(ix) => {
                        let pi = PackageId::new(n, Resolution::Index(ix));
                        Ok((pi, version))
                    },
                    Err(_) => Err(DepError::InvalidIndex),
                }
            },
            DepReq::Local { path } => {
                match parent_pkg.resolution() {
                    Resolution::Direct(DirectRes::Dir { path: parent_root }) => {
                        let res = DirectRes::Dir { path: crate::paths::join(parent_root.as_str(), path.as_str()) };
                        let pi = PackageId::new(n, Resolution::Direct(res));
                        Ok((pi, Constraint::any()))
                    },
                    _ => Err(DepError::NonLocalParent),
                }
            },
            DepReq::Git { git, tag } => {
                let res = DirectRes::Git { repo: git, tag };
                let pi = PackageId::new(n, Resolution::Direct(res));
                Ok((pi, Constraint::any()))
            },
        }
    }
}

/// The position of the index configured under a name.
fn find_index(ixmap: &Vec<(String, IndexRes)>, name: &str) -> (r: Option<usize>)
    ensures
        match r {
            Some(i) => i == index_named_from(ixmap@, name@, 0) && i < ixmap@.len(),
            None => index_named_from(ixmap@, name@, 0) == ixmap@.len(),
        },
{
    let mut i: usize = 0;
    while i < ixmap.len()
        invariant
            i <= ixmap@.len(),
            index_named_from(ixmap@, name@, 0) == index_named_from(ixmap@, name@, i as int),
        decreases ixmap@.len() - i,
    {
        if str_eq(ixmap[i].0.as_str(), name) {
            return Some(i);
        }
        i = i + 1;
    }
    None
}

// ---------------------------------------------------------------------------------------
// Targets.

/// A library target.
#[derive(Debug)]
pub struct LibTarget {
    pub path: String,
    pub mods: Vec<String>,
    pub idris_opts: Vec<String>,
}

/// A binary target.
#[derive(Debug)]
pub struct BinTarget {
    pub name: String,
    pub path: String,
    pub main: String,
    pub idris_opts: Vec<String>,
}

/// A test target: a binary whose name may be left out, with `tests` as its default path.
#[derive(Debug)]
pub struct TestTarget {
    pub name: Option<String>,
    pub path: String,
    pub main: String,
    pub idris_opts: Vec<String>,
}

/// The text with every trailing occurrence of `pat` removed.
pub open spec fn trim_end_all(s: Seq<char>, pat: Seq<char>) -> Seq<char>
    decreases s.len(),
{
    if pat.len() > 0 && s.len() >= pat.len() && s.skip(s.len() - pat.len()) == pat {
        trim_end_all(s.take(s.len() - pat.len()), pat)
    } else {
        s
    }
}

/// `/` and `.` turned into `_`.
pub open spec fn underscore_char(c: char) -> char {
    if c == '/' || c == '.' {
        '_'
    } else {
        c
    }
}

/// The name of a test binary whose name is left out: `test-` and its main file, without
/// `.idr` or `.lidr` ends, with slashes and dots turned into underscores.
pub open spec fn default_test_name(main: Seq<char>) -> Seq<char> {
    trim_end_all(trim_end_all("test-"@ + main, ".idr"@), ".lidr"@).map_values(|c: char| underscore_char(c))
}

fn ends_with(s: &Vec<char>, n: usize, pat: &str) -> (r: bool)
    requires
        n <= s.len(),
    ensures
        r == (pat@.len() > 0 && n >= pat@.len() && s@.take(n as int).skip(n - pat@.len()) == pat@),
{
    let m = pat.unicode_len();
    if m == 0 || n < m {
        return false;
    }
    let mut i: usize = 0;
    while i < m
        invariant
            m == pat@.len(),
            0 < m <= n <= s.len(),
            i <= m,
            forall|j: int| 0 <= j < i ==> s@[n - m + j] == pat@[j],
        decreases m - i,
    {
        if s[n - m + i] != pat.get_char(i) {
            assert(s@.take(n as int).skip(n - m)[i as int] == s@[n - m + i]);
            return false;
        }
        i = i + 1;
    }
    assert(s@.take(n as int).skip(n - m) =~= pat@);
    true
}

/// The length of `s[..n]` once every trailing `pat` is removed.
fn trim_end_len(s: &Vec<char>, n: usize, pat: &str) -> (r: usize)
    requires
        n <= s.len(),
    ensures
        r <= n,
        s@.take(r as int) == trim_end_all(s@.take(n as int), pat@),
    decreases n,
{
    if ends_with(s, n, pat) {
        let m = pat.unicode_len();
        assert(s@.take(n as int).take(n - m) =~= s@.take(n - m));
        trim_end_len(s, n - m, pat)
    } else {
        n
    }
}

impl BinTarget {
    /// The binary target that a test target stands for; a test without a name is named after
    /// its main file.
    pub fn from_test(t: TestTarget) -> (r: BinTarget)
        ensures
            r.name@ == match t.name {
                Some(n) => n@,
                None => default_test_name(t.main@),
            },
            r.path@ == t.path@,
            r.main@ == t.main@,
            r.idris_opts@ == t.idris_opts@,
    {
        let name = match t.name {
            Some(n) => n,
            None => {
                let mut full: Vec<char> = Vec::new();
                full.push('t');
                full.push('e');
                full.push('s');
                full.push('t');
                full.push('-');
                let m = crate::text::str_chars(t.main.as_str());
                proof {
                    reveal_strlit("test-");
                    assert(full@ =~= "test-"@ + m@.take(0));
                }
                let mut i: usize = 0;
                while i < m.len()
                    invariant
                        i <= m.len(),
                        full@ == "test-"@ + m@.take(i as int),
                    decreases m.len() - i,
                {
                    proof {
                        reveal_strlit("test-");
                    }
                    full.push(m[i]);
                    assert(m@.take(i as int + 1) =~= m@.take(i as int).push(m@[i as int]));
                    i = i + 1;
                }
                proof {
                    reveal_strlit("test-");
                }
                assert(m@.take(m.len() as int) =~= m@);
                assert(full@.take(full.len() as int) =~= full@);
                let k1 = trim_end_len(&full, full.len(), ".idr");
                let k2 = trim_end_len(&full, k1, ".lidr");
                assert(full@.take(k1 as int).take(k1 as int) =~= full@.take(k1 as int));
                let mut out = String::new();
                let mut j: usize = 0;
                while j < k2
                    invariant
                        j <= k2 <= full.len(),
                        out@ == full@.take(k2 as int).take(j as int).map_values(|c: char| underscore_char(c)),
                    decreases k2 - j,
                {
                    let c = full[j];
                    let d = if c == '/' || c == '.' { '_' } else { c };
                    push_char(&mut out, d);
                    assert(full@.take(k2 as int).take(j as int + 1) =~= full@.take(k2 as int).take(j as int).push(c));
                    assert(out@ =~= full@.take(k2 as int).take(j as int + 1).map_values(|c: char| underscore_char(c)));
                    j = j + 1;
                }
                assert(full@.take(k2 as int).take(k2 as int) =~= full@.take(k2 as int));
                out
            },
        };
        BinTarget { name, path: t.path, main: t.main, idris_opts: t.idris_opts }
    }
}

// ---------------------------------------------------------------------------------------
// Finding a binary's main module.

/// A place where a binary's main module may be: the file to look for, and the source directory
/// and target path that it gives (`None` where the path has no parent or no file name).
#[derive(Debug)]
pub struct BinCandidate {
    pub file: String,
    pub found: Option<(String, String)>,
}

pub open spec fn candidate_view(c: BinCandidate) -> (Seq<char>, Option<(Seq<char>, Seq<char>)>) {
    (c.file@, match c.found {
        Some((a, b)) => Some((a@, b@)),
        None => None,
    })
}

pub open spec fn candidates_view(s: Seq<BinCandidate>) -> Seq<(Seq<char>, Option<(Seq<char>, Seq<char>)>)> {
    s.map_values(|c: BinCandidate| candidate_view(c))
}

/// A target path taken apart into its directory and its file name.
pub open spec fn split_target(t: Seq<char>) -> Option<(Seq<char>, Seq<char>)> {
    match (path_parent(t), path_file_name(t)) {
        (Some(p), Some(f)) => Some((p, f)),
        _ => None,
    }
}

/// A main path that stays inside the package: relative, without `..`.
pub open spec fn is_sub_path(p: Seq<char>) -> bool {
    !path_is_absolute(p) && !path_has_parent_dir(p)
}

/// The candidates where the main path names a file under the parent directory.
pub open spec fn direct_candidates(parent: Seq<char>, main: Seq<char>) -> Seq<(Seq<char>, Option<(Seq<char>, Seq<char>)>)> {
    if is_sub_path(main) {
        let base = path_join(parent, main);
        let idr = path_with_extension(base, "idr"@);
        let lidr = path_with_extension(base, "lidr"@);
        let no_ext = path_extension(main) is None;
        seq![
            (idr, split_target(if no_ext { idr } else { base })),
            (lidr, split_target(if no_ext { lidr } else { base })),
        ]
    } else {
        seq![]
    }
}

/// The text without leading and trailing dots.
pub open spec fn trim_dots(s: Seq<char>) -> Seq<char>
    decreases s.len(),
{
    if s.len() > 0 && s[0] == '.' {
        trim_dots(s.drop_first())
    } else if s.len() > 0 && s.last() == '.' {
        trim_dots(s.drop_last())
    } else {
        s
    }
}

/// Index of the last `.`, or -1.
pub open spec fn last_dot(s: Seq<char>) -> int
    decreases s.len(),
{
    if s.len() == 0 {
        -1
    } else if s.last() == '.' {
        s.len() - 1
    } else {
        last_dot(s.drop_last())
    }
}

/// The text split at its last dot: what follows it, and what precedes it where there is one.
pub open spec fn rsplit_dot(s: Seq<char>) -> (Seq<char>, Option<Seq<char>>) {
    let k = last_dot(s);
    if k < 0 {
        (s, None)
    } else {
        (s.skip(k + 1), Some(s.take(k)))
    }
}

/// The main module's name split into its last part (with its `.idr` or `.lidr` extension) and
/// the module path before it.
pub open spec fn main_parts(main: Seq<char>) -> (Seq<char>, Option<Seq<char>>) {
    let (after, rest) = rsplit_dot(trim_dots(main));
    if after == "lidr"@ || after == "idr"@ {
        match rest {
            Some(before) => {
                let (fpart, b) = rsplit_dot(before);
                (fpart + seq!['.'] + after, b)
            },
            None => (after, None),
        }
    } else {
        (after, rest)
    }
}

pub open spec fn slash_char(c: char) -> char {
    if c == '.' {
        '/'
    } else {
        c
    }
}

/// The candidates found from the main module's name under the target's source directory.
pub open spec fn module_candidates(parent: Seq<char>, path: Seq<char>, main: Seq<char>) -> Seq<(Seq<char>, Option<(Seq<char>, Seq<char>)>)> {
    let src = path_join(parent, path);
    let (after, before) = main_parts(main);
    match before {
        Some(b) => {
            let tp = b.map_values(|c: char| slash_char(c));
            let whole = path_join(path_join(src, tp), after);
            let as_module = seq![
                (path_with_extension(whole, "idr"@), Some((src, path_with_extension(path_join(tp, after), "idr"@)))),
                (path_with_extension(whole, "lidr"@), Some((src, path_with_extension(path_join(tp, after), "lidr"@)))),
            ];
            // The last part names a function of the module only where it can be an extension.
            if crate::paths::no_separator(after) {
                as_module + seq![
                    (path_with_extension(path_join(src, tp), "idr"@), Some((src, path_with_extension(tp, after)))),
                    (path_with_extension(path_join(src, tp), "lidr"@), Some((src, path_with_extension(tp, after)))),
                ]
            } else {
                as_module
            }
        },
        None => seq![
            (path_with_extension(path_join(src, after), "idr"@), Some((src, path_with_extension(after, "idr"@)))),
            (path_with_extension(path_join(src, after), "lidr"@), Some((src, path_with_extension(after, "lidr"@)))),
        ],
    }
}

/// Every place where a binary's main module may be, in the order in which they are tried.
pub open spec fn bin_candidates_spec(parent: Seq<char>, path: Seq<char>, main: Seq<char>) -> Seq<(Seq<char>, Option<(Seq<char>, Seq<char>)>)> {
    direct_candidates(parent, main) + module_candidates(parent, path, main)
}

/// The first position from `i` on, below `len`, that `exists` marks as found.
pub open spec fn first_found_from(len: int, exists: Seq<bool>, i: int) -> Option<int>
    decreases len - i,
{
    if i >= len {
        None
    } else if 0 <= i < exists.len() && exists[i] {
        Some(i)
    } else {
        first_found_from(len, exists, i + 1)
    }
}

/// The first candidate whose file exists.
pub open spec fn first_found(c: Seq<(Seq<char>, Option<(Seq<char>, Seq<char>)>)>, exists: Seq<bool>) -> Option<int> {
    first_found_from(c.len() as int, exists, 0)
}

proof fn lemma_first_found_from(len: int, exists: Seq<bool>, i: int)
    requires
        0 <= i,
    ensures
        match first_found_from(len, exists, i) {
            Some(j) => i <= j < len,
            None => true,
        },
    decreases len - i,
{
    if i < len && !(i < exists.len() && exists[i]) {
        lemma_first_found_from(len, exists, i + 1);
    }
}

fn split_target_exec(t: &str) -> (r: Option<(String, String)>)
    ensures
        match r {
            Some((a, b)) => split_target(t@) == Some((a@, b@)),
            None => split_target(t@) is None,
        },
{
    match (parent(t), file_name(t)) {
        (Some(p), Some(f)) => Some((p, f)),
        _ => None,
    }
}

/// Splits at the last dot.
fn rsplit_dot_exec(s: &Vec<char>) -> (r: (Vec<char>, Option<Vec<char>>))
    ensures
        (r.0@, match r.1 {
            Some(b) => Some(b@),
            None => None,
        }) == rsplit_dot(s@),
{
    let mut k: usize = s.len();
    assert(s@.take(s.len() as int) =~= s@);
    while k > 0 && s[k - 1] != '.'
        invariant
            k <= s.len(),
            forall|j: int| k <= j < s.len() ==> s@[j] != '.',
            last_dot(s@) == last_dot(s@.take(k as int)),
        decreases k,
    {
        assert(s@.take(k as int).drop_last() =~= s@.take(k as int - 1));
        k = k - 1;
    }
    proof {
        if k > 0 {
            assert(s@.take(k as int).last() == '.');
        } else {
            assert(s@.take(0) =~= Seq::<char>::empty());
        }
        assert(s@.take(s.len() as int) =~= s@);
    }
    if k == 0 {
        (s.clone(), None)
    } else {
        let mut after: Vec<char> = Vec::new();
        let mut j: usize = k;
        while j < s.len()
            invariant
                0 < k <= j <= s.len(),
                after@ == s@.subrange(k as int, j as int),
            decreases s.len() - j,
        {
            after.push(s[j]);
            assert(s@.subrange(k as int, j as int + 1) =~= s@.subrange(k as int, j as int).push(s@[j as int]));
            j = j + 1;
        }
        let mut before: Vec<char> = Vec::new();
        let mut j: usize = 0;
        while j < k - 1
            invariant
                0 < k <= s.len(),
                j <= k - 1,
                before@ == s@.take(j as int),
            decreases k - 1 - j,
        {
            before.push(s[j]);
            assert(s@.take(j as int + 1) =~= s@.take(j as int).push(s@[j as int]));
            j = j + 1;
        }
        assert(after@ =~= s@.skip(k as int));
        (after, Some(before))
    }
}

pub(crate) fn trim_dots_exec(s: &Vec<char>) -> (r: Vec<char>)
    ensures
        r@ == trim_dots(s@),
{
    let mut a: usize = 0;
    let mut b: usize = s.len();
    assert(s@.subrange(0, s.len() as int) =~= s@);
    while a < b && (s[a] == '.' || s[b - 1] == '.')
        invariant
            a <= b <= s.len(),
            trim_dots(s@) == trim_dots(s@.subrange(a as int, b as int)),
        decreases b - a,
    {
        let ghost t = s@.subrange(a as int, b as int);
        if s[a] == '.' {
            assert(t.drop_first() =~= s@.subrange(a as int + 1, b as int));
            a = a + 1;
        } else {
            assert(t[0] != '.');
            assert(t.drop_last() =~= s@.subrange(a as int, b as int - 1));
            b = b - 1;
        }
    }
    let mut r: Vec<char> = Vec::new();
    let mut j: usize = a;
    while j < b
        invariant
            a <= j <= b <= s.len(),
            r@ == s@.subrange(a as int, j as int),
        decreases b - j,
    {
        r.push(s[j]);
        assert(s@.subrange(a as int, j as int + 1) =~= s@.subrange(a as int, j as int).push(s@[j as int]));
        j = j + 1;
    }
    r
}

fn chars_to_string(v: &Vec<char>) -> (r: String)
    ensures
        r@ == v@,
{
    crate::text::string_of_chars(v, 0, v.len())
}

fn chars_eq_lit(v: &Vec<char>, lit: &str) -> (r: bool)
    ensures
        r == (v@ == lit@),
{
    let s = chars_to_string(v);
    crate::resolution::str_eq(s.as_str(), lit)
}

impl BinTarget {
    /// The places where this binary's main module may be, under the directory `parent`, in
    /// the order in which they are tried: first the main path itself as a file (with the
    /// extension `idr`, then `lidr`), then the main module's name under the target's path.
    pub fn bin_candidates(&self, parent_dir: &str) -> (r: Vec<BinCandidate>)
        ensures
            candidates_view(r@) == bin_candidates_spec(parent_dir@, self.path@, self.main@),
    {
        proof { crate::paths::lemma_plain_extensions(); }
        let mut out: Vec<BinCandidate> = Vec::new();
        let m = self.main.as_str();
        if !is_absolute(m) && !has_parent_dir(m) {
            let base = join(parent_dir, m);
            let idr = with_extension(base.as_str(), "idr");
            let lidr = with_extension(base.as_str(), "lidr");
            let no_ext = extension(m).is_none();
            let t1 = if no_ext { split_target_exec(idr.as_str()) } else { split_target_exec(base.as_str()) };
            let t2 = if no_ext { split_target_exec(lidr.as_str()) } else { split_target_exec(base.as_str()) };
            out.push(BinCandidate { file: idr, found: t1 });
            out.push(BinCandidate { file: lidr, found: t2 });
        }
        let ghost first = candidates_view(out@);
        assert(first =~= direct_candidates(parent_dir@, self.main@));
        let src = join(parent_dir, self.path.as_str());
        let trimmed = trim_dots_exec(&crate::text::str_chars(m));
        let (after0, rest) = rsplit_dot_exec(&trimmed);
        let (after, before): (Vec<char>, Option<Vec<char>>) = if chars_eq_lit(&after0, "lidr") || chars_eq_lit(&after0, "idr") {
            match rest {
                Some(b0) => {
                    let (fpart, b) = rsplit_dot_exec(&b0);
                    let mut a = fpart;
                    a.push('.');
                    let mut k: usize = 0;
                    let ghost a0 = a@;
                    while k < after0.len()
                        invariant
                            k <= after0.len(),
                            a@ == a0 + after0@.take(k as int),
                        decreases after0.len() - k,
                    {
                        a.push(after0[k]);
                        assert(after0@.take(k as int + 1) =~= after0@.take(k as int).push(after0@[k as int]));
                        k = k + 1;
                    }
                    assert(after0@.take(after0.len() as int) =~= after0@);
                    (a, b)
                },
                None => (after0, None),
            }
        } else {
            (after0, rest)
        };
        assert((after@, match before { Some(b) => Some(b@), None => None }) == main_parts(self.main@));
        let after_s = chars_to_string(&after);
        match before {
            Some(b) => {
                let mut tpv: Vec<char> = Vec::new();
                let mut k: usize = 0;
                while k < b.len()
                    invariant
                        k <= b.len(),
                        tpv@ == b@.take(k as int).map_values(|c: char| slash_char(c)),
                    decreases b.len() - k,
                {
                    let c = b[k];
                    tpv.push(if c == '.' { '/' } else { c });
                    assert(b@.take(k as int + 1) =~= b@.take(k as int).push(c));
                    assert(tpv@ =~= b@.take(k as int + 1).map_values(|c: char| slash_char(c)));
                    k = k + 1;
                }
                assert(b@.take(b.len() as int) =~= b@);
                let tp = chars_to_string(&tpv);
                let src_tp = join(src.as_str(), tp.as_str());
                let whole = join(src_tp.as_str(), after_s.as_str());
                let tp_after = join(tp.as_str(), after_s.as_str());
                out.push(BinCandidate {
                    file: with_extension(whole.as_str(), "idr"),
                    found: Some((src.clone(), with_extension(tp_after.as_str(), "idr"))),
                });
                out.push(BinCandidate {
                    file: with_extension(whole.as_str(), "lidr"),
                    found: Some((src.clone(), with_extension(tp_after.as_str(), "lidr"))),
                });
                if crate::paths::has_no_separator(after_s.as_str()) {
                    out.push(BinCandidate {
                        file: with_extension(src_tp.as_str(), "idr"),
                        found: Some((src.clone(), with_extension(tp.as_str(), after_s.as_str()))),
                    });
                    out.push(BinCandidate {
                        file: with_extension(src_tp.as_str(), "lidr"),
                        found: Some((src.clone(), with_extension(tp.as_str(), after_s.as_str()))),
                    });
                }
            },
            None => {
                let src_after = join(src.as_str(), after_s.as_str());
                out.push(BinCandidate {
                    file: with_extension(src_after.as_str(), "idr"),
                    found: Some((src.clone(), with_extension(after_s.as_str(), "idr"))),
                });
                out.push(BinCandidate {
                    file: with_extension(src_after.as_str(), "lidr"),
                    found: Some((src.clone(), with_extension(after_s.as_str(), "lidr"))),
                });
            },
        }
        assert(candidates_view(out@) =~= bin_candidates_spec(parent_dir@, self.path@, self.main@));
        out
    }

    /// Where this binary's main module is, given which of its candidates (in the order of
    /// `bin_candidates`) exist: the source directory and the target path of the first that
    /// exists, or `None` where none does.
    pub fn resolve_bin(candidates: &Vec<BinCandidate>, exists: &Vec<bool>) -> (r: Option<(String, String)>)
        requires
            first_found(candidates_view(candidates@), exists@) matches Some(i) ==> 0 <= i
                < candidates@.len() && candidates@[i].found is Some,
        ensures
            match first_found(candidates_view(candidates@), exists@) {
                None => r is None,
                Some(i) => r is Some && candidate_view(candidates@[i]).1 == Some(
                    (r.unwrap().0@, r.unwrap().1@),
                ),
            },
    {
        let ghost cv = candidates_view(candidates@);
        proof {
            lemma_first_found_from(cv.len() as int, exists@, 0);
        }
        let mut i: usize = 0;
        while i < candidates.len()
            invariant
                i <= candidates.len(),
                cv == candidates_view(candidates@),
                first_found(cv, exists@) == first_found_from(cv.len() as int, exists@, i as int),
                first_found(cv, exists@) matches Some(j) ==> 0 <= j < candidates@.len()
                    && candidates@[j].found is Some,
            decreases candidates.len() - i,
        {
            if i < exists.len() && exists[i] {
                assert(cv[i as int] == candidate_view(candidates@[i as int]));
                assert(first_found_from(cv.len() as int, exists@, i as int) == Some(i as int));
                match &candidates[i].found {
                    Some((a, b)) => {
                        return Some((a.clone(), b.clone()));
                    },
                    None => {
                        return None;
                    },
                }
            }
            i = i + 1;
        }
        None
    }
}

// ---------------------------------------------------------------------------------------
// The manifest.

/// A manifest's targets.
#[derive(Debug)]
pub struct ManifestTargets {
    pub lib: Option<LibTarget>,
    pub bin: Vec<BinTarget>,
    pub test: Vec<TestTarget>,
}

/// A package manifest.
#[derive(Debug)]
pub struct Manifest {
    pub package: PackageInfo,
    pub dependencies: Vec<(Name, DepReq)>,
    pub dev_dependencies: Vec<(Name, DepReq)>,
    pub targets: ManifestTargets,
    pub workspace: Vec<(Name, String)>,
    pub scripts: Vec<(String, String)>,
}

/// Why an ipkg description and a manifest could not be converted.
#[derive(Debug, PartialEq, Eq, Structural, Copy, Clone)]
pub enum ConvertError {
    /// The package's name is refused.
    InvalidName(NameError),
    /// A path leaves the package: it is absolute or goes up with `..`.
    InvalidPath,
    /// An ipkg needs a library target.
    NoLibTarget,
    /// An ipkg has one source directory: every target's path must be the library's.
    AmbiguousSourcePath,
}

impl DepReq {
    pub fn copy(&self) -> (r: DepReq)
        ensures
            match (*self, r) {
                (DepReq::Registry(a), DepReq::Registry(b)) => a@ == b@,
                (DepReq::RegLong { version: v1, index: i1 }, DepReq::RegLong { version: v2, index: i2 }) =>
                    v1@ == v2@ && i1@ == i2@,
                (DepReq::Local { path: p1 }, DepReq::Local { path: p2 }) => p1@ == p2@,
                (DepReq::Git { git: g1, tag: t1 }, DepReq::Git { git: g2, tag: t2 }) => g1@ == g2@ && t1@ == t2@,
                _ => false,
            },
    {
        match self {
            DepReq::Registry(c) => DepReq::Registry(c.copy()),
            DepReq::RegLong { version, index } => DepReq::RegLong { version: version.copy(), index: index.clone() },
            DepReq::Local { path } => DepReq::Local { path: path.clone() },
            DepReq::Git { git, tag } => DepReq::Git { git: git.clone(), tag: tag.clone() },
        }
    }
}

pub open spec fn deps_view(m: Seq<(PackageId, Constraint)>) -> Seq<(PackageIdV, Seq<RangeV>)> {
    m.map_values(|e: (PackageId, Constraint)| (e.0@, e.1@))
}

/// The first position from `i` on of an entry for a package equal to `p`, or the length.
pub open spec fn dep_pos_from(m: Seq<(PackageIdV, Seq<RangeV>)>, p: PackageIdV, i: int) -> int
    decreases m.len() - i,
{
    if i >= m.len() {
        m.len() as int
    } else if package_id_eq(m[i].0, p) {
        i
    } else {
        dep_pos_from(m, p, i + 1)
    }
}

/// A map keyed by package, as a list in the order of first insertion: an equal package gets
/// the new entry in its place; another is appended.
pub open spec fn dep_insert(m: Seq<(PackageIdV, Seq<RangeV>)>, p: PackageIdV, c: Seq<RangeV>) -> Seq<(PackageIdV, Seq<RangeV>)> {
    let k = dep_pos_from(m, p, 0);
    if k < m.len() {
        m.update(k, (p, c))
    } else {
        m.push((p, c))
    }
}

/// The requirements resolved in order and inserted into `acc`; the first failure stops.
pub open spec fn deps_fold(
    reqs: Seq<(Name, DepReq)>,
    ixmap: Seq<(String, IndexRes)>,
    parent: PackageIdV,
    acc: Seq<(PackageIdV, Seq<RangeV>)>,
) -> Result<Seq<(PackageIdV, Seq<RangeV>)>, DepError>
    decreases reqs.len(),
{
    if reqs.len() == 0 {
        Ok(acc)
    } else {
        match dep_result(reqs[0].1, ixmap, parent, reqs[0].0@) {
            Err(e) => Err(e),
            Ok((p, c)) => deps_fold(reqs.drop_first(), ixmap, parent, dep_insert(acc, p, c)),
        }
    }
}

/// The dependencies of a manifest, then its development dependencies where asked.
pub open spec fn manifest_deps(
    deps: Seq<(Name, DepReq)>,
    dev: Seq<(Name, DepReq)>,
    ixmap: Seq<(String, IndexRes)>,
    parent: PackageIdV,
    dev_deps: bool,
) -> Result<Seq<(PackageIdV, Seq<RangeV>)>, DepError> {
    match deps_fold(deps, ixmap, parent, seq![]) {
        Err(e) => Err(e),
        Ok(a) => if dev_deps {
            deps_fold(dev, ixmap, parent, a)
        } else {
            Ok(a)
        },
    }
}

pub open spec fn deps_result_view(r: Result<Vec<(PackageId, Constraint)>, DepError>) -> Result<Seq<(PackageIdV, Seq<RangeV>)>, DepError> {
    match r {
        Ok(m) => Ok(deps_view(m@)),
        Err(e) => Err(e),
    }
}

/// Inserts a dependency into a map keyed by package, kept as a list in the order of first
/// insertion.
fn insert_dep(m: &mut Vec<(PackageId, Constraint)>, p: PackageId, c: Constraint)
    ensures
        deps_view(final(m)@) == dep_insert(deps_view(old(m)@), p@, c@),
{
    let ghost mv = deps_view(m@);
    let mut i: usize = 0;
    while i < m.len()
        invariant
            i <= m@.len(),
            m@ == old(m)@,
            mv == deps_view(m@),
            dep_pos_from(mv, p@, 0) == dep_pos_from(mv, p@, i as int),
        decreases m@.len() - i,
    {
        if m[i].0.same(&p) {
            let ghost pv = p@;
            let ghost cv = c@;
            m.set(i, (p, c));
            assert(deps_view(m@) =~= mv.update(i as int, (pv, cv)));
            return;
        }
        i = i + 1;
    }
    let ghost pv = p@;
    let ghost cv = c@;
    m.push((p, c));
    assert(deps_view(m@) =~= mv.push((pv, cv)));
}

/// Resolves each requirement of `reqs` in order into `deps`.
fn add_deps(
    deps: &mut Vec<(PackageId, Constraint)>,
    reqs: &Vec<(Name, DepReq)>,
    ixmap: &Vec<(String, IndexRes)>,
    parent_pkg: &PackageId,
) -> (r: Result<(), DepError>)
    ensures
        match deps_fold(reqs@, ixmap@, parent_pkg@, deps_view(old(deps)@)) {
            Ok(a) => r is Ok && deps_view(final(deps)@) == a,
            Err(e) => r == Err::<(), DepError>(e),
        },
{
    let ghost total = deps_fold(reqs@, ixmap@, parent_pkg@, deps_view(deps@));
    assert(reqs@.skip(0) =~= reqs@);
    let mut i: usize = 0;
    while i < reqs.len()
        invariant
            i <= reqs@.len(),
            total == deps_fold(reqs@.skip(i as int), ixmap@, parent_pkg@, deps_view(deps@)),
            total == deps_fold(reqs@, ixmap@, parent_pkg@, deps_view(old(deps)@)),
        decreases reqs@.len() - i,
    {
        let dep = reqs[i].1.copy();
        let ghost rest = reqs@.skip(i as int);
        assert(rest[0] == reqs@[i as int]);
        assert(rest.drop_first() =~= reqs@.skip(i as int + 1));
        assert(dep_result(dep, ixmap@, parent_pkg@, reqs@[i as int].0@) == dep_result(
            reqs@[i as int].1,
            ixmap@,
            parent_pkg@,
            reqs@[i as int].0@,
        ));
        assert(rest.len() > 0);
        let n = reqs[i].0.copy();
        match dep.into_dep(ixmap, parent_pkg, n) {
            Ok((pid, c)) => {
                insert_dep(deps, pid, c);
            },
            Err(e) => {
                assert(dep_result(rest[0].1, ixmap@, parent_pkg@, rest[0].0@) == Err::<(PackageIdV, Seq<RangeV>), DepError>(e));
                assert(total == Err::<Seq<(PackageIdV, Seq<RangeV>)>, DepError>(e));
                return Err(e);
            },
        }
        i = i + 1;
    }
    assert(reqs@.skip(i as int).len() == 0);
    Ok(())
}

/// Why a target of the manifest cannot be built as a binary.
#[derive(Debug, PartialEq, Eq, Structural, Copy, Clone)]
pub enum BinTargetError {
    /// The target is a library or documentation.
    NotABinary,
    /// The manifest has no binary or test target at that index.
    NoSuchTarget,
}

impl BinTarget {
    pub fn copy(&self) -> (r: BinTarget)
        ensures
            r.name@ == self.name@,
            r.path@ == self.path@,
            r.main@ == self.main@,
            strings_view(r.idris_opts@) == strings_view(self.idris_opts@),
    {
        BinTarget { name: self.name.clone(), path: self.path.clone(), main: self.main.clone(), idris_opts: copy_strings(&self.idris_opts) }
    }
}

impl TestTarget {
    pub fn copy(&self) -> (r: TestTarget)
        ensures
            crate::ipkg::opt_view(r.name) == crate::ipkg::opt_view(self.name),
            r.path@ == self.path@,
            r.main@ == self.main@,
            strings_view(r.idris_opts@) == strings_view(self.idris_opts@),
    {
        let name = match &self.name {
            Some(n) => Some(n.clone()),
            None => None,
        };
        TestTarget { name, path: self.path.clone(), main: self.main.clone(), idris_opts: copy_strings(&self.idris_opts) }
    }
}

impl ManifestTargets {
    /// The binary that a binary or test target stands for.
    pub fn bin_target(&self, t: Target) -> (r: Result<BinTarget, BinTargetError>)
        ensures
            match t {
                Target::Bin(ix) => if ix < self.bin@.len() {
                    r matches Ok(b) && b.name@ == self.bin@[ix as int].name@ && b.path@ == self.bin@[ix as int].path@
                        && b.main@ == self.bin@[ix as int].main@
                        && strings_view(b.idris_opts@) == strings_view(self.bin@[ix as int].idris_opts@)
                } else {
                    r == Err::<BinTarget, BinTargetError>(BinTargetError::NoSuchTarget)
                },
                Target::Test(ix) => if ix < self.test@.len() {
                    r matches Ok(b) && b.name@ == match self.test@[ix as int].name {
                        Some(n) => n@,
                        None => default_test_name(self.test@[ix as int].main@),
                    } && b.path@ == self.test@[ix as int].path@ && b.main@ == self.test@[ix as int].main@
                        && strings_view(b.idris_opts@) == strings_view(self.test@[ix as int].idris_opts@)
                } else {
                    r == Err::<BinTarget, BinTargetError>(BinTargetError::NoSuchTarget)
                },
                _ => r == Err::<BinTarget, BinTargetError>(BinTargetError::NotABinary),
            },
    {
        match t {
            Target::Bin(ix) => {
                if ix < self.bin.len() {
                    Ok(self.bin[ix].copy())
                } else {
                    Err(BinTargetError::NoSuchTarget)
                }
            },
            Target::Test(ix) => {
                if ix < self.test.len() {
                    let c = self.test[ix].copy();
                    let b = BinTarget::from_test(c);
                    Ok(b)
                } else {
                    Err(BinTargetError::NoSuchTarget)
                }
            },
            _ => Err(BinTargetError::NotABinary),
        }
    }
}

impl Manifest {
    pub fn version(&self) -> (r: &Version)
        ensures
            r@ == self.package.version@,
    {
        &self.package.version
    }

    pub fn name(&self) -> (r: &Name)
        ensures
            r@ == self.package.name@,
    {
        &self.package.name
    }

    /// The command of the script with this name, where there is one.
    pub fn script(&self, name: &str) -> (r: Option<&String>)
        ensures
            match r {
                Some(c) => exists|i: int| 0 <= i < self.scripts@.len() && #[trigger] self.scripts@[i].0@ == name@
                    && *c == self.scripts@[i].1 && forall|j: int| 0 <= j < i ==> #[trigger] self.scripts@[j].0@ != name@,
                None => forall|i: int| 0 <= i < self.scripts@.len() ==> #[trigger] self.scripts@[i].0@ != name@,
            },
    {
        let mut i: usize = 0;
        while i < self.scripts.len()
            invariant
                i <= self.scripts@.len(),
                forall|j: int| 0 <= j < i ==> #[trigger] self.scripts@[j].0@ != name@,
            decreases self.scripts@.len() - i,
        {
            if str_eq(self.scripts[i].0.as_str(), name) {
                return Some(&self.scripts[i].1);
            }
            i = i + 1;
        }
        None
    }

    /// Checks the package information.
    pub fn validate(&self) -> (r: Result<(), ManifestError>)
        ensures
            r == validate_spec(
                crate::ipkg::opt_view(self.package.description),
                crate::ipkg::opt_view(self.package.license),
                strings_view(self.package.keywords@),
            ),
    {
        self.package.validate()
    }

    /// The packages that this one depends on (with the development dependencies where asked),
    /// each with its constraint; a package named twice keeps its first place and the later
    /// constraint.
    pub fn deps(&self, ixmap: &Vec<(String, IndexRes)>, parent_pkg: &PackageId, dev_deps: bool) -> (r: Result<Vec<(PackageId, Constraint)>, DepError>)
        ensures
            deps_result_view(r) == manifest_deps(self.dependencies@, self.dev_dependencies@, ixmap@, parent_pkg@, dev_deps),
    {
        let mut deps: Vec<(PackageId, Constraint)> = Vec::new();
        assert(deps_view(deps@) =~= seq![]);
        match add_deps(&mut deps, &self.dependencies, ixmap, parent_pkg) {
            Ok(()) => {},
            Err(e) => {
                return Err(e);
            },
        }
        if dev_deps {
            match add_deps(&mut deps, &self.dev_dependencies, ixmap, parent_pkg) {
                Ok(()) => {},
                Err(e) => {
                    return Err(e);
                },
            }
        }
        Ok(deps)
    }
}

/// A path inside the package: relative, not going up. Every path that a manifest names (a
/// target's directory, the readme) must be one.
pub fn sub_path(p: &String) -> (r: Result<String, ConvertError>)
    ensures
        match r {
            Ok(q) => is_sub_path(p@) && q@ == p@,
            Err(e) => !is_sub_path(p@) && e == ConvertError::InvalidPath,
        },
{
    if !is_absolute(p.as_str()) && !has_parent_dir(p.as_str()) {
        Ok(p.clone())
    } else {
        Err(ConvertError::InvalidPath)
    }
}

/// The text after the last dot.
fn after_last_dot(s: &String) -> (r: String)
    ensures
        r@ == rsplit_dot(s@).0,
{
    let cs = crate::text::str_chars(s.as_str());
    let (a, _) = rsplit_dot_exec(&cs);
    chars_to_string(&a)
}

fn copy_strings(v: &Vec<String>) -> (r: Vec<String>)
    ensures
        strings_view(r@) == strings_view(v@),
{
    let mut r: Vec<String> = Vec::new();
    let mut i: usize = 0;
    while i < v.len()
        invariant
            i <= v.len(),
            strings_view(r@) == strings_view(v@).take(i as int),
        decreases v.len() - i,
    {
        let ghost b = strings_view(r@);
        r.push(v[i].clone());
        assert(strings_view(r@) =~= b.push(v@[i as int]@));
        assert(strings_view(v@).take(i as int + 1) =~= strings_view(v@).take(i as int).push(v@[i as int]@));
        i = i + 1;
    }
    assert(strings_view(v@).take(v.len() as int) =~= strings_view(v@));
    r
}

/// Each package as `-p` and its name.
pub open spec fn pkg_flags(pkgs: Seq<Seq<char>>) -> Seq<Seq<char>>
    decreases pkgs.len(),
{
    if pkgs.len() == 0 {
        seq![]
    } else {
        pkg_flags(pkgs.drop_last()) + seq!["-p"@, pkgs.last()]
    }
}

/// The compiler options of every target made from an ipkg: its packages, then its options.
pub open spec fn ipkg_opts(d: IpkgV) -> Seq<Seq<char>> {
    pkg_flags(d.pkgs) + d.opts
}

pub open spec fn opt_seq(o: Option<Seq<char>>) -> Seq<Seq<char>> {
    match o {
        Some(x) => seq![x],
        None => seq![],
    }
}

/// Whether a path of the ipkg that the manifest keeps leaves the package.
pub open spec fn ipkg_path_error(d: IpkgV) -> bool {
    ||| match d.readme {
        Some(r) => !is_sub_path(r),
        None => false,
    }
    ||| !is_sub_path(d.sourcedir) && (d.modules.len() > 0 || d.main is Some || d.tests.len() > 0)
}

pub open spec fn lib_from_ipkg(l: Option<LibTarget>, d: IpkgV) -> bool {
    if d.modules.len() == 0 {
        l is None
    } else {
        l matches Some(t) && t.path@ == d.sourcedir && strings_view(t.mods@) == d.modules
            && strings_view(t.idris_opts@) == ipkg_opts(d)
    }
}

pub open spec fn bins_from_ipkg(b: Seq<BinTarget>, d: IpkgV) -> bool {
    match d.main {
        None => b.len() == 0,
        Some(mn) => b.len() == 1 && b[0].name@ == match d.executable {
            Some(e) => e,
            None => rsplit_dot(mn).0,
        } && b[0].path@ == d.sourcedir && b[0].main@ == mn && strings_view(b[0].idris_opts@) == ipkg_opts(d),
    }
}

pub open spec fn test_from_ipkg(t: TestTarget, d: IpkgV, main: Seq<char>) -> bool {
    t.name is None && t.path@ == d.sourcedir && t.main@ == main && strings_view(t.idris_opts@) == ipkg_opts(d)
}

pub open spec fn tests_from_ipkg(t: Seq<TestTarget>, d: IpkgV) -> bool {
    t.len() == d.tests.len() && forall|i: int| 0 <= i < t.len() ==> test_from_ipkg(#[trigger] t[i], d, d.tests[i])
}

pub open spec fn scripts_from_ipkg(s: Seq<(String, String)>, d: IpkgV) -> bool {
    match d.makefile {
        None => s.len() == 0,
        Some(mk) => s.len() == 1 && s[0].0@ == "prebuild"@ && s[0].1@ == "make -f "@ + mk,
    }
}

/// The manifest that an ipkg description stands for.
pub open spec fn manifest_from_ipkg(m: Manifest, d: IpkgV) -> bool {
    &&& m.package.name@ == (NameV { group: "legacy"@, name: d.name })
    &&& m.package.version@ == (VersionV { major: 0, minor: 0, patch: 0, pre: seq![], build: seq![] })
    &&& strings_view(m.package.authors@) == opt_seq(d.author) + opt_seq(d.maintainer)
    &&& crate::ipkg::opt_view(m.package.description) == d.brief
    &&& m.package.keywords@.len() == 0
    &&& crate::ipkg::opt_view(m.package.homepage) == d.homepage
    &&& crate::ipkg::opt_view(m.package.repository) == d.sourceloc
    &&& crate::ipkg::opt_view(m.package.readme) == d.readme
    &&& crate::ipkg::opt_view(m.package.license) == d.license
    &&& m.package.exclude is None
    &&& m.dependencies@.len() == 0
    &&& m.dev_dependencies@.len() == 0
    &&& lib_from_ipkg(m.targets.lib, d)
    &&& bins_from_ipkg(m.targets.bin@, d)
    &&& tests_from_ipkg(m.targets.test@, d)
    &&& m.workspace@.len() == 0
    &&& scripts_from_ipkg(m.scripts@, d)
}

/// Whether every binary and test target has this path.
pub open spec fn targets_share_path(bins: Seq<BinTarget>, tests: Seq<TestTarget>, path: Seq<char>) -> bool {
    &&& forall|i: int| 0 <= i < bins.len() ==> path_eq((#[trigger] bins[i]).path@, path)
    &&& forall|i: int| 0 <= i < tests.len() ==> path_eq((#[trigger] tests[i]).path@, path)
}

pub open spec fn nth_opt(v: Seq<String>, i: int) -> Option<Seq<char>> {
    if 0 <= i < v.len() {
        Some(v[i]@)
    } else {
        None
    }
}

pub open spec fn test_mains(tests: Seq<TestTarget>) -> Seq<Seq<char>> {
    tests.map_values(|t: TestTarget| t.main@)
}

/// The ipkg description of a manifest with a library target.
pub open spec fn ipkg_of_manifest(m: Manifest, lib: LibTarget) -> IpkgV {
    IpkgV {
        name: m.package.name@.name,
        pkgs: seq![],
        brief: crate::ipkg::opt_view(m.package.description),
        version: Some(version_text(m.package.version@)),
        readme: crate::ipkg::opt_view(m.package.readme),
        license: crate::ipkg::opt_view(m.package.license),
        author: nth_opt(m.package.authors@, 0),
        maintainer: nth_opt(m.package.authors@, 1),
        homepage: crate::ipkg::opt_view(m.package.homepage),
        sourceloc: crate::ipkg::opt_view(m.package.repository),
        bugtracker: None,
        libs: seq![],
        objs: seq![],
        makefile: None,
        opts: strings_view(lib.idris_opts@),
        sourcedir: lib.path@,
        modules: strings_view(lib.mods@),
        main: if m.targets.bin@.len() > 0 { Some(m.targets.bin@[0].main@) } else { None },
        executable: if m.targets.bin@.len() > 0 { Some(m.targets.bin@[0].name@) } else { None },
        tests: test_mains(m.targets.test@),
    }
}

fn clone_opt(o: &Option<String>) -> (r: Option<String>)
    ensures
        crate::ipkg::opt_view(r) == crate::ipkg::opt_view(*o),
{
    match o {
        Some(x) => Some(x.clone()),
        None => None,
    }
}

/// The compiler options of the targets made from an ipkg.
fn ipkg_idris_opts(pkgs: &Vec<String>, opts: &Vec<String>) -> (r: Vec<String>)
    ensures
        strings_view(r@) == pkg_flags(strings_view(pkgs@)) + strings_view(opts@),
{
    let ghost ps = strings_view(pkgs@);
    let ghost os = strings_view(opts@);
    let mut idris_opts: Vec<String> = Vec::new();
    let mut i: usize = 0;
    while i < pkgs.len()
        invariant
            i <= pkgs@.len(),
            ps == strings_view(pkgs@),
            strings_view(idris_opts@) == pkg_flags(ps.take(i as int)),
        decreases pkgs@.len() - i,
    {
        proof {
            reveal_strlit("-p");
        }
        assert(ps.take(i as int + 1).drop_last() =~= ps.take(i as int));
        assert(ps.take(i as int + 1).last() == pkgs@[i as int]@);
        let ghost before = strings_view(idris_opts@);
        let flag = String::from_str("-p");
        let pk = pkgs[i].clone();
        let ghost fv = flag@;
        let ghost pv = pk@;
        idris_opts.push(flag);
        idris_opts.push(pk);
        assert(strings_view(idris_opts@) =~= before + seq![fv, pv]);
        assert(strings_view(idris_opts@) =~= pkg_flags(ps.take(i as int + 1)));
        i = i + 1;
    }
    assert(ps.take(i as int) =~= ps);
    let ghost flags = strings_view(idris_opts@);
    let mut i: usize = 0;
    while i < opts.len()
        invariant
            i <= opts@.len(),
            os == strings_view(opts@),
            strings_view(idris_opts@) == flags + os.take(i as int),
        decreases opts@.len() - i,
    {
        let ghost before = strings_view(idris_opts@);
        let o = opts[i].clone();
        let ghost ov = o@;
        idris_opts.push(o);
        assert(strings_view(idris_opts@) =~= before.push(ov));
        assert(os.take(i as int + 1) =~= os.take(i as int).push(os[i as int]));
        assert(strings_view(idris_opts@) =~= flags + os.take(i as int + 1));
        i = i + 1;
    }
    assert(os.take(i as int) =~= os);
    idris_opts
}

/// A test target in the source directory for each test of an ipkg.
fn ipkg_tests(tests: &Vec<String>, sourcedir: &String, opts: &Vec<String>) -> (r: Result<Vec<TestTarget>, ConvertError>)
    ensures
        match r {
            Ok(t) => (is_sub_path(sourcedir@) || tests@.len() == 0) && t@.len() == tests@.len()
                && forall|i: int| 0 <= i < t@.len() ==> (#[trigger] t@[i]).name is None && t@[i].path@ == sourcedir@
                    && t@[i].main@ == tests@[i]@ && strings_view(t@[i].idris_opts@) == strings_view(opts@),
            Err(e) => e == ConvertError::InvalidPath && !is_sub_path(sourcedir@) && tests@.len() > 0,
        },
{
    let mut test: Vec<TestTarget> = Vec::new();
    let mut i: usize = 0;
    while i < tests.len()
        invariant
            i <= tests@.len(),
            i > 0 ==> is_sub_path(sourcedir@),
            test@.len() == i,
            forall|j: int| 0 <= j < i ==> (#[trigger] test@[j]).name is None && test@[j].path@ == sourcedir@
                && test@[j].main@ == tests@[j]@ && strings_view(test@[j].idris_opts@) == strings_view(opts@),
        decreases tests@.len() - i,
    {
        let path = match sub_path(sourcedir) {
            Ok(p) => p,
            Err(e) => {
                return Err(e);
            },
        };
        test.push(TestTarget { name: None, path, main: tests[i].clone(), idris_opts: copy_strings(opts) });
        i = i + 1;
    }
    Ok(test)
}

impl Manifest {
    /// The manifest that an ipkg description stands for: a package `legacy/<name>` at
    /// version 0.0.0, a library target where there are modules, a binary where there is a
    /// main module, a test target for each test, and a prebuild script for a makefile. Every
    /// target's compiler options are `-p` with each package, then the ipkg's options.
    pub fn from_ipkg(ipkg: Ipkg) -> (r: Result<Manifest, ConvertError>)
        ensures
            match name_result("legacy"@, ipkg@.name) {
                Err(e) => r == Err::<Manifest, ConvertError>(ConvertError::InvalidName(e)),
                Ok(_) => if ipkg_path_error(ipkg@) {
                    r == Err::<Manifest, ConvertError>(ConvertError::InvalidPath)
                } else {
                    r matches Ok(m) && manifest_from_ipkg(m, ipkg@)
                },
            },
    {
        let ghost d = ipkg@;
        proof {
            reveal_strlit("legacy");
            reveal_strlit("-p");
            reveal_strlit("prebuild");
            reveal_strlit("make -f ");
        }
        let name = match Name::new(String::from_str("legacy"), ipkg.name) {
            Ok(n) => n,
            Err(e) => {
                return Err(ConvertError::InvalidName(e));
            },
        };
        let mut authors: Vec<String> = Vec::new();
        match ipkg.author {
            Some(a) => authors.push(a),
            None => {},
        }
        match ipkg.maintainer {
            Some(m) => authors.push(m),
            None => {},
        }
        assert(strings_view(authors@) =~= opt_seq(d.author) + opt_seq(d.maintainer));
        let readme = match ipkg.readme {
            Some(r) => match sub_path(&r) {
                Ok(p) => Some(p),
                Err(e) => {
                    return Err(e);
                },
            },
            None => None,
        };
        let idris_opts = ipkg_idris_opts(&ipkg.pkgs, &ipkg.opts);
        let lib = if ipkg.modules.len() == 0 {
            None
        } else {
            let path = match sub_path(&ipkg.sourcedir) {
                Ok(p) => p,
                Err(e) => {
                    return Err(e);
                },
            };
            Some(LibTarget { path, mods: copy_strings(&ipkg.modules), idris_opts: copy_strings(&idris_opts) })
        };
        let mut bin: Vec<BinTarget> = Vec::new();
        match &ipkg.main {
            Some(main) => {
                let name = match &ipkg.executable {
                    Some(e) => e.clone(),
                    None => after_last_dot(main),
                };
                let path = match sub_path(&ipkg.sourcedir) {
                    Ok(p) => p,
                    Err(e) => {
                        return Err(e);
                    },
                };
                bin.push(BinTarget { name, path, main: main.clone(), idris_opts: copy_strings(&idris_opts) });
            },
            None => {},
        }
        let test = match ipkg_tests(&ipkg.tests, &ipkg.sourcedir, &idris_opts) {
            Ok(t) => t,
            Err(e) => {
                return Err(e);
            },
        };
        assert(tests_from_ipkg(test@, d));
        let mut scripts: Vec<(String, String)> = Vec::new();
        match &ipkg.makefile {
            Some(mk) => {
                let mut cmd = String::from_str("make -f ");
                push_str(&mut cmd, mk.as_str());
                scripts.push((String::from_str("prebuild"), cmd));
            },
            None => {},
        }
        let package = PackageInfo {
            name,
            version: Version::new(0, 0, 0),
            authors,
            description: ipkg.brief,
            keywords: Vec::new(),
            homepage: ipkg.homepage,
            repository: ipkg.sourceloc,
            readme,
            license: ipkg.license,
            exclude: None,
        };
        let m = Manifest {
            package,
            dependencies: Vec::new(),
            dev_dependencies: Vec::new(),
            targets: ManifestTargets { lib, bin, test },
            workspace: Vec::new(),
            scripts,
        };
        Ok(m)
    }

    /// The ipkg description of a manifest: it needs a library target, and every binary and
    /// test target must have the library's path.
    pub fn to_ipkg(&self) -> (r: Result<Ipkg, ConvertError>)
        ensures
            match self.targets.lib {
                None => r == Err::<Ipkg, ConvertError>(ConvertError::NoLibTarget),
                Some(lib) => if targets_share_path(self.targets.bin@, self.targets.test@, lib.path@) {
                    r matches Ok(d) && d@ == ipkg_of_manifest(*self, lib)
                } else {
                    r == Err::<Ipkg, ConvertError>(ConvertError::AmbiguousSourcePath)
                },
            },
    {
        let lib = match &self.targets.lib {
            Some(l) => l,
            None => {
                return Err(ConvertError::NoLibTarget);
            },
        };
        let mut i: usize = 0;
        while i < self.targets.bin.len()
            invariant
                i <= self.targets.bin@.len(),
                self.targets.lib == Some(*lib),
                forall|j: int| 0 <= j < i ==> path_eq((#[trigger] self.targets.bin@[j]).path@, lib.path@),
            decreases self.targets.bin@.len() - i,
        {
            if !crate::resolution::paths_equal(self.targets.bin[i].path.as_str(), lib.path.as_str()) {
                assert(!path_eq(self.targets.bin@[i as int].path@, lib.path@));
                return Err(ConvertError::AmbiguousSourcePath);
            }
            i = i + 1;
        }
        let mut i: usize = 0;
        while i < self.targets.test.len()
            invariant
                i <= self.targets.test@.len(),
                self.targets.lib == Some(*lib),
                forall|j: int| 0 <= j < i ==> path_eq((#[trigger] self.targets.test@[j]).path@, lib.path@),
            decreases self.targets.test@.len() - i,
        {
            if !crate::resolution::paths_equal(self.targets.test[i].path.as_str(), lib.path.as_str()) {
                assert(!path_eq(self.targets.test@[i as int].path@, lib.path@));
                return Err(ConvertError::AmbiguousSourcePath);
            }
            i = i + 1;
        }
        let mut tests: Vec<String> = Vec::new();
        let mut i: usize = 0;
        while i < self.targets.test.len()
            invariant
                i <= self.targets.test@.len(),
                strings_view(tests@) == test_mains(self.targets.test@).take(i as int),
            decreases self.targets.test@.len() - i,
        {
            let ghost before = strings_view(tests@);
            let mn = self.targets.test[i].main.clone();
            assert(mn@ == test_mains(self.targets.test@)[i as int]);
            tests.push(mn);
            assert(strings_view(tests@) =~= before.push(test_mains(self.targets.test@)[i as int]));
            assert(test_mains(self.targets.test@).take(i as int + 1) =~= test_mains(self.targets.test@).take(i as int).push(test_mains(self.targets.test@)[i as int]));
            i = i + 1;
        }
        assert(test_mains(self.targets.test@).take(i as int) =~= test_mains(self.targets.test@));
        let mut name = String::new();
        push_str(&mut name, self.package.name.name());
        let author = if self.package.authors.len() > 0 { Some(self.package.authors[0].clone()) } else { None };
        let maintainer = if self.package.authors.len() > 1 { Some(self.package.authors[1].clone()) } else { None };
        let main = if self.targets.bin.len() > 0 { Some(self.targets.bin[0].main.clone()) } else { None };
        let executable = if self.targets.bin.len() > 0 { Some(self.targets.bin[0].name.clone()) } else { None };
        let d = Ipkg {
            name,
            pkgs: Vec::new(),
            brief: clone_opt(&self.package.description),
            version: Some(self.package.version.to_text()),
            readme: clone_opt(&self.package.readme),
            license: clone_opt(&self.package.license),
            author,
            maintainer,
            homepage: clone_opt(&self.package.homepage),
            sourceloc: clone_opt(&self.package.repository),
            bugtracker: None,
            libs: Vec::new(),
            objs: Vec::new(),
            makefile: None,
            opts: copy_strings(&lib.idris_opts),
            sourcedir: lib.path.clone(),
            modules: copy_strings(&lib.mods),
            main,
            executable,
            tests,
        };
        assert(d@.pkgs =~= seq![]);
        assert(d@.libs =~= seq![]);
        assert(d@.objs =~= seq![]);
        Ok(d)
    }
}

} // verus!

//! Where a package comes from: a git repository, a directory, a tarball, or an index.
//!
//! Each source is written as a kind, a `+` and the location: `git+<url>#<tag>`,
//! `dir+<path>`, `tar+<url>#sha256=<hash>`, and `index+<direct source>`.

use vstd::prelude::*;
use crate::text::{push_char, push_str};
use crate::package::{Checksum, ChecksumFmt, checksum_parse, first_index, find_char, lemma_first_index_bound};

verus! {

/// `url::Url::parse` taken apart: the serialization without its fragment, the scheme, and the
/// fragment; `None` where the text is no absolute URL.
pub uninterp spec fn url_parse(s: Seq<char>) -> Option<(Seq<char>, Seq<char>, Option<Seq<char>>)>;

/// `std::path::Path`'s equality, which compares paths component by component.
pub uninterp spec fn path_eq(a: Seq<char>, b: Seq<char>) -> bool;

/// A parsed absolute URL, taken apart.
#[derive(Debug)]
pub struct UrlParts {
    /// The serialization of the URL without its fragment.
    pub base: String,
    pub scheme: String,
    pub fragment: Option<String>,
}

pub open spec fn opt_text(o: Option<String>) -> Option<Seq<char>> {
    match o {
        Some(s) => Some(s@),
        None => None,
    }
}

pub open spec fn url_parts_view(p: UrlParts) -> (Seq<char>, Seq<char>, Option<Seq<char>>) {
    (p.base@, p.scheme@, opt_text(p.fragment))
}

/// `url::Url::parse`, then `fragment`, `set_fragment(None)`, `as_str` and `scheme` on what it
/// parsed: the result is named `url_parse`, a function of the text alone. `Url::parse` takes
/// no base URL, so of the parser's path handling only the paths that it starts itself are
/// reached, and each of them starts with a `/` at its first position; the `unwrap` of the
/// search for a `/` when a `..` segment pops the path therefore always finds one.
#[verifier::external_body]
pub(crate) fn parse_url(s: &str) -> (r: Option<UrlParts>)
    ensures
        match r {
            Some(p) => url_parse(s@) == Some(url_parts_view(p)),
            None => url_parse(s@) is None,
        },
{
    match url::Url::parse(s) {
        Ok(mut u) => {
            let fragment = u.fragment().map(|f| f.to_string());
            u.set_fragment(None);
            Some(UrlParts { base: u.as_str().to_string(), scheme: u.scheme().to_string(), fragment })
        },
        Err(_) => None,
    }
}

/// `PartialEq` of `std::path::Path`: its result is named `path_eq`; std documents it as an
/// equivalence, so a path equals itself.
#[verifier::external_body]
pub(crate) fn paths_equal(a: &str, b: &str) -> (r: bool)
    ensures
        r == path_eq(a@, b@),
        a@ == b@ ==> r,
{
    std::path::Path::new(a) == std::path::Path::new(b)
}

/// Whether two strings hold the same characters.
pub fn str_eq(a: &str, b: &str) -> (r: bool)
    ensures
        r == (a@ == b@),
{
    let n = a.unicode_len();
    if n != b.unicode_len() {
        return false;
    }
    let mut i: usize = 0;
    while i < n
        invariant
            n == a@.len() == b@.len(),
            i <= n,
            forall|j: int| 0 <= j < i ==> a@[j] == b@[j],
        decreases n - i,
    {
        if a.get_char(i) != b.get_char(i) {
            return false;
        }
        i = i + 1;
    }
    assert(a@ =~= b@);
    true
}

/// A source that is reached directly.
#[derive(Debug)]
pub enum DirectRes {
    /// A git repository (a URL without fragment) at a tag or branch.
    Git { repo: String, tag: String },
    /// A directory on disk.
    Dir { path: String },
    /// An archive (a URL without fragment), with the checksum that it must match.
    Tar { url: String, cksum: Option<Checksum> },
}

pub enum DirectResV {
    Git { repo: Seq<char>, tag: Seq<char> },
    Dir { path: Seq<char> },
    /// The checksum is kept by its hash: `sha256` is the only format.
    Tar { url: Seq<char>, cksum: Option<Seq<char>> },
}

impl View for DirectRes {
    type V = DirectResV;

    open spec fn view(&self) -> DirectResV {
        match self {
            DirectRes::Git { repo, tag } => DirectResV::Git { repo: repo@, tag: tag@ },
            DirectRes::Dir { path } => DirectResV::Dir { path: path@ },
            DirectRes::Tar { url, cksum } => DirectResV::Tar {
                url: url@,
                cksum: match cksum {
                    Some(c) => Some(c.hash@),
                    None => None,
                },
            },
        }
    }
}

/// The kind of a source and the rest, split at the first `+`.
pub open spec fn split_kind(s: Seq<char>) -> Option<(Seq<char>, Seq<char>)> {
    let k = first_index(s, '+');
    if k < s.len() {
        Some((s.take(k), s.skip(k + 1)))
    } else {
        None
    }
}

pub open spec fn default_branch() -> Seq<char> {
    "master"@
}

/// What `DirectRes::from_str` makes of a text.
pub open spec fn direct_res_parse(s: Seq<char>) -> Option<DirectResV> {
    match split_kind(s) {
        None => None,
        Some((kind, rest)) => if kind == "git"@ {
            match url_parse(rest) {
                None => None,
                Some((base, _, frag)) => Some(DirectResV::Git {
                    repo: base,
                    tag: match frag {
                        Some(f) => f,
                        None => default_branch(),
                    },
                }),
            }
        } else if kind == "dir"@ {
            Some(DirectResV::Dir { path: rest })
        } else if kind == "tar"@ {
            match url_parse(rest) {
                None => None,
                Some((base, scheme, frag)) => if scheme == "http"@ || scheme == "https"@ || scheme
                    == "file"@ {
                    Some(DirectResV::Tar {
                        url: base,
                        cksum: match frag {
                            Some(f) => checksum_parse(f),
                            None => None,
                        },
                    })
                } else {
                    None
                },
            }
        } else {
            None
        },
    }
}

/// How a direct source is written.
pub open spec fn direct_res_text(d: DirectResV) -> Seq<char> {
    match d {
        DirectResV::Git { repo, tag } => "git+"@ + repo + seq!['#'] + tag,
        DirectResV::Dir { path } => "dir+"@ + path,
        DirectResV::Tar { url, cksum } => "tar+"@ + url + match cksum {
            Some(h) => seq!['#'] + "sha256="@ + h,
            None => Seq::empty(),
        },
    }
}

/// Equality of direct sources, with directories compared as paths.
pub open spec fn direct_res_eq(a: DirectResV, b: DirectResV) -> bool {
    match (a, b) {
        (DirectResV::Git { repo: r1, tag: t1 }, DirectResV::Git { repo: r2, tag: t2 }) => r1 == r2 && t1
            == t2,
        (DirectResV::Dir { path: p1 }, DirectResV::Dir { path: p2 }) => path_eq(p1, p2),
        (DirectResV::Tar { url: u1, cksum: c1 }, DirectResV::Tar { url: u2, cksum: c2 }) => u1 == u2
            && c1 == c2,
        _ => false,
    }
}

/// Loose equality: git sources are the same repository whatever the tag.
pub open spec fn direct_res_lowkey_eq(a: DirectResV, b: DirectResV) -> bool {
    match (a, b) {
        (DirectResV::Git { repo: r1, .. }, DirectResV::Git { repo: r2, .. }) => r1 == r2,
        _ => direct_res_eq(a, b),
    }
}

/// Splits a text at its first `+`.
fn split_at_plus(s: &str) -> (r: Option<(String, String)>)
    ensures
        match r {
            Some((a, b)) => split_kind(s@) == Some((a@, b@)),
            None => split_kind(s@) is None,
        },
{
    let k = find_char(s, '+');
    let n = s.unicode_len();
    proof {
        lemma_first_index_bound(s@, '+');
    }
    if k == n {
        None
    } else {
        let a = String::from_str(s.substring_char(0, k));
        let b = String::from_str(s.substring_char(k + 1, n));
        assert(s@.subrange(0, k as int) =~= s@.take(k as int));
        assert(s@.subrange(k as int + 1, n as int) =~= s@.skip(k as int + 1));
        Some((a, b))
    }
}

impl DirectRes {
    /// Parses a direct source. Every malformed text gives the same error.
    pub fn from_str(s: &str) -> (r: Result<DirectRes, crate::errors::ErrorKind>)
        ensures
            match r {
                Ok(d) => direct_res_parse(s@) == Some(d@),
                Err(e) => direct_res_parse(s@) is None && e == crate::errors::ErrorKind::InvalidSourceUrl,
            },
    {
        let bad = crate::errors::ErrorKind::InvalidSourceUrl;
        let (kind, rest) = match split_at_plus(s) {
            Some(p) => p,
            None => return Err(bad),
        };
        if str_eq(kind.as_str(), "git") {
            match parse_url(rest.as_str()) {
                None => Err(bad),
                Some(p) => {
                    let tag = match p.fragment {
                        Some(f) => f,
                        None => String::from_str("master"),
                    };
                    Ok(DirectRes::Git { repo: p.base, tag })
                },
            }
        } else if str_eq(kind.as_str(), "dir") {
            Ok(DirectRes::Dir { path: rest })
        } else if str_eq(kind.as_str(), "tar") {
            match parse_url(rest.as_str()) {
                None => Err(bad),
                Some(p) => {
                    if str_eq(p.scheme.as_str(), "http") || str_eq(p.scheme.as_str(), "https")
                        || str_eq(p.scheme.as_str(), "file") {
                        let cksum = match &p.fragment {
                            Some(f) => match Checksum::from_str(f.as_str()) {
                                Ok(c) => Some(c),
                                Err(_) => None,
                            },
                            None => None,
                        };
                        Ok(DirectRes::Tar { url: p.base, cksum })
                    } else {
                        Err(bad)
                    }
                },
            }
        } else {
            Err(bad)
        }
    }

    /// The text of this source, as `from_str` reads it.
    pub fn to_text(&self) -> (r: String)
        ensures
            r@ == direct_res_text(self@),
    {
        let mut s = String::new();
        match self {
            DirectRes::Git { repo, tag } => {
                push_str(&mut s, "git+");
                push_str(&mut s, repo.as_str());
                push_char(&mut s, '#');
                push_str(&mut s, tag.as_str());
            },
            DirectRes::Dir { path } => {
                push_str(&mut s, "dir+");
                push_str(&mut s, path.as_str());
            },
            DirectRes::Tar { url, cksum } => {
                push_str(&mut s, "tar+");
                push_str(&mut s, url.as_str());
                match cksum {
                    Some(c) => {
                        push_char(&mut s, '#');
                        let t = c.to_text();
                        push_str(&mut s, t.as_str());
                        proof {
                            reveal_strlit("sha256=");
                            assert(t@ =~= "sha256="@ + c.hash@);
                        }
                        assert(s@ =~= direct_res_text(self@));
                    },
                    None => {
                        assert(s@ =~= direct_res_text(self@));
                    },
                }
            },
        }
        s
    }

    pub fn copy(&self) -> (r: DirectRes)
        ensures
            r@ == self@,
    {
        match self {
            DirectRes::Git { repo, tag } => DirectRes::Git { repo: repo.clone(), tag: tag.clone() },
            DirectRes::Dir { path } => DirectRes::Dir { path: path.clone() },
            DirectRes::Tar { url, cksum } => DirectRes::Tar {
                url: url.clone(),
                cksum: match cksum {
                    Some(c) => Some(Checksum { fmt: ChecksumFmt::Sha256, hash: c.hash.clone() }),
                    None => None,
                },
            },
        }
    }

    pub fn is_tar(&self) -> (r: bool)
        ensures
            r == (self@ is Tar),
    {
        match self {
            DirectRes::Tar { .. } => true,
            _ => false,
        }
    }

    pub fn is_git(&self) -> (r: bool)
        ensures
            r == (self@ is Git),
    {
        match self {
            DirectRes::Git { .. } => true,
            _ => false,
        }
    }

    pub fn is_dir(&self) -> (r: bool)
        ensures
            r == (self@ is Dir),
    {
        match self {
            DirectRes::Dir { .. } => true,
            _ => false,
        }
    }

    /// Equality: the same kind, with the same location and tag or checksum.
    pub fn same(&self, other: &DirectRes) -> (r: bool)
        ensures
            r == direct_res_eq(self@, other@),
    {
        match (self, other) {
            (DirectRes::Git { repo: r1, tag: t1 }, DirectRes::Git { repo: r2, tag: t2 }) => str_eq(
                r1.as_str(),
                r2.as_str(),
            ) && str_eq(t1.as_str(), t2.as_str()),
            (DirectRes::Dir { path: p1 }, DirectRes::Dir { path: p2 }) => paths_equal(
                p1.as_str(),
                p2.as_str(),
            ),
            (DirectRes::Tar { url: u1, cksum: c1 }, DirectRes::Tar { url: u2, cksum: c2 }) => {
                str_eq(u1.as_str(), u2.as_str()) && match (c1, c2) {
                    (Some(a), Some(b)) => str_eq(a.hash.as_str(), b.hash.as_str()),
                    (None, None) => true,
                    _ => false,
                }
            },
            _ => false,
        }
    }

    /// Loose equality: two git sources are the same repository whatever their tags.
    pub fn lowkey_eq(&self, other: &DirectRes) -> (r: bool)
        ensures
            r == direct_res_lowkey_eq(self@, other@),
    {
        match (self, other) {
            (DirectRes::Git { repo: r1, .. }, DirectRes::Git { repo: r2, .. }) => str_eq(
                r1.as_str(),
                r2.as_str(),
            ),
            _ => self.same(other),
        }
    }
}

/// A source reached through an index, which is itself found at a direct source.
#[derive(Debug)]
pub struct IndexRes {
    pub res: DirectRes,
}

/// What `IndexRes::from_str` makes of a text.
pub open spec fn index_res_parse(s: Seq<char>) -> Option<DirectResV> {
    match split_kind(s) {
        Some((kind, rest)) => if kind == "index"@ {
            direct_res_parse(rest)
        } else {
            None
        },
        None => None,
    }
}

pub open spec fn index_res_text(d: DirectResV) -> Seq<char> {
    "index+"@ + direct_res_text(d)
}

impl IndexRes {
    /// Parses `index+<direct source>`.
    pub fn from_str(s: &str) -> (r: Result<IndexRes, crate::errors::ErrorKind>)
        ensures
            match r {
                Ok(i) => index_res_parse(s@) == Some(i.res@),
                Err(e) => index_res_parse(s@) is None && e == crate::errors::ErrorKind::InvalidSourceUrl,
            },
    {
        let bad = crate::errors::ErrorKind::InvalidSourceUrl;
        match split_at_plus(s) {
            Some((kind, rest)) => {
                if str_eq(kind.as_str(), "index") {
                    match DirectRes::from_str(rest.as_str()) {
                        Ok(res) => Ok(IndexRes { res }),
                        Err(_) => Err(bad),
                    }
                } else {
                    Err(bad)
                }
            },
            None => Err(bad),
        }
    }

    pub fn to_text(&self) -> (r: String)
        ensures
            r@ == index_res_text(self.res@),
    {
        let mut s = String::new();
        push_str(&mut s, "index+");
        let t = self.res.to_text();
        push_str(&mut s, t.as_str());
        s
    }

    pub fn copy(&self) -> (r: IndexRes)
        ensures
            r.res@ == self.res@,
    {
        IndexRes { res: self.res.copy() }
    }

    pub fn same(&self, other: &IndexRes) -> (r: bool)
        ensures
            r == direct_res_eq(self.res@, other.res@),
    {
        self.res.same(&other.res)
    }
}

/// Where a package is resolved from.
#[derive(Debug)]
pub enum Resolution {
    Direct(DirectRes),
    Index(IndexRes),
}

pub enum ResolutionV {
    Direct(DirectResV),
    Index(DirectResV),
}

impl View for Resolution {
    type V = ResolutionV;

    open spec fn view(&self) -> ResolutionV {
        match self {
            Resolution::Direct(d) => ResolutionV::Direct(d@),
            Resolution::Index(i) => ResolutionV::Index(i.res@),
        }
    }
}

/// What `Resolution::from_str` makes of a text: a direct source where it is one, else an index.
pub open spec fn resolution_parse(s: Seq<char>) -> Option<ResolutionV> {
    match direct_res_parse(s) {
        Some(d) => Some(ResolutionV::Direct(d)),
        None => match index_res_parse(s) {
            Some(d) => Some(ResolutionV::Index(d)),
            None => None,
        },
    }
}

pub open spec fn resolution_text(r: ResolutionV) -> Seq<char> {
    match r {
        ResolutionV::Direct(d) => direct_res_text(d),
        ResolutionV::Index(d) => index_res_text(d),
    }
}

pub open spec fn resolution_eq(a: ResolutionV, b: ResolutionV) -> bool {
    match (a, b) {
        (ResolutionV::Direct(d1), ResolutionV::Direct(d2)) => direct_res_eq(d1, d2),
        (ResolutionV::Index(d1), ResolutionV::Index(d2)) => direct_res_eq(d1, d2),
        _ => false,
    }
}

impl Resolution {
    pub fn from_str(s: &str) -> (r: Result<Resolution, crate::errors::ErrorKind>)
        ensures
            match r {
                Ok(res) => resolution_parse(s@) == Some(res@),
                Err(e) => resolution_parse(s@) is None && e == crate::errors::ErrorKind::InvalidSourceUrl,
            },
    {
        match DirectRes::from_str(s) {
            Ok(d) => Ok(Resolution::Direct(d)),
            Err(_) => match IndexRes::from_str(s) {
                Ok(i) => Ok(Resolution::Index(i)),
                Err(e) => Err(e),
            },
        }
    }

    pub fn to_text(&self) -> (r: String)
        ensures
            r@ == resolution_text(self@),
    {
        match self {
            Resolution::Direct(d) => d.to_text(),
            Resolution::Index(i) => i.to_text(),
        }
    }

    pub fn copy(&self) -> (r: Resolution)
        ensures
            r@ == self@,
    {
        match self {
            Resolution::Direct(d) => Resolution::Direct(d.copy()),
            Resolution::Index(i) => Resolution::Index(i.copy()),
        }
    }

    /// The direct source, where this is one.
    pub fn direct(&self) -> (r: Option<&DirectRes>)
        ensures
            match r {
                Some(d) => self@ == ResolutionV::Direct(d@),
                None => self@ is Index,
            },
    {
        match self {
            Resolution::Direct(d) => Some(d),
            Resolution::Index(_) => None,
        }
    }

    pub fn is_tar(&self) -> (r: bool)
        ensures
            r == (self@ matches ResolutionV::Direct(d) && d is Tar),
    {
        match self {
            Resolution::Direct(d) => d.is_tar(),
            _ => false,
        }
    }

    pub fn is_git(&self) -> (r: bool)
        ensures
            r == (self@ matches ResolutionV::Direct(d) && d is Git),
    {
        match self {
            Resolution::Direct(d) => d.is_git(),
            _ => false,
        }
    }

    pub fn is_dir(&self) -> (r: bool)
        ensures
            r == (self@ matches ResolutionV::Direct(d) && d is Dir),
    {
        match self {
            Resolution::Direct(d) => d.is_dir(),
            _ => false,
        }
    }

    /// Equality of resolutions.
    pub fn same(&self, other: &Resolution) -> (r: bool)
        ensures
            r == resolution_eq(self@, other@),
    {
        match (self, other) {
            (Resolution::Direct(d1), Resolution::Direct(d2)) => d1.same(d2),
            (Resolution::Index(i1), Resolution::Index(i2)) => i1.same(i2),
            _ => false,
        }
    }

    /// Loose equality: direct sources compared loosely, indices exactly.
    pub fn lowkey_eq(&self, other: &Resolution) -> (r: bool)
        ensures
            r == match (self@, other@) {
                (ResolutionV::Direct(d1), ResolutionV::Direct(d2)) => direct_res_lowkey_eq(d1, d2),
                (ResolutionV::Index(d1), ResolutionV::Index(d2)) => direct_res_eq(d1, d2),
                _ => false,
            },
    {
        match (self, other) {
            (Resolution::Direct(d1), Resolution::Direct(d2)) => d1.lowkey_eq(d2),
            (Resolution::Index(i1), Resolution::Index(i2)) => i1.same(i2),
            _ => false,
        }
    }
}

// ---------------------------------------------------------------------------------------
// Laws of the source syntax.

/// A kind without a `+` is split off exactly from what follows its `+`.
proof fn lemma_split_kind(kind: Seq<char>, rest: Seq<char>)
    requires
        forall|i: int| 0 <= i < kind.len() ==> #[trigger] kind[i] != '+',
    ensures
        split_kind(kind + seq!['+'] + rest) == Some((kind, rest)),
{
    let s = kind + seq!['+'] + rest;
    crate::package::lemma_first_index_concat(kind, rest, '+');
    assert(s.take(kind.len() as int) =~= kind);
    assert(s.skip(kind.len() as int + 1) =~= rest);
}

/// What a source's kind makes of the location after it: a git source is the URL's
/// repository (without its fragment) at the tag that the fragment names, `master` where it
/// names none; a directory source is the path as written; a tarball source is accepted
/// exactly where its URL's scheme is `http`, `https` or `file`, and is then that URL without
/// its fragment, with a checksum where the fragment reads as one.
pub proof fn law_direct_res_kinds(u: Seq<char>)
    ensures
        direct_res_parse("dir+"@ + u) == Some(DirectResV::Dir { path: u }),
        url_parse(u) is None ==> direct_res_parse("git+"@ + u) is None && direct_res_parse("tar+"@ + u) is None,
        url_parse(u) matches Some((base, scheme, frag)) ==> {
            &&& direct_res_parse("git+"@ + u) == Some(DirectResV::Git {
                repo: base,
                tag: if frag is Some { frag.unwrap() } else { "master"@ },
            })
            &&& (scheme == "http"@ || scheme == "https"@ || scheme == "file"@) ==> direct_res_parse(
                "tar+"@ + u,
            ) == Some(
                (DirectResV::Tar {
                    url: base,
                    cksum: if frag is Some {
                        checksum_parse(frag.unwrap())
                    } else {
                        None
                    },
                }),
            )
            &&& !(scheme == "http"@ || scheme == "https"@ || scheme == "file"@) ==> direct_res_parse(
                "tar+"@ + u,
            ) is None
        },
{
    reveal_strlit("dir+");
    reveal_strlit("git+");
    reveal_strlit("tar+");
    reveal_strlit("dir");
    reveal_strlit("git");
    reveal_strlit("tar");
    reveal_strlit("master");
    assert("dir+"@ == "dir"@ + seq!['+']);
    assert("git+"@ == "git"@ + seq!['+']);
    assert("tar+"@ == "tar"@ + seq!['+']);
    lemma_split_kind("dir"@, u);
    lemma_split_kind("git"@, u);
    lemma_split_kind("tar"@, u);
    assert("git"@ != "dir"@);
    assert("tar"@ != "dir"@ && "tar"@ != "git"@);
}

/// An index source is the direct source written after `index+`; a resolution reads a direct
/// source as itself and `index+` followed by one as that index.
pub proof fn law_index_sources(d: Seq<char>)
    ensures
        index_res_parse("index+"@ + d) == direct_res_parse(d),
        direct_res_parse(d) matches Some(x) ==> resolution_parse(d) == Some(ResolutionV::Direct(x))
            && resolution_parse("index+"@ + d) == Some(ResolutionV::Index(x)),
{
    reveal_strlit("index+");
    reveal_strlit("index");
    reveal_strlit("git");
    reveal_strlit("dir");
    reveal_strlit("tar");
    assert("index+"@ =~= "index"@ + seq!['+']);
    lemma_split_kind("index"@, d);
    assert("index"@.len() == 5 && "git"@.len() == 3 && "dir"@.len() == 3 && "tar"@.len() == 3);
}

} // verus!

//! Registries that packages are published to, and the listing of search results.

use vstd::prelude::*;
use crate::text::{push_char, push_str};
use crate::package::{Name, NameV, name_text};
use crate::version::{Version, VersionV, version_text};
use crate::resolution::{DirectRes, DirectResV, IndexRes, direct_res_eq, index_res_text, str_eq,
    url_parse, url_parts_view, UrlParts};

verus! {

/// A registry, at an http or https URL.
#[derive(Debug)]
pub struct Registry {
    url: UrlParts,
}

/// What a registry reports of itself.
#[derive(Debug, PartialEq, Eq, Structural, Copy, Clone, Hash)]
pub struct RegistryMeta {
    pub api: u16,
}

/// The packages that a registry's search answers with.
#[derive(Debug, Clone)]
pub struct SearchResponse<T> {
    pub packages: Vec<T>,
}

/// A package in a search response.
#[derive(Debug, Clone)]
pub struct SearchPkg {
    pub group: String,
    pub name: String,
}

/// Why a registry URL was refused.
#[derive(Debug, PartialEq, Eq, Structural, Copy, Clone)]
pub enum RegistryError {
    InvalidUrl,
    /// The URL's scheme is neither http nor https.
    InvalidScheme,
}

/// The text of a URL: its serialization without the fragment, then `#` and the fragment where
/// there is one.
pub open spec fn url_text(p: (Seq<char>, Seq<char>, Option<Seq<char>>)) -> Seq<char> {
    p.0 + match p.2 {
        Some(f) => seq!['#'] + f,
        None => Seq::empty(),
    }
}

/// What `Registry::from_str` makes of a text: the URL's parts.
pub open spec fn registry_parse(s: Seq<char>) -> Result<(Seq<char>, Seq<char>, Option<Seq<char>>), RegistryError> {
    match url_parse(s) {
        None => Err(RegistryError::InvalidUrl),
        Some(p) => if p.1 != "http"@ && p.1 != "https"@ {
            Err(RegistryError::InvalidScheme)
        } else {
            Ok(p)
        },
    }
}

impl Registry {
    pub closed spec fn parts(&self) -> (Seq<char>, Seq<char>, Option<Seq<char>>) {
        url_parts_view(self.url)
    }

    /// Parses a registry URL, which must use http or https.
    pub fn from_str(s: &str) -> (r: Result<Registry, RegistryError>)
        ensures
            match r {
                Ok(reg) => registry_parse(s@) == Ok::<_, RegistryError>(reg.parts()),
                Err(e) => registry_parse(s@) == Err::<(Seq<char>, Seq<char>, Option<Seq<char>>), RegistryError>(e),
            },
    {
        match crate::resolution::parse_url(s) {
            None => Err(RegistryError::InvalidUrl),
            Some(p) => {
                if !str_eq(p.scheme.as_str(), "http") && !str_eq(p.scheme.as_str(), "https") {
                    Err(RegistryError::InvalidScheme)
                } else {
                    Ok(Registry { url: p })
                }
            },
        }
    }

    /// The registry's URL.
    pub fn to_text(&self) -> (r: String)
        ensures
            r@ == url_text(self.parts()),
    {
        let mut s = String::new();
        push_str(&mut s, self.url.base.as_str());
        match &self.url.fragment {
            Some(f) => {
                push_char(&mut s, '#');
                push_str(&mut s, f.as_str());
            },
            None => {},
        }
        s
    }
}

/// One search result: `"name" = "version"` for the default index, and
/// `"name" = "{ version = v, index = i }"` for another.
pub open spec fn search_line(n: NameV, v: VersionV, ir: DirectResV, default_index: DirectResV) -> Seq<char> {
    if direct_res_eq(ir, default_index) {
        seq!['"'] + name_text(n) + "\" = \""@ + version_text(v) + seq!['"']
    } else {
        seq!['"'] + name_text(n) + "\" = \"{ version = "@ + version_text(v) + ", index = "@
            + index_res_text(ir) + " }\""@
    }
}

/// The search results, one after the other.
pub open spec fn search_text(pkgs: Seq<(NameV, VersionV, DirectResV)>, default_index: DirectResV) -> Seq<char>
    decreases pkgs.len(),
{
    if pkgs.len() == 0 {
        Seq::empty()
    } else {
        let last = pkgs.last();
        search_text(pkgs.drop_last(), default_index) + search_line(last.0, last.1, last.2, default_index)
    }
}

pub open spec fn hits_view(pkgs: Seq<(Name, Version, IndexRes)>) -> Seq<(NameV, VersionV, DirectResV)> {
    pkgs.map_values(|p: (Name, Version, IndexRes)| (p.0@, p.1@, p.2.res@))
}

/// Lists the packages that a search found, with the index that each comes from where it is not
/// the default index.
pub fn search(pkgs: &Vec<(Name, Version, IndexRes)>, default_index: &DirectRes) -> (r: String)
    ensures
        r@ == search_text(hits_view(pkgs@), default_index@),
{
    let mut res = String::new();
    let mut i: usize = 0;
    while i < pkgs.len()
        invariant
            i <= pkgs.len(),
            res@ == search_text(hits_view(pkgs@).take(i as int), default_index@),
        decreases pkgs.len() - i,
    {
        let (name, ver, ir) = (&pkgs[i].0, &pkgs[i].1, &pkgs[i].2);
        let ghost before = res@;
        push_char(&mut res, '"');
        push_str(&mut res, name.as_str());
        if ir.res.same(default_index) {
            push_str(&mut res, "\" = \"");
            let v = ver.to_text();
            push_str(&mut res, v.as_str());
            push_char(&mut res, '"');
        } else {
            push_str(&mut res, "\" = \"{ version = ");
            let v = ver.to_text();
            push_str(&mut res, v.as_str());
            push_str(&mut res, ", index = ");
            let t = ir.to_text();
            push_str(&mut res, t.as_str());
            push_str(&mut res, " }\"");
        }
        proof {
            let h = hits_view(pkgs@);
            assert(h.take(i as int + 1).drop_last() =~= h.take(i as int));
            assert(h.take(i as int + 1).last() == (name@, ver@, ir.res@));
            assert(res@ =~= before + search_line(name@, ver@, ir.res@, default_index@));
        }
        i = i + 1;
    }
    assert(hits_view(pkgs@).take(pkgs.len() as int) =~= hits_view(pkgs@));
    res
}

} // verus!

//! The `ipkg` package description of Idris: its grammar and what it describes.
//!
//! A file is a list of items, `package <name>` or `<key> = <values>`, where values are
//! separated by commas and are either quoted or made of letters, digits, `_`, `-` and `.`.
//! Comments (`{- ... -}` and `-- ...` up to the end of the line) may come before an item.

use vstd::prelude::*;
use crate::resolution::str_eq;

verus! {

// ---------------------------------------------------------------------------------------
// The grammar.

pub open spec fn is_multispace(c: char) -> bool {
    c == ' ' || c == '\t' || c == '\r' || c == '\n'
}

pub open spec fn is_space(c: char) -> bool {
    c == ' ' || c == '\t'
}

/// A character of a package name or a key: an ASCII letter or digit, `_` or `-`.
pub open spec fn is_name_char(c: char) -> bool {
    ('a' <= c && c <= 'z') || ('A' <= c && c <= 'Z') || ('0' <= c && c <= '9') || c == '_' || c == '-'
}

pub open spec fn is_plain_char(c: char) -> bool {
    c == '.' || is_name_char(c)
}

/// The end of the run of characters from `i` on that `p` accepts.
pub open spec fn run_end(s: Seq<char>, i: int, p: spec_fn(char) -> bool) -> int
    decreases s.len() - i,
{
    if 0 <= i < s.len() && p(s[i]) {
        run_end(s, i + 1, p)
    } else {
        i
    }
}

pub open spec fn ms_end(s: Seq<char>, i: int) -> int {
    run_end(s, i, |c: char| is_multispace(c))
}

pub open spec fn sp_end(s: Seq<char>, i: int) -> int {
    run_end(s, i, |c: char| is_space(c))
}

pub open spec fn name_end(s: Seq<char>, i: int) -> int {
    run_end(s, i, |c: char| is_name_char(c))
}

pub open spec fn plain_end(s: Seq<char>, i: int) -> int {
    run_end(s, i, |c: char| is_plain_char(c))
}

/// Whether `t` occurs in `s` at `i`.
pub open spec fn has_tag(s: Seq<char>, i: int, t: Seq<char>) -> bool {
    0 <= i && i + t.len() <= s.len() && s.subrange(i, i + t.len()) == t
}

/// The first position at or after `i` where `t` occurs, or -1.
pub open spec fn find_from(s: Seq<char>, i: int, t: Seq<char>) -> int
    decreases s.len() + 1 - i,
{
    if i < 0 || i + t.len() > s.len() {
        -1
    } else if has_tag(s, i, t) {
        i
    } else {
        find_from(s, i + 1, t)
    }
}

/// `{- ... -}`, after blank space.
pub open spec fn comment_multi(s: Seq<char>, i: int) -> Option<int> {
    let j = ms_end(s, i);
    if has_tag(s, j, "{-"@) {
        let k = find_from(s, j + 2, "-}"@);
        if k >= 0 {
            Some(k + 2)
        } else {
            None
        }
    } else {
        None
    }
}

/// `-- ...` up to and including the end of the line, after blank space.
pub open spec fn comment_single(s: Seq<char>, i: int) -> Option<int> {
    let j = ms_end(s, i);
    if has_tag(s, j, "--"@) {
        let k = find_from(s, j + 2, "\n"@);
        if k >= 0 {
            Some(k + 1)
        } else {
            None
        }
    } else {
        None
    }
}

pub open spec fn comment(s: Seq<char>, i: int) -> Option<int> {
    match comment_multi(s, i) {
        Some(k) => Some(k),
        None => comment_single(s, i),
    }
}

/// The end of the comments from `i` on.
pub open spec fn comments_end(s: Seq<char>, i: int) -> int
    decreases s.len() - i,
{
    if 0 <= i <= s.len() {
        match comment(s, i) {
            Some(k) => if i < k <= s.len() {
                comments_end(s, k)
            } else {
                i
            },
            None => i,
        }
    } else {
        i
    }
}

/// `package <name>`, after comments and blank space.
pub open spec fn package_name(s: Seq<char>, i: int) -> Option<(Seq<char>, int)> {
    let j = ms_end(s, comments_end(s, i));
    if has_tag(s, j, "package"@) {
        let k = sp_end(s, j + 7);
        let e = name_end(s, k);
        if k > j + 7 && e > k {
            Some((s.subrange(k, e), e))
        } else {
            None
        }
    } else {
        None
    }
}

/// `<key> =`, after comments and blank space, with spaces before the `=`.
pub open spec fn key(s: Seq<char>, i: int) -> Option<(Seq<char>, int)> {
    let j = ms_end(s, comments_end(s, i));
    let e = name_end(s, j);
    let k = sp_end(s, e);
    if e > j && has_tag(s, k, "="@) {
        Some((s.subrange(j, e), k + 1))
    } else {
        None
    }
}

/// A quoted value, not empty, after blank space.
pub open spec fn value_quote(s: Seq<char>, i: int) -> Option<(Seq<char>, int)> {
    let j = ms_end(s, i);
    if has_tag(s, j, "\""@) {
        let k = find_from(s, j + 1, "\""@);
        if k > j + 1 {
            Some((s.subrange(j + 1, k), k + 1))
        } else {
            None
        }
    } else {
        None
    }
}

/// A plain value, after blank space.
pub open spec fn value_plain(s: Seq<char>, i: int) -> Option<(Seq<char>, int)> {
    let j = ms_end(s, i);
    let e = plain_end(s, j);
    if e > j {
        Some((s.subrange(j, e), e))
    } else {
        None
    }
}

pub open spec fn value(s: Seq<char>, i: int) -> Option<(Seq<char>, int)> {
    match value_quote(s, i) {
        Some(r) => Some(r),
        None => value_plain(s, i),
    }
}

/// A comma with blank space around it.
pub open spec fn sep(s: Seq<char>, i: int) -> Option<int> {
    let j = ms_end(s, i);
    if has_tag(s, j, ","@) {
        Some(ms_end(s, j + 1))
    } else {
        None
    }
}

/// Further values, each after a separator; a separator not followed by a value is left.
pub open spec fn values_more(s: Seq<char>, i: int, acc: Seq<Seq<char>>) -> (Seq<Seq<char>>, int)
    decreases s.len() - i,
{
    match sep(s, i) {
        None => (acc, i),
        Some(i1) => match value(s, i1) {
            None => (acc, i),
            Some((v, i2)) => if i < i2 <= s.len() {
                values_more(s, i2, acc.push(v))
            } else {
                (acc, i)
            },
        },
    }
}

/// A list of values separated by commas, possibly empty.
pub open spec fn values(s: Seq<char>, i: int) -> (Seq<Seq<char>>, int) {
    match value(s, i) {
        None => (seq![], i),
        Some((v, i1)) => values_more(s, i1, seq![v]),
    }
}

/// An item of the file, as written.
#[derive(Debug, PartialEq, Eq)]
pub enum IpkgItem {
    PackageName(String),
    Vec(String, Vec<String>),
}

pub enum IpkgItemV {
    PackageName(Seq<char>),
    Vec(Seq<char>, Seq<Seq<char>>),
}

pub open spec fn strings_view(v: Seq<String>) -> Seq<Seq<char>> {
    v.map_values(|s: String| s@)
}

impl View for IpkgItem {
    type V = IpkgItemV;

    open spec fn view(&self) -> IpkgItemV {
        match self {
            IpkgItem::PackageName(n) => IpkgItemV::PackageName(n@),
            IpkgItem::Vec(k, v) => IpkgItemV::Vec(k@, strings_view(v@)),
        }
    }
}

pub open spec fn items_view(v: Seq<IpkgItem>) -> Seq<IpkgItemV> {
    v.map_values(|i: IpkgItem| i@)
}

/// One item: a package name, else a key with its values.
pub open spec fn item(s: Seq<char>, i: int) -> Option<(IpkgItemV, int)> {
    match package_name(s, i) {
        Some((n, j)) => Some((IpkgItemV::PackageName(n), j)),
        None => match key(s, i) {
            Some((k, j)) => {
                let (vs, e) = values(s, j);
                Some((IpkgItemV::Vec(k, vs), e))
            },
            None => None,
        },
    }
}

pub open spec fn items_more(s: Seq<char>, i: int, acc: Seq<IpkgItemV>) -> (Seq<IpkgItemV>, int)
    decreases s.len() - i,
{
    match item(s, i) {
        None => (acc, i),
        Some((it, j)) => if i < j <= s.len() {
            items_more(s, j, acc.push(it))
        } else {
            (acc, i)
        },
    }
}

/// The items of a file: at least one, then only blank space to the end.
pub open spec fn ipkg_items(s: Seq<char>) -> Option<Seq<IpkgItemV>> {
    match item(s, 0) {
        None => None,
        Some((it, j)) => {
            let (all, e) = items_more(s, j, seq![it]);
            if ms_end(s, e) == s.len() {
                Some(all)
            } else {
                None
            }
        },
    }
}

// ---------------------------------------------------------------------------------------
// Recognizers.

proof fn lemma_run_end(s: Seq<char>, i: int, p: spec_fn(char) -> bool)
    requires
        0 <= i <= s.len(),
    ensures
        i <= run_end(s, i, p) <= s.len(),
        forall|k: int| i <= k < run_end(s, i, p) ==> p(#[trigger] s[k]),
        run_end(s, i, p) < s.len() ==> !p(s[run_end(s, i, p)]),
    decreases s.len() - i,
{
    if i < s.len() && p(s[i]) {
        lemma_run_end(s, i + 1, p);
    }
}

fn run_end_exec(cs: &Vec<char>, i: usize, kind: u8) -> (r: usize)
    requires
        i <= cs.len(),
        kind < 4,
    ensures
        r == run_end(cs@, i as int, kind_pred(kind)),
        i <= r <= cs.len(),
{
    let mut k = i;
    while k < cs.len() && char_of_kind(cs[k], kind)
        invariant
            i <= k <= cs.len(),
            kind < 4,
            run_end(cs@, i as int, kind_pred(kind)) == run_end(cs@, k as int, kind_pred(kind)),
        decreases cs.len() - k,
    {
        k = k + 1;
    }
    k
}

/// The character classes: blank space, spaces, name characters, plain value characters.
pub open spec fn kind_pred(kind: u8) -> spec_fn(char) -> bool {
    if kind == 0 {
        |c: char| is_multispace(c)
    } else if kind == 1 {
        |c: char| is_space(c)
    } else if kind == 2 {
        |c: char| is_name_char(c)
    } else {
        |c: char| is_plain_char(c)
    }
}

/// Whether a character belongs to ipkg's name characters: an ASCII letter or digit, `_`
/// or `-`.
pub fn valid_name_char(c: char) -> (r: bool)
    ensures
        r == is_name_char(c),
{
    ('a' <= c && c <= 'z') || ('A' <= c && c <= 'Z') || ('0' <= c && c <= '9') || c == '_' || c == '-'
}

fn char_of_kind(c: char, kind: u8) -> (r: bool)
    requires
        kind < 4,
    ensures
        r == kind_pred(kind)(c),
{
    if kind == 0 {
        c == ' ' || c == '\t' || c == '\r' || c == '\n'
    } else if kind == 1 {
        c == ' ' || c == '\t'
    } else if kind == 2 {
        valid_name_char(c)
    } else {
        c == '.' || valid_name_char(c)
    }
}

fn has_tag_exec(cs: &Vec<char>, i: usize, t: &str) -> (r: bool)
    requires
        i <= cs.len(),
    ensures
        r == has_tag(cs@, i as int, t@),
{
    let n = t.unicode_len();
    if n > cs.len() - i {
        return false;
    }
    let mut k: usize = 0;
    while k < n
        invariant
            n == t@.len(),
            i + n <= cs.len(),
            k <= n,
            forall|j: int| 0 <= j < k ==> cs@[i + j] == t@[j],
        decreases n - k,
    {
        if cs[i + k] != t.get_char(k) {
            assert(cs@.subrange(i as int, i + n)[k as int] == cs@[i + k]);
            return false;
        }
        k = k + 1;
    }
    assert(cs@.subrange(i as int, i + n) =~= t@);
    true
}

/// The first position at or after `i` where `t` occurs, or the length of `cs` where there is
/// none.
fn find_from_exec(cs: &Vec<char>, i: usize, t: &str) -> (r: usize)
    requires
        i <= cs.len(),
        t@.len() > 0,
    ensures
        r <= cs.len(),
        r == cs.len() ==> find_from(cs@, i as int, t@) == -1,
        r < cs.len() ==> find_from(cs@, i as int, t@) == r,
{
    let mut k = i;
    let n = t.unicode_len();
    while k <= cs.len()
        invariant
            i <= k <= cs.len(),
            n == t@.len(),
            n > 0,
            find_from(cs@, i as int, t@) == find_from(cs@, k as int, t@),
        decreases cs.len() + 1 - k,
    {
        if n > cs.len() - k {
            return cs.len();
        }
        if has_tag_exec(cs, k, t) {
            return k;
        }
        k = k + 1;
    }
    cs.len()
}

proof fn lemma_find_from(s: Seq<char>, i: int, t: Seq<char>)
    requires
        0 <= i,
    ensures
        find_from(s, i, t) == -1 || (i <= find_from(s, i, t) && find_from(s, i, t) + t.len() <= s.len()
            && has_tag(s, find_from(s, i, t), t)),
    decreases s.len() + 1 - i,
{
    if !(i + t.len() > s.len()) && !has_tag(s, i, t) {
        lemma_find_from(s, i + 1, t);
    }
}

fn ms_exec(cs: &Vec<char>, i: usize) -> (r: usize)
    requires
        i <= cs.len(),
    ensures
        r == ms_end(cs@, i as int),
        i <= r <= cs.len(),
{
    proof {
        assert(kind_pred(0) == (|c: char| is_multispace(c)));
    }
    run_end_exec(cs, i, 0)
}

fn sp_exec(cs: &Vec<char>, i: usize) -> (r: usize)
    requires
        i <= cs.len(),
    ensures
        r == sp_end(cs@, i as int),
        i <= r <= cs.len(),
{
    proof {
        assert(kind_pred(1) == (|c: char| is_space(c)));
    }
    run_end_exec(cs, i, 1)
}

fn name_exec(cs: &Vec<char>, i: usize) -> (r: usize)
    requires
        i <= cs.len(),
    ensures
        r == name_end(cs@, i as int),
        i <= r <= cs.len(),
{
    proof {
        assert(kind_pred(2) == (|c: char| is_name_char(c)));
    }
    run_end_exec(cs, i, 2)
}

fn plain_exec(cs: &Vec<char>, i: usize) -> (r: usize)
    requires
        i <= cs.len(),
    ensures
        r == plain_end(cs@, i as int),
        i <= r <= cs.len(),
{
    proof {
        assert(kind_pred(3) == (|c: char| is_plain_char(c)));
    }
    run_end_exec(cs, i, 3)
}

/// A comment at `i`: where it ends.
fn comment_exec(cs: &Vec<char>, i: usize) -> (r: Option<usize>)
    requires
        i <= cs.len(),
    ensures
        match r {
            Some(k) => comment(cs@, i as int) == Some(k as int) && i < k <= cs.len(),
            None => comment(cs@, i as int) is None,
        },
{
    let j = ms_exec(cs, i);
    proof {
        reveal_strlit("{-");
        reveal_strlit("--");
        reveal_strlit("-}");
        reveal_strlit("\n");
    }
    if has_tag_exec(cs, j, "{-") {
        let k = find_from_exec(cs, j + 2, "-}");
        proof {
            reveal_strlit("-}");
            lemma_find_from(cs@, j + 2, "-}"@);
        }
        if k < cs.len() {
            return Some(k + 2);
        }
    }
    if has_tag_exec(cs, j, "--") {
        let k = find_from_exec(cs, j + 2, "\n");
        proof {
            reveal_strlit("\n");
            reveal_strlit("--");
            lemma_find_from(cs@, j + 2, "\n"@);
        }
        if k < cs.len() {
            return Some(k + 1);
        }
    }
    proof {
        reveal_strlit("{-");
        reveal_strlit("--");
    }
    None
}

fn comments_exec(cs: &Vec<char>, i: usize) -> (r: usize)
    requires
        i <= cs.len(),
    ensures
        r == comments_end(cs@, i as int),
        i <= r <= cs.len(),
{
    let mut k = i;
    while k <= cs.len()
        invariant
            i <= k <= cs.len(),
            comments_end(cs@, i as int) == comments_end(cs@, k as int),
        decreases cs.len() - k,
    {
        match comment_exec(cs, k) {
            Some(e) => {
                k = e;
            },
            None => {
                return k;
            },
        }
    }
    k
}

fn substring(cs: &Vec<char>, a: usize, b: usize) -> (r: String)
    requires
        a <= b <= cs.len(),
    ensures
        r@ == cs@.subrange(a as int, b as int),
{
    crate::text::string_of_chars(cs, a, b)
}

fn package_name_exec(cs: &Vec<char>, i: usize) -> (r: Option<(String, usize)>)
    requires
        i <= cs.len(),
    ensures
        match r {
            Some((n, e)) => package_name(cs@, i as int) == Some((n@, e as int)) && i < e <= cs.len(),
            None => package_name(cs@, i as int) is None,
        },
{
    let c = comments_exec(cs, i);
    let j = ms_exec(cs, c);
    if !has_tag_exec(cs, j, "package") {
        return None;
    }
    proof {
        reveal_strlit("package");
    }
    let k = sp_exec(cs, j + 7);
    let e = name_exec(cs, k);
    if k > j + 7 && e > k {
        Some((substring(cs, k, e), e))
    } else {
        None
    }
}

fn key_exec(cs: &Vec<char>, i: usize) -> (r: Option<(String, usize)>)
    requires
        i <= cs.len(),
    ensures
        match r {
            Some((n, e)) => key(cs@, i as int) == Some((n@, e as int)) && i < e <= cs.len(),
            None => key(cs@, i as int) is None,
        },
{
    let c = comments_exec(cs, i);
    let j = ms_exec(cs, c);
    let e = name_exec(cs, j);
    let k = sp_exec(cs, e);
    if e > j && has_tag_exec(cs, k, "=") {
        proof {
            reveal_strlit("=");
        }
        Some((substring(cs, j, e), k + 1))
    } else {
        None
    }
}

fn value_exec(cs: &Vec<char>, i: usize) -> (r: Option<(String, usize)>)
    requires
        i <= cs.len(),
    ensures
        match r {
            Some((v, e)) => value(cs@, i as int) == Some((v@, e as int)) && i < e <= cs.len(),
            None => value(cs@, i as int) is None,
        },
{
    let j = ms_exec(cs, i);
    proof {
        reveal_strlit("\"");
    }
    if has_tag_exec(cs, j, "\"") {
        let k = find_from_exec(cs, j + 1, "\"");
        proof {
            lemma_find_from(cs@, j + 1, "\""@);
        }
        if k < cs.len() && k > j + 1 {
            return Some((substring(cs, j + 1, k), k + 1));
        }
    }
    let e = plain_exec(cs, j);
    if e > j {
        Some((substring(cs, j, e), e))
    } else {
        None
    }
}

fn values_exec(cs: &Vec<char>, i: usize) -> (r: (Vec<String>, usize))
    requires
        i <= cs.len(),
    ensures
        (strings_view(r.0@), r.1 as int) == values(cs@, i as int),
        i <= r.1 <= cs.len(),
{
    let mut acc: Vec<String> = Vec::new();
    let (v, i1) = match value_exec(cs, i) {
        None => {
            assert(strings_view(acc@) =~= seq![]);
            return (acc, i);
        },
        Some(p) => p,
    };
    acc.push(v);
    let mut k = i1;
    assert(strings_view(acc@) =~= seq![v@]);
    while k <= cs.len()
        invariant
            i < k <= cs.len(),
            values(cs@, i as int) == values_more(cs@, k as int, strings_view(acc@)),
        decreases cs.len() - k,
    {
        let j = ms_exec(cs, k);
        proof {
            reveal_strlit(",");
        }
        if !has_tag_exec(cs, j, ",") {
            return (acc, k);
        }
        let i1 = ms_exec(cs, j + 1);
        match value_exec(cs, i1) {
            None => {
                return (acc, k);
            },
            Some((v, i2)) => {
                let ghost before = strings_view(acc@);
                acc.push(v);
                assert(strings_view(acc@) =~= before.push(v@));
                k = i2;
            },
        }
    }
    (acc, k)
}

fn item_exec(cs: &Vec<char>, i: usize) -> (r: Option<(IpkgItem, usize)>)
    requires
        i <= cs.len(),
    ensures
        match r {
            Some((it, e)) => item(cs@, i as int) == Some((it@, e as int)) && i < e <= cs.len(),
            None => item(cs@, i as int) is None,
        },
{
    match package_name_exec(cs, i) {
        Some((n, j)) => Some((IpkgItem::PackageName(n), j)),
        None => match key_exec(cs, i) {
            Some((k, j)) => {
                let (vs, e) = values_exec(cs, j);
                Some((IpkgItem::Vec(k, vs), e))
            },
            None => None,
        },
    }
}

/// Parses the items of an ipkg file.
pub fn parse_items(s: &str) -> (r: Option<Vec<IpkgItem>>)
    ensures
        match r {
            Some(v) => ipkg_items(s@) == Some(items_view(v@)),
            None => ipkg_items(s@) is None,
        },
{
    let cs = crate::text::str_chars(s);
    let (first, j) = match item_exec(&cs, 0) {
        None => return None,
        Some(p) => p,
    };
    let mut acc: Vec<IpkgItem> = Vec::new();
    let ghost f = first@;
    acc.push(first);
    assert(items_view(acc@) =~= seq![f]);
    let mut k = j;
    while k <= cs.len()
        invariant
            0 < k <= cs.len(),
            ipkg_items(s@) == (if ms_end(cs@, items_more(cs@, k as int, items_view(acc@)).1) == cs@.len() {
                Some(items_more(cs@, k as int, items_view(acc@)).0)
            } else {
                None
            }),
            cs@ == s@,
        decreases cs.len() - k,
    {
        match item_exec(&cs, k) {
            None => {
                let e = ms_exec(&cs, k);
                if e == cs.len() {
                    return Some(acc);
                } else {
                    return None;
                }
            },
            Some((it, e)) => {
                let ghost before = items_view(acc@);
                let ghost iv = it@;
                acc.push(it);
                assert(items_view(acc@) =~= before.push(iv));
                k = e;
            },
        }
    }
    None
}

// ---------------------------------------------------------------------------------------
// The description.

/// What an ipkg file describes.
#[derive(Debug)]
pub struct Ipkg {
    pub name: String,
    /// Packages this package depends on.
    pub pkgs: Vec<String>,
    pub brief: Option<String>,
    pub version: Option<String>,
    pub readme: Option<String>,
    pub license: Option<String>,
    pub author: Option<String>,
    pub maintainer: Option<String>,
    pub homepage: Option<String>,
    pub sourceloc: Option<String>,
    pub bugtracker: Option<String>,
    /// External libraries.
    pub libs: Vec<String>,
    /// Object files the package needs.
    pub objs: Vec<String>,
    /// The makefile that builds foreign code.
    pub makefile: Option<String>,
    /// Options for the compiler.
    pub opts: Vec<String>,
    pub sourcedir: String,
    pub modules: Vec<String>,
    /// The module with the main function, for an executable.
    pub main: Option<String>,
    pub executable: Option<String>,
    pub tests: Vec<String>,
}

pub struct IpkgV {
    pub name: Seq<char>,
    pub pkgs: Seq<Seq<char>>,
    pub brief: Option<Seq<char>>,
    pub version: Option<Seq<char>>,
    pub readme: Option<Seq<char>>,
    pub license: Option<Seq<char>>,
    pub author: Option<Seq<char>>,
    pub maintainer: Option<Seq<char>>,
    pub homepage: Option<Seq<char>>,
    pub sourceloc: Option<Seq<char>>,
    pub bugtracker: Option<Seq<char>>,
    pub libs: Seq<Seq<char>>,
    pub objs: Seq<Seq<char>>,
    pub makefile: Option<Seq<char>>,
    pub opts: Seq<Seq<char>>,
    pub sourcedir: Seq<char>,
    pub modules: Seq<Seq<char>>,
    pub main: Option<Seq<char>>,
    pub executable: Option<Seq<char>>,
    pub tests: Seq<Seq<char>>,
}

pub open spec fn opt_view(o: Option<String>) -> Option<Seq<char>> {
    match o {
        Some(s) => Some(s@),
        None => None,
    }
}

impl View for Ipkg {
    type V = IpkgV;

    open spec fn view(&self) -> IpkgV {
        IpkgV {
            name: self.name@,
            pkgs: strings_view(self.pkgs@),
            brief: opt_view(self.brief),
            version: opt_view(self.version),
            readme: opt_view(self.readme),
            license: opt_view(self.license),
            author: opt_view(self.author),
            maintainer: opt_view(self.maintainer),
            homepage: opt_view(self.homepage),
            sourceloc: opt_view(self.sourceloc),
            bugtracker: opt_view(self.bugtracker),
            libs: strings_view(self.libs@),
            objs: strings_view(self.objs@),
            makefile: opt_view(self.makefile),
            opts: strings_view(self.opts@),
            sourcedir: self.sourcedir@,
            modules: strings_view(self.modules@),
            main: opt_view(self.main),
            executable: opt_view(self.executable),
            tests: strings_view(self.tests@),
        }
    }
}

/// The empty description.
pub open spec fn ipkg_default() -> IpkgV {
    IpkgV {
        name: seq![],
        pkgs: seq![],
        brief: None,
        version: None,
        readme: None,
        license: None,
        author: None,
        maintainer: None,
        homepage: None,
        sourceloc: None,
        bugtracker: None,
        libs: seq![],
        objs: seq![],
        makefile: None,
        opts: seq![],
        sourcedir: seq![],
        modules: seq![],
        main: None,
        executable: None,
        tests: seq![],
    }
}

/// The last of the values, where there is one.
pub open spec fn last_value(v: Seq<Seq<char>>) -> Option<Seq<char>> {
    if v.len() == 0 {
        None
    } else {
        Some(v.last())
    }
}

/// Why an ipkg file was refused.
#[derive(Debug, PartialEq, Eq, Structural, Copy, Clone)]
pub enum IpkgError {
    /// The text does not follow the grammar.
    Syntax,
    /// `sourcedir` is given no value.
    MissingSourcedir,
}

/// One item applied to a description: a package name sets the name; a key sets its field (to
/// the last value where the field holds one value); unknown keys are ignored.
pub open spec fn apply_item(d: IpkgV, it: IpkgItemV) -> Result<IpkgV, IpkgError> {
    match it {
        IpkgItemV::PackageName(n) => Ok(IpkgV { name: n, ..d }),
        IpkgItemV::Vec(k, v) => if k == "pkgs"@ {
            Ok(IpkgV { pkgs: v, ..d })
        } else if k == "brief"@ {
            Ok(IpkgV { brief: last_value(v), ..d })
        } else if k == "version"@ {
            Ok(IpkgV { version: last_value(v), ..d })
        } else if k == "readme"@ {
            Ok(IpkgV { readme: last_value(v), ..d })
        } else if k == "license"@ {
            Ok(IpkgV { license: last_value(v), ..d })
        } else if k == "author"@ {
            Ok(IpkgV { author: last_value(v), ..d })
        } else if k == "maintainer"@ {
            Ok(IpkgV { maintainer: last_value(v), ..d })
        } else if k == "homepage"@ {
            Ok(IpkgV { homepage: last_value(v), ..d })
        } else if k == "sourceloc"@ {
            Ok(IpkgV { sourceloc: last_value(v), ..d })
        } else if k == "bugtracker"@ {
            Ok(IpkgV { bugtracker: last_value(v), ..d })
        } else if k == "libs"@ {
            Ok(IpkgV { libs: v, ..d })
        } else if k == "objs"@ {
            Ok(IpkgV { objs: v, ..d })
        } else if k == "makefile"@ {
            Ok(IpkgV { makefile: last_value(v), ..d })
        } else if k == "opts"@ {
            Ok(IpkgV { opts: v, ..d })
        } else if k == "sourcedir"@ {
            if v.len() == 0 {
                Err(IpkgError::MissingSourcedir)
            } else {
                Ok(IpkgV { sourcedir: v.last(), ..d })
            }
        } else if k == "modules"@ {
            Ok(IpkgV { modules: v, ..d })
        } else if k == "main"@ {
            Ok(IpkgV { main: last_value(v), ..d })
        } else if k == "executable"@ {
            Ok(IpkgV { executable: last_value(v), ..d })
        } else if k == "tests"@ {
            Ok(IpkgV { tests: v, ..d })
        } else {
            Ok(d)
        },
    }
}

/// The items applied in order to the empty description.
pub open spec fn apply_items(items: Seq<IpkgItemV>) -> Result<IpkgV, IpkgError>
    decreases items.len(),
{
    if items.len() == 0 {
        Ok(ipkg_default())
    } else {
        match apply_items(items.drop_last()) {
            Err(e) => Err(e),
            Ok(d) => apply_item(d, items.last()),
        }
    }
}

/// What `Ipkg::from_str` makes of a text.
pub open spec fn ipkg_parse(s: Seq<char>) -> Result<IpkgV, IpkgError> {
    match ipkg_items(s) {
        None => Err(IpkgError::Syntax),
        Some(items) => apply_items(items),
    }
}

fn last_of(v: Vec<String>) -> (r: Option<String>)
    ensures
        opt_view(r) == last_value(strings_view(v@)),
{
    let mut v = v;
    let ghost sv = strings_view(v@);
    match v.pop() {
        Some(x) => {
            assert(sv.last() == x@);
            Some(x)
        },
        None => None,
    }
}

impl Ipkg {
    /// The empty description.
    pub fn empty() -> (r: Ipkg)
        ensures
            r@ == ipkg_default(),
    {
        let r = Ipkg {
            name: String::new(),
            pkgs: Vec::new(),
            brief: None,
            version: None,
            readme: None,
            license: None,
            author: None,
            maintainer: None,
            homepage: None,
            sourceloc: None,
            bugtracker: None,
            libs: Vec::new(),
            objs: Vec::new(),
            makefile: None,
            opts: Vec::new(),
            sourcedir: String::new(),
            modules: Vec::new(),
            main: None,
            executable: None,
            tests: Vec::new(),
        };
        assert(strings_view(r.pkgs@) =~= seq![]);
        assert(strings_view(r.libs@) =~= seq![]);
        assert(strings_view(r.objs@) =~= seq![]);
        assert(strings_view(r.opts@) =~= seq![]);
        assert(strings_view(r.modules@) =~= seq![]);
        assert(strings_view(r.tests@) =~= seq![]);
        assert(r.name@ =~= seq![]);
        assert(r.sourcedir@ =~= seq![]);
        assert(r@ == ipkg_default());
        r
    }

    fn apply(&mut self, it: IpkgItem) -> (r: Result<(), IpkgError>)
        ensures
            match r {
                Ok(_) => apply_item(old(self)@, it@) == Ok::<IpkgV, IpkgError>(final(self)@),
                Err(e) => apply_item(old(self)@, it@) == Err::<IpkgV, IpkgError>(e),
            },
    {
        match it {
            IpkgItem::PackageName(n) => {
                self.name = n;
                Ok(())
            },
            IpkgItem::Vec(k, v) => {
                let k = k.as_str();
                if str_eq(k, "pkgs") {
                    self.pkgs = v;
                } else if str_eq(k, "brief") {
                    self.brief = last_of(v);
                } else if str_eq(k, "version") {
                    self.version = last_of(v);
                } else if str_eq(k, "readme") {
                    self.readme = last_of(v);
                } else if str_eq(k, "license") {
                    self.license = last_of(v);
                } else if str_eq(k, "author") {
                    self.author = last_of(v);
                } else if str_eq(k, "maintainer") {
                    self.maintainer = last_of(v);
                } else if str_eq(k, "homepage") {
                    self.homepage = last_of(v);
                } else if str_eq(k, "sourceloc") {
                    self.sourceloc = last_of(v);
                } else if str_eq(k, "bugtracker") {
                    self.bugtracker = last_of(v);
                } else if str_eq(k, "libs") {
                    self.libs = v;
                } else if str_eq(k, "objs") {
                    self.objs = v;
                } else if str_eq(k, "makefile") {
                    self.makefile = last_of(v);
                } else if str_eq(k, "opts") {
                    self.opts = v;
                } else if str_eq(k, "sourcedir") {
                    match last_of(v) {
                        Some(d) => {
                            self.sourcedir = d;
                        },
                        None => {
                            return Err(IpkgError::MissingSourcedir);
                        },
                    }
                } else if str_eq(k, "modules") {
                    self.modules = v;
                } else if str_eq(k, "main") {
                    self.main = last_of(v);
                } else if str_eq(k, "executable") {
                    self.executable = last_of(v);
                } else if str_eq(k, "tests") {
                    self.tests = v;
                }
                Ok(())
            },
        }
    }

    /// Reads an ipkg file: its items, applied in order.
    pub fn from_str(s: &str) -> (r: Result<Ipkg, IpkgError>)
        ensures
            match r {
                Ok(d) => ipkg_parse(s@) == Ok::<IpkgV, IpkgError>(d@),
                Err(e) => ipkg_parse(s@) == Err::<IpkgV, IpkgError>(e),
            },
    {
        let items = match parse_items(s) {
            Some(v) => v,
            None => return Err(IpkgError::Syntax),
        };
        let ghost iv = items_view(items@);
        let mut d = Ipkg::empty();
        let mut items = items;
        let mut rest: Vec<IpkgItem> = Vec::new();
        // Items are taken from the back; put them in order first.
        while items.len() > 0
            invariant
                items_view(items@) + items_view(rest@).reverse() == iv,
                ipkg_items(s@) == Some(iv),
            decreases items.len(),
        {
            let ghost a = items_view(items@);
            let ghost b = items_view(rest@);
            let it = items.pop().unwrap();
            let ghost x = it@;
            rest.push(it);
            assert(items_view(items@) =~= a.drop_last());
            assert(items_view(rest@) =~= b.push(x));
            assert(items_view(items@) + items_view(rest@).reverse() =~= a.drop_last() + (b.push(x)).reverse());
            assert(a =~= a.drop_last().push(x));
            assert((b.push(x)).reverse() =~= seq![x] + b.reverse());
            assert(a.drop_last() + (seq![x] + b.reverse()) =~= a.drop_last().push(x) + b.reverse());
        }
        assert(items_view(items@) =~= Seq::<IpkgItemV>::empty());
        assert(items_view(rest@).reverse() =~= iv);
        let ghost done: int = 0;
        while rest.len() > 0
            invariant
                ipkg_items(s@) == Some(iv),
                items_view(rest@).reverse() == iv.skip(iv.len() - rest@.len()),
                rest@.len() <= iv.len(),
                apply_items(iv.take(iv.len() - rest@.len())) == Ok::<IpkgV, IpkgError>(d@),
            decreases rest.len(),
        {
            let ghost b = items_view(rest@);
            let ghost n = iv.len() - rest@.len();
            let it = rest.pop().unwrap();
            let ghost x = it@;
            assert(b =~= items_view(rest@).push(x));
            assert(b.reverse() =~= seq![x] + items_view(rest@).reverse());
            assert(iv.skip(n)[0] == x);
            assert(iv.skip(n).drop_first() =~= iv.skip(n + 1));
            assert(iv.take(n + 1).drop_last() =~= iv.take(n));
            assert(iv.take(n + 1).last() == x);
            let ghost d0 = d@;
            assert(apply_items(iv.take(n + 1)) == apply_item(d0, x));
            match d.apply(it) {
                Ok(_) => {},
                Err(e) => {
                    proof {
                        assert(apply_items(iv.take(n + 1)) == Err::<IpkgV, IpkgError>(e));
                        lemma_apply_items_err(iv, n + 1);
                        assert(apply_items(iv) == Err::<IpkgV, IpkgError>(e));
                        assert(ipkg_parse(s@) == Err::<IpkgV, IpkgError>(e));
                    }
                    return Err(e);
                },
            }
        }
        assert(iv.take(iv.len() as int) =~= iv);
        Ok(d)
    }
}

proof fn lemma_apply_items_err(iv: Seq<IpkgItemV>, n: int)
    requires
        0 < n <= iv.len(),
        apply_items(iv.take(n)) is Err,
    ensures
        apply_items(iv) == apply_items(iv.take(n)),
    decreases iv.len() - n,
{
    if n < iv.len() {
        assert(iv.take(n + 1).drop_last() =~= iv.take(n));
        lemma_apply_items_err(iv, n + 1);
    } else {
        assert(iv.take(n) =~= iv);
    }
}

// ---------------------------------------------------------------------------------------
// Laws of reading an ipkg file.

proof fn lemma_push_item(items: Seq<IpkgItemV>, x: IpkgItemV)
    ensures
        apply_items(items.push(x)) == match apply_items(items) {
            Err(e) => Err(e),
            Ok(d) => apply_item(d, x),
        },
{
    assert(items.push(x).drop_last() =~= items);
}

/// An item read after others sets just its own field of what those made: a key that holds one
/// value (`brief`, `version`, `readme`, `license`, `author`, `maintainer`, `homepage`,
/// `sourceloc`, `bugtracker`, `makefile`, `main`, `executable`, `sourcedir`) to the last of its
/// values, where it is given any.
pub proof fn law_ipkg_single_keys(items: Seq<IpkgItemV>, d: IpkgV, v: Seq<Seq<char>>)
    requires
        apply_items(items) == Ok::<IpkgV, IpkgError>(d),
        v.len() > 0,
    ensures
        apply_items(items.push(IpkgItemV::Vec("brief"@, v))) == Ok::<IpkgV, IpkgError>(
            (IpkgV { brief: Some(v.last()), ..d }),
        ),
        apply_items(items.push(IpkgItemV::Vec("version"@, v))) == Ok::<IpkgV, IpkgError>(
            (IpkgV { version: Some(v.last()), ..d }),
        ),
        apply_items(items.push(IpkgItemV::Vec("readme"@, v))) == Ok::<IpkgV, IpkgError>(
            (IpkgV { readme: Some(v.last()), ..d }),
        ),
        apply_items(items.push(IpkgItemV::Vec("license"@, v))) == Ok::<IpkgV, IpkgError>(
            (IpkgV { license: Some(v.last()), ..d }),
        ),
        apply_items(items.push(IpkgItemV::Vec("author"@, v))) == Ok::<IpkgV, IpkgError>(
            (IpkgV { author: Some(v.last()), ..d }),
        ),
        apply_items(items.push(IpkgItemV::Vec("maintainer"@, v))) == Ok::<IpkgV, IpkgError>(
            (IpkgV { maintainer: Some(v.last()), ..d }),
        ),
        apply_items(items.push(IpkgItemV::Vec("homepage"@, v))) == Ok::<IpkgV, IpkgError>(
            (IpkgV { homepage: Some(v.last()), ..d }),
        ),
        apply_items(items.push(IpkgItemV::Vec("sourceloc"@, v))) == Ok::<IpkgV, IpkgError>(
            (IpkgV { sourceloc: Some(v.last()), ..d }),
        ),
        apply_items(items.push(IpkgItemV::Vec("bugtracker"@, v))) == Ok::<IpkgV, IpkgError>(
            (IpkgV { bugtracker: Some(v.last()), ..d }),
        ),
        apply_items(items.push(IpkgItemV::Vec("makefile"@, v))) == Ok::<IpkgV, IpkgError>(
            (IpkgV { makefile: Some(v.last()), ..d }),
        ),
        apply_items(items.push(IpkgItemV::Vec("main"@, v))) == Ok::<IpkgV, IpkgError>(
            (IpkgV { main: Some(v.last()), ..d }),
        ),
        apply_items(items.push(IpkgItemV::Vec("executable"@, v))) == Ok::<IpkgV, IpkgError>(
            (IpkgV { executable: Some(v.last()), ..d }),
        ),
        apply_items(items.push(IpkgItemV::Vec("sourcedir"@, v))) == Ok::<IpkgV, IpkgError>(
            (IpkgV { sourcedir: v.last(), ..d }),
        ),
{
    reveal_strlit("pkgs");
    reveal_strlit("brief");
    reveal_strlit("version");
    reveal_strlit("readme");
    reveal_strlit("license");
    reveal_strlit("author");
    reveal_strlit("maintainer");
    reveal_strlit("homepage");
    reveal_strlit("sourceloc");
    reveal_strlit("bugtracker");
    reveal_strlit("libs");
    reveal_strlit("objs");
    reveal_strlit("makefile");
    reveal_strlit("opts");
    reveal_strlit("sourcedir");
    reveal_strlit("modules");
    reveal_strlit("main");
    reveal_strlit("executable");
    reveal_strlit("tests");
    assert("pkgs"@.len() == 4 && "pkgs"@[0] == 'p' && "pkgs"@[1] == 'k');
    assert("brief"@.len() == 5 && "brief"@[0] == 'b' && "brief"@[1] == 'r');
    assert("version"@.len() == 7 && "version"@[0] == 'v' && "version"@[1] == 'e' && "version"@[6] == 'n');
    assert("readme"@.len() == 6 && "readme"@[0] == 'r' && "readme"@[1] == 'e');
    assert("license"@.len() == 7 && "license"@[0] == 'l' && "license"@[1] == 'i' && "license"@[6] == 'e');
    assert("author"@.len() == 6 && "author"@[0] == 'a' && "author"@[1] == 'u');
    assert("maintainer"@.len() == 10 && "maintainer"@[0] == 'm' && "maintainer"@[1] == 'a' && "maintainer"@[6] == 'i');
    assert("homepage"@.len() == 8 && "homepage"@[0] == 'h' && "homepage"@[1] == 'o' && "homepage"@[6] == 'g');
    assert("sourceloc"@.len() == 9 && "sourceloc"@[0] == 's' && "sourceloc"@[1] == 'o' && "sourceloc"@[6] == 'l');
    assert("bugtracker"@.len() == 10 && "bugtracker"@[0] == 'b' && "bugtracker"@[1] == 'u' && "bugtracker"@[6] == 'c');
    assert("libs"@.len() == 4 && "libs"@[0] == 'l' && "libs"@[1] == 'i');
    assert("objs"@.len() == 4 && "objs"@[0] == 'o' && "objs"@[1] == 'b');
    assert("makefile"@.len() == 8 && "makefile"@[0] == 'm' && "makefile"@[1] == 'a' && "makefile"@[6] == 'l');
    assert("opts"@.len() == 4 && "opts"@[0] == 'o' && "opts"@[1] == 'p');
    assert("sourcedir"@.len() == 9 && "sourcedir"@[0] == 's' && "sourcedir"@[1] == 'o' && "sourcedir"@[6] == 'd');
    assert("modules"@.len() == 7 && "modules"@[0] == 'm' && "modules"@[1] == 'o' && "modules"@[6] == 's');
    assert("main"@.len() == 4 && "main"@[0] == 'm' && "main"@[1] == 'a');
    assert("executable"@.len() == 10 && "executable"@[0] == 'e' && "executable"@[1] == 'x' && "executable"@[6] == 'a');
    assert("tests"@.len() == 5 && "tests"@[0] == 't' && "tests"@[1] == 'e');
    lemma_push_item(items, IpkgItemV::Vec("brief"@, v));
    lemma_push_item(items, IpkgItemV::Vec("version"@, v));
    lemma_push_item(items, IpkgItemV::Vec("readme"@, v));
    lemma_push_item(items, IpkgItemV::Vec("license"@, v));
    lemma_push_item(items, IpkgItemV::Vec("author"@, v));
    lemma_push_item(items, IpkgItemV::Vec("maintainer"@, v));
    lemma_push_item(items, IpkgItemV::Vec("homepage"@, v));
    lemma_push_item(items, IpkgItemV::Vec("sourceloc"@, v));
    lemma_push_item(items, IpkgItemV::Vec("bugtracker"@, v));
    lemma_push_item(items, IpkgItemV::Vec("makefile"@, v));
    lemma_push_item(items, IpkgItemV::Vec("main"@, v));
    lemma_push_item(items, IpkgItemV::Vec("executable"@, v));
    lemma_push_item(items, IpkgItemV::Vec("sourcedir"@, v));
}

/// A key that holds a list (`pkgs`, `libs`, `objs`, `opts`, `modules`, `tests`) sets its field
/// to all its values; a package name sets the name; `sourcedir` without a value is refused.
pub proof fn law_ipkg_list_keys(items: Seq<IpkgItemV>, d: IpkgV, w: Seq<Seq<char>>, n: Seq<char>)
    requires
        apply_items(items) == Ok::<IpkgV, IpkgError>(d),
    ensures
        apply_items(items.push(IpkgItemV::Vec("pkgs"@, w))) == Ok::<IpkgV, IpkgError>(
            (IpkgV { pkgs: w, ..d }),
        ),
        apply_items(items.push(IpkgItemV::Vec("libs"@, w))) == Ok::<IpkgV, IpkgError>(
            (IpkgV { libs: w, ..d }),
        ),
        apply_items(items.push(IpkgItemV::Vec("objs"@, w))) == Ok::<IpkgV, IpkgError>(
            (IpkgV { objs: w, ..d }),
        ),
        apply_items(items.push(IpkgItemV::Vec("opts"@, w))) == Ok::<IpkgV, IpkgError>(
            (IpkgV { opts: w, ..d }),
        ),
        apply_items(items.push(IpkgItemV::Vec("modules"@, w))) == Ok::<IpkgV, IpkgError>(
            (IpkgV { modules: w, ..d }),
        ),
        apply_items(items.push(IpkgItemV::Vec("tests"@, w))) == Ok::<IpkgV, IpkgError>(
            (IpkgV { tests: w, ..d }),
        ),
        apply_items(items.push(IpkgItemV::PackageName(n))) == Ok::<IpkgV, IpkgError>((IpkgV { name: n, ..d })),
        apply_items(items.push(IpkgItemV::Vec("sourcedir"@, seq![]))) == Err::<IpkgV, IpkgError>(
            IpkgError::MissingSourcedir,
        ),
{
    reveal_strlit("pkgs");
    reveal_strlit("brief");
    reveal_strlit("version");
    reveal_strlit("readme");
    reveal_strlit("license");
    reveal_strlit("author");
    reveal_strlit("maintainer");
    reveal_strlit("homepage");
    reveal_strlit("sourceloc");
    reveal_strlit("bugtracker");
    reveal_strlit("libs");
    reveal_strlit("objs");
    reveal_strlit("makefile");
    reveal_strlit("opts");
    reveal_strlit("sourcedir");
    reveal_strlit("modules");
    reveal_strlit("main");
    reveal_strlit("executable");
    reveal_strlit("tests");
    assert("pkgs"@.len() == 4 && "pkgs"@[0] == 'p' && "pkgs"@[1] == 'k');
    assert("brief"@.len() == 5 && "brief"@[0] == 'b' && "brief"@[1] == 'r');
    assert("version"@.len() == 7 && "version"@[0] == 'v' && "version"@[1] == 'e' && "version"@[6] == 'n');
    assert("readme"@.len() == 6 && "readme"@[0] == 'r' && "readme"@[1] == 'e');
    assert("license"@.len() == 7 && "license"@[0] == 'l' && "license"@[1] == 'i' && "license"@[6] == 'e');
    assert("author"@.len() == 6 && "author"@[0] == 'a' && "author"@[1] == 'u');
    assert("maintainer"@.len() == 10 && "maintainer"@[0] == 'm' && "maintainer"@[1] == 'a' && "maintainer"@[6] == 'i');
    assert("homepage"@.len() == 8 && "homepage"@[0] == 'h' && "homepage"@[1] == 'o' && "homepage"@[6] == 'g');
    assert("sourceloc"@.len() == 9 && "sourceloc"@[0] == 's' && "sourceloc"@[1] == 'o' && "sourceloc"@[6] == 'l');
    assert("bugtracker"@.len() == 10 && "bugtracker"@[0] == 'b' && "bugtracker"@[1] == 'u' && "bugtracker"@[6] == 'c');
    assert("libs"@.len() == 4 && "libs"@[0] == 'l' && "libs"@[1] == 'i');
    assert("objs"@.len() == 4 && "objs"@[0] == 'o' && "objs"@[1] == 'b');
    assert("makefile"@.len() == 8 && "makefile"@[0] == 'm' && "makefile"@[1] == 'a' && "makefile"@[6] == 'l');
    assert("opts"@.len() == 4 && "opts"@[0] == 'o' && "opts"@[1] == 'p');
    assert("sourcedir"@.len() == 9 && "sourcedir"@[0] == 's' && "sourcedir"@[1] == 'o' && "sourcedir"@[6] == 'd');
    assert("modules"@.len() == 7 && "modules"@[0] == 'm' && "modules"@[1] == 'o' && "modules"@[6] == 's');
    assert("main"@.len() == 4 && "main"@[0] == 'm' && "main"@[1] == 'a');
    assert("executable"@.len() == 10 && "executable"@[0] == 'e' && "executable"@[1] == 'x' && "executable"@[6] == 'a');
    assert("tests"@.len() == 5 && "tests"@[0] == 't' && "tests"@[1] == 'e');
    lemma_push_item(items, IpkgItemV::Vec("pkgs"@, w));
    lemma_push_item(items, IpkgItemV::Vec("libs"@, w));
    lemma_push_item(items, IpkgItemV::Vec("objs"@, w));
    lemma_push_item(items, IpkgItemV::Vec("opts"@, w));
    lemma_push_item(items, IpkgItemV::Vec("modules"@, w));
    lemma_push_item(items, IpkgItemV::Vec("tests"@, w));
    lemma_push_item(items, IpkgItemV::PackageName(n));
    lemma_push_item(items, IpkgItemV::Vec("sourcedir"@, seq![]));
}

} // verus!

//! The operations of `std::path` that the library uses, on paths held as text.
//!
//! What each returns is named here and not described further: path syntax is std's.

use vstd::prelude::*;

verus! {

/// `Path::join`: the second path appended to the first.
pub uninterp spec fn path_join(a: Seq<char>, b: Seq<char>) -> Seq<char>;

/// `Path::with_extension`: the path with its extension set.
pub uninterp spec fn path_with_extension(p: Seq<char>, ext: Seq<char>) -> Seq<char>;

/// `Path::with_file_name`: the path with its last component replaced (or the name pushed).
pub uninterp spec fn path_with_file_name(p: Seq<char>, name: Seq<char>) -> Seq<char>;

/// `Path::extension`: the extension of the file name, if any.
pub uninterp spec fn path_extension(p: Seq<char>) -> Option<Seq<char>>;

/// `Path::parent`: the path without its last component, if it has one.
pub uninterp spec fn path_parent(p: Seq<char>) -> Option<Seq<char>>;

/// `Path::file_name`: the last component, if it is a normal one.
pub uninterp spec fn path_file_name(p: Seq<char>) -> Option<Seq<char>>;

/// `Path::is_absolute`.
pub uninterp spec fn path_is_absolute(p: Seq<char>) -> bool;

/// Whether `Path::components` yields a parent-directory (`..`) component.
pub uninterp spec fn path_has_parent_dir(p: Seq<char>) -> bool;

pub open spec fn opt_text(o: Option<String>) -> Option<Seq<char>> {
    match o {
        Some(s) => Some(s@),
        None => None,
    }
}

/// `Path::join`, on paths given as text; its result is named `path_join`.
#[verifier::external_body]
pub(crate) fn join(a: &str, b: &str) -> (r: String)
    ensures
        r@ == path_join(a@, b@),
{
    std::path::Path::new(a).join(b).to_string_lossy().into_owned()
}

/// A path separator: `/`, and also `\\` where paths are written the Windows way.
pub open spec fn is_separator(c: char) -> bool {
    c == '/' || c == '\\'
}

/// Whether a text holds no path separator.
pub open spec fn no_separator(s: Seq<char>) -> bool {
    forall|i: int| 0 <= i < s.len() ==> !is_separator(#[trigger] s[i])
}

/// The extensions that the library sets hold no path separator.
pub proof fn lemma_plain_extensions()
    ensures
        no_separator("idr"@),
        no_separator("lidr"@),
        no_separator("ibc"@),
        no_separator("exe"@),
        no_separator(""@),
{
    reveal_strlit("idr");
    reveal_strlit("lidr");
    reveal_strlit("ibc");
    reveal_strlit("exe");
    reveal_strlit("");
}

/// Whether a text holds no path separator.
pub fn has_no_separator(t: &str) -> (r: bool)
    ensures
        r == no_separator(t@),
{
    let cs = crate::text::str_chars(t);
    let mut i: usize = 0;
    while i < cs.len()
        invariant
            i <= cs@.len(),
            cs@ == t@,
            forall|j: int| 0 <= j < i ==> !is_separator(#[trigger] cs@[j]),
        decreases cs@.len() - i,
    {
        if cs[i] == '/' || cs[i] == '\\' {
            return false;
        }
        i = i + 1;
    }
    true
}

/// `Path::with_extension`; its result is named `path_with_extension`. std panics where the
/// extension holds a path separator, so the extension must hold none.
#[verifier::external_body]
pub(crate) fn with_extension(p: &str, ext: &str) -> (r: String)
    requires
        no_separator(ext@),
    ensures
        r@ == path_with_extension(p@, ext@),
{
    std::path::Path::new(p).with_extension(ext).to_string_lossy().into_owned()
}

/// `Path::with_file_name`; its result is named `path_with_file_name`.
#[verifier::external_body]
pub(crate) fn with_file_name(p: &str, name: &str) -> (r: String)
    ensures
        r@ == path_with_file_name(p@, name@),
{
    std::path::Path::new(p).with_file_name(name).to_string_lossy().into_owned()
}

/// `Path::extension`; its result is named `path_extension`.
#[verifier::external_body]
pub(crate) fn extension(p: &str) -> (r: Option<String>)
    ensures
        opt_text(r) == path_extension(p@),
{
    std::path::Path::new(p).extension().map(|e| e.to_string_lossy().into_owned())
}

/// `Path::parent`; its result is named `path_parent`.
#[verifier::external_body]
pub(crate) fn parent(p: &str) -> (r: Option<String>)
    ensures
        opt_text(r) == path_parent(p@),
{
    std::path::Path::new(p).parent().map(|e| e.to_string_lossy().into_owned())
}

/// `Path::file_name`; its result is named `path_file_name`.
#[verifier::external_body]
pub(crate) fn file_name(p: &str) -> (r: Option<String>)
    ensures
        opt_text(r) == path_file_name(p@),
{
    std::path::Path::new(p).file_name().map(|e| e.to_string_lossy().into_owned())
}

/// `Path::is_absolute`; its result is named `path_is_absolute`.
#[verifier::external_body]
pub(crate) fn is_absolute(p: &str) -> (r: bool)
    ensures
        r == path_is_absolute(p@),
{
    std::path::Path::new(p).is_absolute()
}

/// `Path::components`, asked whether one of them is `..`; the answer is named
/// `path_has_parent_dir`.
#[verifier::external_body]
pub(crate) fn has_parent_dir(p: &str) -> (r: bool)
    ensures
        r == path_has_parent_dir(p@),
{
    std::path::Path::new(p).components().any(|c| c == std::path::Component::ParentDir)
}

} // verus!

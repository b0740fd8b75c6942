//! The files of a new package: its manifest, its first module and its ignore list.

use vstd::prelude::*;
use crate::text::push_str;
use crate::package::{Name, NameV, name_text};

verus! {

/// `inflector::cases::pascalcase::to_pascal_case`: the text in PascalCase.
pub uninterp spec fn pascal_case(s: Seq<char>) -> Seq<char>;

/// `inflector::cases::pascalcase::to_pascal_case`; its result is named `pascal_case`.
#[verifier::external_body]
fn to_pascal_case(s: &str) -> (r: String)
    ensures
        r@ == pascal_case(s@),
{
    inflector::cases::pascalcase::to_pascal_case(s)
}

/// What a new package is made of.
#[derive(Debug)]
pub struct NewCtx {
    /// The directory of the package.
    pub path: String,
    pub name: Name,
    /// The author's name and email.
    pub author: Option<(String, String)>,
    /// Whether the package is a binary rather than a library.
    pub bin: bool,
    /// Whether to start a git repository.
    pub git: bool,
}

/// The author as the manifest lists it: `name <email>`, or nothing.
pub open spec fn author_text(a: Option<(Seq<char>, Seq<char>)>) -> Seq<char> {
    match a {
        Some((n, e)) => n + " <"@ + e + ">"@,
        None => Seq::empty(),
    }
}

/// The target section of the manifest.
pub open spec fn target_text(name: NameV, bin: bool) -> Seq<char> {
    if bin {
        "[[targets.bin]]\npath = \"src\"\nname = \""@ + name.name + "\"\nmain = \"Main\"\n\n"@
    } else {
        "[targets.lib]\npath = \"src\"\nmods = [\n    \""@ + pascal_case(name.name) + "\"\n]\n\n"@
    }
}

/// The manifest of a new package.
pub open spec fn manifest_text(name: NameV, author: Option<(Seq<char>, Seq<char>)>, bin: bool) -> Seq<char> {
    "[package]\nname = \""@ + name_text(name) + "\"\nversion = \"0.1.0\"\nauthors = ["@ + author_text(author)
        + "]\n\n[dependencies]\n\n"@ + target_text(name, bin)
}

/// The first module of a library.
pub open spec fn lib_source_text(module: Seq<char>) -> Seq<char> {
    "module "@ + module + "\n\nhello : IO ()\nhello = do\n  print \"Hello, world!\"\n"@
}

pub open spec fn main_source_text() -> Seq<char> {
    "module Main\n\nmain : IO ()\nmain = do\n  print \"Hello, world!\"\n"@
}

pub open spec fn gitignore_text() -> Seq<char> {
    "/target\n*.ibc\n*.o\n.dirlock\n"@
}

pub open spec fn created_text(bin: bool, path: Seq<char>) -> Seq<char> {
    "new package with "@ + (if bin { "binary"@ } else { "library"@ }) + " target created at "@ + path
}

impl NewCtx {
    pub open spec fn author_view(&self) -> Option<(Seq<char>, Seq<char>)> {
        match self.author {
            Some((n, e)) => Some((n@, e@)),
            None => None,
        }
    }

    /// The name of the library's first module: the package's name in PascalCase.
    pub fn module_name(&self) -> (r: String)
        ensures
            r@ == pascal_case(self.name@.name),
    {
        to_pascal_case(self.name.name())
    }

    /// The contents of `elba.toml` for the new package.
    pub fn manifest(&self) -> (r: String)
        ensures
            r@ == manifest_text(self.name@, self.author_view(), self.bin),
    {
        let mut s = String::new();
        push_str(&mut s, "[package]\nname = \"");
        push_str(&mut s, self.name.as_str());
        push_str(&mut s, "\"\nversion = \"0.1.0\"\nauthors = [");
        match &self.author {
            Some((n, e)) => {
                push_str(&mut s, n.as_str());
                push_str(&mut s, " <");
                push_str(&mut s, e.as_str());
                push_str(&mut s, ">");
            },
            None => {},
        }
        push_str(&mut s, "]\n\n[dependencies]\n\n");
        if self.bin {
            push_str(&mut s, "[[targets.bin]]\npath = \"src\"\nname = \"");
            push_str(&mut s, self.name.name());
            push_str(&mut s, "\"\nmain = \"Main\"\n\n");
        } else {
            push_str(&mut s, "[targets.lib]\npath = \"src\"\nmods = [\n    \"");
            let m = self.module_name();
            push_str(&mut s, m.as_str());
            push_str(&mut s, "\"\n]\n\n");
        }
        assert(s@ =~= manifest_text(self.name@, self.author_view(), self.bin));
        s
    }

    /// The source of the library's first module.
    pub fn lib_source(&self) -> (r: String)
        ensures
            r@ == lib_source_text(pascal_case(self.name@.name)),
    {
        let mut s = String::new();
        push_str(&mut s, "module ");
        let m = self.module_name();
        push_str(&mut s, m.as_str());
        push_str(&mut s, "\n\nhello : IO ()\nhello = do\n  print \"Hello, world!\"\n");
        s
    }

    /// What is reported once the package has been made.
    pub fn created_message(&self) -> (r: String)
        ensures
            r@ == created_text(self.bin, self.path@),
    {
        let mut s = String::new();
        push_str(&mut s, "new package with ");
        if self.bin {
            push_str(&mut s, "binary");
        } else {
            push_str(&mut s, "library");
        }
        push_str(&mut s, " target created at ");
        push_str(&mut s, self.path.as_str());
        s
    }
}

/// The source of a binary's `Main` module.
pub fn main_source() -> (r: String)
    ensures
        r@ == main_source_text(),
{
    String::from_str("module Main\n\nmain : IO ()\nmain = do\n  print \"Hello, world!\"\n")
}

/// The ignore list of a new git repository.
pub fn gitignore() -> (r: String)
    ensures
        r@ == gitignore_text(),
{
    String::from_str("/target\n*.ibc\n*.o\n.dirlock\n")
}

} // verus!

//! The compiler's command lines and what its answers mean: checking a module, generating code,
//! and the names of the files that go in and come out.

use vstd::prelude::*;
use crate::text::{push_str, join_with, joined, texts, contains, occurs_in};
use crate::builds::CompilerFlavor;
use crate::paths::{join, with_extension, extension, parent, file_name, is_absolute, path_join,
    path_with_extension, path_extension, path_parent, path_file_name, path_is_absolute};

verus! {

/// A run of the compiler: its working directory, its arguments, and a variable set in its
/// environment.
#[derive(Debug, PartialEq, Eq)]
pub struct Command {
    pub cwd: String,
    pub args: Vec<String>,
    pub env: Option<(String, String)>,
}

pub open spec fn env_view(e: Option<(String, String)>) -> Option<(Seq<char>, Seq<char>)> {
    match e {
        Some((k, v)) => Some((k@, v@)),
        None => None,
    }
}

/// The variable through which the second flavor of the compiler finds its dependencies.
pub open spec fn path_var() -> Seq<char> {
    "BLODWEN_PATH"@
}

/// `-i` before each path.
pub open spec fn include_flags(paths: Seq<Seq<char>>) -> Seq<Seq<char>>
    decreases paths.len(),
{
    if paths.len() == 0 {
        seq![]
    } else {
        include_flags(paths.drop_last()) + seq!["-i"@, paths.last()]
    }
}

fn push_all(out: &mut Vec<String>, v: &Vec<String>)
    ensures
        texts(final(out)@) == texts(old(out)@) + texts(v@),
{
    let ghost start = texts(out@);
    let mut i: usize = 0;
    while i < v.len()
        invariant
            i <= v@.len(),
            texts(out@) == start + texts(v@).take(i as int),
        decreases v@.len() - i,
    {
        let ghost before = texts(out@);
        out.push(v[i].clone());
        assert(texts(out@) =~= before.push(v@[i as int]@));
        assert(texts(v@).take(i as int + 1) =~= texts(v@).take(i as int).push(v@[i as int]@));
        i = i + 1;
    }
    assert(texts(v@).take(i as int) =~= texts(v@));
}

fn push_text(out: &mut Vec<String>, s: String)
    ensures
        texts(final(out)@) == texts(old(out)@).push(s@),
{
    let ghost before = texts(out@);
    let ghost sv = s@;
    out.push(s);
    assert(texts(out@) =~= before.push(sv));
}

/// The arguments that check one module: `--check`, the dependencies (each after `-i`, for
/// the first flavor), the options, and the module's file.
pub open spec fn check_args(flavor: CompilerFlavor, deps: Seq<Seq<char>>, target: Seq<char>, args: Seq<Seq<char>>) -> Seq<Seq<char>> {
    seq!["--check"@] + (if flavor is Idris1 { include_flags(deps) } else { seq![] }) + args + seq![target]
}

/// The environment of a check: the second flavor finds the dependencies through a variable.
pub open spec fn check_env(flavor: CompilerFlavor, deps: Seq<Seq<char>>) -> Option<(Seq<char>, Seq<char>)> {
    if flavor is Idris2 {
        Some((path_var(), joined(deps, ":"@)))
    } else {
        None
    }
}

/// The compiler run that checks the module `target` in the directory `build`, with the builds
/// of the dependencies at `deps`.
pub fn compile_command(flavor: CompilerFlavor, deps: &Vec<String>, target: &str, build: &str, args: &Vec<String>) -> (r: Command)
    ensures
        r.cwd@ == build@,
        texts(r.args@) == check_args(flavor, texts(deps@), target@, texts(args@)),
        env_view(r.env) == check_env(flavor, texts(deps@)),
{
    let mut out: Vec<String> = Vec::new();
    push_text(&mut out, String::from_str("--check"));
    let ghost ds = texts(deps@);
    if flavor.is_idris1() {
        let mut i: usize = 0;
        while i < deps.len()
            invariant
                i <= deps@.len(),
                ds == texts(deps@),
                texts(out@) == seq!["--check"@] + include_flags(ds.take(i as int)),
            decreases deps@.len() - i,
        {
            assert(ds.take(i as int + 1).drop_last() =~= ds.take(i as int));
            assert(ds.take(i as int + 1).last() == deps@[i as int]@);
            push_text(&mut out, String::from_str("-i"));
            push_text(&mut out, deps[i].clone());
            assert(texts(out@) =~= seq!["--check"@] + include_flags(ds.take(i as int + 1)));
            i = i + 1;
        }
        assert(ds.take(i as int) =~= ds);
    } else {
        assert(texts(out@) =~= seq!["--check"@] + seq![]);
    }
    push_all(&mut out, args);
    let mut t = String::new();
    push_str(&mut t, target);
    push_text(&mut out, t);
    let env = if flavor.is_idris2() {
        Some((String::from_str("BLODWEN_PATH"), join_with(deps, ":")))
    } else {
        None
    };
    let mut cwd = String::new();
    push_str(&mut cwd, build);
    Command { cwd, args: out, env }
}

/// How many times a check is tried while the compiler reports that it is overloaded.
pub const MAX_ATTEMPTS: usize = 15;

/// What to do after a run of the compiler that checks a module.
#[derive(Debug, PartialEq, Eq, Structural, Copy, Clone)]
pub enum CheckOutcome {
    /// It succeeded.
    Done,
    /// It failed while other modules were loading: wait and run it again.
    Retry,
    /// It failed while other modules were loading, on the last attempt: the compiler is
    /// overloaded.
    Overloaded,
    /// It failed.
    Failed,
}

pub open spec fn check_outcome(attempt: int, success: bool, stdout: Seq<char>) -> CheckOutcome {
    if success {
        CheckOutcome::Done
    } else if occurs_in(stdout, "loadable"@) {
        if attempt + 1 < MAX_ATTEMPTS {
            CheckOutcome::Retry
        } else {
            CheckOutcome::Overloaded
        }
    } else {
        CheckOutcome::Failed
    }
}

/// What the `attempt`-th run (from 0) of a check, with its success and its standard output,
/// calls for.
pub fn outcome_of_check(attempt: usize, success: bool, stdout: &str) -> (r: CheckOutcome)
    ensures
        r == check_outcome(attempt as int, success, stdout@),
{
    if success {
        CheckOutcome::Done
    } else if contains(stdout, "loadable") {
        if attempt < MAX_ATTEMPTS - 1 {
            CheckOutcome::Retry
        } else {
            CheckOutcome::Overloaded
        }
    } else {
        CheckOutcome::Failed
    }
}

/// Why a compiler run could not be set up.
#[derive(Debug, PartialEq, Eq, Structural, Copy, Clone)]
pub enum InvokeError {
    /// Library artifacts are asked of the second flavor, which cannot make them.
    NoLibraryArtifacts,
    /// A build's path has no parent directory to put on the second flavor's search path.
    NoParent,
    /// The second flavor cannot build executables.
    NoExecutables,
    /// The second flavor cannot build documentation.
    NoDocs,
}

/// The code generator's settings.
pub struct Backend {
    pub name: String,
    /// Whether the portable code generator is used (first flavor only).
    pub portable: bool,
    /// Options handed to the code generator (first flavor only).
    pub opts: Vec<String>,
    /// The extension of the executables it makes.
    pub extension: Option<String>,
}

pub open spec fn opt_parents(bins: Seq<Seq<char>>) -> Option<Seq<Seq<char>>>
    decreases bins.len(),
{
    if bins.len() == 0 {
        Some(seq![])
    } else {
        match (opt_parents(bins.drop_last()), path_parent(bins.last())) {
            (Some(ps), Some(p)) => Some(ps.push(p)),
            _ => None,
        }
    }
}

/// The arguments of a code generation.
pub open spec fn codegen_args(
    flavor: CompilerFlavor,
    portable: bool,
    backend: Seq<char>,
    opts: Seq<Seq<char>>,
    output: Seq<char>,
    is_artifact: bool,
    args: Seq<Seq<char>>,
    build: Seq<char>,
    binaries: Seq<Seq<char>>,
) -> Seq<Seq<char>> {
    (if is_artifact { seq!["--interface"@] } else { seq![] })
        + seq!["-o"@, output]
        + seq![if portable && flavor is Idris1 { "--portable-codegen"@ } else { "--codegen"@ }, backend]
        + (if opts.len() > 0 && flavor is Idris1 { seq!["--cg-opt"@, joined(opts, " "@)] } else { seq![] })
        + args
        + (if flavor is Idris1 { seq!["-i"@, build] } else { seq![] })
        + binaries
}

fn parents_of(bins: &Vec<String>) -> (r: Option<Vec<String>>)
    ensures
        match r {
            Some(v) => opt_parents(texts(bins@)) == Some(texts(v@)),
            None => opt_parents(texts(bins@)) is None,
        },
{
    let ghost bs = texts(bins@);
    let mut out: Vec<String> = Vec::new();
    let mut i: usize = 0;
    assert(bs.take(0) =~= seq![]);
    while i < bins.len()
        invariant
            i <= bins@.len(),
            bs == texts(bins@),
            opt_parents(bs.take(i as int)) == Some(texts(out@)),
        decreases bins@.len() - i,
    {
        assert(bs.take(i as int + 1).drop_last() =~= bs.take(i as int));
        assert(bs.take(i as int + 1).last() == bins@[i as int]@);
        match parent(bins[i].as_str()) {
            Some(p) => {
                push_text(&mut out, p);
            },
            None => {
                proof {
                    lemma_parents_none_extends(bs, i as int + 1);
                }
                return None;
            },
        }
        i = i + 1;
    }
    assert(bs.take(i as int) =~= bs);
    Some(out)
}

proof fn lemma_parents_none_extends(bs: Seq<Seq<char>>, k: int)
    requires
        1 <= k <= bs.len(),
        opt_parents(bs.take(k)) is None,
    ensures
        opt_parents(bs) is None,
    decreases bs.len() - k,
{
    if k < bs.len() {
        assert(bs.take(k + 1).drop_last() =~= bs.take(k));
        lemma_parents_none_extends(bs, k + 1);
    } else {
        assert(bs.take(k) =~= bs);
    }
}

/// The compiler run that generates code for `binaries` into `output` (an executable, or library
/// artifacts) in the directory `output_dir`; the first flavor finds the checked modules under
/// `build`, the second through a variable listing the binaries' directories.
pub fn codegen_command(
    flavor: CompilerFlavor,
    backend: &Backend,
    output: &str,
    output_dir: &str,
    is_artifact: bool,
    args: &Vec<String>,
    build: &str,
    binaries: &Vec<String>,
) -> (r: Result<Command, InvokeError>)
    ensures
        match r {
            Ok(c) => !(is_artifact && flavor is Idris2)
                && c.cwd@ == output_dir@
                && texts(c.args@) == codegen_args(flavor, backend.portable, backend.name@, texts(backend.opts@),
                    output@, is_artifact, texts(args@), build@, texts(binaries@))
                && env_view(c.env) == if flavor is Idris2 {
                    Some((path_var(), joined(opt_parents(texts(binaries@))->Some_0, ":"@)))
                } else {
                    None
                }
                && (flavor is Idris2 ==> opt_parents(texts(binaries@)) is Some),
            Err(e) => (is_artifact && flavor is Idris2 && e == InvokeError::NoLibraryArtifacts)
                || (!(is_artifact && flavor is Idris2) && flavor is Idris2 && opt_parents(texts(binaries@)) is None
                    && e == InvokeError::NoParent),
        },
{
    let mut out: Vec<String> = Vec::new();
    if is_artifact {
        if flavor.is_idris1() {
            push_text(&mut out, String::from_str("--interface"));
        } else {
            return Err(InvokeError::NoLibraryArtifacts);
        }
    }
    let env = if flavor.is_idris2() {
        match parents_of(binaries) {
            Some(ps) => Some((String::from_str("BLODWEN_PATH"), join_with(&ps, ":"))),
            None => {
                return Err(InvokeError::NoParent);
            },
        }
    } else {
        None
    };
    push_text(&mut out, String::from_str("-o"));
    let mut o = String::new();
    push_str(&mut o, output);
    push_text(&mut out, o);
    if backend.portable && flavor.is_idris1() {
        push_text(&mut out, String::from_str("--portable-codegen"));
    } else {
        push_text(&mut out, String::from_str("--codegen"));
    }
    push_text(&mut out, backend.name.clone());
    if backend.opts.len() > 0 && flavor.is_idris1() {
        push_text(&mut out, String::from_str("--cg-opt"));
        push_text(&mut out, join_with(&backend.opts, " "));
    }
    push_all(&mut out, args);
    if flavor.is_idris1() {
        push_text(&mut out, String::from_str("-i"));
        let mut b = String::new();
        push_str(&mut b, build);
        push_text(&mut out, b);
    }
    push_all(&mut out, binaries);
    let mut cwd = String::new();
    push_str(&mut cwd, output_dir);
    let r = Command { cwd, args: out, env };
    assert(texts(r.args@) =~= codegen_args(flavor, backend.portable, backend.name@, texts(backend.opts@),
        output@, is_artifact, texts(args@), build@, texts(binaries@)));
    Ok(r)
}

/// Whether a code generation failed: the compiler reports no `main` function (without failing)
/// or fails.
pub fn codegen_failed(success: bool, stdout: &str) -> (r: bool)
    ensures
        r == (occurs_in(stdout@, "No such variable Main.main"@) || !success),
{
    contains(stdout, "No such variable Main.main") || !success
}

// ---------------------------------------------------------------------------------------
// Module and file names.

/// `/` and `\` turned into `.`.
pub open spec fn dot_char(c: char) -> char {
    if c == '/' || c == '\\' {
        '.'
    } else {
        c
    }
}

/// The module that a source file holds: its path without the extension, with separators
/// turned into dots.
pub open spec fn module_of_path(p: Seq<char>) -> Seq<char> {
    path_with_extension(p, Seq::empty()).map_values(|c: char| dot_char(c))
}

/// The module named by a file path.
pub fn module_of(path: &str) -> (r: String)
    ensures
        r@ == module_of_path(path@),
{
    proof { crate::paths::lemma_plain_extensions(); }
    let base = with_extension(path, "");
    let cs = crate::text::str_chars(base.as_str());
    let mut r = String::new();
    let mut i: usize = 0;
    while i < cs.len()
        invariant
            i <= cs@.len(),
            r@ == cs@.take(i as int).map_values(|c: char| dot_char(c)),
        decreases cs@.len() - i,
    {
        let c = cs[i];
        let d = if c == '/' || c == '\\' { '.' } else { c };
        crate::text::push_char(&mut r, d);
        assert(cs@.take(i as int + 1) =~= cs@.take(i as int).push(c));
        assert(r@ =~= cs@.take(i as int + 1).map_values(|c: char| dot_char(c)));
        i = i + 1;
    }
    assert(cs@.take(i as int) =~= cs@);
    proof {
        reveal_strlit("");
        assert(""@ =~= Seq::<char>::empty());
    }
    r
}

/// The relative path of a library module: its name without leading and trailing dots, with
/// dots turned into separators.
pub open spec fn module_file(m: Seq<char>) -> Seq<char> {
    crate::manifest::trim_dots(m).map_values(|c: char| crate::manifest::slash_char(c))
}

/// The files that may hold a library module, in the order in which they are tried: the
/// source file, then the literate one.
pub fn module_files(mod_name: &str) -> (r: (String, String))
    ensures
        r.0@ == path_with_extension(module_file(mod_name@), "idr"@),
        r.1@ == path_with_extension(module_file(mod_name@), "lidr"@),
{
    let cs = crate::text::str_chars(mod_name);
    let t = crate::manifest::trim_dots_exec(&cs);
    let mut p = String::new();
    let mut i: usize = 0;
    while i < t.len()
        invariant
            i <= t@.len(),
            p@ == t@.take(i as int).map_values(|c: char| crate::manifest::slash_char(c)),
        decreases t@.len() - i,
    {
        let c = t[i];
        let d = if c == '.' { '/' } else { c };
        crate::text::push_char(&mut p, d);
        assert(t@.take(i as int + 1) =~= t@.take(i as int).push(c));
        assert(p@ =~= t@.take(i as int + 1).map_values(|c: char| crate::manifest::slash_char(c)));
        i = i + 1;
    }
    assert(t@.take(i as int) =~= t@);
    proof { crate::paths::lemma_plain_extensions(); }
    (with_extension(p.as_str(), "idr"), with_extension(p.as_str(), "lidr"))
}

/// The compiler's options for a target: the target's own, then the build's.
pub fn compile_args(target_opts: &Vec<String>, build_opts: &Vec<String>) -> (r: Vec<String>)
    ensures
        texts(r@) == texts(target_opts@) + texts(build_opts@),
{
    let mut out: Vec<String> = Vec::new();
    assert(texts(out@) =~= seq![]);
    push_all(&mut out, target_opts);
    push_all(&mut out, build_opts);
    assert(texts(out@) =~= texts(target_opts@) + texts(build_opts@));
    out
}

/// Where the checked library is found after its build: the second flavor writes into a
/// `build` directory of its own.
pub fn lib_output_dir(build: &str, flavor: CompilerFlavor) -> (r: String)
    ensures
        r@ == if flavor is Idris2 { path_join(build@, "lib/build"@) } else { path_join(build@, "lib"@) },
{
    if flavor.is_idris2() {
        join(build, "lib/build")
    } else {
        join(build, "lib")
    }
}

/// Whether a file of a library's build is kept: every file but sources.
pub fn is_build_output(path: &str) -> (r: bool)
    ensures
        r == (path_extension(path@) != Some("idr"@) && path_extension(path@) != Some("lidr"@)),
{
    match extension(path) {
        Some(e) => !crate::resolution::str_eq(e.as_str(), "idr") && !crate::resolution::str_eq(e.as_str(), "lidr"),
        None => true,
    }
}

/// Whether a file is a checked module, which code is generated from.
pub fn is_ibc(path: &str) -> (r: bool)
    ensures
        r == (path_extension(path@) == Some("ibc"@)),
{
    match extension(path) {
        Some(e) => crate::resolution::str_eq(e.as_str(), "ibc"),
        None => false,
    }
}

/// The function that a binary's main path names where its extension is no source extension:
/// the module and the function, for which a `Main` module is written.
pub open spec fn main_function(target: Seq<char>) -> Option<(Seq<char>, Seq<char>)> {
    match path_extension(target) {
        Some(e) => if e != "idr"@ && e != "lidr"@ {
            Some((module_of_path(target), e))
        } else {
            None
        },
        None => None,
    }
}

/// The module and function named by a binary's target path, where it names a function.
pub fn main_function_of(target: &str) -> (r: Option<(String, String)>)
    ensures
        match r {
            Some((m, f)) => main_function(target@) == Some((m@, f@)),
            None => main_function(target@) is None,
        },
{
    match extension(target) {
        Some(e) => {
            if !crate::resolution::str_eq(e.as_str(), "idr") && !crate::resolution::str_eq(e.as_str(), "lidr") {
                Some((module_of(target), e))
            } else {
                None
            }
        },
        None => None,
    }
}

/// The `Main` module that calls a function of another module.
pub open spec fn main_file_text(module: Seq<char>, fun: Seq<char>) -> Seq<char> {
    "module Main\n\nimport "@ + module + "\n\nmain : IO ()\nmain = "@ + fun
}

pub fn main_file(module: &str, fun: &str) -> (r: String)
    ensures
        r@ == main_file_text(module@, fun@),
{
    let mut s = String::new();
    push_str(&mut s, "module Main\n\nimport ");
    push_str(&mut s, module);
    push_str(&mut s, "\n\nmain : IO ()\nmain = ");
    push_str(&mut s, fun);
    s
}

/// The name shown for a binary's module: the file's stem where its path is absolute, else
/// the module that the path names.
pub open spec fn bin_module_name(target: Seq<char>) -> Option<Seq<char>> {
    if path_is_absolute(target) {
        crate::invoke::path_file_stem(target)
    } else {
        Some(module_of_path(target))
    }
}

/// `Path::file_stem`: the file name without its extension, if there is a file name.
pub uninterp spec fn path_file_stem(p: Seq<char>) -> Option<Seq<char>>;

/// `Path::file_stem`; its result is named `path_file_stem`.
#[verifier::external_body]
fn file_stem(p: &str) -> (r: Option<String>)
    ensures
        crate::paths::opt_text(r) == path_file_stem(p@),
{
    std::path::Path::new(p).file_stem().map(|e| e.to_string_lossy().into_owned())
}

/// The module name shown while a binary is compiled; `None` where an absolute path has no
/// file name.
pub fn bin_module(target: &str) -> (r: Option<String>)
    ensures
        crate::paths::opt_text(r) == bin_module_name(target@),
{
    if is_absolute(target) {
        file_stem(target)
    } else {
        Some(module_of(target))
    }
}

/// The file name of a binary: its name, with the back end's extension where it has one.
pub fn output_name(name: &str, ext: &Option<String>) -> (r: String)
    requires
        ext matches Some(e) ==> crate::paths::no_separator(e@),
    ensures
        r@ == match ext {
            Some(e) => path_with_extension(name@, e@),
            None => name@,
        },
{
    match ext {
        Some(e) => with_extension(name, e.as_str()),
        None => {
            let mut s = String::new();
            push_str(&mut s, name);
            s
        },
    }
}

/// Where code generation may have left a binary, in the order in which they are looked for:
/// under its name, then with the `exe` extension.
pub fn output_files(bin_dir: &str, name: &str) -> (r: (String, String))
    ensures
        r.0@ == path_join(bin_dir@, name@),
        r.1@ == path_with_extension(path_join(bin_dir@, name@), "exe"@),
{
    let out = join(bin_dir, name);
    proof { crate::paths::lemma_plain_extensions(); }
    let exe = with_extension(out.as_str(), "exe");
    (out, exe)
}

/// The options with which documentation is built: `-i` and each dependency's build, with
/// nothing between them, then the build's options joined by spaces.
pub open spec fn doc_opts_text(deps: Seq<Seq<char>>, opts: Seq<Seq<char>>) -> Seq<char>
    decreases deps.len(),
{
    if deps.len() == 0 {
        joined(opts, " "@)
    } else {
        "-i "@ + deps[0] + doc_opts_text(deps.drop_first(), opts)
    }
}

pub fn doc_opts(deps: &Vec<String>, opts: &Vec<String>) -> (r: String)
    ensures
        r@ == doc_opts_text(texts(deps@), texts(opts@)),
{
    let ghost ds = texts(deps@);
    let ghost os = texts(opts@);
    let mut s = String::new();
    let mut i: usize = 0;
    assert(ds.skip(0) =~= ds);
    assert(s@ + doc_opts_text(ds.skip(0), os) =~= doc_opts_text(ds, os));
    while i < deps.len()
        invariant
            i <= deps@.len(),
            ds == texts(deps@),
            os == texts(opts@),
            s@ + doc_opts_text(ds.skip(i as int), os) == doc_opts_text(ds, os),
        decreases deps@.len() - i,
    {
        let ghost before = s@;
        assert(ds.skip(i as int).drop_first() =~= ds.skip(i as int + 1));
        assert(ds.skip(i as int)[0] == deps@[i as int]@);
        push_str(&mut s, "-i ");
        push_str(&mut s, deps[i].as_str());
        assert(s@ + doc_opts_text(ds.skip(i as int + 1), os) =~= before + doc_opts_text(ds.skip(i as int), os));
        i = i + 1;
    }
    assert(ds.skip(i as int).len() == 0);
    let j = join_with(opts, " ");
    push_str(&mut s, j.as_str());
    s
}

/// The directory that the compiler writes a package's documentation to.
pub fn doc_dir_name(name: &str) -> (r: String)
    ensures
        r@ == name@ + "_doc"@,
{
    let mut s = String::new();
    push_str(&mut s, name);
    push_str(&mut s, "_doc");
    s
}

} // verus!

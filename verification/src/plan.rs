//! What building a library or a binary does, once it is known which files are on disk: the
//! modules to check and with which options, where the library's outputs are collected from,
//! whether code is generated, and the `Main` module written for a binary whose main path
//! names a function.

use vstd::prelude::*;
use crate::text::texts;
use crate::builds::{CompilerFlavor, TargetStep};
use crate::manifest::{LibTarget, BinTarget};
use crate::invoke::{module_file, main_function, main_file_text, module_files, compile_args, main_function_of,
    main_file, output_name};
use crate::paths::{path_with_extension, no_separator, has_no_separator};
use crate::resolution::path_eq;

verus! {

/// One step of a build.
#[derive(Debug)]
pub enum CompileStep {
    /// Check a module of the library: its source file, relative to the library's directory, with
    /// these options.
    CheckModule { file: String, args: Vec<String> },
    /// Take the library's build outputs (every file but sources) from this directory, relative
    /// to the build directory.
    CollectLib { from: String },
    /// Generate code from the library's checked modules.
    CodegenLib { args: Vec<String> },
    /// Put the library's checked modules beside the binary's sources.
    CopyLib,
    /// Write a `Main` module with this text beside the binary's sources.
    WriteMain { text: String },
    /// Check the binary's main module: this file, or the `Main` module just written.
    CheckBin { file: Option<String>, args: Vec<String> },
    /// Generate the executable under this file name.
    CodegenBin { output: String, args: Vec<String> },
}

pub enum CompileStepV {
    CheckModule { file: Seq<char>, args: Seq<Seq<char>> },
    CollectLib { from: Seq<char> },
    CodegenLib { args: Seq<Seq<char>> },
    CopyLib,
    WriteMain { text: Seq<char> },
    CheckBin { file: Option<Seq<char>>, args: Seq<Seq<char>> },
    CodegenBin { output: Seq<char>, args: Seq<Seq<char>> },
}

impl View for CompileStep {
    type V = CompileStepV;

    open spec fn view(&self) -> CompileStepV {
        match self {
            CompileStep::CheckModule { file, args } => CompileStepV::CheckModule { file: file@, args: texts(args@) },
            CompileStep::CollectLib { from } => CompileStepV::CollectLib { from: from@ },
            CompileStep::CodegenLib { args } => CompileStepV::CodegenLib { args: texts(args@) },
            CompileStep::CopyLib => CompileStepV::CopyLib,
            CompileStep::WriteMain { text } => CompileStepV::WriteMain { text: text@ },
            CompileStep::CheckBin { file, args } => CompileStepV::CheckBin {
                file: crate::paths::opt_text(*file),
                args: texts(args@),
            },
            CompileStep::CodegenBin { output, args } => CompileStepV::CodegenBin { output: output@, args: texts(args@) },
        }
    }
}

pub open spec fn steps_view(s: Seq<CompileStep>) -> Seq<CompileStepV> {
    s.map_values(|x: CompileStep| x@)
}

/// Why a build cannot be planned.
#[derive(Debug, PartialEq, Eq, Clone, Copy)]
pub enum CompileError {
    /// The package has no library target.
    NoLibTarget,
    /// No source file, plain or literate, holds the library module at this position.
    ModuleMissing(usize),
    /// The second flavor of the compiler cannot build executables.
    NoExecutables,
    /// The step builds no binary.
    NotBinary,
    /// The binary's main module was not found.
    MainNotFound,
    /// The back end's extension holds a path separator, so no file name can carry it.
    BadExtension,
}

/// The first library module, from position `i` on, for which neither source file exists.
pub open spec fn first_missing(idr: Seq<bool>, lidr: Seq<bool>, i: int) -> Option<int>
    decreases idr.len() - i,
{
    if i < 0 || i >= idr.len() {
        None
    } else if !idr[i] && !lidr[i] {
        Some(i)
    } else {
        first_missing(idr, lidr, i + 1)
    }
}

/// The file that holds library module `m`: the plain source where it exists, else the literate
/// one.
pub open spec fn module_source(m: Seq<char>, idr: bool) -> Seq<char> {
    if idr {
        path_with_extension(module_file(m), "idr"@)
    } else {
        path_with_extension(module_file(m), "lidr"@)
    }
}

/// Where the library's outputs are found, relative to the build directory.
pub open spec fn lib_outputs(flavor: CompilerFlavor) -> Seq<char> {
    if flavor is Idris2 {
        "lib/build"@
    } else {
        "lib"@
    }
}

/// Building a library: every module checked, from its plain source where it exists, else from
/// its literate source, with the target's options and then the build's; the outputs
/// collected; code generated where asked.
pub open spec fn lib_plan_spec(
    lib: Option<LibTarget>,
    idr: Seq<bool>,
    lidr: Seq<bool>,
    flavor: CompilerFlavor,
    codegen: bool,
    opts: Seq<Seq<char>>,
) -> Result<Seq<CompileStepV>, CompileError> {
    match lib {
        None => Err(CompileError::NoLibTarget),
        Some(l) => match first_missing(idr, lidr, 0) {
            Some(i) => Err(CompileError::ModuleMissing(i as usize)),
            None => {
                let args = texts(l.idris_opts@) + opts;
                let mods = texts(l.mods@);
                let checks = Seq::new(
                    mods.len(),
                    |i: int| CompileStepV::CheckModule { file: module_source(mods[i], idr[i]), args },
                );
                let tail = if codegen {
                    seq![CompileStepV::CollectLib { from: lib_outputs(flavor) }, CompileStepV::CodegenLib { args }]
                } else {
                    seq![CompileStepV::CollectLib { from: lib_outputs(flavor) }]
                };
                Ok(checks + tail)
            },
        },
    }
}

/// Building a binary, whose main module was found at `found` (its source directory and its
/// path): the library's checked modules put beside its sources where the library shares its
/// directory; a `Main` module written where the path names a function; the main module
/// checked with the target's options and then the build's; the executable generated where
/// asked, under the binary's name with the back end's extension.
pub open spec fn bin_plan_spec(
    bin: BinTarget,
    step: TargetStep,
    flavor: CompilerFlavor,
    found: Option<(Seq<char>, Seq<char>)>,
    lib_path: Option<Seq<char>>,
    ext: Option<Seq<char>>,
    codegen: bool,
    opts: Seq<Seq<char>>,
) -> Result<Seq<CompileStepV>, CompileError> {
    if flavor is Idris2 {
        Err(CompileError::NoExecutables)
    } else if !(step is Bin || step is Test) {
        Err(CompileError::NotBinary)
    } else {
        match found {
            None => Err(CompileError::MainNotFound),
            Some(_) if ext matches Some(e) && !no_separator(e) => Err(CompileError::BadExtension),
            Some((_, target)) => {
                let args = texts(bin.idris_opts@) + opts;
                let copy = if lib_path matches Some(p) && path_eq(p, bin.path@) {
                    seq![CompileStepV::CopyLib]
                } else {
                    seq![]
                };
                let main = match main_function(target) {
                    Some((m, f)) => seq![
                        CompileStepV::WriteMain { text: main_file_text(m, f) },
                        CompileStepV::CheckBin { file: None, args },
                    ],
                    None => seq![CompileStepV::CheckBin { file: Some(target), args }],
                };
                let name = match ext {
                    Some(e) => path_with_extension(bin.name@, e),
                    None => bin.name@,
                };
                let gen = if codegen {
                    seq![CompileStepV::CodegenBin { output: name, args }]
                } else {
                    seq![]
                };
                Ok(copy + main + gen)
            },
        }
    }
}

/// Plans the build of a package's library, given for each of its modules whether its plain
/// and its literate source file exist.
pub fn lib_build_plan(
    lib: &Option<LibTarget>,
    idr_exists: &Vec<bool>,
    lidr_exists: &Vec<bool>,
    flavor: CompilerFlavor,
    codegen: bool,
    opts: &Vec<String>,
) -> (r: Result<Vec<CompileStep>, CompileError>)
    requires
        lib matches Some(l) ==> idr_exists@.len() == l.mods@.len() && lidr_exists@.len() == l.mods@.len(),
    ensures
        match r {
            Ok(s) => lib_plan_spec(*lib, idr_exists@, lidr_exists@, flavor, codegen, texts(opts@))
                == Ok::<Seq<CompileStepV>, CompileError>(steps_view(s@)),
            Err(e) => lib_plan_spec(*lib, idr_exists@, lidr_exists@, flavor, codegen, texts(opts@))
                == Err::<Seq<CompileStepV>, CompileError>(e),
        },
{
    let l = match lib {
        None => {
            return Err(CompileError::NoLibTarget);
        },
        Some(l) => l,
    };
    let n = l.mods.len();
    let mut k: usize = 0;
    while k < n
        invariant
            k <= n,
            n == idr_exists@.len(),
            n == lidr_exists@.len(),
            *lib == Some(*l),
            first_missing(idr_exists@, lidr_exists@, 0) == first_missing(idr_exists@, lidr_exists@, k as int),
        decreases n - k,
    {
        if !idr_exists[k] && !lidr_exists[k] {
            assert(first_missing(idr_exists@, lidr_exists@, k as int) == Some(k as int));
            return Err(CompileError::ModuleMissing(k));
        }
        k = k + 1;
    }
    let ghost args = texts(l.idris_opts@) + texts(opts@);
    let ghost mods = texts(l.mods@);
    let mut out: Vec<CompileStep> = Vec::new();
    let mut i: usize = 0;
    while i < n
        invariant
            i <= n,
            n == l.mods@.len(),
            n == idr_exists@.len(),
            mods == texts(l.mods@),
            args == texts(l.idris_opts@) + texts(opts@),
            steps_view(out@) =~= Seq::new(
                i as nat,
                |j: int| CompileStepV::CheckModule { file: module_source(mods[j], idr_exists@[j]), args },
            ),
        decreases n - i,
    {
        let (a, b) = module_files(l.mods[i].as_str());
        let file = if idr_exists[i] { a } else { b };
        let step = CompileStep::CheckModule { file, args: compile_args(&l.idris_opts, opts) };
        let ghost before = steps_view(out@);
        out.push(step);
        assert(steps_view(out@) =~= before.push(step@));
        i = i + 1;
    }
    let from = if flavor.is_idris2() {
        text_of("lib/build")
    } else {
        text_of("lib")
    };
    let ghost checks = steps_view(out@);
    out.push(CompileStep::CollectLib { from });
    if codegen {
        out.push(CompileStep::CodegenLib { args: compile_args(&l.idris_opts, opts) });
    }
    proof {
        if codegen {
            assert(steps_view(out@) =~= checks + seq![
                CompileStepV::CollectLib { from: lib_outputs(flavor) },
                CompileStepV::CodegenLib { args },
            ]);
        } else {
            assert(steps_view(out@) =~= checks + seq![CompileStepV::CollectLib { from: lib_outputs(flavor) }]);
        }
    }
    Ok(out)
}

/// Plans the build of a binary or test target, given where its main module was found (its
/// source directory and its path), the path of the package's library, if it has one, and the
/// back end's file extension, if it has one.
pub fn bin_build_plan(
    bin: &BinTarget,
    step: TargetStep,
    flavor: CompilerFlavor,
    found: Option<(String, String)>,
    lib_path: &Option<String>,
    backend_ext: &Option<String>,
    codegen: bool,
    opts: &Vec<String>,
) -> (r: Result<Vec<CompileStep>, CompileError>)
    ensures
        match r {
            Ok(s) => bin_plan_spec(*bin, step, flavor, found_view(found), crate::paths::opt_text(*lib_path),
                crate::paths::opt_text(*backend_ext), codegen, texts(opts@))
                == Ok::<Seq<CompileStepV>, CompileError>(steps_view(s@)),
            Err(e) => bin_plan_spec(*bin, step, flavor, found_view(found), crate::paths::opt_text(*lib_path),
                crate::paths::opt_text(*backend_ext), codegen, texts(opts@))
                == Err::<Seq<CompileStepV>, CompileError>(e),
        },
{
    if flavor.is_idris2() {
        return Err(CompileError::NoExecutables);
    }
    match step {
        TargetStep::Bin { .. } => {},
        TargetStep::Test { .. } => {},
        _ => {
            return Err(CompileError::NotBinary);
        },
    }
    let target = match found {
        None => {
            return Err(CompileError::MainNotFound);
        },
        Some((_, t)) => t,
    };
    match backend_ext {
        Some(e) => {
            if !has_no_separator(e.as_str()) {
                return Err(CompileError::BadExtension);
            }
        },
        None => {},
    }
    let ghost args = texts(bin.idris_opts@) + texts(opts@);
    let mut out: Vec<CompileStep> = Vec::new();
    let copy = match lib_path {
        Some(p) => crate::resolution::paths_equal(p.as_str(), bin.path.as_str()),
        None => false,
    };
    if copy {
        out.push(CompileStep::CopyLib);
    }
    let ghost c = steps_view(out@);
    match main_function_of(target.as_str()) {
        Some((m, f)) => {
            out.push(CompileStep::WriteMain { text: main_file(m.as_str(), f.as_str()) });
            out.push(CompileStep::CheckBin { file: None, args: compile_args(&bin.idris_opts, opts) });
        },
        None => {
            out.push(CompileStep::CheckBin { file: Some(target), args: compile_args(&bin.idris_opts, opts) });
        },
    }
    let ghost cm = steps_view(out@);
    if codegen {
        let name = output_name(bin.name.as_str(), backend_ext);
        out.push(CompileStep::CodegenBin { output: name, args: compile_args(&bin.idris_opts, opts) });
    }
    proof {
        let s = bin_plan_spec(*bin, step, flavor, found_view(found), crate::paths::opt_text(*lib_path),
            crate::paths::opt_text(*backend_ext), codegen, texts(opts@));
        assert(s is Ok);
        assert(steps_view(out@) =~= s.unwrap());
    }
    Ok(out)
}

fn text_of(t: &str) -> (r: String)
    ensures
        r@ == t@,
{
    let mut r = String::new();
    crate::text::push_str(&mut r, t);
    r
}

pub open spec fn found_view(f: Option<(String, String)>) -> Option<(Seq<char>, Seq<char>)> {
    match f {
        Some((a, b)) => Some((a@, b@)),
        None => None,
    }
}

} // verus!

use elba::builds::{
    BuildDir, BuildError, BuildStep, CodegenInvocation, CompileInvocation, Compiler,
    CompilerFlavor, Target, Targets, Work,
};
use elba::package::Name;
use elba::scaffold::{gitignore, main_source, NewCtx};

fn name(s: &str) -> Name {
    Name::from_str(s).unwrap()
}

#[test]
fn targets_are_sorted_with_one_library() {
    let t = Targets::new(vec![Target::Test(1), Target::Lib(true), Target::Bin(2), Target::Lib(false), Target::Bin(0)]);
    assert_eq!(t.0, vec![Target::Lib(false), Target::Bin(0), Target::Bin(2), Target::Test(1)]);
    assert!(t.has_lib());
    assert!(t.is_codegen());
}

#[test]
fn documentation_brings_a_library() {
    let t = Targets::new(vec![Target::Doc, Target::Bin(0)]);
    assert_eq!(t.0, vec![Target::Lib(false), Target::Bin(0), Target::Doc]);
    let t = Targets::new(vec![Target::Doc]);
    assert_eq!(t.0, vec![Target::Lib(false), Target::Doc]);
    assert!(!t.is_codegen());
    let t = Targets::new(vec![Target::Bin(3)]);
    assert!(!t.has_lib());
    assert!(Targets::new(vec![]).0.is_empty());
}

#[test]
fn target_bytes() {
    assert_eq!(Target::Lib(true).as_bytes(), [0, 0, 0, 0, 1]);
    assert_eq!(Target::Lib(false).as_bytes(), [0, 0, 0, 0, 0]);
    assert_eq!(Target::Doc.as_bytes(), [1, 0, 0, 0, 0]);
    assert_eq!(Target::Bin(0x01020304).as_bytes(), [2, 1, 2, 3, 4]);
    assert_eq!(Target::Test(258).as_bytes(), [3, 0, 0, 1, 2]);
    assert!(Target::Bin(1).is_codegen());
    assert!(!Target::Doc.is_codegen());
}

#[test]
fn compiler_flavor_from_version_text() {
    let c = Compiler::new("idris2", "Idris 2, version 0.2.1");
    assert_eq!(c.flavor(), CompilerFlavor::Idris2);
    assert!(c.flavor().is_idris2());
    assert_eq!(c.path(), "idris2");
    let c = Compiler::new("idris", "1.3.2");
    assert_eq!(c.flavor(), CompilerFlavor::Idris1);
    assert!(c.flavor().is_idris1());
    let d = Compiler::default_compiler();
    assert_eq!(d.path(), "idris");
    assert_eq!(d.flavor(), CompilerFlavor::Idris1);
}

#[test]
fn work_kinds() {
    let n: Work<u8, u8, u8> = Work::Nothing;
    assert!(n.is_none() && !n.is_dirty() && !n.is_fresh());
    let f: Work<u8, u8, u8> = Work::Fresh(1);
    assert!(f.is_fresh() && !f.is_none());
    let d: Work<u8, u8, u8> = Work::Dirty(1, 2);
    assert!(d.is_dirty() && !d.is_fresh());
}

#[test]
fn compile_steps() {
    let inv = CompileInvocation {
        src: "/src/Foo.idr".to_string(),
        dep_builds: vec![(name("grp/dep"), "/cache/Dep.ibc".to_string())],
        build_dir: BuildDir::new("/t"),
    };
    assert_eq!(inv.build_dir.build, "/t/build");
    let steps = inv.steps();
    assert_eq!(
        steps,
        vec![
            BuildStep::Copy { from: "/cache/Dep.ibc".to_string(), to: "/t/build/dep.ibc".to_string() },
            BuildStep::Copy { from: "/src/Foo.idr".to_string(), to: "/t/build/Foo.idr".to_string() },
            BuildStep::Run { cwd: "/t/build".to_string(), args: vec!["--check".to_string(), "Foo.idr".to_string()] },
            BuildStep::Expect { path: "/t/build/Foo.ibc".to_string(), error: BuildError::NoOutput("/src/Foo.idr".to_string()) },
            BuildStep::Copy { from: "/t/build/Foo.ibc".to_string(), to: "/t/Foo.ibc".to_string() },
            BuildStep::RemoveDir { path: "/t/build".to_string() },
        ]
    );
}

#[test]
fn compile_refuses_other_builds() {
    let inv = CompileInvocation {
        src: "/src/Foo.idr".to_string(),
        dep_builds: vec![(name("grp/dep"), "/cache/Dep.o".to_string())],
        build_dir: BuildDir::new("/t"),
    };
    assert_eq!(inv.steps(), vec![BuildStep::Fail(BuildError::NotIbc("/cache/Dep.o".to_string()))]);
    let inv = CompileInvocation { src: "/".to_string(), dep_builds: vec![], build_dir: BuildDir::new("/t") };
    assert_eq!(inv.steps(), vec![BuildStep::Fail(BuildError::NotAFile)]);
}

#[test]
fn codegen_steps() {
    let inv = CodegenInvocation {
        src: "Main.ibc".to_string(),
        output: "main".to_string(),
        backend: "c".to_string(),
        build_dir: BuildDir::new("/t"),
    };
    assert_eq!(
        inv.steps(),
        vec![BuildStep::Run {
            cwd: "/t".to_string(),
            args: vec!["--codegen".to_string(), "c".to_string(), "-o".to_string(), "main".to_string(), "Main.ibc".to_string()],
        }]
    );
}

#[test]
fn new_library_package() {
    let ctx = NewCtx {
        path: "/home/me/ring_ding".to_string(),
        name: name("me/ring_ding"),
        author: Some(("Me".to_string(), "y@boi.me".to_string())),
        bin: false,
        git: true,
    };
    assert_eq!(ctx.module_name(), "RingDing");
    assert_eq!(
        ctx.manifest(),
        "[package]\nname = \"me/ring_ding\"\nversion = \"0.1.0\"\nauthors = [Me <y@boi.me>]\n\n[dependencies]\n\n[targets.lib]\npath = \"src\"\nmods = [\n    \"RingDing\"\n]\n\n"
    );
    assert_eq!(ctx.lib_source(), "module RingDing\n\nhello : IO ()\nhello = do\n  print \"Hello, world!\"\n");
    assert_eq!(ctx.created_message(), "new package with library target created at /home/me/ring_ding");
}

#[test]
fn new_binary_package() {
    let ctx = NewCtx { path: "p".to_string(), name: name("me/tool"), author: None, bin: true, git: false };
    assert_eq!(
        ctx.manifest(),
        "[package]\nname = \"me/tool\"\nversion = \"0.1.0\"\nauthors = []\n\n[dependencies]\n\n[[targets.bin]]\npath = \"src\"\nname = \"tool\"\nmain = \"Main\"\n\n"
    );
    assert_eq!(ctx.created_message(), "new package with binary target created at p");
    assert_eq!(main_source(), "module Main\n\nmain : IO ()\nmain = do\n  print \"Hello, world!\"\n");
    assert_eq!(gitignore(), "/target\n*.ibc\n*.o\n.dirlock\n");
}

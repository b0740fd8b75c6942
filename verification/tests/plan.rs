use elba::builds::{CompilerFlavor, TargetStep};
use elba::manifest::{BinTarget, LibTarget};
use elba::plan::{bin_build_plan, lib_build_plan, CompileError, CompileStep};

fn strings(v: &[&str]) -> Vec<String> {
    v.iter().map(|s| s.to_string()).collect()
}

fn lib() -> Option<LibTarget> {
    Some(LibTarget { path: "src".to_string(), mods: strings(&["A.B", "C"]), idris_opts: strings(&["--x"]) })
}

fn bin() -> BinTarget {
    BinTarget { name: "app".to_string(), path: "src".to_string(), main: "Main".to_string(), idris_opts: strings(&["--y"]) }
}

#[test]
fn a_library_is_checked_module_by_module_from_the_file_that_exists() {
    let plan = lib_build_plan(&lib(), &vec![true, false], &vec![false, true], CompilerFlavor::Idris1, true, &strings(&["-O"])).unwrap();
    assert_eq!(plan.len(), 4);
    match &plan[0] {
        CompileStep::CheckModule { file, args } => {
            assert_eq!(file, "A/B.idr");
            assert_eq!(args, &strings(&["--x", "-O"]));
        }
        other => panic!("{:?}", other),
    }
    match &plan[1] {
        CompileStep::CheckModule { file, .. } => assert_eq!(file, "C.lidr"),
        other => panic!("{:?}", other),
    }
    match &plan[2] {
        CompileStep::CollectLib { from } => assert_eq!(from, "lib"),
        other => panic!("{:?}", other),
    }
    assert!(matches!(plan[3], CompileStep::CodegenLib { .. }));

    let plan = lib_build_plan(&lib(), &vec![true, true], &vec![false, false], CompilerFlavor::Idris2, false, &vec![]).unwrap();
    assert_eq!(plan.len(), 3);
    match &plan[2] {
        CompileStep::CollectLib { from } => assert_eq!(from, "lib/build"),
        other => panic!("{:?}", other),
    }
}

#[test]
fn a_library_plan_fails_without_a_library_or_a_module_file() {
    assert_eq!(
        lib_build_plan(&lib(), &vec![true, false], &vec![false, false], CompilerFlavor::Idris1, true, &vec![]).unwrap_err(),
        CompileError::ModuleMissing(1)
    );
    assert_eq!(
        lib_build_plan(&None, &vec![], &vec![], CompilerFlavor::Idris1, true, &vec![]).unwrap_err(),
        CompileError::NoLibTarget
    );
}

#[test]
fn a_binary_is_checked_and_generated_under_its_name() {
    let step = TargetStep::Bin { ix: 0, with_lib: true };
    let found = Some(("src".to_string(), "Main.idr".to_string()));
    let plan = bin_build_plan(&bin(), step, CompilerFlavor::Idris1, found, &Some("src".to_string()), &Some("js".to_string()), true, &strings(&["-O"])).unwrap();
    assert_eq!(plan.len(), 3);
    assert!(matches!(plan[0], CompileStep::CopyLib));
    match &plan[1] {
        CompileStep::CheckBin { file, args } => {
            assert_eq!(file.as_deref(), Some("Main.idr"));
            assert_eq!(args, &strings(&["--y", "-O"]));
        }
        other => panic!("{:?}", other),
    }
    match &plan[2] {
        CompileStep::CodegenBin { output, .. } => assert_eq!(output, "app.js"),
        other => panic!("{:?}", other),
    }
}

#[test]
fn a_binary_naming_a_function_gets_a_main_module() {
    let step = TargetStep::Test { ix: 0, with_lib: false };
    let found = Some(("tests".to_string(), "Foo/Bar.run".to_string()));
    let plan = bin_build_plan(&bin(), step, CompilerFlavor::Idris1, found, &None, &None, false, &vec![]).unwrap();
    assert_eq!(plan.len(), 2);
    match &plan[0] {
        CompileStep::WriteMain { text } => {
            assert_eq!(text, "module Main\n\nimport Foo.Bar\n\nmain : IO ()\nmain = run")
        }
        other => panic!("{:?}", other),
    }
    match &plan[1] {
        CompileStep::CheckBin { file, .. } => assert!(file.is_none()),
        other => panic!("{:?}", other),
    }
}

#[test]
fn a_binary_plan_fails_where_no_binary_can_be_built() {
    let found = || Some(("src".to_string(), "Main.idr".to_string()));
    let step = TargetStep::Bin { ix: 0, with_lib: false };
    assert_eq!(
        bin_build_plan(&bin(), step, CompilerFlavor::Idris2, found(), &None, &None, true, &vec![]).unwrap_err(),
        CompileError::NoExecutables
    );
    assert_eq!(
        bin_build_plan(&bin(), TargetStep::Doc, CompilerFlavor::Idris1, found(), &None, &None, true, &vec![]).unwrap_err(),
        CompileError::NotBinary
    );
    assert_eq!(
        bin_build_plan(&bin(), step, CompilerFlavor::Idris1, None, &None, &None, true, &vec![]).unwrap_err(),
        CompileError::MainNotFound
    );
    assert_eq!(
        bin_build_plan(&bin(), step, CompilerFlavor::Idris1, found(), &None, &Some("a/b".to_string()), true, &vec![]).unwrap_err(),
        CompileError::BadExtension
    );
}

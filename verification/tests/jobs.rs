use elba::builds::{CompilerFlavor, Target, TargetStep, Targets, Work, flavor_supports};
use elba::invoke::{
    codegen_command, codegen_failed, compile_args, compile_command, doc_dir_name, doc_opts,
    is_build_output, is_ibc, lib_output_dir, main_file, main_function_of, module_files, module_of,
    bin_module, output_files, output_name, outcome_of_check, Backend, CheckOutcome, InvokeError,
};
use elba::jobs::{builds_in_place, hash_covers_codegen, node_targets, node_work, JobGraph};

type G = JobGraph<&'static str, &'static str, &'static str>;

fn s(v: &[&str]) -> Vec<String> {
    v.iter().map(|x| x.to_string()).collect()
}

/// 0 depends on 1 and 2; 1 depends on 2.
fn graph() -> G {
    JobGraph::new(vec![vec![1, 2], vec![2], vec![]]).unwrap()
}

#[test]
fn graphs_refuse_dangling_edges() {
    assert!(G::new(vec![vec![3], vec![]]).is_none());
    let g = graph();
    assert_eq!(g.len(), 3);
    assert!(g.work(1).is_none());
    assert_eq!(g.targets(2).0, vec![Target::Lib(false)]);
}

#[test]
fn visiting_dirty_nodes_leads_to_their_unvisited_dependencies() {
    let mut g = graph();
    let root = Targets::new(vec![Target::Bin(0), Target::Lib(false)]);
    let next = g.record(0, Work::Dirty("root", "h0"), node_targets(0, &root));
    assert_eq!(next, vec![1, 2]);
    assert_eq!(g.targets(0).0, vec![Target::Lib(false), Target::Bin(0)]);
    // A dependency found built leads nowhere.
    let next = g.record(2, Work::Fresh("bin2"), node_targets(2, &root));
    assert!(next.is_empty());
    let next = g.record(1, Work::Dirty("one", "h1"), node_targets(1, &root));
    assert!(next.is_empty());
    assert_eq!(g.root_hash(), Some(&"h0"));
}

#[test]
fn jobs_start_once_their_dependencies_are_built() {
    let mut g = graph();
    g.record(0, Work::Dirty("root", "h0"), Targets::new(vec![Target::Lib(false)]));
    g.record(1, Work::Dirty("one", "h1"), Targets::new(vec![Target::Lib(false)]));
    g.record(2, Work::Dirty("two", "h2"), Targets::new(vec![Target::Lib(false)]));
    assert_eq!(g.bottom_jobs(), vec![2]);
    g.complete(2, Some("bin2"));
    assert!(g.work(2).is_fresh());
    assert_eq!(g.bottom_jobs(), vec![1]);
    g.complete(1, Some("bin1"));
    // The root, which depends on 2 too, is not built yet: 2 is kept.
    assert!(g.work(2).is_fresh());
    assert_eq!(g.bottom_jobs(), vec![0]);
    assert_eq!(g.fresh_root_children(), vec![1, 2]);
    g.complete(0, None);
    assert!(g.work(0).is_none());
    assert!(g.work(1).is_fresh());
    assert!(g.bottom_jobs().is_empty());
}

#[test]
fn builds_no_longer_needed_are_let_go() {
    // 0 depends on 1, which depends on 2.
    let mut g: G = JobGraph::new(vec![vec![1], vec![2], vec![]]).unwrap();
    for i in 0..3 {
        g.record(i, Work::Dirty("src", "hash"), Targets::new(vec![Target::Lib(false)]));
    }
    g.complete(2, Some("bin2"));
    g.complete(1, Some("bin1"));
    assert!(g.work(2).is_none());
    assert!(g.work(1).is_fresh());
    g.complete(0, Some("bin0"));
    assert!(g.work(1).is_none());
    assert!(g.work(0).is_fresh());
}

#[test]
fn node_choices() {
    let root = Targets::new(vec![Target::Test(0)]);
    assert_eq!(node_targets(0, &root).0, vec![Target::Test(0)]);
    assert_eq!(node_targets(3, &root).0, vec![Target::Lib(false)]);
    assert!(!hash_covers_codegen(0, false, &root));
    assert!(hash_covers_codegen(0, true, &root));
    assert!(!hash_covers_codegen(1, true, &Targets::new(vec![Target::Lib(false)])));
    assert!(builds_in_place(0, true));
    assert!(!builds_in_place(1, true));
    assert!(!builds_in_place(0, false));
}

#[test]
fn target_plans() {
    let t = Targets::new(vec![Target::Bin(1), Target::Lib(true), Target::Doc]);
    assert_eq!(
        t.plan(),
        vec![
            TargetStep::Lib { codegen: true },
            TargetStep::Bin { ix: 1, with_lib: true },
            TargetStep::Doc,
        ]
    );
    let t = Targets::new(vec![Target::Test(0)]);
    assert_eq!(t.plan(), vec![TargetStep::Test { ix: 0, with_lib: false }]);
    assert_eq!(flavor_supports(CompilerFlavor::Idris2, TargetStep::Bin { ix: 0, with_lib: false }), Err(InvokeError::NoExecutables));
    assert_eq!(flavor_supports(CompilerFlavor::Idris2, TargetStep::Doc), Err(InvokeError::NoDocs));
    assert_eq!(flavor_supports(CompilerFlavor::Idris2, TargetStep::Lib { codegen: true }), Ok(()));
    assert_eq!(flavor_supports(CompilerFlavor::Idris1, TargetStep::Doc), Ok(()));
}

#[test]
fn check_commands() {
    let c = compile_command(CompilerFlavor::Idris1, &s(&["/d/A", "/d/B"]), "Foo.idr", "/b", &s(&["--warn"]));
    assert_eq!(c.cwd, "/b");
    assert_eq!(c.args, s(&["--check", "-i", "/d/A", "-i", "/d/B", "--warn", "Foo.idr"]));
    assert!(c.env.is_none());
    let c = compile_command(CompilerFlavor::Idris2, &s(&["/d/A", "/d/B"]), "Foo.idr", "/b", &vec![]);
    assert_eq!(c.args, s(&["--check", "Foo.idr"]));
    assert_eq!(c.env, Some(("BLODWEN_PATH".to_string(), "/d/A:/d/B".to_string())));
}

#[test]
fn check_outcomes() {
    assert_eq!(outcome_of_check(0, true, "loadable"), CheckOutcome::Done);
    assert_eq!(outcome_of_check(0, false, "module not loadable yet"), CheckOutcome::Retry);
    assert_eq!(outcome_of_check(13, false, "loadable"), CheckOutcome::Retry);
    assert_eq!(outcome_of_check(14, false, "loadable"), CheckOutcome::Overloaded);
    assert_eq!(outcome_of_check(0, false, "type error"), CheckOutcome::Failed);
}

#[test]
fn codegen_commands() {
    let backend = Backend { name: "c".to_string(), portable: true, opts: s(&["-O2", "-g"]), extension: None };
    let c = codegen_command(CompilerFlavor::Idris1, &backend, "out", "/o", true, &s(&["-x"]), "/b", &s(&["/b/A.ibc"])).unwrap();
    assert_eq!(c.cwd, "/o");
    assert_eq!(
        c.args,
        s(&["--interface", "-o", "out", "--portable-codegen", "c", "--cg-opt", "-O2 -g", "-x", "-i", "/b", "/b/A.ibc"])
    );
    assert!(c.env.is_none());
    let c = codegen_command(CompilerFlavor::Idris2, &backend, "out", "/o", false, &vec![], "/b", &s(&["/b/x/A.ibc", "/c/B.ibc"])).unwrap();
    assert_eq!(c.args, s(&["-o", "out", "--codegen", "c", "/b/x/A.ibc", "/c/B.ibc"]));
    assert_eq!(c.env, Some(("BLODWEN_PATH".to_string(), "/b/x:/c".to_string())));
    assert_eq!(
        codegen_command(CompilerFlavor::Idris2, &backend, "out", "/o", true, &vec![], "/b", &vec![]).unwrap_err(),
        InvokeError::NoLibraryArtifacts
    );
    assert_eq!(
        codegen_command(CompilerFlavor::Idris2, &backend, "out", "/o", false, &vec![], "/b", &s(&["/"])).unwrap_err(),
        InvokeError::NoParent
    );
    assert!(codegen_failed(true, "No such variable Main.main"));
    assert!(codegen_failed(false, ""));
    assert!(!codegen_failed(true, "ok"));
}

#[test]
fn module_and_file_names() {
    assert_eq!(module_of("Control/Monad/Wow.idr"), "Control.Monad.Wow");
    assert_eq!(module_files(".Control.Monad.Wow."), ("Control/Monad/Wow.idr".to_string(), "Control/Monad/Wow.lidr".to_string()));
    assert_eq!(compile_args(&s(&["-a"]), &s(&["-b", "-c"])), s(&["-a", "-b", "-c"]));
    assert_eq!(lib_output_dir("/b", CompilerFlavor::Idris1), "/b/lib");
    assert_eq!(lib_output_dir("/b", CompilerFlavor::Idris2), "/b/lib/build");
    assert!(is_build_output("A.ibc"));
    assert!(!is_build_output("A.idr"));
    assert!(!is_build_output("A.lidr"));
    assert!(is_ibc("x/A.ibc"));
    assert!(!is_ibc("x/A"));
    assert_eq!(main_function_of("Test/Main.run"), Some(("Test.Main".to_string(), "run".to_string())));
    assert_eq!(main_function_of("Test/Main.idr"), None);
    assert_eq!(main_file("Test.Main", "run"), "module Main\n\nimport Test.Main\n\nmain : IO ()\nmain = run");
    assert_eq!(bin_module("/abs/Main.idr"), Some("Main".to_string()));
    assert_eq!(bin_module("rel/Main.idr"), Some("rel.Main".to_string()));
    assert_eq!(output_name("tool", &Some("js".to_string())), "tool.js");
    assert_eq!(output_name("tool", &None), "tool");
    assert_eq!(output_files("/t/bin", "tool"), ("/t/bin/tool".to_string(), "/t/bin/tool.exe".to_string()));
    assert_eq!(doc_opts(&s(&["/a", "/b"]), &s(&["-x", "-y"])), "-i /a-i /b-x -y");
    assert_eq!(doc_dir_name("pkg"), "pkg_doc");
}

#[test]
fn a_node_needs_nothing_a_cached_build_or_its_source() {
    assert_eq!(node_work::<u32, &str, u64>(0, true, Some(1), "src", 7), Work::Nothing);
    assert_eq!(node_work::<u32, &str, u64>(0, false, Some(1), "src", 7), Work::Fresh(1));
    assert_eq!(node_work::<u32, &str, u64>(2, true, Some(1), "src", 7), Work::Fresh(1));
    assert_eq!(node_work::<u32, &str, u64>(2, true, None, "src", 7), Work::Dirty("src", 7));
}

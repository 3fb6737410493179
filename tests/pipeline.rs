use shader_build::error::BuildError;
use shader_build::listing::{for_each_file_ext_in_dir, join, DirEntry};
use shader_build::names::NameSet;
use shader_build::provision::{setup_action, SetupAction};
use shader_build::scan::{command_line, compile_shaders, compiler_result, needs_build, CompilerRun};
use shader_build::symbols::{add_object_ids, object_id, parse_artifact};
use shader_build::synth::{
    build_generated_mod, build_objects_mod, generated_modules, needs_synthesis, stale_object_files,
};
use syn::visit::Visit;

fn file(name: &str, mtime: i128) -> DirEntry {
    DirEntry { name: name.to_string(), is_file: true, mtime }
}

fn dir(name: &str) -> DirEntry {
    DirEntry { name: name.to_string(), is_file: false, mtime: 0 }
}

fn names(list: &[&str]) -> NameSet {
    let mut s = NameSet::new();
    for n in list {
        s.insert(n.to_string());
    }
    s
}

fn segs(list: &[&str]) -> Vec<String> {
    list.iter().map(|s| s.to_string()).collect()
}

#[derive(Default)]
struct Paths {
    paths: Vec<Vec<String>>,
}

impl<'ast> Visit<'ast> for Paths {
    fn visit_expr_path(&mut self, node: &'ast syn::ExprPath) {
        self.paths.push(node.path.segments.iter().map(|s| s.ident.to_string()).collect());
        syn::visit::visit_expr_path(self, node);
    }
}

#[test]
fn needs_build_when_artifact_absent() {
    assert!(needs_build(0, 0, None));
    assert!(needs_build(-5, 100, None));
}

#[test]
fn needs_build_equal_times_are_fresh() {
    assert!(!needs_build(10, 10, Some(10)));
    assert!(!needs_build(3, 9, Some(10)));
}

#[test]
fn needs_build_when_a_source_is_newer() {
    assert!(needs_build(11, 1, Some(10)));
    assert!(needs_build(1, 11, Some(10)));
}

#[test]
fn extension_filter_keeps_regular_files_in_order() {
    let entries = vec![
        file("b.vert", 1),
        file("a.frag", 1),
        dir("d.vert"),
        file(".vert", 1),
        file("x.y.vert", 1),
        file("vert", 1),
    ];
    let kept = for_each_file_ext_in_dir(&entries, "vert");
    let got: Vec<&str> = kept.iter().map(|e| e.name.as_str()).collect();
    assert_eq!(got, vec!["b.vert", "x.y.vert"]);
}

#[test]
fn join_adds_one_separator() {
    assert_eq!(join("shaders", "a.vert"), "shaders/a.vert");
    assert_eq!(join("shaders/", "a.vert"), "shaders/a.vert");
    assert_eq!(join("", "a.vert"), "a.vert");
}

#[test]
fn new_pair_is_compiled() {
    let sources = vec![file("a.vert", 5), file("a.frag", 6)];
    let plan = compile_shaders(&sources, &vec![], "/s", "/s/generated");
    assert!(plan.fault.is_none());
    assert_eq!(plan.jobs.len(), 1);
    let job = &plan.jobs[0];
    assert_eq!(job.stem, "a");
    assert_eq!(job.vert, "/s/a.vert");
    assert_eq!(job.frag, "/s/a.frag");
    assert_eq!(job.artifact, "/s/generated/a.rs");
    assert_eq!(plan.finish().unwrap(), true);
}

#[test]
fn compiled_object_is_indexed_and_initialized() {
    let sources = vec![file("a.vert", 5), file("a.frag", 6)];
    let plan = compile_shaders(&sources, &vec![], "/s", "/s/generated");
    assert_eq!(plan.jobs.len(), 1);
    let artifact = "pub fn node() { let n = objects::Foo::ASM; let m = other::Bar::ASM; }";
    let ast = parse_artifact("a.rs", artifact).unwrap();
    let mut v = Paths::default();
    v.visit_file(&ast);
    let mut ids = NameSet::new();
    add_object_ids(&mut ids, &v.paths);
    assert_eq!(ids.len(), 1);
    assert!(ids.contains("Foo"));
    let text = build_objects_mod(&ids);
    assert!(text.contains("pub mod Foo;\n"));
    assert!(text.contains("        Foo::ASM.initialize(),\n"));
}

#[test]
fn missing_fragment_fails_naming_it() {
    let sources = vec![file("b.vert", 5)];
    let plan = compile_shaders(&sources, &vec![], "/s", "/s/generated");
    assert!(plan.jobs.is_empty());
    match plan.finish() {
        Err(BuildError::MissingFragment { path }) => assert_eq!(path, "/s/b.frag"),
        other => panic!("unexpected {:?}", other),
    }
}

#[test]
fn fragment_that_is_not_a_file_fails() {
    let sources = vec![file("b.vert", 5), dir("b.frag")];
    let plan = compile_shaders(&sources, &vec![], "/s", "/g");
    let e = plan.finish().unwrap_err();
    assert_eq!(e.message(), "/s/b.frag is not a file");
}

#[test]
fn earlier_pairs_compile_before_a_malformed_one() {
    let sources = vec![file("a.vert", 5), file("a.frag", 5), file("c.vert", 5), file("z.vert", 1), file("z.frag", 1)];
    let plan = compile_shaders(&sources, &vec![], "s", "g");
    assert_eq!(plan.jobs.len(), 1);
    assert_eq!(plan.jobs[0].artifact, "g/a.rs");
    assert_eq!(plan.finish().unwrap_err().message(), "s/c.frag does not exist");
}

#[test]
fn fresh_artifacts_compile_nothing() {
    let sources = vec![file("a.vert", 5), file("a.frag", 6), file("b.vert", 7), file("b.frag", 7)];
    let artifacts = vec![file("a.rs", 6), file("b.rs", 8), file("mod.rs", 9)];
    let plan = compile_shaders(&sources, &artifacts, "s", "g");
    assert!(plan.jobs.is_empty());
    assert_eq!(plan.finish().unwrap(), false);
}

#[test]
fn only_stale_pairs_are_compiled() {
    let sources = vec![file("a.vert", 5), file("a.frag", 7), file("b.vert", 7), file("b.frag", 7)];
    let artifacts = vec![file("a.rs", 6), file("b.rs", 8)];
    let plan = compile_shaders(&sources, &artifacts, "s", "g");
    assert_eq!(plan.jobs.len(), 1);
    assert_eq!(plan.jobs[0].stem, "a");
}

#[test]
fn second_run_recompiles_nothing_and_skips_synthesis() {
    let sources = vec![file("a.vert", 5), file("a.frag", 6)];
    let first = compile_shaders(&sources, &vec![], "s", "g");
    assert_eq!(first.jobs.len(), 1);
    let artifacts = vec![file("a.rs", 7)];
    let second = compile_shaders(&sources, &artifacts, "s", "g");
    assert!(second.jobs.is_empty());
    assert!(!needs_synthesis(false, true, true));
    let ids = names(&["Foo"]);
    assert_eq!(build_objects_mod(&ids), build_objects_mod(&names(&["Foo"])));
}

#[test]
fn synthesis_gate() {
    assert!(needs_synthesis(true, true, true));
    assert!(needs_synthesis(false, false, true));
    assert!(needs_synthesis(false, true, false));
    assert!(!needs_synthesis(false, true, true));
}

#[test]
fn compiler_failure_reports_stderr_and_paths() {
    let sources = vec![file("a.vert", 5), file("a.frag", 6)];
    let plan = compile_shaders(&sources, &vec![], "/s", "/s/generated");
    let job = &plan.jobs[0];
    let run = CompilerRun::Exited { success: false, stderr: Some("syntax error".to_string()) };
    let msg = compiler_result("vc4-glsl", job, run).unwrap_err().message();
    assert!(msg.contains("syntax error"));
    assert!(msg.contains("/s/a.vert"));
    assert!(msg.contains("/s/a.frag"));
    assert!(msg.contains("/s/generated/a.rs"));
    assert_eq!(msg, "vc4-glsl \"/s/a.vert\" \"/s/a.frag\" \"/s/generated/a.rs\"\nsyntax error");
}

#[test]
fn compiler_failure_with_undecodable_stderr() {
    let sources = vec![file("a.vert", 5), file("a.frag", 6)];
    let plan = compile_shaders(&sources, &vec![], "s", "g");
    let run = CompilerRun::Exited { success: false, stderr: None };
    let e = compiler_result("cc", &plan.jobs[0], run).unwrap_err();
    assert_eq!(e.message(), "cc \"s/a.vert\" \"s/a.frag\" \"g/a.rs\"\n");
}

#[test]
fn compiler_spawn_failure_and_success() {
    let sources = vec![file("a.vert", 5), file("a.frag", 6)];
    let plan = compile_shaders(&sources, &vec![], "s", "g");
    let job = &plan.jobs[0];
    assert_eq!(command_line("cc", job), "cc \"s/a.vert\" \"s/a.frag\" \"g/a.rs\"");
    let run = CompilerRun::SpawnFailed { reason: "not found".to_string() };
    match compiler_result("cc", job, run) {
        Err(BuildError::CompilerSpawn { command, reason }) => {
            assert_eq!(command, "cc \"s/a.vert\" \"s/a.frag\" \"g/a.rs\"");
            assert_eq!(reason, "not found");
        }
        other => panic!("unexpected {:?}", other),
    }
    let ok = CompilerRun::Exited { success: true, stderr: Some("warning".to_string()) };
    assert!(compiler_result("cc", job, ok).is_ok());
}

#[test]
fn object_paths_match_only_the_fixed_shape() {
    assert_eq!(object_id(&segs(&["objects", "Foo", "ASM"])), Some("Foo".to_string()));
    assert_eq!(object_id(&segs(&["objects", "Foo", "Asm"])), None);
    assert_eq!(object_id(&segs(&["object", "Foo", "ASM"])), None);
    assert_eq!(object_id(&segs(&["objects", "Foo"])), None);
    assert_eq!(object_id(&segs(&["x", "objects", "Foo", "ASM"])), None);
}

#[test]
fn identifiers_from_several_artifacts_collapse() {
    let mut ids = NameSet::new();
    add_object_ids(&mut ids, &vec![segs(&["objects", "B", "ASM"]), segs(&["objects", "A", "ASM"])]);
    add_object_ids(&mut ids, &vec![segs(&["objects", "A", "ASM"]), segs(&["a", "b"])]);
    assert_eq!(ids.len(), 2);
    assert_eq!(ids.get(0), "A");
    assert_eq!(ids.get(1), "B");
}

#[test]
fn name_set_orders_by_code_point() {
    let s = names(&["b", "B", "ab", "a", "b", ""]);
    let got: Vec<String> = (0..s.count()).map(|i| s.get(i).clone()).collect();
    assert_eq!(got, vec!["", "B", "a", "ab", "b"]);
    assert!(s.contains("ab"));
    assert!(!s.contains("ba"));
}

#[test]
fn parse_failure_is_reported() {
    match parse_artifact("bad.rs", "fn (") {
        Err(BuildError::Parse { file, reason }) => {
            assert_eq!(file, "bad.rs");
            assert!(!reason.is_empty());
        }
        Err(other) => panic!("unexpected {:?}", other),
        Ok(_) => panic!("parsed a malformed file"),
    }
    assert!(parse_artifact("ok.rs", "pub mod x {}").is_ok());
}

#[test]
fn artifact_index_lists_generated_modules() {
    let entries = vec![file("mod.rs", 1), file("b.rs", 1), file("a.rs", 1), dir("objects"), file("a.vert", 1)];
    let modules = generated_modules(&entries);
    assert_eq!(modules.len(), 2);
    assert_eq!(
        build_generated_mod(&modules),
        "use super::ShaderNode;\nmod objects;\npub use objects::initialize_shaders;\npub mod a;\npub mod b;\n"
    );
}

#[test]
fn object_index_exact_text() {
    let ids = names(&["Foo", "Bar"]);
    assert_eq!(
        build_objects_mod(&ids),
        "#![allow(nonstandard_style)]\nuse super::ShaderNode;\npub mod Bar;\npub mod Foo;\n\npub async fn initialize_shaders() {\n    let _ = vc4_drm::tokio::join!(\n        Bar::ASM.initialize(),\n        Foo::ASM.initialize(),\n    );\n}\n"
    );
}

#[test]
fn synthesis_is_idempotent_for_the_same_set() {
    let a = names(&["Foo", "Bar", "Baz"]);
    let b = names(&["Baz", "Foo", "Bar", "Foo"]);
    assert_eq!(build_objects_mod(&a), build_objects_mod(&b));
    assert_eq!(build_generated_mod(&a), build_generated_mod(&b));
}

#[test]
fn removed_object_file_is_deleted_and_unindexed() {
    let objects = vec![file("mod.rs", 1), file("Old.rs", 1), file("Foo.rs", 1), file("notes.txt", 1)];
    let ids = names(&["Foo"]);
    assert_eq!(stale_object_files(&objects, &ids), vec!["Old.rs".to_string()]);
    let text = build_objects_mod(&ids);
    assert!(!text.contains("Old"));
}

#[test]
fn reconciliation_leaves_exactly_the_discovered_set() {
    let objects = vec![file("A.rs", 1), file("B.rs", 1), file("C.rs", 1), file("mod.rs", 1)];
    let ids = names(&["A", "C"]);
    let gone = stale_object_files(&objects, &ids);
    let left: Vec<&str> = objects.iter().map(|e| e.name.as_str()).filter(|n| !gone.iter().any(|g| g == n)).collect();
    assert_eq!(left, vec!["A.rs", "C.rs", "mod.rs"]);
}

#[test]
fn error_messages() {
    assert_eq!(BuildError::MissingFragment { path: "p/b.frag".to_string() }.message(), "p/b.frag does not exist");
    let e = BuildError::CompilerSpawn { command: "cc".to_string(), reason: "gone".to_string() };
    assert_eq!(e.message(), "cc\ngone");
    let e = BuildError::Parse { file: "a.rs".to_string(), reason: "bad".to_string() };
    assert_eq!(e.message(), "cannot parse a.rs: bad");
}

#[test]
fn setup_steps() {
    assert_eq!(setup_action(false, false), SetupAction::Configure);
    assert_eq!(setup_action(false, true), SetupAction::Configure);
    assert_eq!(setup_action(true, false), SetupAction::Reconfigure);
    assert_eq!(setup_action(true, true), SetupAction::Keep);
}

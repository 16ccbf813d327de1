use boyia::front::{literal_requires, resolve_require_path};
use boyia::runtime::BoyiaRuntime;

#[test]
fn literal_requires_in_source_order() {
    let found = literal_requires("require(\"a.by\"); var x = 1; require ( \"lib/b.by\" );");
    assert_eq!(found, vec!["a.by".to_string(), "lib/b.by".to_string()]);
}

#[test]
fn non_literal_require_is_not_recorded() {
    assert!(literal_requires("require(name); var s = \"require(\\\"x\\\")\";").is_empty());
}

#[test]
fn require_paths_resolve_against_the_requiring_file() {
    assert_eq!(resolve_require_path("/app/main.by", "lib/a.by"), "/app/lib/a.by");
    assert_eq!(resolve_require_path("/app/main.by", "/abs/b.by"), "/abs/b.by");
    assert_eq!(resolve_require_path("main.by", "a.by"), "a.by");
}

#[test]
fn dependencies_are_loaded_depth_first() {
    let mut rt = BoyiaRuntime::create();
    rt.set_entry_script_path("/app/main.by");
    let next = rt.compile("require(\"lib/a.by\"); require(\"/abs/b.by\");");
    assert_eq!(next.as_deref(), Some("/app/lib/a.by"));
    let next = rt.file_loaded("/app/lib/a.by", Some("require(\"c.by\");"));
    assert_eq!(next.as_deref(), Some("/app/lib/c.by"));
    let next = rt.file_loaded("/app/lib/c.by", Some("var c = 3;"));
    assert_eq!(next.as_deref(), Some("/abs/b.by"));
    let next = rt.file_loaded("/abs/b.by", Some("var b = 2;"));
    assert_eq!(next, None);
}

#[test]
fn a_file_required_twice_is_loaded_once() {
    let mut rt = BoyiaRuntime::create();
    rt.set_entry_script_path("/p/main.by");
    let next = rt.compile("require(\"a.by\"); require(\"b.by\"); require(\"a.by\");");
    assert_eq!(next.as_deref(), Some("/p/a.by"));
    let next = rt.file_loaded("/p/a.by", Some("var a = 1;"));
    assert_eq!(next.as_deref(), Some("/p/b.by"));
    let next = rt.file_loaded("/p/b.by", Some("require(\"a.by\");"));
    assert_eq!(next, None);
}

#[test]
fn cyclic_requires_terminate() {
    let mut rt = BoyiaRuntime::create();
    let next = rt.compile_file("/x/a.by");
    assert_eq!(next.as_deref(), Some("/x/a.by"));
    let next = rt.file_loaded("/x/a.by", Some("require(\"b.by\");"));
    assert_eq!(next.as_deref(), Some("/x/b.by"));
    let next = rt.file_loaded("/x/b.by", Some("require(\"a.by\");"));
    assert_eq!(next, None);
}

#[test]
fn the_entry_file_is_not_required_again() {
    let mut rt = BoyiaRuntime::create();
    rt.set_entry_script_path("/e/main.by");
    let next = rt.compile("require(\"main.by\");");
    assert_eq!(next, None);
}

#[test]
fn unreadable_or_empty_file_is_skipped() {
    let mut rt = BoyiaRuntime::create();
    rt.set_entry_script_path("/q/main.by");
    let next = rt.compile("require(\"a.by\"); require(\"b.by\");");
    assert_eq!(next.as_deref(), Some("/q/a.by"));
    let next = rt.file_loaded("/q/a.by", None);
    assert_eq!(next.as_deref(), Some("/q/b.by"));
    let next = rt.file_loaded("/q/b.by", Some(""));
    assert_eq!(next, None);
}

#[test]
fn source_with_nul_records_no_require() {
    let mut rt = BoyiaRuntime::create();
    rt.set_entry_script_path("/n/main.by");
    assert_eq!(rt.compile("require(\"a.by\");\0"), None);
}

#[test]
fn compile_time_require_records_a_resolved_path() {
    let mut rt = BoyiaRuntime::create();
    rt.set_entry_script_path("/r/main.by");
    assert_eq!(rt.require_path_base(), "/r/main.by");
    assert!(rt.call_compile_function(0, "dep.by"));
    assert!(!rt.call_compile_function(1, "dep.by"));
    assert!(!rt.call_compile_function(-1, "dep.by"));
    let next = rt.compile("");
    assert_eq!(next.as_deref(), Some("/r/dep.by"));
}

#[test]
fn a_require_back_to_the_entry_is_not_queued() {
    let mut rt = BoyiaRuntime::create();
    rt.set_entry_script_path("/c/main.by");
    let next = rt.compile("require(\"a.by\");");
    assert_eq!(next.as_deref(), Some("/c/a.by"));
    assert!(rt.needs_source("/c/a.by"));
    let next = rt.file_loaded("/c/a.by", Some("require(\"main.by\");"));
    assert_eq!(next, None);
    assert!(!rt.needs_source("/c/a.by"));
}

#[test]
fn a_require_of_the_entry_under_another_spelling_compiles_nothing() {
    let mut rt = BoyiaRuntime::create();
    rt.set_entry_script_path("/d/main.by");
    let next = rt.compile("require(\"a.by\");");
    assert_eq!(next.as_deref(), Some("/d/a.by"));
    let next = rt.file_loaded("/d/a.by", Some("require(\"./main.by\");"));
    assert_eq!(next.as_deref(), Some("/d/./main.by"));
    assert!(!rt.needs_source("/d/main.by"));
    let entries = rt.vm().entry.len();
    assert_eq!(rt.file_loaded("/d/main.by", Some("require(\"b.by\");")), None);
    assert_eq!(rt.vm().entry.len(), entries);
    assert!(!rt.needs_source("/d/main.by"));
}

#[test]
fn a_compiled_file_handed_back_again_leaves_the_vm_alone() {
    let mut rt = BoyiaRuntime::create();
    let next = rt.compile_file("/g/x.by");
    assert_eq!(rt.file_loaded(next.as_deref().unwrap(), Some("var x = 1;")), None);
    let globals = rt.vm().globals.len();
    let funs = rt.vm().funs.len();
    let code = rt.vm().code.len();
    let next = rt.compile_file("/g/x.by");
    assert_eq!(rt.file_loaded(next.as_deref().unwrap(), Some("var x = 1;")), None);
    assert_eq!(rt.vm().globals.len(), globals);
    assert_eq!(rt.vm().funs.len(), funs);
    assert_eq!(rt.vm().code.len(), code);
    assert!(!rt.needs_source("/g/x.by"));
}

#[test]
fn the_entry_file_compiles_through_compile_file() {
    let mut rt = BoyiaRuntime::create();
    rt.set_entry_script_path("/e/main.by");
    let next = rt.compile_file("/e/main.by");
    assert_eq!(next.as_deref(), Some("/e/main.by"));
    assert!(rt.needs_source("/e/main.by"));
    let next = rt.file_loaded("/e/main.by", Some("require(\"lib.by\");"));
    assert_eq!(next.as_deref(), Some("/e/lib.by"));
    assert_eq!(rt.file_loaded("/e/lib.by", Some("var x = 1;")), None);
    assert!(!rt.needs_source("/e/main.by"));
}

#[test]
fn builtin_keys_after_create() {
    let mut rt = BoyiaRuntime::create();
    assert_eq!(rt.gen_identifier("String"), 3);
    assert_eq!(rt.gen_identifier("MicroTask"), 6);
    assert!(!rt.is_load_exe_file());
}

#[test]
fn compiling_a_compiled_file_again_reads_nothing() {
    let mut rt = BoyiaRuntime::create();
    let next = rt.compile_file("/d/x.by");
    let next = rt.file_loaded(next.as_deref().unwrap(), Some("var x = 1;"));
    assert_eq!(next, None);
    let again = rt.compile_file("/d/x.by");
    assert_eq!(again.as_deref(), Some("/d/x.by"));
    assert!(!rt.needs_source("/d/x.by"));
    assert_eq!(rt.file_loaded("/d/x.by", None), None);
}

#[test]
fn an_uninitialized_runtime_compiles_nothing() {
    let mut rt = BoyiaRuntime::default();
    assert_eq!(rt.compile("require(\"a.by\");"), None);
    assert_eq!(rt.compile_file("/a.by"), None);
    assert!(rt.with_vm_and_id_creator().is_none());
    let mut rt = BoyiaRuntime::create();
    let (vm, ids) = rt.with_vm_and_id_creator().unwrap();
    let k = ids.gen_ident_by_str("Extra");
    assert!(vm.create_global_class(k).is_some());
    assert_eq!(rt.vm().globals.len(), 5);
}

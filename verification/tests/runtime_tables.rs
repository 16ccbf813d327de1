use boyia::runtime::{BoyiaRuntime, NativeCall, PersistentRef};
use boyia::value::{blank_value, int_value, ValueType};
use boyia::vm::{NativeId, OpHandleResult};

#[test]
fn builtin_names_take_the_first_keys() {
    let rt = BoyiaRuntime::create();
    let names = ["this", "super", "String", "Array", "Map", "MicroTask"];
    for (i, n) in names.iter().enumerate() {
        assert_eq!(rt.name_for_identifier(i + 1).as_deref(), Some(*n));
    }
    assert_eq!(rt.name_for_identifier(0), None);
}

#[test]
fn identifiers_are_stable() {
    let mut rt = BoyiaRuntime::create();
    let a = rt.gen_identifier("fooBar");
    let b = rt.gen_identifier("fooBar");
    assert_eq!(a, b);
    assert_eq!(rt.gen_identifier("String"), 3);
    assert_eq!(rt.name_for_identifier(a).as_deref(), Some("fooBar"));
}

#[test]
fn native_table_lookup() {
    let mut rt = BoyiaRuntime::create();
    let new_key = rt.gen_identifier("new");
    let log_key = rt.gen_identifier("BY_Log");
    let req_key = rt.gen_identifier("require");
    assert_eq!(rt.find_native_func(new_key), 0);
    assert_eq!(rt.find_native_func(log_key), 1);
    assert_eq!(rt.find_native_func(req_key), 2);
    let other = rt.gen_identifier("nothing");
    assert_eq!(rt.find_native_func(other), -1);
    assert_eq!(rt.find_native_func(0), -1);
    assert_eq!(rt.find_compile_func(req_key), 0);
    assert_eq!(rt.find_compile_func(new_key), -1);
    assert_eq!(rt.native_at(1), Some(NativeId::LogPrint));
    assert_eq!(rt.native_at(3), None);
}

#[test]
fn calling_natives_by_index() {
    let mut rt = BoyiaRuntime::create();
    assert_eq!(rt.call_native_function(1), NativeCall::Outside(NativeId::LogPrint));
    assert_eq!(rt.call_native_function(2), NativeCall::Outside(NativeId::RequireFile));
    assert_eq!(rt.call_native_function(3), NativeCall::Done(OpHandleResult::kOpResultEnd));
    assert_eq!(rt.call_native_function(-1), NativeCall::Done(OpHandleResult::kOpResultEnd));
    assert_eq!(rt.call_native_function(50), NativeCall::Done(OpHandleResult::kOpResultEnd));
    assert_eq!(rt.call_native_function(0), NativeCall::Done(OpHandleResult::kOpResultEnd));
}

#[test]
fn runtime_registers_builtin_classes() {
    let rt = BoyiaRuntime::create();
    let vm = rt.vm();
    let keys: Vec<usize> = vm.globals.iter().map(|g| g.name_key).collect();
    assert_eq!(keys, vec![3, 5, 6, 4]);
    assert!(vm.globals.iter().all(|g| g.value_type == ValueType::BY_CLASS));
}

#[test]
fn minimal_runtime_has_no_classes() {
    let rt = BoyiaRuntime::create_minimal_for_test();
    assert!(rt.vm().globals.is_empty());
    assert_eq!(rt.name_for_identifier(2).as_deref(), Some("String"));
}

#[test]
fn persistent_values_are_walked_and_removed() {
    let mut rt = BoyiaRuntime::create();
    let h1 = rt.persistent_object(&int_value(1));
    let h2 = rt.persistent_object(&int_value(2));
    assert_ne!(h1, h2);
    assert_eq!(rt.iterate_persistent(), vec![PersistentRef::Value(h1), PersistentRef::Value(h2)]);
    rt.remove_persistent(h1);
    assert_eq!(rt.iterate_persistent(), vec![PersistentRef::Value(h2)]);
}

#[test]
fn empty_anonymous_function_leaves_the_persistent_list() {
    let mut rt = BoyiaRuntime::create();
    let h = rt.persistent_object(&blank_value(ValueType::BY_ANONYM_FUNC));
    let k = rt.persistent_object(&int_value(5));
    assert_eq!(rt.iterate_persistent(), vec![PersistentRef::Value(k)]);
    assert_eq!(rt.iterate_persistent(), vec![PersistentRef::Value(k)]);
    assert_ne!(h, k);
}

#[test]
fn runtime_queue_and_cache_passthrough() {
    let mut rt = BoyiaRuntime::create();
    assert!(rt.consume_micro_task().is_empty());
    rt.cache_code();
    assert!(rt.vm().code.is_empty());
    assert!(!rt.is_load_exe_file());
}

#[test]
fn identifier_table_is_shared() {
    let mut rt = BoyiaRuntime::create();
    let k = rt.id_creator().gen_ident_by_str("shared");
    assert_eq!(rt.gen_identifier("shared"), k);
    assert_eq!(rt.name_for_identifier(k).as_deref(), Some("shared"));
}

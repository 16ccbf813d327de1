use boyia::ids::IdCreator;
use boyia::string_class::builtin_string_class;
use boyia::value::{blank_value, int_value, BoyiaValue, ObjRef, ValueType};
use boyia::vm::{BoyiaVM, FuncBody, NativeId, OpHandleResult, K_BOYIA_ARRAY, K_BOYIA_STRING};

fn string_vm() -> BoyiaVM {
    let mut ids = IdCreator::new();
    for name in ["this", "super", "String", "Array", "Map", "MicroTask"] {
        ids.gen_ident_by_str(name);
    }
    let mut vm = BoyiaVM::new();
    builtin_string_class(&mut vm, &mut ids);
    let array_key = ids.gen_ident_by_str("Array");
    assert_eq!(array_key, K_BOYIA_ARRAY);
    vm.create_global_class(array_key);
    vm
}

fn text(vm: &mut BoyiaVM, s: &str) -> BoyiaValue {
    vm.string_to_boyia_value(s.as_bytes()).expect("string class registered")
}

/// Locals of a method call: the function slot, the arguments, then the receiver.
fn call_frame(vm: &mut BoyiaVM, args: &[BoyiaValue], this: &BoyiaValue) {
    vm.locals.clear();
    vm.locals.push(blank_value(ValueType::BY_ARG));
    for a in args {
        vm.locals.push(*a);
    }
    vm.locals.push(*this);
}

fn result_text(vm: &BoyiaVM) -> Vec<u8> {
    vm.value_to_string(Some(vm.reg0)).expect("result is a string")
}

#[test]
fn string_class_layout() {
    let vm = string_vm();
    let class = vm.globals[0];
    assert_eq!(class.name_key, K_BOYIA_STRING);
    assert_eq!(class.value_type, ValueType::BY_CLASS);
    let body = match class.obj.ptr {
        ObjRef::Fun(i) => i,
        _ => panic!("class has a body"),
    };
    let f = &vm.funs[body];
    assert_eq!(f.func_body, FuncBody::Class(0));
    assert_eq!(f.param_size, 9);
    assert_eq!(f.params[0].value_type, ValueType::BY_STRING);
    assert_eq!(f.params[1].value_type, ValueType::BY_INT);
    let natives = [
        NativeId::StringLength,
        NativeId::StringEqual,
        NativeId::StringIndexOf,
        NativeId::StringSplit,
        NativeId::StringReplace,
        NativeId::StringSubstring,
        NativeId::StringTrim,
    ];
    for (m, native) in natives.iter().enumerate() {
        let slot = f.params[2 + m];
        assert_eq!(slot.value_type, ValueType::BY_NAV_PROP);
        assert_eq!(slot.obj.sup, ObjRef::Fun(body));
        assert_eq!(slot.obj.ptr, ObjRef::Fun(body + 1 + m));
        assert_eq!(vm.funs[body + 1 + m].func_body, FuncBody::Native(*native));
    }
}

#[test]
fn string_value_round_trip() {
    let mut vm = string_vm();
    let v = text(&mut vm, "hello");
    assert_eq!(v.name_key, K_BOYIA_STRING);
    assert_eq!(vm.value_to_string(Some(v)), Some(b"hello".to_vec()));
    let empty = text(&mut vm, "");
    assert_eq!(vm.value_to_string(Some(empty)), Some(Vec::new()));
    assert_eq!(vm.value_to_string(Some(int_value(3))), None);
    assert_eq!(vm.value_to_string(None), None);
}

#[test]
fn length_of_receiver() {
    let mut vm = string_vm();
    let s = text(&mut vm, "hello");
    call_frame(&mut vm, &[], &s);
    assert_eq!(vm.string_length_impl(), OpHandleResult::kOpResultSuccess);
    assert_eq!(vm.reg0.value_type, ValueType::BY_INT);
    assert_eq!(vm.reg0.int_val, 5);
}

#[test]
fn equal_compares_hash_and_bytes() {
    let mut vm = string_vm();
    let a = text(&mut vm, "abc");
    let b = text(&mut vm, "abc");
    let c = text(&mut vm, "abd");
    call_frame(&mut vm, &[b], &a);
    assert_eq!(vm.string_equal_impl(), OpHandleResult::kOpResultSuccess);
    assert_eq!(vm.reg0.int_val, 1);
    call_frame(&mut vm, &[c], &a);
    vm.string_equal_impl();
    assert_eq!(vm.reg0.int_val, 0);
}

#[test]
fn index_of_with_and_without_start() {
    let mut vm = string_vm();
    let hay = text(&mut vm, "banana");
    let needle = text(&mut vm, "an");
    call_frame(&mut vm, &[needle], &hay);
    assert_eq!(vm.string_index_of_impl(), OpHandleResult::kOpResultSuccess);
    assert_eq!(vm.reg0.int_val, 1);
    call_frame(&mut vm, &[needle, int_value(2)], &hay);
    vm.string_index_of_impl();
    assert_eq!(vm.reg0.int_val, 3);
    call_frame(&mut vm, &[needle, int_value(-4)], &hay);
    vm.string_index_of_impl();
    assert_eq!(vm.reg0.int_val, 1);
    let missing = text(&mut vm, "xy");
    call_frame(&mut vm, &[missing], &hay);
    vm.string_index_of_impl();
    assert_eq!(vm.reg0.int_val, -1);
}

#[test]
fn index_of_needs_string_operands() {
    let mut vm = string_vm();
    let hay = text(&mut vm, "banana");
    call_frame(&mut vm, &[int_value(1), int_value(0)], &hay);
    assert_eq!(vm.string_index_of_impl(), OpHandleResult::kOpResultEnd);
}

#[test]
fn replace_substring_trim_results() {
    let mut vm = string_vm();
    let s = text(&mut vm, "  a-b-c  ");
    let dash = text(&mut vm, "-");
    let plus = text(&mut vm, "+");
    call_frame(&mut vm, &[dash, plus], &s);
    assert_eq!(vm.string_replace_impl(), OpHandleResult::kOpResultSuccess);
    assert_eq!(result_text(&vm), b"  a+b+c  ".to_vec());

    call_frame(&mut vm, &[], &s);
    assert_eq!(vm.string_trim_impl(), OpHandleResult::kOpResultSuccess);
    assert_eq!(result_text(&vm), b"a-b-c".to_vec());

    call_frame(&mut vm, &[int_value(5), int_value(2)], &s);
    assert_eq!(vm.string_substring_impl(), OpHandleResult::kOpResultSuccess);
    assert_eq!(result_text(&vm), b"a-b".to_vec());

    call_frame(&mut vm, &[int_value(6), int_value(100)], &s);
    vm.string_substring_impl();
    assert_eq!(result_text(&vm), b"c  ".to_vec());

    call_frame(&mut vm, &[int_value(7)], &s);
    vm.string_substring_impl();
    assert_eq!(result_text(&vm), b"  ".to_vec());
}

#[test]
fn substring_without_start_ends() {
    let mut vm = string_vm();
    let s = text(&mut vm, "abc");
    vm.locals.clear();
    vm.locals.push(s);
    assert_eq!(vm.string_substring_impl(), OpHandleResult::kOpResultEnd);
}

#[test]
fn split_builds_an_array_of_strings() {
    let mut vm = string_vm();
    let s = text(&mut vm, "x,yy,,z");
    let comma = text(&mut vm, ",");
    call_frame(&mut vm, &[comma], &s);
    let before = vm.funs.len();
    assert_eq!(vm.string_split_impl(), OpHandleResult::kOpResultSuccess);
    assert_eq!(vm.reg0.value_type, ValueType::BY_CLASS);
    assert_eq!(vm.reg0.name_key, K_BOYIA_ARRAY);
    assert_eq!(vm.reg0.obj.ptr, ObjRef::Fun(before));
    let arr = &vm.funs[before];
    assert_eq!(arr.param_size, 4);
    let parts: Vec<Vec<u8>> = (0..4).map(|k| vm.value_to_string(Some(arr.params[k])).unwrap()).collect();
    assert_eq!(parts, vec![b"x".to_vec(), b"yy".to_vec(), b"".to_vec(), b"z".to_vec()]);
}

#[test]
fn split_grows_a_full_array() {
    let mut vm = string_vm();
    let long: String = (0..40).map(|i| format!("{},", i)).collect();
    let s = text(&mut vm, &long);
    let comma = text(&mut vm, ",");
    call_frame(&mut vm, &[comma], &s);
    let before = vm.funs.len();
    assert_eq!(vm.string_split_impl(), OpHandleResult::kOpResultSuccess);
    let arr = &vm.funs[before];
    assert_eq!(arr.param_size, 41);
    assert_eq!(arr.param_count & 0xFFFF, 42);
    assert_eq!(vm.value_to_string(Some(arr.params[39])), Some(b"39".to_vec()));
    assert_eq!(vm.value_to_string(Some(arr.params[40])), Some(Vec::new()));
}

#[test]
fn split_without_array_class_ends() {
    let mut ids = IdCreator::new();
    for name in ["this", "super", "String"] {
        ids.gen_ident_by_str(name);
    }
    let mut vm = BoyiaVM::new();
    builtin_string_class(&mut vm, &mut ids);
    let s = vm.string_to_boyia_value(b"a,b").unwrap();
    let comma = vm.string_to_boyia_value(b",").unwrap();
    call_frame(&mut vm, &[comma], &s);
    let reg0 = vm.reg0;
    assert_eq!(vm.string_split_impl(), OpHandleResult::kOpResultEnd);
    assert_eq!(vm.reg0, reg0);
}

#[test]
fn builtin_dispatch_runs_string_natives() {
    let mut vm = string_vm();
    let s = text(&mut vm, "four");
    call_frame(&mut vm, &[], &s);
    assert_eq!(vm.call_builtin(NativeId::StringLength), Some(OpHandleResult::kOpResultSuccess));
    assert_eq!(vm.reg0.int_val, 4);
    assert_eq!(vm.call_builtin(NativeId::LogPrint), None);
}

#[test]
fn string_objects_compare_by_text() {
    let mut vm = string_vm();
    let a = text(&mut vm, "same");
    let b = text(&mut vm, "same");
    let c = text(&mut vm, "diff");
    assert!(vm.compare_value(&a, &b, false));
    assert!(vm.compare_value(&b, &a, false));
    assert!(!vm.compare_value(&a, &c, false));
}

#[test]
fn equal_is_symmetric() {
    let mut vm = string_vm();
    let a = text(&mut vm, "left");
    let b = text(&mut vm, "right");
    call_frame(&mut vm, &[b], &a);
    vm.string_equal_impl();
    let ab = vm.reg0.int_val;
    call_frame(&mut vm, &[a], &b);
    vm.string_equal_impl();
    assert_eq!(vm.reg0.int_val, ab);
    call_frame(&mut vm, &[a], &a);
    vm.string_equal_impl();
    assert_eq!(vm.reg0.int_val, 1);
}

#[test]
fn natives_on_non_strings() {
    let mut vm = string_vm();
    let n = int_value(12);
    call_frame(&mut vm, &[], &n);
    assert_eq!(vm.string_length_impl(), OpHandleResult::kOpResultSuccess);
    assert_eq!(vm.reg0.int_val, 0);
    let reg0 = vm.reg0;
    assert_eq!(vm.string_trim_impl(), OpHandleResult::kOpResultEnd);
    assert_eq!(vm.reg0, reg0);
    let s = text(&mut vm, "abc");
    call_frame(&mut vm, &[n, n], &s);
    assert_eq!(vm.string_replace_impl(), OpHandleResult::kOpResultEnd);
    call_frame(&mut vm, &[n], &n);
    assert_eq!(vm.string_split_impl(), OpHandleResult::kOpResultEnd);
}

#[test]
fn string_results_need_the_string_class() {
    let mut vm = BoyiaVM::new();
    let buf = vm.alloc_bytes(b" x ".to_vec());
    let mut s = blank_value(ValueType::BY_STRING);
    s.str_val = boyia::value::BoyiaStr { buf, len: 3 };
    call_frame(&mut vm, &[], &s);
    assert_eq!(vm.string_trim_impl(), OpHandleResult::kOpResultEnd);
    assert_eq!(vm.string_length_impl(), OpHandleResult::kOpResultSuccess);
    assert_eq!(vm.reg0.int_val, 3);
}

#[test]
fn string_add_concatenates_when_strings_can_be_made() {
    let mut vm = string_vm();
    let left = text(&mut vm, "ab");
    let mut right = int_value(12);
    vm.string_add(&left, &mut right, b"", b"");
    assert_eq!(right.value_type, ValueType::BY_CLASS);
    assert_eq!(vm.value_to_string(Some(right)), Some(b"ab12".to_vec()));

    let mut bare = BoyiaVM::new();
    let mut r2 = int_value(3);
    let before = bare.funs.len();
    bare.string_add(&int_value(1), &mut r2, b"", b"");
    assert_eq!(bare.funs.len(), before);
    assert_eq!(r2, int_value(3));
}

#[test]
fn const_string_needs_the_string_class() {
    let mut vm = string_vm();
    let buf = vm.alloc_bytes(b"k".to_vec());
    let mut v = int_value(0);
    assert!(vm.create_const_string(&mut v, buf, 1));
    assert_eq!(vm.value_to_string(Some(v)), Some(b"k".to_vec()));
    let mut bare = BoyiaVM::new();
    let b2 = bare.alloc_bytes(b"k".to_vec());
    let mut w = int_value(0);
    assert!(!bare.create_const_string(&mut w, b2, 1));
    assert_eq!(w, int_value(0));
}

#[test]
fn index_of_with_the_start_omitted_searches_from_zero() {
    let mut vm = string_vm();
    let hay = text(&mut vm, "hello");
    let l = text(&mut vm, "l");
    call_frame(&mut vm, &[l], &hay);
    vm.string_index_of_impl();
    assert_eq!(vm.reg0.int_val, 2);
}

fn raw_text(vm: &mut BoyiaVM, s: &str) -> BoyiaValue {
    let len = s.len() as i32;
    let buf = vm.alloc_bytes(s.as_bytes().to_vec());
    let mut v = blank_value(ValueType::BY_STRING);
    v.str_val = boyia::value::BoyiaStr { buf, len };
    v
}

#[test]
fn natives_without_a_string_class_end_and_keep_the_result() {
    let mut vm = BoyiaVM::new();
    vm.create_global_class(K_BOYIA_ARRAY);
    vm.reg0 = int_value(77);
    let s = raw_text(&mut vm, "a,b");
    let comma = raw_text(&mut vm, ",");
    let x = raw_text(&mut vm, "x");
    call_frame(&mut vm, &[comma], &s);
    assert_eq!(vm.string_split_impl(), OpHandleResult::kOpResultEnd);
    assert_eq!(vm.reg0, int_value(77));
    call_frame(&mut vm, &[comma, x], &s);
    assert_eq!(vm.string_replace_impl(), OpHandleResult::kOpResultEnd);
    assert_eq!(vm.reg0, int_value(77));
    call_frame(&mut vm, &[int_value(1)], &s);
    assert_eq!(vm.string_substring_impl(), OpHandleResult::kOpResultEnd);
    assert_eq!(vm.reg0, int_value(77));
    call_frame(&mut vm, &[], &s);
    assert_eq!(vm.string_trim_impl(), OpHandleResult::kOpResultEnd);
    assert_eq!(vm.reg0, int_value(77));
}

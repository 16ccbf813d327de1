use boyia::value::{blank_value, int_value, value_copy, value_copy_no_name, BoyiaStr, BoyiaValue, ObjRef, StrRef, ValueType};
use boyia::vm::{BoyiaVM, CmdType, FuncBody, Instruction, OpCommand, OpHandleResult, OpType, NUM_FUNC_PARAMS};

fn inst(op: CmdType, left: i64, right: i64) -> Instruction {
    Instruction {
        op_code: op,
        left: OpCommand { op_type: OpType::OP_OTHER(3), value: left as isize },
        right: OpCommand { op_type: OpType::OP_OTHER(4), value: right as isize },
        has_cache: true,
    }
}

#[test]
fn cache_patching_rewrites_operands() {
    let mut vm = BoyiaVM::new();
    vm.code = vec![
        inst(CmdType::kCmdOnceJmpTrue, 7, 0),
        inst(CmdType::kCmdCreateFunction, 7, 10),
        inst(CmdType::kCmdCreateFunction, 7, 266),
        inst(CmdType::kCmdCreateFunction, 7, 5),
        inst(CmdType::kCmdOther(12), 7, 10),
    ];
    vm.cache_vm_code();
    assert!(vm.code.iter().all(|i| !i.has_cache));
    assert_eq!(vm.code[0].left, OpCommand { op_type: OpType::OP_CONST_NUMBER, value: 1 });
    assert_eq!(vm.code[1].left, OpCommand { op_type: OpType::OP_NONE, value: 0 });
    assert_eq!(vm.code[2].left, OpCommand { op_type: OpType::OP_NONE, value: 0 });
    assert_eq!(vm.code[3].left.value, 7);
    assert_eq!(vm.code[4].left.value, 7);
    let once = vm.code.clone();
    vm.cache_vm_code();
    assert_eq!(vm.code, once);
}

#[test]
fn loaders_take_a_prefix() {
    let mut vm = BoyiaVM::new();
    vm.load_entry_table(&[1, 2, 3], 8);
    assert_eq!(vm.entry, vec![1, 2]);
    vm.load_entry_table(&[9], 0);
    assert_eq!(vm.entry, vec![1, 2]);
    vm.load_instructions(&[inst(CmdType::kCmdOther(1), 0, 0)], 5);
    assert_eq!(vm.code.len(), 1);
    let s = BoyiaStr { buf: StrRef::Null, len: 0 };
    vm.load_string_table(&[s, s, s], 2);
    assert_eq!(vm.str_table.len(), 2);
}

#[test]
fn move_entries_to_end_keeps_order_within_parts() {
    let mut vm = BoyiaVM::new();
    vm.entry = vec![10, 11, 12, 13, 14];
    vm.move_entries_to_end(1, 3);
    assert_eq!(vm.entry, vec![10, 13, 14, 11, 12]);
    vm.move_entries_to_end(4, 9);
    assert_eq!(vm.entry, vec![10, 13, 14, 11, 12]);
}

#[test]
fn value_copy_takes_the_payload_of_the_type() {
    let mut dest = blank_value(ValueType::BY_STRING);
    dest.name_key = 8;
    dest.str_val = BoyiaStr { buf: StrRef::Buf(2), len: 3 };
    let src = BoyiaValue { name_key: 5, ..int_value(42) };
    value_copy_no_name(&mut dest, &src);
    assert_eq!(dest.name_key, 8);
    assert_eq!(dest.value_type, ValueType::BY_INT);
    assert_eq!(dest.int_val, 42);
    assert_eq!(dest.str_val, BoyiaStr { buf: StrRef::Buf(2), len: 3 });
    value_copy(&mut dest, &src);
    assert_eq!(dest.name_key, 5);
    let again = dest;
    value_copy(&mut dest, &src);
    assert_eq!(dest, again);
}

#[test]
fn globals_and_objects() {
    let mut vm = BoyiaVM::new();
    let g = vm.create_global_class(40).unwrap();
    assert_eq!(vm.find_global(40), Some(g));
    assert_eq!(vm.find_global(41), None);
    assert_eq!(vm.get_global_table().1, 1);
    let body = match vm.globals[g].obj.ptr {
        ObjRef::Fun(i) => i,
        _ => panic!("class body"),
    };
    assert_eq!(vm.funs[body].func_body, FuncBody::Class(g));
    let mut prop = int_value(4);
    prop.name_key = 77;
    vm.push_param(body, &prop);
    let obj = vm.copy_object(40, 8).unwrap();
    assert_eq!(vm.funs[obj].params.len(), 8);
    assert_eq!(vm.funs[obj].param_size, 1);
    assert_eq!(vm.funs[obj].params[0].int_val, 4);
    assert_eq!(vm.gc_refs, vec![obj]);
    assert_eq!(vm.copy_object(40, 0), None);
    assert_eq!(vm.copy_object(41, 8), None);
    let class_value = vm.globals[g];
    vm.locals.push(class_value);
    assert_eq!(vm.create_object(), OpHandleResult::kOpResultSuccess);
    let made = match vm.reg0.obj.ptr {
        ObjRef::Fun(i) => i,
        _ => panic!("object body"),
    };
    assert_eq!(vm.funs[made].params.len(), NUM_FUNC_PARAMS);
    assert_eq!(vm.get_boyia_class_id(&vm.reg0), 40);
}

#[test]
fn create_object_needs_a_class() {
    let mut vm = BoyiaVM::new();
    assert_eq!(vm.create_object(), OpHandleResult::kOpResultEnd);
    vm.locals.push(int_value(1));
    assert_eq!(vm.create_object(), OpHandleResult::kOpResultEnd);
}

#[test]
fn compare_value_by_type() {
    let mut vm = BoyiaVM::new();
    let b1 = vm.alloc_bytes(b"same".to_vec());
    let mut x = blank_value(ValueType::BY_STRING);
    x.str_val = BoyiaStr { buf: b1, len: 4 };
    assert!(!vm.compare_value(&x, &x, false));
    assert!(vm.compare_value(&int_value(3), &int_value(3), false));
    assert!(!vm.compare_value(&int_value(3), &int_value(4), false));
    assert!(vm.compare_value(&int_value(3), &int_value(4), true));
    let mut f = blank_value(ValueType::BY_FUNC);
    f.obj.ptr = ObjRef::Fun(3);
    let mut g = f;
    assert!(vm.compare_value(&f, &g, false));
    g.obj.ptr = ObjRef::Fun(4);
    assert!(!vm.compare_value(&f, &g, false));
    assert!(!vm.compare_value(&g, &f, false));
}

#[test]
fn anonymous_function_copy_for_argument() {
    let mut vm = BoyiaVM::new();
    let g = vm.create_global_class(9).unwrap();
    let body = match vm.globals[g].obj.ptr {
        ObjRef::Fun(i) => i,
        _ => panic!("class body"),
    };
    let mut p = int_value(11);
    p.name_key = 2;
    vm.push_param(body, &p);
    vm.funs[body].capture_count = 3;
    let copy = vm.clone_anonym_boyia_function_for_push_arg(ObjRef::Fun(body)).unwrap();
    let f = &vm.funs[copy];
    assert_eq!(f.params.len(), NUM_FUNC_PARAMS);
    assert_eq!(f.params[0], p);
    assert_eq!(f.params[1], blank_value(ValueType::BY_ARG));
    assert_eq!(f.param_size, 1);
    assert_eq!(f.capture_count, 0);
    assert_eq!(f.func_body, FuncBody::Class(g));
    assert_eq!(vm.clone_anonym_boyia_function_for_push_arg(ObjRef::Null), None);
}

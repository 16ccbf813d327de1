use boyia::value::{int_value, ValueType};
use boyia::vm::BoyiaVM;

#[test]
fn created_tasks_are_iterated_in_creation_order() {
    let mut vm = BoyiaVM::new();
    let a = vm.create_micro_task(Some(int_value(7)));
    let b = vm.create_micro_task(None);
    let (obj, result, next) = vm.iterate_micro_task(None);
    assert_eq!(obj.unwrap().int_val, 7);
    assert_eq!(obj.unwrap().value_type, ValueType::BY_INT);
    assert_eq!(result.unwrap().value_type, ValueType::BY_ARG);
    assert_eq!(next, Some(b));
    let (obj, _, next) = vm.iterate_micro_task(Some(b));
    assert_eq!(obj.unwrap().value_type, ValueType::BY_ARG);
    assert_eq!(next, None);
    assert_ne!(a, b);
}

#[test]
fn consume_takes_resumed_tasks_oldest_first() {
    let mut vm = BoyiaVM::new();
    let a = vm.create_micro_task(None);
    let b = vm.create_micro_task(None);
    let c = vm.create_micro_task(None);
    vm.resume_micro_task(Some(c), Some(int_value(5)));
    vm.resume_micro_task(Some(a), Some(int_value(9)));
    assert_eq!(vm.tasks[c].result.int_val, 5);
    assert_eq!(vm.consume_micro_task(), vec![c, a]);
    assert!(vm.used_tasks.is_empty());
    assert_eq!(vm.alloc_tasks, vec![b]);
    let (_, _, next) = vm.iterate_micro_task(None);
    assert_eq!(next, None);
    assert_eq!(vm.consume_micro_task(), Vec::<usize>::new());
}

#[test]
fn resuming_twice_queues_once() {
    let mut vm = BoyiaVM::new();
    let a = vm.create_micro_task(None);
    vm.resume_micro_task(Some(a), Some(int_value(1)));
    vm.resume_micro_task(Some(a), Some(int_value(2)));
    assert_eq!(vm.used_tasks, vec![a]);
    assert_eq!(vm.tasks[a].result.int_val, 1);
    vm.resume_micro_task(None, Some(int_value(3)));
    vm.resume_micro_task(Some(99), Some(int_value(3)));
    assert_eq!(vm.used_tasks, vec![a]);
}

#[test]
fn freed_task_leaves_the_list() {
    let mut vm = BoyiaVM::new();
    let a = vm.create_micro_task(None);
    let b = vm.create_micro_task(None);
    vm.free_micro_task(a);
    assert_eq!(vm.alloc_tasks, vec![b]);
    assert_eq!(vm.iterate_micro_task(Some(a)), (None, None, None));
    vm.resume_micro_task(Some(b), None);
    vm.free_micro_task(b);
    assert_eq!(vm.alloc_tasks, vec![b]);
}

#[test]
fn empty_queue_iterates_nothing() {
    let vm = BoyiaVM::new();
    assert_eq!(vm.iterate_micro_task(None), (None, None, None));
}

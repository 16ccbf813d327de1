//! A safe model of the Boyia VM state: global slots, function bodies, string buffers,
//! registers, the current frame's locals, the code and entry tables and the micro-task queue.
//! Object and buffer addresses are indices into the VM's stores; an index that names
//! nothing reads as a null pointer.

use vstd::prelude::*;
use crate::text::{
    bytes_eq, decimal_bytes, decimal_text, gen_hash_code, is_digit, lemma_decimal_text_reads_back,
    read_decimal, slice_to_vec, spec_hash_code,
};
use crate::value::{
    blank_value, int_value, is_object_prop_func, spec_blank, spec_copy, spec_is_function_type,
    spec_is_object_prop_func, value_copy, BoyiaClass, BoyiaStr, BoyiaValue, LInt, LIntPtr, ObjRef,
    StrRef, ValueType, spec_is_number, spec_value_type_code, value_type_code,
};

verus! {

/// Capacity of the global value table.
pub const NUM_GLOBAL_VARS: usize = 1024;

/// Capacity of the function table.
pub const NUM_FUNC: usize = 1024;

/// Parameter slots given to a new function body or object.
pub const NUM_FUNC_PARAMS: usize = 32;

/// Capacity of the local value stack.
pub const NUM_LOCAL_VARS: usize = 1024;

/// Capacity of the constant string table.
pub const CONST_CAPACITY: usize = 1024;

/// Longest decimal text produced for a number.
pub const MAX_INT_STR_LEN: usize = 24;

/// Slots added when an array body is full.
pub const BOYIA_VECTOR_GROW_DELTA: LInt = 10;

/// Bytes taken by one value slot in the memory pool.
pub const BOYIA_VALUE_SIZE: usize = 32;

/// Slots that string objects and instances of builtin classes are given.
pub const BUILTIN_OBJECT_SLOTS: LInt = 32;

/// Bytes in the runtime's memory pool; a larger allocation fails.
pub const K_MEMORY_POOL_SIZE: usize = 6 * 1024 * 1024;

/// Builtin class keys (identifiers registered first by the runtime).
pub const K_BOYIA_STRING: usize = 3;
pub const K_BOYIA_ARRAY: usize = 4;
pub const K_BOYIA_MAP: usize = 5;
pub const K_BOYIA_MICRO_TASK: usize = 6;

/// Result of a native or VM operation.
#[allow(non_camel_case_types)]
#[derive(Clone, Copy, PartialEq, Eq, Structural, Debug)]
pub enum OpHandleResult {
    kOpResultEnd,
    kOpResultSuccess,
    kOpResultJumpFun,
}

/// The native functions: object creation, printing, loading a file, the String methods,
/// and the end marker of the native table.
#[derive(Clone, Copy, PartialEq, Eq, Structural, Debug)]
pub enum NativeId {
    CreateObject,
    LogPrint,
    RequireFile,
    StringLength,
    StringEqual,
    StringIndexOf,
    StringSplit,
    StringReplace,
    StringSubstring,
    StringTrim,
    Sentinel,
}

/// What a function body runs: nothing yet, a class (its global value slot),
/// a native function, or compiled code at an instruction offset.
#[derive(Clone, Copy, PartialEq, Eq, Structural, Debug)]
pub enum FuncBody {
    Empty,
    Class(usize),
    Native(NativeId),
    Code(usize),
}

/// A function body, class template or object: its parameter/property slots, how many are
/// used, the capacity word (low 16 bits: slot count; higher bits: flags), and its body.
pub struct BoyiaFunction {
    pub params: Vec<BoyiaValue>,
    pub param_size: LInt,
    pub param_count: LInt,
    pub func_body: FuncBody,
    pub capture_count: LInt,
}

/// Opcodes that cache patching rewrites; all others are kept as a number.
#[allow(non_camel_case_types)]
#[derive(Clone, Copy, PartialEq, Eq, Structural, Debug)]
pub enum CmdType {
    kCmdCreateFunction,
    kCmdOnceJmpTrue,
    kCmdOther(u32),
}

/// Operand kinds that cache patching writes; all others are kept as a number.
#[allow(non_camel_case_types)]
#[derive(Clone, Copy, PartialEq, Eq, Structural, Debug)]
pub enum OpType {
    OP_NONE,
    OP_CONST_NUMBER,
    OP_OTHER(u32),
}

/// An instruction operand.
#[derive(Clone, Copy, PartialEq, Eq, Structural, Debug)]
pub struct OpCommand {
    pub op_type: OpType,
    pub value: LIntPtr,
}

/// One instruction and whether it holds an inline cache.
#[derive(Clone, Copy, PartialEq, Eq, Structural, Debug)]
pub struct Instruction {
    pub op_code: CmdType,
    pub left: OpCommand,
    pub right: OpCommand,
    pub has_cache: bool,
}

/// A pending micro task: the object it belongs to and the result it resumes with.
#[derive(Clone, Copy, PartialEq, Eq, Structural, Debug)]
pub struct MicroTask {
    pub obj_ref: BoyiaValue,
    pub result: BoyiaValue,
}

/// The VM state.
pub struct BoyiaVM {
    /// Global value slots in use.
    pub globals: Vec<BoyiaValue>,
    /// Every function body, class template and object.
    pub funs: Vec<BoyiaFunction>,
    /// Slots of the function table in use.
    pub fun_table_size: usize,
    /// String buffers.
    pub bytes: Vec<Vec<u8>>,
    /// Result register and helper register.
    pub reg0: BoyiaValue,
    pub reg1: BoyiaValue,
    /// The current frame stack's locals.
    pub locals: Vec<BoyiaValue>,
    /// The number of locals below each pushed frame.
    pub frames: Vec<usize>,
    /// Instructions.
    pub code: Vec<Instruction>,
    /// Global code chains to run, in order (instruction offsets).
    pub entry: Vec<LInt>,
    /// Constant strings.
    pub str_table: Vec<BoyiaStr>,
    /// Micro tasks, by index.
    pub tasks: Vec<MicroTask>,
    /// Allocated tasks, oldest first.
    pub alloc_tasks: Vec<usize>,
    /// Resumed tasks waiting to run, oldest first.
    pub used_tasks: Vec<usize>,
    /// Objects registered with the collector, in order.
    pub gc_refs: Vec<usize>,
}

/// A value slot with all bits zero.
pub open spec fn zero_value() -> BoyiaValue {
    spec_blank(ValueType::BY_ARG)
}

/// The slot count recorded in a function's capacity word.
pub open spec fn spec_function_count(f: &BoyiaFunction) -> LInt {
    f.param_count & 0xFFFF
}

impl BoyiaVM {
    /// The state's invariant: table sizes within their capacities, and every frame start
    /// within the locals.
    pub open spec fn wf(&self) -> bool {
        &&& self.globals.len() <= NUM_GLOBAL_VARS
        &&& self.fun_table_size <= NUM_FUNC
        &&& self.locals.len() <= NUM_LOCAL_VARS
        &&& self.code.len() <= 0x7fff_ffff
        &&& forall|i: int| 0 <= i < self.frames.len() ==> #[trigger] self.frames@[i] <= self.locals.len()
        &&& self.queue_wf()
    }

    /// The micro-task lists' invariant: allocated tasks name stored tasks, once each; resumed
    /// tasks are allocated, once each.
    pub open spec fn queue_wf(&self) -> bool {
        &&& forall|i: int| 0 <= i < self.alloc_tasks@.len() ==> #[trigger] self.alloc_tasks@[i] < self.tasks@.len()
        &&& forall|i: int, j: int| 0 <= i < j < self.alloc_tasks@.len() ==> self.alloc_tasks@[i] != self.alloc_tasks@[j]
        &&& forall|i: int, j: int| 0 <= i < j < self.used_tasks@.len() ==> self.used_tasks@[i] != self.used_tasks@[j]
        &&& forall|i: int| 0 <= i < self.used_tasks@.len() ==> self.alloc_tasks@.contains(#[trigger] self.used_tasks@[i])
    }

    /// Start of the current frame's locals.
    pub open spec fn frame_start(&self) -> int {
        if self.frames.len() > 0 {
            self.frames@.last() as int
        } else {
            0
        }
    }

    /// Number of locals in the current frame.
    pub open spec fn local_size(&self) -> int {
        self.locals.len() - self.frame_start()
    }

    /// The function body with index `i`, if there is one.
    pub open spec fn fun_at(&self, r: ObjRef) -> Option<&BoyiaFunction> {
        match r {
            ObjRef::Fun(i) => if i < self.funs.len() {
                Some(&self.funs@[i as int])
            } else {
                None
            },
            _ => None,
        }
    }

    /// A fresh VM: empty tables, both registers `BY_ARG` 0, no frame, no task.
    pub fn new() -> (vm: Self)
        ensures
            vm.wf(),
            vm.globals@ == Seq::<BoyiaValue>::empty(),
            vm.funs@.len() == 0,
            vm.fun_table_size == 0,
            vm.bytes@.len() == 0,
            vm.reg0 == zero_value(),
            vm.reg1 == zero_value(),
            vm.locals@.len() == 0,
            vm.frames@.len() == 0,
            vm.code@.len() == 0,
            vm.entry@.len() == 0,
            vm.str_table@.len() == 0,
            vm.tasks@.len() == 0,
            vm.alloc_tasks@.len() == 0,
            vm.used_tasks@.len() == 0,
            vm.gc_refs@.len() == 0,
    {
        BoyiaVM {
            globals: Vec::new(),
            funs: Vec::new(),
            fun_table_size: 0,
            bytes: Vec::new(),
            reg0: blank_value(ValueType::BY_ARG),
            reg1: blank_value(ValueType::BY_ARG),
            locals: Vec::new(),
            frames: Vec::new(),
            code: Vec::new(),
            entry: Vec::new(),
            str_table: Vec::new(),
            tasks: Vec::new(),
            alloc_tasks: Vec::new(),
            used_tasks: Vec::new(),
            gc_refs: Vec::new(),
        }
    }

    /// Number of entries in the entry table.
    pub fn entry_len(&self) -> (n: usize)
        ensures
            n == self.entry@.len(),
    {
        self.entry.len()
    }

    /// Number of instructions.
    pub fn code_len(&self) -> (n: usize)
        ensures
            n == self.code@.len(),
    {
        self.code.len()
    }

    /// The slot count of a function's capacity word ; 0 when `fun`
    /// names no function.
    pub fn get_function_count(&self, fun: ObjRef) -> (n: LInt)
        ensures
            n == (match self.fun_at(fun) {
                Some(f) => spec_function_count(f),
                None => 0,
            }),
    {
        match fun {
            ObjRef::Fun(i) => if i < self.funs.len() {
                self.funs[i].param_count & 0xFFFF
            } else {
                0
            },
            _ => 0,
        }
    }

    /// Write `result` into the result register (name and payload).
    pub fn set_native_result(&mut self, result: &BoyiaValue)
        ensures
            final(self).reg0 == spec_copy(old(self).reg0, *result),
            *final(self) == (BoyiaVM { reg0: final(self).reg0, ..*old(self) }),
    {
        value_copy(&mut self.reg0, result);
    }

    /// The result register.
    pub fn get_native_result(&self) -> (r: BoyiaValue)
        ensures
            r == self.reg0,
    {
        self.reg0
    }

    /// The helper register.
    pub fn get_native_helper_result(&self) -> (r: BoyiaValue)
        ensures
            r == self.reg1,
    {
        self.reg1
    }

    /// Write an integer result into the result register; returns `kOpResultSuccess`.
    pub fn set_int_result(&mut self, result: LInt) -> (r: OpHandleResult)
        ensures
            final(self).reg0 == spec_copy(old(self).reg0, BoyiaValue { int_val: result as isize, ..spec_blank(ValueType::BY_INT) }),
            final(self).reg0.value_type == ValueType::BY_INT,
            final(self).reg0.int_val == result,
            *final(self) == (BoyiaVM { reg0: final(self).reg0, ..*old(self) }),
            r == OpHandleResult::kOpResultSuccess,
    {
        let v = int_value(result as isize);
        self.set_native_result(&v);
        OpHandleResult::kOpResultSuccess
    }

    /// Number of locals in the current frame.
    pub fn get_local_size(&self) -> (n: LInt)
        requires
            self.wf(),
        ensures
            n == self.local_size(),
            0 <= n,
    {
        let start = if self.frames.len() > 0 {
            self.frames[self.frames.len() - 1]
        } else {
            0
        };
        (self.locals.len() - start) as LInt
    }

    /// Local `idx` of the current frame, if `0 <= idx < size`.
    pub fn get_local_value(&self, idx: LInt) -> (r: Option<BoyiaValue>)
        requires
            self.wf(),
        ensures
            r is Some <==> 0 <= idx < self.local_size(),
            r matches Some(v) ==> v == self.locals@[self.frame_start() + idx],
            r == self.get_local_spec(idx as int),
    {
        let size = self.get_local_size();
        if idx < 0 || idx >= size {
            return None;
        }
        let start = if self.frames.len() > 0 {
            self.frames[self.frames.len() - 1]
        } else {
            0
        };
        Some(self.locals[start + idx as usize])
    }

    /// Push a copy of `value` onto the locals; nothing happens when the stack is full.
    pub fn local_push(&mut self, value: &BoyiaValue)
        requires
            old(self).wf(),
        ensures
            final(self).wf(),
            old(self).locals.len() >= NUM_LOCAL_VARS ==> final(self).locals == old(self).locals,
            old(self).locals.len() < NUM_LOCAL_VARS ==> final(self).locals@ == old(self).locals@.push(
                spec_copy(zero_value(), *value),
            ),
            final(self).frames == old(self).frames,
            final(self).globals == old(self).globals,
            final(self).funs == old(self).funs,
            final(self).reg0 == old(self).reg0,
    {
        if self.locals.len() >= NUM_LOCAL_VARS {
            return;
        }
        let mut slot = blank_value(ValueType::BY_ARG);
        value_copy(&mut slot, value);
        self.locals.push(slot);
        assert forall|i: int| 0 <= i < self.frames.len() implies #[trigger] self.frames@[i]
            <= self.locals.len() by {
            assert(old(self).frames@[i] <= old(self).locals.len());
        }
    }

    /// Local 0 of the current frame (the callee slot) read as a function: its body, the
    /// index of its first capture in the body's slots, and how many captures it has
    /// (only anonymous functions capture).
    pub fn get_callee_and_captures_from_locals(&self) -> (r: (ObjRef, usize, LInt))
        requires
            self.wf(),
        ensures
            ({
                let (callee, first, count) = r;
                match self.get_local_spec(0) {
                    Some(v) => if spec_is_function_type(v.value_type) && v.obj.ptr != ObjRef::Null {
                        &&& callee == v.obj.ptr
                        &&& count == (if v.value_type == ValueType::BY_ANONYM_FUNC {
                            match self.fun_at(v.obj.ptr) {
                                Some(f) => f.capture_count,
                                None => 0,
                            }
                        } else {
                            0
                        })
                        &&& (count > 0 ==> first == match self.fun_at(v.obj.ptr) {
                            Some(f) => if f.param_size >= 0 { f.param_size as usize } else { 0 },
                            None => 0,
                        })
                    } else {
                        callee == ObjRef::Null && count == 0
                    },
                    None => callee == ObjRef::Null && count == 0,
                }
            }),
    {
        let val = self.get_local_value(0);
        let v = match val {
            None => return (ObjRef::Null, 0, 0),
            Some(v) => v,
        };
        let vt = v.value_type;
        let is_fn = vt == ValueType::BY_FUNC || vt == ValueType::BY_PROP_FUNC || vt
            == ValueType::BY_ASYNC_PROP || vt == ValueType::BY_NAV_FUNC || vt
            == ValueType::BY_NAV_PROP || vt == ValueType::BY_ANONYM_FUNC;
        if !is_fn || v.obj.ptr == ObjRef::Null {
            return (ObjRef::Null, 0, 0);
        }
        let (n, first) = match v.obj.ptr {
            ObjRef::Fun(i) => if i < self.funs.len() {
                let f = &self.funs[i];
                let n = if vt == ValueType::BY_ANONYM_FUNC {
                    f.capture_count
                } else {
                    0
                };
                let first: usize = if f.param_size >= 0 {
                    f.param_size as usize
                } else {
                    0
                };
                (n, first)
            } else {
                (0, 0)
            },
            _ => (0, 0),
        };
        (v.obj.ptr, if n > 0 { first } else { 0 }, n)
    }

    /// Local `idx` of the current frame, if there is one.
    pub open spec fn get_local_spec(&self, idx: int) -> Option<BoyiaValue> {
        if 0 <= idx < self.local_size() {
            Some(self.locals@[self.frame_start() + idx])
        } else {
            None
        }
    }

    /// The global slot whose name is `key`, searching from the first.
    pub fn find_global(&self, key: usize) -> (r: Option<usize>)
        ensures
            match r {
                Some(i) => i as int == self.first_global(key),
                None => self.first_global(key) == -1,
            },
    {
        let mut i: usize = 0;
        while i < self.globals.len()
            invariant
                i <= self.globals.len(),
                global_from(self.globals@, key, 0) == global_from(self.globals@, key, i as int),
            decreases self.globals.len() - i,
        {
            if self.globals[i].name_key == key {
                return Some(i);
            }
            i = i + 1;
        }
        None
    }

    /// The index of the first global named `key`, or -1.
    pub open spec fn first_global(&self, key: usize) -> int {
        global_from(self.globals@, key, 0)
    }
}

/// The first global at or after `i` named `key`, or -1.
pub open spec fn global_from(globals: Seq<BoyiaValue>, key: usize, i: int) -> int
    decreases globals.len() - i,
{
    if i < 0 || i >= globals.len() {
        -1
    } else if globals[i].name_key == key {
        i
    } else {
        global_from(globals, key, i + 1)
    }
}

/// `global_from` finds a global with that name, at or after `i`, or -1.
pub proof fn lemma_global_from(globals: Seq<BoyiaValue>, key: usize, i: int)
    requires
        0 <= i,
    ensures
        global_from(globals, key, i) == -1 || (i <= global_from(globals, key, i) < globals.len()
            && globals[global_from(globals, key, i)].name_key == key),
    decreases globals.len() - i,
{
    if i < globals.len() && globals[i].name_key != key {
        lemma_global_from(globals, key, i + 1);
    }
}

/// A body with `n` zeroed slots, none used, capacity word `n`, running `body`.
pub open spec fn spec_new_body(f: &BoyiaFunction, n: int, body: FuncBody) -> bool {
    &&& f.params@ == Seq::new(n as nat, |i: int| zero_value())
    &&& f.param_size == 0
    &&& f.param_count == n
    &&& f.func_body == body
    &&& f.capture_count == 0
}

/// `n` zeroed value slots.
pub fn zeroed_slots(n: usize) -> (v: Vec<BoyiaValue>)
    ensures
        v@ == Seq::new(n as nat, |i: int| zero_value()),
{
    let mut v: Vec<BoyiaValue> = Vec::new();
    let mut k: usize = 0;
    while k < n
        invariant
            k <= n,
            v@ == Seq::new(k as nat, |i: int| zero_value()),
        decreases n - k,
    {
        v.push(blank_value(ValueType::BY_ARG));
        k = k + 1;
        proof {
            assert(v@ =~= Seq::new(k as nat, |i: int| zero_value()));
        }
    }
    v
}

/// The class slot of a builtin method: a `BY_NAV_PROP` named `key` over native body `fi`,
/// owned by class body `cls`.
pub open spec fn spec_method_slot(key: usize, fi: usize, cls: usize) -> BoyiaValue {
    BoyiaValue {
        name_key: key,
        obj: BoyiaClass { ptr: ObjRef::Fun(fi), sup: ObjRef::Fun(cls) },
        ..spec_blank(ValueType::BY_NAV_PROP)
    }
}

impl BoyiaVM {
    /// Create a global function or class value named `hash_key`, with a new function-table
    /// body of `NUM_FUNC_PARAMS` slots (a class's body points back at its global slot).
    /// `None` when either table is full.
    pub fn create_fun_val(&mut self, hash_key: usize, type_: ValueType) -> (r: Option<usize>)
        requires
            old(self).wf(),
        ensures
            final(self).wf(),
            r is None <==> (old(self).globals.len() >= NUM_GLOBAL_VARS || old(self).fun_table_size
                >= NUM_FUNC),
            r is None ==> *final(self) == *old(self),
            r matches Some(g) ==> {
                let fi = old(self).funs@.len() as usize;
                &&& g == old(self).globals.len()
                &&& final(self).globals@ == old(self).globals@.push(BoyiaValue {
                    name_key: hash_key,
                    value_type: type_,
                    obj: BoyiaClass { ptr: ObjRef::Fun(fi), sup: ObjRef::Null },
                    ..zero_value()
                })
                &&& final(self).funs@.len() == old(self).funs@.len() + 1
                &&& forall|j: int| 0 <= j < old(self).funs@.len() ==> #[trigger] final(self).funs@[j] == old(self).funs@[j]
                &&& spec_new_body(&final(self).funs@[fi as int], NUM_FUNC_PARAMS as int,
                    if type_ == ValueType::BY_CLASS { FuncBody::Class(g) } else { FuncBody::Empty })
                &&& final(self).fun_table_size == old(self).fun_table_size + 1
            },
            *final(self) == (BoyiaVM { globals: final(self).globals, funs: final(self).funs, fun_table_size: final(self).fun_table_size, ..*old(self) }),
            final(self).locals == old(self).locals,
            final(self).frames == old(self).frames,
            final(self).bytes == old(self).bytes,
            final(self).entry == old(self).entry,
            final(self).code == old(self).code,
    {
        if self.globals.len() >= NUM_GLOBAL_VARS || self.fun_table_size >= NUM_FUNC {
            return None;
        }
        let g = self.globals.len();
        let fi = self.funs.len();
        let mut val = blank_value(ValueType::BY_ARG);
        val.name_key = hash_key;
        val.value_type = type_;
        val.obj = BoyiaClass { ptr: ObjRef::Fun(fi), sup: ObjRef::Null };
        self.globals.push(val);
        let body = if type_ == ValueType::BY_CLASS {
            FuncBody::Class(g)
        } else {
            FuncBody::Empty
        };
        let fun = BoyiaFunction {
            params: zeroed_slots(NUM_FUNC_PARAMS),
            param_size: 0,
            param_count: NUM_FUNC_PARAMS as LInt,
            func_body: body,
            capture_count: 0,
        };
        self.funs.push(fun);
        self.fun_table_size = self.fun_table_size + 1;
        Some(g)
    }

    /// Create the global class value named `key` (see `create_fun_val`).
    pub fn create_global_class(&mut self, key: usize) -> (r: Option<usize>)
        requires
            old(self).wf(),
        ensures
            final(self).wf(),
            r is None <==> (old(self).globals.len() >= NUM_GLOBAL_VARS || old(self).fun_table_size
                >= NUM_FUNC),
            r matches Some(g) ==> {
                let fi = old(self).funs@.len() as usize;
                &&& g == old(self).globals.len()
                &&& final(self).globals@ == old(self).globals@.push(BoyiaValue {
                    name_key: key,
                    value_type: ValueType::BY_CLASS,
                    obj: BoyiaClass { ptr: ObjRef::Fun(fi), sup: ObjRef::Null },
                    ..zero_value()
                })
                &&& final(self).funs@.len() == old(self).funs@.len() + 1
                &&& forall|j: int| 0 <= j < old(self).funs@.len() ==> #[trigger] final(self).funs@[j] == old(self).funs@[j]
                &&& spec_new_body(&final(self).funs@[fi as int], NUM_FUNC_PARAMS as int, FuncBody::Class(g))
                &&& final(self).fun_table_size == old(self).fun_table_size + 1
            },
            r is None ==> *final(self) == *old(self),
            *final(self) == (BoyiaVM { globals: final(self).globals, funs: final(self).funs, fun_table_size: final(self).fun_table_size, ..*old(self) }),
            final(self).locals == old(self).locals,
            final(self).frames == old(self).frames,
            final(self).bytes == old(self).bytes,
            final(self).entry == old(self).entry,
            final(self).code == old(self).code,
    {
        self.create_fun_val(key, ValueType::BY_CLASS)
    }

    /// Take a function-table slot for a builtin method running `native`: no slots, capacity 0.
    /// `None` when the function table is full.
    pub fn alloc_builtin_function(&mut self, native: NativeId) -> (r: Option<usize>)
        requires
            old(self).wf(),
        ensures
            final(self).wf(),
            r is None <==> old(self).fun_table_size >= NUM_FUNC,
            r is None ==> *final(self) == *old(self),
            r matches Some(fi) ==> {
                &&& fi == old(self).funs@.len()
                &&& final(self).funs@.len() == old(self).funs@.len() + 1
                &&& forall|j: int| 0 <= j < old(self).funs@.len() ==> #[trigger] final(self).funs@[j] == old(self).funs@[j]
                &&& spec_new_body(&final(self).funs@[fi as int], 0, FuncBody::Native(native))
                &&& final(self).fun_table_size == old(self).fun_table_size + 1
            },
            *final(self) == (BoyiaVM { funs: final(self).funs, fun_table_size: final(self).fun_table_size, ..*old(self) }),
            final(self).globals == old(self).globals,
            final(self).locals == old(self).locals,
            final(self).frames == old(self).frames,
            final(self).bytes == old(self).bytes,
            final(self).entry == old(self).entry,
            final(self).code == old(self).code,
    {
        if self.fun_table_size >= NUM_FUNC {
            return None;
        }
        let fi = self.funs.len();
        let fun = BoyiaFunction {
            params: Vec::new(),
            param_size: 0,
            param_count: 0,
            func_body: FuncBody::Native(native),
            capture_count: 0,
        };
        self.funs.push(fun);
        self.fun_table_size = self.fun_table_size + 1;
        proof {
            assert(self.funs@[fi as int].params@ =~= Seq::new(0, |i: int| zero_value()));
        }
        Some(fi)
    }

    /// Add method `key` running `native` to class body `cls` : a new
    /// native body, and a `BY_NAV_PROP` slot named `key` over it, owned by the class, appended
    /// to the class's slots. Returns `false`, changing nothing, when the function table is full.
    pub fn gen_builtin_class_function(&mut self, key: usize, native: NativeId, cls: usize) -> (r: bool)
        requires
            old(self).wf(),
            cls < old(self).funs@.len(),
            0 <= old(self).funs@[cls as int].param_size < i32::MAX,
            (old(self).funs@[cls as int].param_size as int) < old(self).funs@[cls as int].params@.len(),
        ensures
            final(self).wf(),
            r == (old(self).fun_table_size < NUM_FUNC),
            !r ==> *final(self) == *old(self),
            r ==> {
                let fi = old(self).funs@.len();
                let f = old(self).funs@[cls as int];
                let nf = final(self).funs@[cls as int];
                &&& final(self).funs@.len() == fi + 1
                &&& forall|j: int| 0 <= j < fi && j != cls ==> #[trigger] final(self).funs@[j] == old(self).funs@[j]
                &&& spec_new_body(&final(self).funs@[fi as int], 0, FuncBody::Native(native))
                &&& nf.params@ == f.params@.update(f.param_size as int, spec_method_slot(key, fi as usize, cls))
                &&& nf.param_size == f.param_size + 1
                &&& nf.param_count == f.param_count
                &&& nf.func_body == f.func_body
                &&& nf.capture_count == f.capture_count
                &&& final(self).fun_table_size == old(self).fun_table_size + 1
                &&& final(self).globals == old(self).globals
                &&& final(self).locals == old(self).locals
                &&& final(self).frames == old(self).frames
                &&& final(self).bytes == old(self).bytes
                &&& final(self).reg0 == old(self).reg0
                &&& final(self).reg1 == old(self).reg1
                &&& final(self).entry == old(self).entry
                &&& final(self).code == old(self).code
                &&& final(self).str_table == old(self).str_table
                &&& final(self).tasks == old(self).tasks
                &&& final(self).alloc_tasks == old(self).alloc_tasks
                &&& final(self).used_tasks == old(self).used_tasks
                &&& final(self).gc_refs == old(self).gc_refs
            },
    {
        let fi = match self.alloc_builtin_function(native) {
            None => return false,
            Some(fi) => fi,
        };
        let mut slot = blank_value(ValueType::BY_NAV_PROP);
        slot.name_key = key;
        slot.obj = BoyiaClass { ptr: ObjRef::Fun(fi), sup: ObjRef::Fun(cls) };
        self.push_param(cls, &slot);
        true
    }

    /// The class key of an object value: the name of the class that its body was copied from;
    /// 0 when `obj` is not an object or its links name nothing.
    pub fn get_boyia_class_id(&self, obj: &BoyiaValue) -> (id: usize)
        ensures
            id == self.spec_class_id(*obj),
    {
        if obj.value_type != ValueType::BY_CLASS {
            return 0;
        }
        match obj.obj.ptr {
            ObjRef::Fun(i) => if i < self.funs.len() {
                match self.funs[i].func_body {
                    FuncBody::Class(g) => if g < self.globals.len() {
                        self.globals[g].name_key
                    } else {
                        0
                    },
                    _ => 0,
                }
            } else {
                0
            },
            _ => 0,
        }
    }

    /// Whether String objects can be made at all: some global is named `String` and the
    /// first such global has a body.
    pub open spec fn can_make_strings(&self) -> bool {
        &&& self.first_global(K_BOYIA_STRING) >= 0
        &&& self.fun_at(self.globals@[self.first_global(K_BOYIA_STRING)].obj.ptr) is Some
    }

    /// The class key of an object value (see `get_boyia_class_id`).
    pub open spec fn spec_class_id(&self, obj: BoyiaValue) -> usize {
        if obj.value_type != ValueType::BY_CLASS {
            0
        } else {
            match self.fun_at(obj.obj.ptr) {
                Some(f) => match f.func_body {
                    FuncBody::Class(g) => if g < self.globals.len() {
                        self.globals@[g as int].name_key
                    } else {
                        0
                    },
                    _ => 0,
                },
                None => 0,
            }
        }
    }
}


/// The entry table after moving the chains in `[start, end)` behind all others.
pub open spec fn spec_move_to_end(e: Seq<LInt>, start: int, end: int) -> Seq<LInt> {
    if 0 <= start < end <= e.len() {
        e.subrange(0, start) + e.subrange(end, e.len() as int) + e.subrange(start, end)
    } else {
        e
    }
}

impl BoyiaVM {
    /// Move the entries `[start, end)` behind all other entries, keeping the order within
    /// each part; nothing changes when the range is empty or out of bounds.
    pub fn move_entries_to_end(&mut self, start: usize, end: usize)
        requires
            old(self).wf(),
        ensures
            final(self).wf(),
            final(self).entry@ == spec_move_to_end(old(self).entry@, start as int, end as int),
            *final(self) == (BoyiaVM { entry: final(self).entry, ..*old(self) }),
    {
        let len = self.entry.len();
        if !(start < end && end <= len) {
            return;
        }
        let mut moved: Vec<LInt> = Vec::new();
        let mut rest: Vec<LInt> = Vec::new();
        let mut i: usize = 0;
        while i < len
            invariant
                len == self.entry@.len(),
                self.entry@ == old(self).entry@,
                start < end <= len,
                i <= len,
                moved@ == self.entry@.subrange(start as int, if i < start { start as int } else if i < end { i as int } else { end as int }),
                rest@ == self.entry@.subrange(0, if i < start { i as int } else { start as int })
                    + self.entry@.subrange(end as int, if i < end { end as int } else { i as int }),
            decreases len - i,
        {
            let e = self.entry[i];
            if i >= start && i < end {
                moved.push(e);
            } else {
                rest.push(e);
            }
            i = i + 1;
            proof {
                assert(moved@ =~= self.entry@.subrange(start as int, if i < start { start as int } else if i < end { i as int } else { end as int }));
                assert(rest@ =~= self.entry@.subrange(0, if i < start { i as int } else { start as int })
                    + self.entry@.subrange(end as int, if i < end { end as int } else { i as int }));
            }
        }
        let mut k: usize = 0;
        let ghost r0 = rest@;
        while k < moved.len()
            invariant
                k <= moved@.len(),
                rest@ == r0 + moved@.subrange(0, k as int),
            decreases moved@.len() - k,
        {
            rest.push(moved[k]);
            k = k + 1;
            proof {
                assert(rest@ =~= r0 + moved@.subrange(0, k as int));
            }
        }
        proof {
            assert(moved@.subrange(0, moved@.len() as int) =~= moved@);
        }
        self.entry = rest;
    }
}


/// Whether a class slot of this type stays out of objects (plain and native functions are
/// shared through the class).
pub open spec fn skips_in_object(t: ValueType) -> bool {
    t == ValueType::BY_FUNC || t == ValueType::BY_NAV_FUNC
}

/// The slots `params[0..k]` that objects take, from the last down to the first.
pub open spec fn own_props(params: Seq<BoyiaValue>, k: int) -> Seq<BoyiaValue>
    decreases k,
{
    if k <= 0 {
        Seq::empty()
    } else {
        let p = params[k - 1];
        (if skips_in_object(p.value_type) {
            Seq::empty()
        } else {
            seq![p]
        }) + own_props(params, k - 1)
    }
}

/// The number of slots of `f` that are read: its used count, within its slots.
pub open spec fn used_slots(f: &BoyiaFunction) -> int {
    if f.param_size < 0 {
        0
    } else if f.param_size as int > f.params@.len() {
        f.params@.len() as int
    } else {
        f.param_size as int
    }
}

/// The slots that an object of class `cls` takes: the class's own, then its super class's,
/// and so on up the chain (at most `fuel` classes).
pub open spec fn chain_props(vm: &BoyiaVM, cls: BoyiaValue, fuel: nat) -> Seq<BoyiaValue>
    decreases fuel,
{
    if fuel == 0 {
        Seq::empty()
    } else {
        match vm.fun_at(cls.obj.ptr) {
            None => Seq::empty(),
            Some(f) => own_props(f.params@, used_slots(f)) + match cls.obj.sup {
                ObjRef::Global(g) => if g < vm.globals.len() {
                    chain_props(vm, vm.globals@[g as int], (fuel - 1) as nat)
                } else {
                    Seq::empty()
                },
                _ => Seq::empty(),
            },
        }
    }
}

/// `chain_props` reads only the global slots and the function store.
pub proof fn lemma_chain_props_frame(a: &BoyiaVM, b: &BoyiaVM, cls: BoyiaValue, fuel: nat)
    requires
        a.globals == b.globals,
        a.funs == b.funs,
    ensures
        chain_props(a, cls, fuel) == chain_props(b, cls, fuel),
    decreases fuel,
{
    if fuel > 0 {
        match cls.obj.sup {
            ObjRef::Global(g) => if g < a.globals.len() {
                lemma_chain_props_frame(a, b, a.globals@[g as int], (fuel - 1) as nat);
            },
            _ => {},
        }
    }
}

/// A class slot as an object of body `me` holds it: a copy, whose methods are bound to `me`.
pub open spec fn spec_bind(p: BoyiaValue, me: usize) -> BoyiaValue {
    let c = spec_copy(zero_value(), p);
    if spec_is_object_prop_func(p.value_type) {
        BoyiaValue { obj: BoyiaClass { ptr: c.obj.ptr, sup: ObjRef::Fun(me) }, ..c }
    } else {
        c
    }
}

/// The slots of an object with `count` slots and body `me`, made from the class slots
/// `props`: the first `count` of them bound to `me`, the rest zero.
pub open spec fn object_slots(props: Seq<BoyiaValue>, count: int, me: usize) -> Seq<BoyiaValue> {
    Seq::new(
        count as nat,
        |j: int|
            if j < props.len() {
                spec_bind(props[j], me)
            } else {
                zero_value()
            },
    )
}

/// The number of slots an object made from `props` uses.
pub open spec fn object_used(props: Seq<BoyiaValue>, count: int) -> int {
    if props.len() < count {
        props.len() as int
    } else {
        count
    }
}

impl BoyiaVM {
    /// Whether `count` value slots fit in the memory pool.
    pub open spec fn fits_pool(count: int) -> bool {
        count * BOYIA_VALUE_SIZE <= K_MEMORY_POOL_SIZE
    }

    /// Make an object body of `count` slots from class value `cls_val`: the body runs what
    /// the class body runs, and takes the slots of the class chain (see `chain_props`) that
    /// fit. `None` when `count <= 0`, the class has no body, or the slots do not fit in the pool.
    pub fn copy_function(&mut self, cls_val: &BoyiaValue, count: LInt) -> (r: Option<usize>)
        requires
            old(self).wf(),
        ensures
            final(self).wf(),
            r is None <==> (count <= 0 || old(self).fun_at(cls_val.obj.ptr) is None || !Self::fits_pool(count as int)),
            r is None ==> *final(self) == *old(self),
            r matches Some(me) ==> {
                let props = chain_props(old(self), *cls_val, (old(self).globals@.len() + 1) as nat);
                let f = final(self).funs@[me as int];
                let cf = old(self).fun_at(cls_val.obj.ptr).unwrap();
                &&& me == old(self).funs@.len()
                &&& final(self).funs@.len() == old(self).funs@.len() + 1
                &&& forall|j: int| 0 <= j < old(self).funs@.len() ==> #[trigger] final(self).funs@[j] == old(self).funs@[j]
                &&& f.params@ == object_slots(props, count as int, me)
                &&& f.param_size == object_used(props, count as int)
                &&& f.param_count == count
                &&& f.func_body == cf.func_body
                &&& f.capture_count == 0
                &&& final(self).globals == old(self).globals
                &&& final(self).fun_table_size == old(self).fun_table_size
                &&& final(self).bytes == old(self).bytes
                &&& final(self).locals == old(self).locals
                &&& final(self).frames == old(self).frames
                &&& final(self).reg0 == old(self).reg0
                &&& final(self).reg1 == old(self).reg1
                &&& final(self).entry == old(self).entry
                &&& final(self).code == old(self).code
                &&& final(self).str_table == old(self).str_table
                &&& final(self).tasks == old(self).tasks
                &&& final(self).alloc_tasks == old(self).alloc_tasks
                &&& final(self).used_tasks == old(self).used_tasks
                &&& final(self).gc_refs == old(self).gc_refs
            },
    {
        if count <= 0 {
            return None;
        }
        let fi = match cls_val.obj.ptr {
            ObjRef::Fun(i) => if i < self.funs.len() {
                i
            } else {
                return None;
            },
            _ => return None,
        };
        if count as usize > K_MEMORY_POOL_SIZE / BOYIA_VALUE_SIZE {
            return None;
        }
        let me = self.funs.len();
        let ucount = count as usize;
        let ghost vm0 = *self;
        let ghost fuel0 = (self.globals@.len() + 1) as nat;
        let ghost total = chain_props(self, *cls_val, fuel0);
        let mut collected: Vec<BoyiaValue> = Vec::new();
        let ghost mut acc: Seq<BoyiaValue> = Seq::empty();
        let mut cls: BoyiaValue = *cls_val;
        let mut fuel: usize = self.globals.len() + 1;
        loop
            invariant_except_break
                total == acc + chain_props(&vm0, cls, fuel as nat),
            invariant
                *self == vm0,
                total == chain_props(&vm0, *cls_val, fuel0),
                fuel <= vm0.globals@.len() + 1,
                ucount == count as usize,
                0 < count,
                collected@ == Seq::new(object_used(acc, count as int) as nat, |j: int| spec_bind(acc[j], me)),
            ensures
                total == acc,
            decreases fuel,
        {
            if fuel == 0 {
                proof {
                    assert(total == acc);
                }
                break;
            }
            let ci = match cls.obj.ptr {
                ObjRef::Fun(i) => if i < self.funs.len() {
                    i
                } else {
                    proof {
                        assert(total =~= acc);
                    }
                    break;
                },
                _ => {
                    proof {
                        assert(total =~= acc);
                    }
                    break;
                },
            };
            let f = &self.funs[ci];
            let used: usize = if f.param_size < 0 {
                0
            } else if f.param_size as usize > f.params.len() {
                f.params.len()
            } else {
                f.param_size as usize
            };
            let ghost own = own_props(f.params@, used as int);
            let ghost rest = match cls.obj.sup {
                ObjRef::Global(g) => if g < self.globals.len() {
                    chain_props(&vm0, vm0.globals@[g as int], (fuel - 1) as nat)
                } else {
                    Seq::empty()
                },
                _ => Seq::empty(),
            };
            assert(chain_props(&vm0, cls, fuel as nat) == own + rest);
            let mut idx = used;
            let ghost acc_outer = acc;
            proof {
                assert(own_props(f.params@, used as int) == own);
            }
            while idx > 0
                invariant
                    *self == vm0,
                    ci < self.funs@.len(),
                    f == &self.funs@[ci as int],
                    idx <= used <= f.params@.len(),
                    acc_outer + own == acc + own_props(f.params@, idx as int),
                    ucount == count as usize,
                    0 < count,
                    collected@ == Seq::new(object_used(acc, count as int) as nat, |j: int| spec_bind(acc[j], me)),
                decreases idx,
            {
                idx = idx - 1;
                let p = f.params[idx];
                let ghost acc_before = acc;
                if p.value_type == ValueType::BY_FUNC || p.value_type == ValueType::BY_NAV_FUNC {
                    proof {
                        assert(own_props(f.params@, idx + 1) == own_props(f.params@, idx as int));
                    }
                } else {
                    if collected.len() < ucount {
                        let mut slot = blank_value(ValueType::BY_ARG);
                        value_copy(&mut slot, &p);
                        if is_object_prop_func(p.value_type) {
                            slot.obj.sup = ObjRef::Fun(me);
                        }
                        collected.push(slot);
                    }
                    proof {
                        acc = acc.push(p);
                        assert(own_props(f.params@, idx + 1) == seq![p] + own_props(f.params@, idx as int));
                        assert(acc_before + (seq![p] + own_props(f.params@, idx as int)) =~= acc + own_props(f.params@, idx as int));
                        assert(collected@ =~= Seq::new(object_used(acc, count as int) as nat, |j: int| spec_bind(acc[j], me)));
                    }
                }
            }
            proof {
                assert(own_props(f.params@, 0) =~= Seq::<BoyiaValue>::empty());
                assert(acc =~= acc_outer + own);
            }
            let next = match cls.obj.sup {
                ObjRef::Global(g) => if g < self.globals.len() {
                    self.globals[g]
                } else {
                    proof {
                        assert(total =~= acc + Seq::<BoyiaValue>::empty());
                    }
                    break;
                },
                _ => {
                    proof {
                        assert(total =~= acc + Seq::<BoyiaValue>::empty());
                    }
                    break;
                },
            };
            proof {
                assert(total =~= acc + chain_props(&vm0, next, (fuel - 1) as nat));
            }
            cls = next;
            fuel = fuel - 1;
        }
        let used_n = collected.len();
        let mut params = collected;
        while params.len() < ucount
            invariant
                used_n <= params@.len() <= ucount,
                ucount == count as usize,
                forall|j: int| 0 <= j < used_n ==> #[trigger] params@[j] == spec_bind(total[j], me),
                forall|j: int| used_n <= j < params@.len() ==> #[trigger] params@[j] == zero_value(),
                used_n == object_used(total, count as int),
            decreases ucount - params@.len(),
        {
            params.push(blank_value(ValueType::BY_ARG));
        }
        proof {
            assert(params@ =~= object_slots(total, count as int, me));
        }
        let body = self.funs[fi].func_body;
        let newf = BoyiaFunction {
            params,
            param_size: used_n as LInt,
            param_count: count,
            func_body: body,
            capture_count: 0,
        };
        self.funs.push(newf);
        Some(me)
    }
}


/// An instruction after cache patching: its inline cache dropped; a `kCmdCreateFunction`
/// of an anonymous function (right operand's low byte is `BY_ANONYM_FUNC`'s number) gets an
/// empty left operand; a `kCmdOnceJmpTrue` gets the constant 1 as its left operand.
pub open spec fn spec_patch(i: Instruction) -> Instruction {
    let i1 = Instruction { has_cache: false, ..i };
    let i2 = if i.op_code == CmdType::kCmdCreateFunction && (i.right.value as u8) == spec_value_type_code(ValueType::BY_ANONYM_FUNC) {
        Instruction { left: OpCommand { op_type: OpType::OP_NONE, value: 0 }, ..i1 }
    } else {
        i1
    };
    if i.op_code == CmdType::kCmdOnceJmpTrue {
        Instruction { left: OpCommand { op_type: OpType::OP_CONST_NUMBER, value: 1 }, ..i2 }
    } else {
        i2
    }
}

/// Patching an instruction twice gives what patching it once gives.
pub proof fn lemma_patch_idempotent(i: Instruction)
    ensures
        spec_patch(spec_patch(i)) == spec_patch(i),
{
}

impl BoyiaVM {
    /// Cache patching over all instructions (`cache_vm_code`, see `spec_patch`).
    pub fn cache_vm_code(&mut self)
        requires
            old(self).wf(),
        ensures
            final(self).wf(),
            final(self).code@ == Seq::new(old(self).code@.len(), |k: int| spec_patch(old(self).code@[k])),
            *final(self) == (BoyiaVM { code: final(self).code, ..*old(self) }),
    {
        let n = self.code.len();
        let anonym = value_type_code(ValueType::BY_ANONYM_FUNC);
        let mut out: Vec<Instruction> = Vec::new();
        let mut k: usize = 0;
        while k < n
            invariant
                n == self.code@.len(),
                k <= n,
                *self == *old(self),
                anonym == spec_value_type_code(ValueType::BY_ANONYM_FUNC),
                out@ == Seq::new(k as nat, |j: int| spec_patch(self.code@[j])),
            decreases n - k,
        {
            let i = self.code[k];
            let mut p = i;
            p.has_cache = false;
            if i.op_code == CmdType::kCmdCreateFunction && (i.right.value as u8) == anonym {
                p.left = OpCommand { op_type: OpType::OP_NONE, value: 0 };
            }
            if i.op_code == CmdType::kCmdOnceJmpTrue {
                p.left = OpCommand { op_type: OpType::OP_CONST_NUMBER, value: 1 };
            }
            out.push(p);
            k = k + 1;
            proof {
                assert(out@ =~= Seq::new(k as nat, |j: int| spec_patch(self.code@[j])));
            }
        }
        self.code = out;
    }

    /// Replace the constant strings with the first `size` of `table` (at most
    /// `CONST_CAPACITY`, and no more than `table` holds); nothing changes when `size <= 0`.
    pub fn load_string_table(&mut self, table: &[BoyiaStr], size: LInt)
        requires
            old(self).wf(),
        ensures
            final(self).wf(),
            size <= 0 ==> *final(self) == *old(self),
            size > 0 ==> {
                let n = if (size as int) < CONST_CAPACITY { size as int } else { CONST_CAPACITY as int };
                let m = if n < table@.len() { n } else { table@.len() as int };
                &&& final(self).str_table@ == table@.take(m)
                &&& *final(self) == (BoyiaVM { str_table: final(self).str_table, ..*old(self) })
            },
    {
        if size <= 0 {
            return;
        }
        let n: usize = if (size as usize) < CONST_CAPACITY {
            size as usize
        } else {
            CONST_CAPACITY
        };
        let m: usize = if n < table.len() {
            n
        } else {
            table.len()
        };
        let mut out: Vec<BoyiaStr> = Vec::new();
        let mut k: usize = 0;
        while k < m
            invariant
                k <= m <= table@.len(),
                out@ == table@.take(k as int),
            decreases m - k,
        {
            out.push(table[k]);
            k = k + 1;
            proof {
                assert(out@ =~= table@.take(k as int));
            }
        }
        self.str_table = out;
    }

    /// Replace the instructions with the first `size` of `code` (no more than `code` holds);
    /// nothing changes when `size <= 0`.
    pub fn load_instructions(&mut self, code: &[Instruction], size: LInt)
        requires
            old(self).wf(),
        ensures
            final(self).wf(),
            size <= 0 ==> *final(self) == *old(self),
            size > 0 ==> {
                let m = if (size as int) < code@.len() { size as int } else { code@.len() as int };
                &&& final(self).code@ == code@.take(m)
                &&& *final(self) == (BoyiaVM { code: final(self).code, ..*old(self) })
            },
    {
        if size <= 0 {
            return;
        }
        let m: usize = if (size as usize) < code.len() {
            size as usize
        } else {
            code.len()
        };
        let mut out: Vec<Instruction> = Vec::new();
        let mut k: usize = 0;
        while k < m
            invariant
                k <= m <= code@.len(),
                m <= i32::MAX,
                out@ == code@.take(k as int),
            decreases m - k,
        {
            out.push(code[k]);
            k = k + 1;
            proof {
                assert(out@ =~= code@.take(k as int));
            }
        }
        self.code = out;
    }

    /// Replace the entry table with the entries in the first `size` bytes of `entries` (four
    /// bytes each; no more than `entries` holds); nothing changes when `size <= 0`.
    pub fn load_entry_table(&mut self, entries: &[LInt], size: LInt)
        requires
            old(self).wf(),
        ensures
            final(self).wf(),
            size <= 0 ==> *final(self) == *old(self),
            size > 0 ==> {
                let n = size as int / 4;
                let m = if n < entries@.len() { n } else { entries@.len() as int };
                &&& final(self).entry@ == entries@.take(m)
                &&& *final(self) == (BoyiaVM { entry: final(self).entry, ..*old(self) })
            },
    {
        if size <= 0 {
            return;
        }
        let n: usize = (size / 4) as usize;
        let m: usize = if n < entries.len() {
            n
        } else {
            entries.len()
        };
        let mut out: Vec<LInt> = Vec::new();
        let mut k: usize = 0;
        while k < m
            invariant
                k <= m <= entries@.len(),
                out@ == entries@.take(k as int),
            decreases m - k,
        {
            out.push(entries[k]);
            k = k + 1;
            proof {
                assert(out@ =~= entries@.take(k as int));
            }
        }
        self.entry = out;
    }

    /// The global slots in use and their number (`get_global_table`).
    pub fn get_global_table(&self) -> (r: (Vec<BoyiaValue>, LInt))
        requires
            self.wf(),
        ensures
            r.0@ == self.globals@,
            r.1 == self.globals@.len(),
    {
        let g = slice_to_vec_values(self.globals.as_slice(), self.globals.len());
        proof {
            assert(g@ =~= self.globals@);
        }
        (g, self.globals.len() as LInt)
    }
}

/// The slots of a function copied for passing as an argument: the first `n` slots of
/// `params` taken over (name, type and payload), the rest zero, `NUM_FUNC_PARAMS` in all.
pub open spec fn pushed_arg_slots(params: Seq<BoyiaValue>, n: int) -> Seq<BoyiaValue> {
    Seq::new(
        NUM_FUNC_PARAMS as nat,
        |j: int| if j < n { spec_copy(zero_value(), params[j]) } else { zero_value() },
    )
}

/// How many slots a copy for passing as an argument takes over: the used count, within the
/// source's slots and the copy's `NUM_FUNC_PARAMS`.
pub open spec fn pushed_arg_count(f: &BoyiaFunction) -> int {
    let u = used_slots(f);
    if u < NUM_FUNC_PARAMS { u } else { NUM_FUNC_PARAMS as int }
}

impl BoyiaVM {
    /// A copy of function body `src` for passing an anonymous function as an argument
    /// (`clone_anonym_boyia_function_for_push_arg`): a new body with `NUM_FUNC_PARAMS` slots
    /// (see `pushed_arg_slots`), the same capacity word, body and used count, and no
    /// captures. `None` when `src` names no body.
    pub fn clone_anonym_boyia_function_for_push_arg(&mut self, src: ObjRef) -> (r: Option<usize>)
        requires
            old(self).wf(),
        ensures
            final(self).wf(),
            match old(self).fun_at(src) {
                None => r is None && *final(self) == *old(self),
                Some(f) => {
                    let me = old(self).funs@.len();
                    let nf = final(self).funs@[me as int];
                    &&& r == Some(me as usize)
                    &&& final(self).funs@ == old(self).funs@.push(nf)
                    &&& nf.params@ == pushed_arg_slots(f.params@, pushed_arg_count(f))
                    &&& nf.param_size == f.param_size
                    &&& nf.param_count == f.param_count
                    &&& nf.func_body == f.func_body
                    &&& nf.capture_count == 0
                    &&& *final(self) == (BoyiaVM { funs: final(self).funs, ..*old(self) })
                },
            },
    {
        let i = match src {
            ObjRef::Fun(i) => if i < self.funs.len() {
                i
            } else {
                return None;
            },
            _ => return None,
        };
        let f = &self.funs[i];
        let used: usize = if f.param_size < 0 {
            0
        } else if f.param_size as usize > f.params.len() {
            f.params.len()
        } else {
            f.param_size as usize
        };
        let n: usize = if used < NUM_FUNC_PARAMS { used } else { NUM_FUNC_PARAMS };
        let mut params: Vec<BoyiaValue> = Vec::new();
        let mut k: usize = 0;
        while k < NUM_FUNC_PARAMS
            invariant
                k <= NUM_FUNC_PARAMS,
                n <= NUM_FUNC_PARAMS,
                n <= f.params@.len(),
                params@ == Seq::new(k as nat, |j: int| if j < n { spec_copy(zero_value(), f.params@[j]) } else { zero_value() }),
            decreases NUM_FUNC_PARAMS - k,
        {
            let mut slot = blank_value(ValueType::BY_ARG);
            if k < n {
                value_copy(&mut slot, &f.params[k]);
            }
            params.push(slot);
            k = k + 1;
            proof {
                assert(params@ =~= Seq::new(k as nat, |j: int| if j < n { spec_copy(zero_value(), f.params@[j]) } else { zero_value() }));
            }
        }
        let nf = BoyiaFunction {
            params,
            param_size: f.param_size,
            param_count: f.param_count,
            func_body: f.func_body,
            capture_count: 0,
        };
        let me = self.funs.len();
        self.funs.push(nf);
        Some(me)
    }
}

/// Frame of `BoyiaVM` fields that an operation leaves alone, apart from the function store,
/// the result register and the collector list.
pub open spec fn same_except_objects(a: &BoyiaVM, b: &BoyiaVM) -> bool {
    &&& a.globals == b.globals
    &&& a.fun_table_size == b.fun_table_size
    &&& a.locals == b.locals
    &&& a.frames == b.frames
    &&& a.reg1 == b.reg1
    &&& a.entry == b.entry
    &&& a.code == b.code
    &&& a.str_table == b.str_table
    &&& a.tasks == b.tasks
    &&& a.alloc_tasks == b.alloc_tasks
    &&& a.used_tasks == b.used_tasks
}

/// `new(Class)` (see `BoyiaVM::create_object`): local 0 must be a class value. The result
/// register takes a copy of it whose body is a new object of `NUM_FUNC_PARAMS` slots made
/// from the class (see `copy_function`) and whose super is the class's super; the object is
/// registered with the collector.
pub open spec fn create_object_done(pre: &BoyiaVM, post: &BoyiaVM, r: OpHandleResult) -> bool {
    &&& same_except_objects(post, pre)
    &&& post.bytes == pre.bytes
    &&& match pre.get_local_spec(0) {
        None => r == OpHandleResult::kOpResultEnd && *post == *pre,
        Some(v) => if v.value_type != ValueType::BY_CLASS {
            r == OpHandleResult::kOpResultEnd && *post == *pre
        } else if pre.fun_at(v.obj.ptr) is None {
            &&& r == OpHandleResult::kOpResultEnd
            &&& post.reg0 == spec_copy(pre.reg0, v)
            &&& post.funs == pre.funs
            &&& post.gc_refs == pre.gc_refs
        } else {
            let me = pre.funs@.len() as usize;
            let props = chain_props(pre, v, (pre.globals@.len() + 1) as nat);
            let f = post.funs@[me as int];
            let c = spec_copy(pre.reg0, v);
            &&& r == OpHandleResult::kOpResultSuccess
            &&& post.reg0 == (BoyiaValue { obj: BoyiaClass { ptr: ObjRef::Fun(me), sup: v.obj.sup }, ..c })
            &&& post.funs@.len() == me + 1
            &&& forall|j: int| 0 <= j < me ==> #[trigger] post.funs@[j] == pre.funs@[j]
            &&& f.params@ == object_slots(props, NUM_FUNC_PARAMS as int, me)
            &&& f.param_size == object_used(props, NUM_FUNC_PARAMS as int)
            &&& f.param_count == NUM_FUNC_PARAMS
            &&& f.func_body == pre.fun_at(v.obj.ptr).unwrap().func_body
            &&& post.gc_refs@ == pre.gc_refs@.push(me)
        },
    }
}

impl BoyiaVM {
    /// `new(Class)`: local 0 must be a class value. The result register takes a copy of it
    /// whose body is a new object of `NUM_FUNC_PARAMS` slots made from the class (see
    /// `copy_function`) and whose super is the class's super; the object is registered
    /// with the collector.
    pub fn create_object(&mut self) -> (r: OpHandleResult)
        requires
            old(self).wf(),
        ensures
            final(self).wf(),
            create_object_done(old(self), final(self), r),
    {
        let value = match self.get_local_value(0) {
            None => return OpHandleResult::kOpResultEnd,
            Some(v) => v,
        };
        if value.value_type != ValueType::BY_CLASS {
            return OpHandleResult::kOpResultEnd;
        }
        let ghost vm0 = *self;
        value_copy(&mut self.reg0, &value);
        proof {
            lemma_chain_props_frame(&vm0, self, value, (vm0.globals@.len() + 1) as nat);
        }
        let new_func = match self.copy_function(&value, NUM_FUNC_PARAMS as LInt) {
            None => return OpHandleResult::kOpResultEnd,
            Some(f) => f,
        };
        self.reg0.obj.ptr = ObjRef::Fun(new_func);
        self.reg0.obj.sup = value.obj.sup;
        self.gc_refs.push(new_func);
        OpHandleResult::kOpResultSuccess
    }

    /// A new object of `size` slots made from the global class named `hash_key` (the first
    /// global with that name), registered with the collector. `None` when `size <= 0`, no
    /// global has that name, or `copy_function` fails.
    pub fn copy_object(&mut self, hash_key: usize, size: LInt) -> (r: Option<usize>)
        requires
            old(self).wf(),
        ensures
            final(self).wf(),
            same_except_objects(final(self), old(self)),
            final(self).bytes == old(self).bytes,
            final(self).reg0 == old(self).reg0,
            r is None ==> *final(self) == *old(self),
            r is None <==> (size <= 0 || !Self::fits_pool(size as int) || old(self).first_global(hash_key) < 0 || old(self).fun_at(
                old(self).globals@[old(self).first_global(hash_key)].obj.ptr,
            ) is None),
            r matches Some(me) ==> {
                let cls = old(self).globals@[old(self).first_global(hash_key)];
                let props = chain_props(old(self), cls, (old(self).globals@.len() + 1) as nat);
                let f = final(self).funs@[me as int];
                &&& me == old(self).funs@.len()
                &&& final(self).funs@.len() == me + 1
                &&& forall|j: int| 0 <= j < me ==> #[trigger] final(self).funs@[j] == old(self).funs@[j]
                &&& f.params@ == object_slots(props, size as int, me)
                &&& f.param_size == object_used(props, size as int)
                &&& f.param_count == size
                &&& f.func_body == old(self).fun_at(cls.obj.ptr).unwrap().func_body
                &&& final(self).gc_refs@ == old(self).gc_refs@.push(me)
            },
    {
        if size <= 0 {
            return None;
        }
        let g = match self.find_global(hash_key) {
            None => return None,
            Some(g) => g,
        };
        proof {
            lemma_global_from(self.globals@, hash_key, 0);
        }
        let cls = self.globals[g];
        let body = match self.copy_function(&cls, size) {
            None => return None,
            Some(b) => b,
        };
        self.gc_refs.push(body);
        Some(body)
    }

    /// When an array body's slots are all used, grow them by `BOYIA_VECTOR_GROW_DELTA`:
    /// the used slots keep their values, the new ones are zero, and the capacity word's low
    /// 16 bits take the new count (its high bits stay). Returns whether the body has room
    /// afterwards: `false` when `fun` names no body, a body with slots recorded has none
    /// allocated, or the new slots do not fit in the pool.
    pub fn vector_params_grow_if_full(&mut self, fun: ObjRef) -> (r: bool)
        requires
            old(self).wf(),
        ensures
            final(self).wf(),
            same_except_objects(final(self), old(self)),
            final(self).reg0 == old(self).reg0,
            final(self).bytes == old(self).bytes,
            final(self).gc_refs == old(self).gc_refs,
            final(self).funs@.len() == old(self).funs@.len(),
            match old(self).fun_at(fun) {
                None => !r && final(self).funs == old(self).funs,
                Some(f) => {
                    let cap = spec_function_count(f);
                    if f.param_size < cap {
                        r && final(self).funs == old(self).funs
                    } else if (cap > 0 && f.params@.len() == 0) || !Self::fits_pool(cap + BOYIA_VECTOR_GROW_DELTA) {
                        !r && final(self).funs == old(self).funs
                    } else {
                        let i = match fun { ObjRef::Fun(i) => i as int, _ => 0 };
                        let nf = final(self).funs@[i];
                        let new_cap = cap + BOYIA_VECTOR_GROW_DELTA;
                        let kept = if cap <= f.params@.len() { cap as int } else { f.params@.len() as int };
                        &&& r
                        &&& forall|j: int| 0 <= j < final(self).funs@.len() && j != i ==> #[trigger] final(self).funs@[j] == old(self).funs@[j]
                        &&& nf.params@ == f.params@.subrange(0, kept) + Seq::new((new_cap - kept) as nat, |k: int| zero_value())
                        &&& nf.param_count == ((f.param_count & !0xFFFFi32) | (new_cap as i32 & 0xFFFF))
                        &&& nf.param_size == f.param_size
                        &&& nf.func_body == f.func_body
                        &&& nf.capture_count == f.capture_count
                    }
                },
            },
    {
        let i = match fun {
            ObjRef::Fun(i) => if i < self.funs.len() {
                i
            } else {
                return false;
            },
            _ => return false,
        };
        let pc = self.funs[i].param_count;
        let cap = pc & 0xFFFF;
        if self.funs[i].param_size < cap {
            return true;
        }
        assert(0 <= cap <= 0xFFFF) by (bit_vector)
            requires cap == pc & 0xFFFF;
        if cap > 0 && self.funs[i].params.len() == 0 {
            return false;
        }
        let new_cap = cap + BOYIA_VECTOR_GROW_DELTA;
        if new_cap as usize > K_MEMORY_POOL_SIZE / BOYIA_VALUE_SIZE {
            return false;
        }
        let old_len = self.funs[i].params.len();
        let kept: usize = if (cap as usize) <= old_len {
            cap as usize
        } else {
            old_len
        };
        let mut params = slice_to_vec_values(self.funs[i].params.as_slice(), kept);
        let ghost p0 = params@;
        while params.len() < new_cap as usize
            invariant
                kept <= params@.len() <= new_cap as usize,
                params@.subrange(0, kept as int) == p0,
                p0.len() == kept,
                forall|j: int| kept <= j < params@.len() ==> #[trigger] params@[j] == zero_value(),
            decreases new_cap as usize - params@.len(),
        {
            params.push(blank_value(ValueType::BY_ARG));
            proof {
                assert(params@.subrange(0, kept as int) =~= p0);
            }
        }
        let f = &self.funs[i];
        let newf = BoyiaFunction {
            params,
            param_size: f.param_size,
            param_count: (f.param_count & !0x0000_FFFF) | (new_cap & 0x0000_FFFF),
            func_body: f.func_body,
            capture_count: f.capture_count,
        };
        proof {
            assert(newf.params@ =~= self.funs@[i as int].params@.subrange(0, kept as int) + Seq::new((new_cap - kept) as nat, |k: int| zero_value()));
        }
        self.funs.set(i, newf);
        true
    }
}

/// The first `n` values of `s`.
pub fn slice_to_vec_values(s: &[BoyiaValue], n: usize) -> (r: Vec<BoyiaValue>)
    requires
        n <= s@.len(),
    ensures
        r@ == s@.subrange(0, n as int),
{
    let mut out: Vec<BoyiaValue> = Vec::new();
    let mut k: usize = 0;
    while k < n
        invariant
            k <= n <= s@.len(),
            out@ == s@.subrange(0, k as int),
        decreases n - k,
    {
        out.push(s[k]);
        k = k + 1;
        proof {
            assert(out@ =~= s@.subrange(0, k as int));
        }
    }
    out
}


/// `len` clamped to `[0, n]`.
pub open spec fn clamp_len(len: LInt, n: int) -> int {
    if len < 0 {
        0
    } else if len as int > n {
        n
    } else {
        len as int
    }
}

/// The value slot that holds a string buffer.
pub open spec fn spec_str_slot(buffer: StrRef, len: LInt) -> BoyiaValue {
    BoyiaValue { str_val: BoyiaStr { buf: buffer, len }, ..spec_blank(ValueType::BY_STRING) }
}

/// The value slot that holds a string's hash.
pub open spec fn spec_hash_slot(h: isize) -> BoyiaValue {
    BoyiaValue { int_val: h, ..spec_blank(ValueType::BY_INT) }
}

/// The decimal text of a number, cut to `MAX_INT_STR_LEN` bytes.
pub open spec fn cut_text(t: Seq<u8>) -> Seq<u8> {
    if t.len() > MAX_INT_STR_LEN {
        t.subrange(0, MAX_INT_STR_LEN as int)
    } else {
        t
    }
}

impl BoyiaVM {
    /// The bytes a string payload designates: the first `len` bytes of its buffer (clamped
    /// to the buffer), or none for a null buffer.
    pub open spec fn str_bytes(&self, s: BoyiaStr) -> Seq<u8> {
        match s.buf {
            StrRef::Null => Seq::empty(),
            StrRef::Buf(i) => if i < self.bytes@.len() {
                self.bytes@[i as int]@.subrange(0, clamp_len(s.len, self.bytes@[i as int]@.len() as int))
            } else {
                Seq::empty()
            },
        }
    }

    /// The bytes a string payload designates.
    pub fn read_str(&self, s: BoyiaStr) -> (r: Vec<u8>)
        ensures
            r@ == self.str_bytes(s),
    {
        match s.buf {
            StrRef::Null => Vec::new(),
            StrRef::Buf(i) => if i < self.bytes.len() {
                let b = &self.bytes[i];
                let n: usize = if s.len < 0 {
                    0
                } else if s.len as usize > b.len() {
                    b.len()
                } else {
                    s.len as usize
                };
                slice_to_vec(b.as_slice(), 0, n)
            } else {
                Vec::new()
            },
        }
    }

    /// Store a new byte buffer.
    pub fn alloc_bytes(&mut self, b: Vec<u8>) -> (r: StrRef)
        requires
            old(self).wf(),
        ensures
            final(self).wf(),
            r == StrRef::Buf(old(self).bytes@.len() as usize),
            match r {
                StrRef::Buf(i) => i == old(self).bytes@.len(),
                StrRef::Null => false,
            },
            final(self).bytes@ == old(self).bytes@.push(b),
            same_except_objects(final(self), old(self)),
            final(self).funs == old(self).funs,
            final(self).reg0 == old(self).reg0,
            final(self).gc_refs == old(self).gc_refs,
    {
        let i = self.bytes.len();
        self.bytes.push(b);
        StrRef::Buf(i)
    }

    /// Replace slot `slot` of body `fi`.
    pub fn set_param(&mut self, fi: usize, slot: usize, v: BoyiaValue)
        requires
            old(self).wf(),
            fi < old(self).funs@.len(),
            slot < old(self).funs@[fi as int].params@.len(),
        ensures
            final(self).wf(),
            final(self).funs@.len() == old(self).funs@.len(),
            forall|j: int| 0 <= j < final(self).funs@.len() && j != fi ==> #[trigger] final(self).funs@[j] == old(self).funs@[j],
            final(self).funs@[fi as int].params@ == old(self).funs@[fi as int].params@.update(slot as int, v),
            final(self).funs@[fi as int].param_size == old(self).funs@[fi as int].param_size,
            final(self).funs@[fi as int].param_count == old(self).funs@[fi as int].param_count,
            final(self).funs@[fi as int].func_body == old(self).funs@[fi as int].func_body,
            final(self).funs@[fi as int].capture_count == old(self).funs@[fi as int].capture_count,
            same_except_objects(final(self), old(self)),
            final(self).bytes == old(self).bytes,
            final(self).reg0 == old(self).reg0,
            final(self).gc_refs == old(self).gc_refs,
    {
        let f = &self.funs[fi];
        let mut params = slice_to_vec_values(f.params.as_slice(), f.params.len());
        proof {
            assert(params@ =~= f.params@);
        }
        params.set(slot, v);
        let nf = BoyiaFunction {
            params,
            param_size: f.param_size,
            param_count: f.param_count,
            func_body: f.func_body,
            capture_count: f.capture_count,
        };
        self.funs.set(fi, nf);
    }

    /// Append `v` to body `fi`: store it in the first unused slot and count that slot as used.
    pub fn push_param(&mut self, fi: usize, v: &BoyiaValue)
        requires
            old(self).wf(),
            fi < old(self).funs@.len(),
            0 <= old(self).funs@[fi as int].param_size < i32::MAX,
            (old(self).funs@[fi as int].param_size as int) < old(self).funs@[fi as int].params@.len(),
        ensures
            final(self).wf(),
            final(self).funs@.len() == old(self).funs@.len(),
            forall|j: int| 0 <= j < final(self).funs@.len() && j != fi ==> #[trigger] final(self).funs@[j] == old(self).funs@[j],
            ({
                let f = old(self).funs@[fi as int];
                let nf = final(self).funs@[fi as int];
                &&& nf.params@ == f.params@.update(f.param_size as int, *v)
                &&& nf.param_size == f.param_size + 1
                &&& nf.param_count == f.param_count
                &&& nf.func_body == f.func_body
                &&& nf.capture_count == f.capture_count
            }),
            same_except_objects(final(self), old(self)),
            final(self).bytes == old(self).bytes,
            final(self).reg0 == old(self).reg0,
            final(self).gc_refs == old(self).gc_refs,
    {
        let f = &self.funs[fi];
        let ps = f.param_size;
        let mut params = slice_to_vec_values(f.params.as_slice(), f.params.len());
        proof {
            assert(params@ =~= f.params@);
        }
        params.set(ps as usize, *v);
        let nf = BoyiaFunction {
            params,
            param_size: ps + 1,
            param_count: f.param_count,
            func_body: f.func_body,
            capture_count: f.capture_count,
        };
        self.funs.set(fi, nf);
    }

    /// The string payload in slot 1 of an object body, when the body has that slot.
    pub open spec fn spec_buffer_from_body(&self, body: ObjRef) -> Option<BoyiaStr> {
        match self.fun_at(body) {
            Some(f) => if f.params@.len() > 1 {
                Some(f.params@[1].str_val)
            } else {
                None
            },
            None => None,
        }
    }

    /// The string payload in slot 1 of an object body.
    pub fn get_string_buffer_from_body(&self, body: ObjRef) -> (r: Option<BoyiaStr>)
        ensures
            r == self.spec_buffer_from_body(body),
    {
        match body {
            ObjRef::Fun(i) => if i < self.funs.len() && self.funs[i].params.len() > 1 {
                Some(self.funs[i].params[1].str_val)
            } else {
                None
            },
            _ => None,
        }
    }

    /// The string payload of a value: its own for a `BY_STRING` value, the object's buffer
    /// for a String object, else none.
    pub open spec fn spec_string_buffer(&self, v: BoyiaValue) -> Option<BoyiaStr> {
        if v.value_type == ValueType::BY_STRING {
            Some(v.str_val)
        } else if v.value_type == ValueType::BY_CLASS && self.spec_class_id(v) == K_BOYIA_STRING {
            self.spec_buffer_from_body(v.obj.ptr)
        } else {
            None
        }
    }

    /// The string payload of a value.
    pub fn get_string_buffer(&self, v: &BoyiaValue) -> (r: Option<BoyiaStr>)
        ensures
            r == self.spec_string_buffer(*v),
    {
        if v.value_type == ValueType::BY_STRING {
            Some(v.str_val)
        } else if v.value_type == ValueType::BY_CLASS && self.get_boyia_class_id(v) == K_BOYIA_STRING {
            self.get_string_buffer_from_body(v.obj.ptr)
        } else {
            None
        }
    }

    /// The hash stored in slot 0 of a value's object body, or 0.
    pub open spec fn spec_string_hash(&self, v: BoyiaValue) -> isize {
        match self.fun_at(v.obj.ptr) {
            Some(f) => if f.params@.len() > 0 {
                f.params@[0].int_val
            } else {
                0
            },
            None => 0,
        }
    }

    /// The hash stored in slot 0 of a value's object body.
    pub fn get_string_hash(&self, v: &BoyiaValue) -> (h: isize)
        ensures
            h == self.spec_string_hash(*v),
    {
        match v.obj.ptr {
            ObjRef::Fun(i) => if i < self.funs.len() && self.funs[i].params.len() > 0 {
                self.funs[i].params[0].int_val
            } else {
                0
            },
            _ => 0,
        }
    }

    /// A new String object (`copy_object` of the String class with
    /// `BUILTIN_OBJECT_SLOTS` slots) whose slot 1 holds the string payload and slot 0 the
    /// hash of its bytes.
    pub fn create_string_object(&mut self, buffer: StrRef, len: LInt) -> (r: Option<usize>)
        requires
            old(self).wf(),
        ensures
            final(self).wf(),
            same_except_objects(final(self), old(self)),
            final(self).bytes == old(self).bytes,
            final(self).reg0 == old(self).reg0,
            r is None ==> *final(self) == *old(self),
            r is None <==> old(self).first_global(K_BOYIA_STRING) < 0 || old(self).fun_at(
                old(self).globals@[old(self).first_global(K_BOYIA_STRING)].obj.ptr,
            ) is None,
            r matches Some(me) ==> {
                let cls = old(self).globals@[old(self).first_global(K_BOYIA_STRING)];
                let props = chain_props(old(self), cls, (old(self).globals@.len() + 1) as nat);
                let f = final(self).funs@[me as int];
                let h = spec_hash_code(old(self).str_bytes(BoyiaStr { buf: buffer, len }));
                &&& me == old(self).funs@.len()
                &&& final(self).funs@.len() == me + 1
                &&& forall|j: int| 0 <= j < me ==> #[trigger] final(self).funs@[j] == old(self).funs@[j]
                &&& f.params@ == object_slots(props, BUILTIN_OBJECT_SLOTS as int, me).update(1, spec_str_slot(buffer, len)).update(0, spec_hash_slot(h))
                &&& f.param_size == object_used(props, BUILTIN_OBJECT_SLOTS as int)
                &&& f.param_count == BUILTIN_OBJECT_SLOTS
                &&& f.func_body == old(self).fun_at(cls.obj.ptr).unwrap().func_body
                &&& final(self).gc_refs@ == old(self).gc_refs@.push(me)
            },
    {
        let ghost vm0 = *self;
        let obj = match self.copy_object(K_BOYIA_STRING, BUILTIN_OBJECT_SLOTS) {
            None => return None,
            Some(o) => o,
        };
        let bytes = self.read_str(BoyiaStr { buf: buffer, len });
        let h = gen_hash_code(bytes.as_slice());
        let mut sv = blank_value(ValueType::BY_STRING);
        sv.str_val = BoyiaStr { buf: buffer, len };
        self.set_param(obj, 1, sv);
        let hv = int_value(h);
        self.set_param(obj, 0, hv);
        Some(obj)
    }

    /// Make `value` a String object over the given buffer (see `create_string_object`),
    /// marked as a constant string (`kConstStringBuffer` in the flags of the capacity word).
    /// Returns `false`, leaving everything unchanged, when the object cannot be made.
    pub fn create_const_string(&mut self, value: &mut BoyiaValue, buffer: StrRef, len: LInt) -> (r: bool)
        requires
            old(self).wf(),
        ensures
            final(self).wf(),
            same_except_objects(final(self), old(self)),
            final(self).bytes == old(self).bytes,
            final(self).reg0 == old(self).reg0,
            r == old(self).can_make_strings(),
            !r ==> *final(self) == *old(self) && *final(value) == *old(value),
            r ==> {
                let me = old(self).funs@.len() as usize;
                &&& final(self).funs@.len() == me + 1
                &&& *final(value) == (BoyiaValue {
                    value_type: ValueType::BY_CLASS,
                    obj: BoyiaClass { ptr: ObjRef::Fun(me), sup: ObjRef::Null },
                    ..*old(value)
                })
                &&& final(self).funs@[me as int].param_count == (BUILTIN_OBJECT_SLOTS | (K_CONST_STRING_BUFFER << K_STRING_BUFFER_SHIFT))
                &&& final(self).funs@[me as int].params@.len() == BUILTIN_OBJECT_SLOTS
                &&& final(self).funs@[me as int].params@[1] == spec_str_slot(buffer, len)
                &&& final(self).funs@[me as int].params@[0] == spec_hash_slot(spec_hash_code(old(self).str_bytes(BoyiaStr { buf: buffer, len })))
                &&& final(self).funs@[me as int].func_body == old(self).fun_at(old(self).globals@[old(self).first_global(K_BOYIA_STRING)].obj.ptr).unwrap().func_body
                &&& forall|j: int| 0 <= j < me ==> #[trigger] final(self).funs@[j] == old(self).funs@[j]
                &&& final(self).gc_refs@ == old(self).gc_refs@.push(me)
            },
    {
        let obj = match self.create_string_object(buffer, len) {
            None => return false,
            Some(o) => o,
        };
        value.value_type = ValueType::BY_CLASS;
        value.obj.ptr = ObjRef::Fun(obj);
        value.obj.sup = ObjRef::Null;
        self.mark_string_buffer(obj, K_CONST_STRING_BUFFER);
        true
    }

    /// Make `value` a String object over the given buffer, marked as a native string
    /// (`kNativeStringBuffer`). Nothing changes when the object cannot be made.
    pub fn create_native_string(&mut self, value: &mut BoyiaValue, buffer: StrRef, len: LInt)
        requires
            old(self).wf(),
        ensures
            final(self).wf(),
            same_except_objects(final(self), old(self)),
            final(self).bytes == old(self).bytes,
            final(self).reg0 == old(self).reg0,
            final(self).funs@.len() == old(self).funs@.len() ==> *final(self) == *old(self) && *final(value) == *old(value),
            final(self).funs@.len() != old(self).funs@.len() ==> {
                let me = old(self).funs@.len() as usize;
                &&& final(self).funs@.len() == me + 1
                &&& *final(value) == (BoyiaValue {
                    value_type: ValueType::BY_CLASS,
                    obj: BoyiaClass { ptr: ObjRef::Fun(me), sup: ObjRef::Null },
                    ..*old(value)
                })
                &&& final(self).funs@[me as int].param_count == (BUILTIN_OBJECT_SLOTS | (K_NATIVE_STRING_BUFFER << K_STRING_BUFFER_SHIFT))
                &&& final(self).funs@[me as int].params@.len() == BUILTIN_OBJECT_SLOTS
                &&& final(self).funs@[me as int].params@[1] == spec_str_slot(buffer, len)
                &&& final(self).funs@[me as int].params@[0] == spec_hash_slot(spec_hash_code(old(self).str_bytes(BoyiaStr { buf: buffer, len })))
                &&& final(self).funs@[me as int].func_body == old(self).fun_at(old(self).globals@[old(self).first_global(K_BOYIA_STRING)].obj.ptr).unwrap().func_body
                &&& forall|j: int| 0 <= j < me ==> #[trigger] final(self).funs@[j] == old(self).funs@[j]
                &&& final(self).gc_refs@ == old(self).gc_refs@.push(me)
            },
            final(self).funs@.len() != old(self).funs@.len() <==> old(self).can_make_strings(),
    {
        let obj = match self.create_string_object(buffer, len) {
            None => return,
            Some(o) => o,
        };
        value.value_type = ValueType::BY_CLASS;
        value.obj.ptr = ObjRef::Fun(obj);
        value.obj.sup = ObjRef::Null;
        self.mark_string_buffer(obj, K_NATIVE_STRING_BUFFER);
    }

    /// Or the buffer kind into the flags of a new string object's capacity word.
    fn mark_string_buffer(&mut self, fi: usize, kind: LInt)
        requires
            old(self).wf(),
            fi < old(self).funs@.len(),
            old(self).funs@[fi as int].param_count == BUILTIN_OBJECT_SLOTS,
            kind == K_CONST_STRING_BUFFER || kind == K_NATIVE_STRING_BUFFER,
        ensures
            final(self).wf(),
            final(self).funs@.len() == old(self).funs@.len(),
            forall|j: int| 0 <= j < final(self).funs@.len() && j != fi ==> #[trigger] final(self).funs@[j] == old(self).funs@[j],
            final(self).funs@[fi as int].param_count == (BUILTIN_OBJECT_SLOTS | (kind << K_STRING_BUFFER_SHIFT)),
            final(self).funs@[fi as int].params@ == old(self).funs@[fi as int].params@,
            final(self).funs@[fi as int].param_size == old(self).funs@[fi as int].param_size,
            final(self).funs@[fi as int].func_body == old(self).funs@[fi as int].func_body,
            same_except_objects(final(self), old(self)),
            final(self).bytes == old(self).bytes,
            final(self).reg0 == old(self).reg0,
            final(self).gc_refs == old(self).gc_refs,
    {
        let f = &self.funs[fi];
        let params = slice_to_vec_values(f.params.as_slice(), f.params.len());
        proof {
            assert(params@ =~= f.params@);
        }
        let nf = BoyiaFunction {
            params,
            param_size: f.param_size,
            param_count: f.param_count | (kind << K_STRING_BUFFER_SHIFT),
            func_body: f.func_body,
            capture_count: f.capture_count,
        };
        self.funs.set(fi, nf);
    }

    /// The text of a value for string concatenation: the decimal text of an integer, the
    /// caller's text for a real, the bytes of a string value, else none; numbers' texts are
    /// cut to `MAX_INT_STR_LEN` bytes.
    pub open spec fn spec_fetch(&self, v: BoyiaValue, real_text: Seq<u8>) -> Seq<u8> {
        if v.value_type == ValueType::BY_INT {
            cut_text(decimal_text(v.int_val as int))
        } else if v.value_type == ValueType::BY_REAL {
            cut_text(real_text)
        } else {
            match self.spec_string_buffer(v) {
                Some(s) => self.str_bytes(s),
                None => Seq::empty(),
            }
        }
    }

    /// The text of a value for string concatenation. `real_text` is the
    /// decimal text of a `BY_REAL` value as `{}` formats an `f64`, which the caller computes
    /// (floating point stays outside the library).
    pub fn fetch_string(&self, v: &BoyiaValue, real_text: &[u8]) -> (r: Vec<u8>)
        ensures
            r@ == self.spec_fetch(*v, real_text@),
    {
        if v.value_type == ValueType::BY_INT {
            let t = decimal_bytes(v.int_val as i64);
            if t.len() > MAX_INT_STR_LEN {
                slice_to_vec(t.as_slice(), 0, MAX_INT_STR_LEN)
            } else {
                t
            }
        } else if v.value_type == ValueType::BY_REAL {
            if real_text.len() > MAX_INT_STR_LEN {
                slice_to_vec(real_text, 0, MAX_INT_STR_LEN)
            } else {
                slice_to_vec(real_text, 0, real_text.len())
            }
        } else {
            match self.get_string_buffer(v) {
                Some(s) => self.read_str(s),
                None => Vec::new(),
            }
        }
    }
}

/// String buffer kinds, marked in a string object's capacity word at bit `K_STRING_BUFFER_SHIFT`.
pub const K_BOYIA_STRING_BUFFER: LInt = 0;
pub const K_NATIVE_STRING_BUFFER: LInt = 1;
pub const K_CONST_STRING_BUFFER: LInt = 2;
pub const K_STRING_BUFFER_SHIFT: LInt = 18;


impl BoyiaVM {
    /// `left + right` on texts: the concatenation of both values' texts (see `spec_fetch`)
    /// becomes a new buffer and a String object over it, and `right` is made that object
    /// (type `BY_CLASS`, name the String key, no super). Nothing changes when both texts
    /// are empty, the text does not fit in the pool, or the object cannot be made.
    pub fn string_add(&mut self, left: &BoyiaValue, right: &mut BoyiaValue, left_real: &[u8], right_real: &[u8])
        requires
            old(self).wf(),
        ensures
            final(self).wf(),
            same_except_objects(final(self), old(self)),
            final(self).reg0 == old(self).reg0,
            ({
                let text = old(self).spec_fetch(*left, left_real@) + old(self).spec_fetch(*old(right), right_real@);
                &&& (final(self).funs@.len() != old(self).funs@.len()) == (0 < text.len() <= K_MEMORY_POOL_SIZE
                    && old(self).can_make_strings())
                &&& if final(self).funs@.len() == old(self).funs@.len() {
                    &&& *final(right) == *old(right)
                    &&& *final(self) == *old(self)
                } else {
                    let me = old(self).funs@.len() as usize;
                    let b = old(self).bytes@.len() as usize;
                    &&& 0 < text.len() <= K_MEMORY_POOL_SIZE
                    &&& final(self).bytes@.len() == old(self).bytes@.len() + 1
                    &&& final(self).bytes@.drop_last() == old(self).bytes@
                    &&& final(self).bytes@.last()@ == text
                    &&& final(self).funs@.len() == me + 1
                    &&& final(self).spec_buffer_from_body(ObjRef::Fun(me)) == Some(BoyiaStr { buf: StrRef::Buf(b), len: text.len() as LInt })
                    &&& forall|j: int| 0 <= j < me ==> #[trigger] final(self).funs@[j] == old(self).funs@[j]
                    &&& final(self).funs@[me as int].func_body == old(self).fun_at(
                        old(self).globals@[old(self).first_global(K_BOYIA_STRING)].obj.ptr,
                    ).unwrap().func_body
                    &&& final(self).str_bytes(BoyiaStr { buf: StrRef::Buf(b), len: text.len() as LInt }) == text
                    &&& (old(self).has_string_class() ==> {
                        &&& final(self).spec_string_buffer(*final(right)) == Some(BoyiaStr { buf: StrRef::Buf(b), len: text.len() as LInt })
                        &&& final(self).spec_text_of(Some(*final(right))) == Some(text)
                    })
                    &&& *final(right) == (BoyiaValue {
                        value_type: ValueType::BY_CLASS,
                        name_key: K_BOYIA_STRING,
                        obj: BoyiaClass { ptr: ObjRef::Fun(me), sup: ObjRef::Null },
                        ..*old(right)
                    })
                }
            }),
    {
        let l = self.fetch_string(left, left_real);
        let r = self.fetch_string(right, right_real);
        let total = l.len() + r.len();
        if total == 0 || total > K_MEMORY_POOL_SIZE {
            return;
        }
        let g = match self.find_global(K_BOYIA_STRING) {
            None => return,
            Some(g) => g,
        };
        proof {
            lemma_global_from(self.globals@, K_BOYIA_STRING, 0);
        }
        match self.globals[g].obj.ptr {
            ObjRef::Fun(i) => if i >= self.funs.len() {
                return;
            },
            _ => return,
        }
        let mut concat = l;
        crate::text::extend_bytes(&mut concat, r.as_slice());
        let buf = self.alloc_bytes(concat);
        let obj = match self.create_string_object(buf, total as LInt) {
            None => return,
            Some(o) => o,
        };
        right.value_type = ValueType::BY_CLASS;
        right.name_key = K_BOYIA_STRING;
        right.obj.ptr = ObjRef::Fun(obj);
        right.obj.sup = ObjRef::Null;
    }

    /// Whether two values are equal: two numbers that are equal as
    /// reals (`numbers_equal`, which the caller computes: floating point stays outside
    /// the library); else values of one type: integers, characters and native class
    /// handles by their integer, reals by `numbers_equal`, functions by their body, objects
    /// by identity or, for two String objects, by length, stored hash and bytes.
    pub fn compare_value(&self, src: &BoyiaValue, dest: &BoyiaValue, numbers_equal: bool) -> (r: bool)
        ensures
            r == self.spec_compare(*src, *dest, numbers_equal),
    {
        let st = src.value_type;
        let dt = dest.value_type;
        let src_num = st == ValueType::BY_INT || st == ValueType::BY_CHAR || st == ValueType::BY_REAL;
        let dest_num = dt == ValueType::BY_INT || dt == ValueType::BY_CHAR || dt == ValueType::BY_REAL;
        if src_num && dest_num && numbers_equal {
            return true;
        }
        if st != dt {
            return false;
        }
        if st == ValueType::BY_CHAR || st == ValueType::BY_INT || st == ValueType::BY_NAVCLASS {
            src.int_val == dest.int_val
        } else if st == ValueType::BY_REAL {
            numbers_equal
        } else if st == ValueType::BY_FUNC {
            src.obj.ptr == dest.obj.ptr
        } else if st == ValueType::BY_CLASS {
            if src.obj.ptr == dest.obj.ptr {
                return true;
            }
            if self.get_boyia_class_id(src) != K_BOYIA_STRING || self.get_boyia_class_id(dest) != K_BOYIA_STRING {
                return false;
            }
            let a = self.get_string_buffer(src);
            let b = self.get_string_buffer(dest);
            match (a, b) {
                (Some(a), Some(b)) => {
                    if a.len != b.len {
                        return false;
                    }
                    if self.get_string_hash(src) != self.get_string_hash(dest) {
                        return false;
                    }
                    let ab = self.read_str(a);
                    let bb = self.read_str(b);
                    bytes_eq(ab.as_slice(), bb.as_slice())
                },
                (None, None) => true,
                _ => false,
            }
        } else {
            false
        }
    }

    /// Value equality (see `compare_value`).
    pub open spec fn spec_compare(&self, src: BoyiaValue, dest: BoyiaValue, numbers_equal: bool) -> bool {
        let st = src.value_type;
        let dt = dest.value_type;
        if spec_is_number(st) && spec_is_number(dt) && numbers_equal {
            true
        } else if st != dt {
            false
        } else if st == ValueType::BY_CHAR || st == ValueType::BY_INT || st == ValueType::BY_NAVCLASS {
            src.int_val == dest.int_val
        } else if st == ValueType::BY_REAL {
            numbers_equal
        } else if st == ValueType::BY_FUNC {
            src.obj.ptr == dest.obj.ptr
        } else if st == ValueType::BY_CLASS {
            if src.obj.ptr == dest.obj.ptr {
                true
            } else if self.spec_class_id(src) != K_BOYIA_STRING || self.spec_class_id(dest) != K_BOYIA_STRING {
                false
            } else {
                match (self.spec_string_buffer(src), self.spec_string_buffer(dest)) {
                    (Some(a), Some(b)) => a.len == b.len && self.spec_string_hash(src)
                        == self.spec_string_hash(dest) && self.str_bytes(a) == self.str_bytes(b),
                    (None, None) => true,
                    _ => false,
                }
            }
        } else {
            false
        }
    }
}

/// Value equality is reflexive for every value that is not a real (a real equals itself
/// exactly when the caller's real comparison says so).
pub proof fn lemma_compare_reflexive(vm: &BoyiaVM, v: BoyiaValue, numbers_equal: bool)
    requires
        v.value_type != ValueType::BY_REAL,
        v.value_type == ValueType::BY_INT || v.value_type == ValueType::BY_CHAR
            || v.value_type == ValueType::BY_NAVCLASS || v.value_type == ValueType::BY_FUNC
            || v.value_type == ValueType::BY_CLASS,
    ensures
        vm.spec_compare(v, v, numbers_equal),
{
}

/// Objects that are not both Strings compare by identity: two class values whose object
/// pointers differ are unequal as soon as one of them is not of the String class, whatever
/// their classes and whatever the caller's real comparison says.
pub proof fn lemma_objects_compare_by_identity(vm: &BoyiaVM, a: BoyiaValue, b: BoyiaValue, numbers_equal: bool)
    requires
        a.value_type == ValueType::BY_CLASS,
        b.value_type == ValueType::BY_CLASS,
        a.obj.ptr != b.obj.ptr,
        vm.spec_class_id(a) != K_BOYIA_STRING || vm.spec_class_id(b) != K_BOYIA_STRING,
    ensures
        !vm.spec_compare(a, b, numbers_equal),
{
}

/// Functions compare by their body: two function values are equal exactly when they
/// point at the same body.
pub proof fn lemma_functions_compare_by_body(vm: &BoyiaVM, a: BoyiaValue, b: BoyiaValue, numbers_equal: bool)
    requires
        a.value_type == ValueType::BY_FUNC,
        b.value_type == ValueType::BY_FUNC,
    ensures
        vm.spec_compare(a, b, numbers_equal) == (a.obj.ptr == b.obj.ptr),
{
}

/// The text that string concatenation takes for an integer reads back as that integer:
/// a `-` exactly when it is negative, then only digits.
pub proof fn lemma_fetch_integer_reads_back(vm: &BoyiaVM, v: BoyiaValue, real_text: Seq<u8>)
    requires
        v.value_type == ValueType::BY_INT,
    ensures
        read_decimal(vm.spec_fetch(v, real_text)) == v.int_val,
        vm.spec_fetch(v, real_text).len() >= 1,
        (vm.spec_fetch(v, real_text)[0] == 45) == (v.int_val < 0),
        forall|i: int| (if v.int_val < 0 { 1int } else { 0int }) <= i < vm.spec_fetch(v, real_text).len()
            ==> is_digit(#[trigger] vm.spec_fetch(v, real_text)[i]),
{
    let n = v.int_val as int;
    assert(-0x8000_0000_0000_0000 <= n < 0x8000_0000_0000_0000);
    lemma_decimal_text_reads_back(n);
}

/// Value equality is symmetric.
pub proof fn lemma_compare_symmetric(vm: &BoyiaVM, a: BoyiaValue, b: BoyiaValue, numbers_equal: bool)
    ensures
        vm.spec_compare(a, b, numbers_equal) == vm.spec_compare(b, a, numbers_equal),
{
}

} // verus!

//! The runtime: owns the VM, the identifier table, the compile pipeline, the native and
//! compile-time function tables, and the persistent value list.

use vstd::prelude::*;
use crate::compile_info::{
    Script,
    spec_advance, spec_enqueue, spec_enqueue_all, spec_required_paths, BoyiaCompileInfo, FrameView,
    OpOffset, SourcePosition,
};
use crate::front::{resolve_require_path, spec_resolve};
use crate::ids::IdCreator;
use crate::value::{BoyiaValue, LInt, ObjRef, ValueType};
use crate::vm::{global_from, BoyiaVM, NativeId, OpHandleResult, K_BOYIA_ARRAY, K_BOYIA_STRING};
use crate::string_class::{builtin_done, builtin_string_class};

verus! {

/// Capacity of the native function table.
pub const K_NATIVE_FUNCTION_CAPACITY: usize = 100;

/// Capacity of the compile-time function table.
pub const K_COMPILE_FUNCTION_CAPACITY: usize = 32;

/// A native function table row: the function's name key and what it runs.
#[derive(Clone, Copy, PartialEq, Eq, Structural, Debug)]
pub struct NativeFunction {
    pub name_key: usize,
    pub addr: NativeId,
}

/// Compile-time functions: `require` with a literal path, and the table's end marker.
#[derive(Clone, Copy, PartialEq, Eq, Structural, Debug)]
pub enum CompileFunctionId {
    RequireFileCompile,
    Sentinel,
}

/// A compile-time function table row.
#[derive(Clone, Copy, PartialEq, Eq, Structural, Debug)]
pub struct CompileNativeFunction {
    pub name_key: usize,
    pub addr: CompileFunctionId,
}

/// A place that the collector must treat as live: a persistent value, or a capture slot of
/// an anonymous function held by a persistent value.
#[derive(Clone, Copy, PartialEq, Eq, Structural, Debug)]
pub enum PersistentRef {
    Value(usize),
    Capture(usize, usize),
}

/// What calling a native function by index came to: a result code, or a native whose work
/// lies outside the library (printing, loading a file), for the caller to run.
#[derive(Clone, Copy, PartialEq, Eq, Structural, Debug)]
pub enum NativeCall {
    Done(OpHandleResult),
    Outside(NativeId),
}

/// Runtime state.
pub struct BoyiaRuntime {
    vm: BoyiaVM,
    native_fun_table: Vec<NativeFunction>,
    compile_fun_table: Vec<CompileNativeFunction>,
    id_creator: IdCreator,
    compile_info: BoyiaCompileInfo,
    is_load_exe_file: bool,
    persistent_objects: Vec<(usize, BoyiaValue)>,
    next_persistent: usize,
    vm_ready: bool,
}

/// `find_native_func` from row `i`: the first row whose key is `key`, stopping at the
/// table's end marker (a row with key 0 or the sentinel function); -1 when none.
pub open spec fn spec_find_native(t: Seq<NativeFunction>, key: usize, i: int) -> int
    decreases t.len() - i,
{
    if i < 0 || i >= t.len() {
        -1
    } else if t[i].name_key == 0 || t[i].addr == NativeId::Sentinel {
        -1
    } else if t[i].name_key == key {
        i
    } else {
        spec_find_native(t, key, i + 1)
    }
}

/// `find_compile_func` from row `i` (see `spec_find_native`).
pub open spec fn spec_find_compile(t: Seq<CompileNativeFunction>, key: usize, i: int) -> int
    decreases t.len() - i,
{
    if i < 0 || i >= t.len() {
        -1
    } else if t[i].name_key == 0 || t[i].addr == CompileFunctionId::Sentinel {
        -1
    } else if t[i].name_key == key {
        i
    } else {
        spec_find_compile(t, key, i + 1)
    }
}

/// `b` keeps `a`'s function tables, persistent values and flags.
pub open spec fn same_tables(a: &BoyiaRuntime, b: &BoyiaRuntime) -> bool {
    &&& a.natives() == b.natives()
    &&& a.compile_natives() == b.compile_natives()
    &&& a.persistent() == b.persistent()
    &&& a.next_handle() == b.next_handle()
    &&& a.loaded_exe() == b.loaded_exe()
    &&& a.has_vm() == b.has_vm()
}

/// Every handle in `p` is below `n`.
pub open spec fn handles_below(p: Seq<(usize, BoyiaValue)>, n: usize) -> bool {
    forall|i: int| 0 <= i < p.len() ==> #[trigger] p[i].0 < n
}

impl BoyiaRuntime {
    /// The VM.
    pub closed spec fn vm_state(&self) -> &BoyiaVM {
        &self.vm
    }

    /// The identifier table.
    pub closed spec fn ids(&self) -> &IdCreator {
        &self.id_creator
    }

    /// The compile pipeline.
    pub closed spec fn info(&self) -> &BoyiaCompileInfo {
        &self.compile_info
    }

    /// The native function table.
    pub closed spec fn natives(&self) -> Seq<NativeFunction> {
        self.native_fun_table@
    }

    /// The compile-time function table.
    pub closed spec fn compile_natives(&self) -> Seq<CompileNativeFunction> {
        self.compile_fun_table@
    }

    /// The persistent values with their handles, oldest first.
    pub closed spec fn persistent(&self) -> Seq<(usize, BoyiaValue)> {
        self.persistent_objects@
    }

    /// The handle that the next persistent value gets.
    pub closed spec fn next_handle(&self) -> usize {
        self.next_persistent
    }

    /// Whether the VM's code came from a bundle.
    pub closed spec fn loaded_exe(&self) -> bool {
        self.is_load_exe_file
    }

    /// Whether the runtime was initialized and has its VM: compiling, cache patching and
    /// task consumption do nothing before that.
    pub closed spec fn has_vm(&self) -> bool {
        self.vm_ready
    }

    /// The runtime's invariant.
    pub open spec fn wf(&self) -> bool {
        &&& self.vm_state().wf()
        &&& self.ids().wf()
        &&& self.info().wf()
        &&& self.info().session_ok(self.vm_state().entry@)
        &&& self.natives().len() <= K_NATIVE_FUNCTION_CAPACITY + 1
        &&& self.compile_natives().len() <= K_COMPILE_FUNCTION_CAPACITY + 1
        &&& handles_below(self.persistent(), self.next_handle())
        &&& !self.loaded_exe()
    }
}


impl BoyiaRuntime {
    /// A runtime with a fresh VM and empty tables.
    fn new() -> (r: Self)
        ensures
            r.wf(),
            r.vm_state().entry@.len() == 0,
            r.vm_state().globals@.len() == 0,
            r.vm_state().fun_table_size == 0,
            r.ids()@ == Seq::<Seq<char>>::empty(),
            r.natives() == Seq::<NativeFunction>::empty(),
            r.compile_natives() == Seq::<CompileNativeFunction>::empty(),
            r.info().script_paths() == Seq::<Seq<char>>::empty(),
            r.info().frames() == Seq::<FrameView>::empty(),
            r.info().pending() == Seq::<Seq<char>>::empty(),
            r.info().current() is None,
            r.info().entry_path() == Seq::<char>::empty(),
            r.persistent() == Seq::<(usize, BoyiaValue)>::empty(),
            r.next_handle() == 1,
            !r.loaded_exe(),
            !r.has_vm(),
            r.vm_state().funs@.len() == 0,
            r.vm_state().bytes@.len() == 0,
            r.vm_state().locals@.len() == 0,
            r.vm_state().frames@.len() == 0,
            r.vm_state().code@.len() == 0,
            r.vm_state().str_table@.len() == 0,
            r.vm_state().tasks@.len() == 0,
            r.vm_state().alloc_tasks@.len() == 0,
            r.vm_state().used_tasks@.len() == 0,
            r.vm_state().gc_refs@.len() == 0,
            r.vm_state().reg0 == crate::vm::zero_value(),
            r.vm_state().reg1 == crate::vm::zero_value(),
            r.info().scripts().len() == 0,
    {
        BoyiaRuntime {
            vm: BoyiaVM::new(),
            native_fun_table: Vec::new(),
            compile_fun_table: Vec::new(),
            id_creator: IdCreator::new(),
            compile_info: BoyiaCompileInfo::new(),
            is_load_exe_file: false,
            persistent_objects: Vec::new(),
            next_persistent: 1,
            vm_ready: false,
        }
    }

    /// Add a native function row named `name`, unless the table is full.
    fn append_native(&mut self, name: &str, addr: NativeId) -> (id: usize)
        requires
            old(self).wf(),
            old(self).ids()@.len() < usize::MAX,
        ensures
            final(self).wf(),
            final(self).ids()@ == (if old(self).ids()@.contains(name@) { old(self).ids()@ } else { old(self).ids()@.push(name@) }),
            final(self).natives() == (if old(self).natives().len() < K_NATIVE_FUNCTION_CAPACITY {
                old(self).natives().push(NativeFunction { name_key: id, addr })
            } else {
                old(self).natives()
            }),
            1 <= id <= final(self).ids()@.len(),
            final(self).ids()@[id - 1] == name@,
            final(self).compile_natives() == old(self).compile_natives(),
            final(self).vm_state() == old(self).vm_state(),
            final(self).info() == old(self).info(),
            final(self).persistent() == old(self).persistent(),
            final(self).loaded_exe() == old(self).loaded_exe(),
            final(self).has_vm() == old(self).has_vm(),
            final(self).next_handle() == old(self).next_handle(),
    {
        let id = self.id_creator.gen_ident_by_str(name);
        if self.native_fun_table.len() < K_NATIVE_FUNCTION_CAPACITY {
            self.native_fun_table.push(NativeFunction { name_key: id, addr });
        }
        id
    }

    /// Add the native table's end marker.
    fn append_native_sentinel(&mut self)
        requires
            old(self).wf(),
            old(self).natives().len() <= K_NATIVE_FUNCTION_CAPACITY,
        ensures
            final(self).wf(),
            final(self).natives() == old(self).natives().push(NativeFunction { name_key: 0, addr: NativeId::Sentinel }),
            final(self).compile_natives() == old(self).compile_natives(),
            final(self).ids() == old(self).ids(),
            final(self).vm_state() == old(self).vm_state(),
            final(self).info() == old(self).info(),
            final(self).persistent() == old(self).persistent(),
            final(self).loaded_exe() == old(self).loaded_exe(),
            final(self).has_vm() == old(self).has_vm(),
            final(self).next_handle() == old(self).next_handle(),
    {
        self.native_fun_table.push(NativeFunction { name_key: 0, addr: NativeId::Sentinel });
    }

    /// Add a compile-time function row named `name`, unless the table is full.
    fn append_compile_native(&mut self, name: &str, addr: CompileFunctionId) -> (id: usize)
        requires
            old(self).wf(),
            old(self).ids()@.len() < usize::MAX,
        ensures
            final(self).wf(),
            final(self).ids()@ == (if old(self).ids()@.contains(name@) { old(self).ids()@ } else { old(self).ids()@.push(name@) }),
            final(self).compile_natives() == (if old(self).compile_natives().len() < K_COMPILE_FUNCTION_CAPACITY {
                old(self).compile_natives().push(CompileNativeFunction { name_key: id, addr })
            } else {
                old(self).compile_natives()
            }),
            1 <= id <= final(self).ids()@.len(),
            final(self).ids()@[id - 1] == name@,
            final(self).natives() == old(self).natives(),
            final(self).vm_state() == old(self).vm_state(),
            final(self).info() == old(self).info(),
            final(self).persistent() == old(self).persistent(),
            final(self).loaded_exe() == old(self).loaded_exe(),
            final(self).has_vm() == old(self).has_vm(),
            final(self).next_handle() == old(self).next_handle(),
    {
        let id = self.id_creator.gen_ident_by_str(name);
        if self.compile_fun_table.len() < K_COMPILE_FUNCTION_CAPACITY {
            self.compile_fun_table.push(CompileNativeFunction { name_key: id, addr });
        }
        id
    }

    /// Add the compile-time table's end marker.
    fn append_compile_native_sentinel(&mut self)
        requires
            old(self).wf(),
            old(self).compile_natives().len() <= K_COMPILE_FUNCTION_CAPACITY,
        ensures
            final(self).wf(),
            final(self).compile_natives() == old(self).compile_natives().push(CompileNativeFunction { name_key: 0, addr: CompileFunctionId::Sentinel }),
            final(self).natives() == old(self).natives(),
            final(self).ids() == old(self).ids(),
            final(self).vm_state() == old(self).vm_state(),
            final(self).info() == old(self).info(),
            final(self).persistent() == old(self).persistent(),
            final(self).loaded_exe() == old(self).loaded_exe(),
            final(self).has_vm() == old(self).has_vm(),
            final(self).next_handle() == old(self).next_handle(),
    {
        self.compile_fun_table.push(CompileNativeFunction { name_key: 0, addr: CompileFunctionId::Sentinel });
    }

    /// The index of the native function named by `key`, or -1.
    pub fn find_native_func(&self, key: usize) -> (r: LInt)
        requires
            self.wf(),
        ensures
            r == spec_find_native(self.natives(), key, 0),
    {
        let mut i: usize = 0;
        while i < self.native_fun_table.len()
            invariant
                i <= self.natives().len(),
                self.natives().len() <= K_NATIVE_FUNCTION_CAPACITY + 1,
                spec_find_native(self.natives(), key, 0) == spec_find_native(self.natives(), key, i as int),
            decreases self.natives().len() - i,
        {
            let nf = self.native_fun_table[i];
            if nf.name_key == 0 || nf.addr == NativeId::Sentinel {
                return -1;
            }
            if nf.name_key == key {
                return i as LInt;
            }
            i = i + 1;
        }
        -1
    }

    /// The native function at row `idx`, unless `idx` is out of range or the end marker.
    pub fn native_at(&self, idx: LInt) -> (r: Option<NativeId>)
        ensures
            match r {
                Some(a) => 0 <= idx < self.natives().len() && a == self.natives()[idx as int].addr
                    && a != NativeId::Sentinel,
                None => idx < 0 || idx >= self.natives().len() || self.natives()[idx as int].addr
                    == NativeId::Sentinel,
            },
    {
        if idx < 0 || idx as usize >= self.native_fun_table.len() {
            return None;
        }
        let a = self.native_fun_table[idx as usize].addr;
        if a == NativeId::Sentinel {
            None
        } else {
            Some(a)
        }
    }

    /// The index of the compile-time function named by `key`, or -1.
    pub fn find_compile_func(&self, key: usize) -> (r: LInt)
        requires
            self.wf(),
        ensures
            r == spec_find_compile(self.compile_natives(), key, 0),
    {
        let mut i: usize = 0;
        while i < self.compile_fun_table.len()
            invariant
                i <= self.compile_natives().len(),
                self.compile_natives().len() <= K_COMPILE_FUNCTION_CAPACITY + 1,
                spec_find_compile(self.compile_natives(), key, 0) == spec_find_compile(self.compile_natives(), key, i as int),
            decreases self.compile_natives().len() - i,
        {
            let cf = self.compile_fun_table[i];
            if cf.name_key == 0 || cf.addr == CompileFunctionId::Sentinel {
                return -1;
            }
            if cf.name_key == key {
                return i as LInt;
            }
            i = i + 1;
        }
        -1
    }

    /// Whether the VM's code was loaded from a bundle (then runtime `require` does nothing).
    /// No operation of this library sets the flag: it is false in every well-formed runtime,
    /// which every constructor gives and every operation keeps (see
    /// `lemma_never_loaded_from_bundle`).
    pub fn is_load_exe_file(&self) -> (r: bool)
        ensures
            r == self.loaded_exe(),
            self.wf() ==> !r,
    {
        self.is_load_exe_file
    }

    /// The code is never marked as loaded from a bundle: `create`, `create_minimal_for_test`
    /// and `default` give well-formed runtimes with the flag clear, every operation that needs
    /// a well-formed runtime leaves it well-formed, and the others keep the flag
    /// (`same_tables`); a well-formed runtime has the flag clear.
    pub proof fn lemma_never_loaded_from_bundle(&self)
        requires
            self.wf(),
        ensures
            !self.loaded_exe(),
    {
    }

    /// The VM.
    pub fn vm(&self) -> (r: &BoyiaVM)
        ensures
            r == self.vm_state(),
    {
        &self.vm
    }

    /// The key of `key`, adding it to the identifier table when new.
    pub fn gen_identifier(&mut self, key: &str) -> (id: usize)
        requires
            old(self).wf(),
            old(self).ids()@.len() < usize::MAX,
        ensures
            final(self).wf(),
            1 <= id <= final(self).ids()@.len(),
            final(self).ids()@[id - 1] == key@,
            old(self).ids()@.contains(key@) ==> final(self).ids()@ == old(self).ids()@,
            !old(self).ids()@.contains(key@) ==> final(self).ids()@ == old(self).ids()@.push(key@),
            final(self).vm_state() == old(self).vm_state(),
            final(self).info() == old(self).info(),
            final(self).natives() == old(self).natives(),
            final(self).compile_natives() == old(self).compile_natives(),
            final(self).persistent() == old(self).persistent(),
            same_tables(final(self), old(self)),
    {
        self.id_creator.gen_ident_by_str(key)
    }

    /// The name with key `id`, if any.
    pub fn name_for_identifier(&self, id: usize) -> (r: Option<String>)
        ensures
            r is Some <==> 1 <= id <= self.ids()@.len(),
            r matches Some(s) ==> s@ == self.ids()@[id - 1],
    {
        self.id_creator.name_for_ident(id)
    }

    /// Keep a copy of `value` alive for the collector; returns its handle.
    pub fn persistent_object(&mut self, value: &BoyiaValue) -> (h: usize)
        requires
            old(self).wf(),
            old(self).next_handle() < usize::MAX,
        ensures
            final(self).wf(),
            final(self).persistent() == old(self).persistent().push((h, *value)),
            final(self).vm_state() == old(self).vm_state(),
            final(self).ids() == old(self).ids(),
            final(self).info() == old(self).info(),
            final(self).natives() == old(self).natives(),
            final(self).compile_natives() == old(self).compile_natives(),
            final(self).loaded_exe() == old(self).loaded_exe(),
            final(self).has_vm() == old(self).has_vm(),
            forall|i: int| 0 <= i < old(self).persistent().len() ==> old(self).persistent()[i].0 != h,
    {
        let h = self.next_persistent;
        self.next_persistent = h + 1;
        self.persistent_objects.push((h, *value));
        h
    }
}


/// The capture slots of an anonymous function body `fi` (slot `param_size + i` for each of
/// its `capture_count` captures).
pub open spec fn capture_refs(fi: usize, f: &crate::vm::BoyiaFunction) -> Seq<PersistentRef> {
    let base: int = if f.param_size >= 0 { f.param_size as int } else { 0 };
    Seq::new(
        if f.capture_count > 0 { f.capture_count as nat } else { 0 },
        |i: int| PersistentRef::Capture(fi, (base + i) as usize),
    )
}

/// Walking the persistent list: which entries stay, and which places are live. An
/// anonymous function whose body is null is dropped; one with captures yields its capture
/// slots instead of itself; every other value yields itself.
pub open spec fn persistent_walk(p: Seq<(usize, BoyiaValue)>, vm: &BoyiaVM) -> (
    Seq<(usize, BoyiaValue)>,
    Seq<PersistentRef>,
)
    decreases p.len(),
{
    if p.len() == 0 {
        (Seq::empty(), Seq::empty())
    } else {
        let (kept, refs) = persistent_walk(p.drop_last(), vm);
        let (h, v) = p.last();
        if v.value_type == ValueType::BY_ANONYM_FUNC {
            if v.obj.ptr == ObjRef::Null {
                (kept, refs)
            } else {
                match v.obj.ptr {
                    ObjRef::Fun(fi) => if fi < vm.funs.len() && vm.funs@[fi as int].params@.len() > 0 {
                        (kept.push((h, v)), refs + capture_refs(fi, &vm.funs@[fi as int]))
                    } else {
                        (kept.push((h, v)), refs)
                    },
                    _ => (kept.push((h, v)), refs),
                }
            }
        } else {
            (kept.push((h, v)), refs.push(PersistentRef::Value(h)))
        }
    }
}

impl BoyiaRuntime {
    /// Stop keeping the value with handle `h` alive.
    pub fn remove_persistent(&mut self, h: usize)
        requires
            old(self).wf(),
        ensures
            final(self).wf(),
            final(self).persistent() == old(self).persistent().filter(|e: (usize, BoyiaValue)| e.0 != h),
            final(self).vm_state() == old(self).vm_state(),
            final(self).ids() == old(self).ids(),
            final(self).info() == old(self).info(),
            final(self).natives() == old(self).natives(),
            final(self).compile_natives() == old(self).compile_natives(),
            final(self).loaded_exe() == old(self).loaded_exe(),
            final(self).has_vm() == old(self).has_vm(),
    {
        let ghost p = self.persistent();
        let mut out: Vec<(usize, BoyiaValue)> = Vec::new();
        let mut i: usize = 0;
        proof {
            assert(p.take(0).filter(|e: (usize, BoyiaValue)| e.0 != h) =~= Seq::<(usize, BoyiaValue)>::empty());
        }
        while i < self.persistent_objects.len()
            invariant
                p == self.persistent(),
                i <= p.len(),
                out@ == p.take(i as int).filter(|e: (usize, BoyiaValue)| e.0 != h),
                handles_below(out@, self.next_handle()),
                handles_below(p, self.next_handle()),
            decreases p.len() - i,
        {
            let e = self.persistent_objects[i];
            proof {
                assert(p.take(i + 1).drop_last() =~= p.take(i as int));
                reveal(Seq::filter);
            }
            if e.0 != h {
                out.push(e);
            }
            i = i + 1;
        }
        proof {
            assert(p.take(p.len() as int) =~= p);
        }
        self.persistent_objects = out;
    }

    /// Walk the persistent values for the collector: drops anonymous functions whose body is
    /// null, and returns the live places (see `persistent_walk`).
    pub fn iterate_persistent(&mut self) -> (r: Vec<PersistentRef>)
        requires
            old(self).wf(),
        ensures
            final(self).wf(),
            (final(self).persistent(), r@) == persistent_walk(old(self).persistent(), old(self).vm_state()),
            final(self).vm_state() == old(self).vm_state(),
            final(self).ids() == old(self).ids(),
            final(self).info() == old(self).info(),
            final(self).natives() == old(self).natives(),
            final(self).compile_natives() == old(self).compile_natives(),
            final(self).loaded_exe() == old(self).loaded_exe(),
            final(self).has_vm() == old(self).has_vm(),
    {
        let ghost p = self.persistent();
        let mut kept: Vec<(usize, BoyiaValue)> = Vec::new();
        let mut refs: Vec<PersistentRef> = Vec::new();
        let mut i: usize = 0;
        proof {
            assert(p.take(0) =~= Seq::<(usize, BoyiaValue)>::empty());
        }
        while i < self.persistent_objects.len()
            invariant
                p == self.persistent(),
                i <= p.len(),
                (kept@, refs@) == persistent_walk(p.take(i as int), self.vm_state()),
                handles_below(kept@, self.next_handle()),
                handles_below(p, self.next_handle()),
            decreases p.len() - i,
        {
            let (h, v) = self.persistent_objects[i];
            proof {
                assert(p.take(i + 1).drop_last() =~= p.take(i as int));
                assert(p.take(i + 1).last() == (h, v));
            }
            if v.value_type == ValueType::BY_ANONYM_FUNC {
                if v.obj.ptr == ObjRef::Null {
                } else {
                    kept.push((h, v));
                    match v.obj.ptr {
                        ObjRef::Fun(fi) => {
                            if fi < self.vm.funs.len() && self.vm.funs[fi].params.len() > 0 {
                                let f = &self.vm.funs[fi];
                                let base: usize = if f.param_size >= 0 { f.param_size as usize } else { 0 };
                                let n: usize = if f.capture_count > 0 { f.capture_count as usize } else { 0 };
                                let ghost r0 = refs@;
                                let mut c: usize = 0;
                                while c < n
                                    invariant
                                        c <= n,
                                        n == (if f.capture_count > 0 { f.capture_count as nat } else { 0 }),
                                        base == (if f.param_size >= 0 { f.param_size as int } else { 0 }),
                                        refs@ == r0 + capture_refs(fi, f).take(c as int),
                                    decreases n - c,
                                {
                                    assert(base + c <= usize::MAX);
                                    refs.push(PersistentRef::Capture(fi, base + c));
                                    c = c + 1;
                                    proof {
                                        assert(refs@ =~= r0 + capture_refs(fi, f).take(c as int));
                                    }
                                }
                                proof {
                                    assert(capture_refs(fi, f).take(n as int) =~= capture_refs(fi, f));
                                }
                            }
                        },
                        _ => {},
                    }
                }
            } else {
                kept.push((h, v));
                refs.push(PersistentRef::Value(h));
            }
            i = i + 1;
        }
        proof {
            assert(p.take(p.len() as int) =~= p);
        }
        self.persistent_objects = kept;
        refs
    }
}


/// The names that the runtime registers first, in order; the builtin class keys
/// (`String` = 3, `Array` = 4, `Map` = 5, `MicroTask` = 6) are their positions.
pub open spec fn builtin_names() -> Seq<Seq<char>> {
    seq!["this"@, "super"@, "String"@, "Array"@, "Map"@, "MicroTask"@]
}

impl BoyiaRuntime {
    /// Whether row `i` of the native table runs `addr` under the name `name`.
    pub open spec fn native_row(&self, i: int, name: Seq<char>, addr: NativeId) -> bool {
        let k = self.natives()[i].name_key;
        &&& self.natives()[i].addr == addr
        &&& 1 <= k <= self.ids()@.len()
        &&& self.ids()@[k - 1] == name
    }

    /// Register the runtime native functions `new`, `BY_Log` and `require`, then the end marker.
    fn init_native_function(&mut self)
        requires
            old(self).wf(),
            old(self).natives().len() == 0,
            old(self).ids()@.len() < usize::MAX - 3,
        ensures
            final(self).wf(),
            final(self).natives().len() == 4,
            final(self).native_row(0, "new"@, NativeId::CreateObject),
            final(self).native_row(1, "BY_Log"@, NativeId::LogPrint),
            final(self).native_row(2, "require"@, NativeId::RequireFile),
            final(self).natives()[3] == (NativeFunction { name_key: 0, addr: NativeId::Sentinel }),
            final(self).ids()@.len() <= old(self).ids()@.len() + 3,
            old(self).ids()@.is_prefix_of(final(self).ids()@),
            final(self).compile_natives() == old(self).compile_natives(),
            final(self).vm_state() == old(self).vm_state(),
            final(self).info() == old(self).info(),
            final(self).persistent() == old(self).persistent(),
            final(self).loaded_exe() == old(self).loaded_exe(),
            final(self).has_vm() == old(self).has_vm(),
            final(self).next_handle() == old(self).next_handle(),
    {
        let ghost i0 = self.ids()@;
        let k1 = self.append_native("new", NativeId::CreateObject);
        let ghost i1 = self.ids()@;
        let k2 = self.append_native("BY_Log", NativeId::LogPrint);
        let ghost i2 = self.ids()@;
        let k3 = self.append_native("require", NativeId::RequireFile);
        self.append_native_sentinel();
        proof {
            assert(i0.is_prefix_of(i1));
            assert(i1.is_prefix_of(i2));
            assert(i2.is_prefix_of(self.ids()@));
            assert(self.ids()@[k1 - 1] == i1[k1 - 1]);
            assert(self.ids()@[k2 - 1] == i2[k2 - 1]);
        }
    }

    /// Register the compile-time function `require`, then the end marker.
    fn init_compile_function(&mut self)
        requires
            old(self).wf(),
            old(self).compile_natives().len() == 0,
            old(self).ids()@.len() < usize::MAX,
        ensures
            final(self).wf(),
            final(self).compile_natives().len() == 2,
            final(self).compile_natives()[0].addr == CompileFunctionId::RequireFileCompile,
            1 <= final(self).compile_natives()[0].name_key <= final(self).ids()@.len(),
            final(self).ids()@[final(self).compile_natives()[0].name_key - 1] == "require"@,
            final(self).compile_natives()[1] == (CompileNativeFunction { name_key: 0, addr: CompileFunctionId::Sentinel }),
            final(self).ids()@ == (if old(self).ids()@.contains("require"@) { old(self).ids()@ } else { old(self).ids()@.push("require"@) }),
            final(self).natives() == old(self).natives(),
            final(self).vm_state() == old(self).vm_state(),
            final(self).info() == old(self).info(),
            final(self).persistent() == old(self).persistent(),
            final(self).loaded_exe() == old(self).loaded_exe(),
            final(self).has_vm() == old(self).has_vm(),
            final(self).next_handle() == old(self).next_handle(),
    {
        self.append_compile_native("require", CompileFunctionId::RequireFileCompile);
        self.append_compile_native_sentinel();
    }

    /// Compile the entry source `script` and start the walk over the files it requires;
    /// returns the path of the first file to load (hand it back with `file_loaded`), or
    /// `None` when nothing is left to load.
    pub fn compile(&mut self, script: &str) -> (r: Option<String>)
        requires
            old(self).wf(),
        ensures
            final(self).wf(),
            !old(self).has_vm() ==> r is None && *final(self) == *old(self),
            old(self).has_vm() ==> ({
                let info = old(self).info();
                let deps = spec_enqueue_all(
                    info.script_paths(),
                    info.entry_path(),
                    info.pending(),
                    spec_required_paths(info.spec_require_path_base(), script@),
                );
                let n = old(self).vm_state().entry@.len() as int;
                let (fs, e, p) = spec_advance(
                    info.frames().push(FrameView { entry_start: n, entry_end: n, deps, next: 0, own: Seq::empty() }),
                    old(self).vm_state().entry@,
                );
                &&& final(self).info().frames() == fs
                &&& final(self).vm_state().entry@ == e
                &&& match r {
                    Some(s) => p == Some(s@),
                    None => p is None,
                }
            }),
            old(self).has_vm() ==> final(self).info().pending() == Seq::<Seq<char>>::empty(),
            old(self).has_vm() ==> !final(self).info().direct_request(),
            *final(self).vm_state() == (BoyiaVM { entry: final(self).vm_state().entry, ..*old(self).vm_state() }),
            final(self).info().script_paths() == old(self).info().script_paths(),
            final(self).info().scripts() == old(self).info().scripts(),
            final(self).info().current() == old(self).info().current(),
            final(self).info().entry_path() == old(self).info().entry_path(),
            final(self).ids() == old(self).ids(),
            same_tables(final(self), old(self)),
    {
        if !self.vm_ready {
            return None;
        }
        self.compile_info.compile_entry(script, &mut self.vm, &mut self.id_creator)
    }

    /// Start compiling the file at `path` and the files it requires: returns `path` for the
    /// caller to load (hand it back with `file_loaded`). The path is asked for directly, so
    /// the entry script can be compiled from its path this way.
    pub fn compile_file(&mut self, path: &str) -> (r: Option<String>)
        requires
            old(self).wf(),
        ensures
            final(self).wf(),
            !old(self).has_vm() ==> r is None && *final(self) == *old(self),
            old(self).has_vm() ==> (r matches Some(s) && s@ == path@),
            old(self).has_vm() ==> final(self).info().frames() == old(self).info().frames().push(FrameView {
                entry_start: old(self).vm_state().entry@.len() as int,
                entry_end: old(self).vm_state().entry@.len() as int,
                deps: seq![path@],
                next: 1,
                own: Seq::empty(),
            }),
            old(self).has_vm() ==> final(self).info().direct_request(),
            final(self).vm_state().entry@ == old(self).vm_state().entry@,
            *final(self).vm_state() == (BoyiaVM { entry: final(self).vm_state().entry, ..*old(self).vm_state() }),
            final(self).info().pending() == old(self).info().pending(),
            final(self).info().script_paths() == old(self).info().script_paths(),
            final(self).info().scripts() == old(self).info().scripts(),
            final(self).info().current() == old(self).info().current(),
            final(self).info().entry_path() == old(self).info().entry_path(),
            final(self).ids() == old(self).ids(),
            same_tables(final(self), old(self)),
    {
        if !self.vm_ready {
            return None;
        }
        self.compile_info.compile_file(path, &mut self.vm, &mut self.id_creator)
    }

    /// Compile a file that a running script requires by path (same walk as `compile_file`).
    pub fn compile_script_file(&mut self, resolved_path: &str) -> (r: Option<String>)
        requires
            old(self).wf(),
        ensures
            final(self).wf(),
            !old(self).has_vm() ==> r is None && *final(self) == *old(self),
            old(self).has_vm() ==> (r matches Some(s) && s@ == resolved_path@),
            old(self).has_vm() ==> final(self).info().frames() == old(self).info().frames().push(FrameView {
                entry_start: old(self).vm_state().entry@.len() as int,
                entry_end: old(self).vm_state().entry@.len() as int,
                deps: seq![resolved_path@],
                next: 1,
                own: Seq::empty(),
            }),
            old(self).has_vm() ==> final(self).info().direct_request(),
            final(self).vm_state().entry@ == old(self).vm_state().entry@,
            *final(self).vm_state() == (BoyiaVM { entry: final(self).vm_state().entry, ..*old(self).vm_state() }),
            final(self).info().pending() == old(self).info().pending(),
            final(self).info().script_paths() == old(self).info().script_paths(),
            final(self).info().scripts() == old(self).info().scripts(),
            final(self).info().current() == old(self).info().current(),
            final(self).info().entry_path() == old(self).info().entry_path(),
            final(self).ids() == old(self).ids(),
            same_tables(final(self), old(self)),
    {
        self.compile_file(resolved_path)
    }

    /// The file that the last compile step asked for was loaded (see
    /// `BoyiaCompileInfo::file_loaded`): `key` is its canonical path, `source` its text.
    /// Returns the next path to load, or `None` when the walk is over.
    pub fn file_loaded(&mut self, key: &str, source: Option<&str>) -> (r: Option<String>)
        requires
            old(self).wf(),
            old(self).ids()@.len() < usize::MAX,
        ensures
            final(self).wf(),
            !old(self).has_vm() ==> r is None && *final(self) == *old(self),
            old(self).has_vm() ==> ({
                let src = match source {
                    Some(s) => Some(s@),
                    None => None,
                };
                let info = old(self).info();
                if info.compiles(key@, src) {
                    let deps = spec_enqueue_all(
                        info.script_paths(),
                        info.entry_path(),
                        info.pending(),
                        spec_required_paths(key@, src.unwrap()),
                    );
                    let n = old(self).vm_state().entry@.len() as int;
                    let (fs, e, p) = spec_advance(
                        info.frames().push(FrameView { entry_start: n, entry_end: n, deps, next: 0, own: Seq::empty() }),
                        old(self).vm_state().entry@,
                    );
                    let sc = final(self).info().scripts().last();
                    &&& final(self).info().script_paths() == info.script_paths().push(key@)
                    &&& final(self).info().scripts().drop_last() == info.scripts()
                    &&& final(self).ids()@.contains(key@)
                    &&& final(self).ids()@ == crate::ids::spec_register_one(old(self).ids()@, key@)
                    &&& crate::ids::keyed(final(self).ids()@, sc.script_id, key@)
                    &&& sc.code_start == old(self).vm_state().code@.len()
                    &&& final(self).info().pending() == Seq::<Seq<char>>::empty()
                    &&& final(self).info().frames() == fs
                    &&& final(self).vm_state().entry@ == e
                    &&& match r {
                        Some(s) => p == Some(s@),
                        None => p is None,
                    }
                } else {
                    let (fs, e, p) = spec_advance(info.frames(), old(self).vm_state().entry@);
                    &&& final(self).info().script_paths() == info.script_paths()
                    &&& final(self).info().scripts() == info.scripts()
                    &&& final(self).ids() == old(self).ids()
                    &&& final(self).info().frames() == fs
                    &&& final(self).vm_state().entry@ == e
                    &&& final(self).info().pending() == info.pending()
                    &&& match r {
                        Some(s) => p == Some(s@),
                        None => p is None,
                    }
                }
            }),
            old(self).has_vm() ==> !final(self).info().direct_request(),
            *final(self).vm_state() == (BoyiaVM { entry: final(self).vm_state().entry, ..*old(self).vm_state() }),
            final(self).info().current() == old(self).info().current(),
            final(self).info().entry_path() == old(self).info().entry_path(),
            same_tables(final(self), old(self)),
    {
        if !self.vm_ready {
            return None;
        }
        let r = self.compile_info.file_loaded(key, source, &mut self.vm, &mut self.id_creator);
        proof {
            let sc = self.info().scripts().last();
            if old(self).info().compiles(key@, match source { Some(s) => Some(s@), None => None }) {
                assert(self.ids()@[sc.script_id - 1] == key@);
            }
        }
        r
    }

    /// Record the (canonical) path of the entry script.
    pub fn set_entry_script_path(&mut self, path: &str)
        requires
            old(self).wf(),
        ensures
            final(self).wf(),
            final(self).info().entry_path() == path@,
            final(self).info().direct_request() == old(self).info().direct_request(),
            final(self).info().script_paths() == old(self).info().script_paths(),
            final(self).info().frames() == old(self).info().frames(),
            final(self).info().pending() == old(self).info().pending(),
            final(self).info().scripts() == old(self).info().scripts(),
            final(self).info().current() == old(self).info().current(),
            final(self).vm_state() == old(self).vm_state(),
            final(self).ids() == old(self).ids(),
            same_tables(final(self), old(self)),
    {
        self.compile_info.set_entry_script_path(path);
    }

    /// The path that relative `require`s resolve against.
    pub fn require_path_base(&self) -> (r: &str)
        ensures
            r@ == self.info().spec_require_path_base(),
    {
        self.compile_info.require_path_base()
    }

    /// Record the source position of an instruction of the script being compiled.
    pub fn set_code_position(&mut self, code_index: OpOffset, line_num: LInt, column_num: LInt)
        requires
            old(self).wf(),
        ensures
            final(self).wf(),
            match old(self).info().current() {
                Some(sc) => final(self).info().current() matches Some(nc) && nc.code_positions@
                    == sc.code_positions@.insert(code_index, SourcePosition { line_num, column_num }),
                None => final(self).info().current() is None,
            },
            final(self).info().script_paths() == old(self).info().script_paths(),
            final(self).info().entry_path() == old(self).info().entry_path(),
            final(self).info().direct_request() == old(self).info().direct_request(),
            final(self).info().frames() == old(self).info().frames(),
            final(self).info().pending() == old(self).info().pending(),
            final(self).vm_state() == old(self).vm_state(),
            final(self).ids() == old(self).ids(),
            same_tables(final(self), old(self)),
    {
        self.compile_info.set_code_position(code_index, line_num, column_num);
    }

    /// Record a resolved `require` path of the script being compiled.
    pub fn enqueue_compile_script(&mut self, resolved_path: &str)
        requires
            old(self).wf(),
        ensures
            final(self).wf(),
            final(self).info().pending() == spec_enqueue(
                old(self).info().script_paths(),
                old(self).info().entry_path(),
                old(self).info().pending(),
                resolved_path@,
            ),
            final(self).info().script_paths() == old(self).info().script_paths(),
            final(self).info().scripts() == old(self).info().scripts(),
            final(self).info().current() == old(self).info().current(),
            final(self).info().entry_path() == old(self).info().entry_path(),
            final(self).info().direct_request() == old(self).info().direct_request(),
            final(self).info().frames() == old(self).info().frames(),
            final(self).vm_state() == old(self).vm_state(),
            final(self).ids() == old(self).ids(),
            same_tables(final(self), old(self)),
    {
        self.compile_info.enqueue_script(resolved_path);
    }

    /// Call native function `idx` (`call_native_function`): a library native runs on the VM
    /// (see `builtin_done`); a native whose work lies outside the library is handed back as
    /// `Outside` with nothing changed; an index past the table or at its end marker gives
    /// `kOpResultEnd`.
    pub fn call_native_function(&mut self, idx: LInt) -> (r: NativeCall)
        requires
            old(self).wf(),
        ensures
            final(self).wf(),
            final(self).ids() == old(self).ids(),
            final(self).natives() == old(self).natives(),
            final(self).compile_natives() == old(self).compile_natives(),
            final(self).info() == old(self).info(),
            final(self).persistent() == old(self).persistent(),
            final(self).next_handle() == old(self).next_handle(),
            final(self).loaded_exe() == old(self).loaded_exe(),
            final(self).has_vm() == old(self).has_vm(),
            if !(0 <= idx < old(self).natives().len()) || old(self).natives()[idx as int].addr == NativeId::Sentinel {
                r == NativeCall::Done(OpHandleResult::kOpResultEnd) && final(self).vm_state() == old(self).vm_state()
            } else {
                let id = old(self).natives()[idx as int].addr;
                match r {
                    NativeCall::Done(x) => builtin_done(id, old(self).vm_state(), final(self).vm_state(), Some(x)),
                    NativeCall::Outside(o) => o == id && builtin_done(id, old(self).vm_state(), final(self).vm_state(), None),
                }
            },
    {
        if idx < 0 || idx as usize >= self.native_fun_table.len() {
            return NativeCall::Done(OpHandleResult::kOpResultEnd);
        }
        let id = self.native_fun_table[idx as usize].addr;
        if id == NativeId::Sentinel {
            return NativeCall::Done(OpHandleResult::kOpResultEnd);
        }
        match self.vm.call_builtin(id) {
            Some(x) => NativeCall::Done(x),
            None => NativeCall::Outside(id),
        }
    }

    /// Consume the VM's resumed micro tasks (see `BoyiaVM::consume_micro_task`).
    pub fn consume_micro_task(&mut self) -> (r: Vec<usize>)
        requires
            old(self).wf(),
        ensures
            final(self).wf(),
            !old(self).has_vm() ==> r@ == Seq::<usize>::empty() && *final(self) == *old(self),
            old(self).has_vm() ==> {
                &&& r@ == old(self).vm_state().used_tasks@
                &&& final(self).vm_state().used_tasks@ == Seq::<usize>::empty()
                &&& final(self).vm_state().alloc_tasks@ == old(self).vm_state().alloc_tasks@.filter(
                    |h: usize| !old(self).vm_state().used_tasks@.contains(h),
                )
                &&& *final(self).vm_state() == (BoyiaVM {
                    alloc_tasks: final(self).vm_state().alloc_tasks,
                    used_tasks: final(self).vm_state().used_tasks,
                    ..*old(self).vm_state()
                })
            },
            final(self).ids() == old(self).ids(),
            final(self).info() == old(self).info(),
            same_tables(final(self), old(self)),
    {
        if !self.vm_ready {
            return Vec::new();
        }
        self.vm.consume_micro_task()
    }

    /// Cache patching of the VM's instructions (see `BoyiaVM::cache_vm_code`).
    pub fn cache_code(&mut self)
        requires
            old(self).wf(),
        ensures
            final(self).wf(),
            !old(self).has_vm() ==> *final(self) == *old(self),
            old(self).has_vm() ==> final(self).vm_state().code@ == Seq::new(
                old(self).vm_state().code@.len(),
                |k: int| crate::vm::spec_patch(old(self).vm_state().code@[k]),
            ),
            *final(self).vm_state() == (BoyiaVM { code: final(self).vm_state().code, ..*old(self).vm_state() }),
            final(self).ids() == old(self).ids(),
            final(self).info() == old(self).info(),
            same_tables(final(self), old(self)),
    {
        if !self.vm_ready {
            return;
        }
        self.vm.cache_vm_code();
    }

    /// The identifier table, for the caller to register or look up names; everything else
    /// stays as it is.
    pub fn id_creator(&mut self) -> (r: &mut IdCreator)
        ensures
            *r == *old(self).ids(),
            *final(self).ids() == *final(r),
            final(self).vm_state() == old(self).vm_state(),
            final(self).info() == old(self).info(),
            final(self).natives() == old(self).natives(),
            final(self).compile_natives() == old(self).compile_natives(),
            final(self).persistent() == old(self).persistent(),
            final(self).next_handle() == old(self).next_handle(),
            final(self).loaded_exe() == old(self).loaded_exe(),
            final(self).has_vm() == old(self).has_vm(),
    {
        &mut self.id_creator
    }

    /// Whether the file with canonical path `key` still needs its text (see
    /// `BoyiaCompileInfo::needs_source`): when it does not, hand it back to `file_loaded`
    /// without reading it.
    pub fn needs_source(&self, key: &str) -> (r: bool)
        ensures
            r == self.info().spec_needs_source(key@),
    {
        self.compile_info.needs_source(key)
    }

    /// The VM and the identifier table together, for the caller to register builtins;
    /// `None` before the runtime is initialized. Everything else stays as it is.
    pub fn with_vm_and_id_creator(&mut self) -> (r: Option<(&mut BoyiaVM, &mut IdCreator)>)
        ensures
            r is Some <==> old(self).has_vm(),
            r is None ==> *final(self) == *old(self),
            r matches Some(p) ==> {
                &&& *p.0 == *old(self).vm_state()
                &&& *p.1 == *old(self).ids()
                &&& *final(self).vm_state() == *final(p.0)
                &&& *final(self).ids() == *final(p.1)
            },
            final(self).info() == old(self).info(),
            same_tables(final(self), old(self)),
    {
        if !self.vm_ready {
            return None;
        }
        Some((&mut self.vm, &mut self.id_creator))
    }

    /// Call compile-time function `idx` with a literal argument: `require` records the
    /// argument's path, resolved against `require_path_base`. Returns whether a function ran.
    pub fn call_compile_function(&mut self, idx: LInt, arg: &str) -> (r: bool)
        requires
            old(self).wf(),
        ensures
            final(self).wf(),
            r == (0 <= idx < old(self).compile_natives().len() && old(self).compile_natives()[idx as int].addr
                == CompileFunctionId::RequireFileCompile),
            r ==> final(self).info().pending() == spec_enqueue(
                old(self).info().script_paths(),
                old(self).info().entry_path(),
                old(self).info().pending(),
                spec_resolve(old(self).info().spec_require_path_base(), arg@),
            ),
            !r ==> final(self).info() == old(self).info(),
            final(self).info().script_paths() == old(self).info().script_paths(),
            final(self).info().scripts() == old(self).info().scripts(),
            final(self).info().current() == old(self).info().current(),
            final(self).info().entry_path() == old(self).info().entry_path(),
            final(self).info().direct_request() == old(self).info().direct_request(),
            final(self).info().frames() == old(self).info().frames(),
            final(self).vm_state() == old(self).vm_state(),
            final(self).ids() == old(self).ids(),
            same_tables(final(self), old(self)),
    {
        if idx < 0 || idx as usize >= self.compile_fun_table.len() {
            return false;
        }
        match self.compile_fun_table[idx as usize].addr {
            CompileFunctionId::Sentinel => false,
            CompileFunctionId::RequireFileCompile => {
                let path = resolve_require_path(self.compile_info.require_path_base(), arg);
                self.compile_info.enqueue_script(path.as_str());
                true
            },
        }
    }
}


impl BoyiaRuntime {
    /// Register the builtin names (`this`, `super`, `String`, `Array`, `Map`, `MicroTask`,
    /// keys 1 to 6 in a fresh table), the native and compile-time function tables, and the
    /// builtin classes.
    fn init(&mut self)
        requires
            old(self).wf(),
            old(self).ids()@ == Seq::<Seq<char>>::empty(),
            old(self).natives().len() == 0,
            old(self).compile_natives().len() == 0,
            old(self).vm_state().globals@.len() == 0,
            old(self).vm_state().fun_table_size == 0,
        ensures
            final(self).wf(),
            final(self).ids()@.subrange(0, 6) == builtin_names(),
            final(self).natives().len() == 4,
            final(self).native_row(0, "new"@, NativeId::CreateObject),
            final(self).native_row(1, "BY_Log"@, NativeId::LogPrint),
            final(self).native_row(2, "require"@, NativeId::RequireFile),
            final(self).natives()[3] == (NativeFunction { name_key: 0, addr: NativeId::Sentinel }),
            final(self).compile_natives().len() == 2,
            final(self).compile_natives()[0].addr == CompileFunctionId::RequireFileCompile,
            1 <= final(self).compile_natives()[0].name_key <= final(self).ids()@.len(),
            final(self).ids()@[final(self).compile_natives()[0].name_key - 1] == "require"@,
            final(self).compile_natives()[1] == (CompileNativeFunction { name_key: 0, addr: CompileFunctionId::Sentinel }),
            final(self).vm_state().has_string_class(),
            final(self).vm_state().array_ready(),
            final(self).vm_state().globals@.len() == 4,
            final(self).vm_state().globals@[0].name_key == 3,
            final(self).vm_state().globals@[1].name_key == 5,
            final(self).vm_state().globals@[2].name_key == 6,
            final(self).vm_state().globals@[3].name_key == 4,
            forall|g: int| 0 <= g < 4 ==> #[trigger] final(self).vm_state().globals@[g].value_type == ValueType::BY_CLASS,
            final(self).ids()@.len() <= 23,
            final(self).ids()@.len() >= 6,
            crate::string_class::string_class_built(final(self).vm_state(), final(self).ids()@, 0),
            final(self).has_vm(),
            final(self).info() == old(self).info(),
            final(self).vm_state().entry == old(self).vm_state().entry,
            final(self).persistent() == old(self).persistent(),
            final(self).next_handle() == old(self).next_handle(),
            final(self).loaded_exe() == old(self).loaded_exe(),
    {
        self.vm_ready = true;
        proof {
            reveal_strlit("this");
            reveal_strlit("super");
            reveal_strlit("String");
            reveal_strlit("Array");
            reveal_strlit("Map");
            reveal_strlit("MicroTask");
            assert("this"@.len() == 4 && "super"@.len() == 5 && "String"@.len() == 6);
            assert("Array"@.len() == 5 && "Map"@.len() == 3 && "MicroTask"@.len() == 9);
            assert("super"@[0] != "Array"@[0]);
        }
        let _ = self.id_creator.gen_ident_by_str("this");
        assert(self.ids()@ =~= seq!["this"@]);
        let _ = self.id_creator.gen_ident_by_str("super");
        assert(self.ids()@ =~= seq!["this"@, "super"@]);
        let _ = self.id_creator.gen_ident_by_str("String");
        assert(self.ids()@ =~= seq!["this"@, "super"@, "String"@]);
        let _ = self.id_creator.gen_ident_by_str("Array");
        assert(self.ids()@ =~= seq!["this"@, "super"@, "String"@, "Array"@]);
        let _ = self.id_creator.gen_ident_by_str("Map");
        assert(self.ids()@ =~= seq!["this"@, "super"@, "String"@, "Array"@, "Map"@]);
        let _ = self.id_creator.gen_ident_by_str("MicroTask");
        proof {
            assert(self.ids()@ =~= builtin_names());
        }
        let ghost six = self.ids()@;
        self.init_native_function();
        self.init_compile_function();
        proof {
            assert(six.is_prefix_of(self.ids()@));
            assert(self.ids()@.subrange(0, 6) =~= builtin_names());
            assert(self.ids()@[2] == "String"@);
        }
        let ghost before = *self;
        builtin_string_class(&mut self.vm, &mut self.id_creator);
        proof {
            let ids = self.ids()@;
            crate::ids::lemma_register_prefix(before.ids()@, crate::string_class::string_class_names());
            assert(before.ids()@.is_prefix_of(ids));
            assert(ids.len() <= 20);
            assert(ids[2] == "String"@);
            let k = self.vm.globals@[0].name_key;
            assert(k == 3);
            assert(global_from(self.vm.globals@, K_BOYIA_STRING, 0) == 0);
            assert(crate::string_class::methods_fitting(before.vm.fun_table_size) == 7);
            let fi = before.vm.funs@.len() as int;
            assert(self.vm.globals@[0].obj.ptr == ObjRef::Fun(fi as usize));
            assert(self.vm.globals@[0].value_type == ValueType::BY_CLASS);
            assert(fi < self.vm.funs@.len());
            let f = self.vm.funs@[fi];
            assert(f.param_size == 9);
            assert(f.func_body == crate::vm::FuncBody::Class(0));
            assert(forall|m: int| 0 <= m < 7 ==> #[trigger] crate::string_class::string_method_at(&self.vm, ids, fi, m));
            assert(crate::ids::keyed(ids, self.vm.globals@[0].name_key, "String"@));
            assert(f.params@.len() == crate::vm::NUM_FUNC_PARAMS);
            assert(f.param_count == crate::vm::NUM_FUNC_PARAMS);
            assert(crate::ids::keyed(ids, f.params@[0].name_key, "buffer"@));
            assert(crate::ids::keyed(ids, f.params@[1].name_key, "hash"@));
            assert(forall|j: int| 9 <= j < crate::vm::NUM_FUNC_PARAMS ==> #[trigger] f.params@[j] == crate::vm::zero_value());
            assert(f.params@[0] == (BoyiaValue { name_key: f.params@[0].name_key, ..crate::vm::spec_str_slot(crate::value::StrRef::Null, 0) }));
            assert(f.params@[1] == (BoyiaValue { name_key: f.params@[1].name_key, ..crate::value::spec_blank(ValueType::BY_INT) }));
            let fu = before.vm.funs.len();
            assert(fu as int == fi);
            assert(forall|m: int| 0 <= m < 7 ==> #[trigger] crate::string_class::string_method_at(&self.vm, ids, fu as int, m));
            assert(forall|j: int| 9 <= j < crate::vm::NUM_FUNC_PARAMS ==> #[trigger] self.vm.funs@[fu as int].params@[j] == crate::vm::zero_value());
            assert(crate::string_class::string_class_built(&self.vm, ids, 0));
        }
        let ghost s1 = *self;
        self.register_bare_class("Map");
        let ghost s2 = *self;
        self.register_bare_class("MicroTask");
        let ghost s3 = *self;
        self.register_bare_class("Array");
        proof {
            let gl = self.vm.globals@;
            assert(s1.ids()@.is_prefix_of(s2.ids()@));
            assert(s2.ids()@.is_prefix_of(s3.ids()@));
            assert(s3.ids()@.is_prefix_of(self.ids()@));
            let ids = self.ids()@;
            assert(ids[2] == "String"@ && ids[3] == "Array"@ && ids[4] == "Map"@ && ids[5] == "MicroTask"@);
            crate::ids::lemma_keyed_unique(s2.ids()@, s2.vm.globals@[1].name_key, 4, "Map"@);
            crate::ids::lemma_keyed_unique(s3.ids()@, s3.vm.globals@[2].name_key, 5, "MicroTask"@);
            crate::ids::lemma_keyed_unique(ids, gl[3].name_key, 3, "Array"@);
            assert(gl[0] == s1.vm.globals@[0]);
            assert(gl[1] == s2.vm.globals@[1]);
            assert(gl[2] == s3.vm.globals@[2]);
            assert(gl[0].name_key == 3 && gl[1].name_key == 5 && gl[2].name_key == 6 && gl[3].name_key == 4);
            assert(global_from(gl, K_BOYIA_STRING, 0) == 0);
            assert(global_from(gl, K_BOYIA_ARRAY, 3) == 3);
            assert(global_from(gl, K_BOYIA_ARRAY, 2) == 3);
            assert(global_from(gl, K_BOYIA_ARRAY, 1) == 3);
            assert(global_from(gl, K_BOYIA_ARRAY, 0) == 3);
            match s1.vm.globals@[0].obj.ptr {
                ObjRef::Fun(i) => {
                    assert(self.vm.funs@[i as int] == s1.vm.funs@[i as int]);
                },
                _ => {},
            }
            assert(self.ids()@.subrange(0, 6) =~= builtin_names());
            assert(s1.ids()@.is_prefix_of(self.ids()@));
            assert forall|j: int| 0 <= j < s1.vm.funs@.len() implies #[trigger] self.vm.funs@[j] == s1.vm.funs@[j] by {
                assert(s2.vm.funs@[j] == s1.vm.funs@[j]);
                assert(s3.vm.funs@[j] == s2.vm.funs@[j]);
            }
            crate::string_class::lemma_string_class_built_kept(&s1.vm, &self.vm, s1.ids()@, self.ids()@, 0);
        }
    }

    /// Register a builtin class whose slots this library does not define: its name, then a
    /// global class value over a new body.
    fn register_bare_class(&mut self, name: &str)
        requires
            old(self).wf(),
            old(self).ids()@.len() < usize::MAX,
            old(self).vm_state().globals@.len() < crate::vm::NUM_GLOBAL_VARS,
            old(self).vm_state().fun_table_size < crate::vm::NUM_FUNC,
        ensures
            final(self).wf(),
            final(self).ids()@ == crate::ids::spec_register_one(old(self).ids()@, name@),
            ({
                let vm0 = old(self).vm_state();
                let vm1 = final(self).vm_state();
                let k = vm1.globals@.last().name_key;
                &&& vm1.globals@.len() == vm0.globals@.len() + 1
                &&& vm1.globals@.subrange(0, vm0.globals@.len() as int) == vm0.globals@
                &&& crate::ids::keyed(final(self).ids()@, k, name@)
                &&& vm1.globals@.last().value_type == ValueType::BY_CLASS
                &&& vm1.globals@.last().obj.ptr == ObjRef::Fun(vm0.funs@.len() as usize)
                &&& vm1.funs@.len() == vm0.funs@.len() + 1
                &&& forall|j: int| 0 <= j < vm0.funs@.len() ==> #[trigger] vm1.funs@[j] == vm0.funs@[j]
                &&& vm1.fun_table_size == vm0.fun_table_size + 1
                &&& *vm1 == (BoyiaVM { globals: vm1.globals, funs: vm1.funs, fun_table_size: vm1.fun_table_size, ..*vm0 })
            }),
            final(self).natives() == old(self).natives(),
            final(self).compile_natives() == old(self).compile_natives(),
            final(self).info() == old(self).info(),
            final(self).persistent() == old(self).persistent(),
            final(self).next_handle() == old(self).next_handle(),
            final(self).loaded_exe() == old(self).loaded_exe(),
            final(self).has_vm() == old(self).has_vm(),
    {
        let key = self.id_creator.gen_ident_by_str(name);
        let _ = self.vm.create_global_class(key);
        proof {
            assert(self.vm.globals@.subrange(0, old(self).vm.globals@.len() as int) =~= old(self).vm.globals@);
        }
    }

    /// Create and initialize a runtime.
    pub fn create() -> (r: Box<Self>)
        ensures
            r.wf(),
            r.ids()@.subrange(0, 6) == builtin_names(),
            r.natives().len() == 4,
            r.native_row(0, "new"@, NativeId::CreateObject),
            r.native_row(1, "BY_Log"@, NativeId::LogPrint),
            r.native_row(2, "require"@, NativeId::RequireFile),
            r.natives()[3] == (NativeFunction { name_key: 0, addr: NativeId::Sentinel }),
            r.compile_natives().len() == 2,
            r.compile_natives()[0].addr == CompileFunctionId::RequireFileCompile,
            crate::ids::keyed(r.ids()@, r.compile_natives()[0].name_key, "require"@),
            r.compile_natives()[1] == (CompileNativeFunction { name_key: 0, addr: CompileFunctionId::Sentinel }),
            r.ids()@.len() <= 23,
            r.ids()@.len() >= 6,
            crate::string_class::string_class_built(r.vm_state(), r.ids()@, 0),
            r.info().script_paths() == Seq::<Seq<char>>::empty(),
            r.info().scripts() == Seq::<Script>::empty(),
            r.info().frames() == Seq::<FrameView>::empty(),
            r.info().pending() == Seq::<Seq<char>>::empty(),
            r.info().current() is None,
            r.info().entry_path() == Seq::<char>::empty(),
            r.vm_state().entry@.len() == 0,
            r.vm_state().has_string_class(),
            r.vm_state().array_ready(),
            r.vm_state().globals@.len() == 4,
            r.vm_state().globals@[0].name_key == 3,
            r.vm_state().globals@[1].name_key == 5,
            r.vm_state().globals@[2].name_key == 6,
            r.vm_state().globals@[3].name_key == 4,
            forall|g: int| 0 <= g < 4 ==> #[trigger] r.vm_state().globals@[g].value_type == ValueType::BY_CLASS,
            r.persistent() == Seq::<(usize, BoyiaValue)>::empty(),
            r.next_handle() == 1,
            !r.loaded_exe(),
            r.has_vm(),
    {
        let mut runtime = Box::new(Self::new());
        runtime.init();
        runtime
    }

    /// Create a runtime with the minimal setup for tests: `this` and `String` registered
    /// and the function tables, but no builtin class.
    pub fn create_minimal_for_test() -> (r: Box<Self>)
        ensures
            r.wf(),
            r.ids()@.subrange(0, 2) == seq!["this"@, "String"@],
            r.natives().len() == 4,
            r.native_row(0, "new"@, NativeId::CreateObject),
            r.native_row(1, "BY_Log"@, NativeId::LogPrint),
            r.native_row(2, "require"@, NativeId::RequireFile),
            r.natives()[3] == (NativeFunction { name_key: 0, addr: NativeId::Sentinel }),
            r.compile_natives().len() == 2,
            r.compile_natives()[0].addr == CompileFunctionId::RequireFileCompile,
            crate::ids::keyed(r.ids()@, r.compile_natives()[0].name_key, "require"@),
            r.compile_natives()[1] == (CompileNativeFunction { name_key: 0, addr: CompileFunctionId::Sentinel }),
            r.ids()@.len() <= 6,
            r.ids()@.len() >= 2,
            r.info().script_paths() == Seq::<Seq<char>>::empty(),
            r.info().scripts() == Seq::<Script>::empty(),
            r.info().frames() == Seq::<FrameView>::empty(),
            r.info().pending() == Seq::<Seq<char>>::empty(),
            r.info().current() is None,
            r.info().entry_path() == Seq::<char>::empty(),
            r.vm_state().globals@.len() == 0,
            r.vm_state().entry@.len() == 0,
            r.persistent() == Seq::<(usize, BoyiaValue)>::empty(),
            r.next_handle() == 1,
            !r.loaded_exe(),
            r.has_vm(),
    {
        let mut runtime = Box::new(Self::new());
        runtime.init_minimal_for_test();
        runtime
    }

    /// Minimal setup for tests (see `create_minimal_for_test`).
    pub fn init_minimal_for_test(&mut self)
        requires
            old(self).wf(),
            old(self).ids()@ == Seq::<Seq<char>>::empty(),
            old(self).natives().len() == 0,
            old(self).compile_natives().len() == 0,
        ensures
            final(self).wf(),
            final(self).ids()@.subrange(0, 2) == seq!["this"@, "String"@],
            final(self).natives().len() == 4,
            final(self).native_row(0, "new"@, NativeId::CreateObject),
            final(self).native_row(1, "BY_Log"@, NativeId::LogPrint),
            final(self).native_row(2, "require"@, NativeId::RequireFile),
            final(self).compile_natives().len() == 2,
            final(self).natives()[3] == (NativeFunction { name_key: 0, addr: NativeId::Sentinel }),
            final(self).compile_natives()[0].addr == CompileFunctionId::RequireFileCompile,
            crate::ids::keyed(final(self).ids()@, final(self).compile_natives()[0].name_key, "require"@),
            final(self).compile_natives()[1] == (CompileNativeFunction { name_key: 0, addr: CompileFunctionId::Sentinel }),
            final(self).ids()@.len() <= old(self).ids()@.len() + 6,
            final(self).ids()@.len() >= 2,
            final(self).has_vm(),
            final(self).info() == old(self).info(),
            final(self).vm_state() == old(self).vm_state(),
            final(self).persistent() == old(self).persistent(),
            final(self).next_handle() == old(self).next_handle(),
            final(self).loaded_exe() == old(self).loaded_exe(),
    {
        self.vm_ready = true;
        proof {
            reveal_strlit("this");
            reveal_strlit("String");
            assert("this"@.len() == 4 && "String"@.len() == 6);
        }
        let _ = self.id_creator.gen_ident_by_str("this");
        assert(self.ids()@ =~= seq!["this"@]);
        let _ = self.id_creator.gen_ident_by_str("String");
        proof {
            assert(self.ids()@ =~= seq!["this"@, "String"@]);
        }
        let ghost two = self.ids()@;
        self.init_native_function();
        self.init_compile_function();
        proof {
            assert(two.is_prefix_of(self.ids()@));
            assert(self.ids()@.subrange(0, 2) =~= seq!["this"@, "String"@]);
        }
    }
}

impl Default for BoyiaRuntime {
    /// A runtime with a fresh VM and empty tables (not initialized; see `create`).
    fn default() -> (r: Self)
        ensures
            r.wf(),
            r.vm_state().entry@.len() == 0,
            r.vm_state().globals@.len() == 0,
            r.ids()@ == Seq::<Seq<char>>::empty(),
            r.natives().len() == 0,
            r.compile_natives().len() == 0,
            !r.has_vm(),
    {
        Self::new()
    }
}

} // verus!

//! The `String` builtin class: its registration (`buffer` and `hash` slots and the methods
//! `length`, `equal`, `indexOf`, `split`, `replace`, `substring`, `trim`) and the natives
//! that run those methods over the VM's values.

use vstd::prelude::*;
use crate::text::{
    bytes_eq, index_of, lemma_split_len, replace_bytes, spec_index_of, spec_replace, spec_split,
    spec_substring, spec_trim, split_bytes, substring_bytes, trim_bytes,
};
use crate::value::{
    blank_value, spec_blank, spec_copy, value_copy, BoyiaClass, BoyiaStr, BoyiaValue, LInt,
    ObjRef, StrRef, ValueType,
};
use crate::vm::{
    create_object_done, chain_props, object_slots, object_used, same_except_objects, spec_function_count,
    spec_method_slot, spec_new_body, spec_str_slot, zero_value, BoyiaVM, FuncBody, NativeId,
    OpHandleResult, BOYIA_VECTOR_GROW_DELTA, BUILTIN_OBJECT_SLOTS, K_BOYIA_ARRAY, K_BOYIA_STRING,
    NUM_FUNC, NUM_FUNC_PARAMS, NUM_GLOBAL_VARS,
};
use crate::ids::{keyed, spec_register, IdCreator};

verus! {

impl BoyiaVM {
    /// Whether String objects can be made: the first global named `String` is a class
    /// whose body points back at it.
    pub open spec fn has_string_class(&self) -> bool {
        &&& self.first_global(K_BOYIA_STRING) >= 0
        &&& {
            let g = self.first_global(K_BOYIA_STRING);
            match self.fun_at(self.globals@[g].obj.ptr) {
                Some(f) => f.func_body == crate::vm::FuncBody::Class(g as usize),
                None => false,
            }
        }
    }

    /// Whether no String object can be made, neither now nor once one more body is added
    /// to the table: no global is named `String`, or the first one names no body within
    /// the table grown by one.
    pub open spec fn strings_missing(&self) -> bool {
        let g = self.first_global(K_BOYIA_STRING);
        g < 0 || match self.globals@[g].obj.ptr {
            ObjRef::Fun(i) => i > self.funs@.len(),
            _ => true,
        }
    }

    /// The text of a value for the String methods: the bytes of a `BY_STRING` value or of
    /// a String object (none when the object has no buffer slot); `None` for other values.
    pub open spec fn spec_text_of(&self, v: Option<BoyiaValue>) -> Option<Seq<u8>> {
        match v {
            None => None,
            Some(v) => if v.value_type == ValueType::BY_STRING {
                Some(self.str_bytes(v.str_val))
            } else if v.value_type == ValueType::BY_CLASS && self.spec_class_id(v) == K_BOYIA_STRING {
                match self.spec_buffer_from_body(v.obj.ptr) {
                    Some(s) => Some(self.str_bytes(s)),
                    None => Some(Seq::empty()),
                }
            } else {
                None
            },
        }
    }

    /// Whether the buffer that a value's object body points at (if any) is in the byte store.
    pub open spec fn owns_buffer(&self, v: BoyiaValue) -> bool {
        match self.spec_buffer_from_body(v.obj.ptr) {
            Some(s) => match s.buf {
                StrRef::Buf(j) => j < self.bytes@.len(),
                StrRef::Null => true,
            },
            None => true,
        }
    }

    /// Whether Array objects can be made: the first global named `Array` has a body.
    pub open spec fn array_ready(&self) -> bool {
        &&& self.first_global(K_BOYIA_ARRAY) >= 0
        &&& self.fun_at(self.globals@[self.first_global(K_BOYIA_ARRAY)].obj.ptr) is Some
    }

    /// The class slots that a new Array object takes.
    pub open spec fn array_props(&self) -> Seq<BoyiaValue> {
        chain_props(self, self.globals@[self.first_global(K_BOYIA_ARRAY)], (self.globals@.len() + 1) as nat)
    }

    /// The number of slots in use in a new Array object (before any element is added).
    pub open spec fn array_start(&self) -> int {
        object_used(self.array_props(), BUILTIN_OBJECT_SLOTS as int)
    }

    /// The text of a value for the String methods.
    pub fn value_to_string(&self, v: Option<BoyiaValue>) -> (r: Option<Vec<u8>>)
        ensures
            match r {
                Some(b) => self.spec_text_of(v) == Some(b@) && b@.len() <= i32::MAX,
                None => self.spec_text_of(v) is None,
            },
    {
        match v {
            None => None,
            Some(v) => if v.value_type == ValueType::BY_STRING {
                Some(self.read_str(v.str_val))
            } else if v.value_type == ValueType::BY_CLASS && self.get_boyia_class_id(&v) == K_BOYIA_STRING {
                match self.get_string_buffer_from_body(v.obj.ptr) {
                    Some(s) => Some(self.read_str(s)),
                    None => Some(Vec::new()),
                }
            } else {
                None
            },
        }
    }

    /// The text of the method's receiver (the last local).
    pub open spec fn spec_this_text(&self) -> Option<Seq<u8>> {
        self.spec_text_of(self.get_local_spec(self.local_size() - 1))
    }

    /// A String value holding `s` (a new object over a new buffer; an empty `s` gets a null
    /// buffer). `None` when String objects cannot be made.
    pub fn string_to_boyia_value(&mut self, s: &[u8]) -> (r: Option<BoyiaValue>)
        requires
            old(self).wf(),
        ensures
            final(self).wf(),
            same_except_objects(final(self), old(self)),
            final(self).reg0 == old(self).reg0,
            forall|j: int| 0 <= j < old(self).funs@.len() ==> #[trigger] final(self).funs@[j] == old(self).funs@[j],
            old(self).funs@.len() <= final(self).funs@.len(),
            forall|j: int| 0 <= j < old(self).bytes@.len() ==> #[trigger] final(self).bytes@[j] == old(self).bytes@[j],
            old(self).bytes@.len() <= final(self).bytes@.len(),
            old(self).has_string_class() ==> r is Some,
            r is Some <==> old(self).can_make_strings(),
            r matches Some(v) ==> {
                &&& v.value_type == ValueType::BY_CLASS
                &&& v.name_key == K_BOYIA_STRING
                &&& v.obj == (BoyiaClass { ptr: ObjRef::Fun(old(self).funs@.len() as usize), sup: ObjRef::Null })
                &&& final(self).funs@.len() == old(self).funs@.len() + 1
                &&& final(self).owns_buffer(v)
                &&& (old(self).has_string_class() && s@.len() <= i32::MAX ==> final(self).spec_text_of(Some(v)) == Some(s@))
            },
    {
        proof {
            crate::vm::lemma_global_from(self.globals@, K_BOYIA_STRING, 0);
        }
        let ghost vm0 = *self;
        if s.len() == 0 {
            let body = match self.create_string_object(StrRef::Null, 0) {
                None => return None,
                Some(b) => b,
            };
            let mut v = blank_value(ValueType::BY_CLASS);
            v.name_key = K_BOYIA_STRING;
            v.obj = BoyiaClass { ptr: ObjRef::Fun(body), sup: ObjRef::Null };
            proof {
                if vm0.has_string_class() {
                    let g = vm0.first_global(K_BOYIA_STRING);
                    assert(self.funs@[body as int].params@[1] == crate::vm::spec_str_slot(StrRef::Null, 0));
                    assert(self.spec_class_id(v) == K_BOYIA_STRING);
                    assert(s@ =~= Seq::<u8>::empty());
                }
            }
            return Some(v);
        }
        let copy = crate::text::slice_to_vec(s, 0, s.len());
        let buf = self.alloc_bytes(copy);
        let len: LInt = s.len() as LInt;
        let mut value = crate::value::int_value(0);
        self.create_native_string(&mut value, buf, len);
        if value.obj.ptr == ObjRef::Null {
            return None;
        }
        value.name_key = K_BOYIA_STRING;
        proof {
            if vm0.has_string_class() && s@.len() <= i32::MAX {
                let me = vm0.funs@.len() as int;
                assert(self.funs@[me].params@[1] == crate::vm::spec_str_slot(buf, len));
                assert(self.spec_class_id(value) == K_BOYIA_STRING);
                assert(self.bytes@[vm0.bytes@.len() as int]@ == s@);
                assert(len as int == s@.len());
                assert(self.bytes@[vm0.bytes@.len() as int]@.subrange(0, len as int) =~= s@);
                assert(self.str_bytes(BoyiaStr { buf, len }) == s@);
                assert(self.spec_buffer_from_body(value.obj.ptr) == Some(BoyiaStr { buf, len }));
            }
        }
        Some(value)
    }
}



/// The names that the String class registers, in order: the class, its two slots, and
/// its methods.
pub open spec fn string_class_names() -> Seq<Seq<char>> {
    seq![
        "String"@, "buffer"@, "hash"@, "length"@, "equal"@, "indexOf"@, "split"@, "replace"@,
        "substring"@, "trim"@,
    ]
}

/// The natives behind the String methods, in the order of their names.
pub open spec fn string_methods() -> Seq<NativeId> {
    seq![
        NativeId::StringLength, NativeId::StringEqual, NativeId::StringIndexOf,
        NativeId::StringSplit, NativeId::StringReplace, NativeId::StringSubstring,
        NativeId::StringTrim,
    ]
}

/// Name and native of String method `m`.
fn string_method(m: usize) -> (r: (&'static str, NativeId))
    requires
        m < 7,
    ensures
        r.0@ == string_class_names()[m + 3],
        r.1 == string_methods()[m as int],
{
    match m {
        0 => ("length", NativeId::StringLength),
        1 => ("equal", NativeId::StringEqual),
        2 => ("indexOf", NativeId::StringIndexOf),
        3 => ("split", NativeId::StringSplit),
        4 => ("replace", NativeId::StringReplace),
        5 => ("substring", NativeId::StringSubstring),
        _ => ("trim", NativeId::StringTrim),
    }
}

/// How many String methods fit when `used` function-table slots are taken before the class
/// is made: at most seven, one native body each.
pub open spec fn methods_fitting(used: usize) -> int {
    let room = NUM_FUNC - used - 1;
    if room < 7 {
        room
    } else {
        7
    }
}

/// Slot `2 + m` of class body `cls` holds String method `m`: a method slot keyed by its
/// name over the native body `cls + 1 + m`.
pub open spec fn string_method_at(vm: &BoyiaVM, ids: Seq<Seq<char>>, cls: int, m: int) -> bool {
    &&& 0 <= m < 7
    &&& cls + 1 + m < vm.funs@.len()
    &&& 2 + m < vm.funs@[cls].params@.len()
    &&& {
        let slot = vm.funs@[cls].params@[2 + m];
        &&& slot == spec_method_slot(slot.name_key, (cls + 1 + m) as usize, cls as usize)
        &&& keyed(ids, slot.name_key, string_class_names()[3 + m])
        &&& spec_new_body(&vm.funs@[cls + 1 + m], 0, FuncBody::Native(string_methods()[m]))
    }
}

/// Register the String class: its name, a global class value over a new body whose first
/// slots are `buffer` (an empty string) and `hash` (0), then one method slot per String
/// native that the function table has room for (see `gen_builtin_class_function`); every
/// name is registered in `ids`. Nothing but the name `String` is registered when the class
/// value cannot be made.
pub fn builtin_string_class(vm: &mut BoyiaVM, ids: &mut IdCreator)
    requires
        old(vm).wf(),
        old(ids).wf(),
        old(ids)@.len() + 10 < usize::MAX,
    ensures
        final(vm).wf(),
        final(ids).wf(),
        ({
            let class_ok = old(vm).globals@.len() < NUM_GLOBAL_VARS && old(vm).fun_table_size < NUM_FUNC;
            if !class_ok {
                &&& *final(vm) == *old(vm)
                &&& final(ids)@ == spec_register(old(ids)@, seq!["String"@])
            } else {
                let g = old(vm).globals@.len() as int;
                let fi = old(vm).funs@.len() as int;
                let nm = methods_fitting(old(vm).fun_table_size);
                let cv = final(vm).globals@[g];
                let f = final(vm).funs@[fi];
                &&& final(ids)@ == spec_register(old(ids)@, string_class_names())
                &&& final(vm).globals@.len() == g + 1
                &&& final(vm).globals@.subrange(0, g) == old(vm).globals@
                &&& cv == (BoyiaValue {
                    name_key: cv.name_key,
                    value_type: ValueType::BY_CLASS,
                    obj: BoyiaClass { ptr: ObjRef::Fun(fi as usize), sup: ObjRef::Null },
                    ..zero_value()
                })
                &&& keyed(final(ids)@, cv.name_key, "String"@)
                &&& final(vm).funs@.len() == fi + 1 + nm
                &&& forall|j: int| 0 <= j < fi ==> #[trigger] final(vm).funs@[j] == old(vm).funs@[j]
                &&& f.params@.len() == NUM_FUNC_PARAMS
                &&& f.param_size == 2 + nm
                &&& f.param_count == NUM_FUNC_PARAMS
                &&& f.func_body == FuncBody::Class(g as usize)
                &&& f.capture_count == 0
                &&& f.params@[0] == (BoyiaValue { name_key: f.params@[0].name_key, ..spec_str_slot(StrRef::Null, 0) })
                &&& keyed(final(ids)@, f.params@[0].name_key, "buffer"@)
                &&& f.params@[1] == (BoyiaValue { name_key: f.params@[1].name_key, ..spec_blank(ValueType::BY_INT) })
                &&& keyed(final(ids)@, f.params@[1].name_key, "hash"@)
                &&& forall|m: int| 0 <= m < nm ==> #[trigger] string_method_at(final(vm), final(ids)@, fi, m)
                &&& forall|j: int| 2 + nm <= j < NUM_FUNC_PARAMS ==> #[trigger] f.params@[j] == zero_value()
                &&& final(vm).fun_table_size == old(vm).fun_table_size + 1 + nm
                &&& *final(vm) == (BoyiaVM {
                    globals: final(vm).globals,
                    funs: final(vm).funs,
                    fun_table_size: final(vm).fun_table_size,
                    ..*old(vm)
                })
            }
        }),
{
    let ghost vm0 = *vm;
    let ghost ids0 = ids@;
    let string_key = ids.gen_ident_by_str("String");
    let ghost ids1 = ids@;
    proof {
        assert(seq!["String"@].drop_last() =~= Seq::<Seq<char>>::empty());
        assert(spec_register(ids0, Seq::<Seq<char>>::empty()) == ids0);
        assert(spec_register(ids0, seq!["String"@]) == ids1);
        assert(string_class_names().take(1) =~= seq!["String"@]);
    }
    let g = match vm.create_global_class(string_key) {
        None => return,
        Some(g) => g,
    };
    let fi = vm.funs.len() - 1;
    let buffer_key = ids.gen_ident_by_str("buffer");
    let ghost ids2 = ids@;
    let mut buf_slot = blank_value(ValueType::BY_STRING);
    buf_slot.name_key = buffer_key;
    vm.push_param(fi, &buf_slot);
    let hash_key = ids.gen_ident_by_str("hash");
    let mut hash_slot = blank_value(ValueType::BY_INT);
    hash_slot.name_key = hash_key;
    vm.push_param(fi, &hash_slot);
    proof {
        assert(string_class_names().take(2).drop_last() =~= string_class_names().take(1));
        assert(string_class_names().take(3).drop_last() =~= string_class_names().take(2));
        assert(spec_register(ids0, string_class_names().take(1)) == ids1);
        assert(spec_register(ids0, string_class_names().take(2)) == ids2);
        assert(spec_register(ids0, string_class_names().take(3)) == ids@);
        assert(ids1.is_prefix_of(ids2));
        assert(ids2.is_prefix_of(ids@));
    }
    let ghost room = NUM_FUNC - vm0.fun_table_size - 1;
    let mut m: usize = 0;
    let mut added: usize = 0;
    while m < 7
        invariant
            vm.wf(),
            ids.wf(),
            ids@.len() <= ids0.len() + 3 + m,
            ids0.len() + 10 < usize::MAX,
            m <= 7,
            room == NUM_FUNC - vm0.fun_table_size - 1,
            0 <= room,
            added == (if m <= room { m as int } else { room }),
            ids@ == spec_register(ids0, string_class_names().take(3 + m)),
            fi == vm0.funs@.len(),
            g == vm0.globals@.len(),
            vm.funs@.len() == fi + 1 + added,
            vm.fun_table_size == vm0.fun_table_size + 1 + added,
            forall|j: int| 0 <= j < fi ==> #[trigger] vm.funs@[j] == vm0.funs@[j],
            vm.globals@ == vm0.globals@.push(BoyiaValue {
                name_key: string_key,
                value_type: ValueType::BY_CLASS,
                obj: BoyiaClass { ptr: ObjRef::Fun(fi), sup: ObjRef::Null },
                ..zero_value()
            }),
            keyed(ids@, string_key, "String"@),
            keyed(ids@, buffer_key, "buffer"@),
            keyed(ids@, hash_key, "hash"@),
            vm.funs@[fi as int].params@.len() == NUM_FUNC_PARAMS,
            vm.funs@[fi as int].param_size == 2 + added,
            vm.funs@[fi as int].param_count == NUM_FUNC_PARAMS,
            vm.funs@[fi as int].func_body == FuncBody::Class(g),
            vm.funs@[fi as int].capture_count == 0,
            vm.funs@[fi as int].params@[0] == buf_slot,
            vm.funs@[fi as int].params@[1] == hash_slot,
            buf_slot == (BoyiaValue { name_key: buffer_key, ..spec_str_slot(StrRef::Null, 0) }),
            hash_slot == (BoyiaValue { name_key: hash_key, ..spec_blank(ValueType::BY_INT) }),
            forall|k: int| 0 <= k < added ==> #[trigger] string_method_at(vm, ids@, fi as int, k),
            forall|j: int| 2 + added <= j < NUM_FUNC_PARAMS ==> #[trigger] vm.funs@[fi as int].params@[j] == zero_value(),
            *vm == (BoyiaVM { globals: vm.globals, funs: vm.funs, fun_table_size: vm.fun_table_size, ..vm0 }),
        decreases 7 - m,
    {
        let (name, native) = string_method(m);
        let ghost ids_before = ids@;
        let ghost vm_before = *vm;
        let key = ids.gen_ident_by_str(name);
        let ok = vm.gen_builtin_class_function(key, native, fi);
        proof {
            assert(ids_before.is_prefix_of(ids@));
            assert(string_class_names().take(4 + m as int).drop_last() =~= string_class_names().take(3 + m as int));
            assert(string_class_names().take(4 + m as int).last() == string_class_names()[3 + m as int]);
            assert forall|k: int| 0 <= k < added implies #[trigger] string_method_at(vm, ids@, fi as int, k) by {
                assert(string_method_at(&vm_before, ids_before, fi as int, k));
                assert(vm.funs@[fi as int].params@[2 + k] == vm_before.funs@[fi as int].params@[2 + k]);
                assert(vm.funs@[fi + 1 + k] == vm_before.funs@[fi + 1 + k]);
            }
            if ok {
                assert(string_method_at(vm, ids@, fi as int, added as int));
            }
        }
        if ok {
            added = added + 1;
        }
        m = m + 1;
    }
    proof {
        assert(string_class_names().take(10) =~= string_class_names());
        assert(vm.globals@.subrange(0, g as int) =~= vm0.globals@);
    }
}

/// Global `g` is the String class as `builtin_string_class` builds it with room for every
/// method: a class over a body whose slots are `buffer` (an empty string), `hash` (0) and
/// the seven String methods, the rest zero.
pub open spec fn string_class_built(vm: &BoyiaVM, ids: Seq<Seq<char>>, g: int) -> bool {
    &&& 0 <= g < vm.globals@.len()
    &&& vm.globals@[g].value_type == ValueType::BY_CLASS
    &&& keyed(ids, vm.globals@[g].name_key, "String"@)
    &&& vm.globals@[g].obj.ptr matches ObjRef::Fun(fi) && fi < vm.funs@.len() && {
        let f = vm.funs@[fi as int];
        &&& f.params@.len() == NUM_FUNC_PARAMS
        &&& f.param_size == 9
        &&& f.param_count == NUM_FUNC_PARAMS
        &&& f.func_body == FuncBody::Class(g as usize)
        &&& f.params@[0] == (BoyiaValue { name_key: f.params@[0].name_key, ..spec_str_slot(StrRef::Null, 0) })
        &&& keyed(ids, f.params@[0].name_key, "buffer"@)
        &&& f.params@[1] == (BoyiaValue { name_key: f.params@[1].name_key, ..spec_blank(ValueType::BY_INT) })
        &&& keyed(ids, f.params@[1].name_key, "hash"@)
        &&& forall|m: int| 0 <= m < 7 ==> #[trigger] string_method_at(vm, ids, fi as int, m)
        &&& forall|j: int| 9 <= j < NUM_FUNC_PARAMS ==> #[trigger] f.params@[j] == zero_value()
    }
}

/// The String class stays as built while its global, the bodies that existed and the
/// names already registered stay.
pub proof fn lemma_string_class_built_kept(a: &BoyiaVM, b: &BoyiaVM, ia: Seq<Seq<char>>, ib: Seq<Seq<char>>, g: int)
    requires
        string_class_built(a, ia, g),
        g < b.globals@.len(),
        b.globals@[g] == a.globals@[g],
        a.funs@.len() <= b.funs@.len(),
        forall|j: int| 0 <= j < a.funs@.len() ==> #[trigger] b.funs@[j] == a.funs@[j],
        ia.is_prefix_of(ib),
    ensures
        string_class_built(b, ib, g),
{
    match a.globals@[g].obj.ptr {
        ObjRef::Fun(fi) => {
            assert(b.funs@[fi as int] == a.funs@[fi as int]);
            let f = a.funs@[fi as int];
            assert(ib[a.globals@[g].name_key - 1] == ia[a.globals@[g].name_key - 1]);
            assert(ib[f.params@[0].name_key - 1] == ia[f.params@[0].name_key - 1]);
            assert(ib[f.params@[1].name_key - 1] == ia[f.params@[1].name_key - 1]);
            assert forall|m: int| 0 <= m < 7 implies #[trigger] string_method_at(b, ib, fi as int, m) by {
                assert(string_method_at(a, ia, fi as int, m));
                let k = f.params@[2 + m].name_key;
                assert(ib[k - 1] == ia[k - 1]);
                assert(b.funs@[fi + 1 + m] == a.funs@[fi + 1 + m]);
            }
        },
        _ => {},
    }
}

/// Whether two optional string payloads hold the same bytes (both absent counts as equal).
pub open spec fn spec_str_eq(vm: &BoyiaVM, a: Option<BoyiaStr>, b: Option<BoyiaStr>) -> bool {
    match (a, b) {
        (Some(x), Some(y)) => x.len == y.len && (x.buf == y.buf || vm.str_bytes(x) == vm.str_bytes(y)),
        (None, None) => true,
        _ => false,
    }
}

/// `equal` is symmetric: the receiver and the argument can change places.
pub proof fn lemma_string_equal_symmetric(vm: &BoyiaVM, x: Option<BoyiaValue>, y: Option<BoyiaValue>)
    ensures
        (opt_hash(vm, x) == opt_hash(vm, y) && spec_str_eq(vm, opt_buffer(vm, x), opt_buffer(vm, y)))
            == (opt_hash(vm, y) == opt_hash(vm, x) && spec_str_eq(vm, opt_buffer(vm, y), opt_buffer(vm, x))),
{
}

/// Every String object is equal to itself.
pub proof fn lemma_string_equal_reflexive(vm: &BoyiaVM, x: Option<BoyiaValue>)
    ensures
        opt_hash(vm, x) == opt_hash(vm, x) && spec_str_eq(vm, opt_buffer(vm, x), opt_buffer(vm, x)),
{
}

/// The string payload of an optional value.
pub open spec fn opt_buffer(vm: &BoyiaVM, v: Option<BoyiaValue>) -> Option<BoyiaStr> {
    match v {
        Some(v) => vm.spec_string_buffer(v),
        None => None,
    }
}

/// The stored hash of an optional value's object, or 0.
pub open spec fn opt_hash(vm: &BoyiaVM, v: Option<BoyiaValue>) -> isize {
    match v {
        Some(v) => vm.spec_string_hash(v),
        None => 0,
    }
}

/// The integer argument at local `idx`, made non-negative.
pub open spec fn nonneg_arg(v: BoyiaValue) -> int {
    if v.int_val < 0 { 0 } else { v.int_val as int }
}


/// The value that an Array result carries: a class value over body `me`.
pub open spec fn spec_array_value(me: usize) -> BoyiaValue {
    BoyiaValue {
        name_key: K_BOYIA_ARRAY,
        obj: BoyiaClass { ptr: ObjRef::Fun(me), sup: ObjRef::Null },
        ..spec_blank(ValueType::BY_CLASS)
    }
}

/// Slot `p` of body `arr` holds element `p - start` of an array being filled: a String
/// object made after the array's body, over a buffer of the store, whose text is
/// `parts[p - start]` when the String class is in place (`strings`).
pub open spec fn holds_element(vm: &BoyiaVM, arr: usize, start: int, p: int, parts: Seq<Seq<u8>>, strings: bool) -> bool {
    &&& arr < vm.funs@.len()
    &&& 0 <= p < vm.funs@[arr as int].params@.len()
    &&& {
        let e = vm.funs@[arr as int].params@[p];
        &&& e.value_type == ValueType::BY_CLASS
        &&& (e.obj.ptr matches ObjRef::Fun(b) && arr < b < vm.funs@.len())
        &&& vm.owns_buffer(e)
        &&& (strings ==> vm.spec_text_of(Some(e)) == Some(parts[p - start]))
    }
}

/// An element slot stays what it was while the globals, the other bodies, the array's
/// slots below `limit` and the existing buffers stay.
pub proof fn lemma_element_kept(a: &BoyiaVM, b: &BoyiaVM, arr: usize, start: int, p: int, parts: Seq<Seq<u8>>, strings: bool, limit: int)
    requires
        holds_element(a, arr, start, p, parts, strings),
        p < limit,
        a.globals == b.globals,
        a.funs@.len() <= b.funs@.len(),
        forall|j: int| 0 <= j < a.funs@.len() && j != arr ==> #[trigger] b.funs@[j] == a.funs@[j],
        limit <= a.funs@[arr as int].params@.len(),
        limit <= b.funs@[arr as int].params@.len(),
        b.funs@[arr as int].params@.subrange(0, limit) == a.funs@[arr as int].params@.subrange(0, limit),
        a.bytes@.len() <= b.bytes@.len(),
        forall|j: int| 0 <= j < a.bytes@.len() ==> #[trigger] b.bytes@[j] == a.bytes@[j],
    ensures
        holds_element(b, arr, start, p, parts, strings),
{
    let e = a.funs@[arr as int].params@[p];
    assert(b.funs@[arr as int].params@[p] == a.funs@[arr as int].params@.subrange(0, limit)[p]);
    match e.obj.ptr {
        ObjRef::Fun(i) => {
            assert(b.funs@[i as int] == a.funs@[i as int]);
            lemma_text_frame(a, b, e);
        },
        _ => {},
    }
}

/// The String class stays in place while the globals and the existing bodies stay.
pub proof fn lemma_string_class_kept(a: &BoyiaVM, b: &BoyiaVM)
    requires
        a.globals == b.globals,
        a.funs@.len() <= b.funs@.len(),
        forall|j: int| 0 <= j < a.funs@.len() ==> #[trigger] b.funs@[j] == a.funs@[j],
    ensures
        a.has_string_class() ==> b.has_string_class(),
{
    if a.has_string_class() {
        let g = a.first_global(K_BOYIA_STRING);
        match a.globals@[g].obj.ptr {
            ObjRef::Fun(i) => {
                assert(b.funs@[i as int] == a.funs@[i as int]);
            },
            _ => {},
        }
    }
}

/// `length()`: the receiver's byte length (0 when it has no string payload).
pub open spec fn length_done(pre: &BoyiaVM, post: &BoyiaVM, r: OpHandleResult) -> bool {
    &&& r == OpHandleResult::kOpResultSuccess
    &&& post.reg0.value_type == ValueType::BY_INT
    &&& post.reg0.int_val == match opt_buffer(pre, pre.get_local_spec(pre.local_size() - 1)) {
        Some(b) => b.len,
        None => 0,
    }
    &&& same_except_objects(post, pre)
    &&& post.funs == pre.funs
    &&& post.bytes == pre.bytes
}

/// `equal(other)`: 1 when the receiver and local 1 have equal stored hashes and equal
/// bytes, else 0.
pub open spec fn equal_done(pre: &BoyiaVM, post: &BoyiaVM, r: OpHandleResult) -> bool {
    &&& r == OpHandleResult::kOpResultSuccess
    &&& post.reg0.value_type == ValueType::BY_INT
    &&& ({
        let this = pre.get_local_spec(pre.local_size() - 1);
        let other = pre.get_local_spec(1);
        post.reg0.int_val == if opt_hash(pre, this) == opt_hash(pre, other)
            && spec_str_eq(pre, opt_buffer(pre, this), opt_buffer(pre, other)) {
            1int
        } else {
            0int
        }
    })
    &&& same_except_objects(post, pre)
    &&& post.funs == pre.funs
    &&& post.bytes == pre.bytes
}

/// `indexOf(needle[, from])`: the first byte position at or after `from` (local 2 when
/// given, that is when the frame holds callee, needle, start and receiver; made
/// non-negative; else 0) where the needle's text occurs in the receiver's
/// text, or -1. `kOpResultEnd` when either is not a string.
pub open spec fn index_of_done(pre: &BoyiaVM, post: &BoyiaVM, r: OpHandleResult) -> bool {
    &&& same_except_objects(post, pre)
    &&& post.funs == pre.funs
    &&& post.bytes == pre.bytes
    &&& ({
        let hay = pre.spec_this_text();
        let needle = pre.spec_text_of(pre.get_local_spec(1));
        let from: int = if pre.local_size() > 3 {
            match pre.get_local_spec(2) {
                Some(v) => nonneg_arg(v),
                None => 0,
            }
        } else {
            0
        };
        if hay is None || needle is None {
            r == OpHandleResult::kOpResultEnd && post.reg0 == pre.reg0
        } else {
            let i = spec_index_of(hay.unwrap(), needle.unwrap(), from);
            &&& r == OpHandleResult::kOpResultSuccess
            &&& post.reg0.value_type == ValueType::BY_INT
            &&& post.reg0.int_val == (if i < 0 { -1 } else { i as i32 as int })
        }
    })
}

/// `split(delim)`: an Array object (`copy_object` of the Array class with
/// `BUILTIN_OBJECT_SLOTS` slots) whose elements, appended after the slots that the class
/// gives, are String objects holding the pieces of the receiver's text (see `spec_split`);
/// a full array grows by `BOYIA_VECTOR_GROW_DELTA` slots. `kOpResultEnd` when an operand
/// is not a string, no Array object can be made, a piece cannot be made into a String
/// (always so when there are pieces and `strings_missing`), or the array cannot grow (its
/// 16-bit slot count would wrap, or the pool is exhausted); the result register is then
/// unchanged.
pub open spec fn split_done(pre: &BoyiaVM, post: &BoyiaVM, r: OpHandleResult) -> bool {
    &&& same_except_objects(post, pre)
    &&& ({
        let hay = pre.spec_this_text();
        let delim = pre.spec_text_of(pre.get_local_spec(1));
        if hay is None || delim is None {
            r == OpHandleResult::kOpResultEnd && *post == *pre
        } else {
            let parts = spec_split(hay.unwrap(), delim.unwrap());
            let start = pre.array_start();
            let me = pre.funs@.len() as int;
            &&& (r == OpHandleResult::kOpResultSuccess || r == OpHandleResult::kOpResultEnd)
            &&& (pre.array_ready() && (parts.len() == 0 || pre.has_string_class())
                && start + parts.len() + BOYIA_VECTOR_GROW_DELTA <= 0xFFFF ==> r == OpHandleResult::kOpResultSuccess)
            &&& (parts.len() > 0 && pre.strings_missing() ==> r == OpHandleResult::kOpResultEnd)
            &&& (r == OpHandleResult::kOpResultEnd ==> post.reg0 == pre.reg0)
            &&& (r == OpHandleResult::kOpResultSuccess ==> {
                let f = post.funs@[me];
                &&& pre.array_ready()
                &&& me < post.funs@.len()
                &&& post.reg0 == spec_copy(pre.reg0, spec_array_value(me as usize))
                &&& forall|j: int| 0 <= j < me ==> #[trigger] post.funs@[j] == pre.funs@[j]
                &&& f.param_size == start + parts.len()
                &&& start + parts.len() <= f.params@.len()
                &&& f.params@.subrange(0, start) == object_slots(pre.array_props(), BUILTIN_OBJECT_SLOTS as int, me as usize).subrange(0, start)
                &&& forall|k: int| 0 <= k < parts.len() ==> {
                    let e = #[trigger] f.params@[start + k];
                    &&& e.value_type == ValueType::BY_CLASS
                    &&& e.name_key == K_BOYIA_STRING
                    &&& (pre.has_string_class() ==> post.spec_text_of(Some(e)) == Some(parts[k]))
                }
            })
        }
    })
}

/// The result code of a native that writes a String result: `kOpResultSuccess` when String
/// objects can be made, else `kOpResultEnd` with the result register unchanged.
pub open spec fn string_result_code(pre: &BoyiaVM, post: &BoyiaVM, r: OpHandleResult) -> bool {
    if pre.can_make_strings() {
        r == OpHandleResult::kOpResultSuccess
    } else {
        r == OpHandleResult::kOpResultEnd && post.reg0 == pre.reg0
    }
}

/// `replace(search, replacement)`: the receiver's text with every occurrence of the
/// search text replaced. `kOpResultEnd` when an operand is not a string, or when String
/// objects cannot be made.
pub open spec fn replace_done(pre: &BoyiaVM, post: &BoyiaVM, r: OpHandleResult) -> bool {
    &&& same_except_objects(post, pre)
    &&& ({
        let hay = pre.spec_this_text();
        let pat = pre.spec_text_of(pre.get_local_spec(1));
        let rep = pre.spec_text_of(pre.get_local_spec(2));
        if hay is None || pat is None || rep is None {
            r == OpHandleResult::kOpResultEnd && *post == *pre
        } else {
            &&& string_result_code(pre, post, r)
            &&& pre.has_string_class() ==> post.text_result(
                spec_replace(hay.unwrap(), pat.unwrap(), rep.unwrap()),
            )
        }
    })
}

/// `substring(start[, end])`: the receiver's bytes between `start` (local 1) and `end`
/// (local 2 when given, that is when the frame holds callee, start, end and receiver; else
/// the length), both made non-negative and clamped to the
/// length, swapped when `start > end`. `kOpResultEnd` when the receiver is not a string,
/// `start` is missing, or String objects cannot be made.
pub open spec fn substring_done(pre: &BoyiaVM, post: &BoyiaVM, r: OpHandleResult) -> bool {
    &&& same_except_objects(post, pre)
    &&& ({
        let hay = pre.spec_this_text();
        let sv = pre.get_local_spec(1);
        if hay is None || sv is None {
            r == OpHandleResult::kOpResultEnd && *post == *pre
        } else {
            let h = hay.unwrap();
            let end: int = if pre.local_size() > 3 {
                match pre.get_local_spec(2) {
                    Some(v) => nonneg_arg(v),
                    None => h.len() as int,
                }
            } else {
                h.len() as int
            };
            &&& string_result_code(pre, post, r)
            &&& pre.has_string_class() ==> post.text_result(
                spec_substring(h, nonneg_arg(sv.unwrap()), end),
            )
        }
    })
}

/// `trim()`: the receiver's text without leading and trailing ASCII whitespace.
/// `kOpResultEnd` when the receiver is not a string, or when String objects cannot be made.
pub open spec fn trim_done(pre: &BoyiaVM, post: &BoyiaVM, r: OpHandleResult) -> bool {
    &&& same_except_objects(post, pre)
    &&& match pre.spec_this_text() {
        None => r == OpHandleResult::kOpResultEnd && *post == *pre,
        Some(h) => {
            &&& string_result_code(pre, post, r)
            &&& pre.has_string_class() ==> post.text_result(spec_trim(h))
        },
    }
}

impl BoyiaVM {
    /// Whether the text result `t` was written: the result register is a String value
    /// holding `t` (when it fits the VM's length type).
    pub open spec fn text_result(&self, t: Seq<u8>) -> bool {
        &&& self.reg0.value_type == ValueType::BY_CLASS
        &&& self.reg0.name_key == K_BOYIA_STRING
        &&& (t.len() <= i32::MAX ==> self.spec_text_of(Some(self.reg0)) == Some(t))
    }

    /// Write a String value holding `s` into the result register; `kOpResultEnd`, with the
    /// result register unchanged, when String objects cannot be made.
    pub fn set_string_result(&mut self, s: &[u8]) -> (r: OpHandleResult)
        requires
            old(self).wf(),
        ensures
            final(self).wf(),
            same_except_objects(final(self), old(self)),
            old(self).has_string_class() ==> final(self).text_result(s@),
            if old(self).can_make_strings() {
                r == OpHandleResult::kOpResultSuccess
            } else {
                r == OpHandleResult::kOpResultEnd && final(self).reg0 == old(self).reg0
            },
    {
        let ghost vm0 = *self;
        match self.string_to_boyia_value(s) {
            Some(v) => {
                let ghost vm1 = *self;
                self.set_native_result(&v);
                proof {
                    if vm0.has_string_class() && s@.len() <= i32::MAX {
                        assert(self.spec_class_id(self.reg0) == vm1.spec_class_id(v));
                        assert(self.spec_text_of(Some(self.reg0)) == vm1.spec_text_of(Some(v)));
                    }
                }
                OpHandleResult::kOpResultSuccess
            },
            None => OpHandleResult::kOpResultEnd,
        }
    }

    /// `length()`: the receiver's byte length (0 when it has no string payload).
    pub fn string_length_impl(&mut self) -> (r: OpHandleResult)
        requires
            old(self).wf(),
        ensures
            final(self).wf(),
            length_done(old(self), final(self), r),
    {
        let size = self.get_local_size();
        let obj = self.get_local_value(size - 1);
        let len = match obj {
            Some(v) => match self.get_string_buffer(&v) {
                Some(b) => b.len,
                None => 0,
            },
            None => 0,
        };
        self.set_int_result(len)
    }

    /// `equal(other)`: 1 when the receiver and local 1 have equal stored hashes and equal
    /// bytes, else 0.
    pub fn string_equal_impl(&mut self) -> (r: OpHandleResult)
        requires
            old(self).wf(),
        ensures
            final(self).wf(),
            equal_done(old(self), final(self), r),
    {
        let size = self.get_local_size();
        let obj = self.get_local_value(size - 1);
        let cmp_val = self.get_local_value(1);
        let a = match obj {
            Some(v) => self.get_string_buffer(&v),
            None => None,
        };
        let b = match cmp_val {
            Some(v) => self.get_string_buffer(&v),
            None => None,
        };
        let ha = match obj {
            Some(v) => self.get_string_hash(&v),
            None => 0,
        };
        let hb = match cmp_val {
            Some(v) => self.get_string_hash(&v),
            None => 0,
        };
        let same = match (a, b) {
            (Some(x), Some(y)) => {
                if x.len != y.len {
                    false
                } else if x.buf == y.buf {
                    true
                } else {
                    let xb = self.read_str(x);
                    let yb = self.read_str(y);
                    bytes_eq(xb.as_slice(), yb.as_slice())
                }
            },
            (None, None) => true,
            _ => false,
        };
        let eq = ha == hb && same;
        self.set_int_result(if eq { 1 } else { 0 })
    }

    /// `indexOf(needle[, from])`: the first byte position at or after `from` (local 2 when
    /// given, that is when the frame holds callee, needle, start and receiver; made
    /// non-negative; else 0) where the needle's text occurs in the receiver's
    /// text, or -1. `kOpResultEnd` when either is not a string.
    pub fn string_index_of_impl(&mut self) -> (r: OpHandleResult)
        requires
            old(self).wf(),
        ensures
            final(self).wf(),
            index_of_done(old(self), final(self), r),
    {
        let size = self.get_local_size();
        let hay = match self.value_to_string(self.get_local_value(size - 1)) {
            None => return OpHandleResult::kOpResultEnd,
            Some(h) => h,
        };
        let needle = match self.value_to_string(self.get_local_value(1)) {
            None => return OpHandleResult::kOpResultEnd,
            Some(n) => n,
        };
        let from: usize = if size > 3 {
            match self.get_local_value(2) {
                None => 0,
                Some(v) => if v.int_val < 0 {
                    0
                } else {
                    v.int_val as usize
                },
            }
        } else {
            0
        };
        let out: LInt = match index_of(hay.as_slice(), needle.as_slice(), from) {
            Some(i) => i as LInt,
            None => -1,
        };
        self.set_int_result(out)
    }

    /// `split(delim)`: an Array object (`copy_object` of the Array class with
    /// `BUILTIN_OBJECT_SLOTS` slots) whose elements, appended after the slots that the class
    /// gives, are String objects holding the pieces of the receiver's text (see `spec_split`);
    /// a full array grows by `BOYIA_VECTOR_GROW_DELTA` slots. `kOpResultEnd` when an operand
    /// is not a string, no Array object can be made, a piece cannot be made into a String,
    /// or the array cannot grow (its 16-bit slot count would wrap, or the pool is exhausted).
    pub fn string_split_impl(&mut self) -> (r: OpHandleResult)
        requires
            old(self).wf(),
        ensures
            final(self).wf(),
            split_done(old(self), final(self), r),
    {
        let ghost vm0 = *self;
        let size = self.get_local_size();
        let hay = match self.value_to_string(self.get_local_value(size - 1)) {
            None => return OpHandleResult::kOpResultEnd,
            Some(h) => h,
        };
        let delim = match self.value_to_string(self.get_local_value(1)) {
            None => return OpHandleResult::kOpResultEnd,
            Some(d) => d,
        };
        let parts = split_bytes(hay.as_slice(), delim.as_slice());
        let ghost pv = spec_split(hay@, delim@);
        proof {
            lemma_split_len(hay@, delim@);
            assert forall|i: int| 0 <= i < parts@.len() implies #[trigger] parts@[i]@ == pv[i] by {
                assert(parts@.map_values(|v: Vec<u8>| v@)[i] == parts@[i]@);
            }
        }
        let arr = match self.copy_object(K_BOYIA_ARRAY, BUILTIN_OBJECT_SLOTS) {
            None => return OpHandleResult::kOpResultEnd,
            Some(a) => a,
        };
        let ghost start = vm0.array_start();
        let ghost strings = vm0.has_string_class();
        let ghost ok = vm0.array_ready() && (pv.len() == 0 || strings) && start + pv.len() + BOYIA_VECTOR_GROW_DELTA <= 0xFFFF;
        let ghost init = object_slots(vm0.array_props(), BUILTIN_OBJECT_SLOTS as int, arr);
        proof {
            let f = self.funs@[arr as int];
            assert(f.params@ == init);
            assert(f.param_count == 32);
            let pc = f.param_count;
            assert(pc & 0xFFFF == 32) by (bit_vector)
                requires
                    pc == 32;
            assert(self.funs@[arr as int].params@.subrange(0, start) == init.subrange(0, start));
        }
        let mut k: usize = 0;
        while k < parts.len()
            invariant
                *old(self) == vm0,
                vm0.spec_this_text() == Some(hay@),
                vm0.spec_text_of(vm0.get_local_spec(1)) == Some(delim@),
                pv == spec_split(hay@, delim@),
                start == vm0.array_start(),
                init == object_slots(vm0.array_props(), BUILTIN_OBJECT_SLOTS as int, arr),
                self.wf(),
                same_except_objects(self, &vm0),
                self.reg0 == vm0.reg0,
                arr == vm0.funs@.len(),
                arr < self.funs@.len(),
                forall|j: int| 0 <= j < arr ==> #[trigger] self.funs@[j] == vm0.funs@[j],
                vm0.bytes@.len() <= self.bytes@.len(),
                k <= parts@.len(),
                pv.len() == parts@.len(),
                forall|i: int| 0 <= i < parts@.len() ==> #[trigger] parts@[i]@ == pv[i],
                forall|i: int| 0 <= i < pv.len() ==> #[trigger] pv[i].len() <= hay@.len(),
                hay@.len() <= i32::MAX,
                strings == vm0.has_string_class(),
                ok == (vm0.array_ready() && (pv.len() == 0 || strings) && start + pv.len() + BOYIA_VECTOR_GROW_DELTA <= 0xFFFF),
                vm0.array_ready(),
                0 <= start <= 32,
                self.funs@[arr as int].param_size == start + k,
                vm0.strings_missing() ==> k == 0,
                k == 0 ==> self.funs@.len() == arr + 1,
                start + k <= self.funs@[arr as int].params@.len() <= 196608,
                self.funs@[arr as int].params@.subrange(0, start) == init.subrange(0, start),
                init.len() == 32,
                forall|p: int| start <= p < start + k ==> #[trigger] holds_element(self, arr, start, p, pv, strings),
                forall|p: int| start <= p < start + k ==> (#[trigger] self.funs@[arr as int].params@[p]).name_key == K_BOYIA_STRING,
                ok ==> {
                    &&& spec_function_count(&self.funs@[arr as int]) == self.funs@[arr as int].params@.len()
                    &&& 0 <= self.funs@[arr as int].param_count <= 0xFFFF
                },
            decreases parts@.len() - k,
        {
            let ghost s0 = *self;
            proof {
                lemma_string_class_kept(&vm0, self);
            }
            let elem = match self.string_to_boyia_value(parts[k].as_slice()) {
                None => return OpHandleResult::kOpResultEnd,
                Some(e) => e,
            };
            proof {
                if k == 0 {
                    assert(s0.globals@ == vm0.globals@);
                    assert(s0.first_global(K_BOYIA_STRING) == vm0.first_global(K_BOYIA_STRING));
                }
            }
            let ghost s1 = *self;
            let ps = self.funs[arr].param_size;
            let cap = self.get_function_count(ObjRef::Fun(arr));
            if ps >= cap {
                if ps > cap {
                    return OpHandleResult::kOpResultEnd;
                }
                let grown = self.vector_params_grow_if_full(ObjRef::Fun(arr));
                if !grown {
                    return OpHandleResult::kOpResultEnd;
                }
                proof {
                    let f = s1.funs@[arr as int];
                    if ok {
                        let nc: i32 = (cap + BOYIA_VECTOR_GROW_DELTA) as i32;
                        let pc = f.param_count;
                        assert(((pc & !0xFFFFi32) | (nc & 0xFFFF)) == nc && (nc & 0xFFFF) == nc) by (bit_vector)
                            requires
                                0 <= pc <= 0xFFFF,
                                0 <= nc <= 0xFFFF;
                    }
                }
            }
            if ps as usize >= self.funs[arr].params.len() {
                return OpHandleResult::kOpResultEnd;
            }
            let ghost s2 = *self;
            let mut slot = self.funs[arr].params[ps as usize];
            value_copy(&mut slot, &elem);
            self.push_param(arr, &slot);
            proof {
                let lim = start + k;
                assert(self.funs@[arr as int].params@.subrange(0, lim) =~= s0.funs@[arr as int].params@.subrange(0, lim)) by {
                    assert(s1.funs@[arr as int] == s0.funs@[arr as int]);
                    assert(s2.funs@[arr as int].params@.subrange(0, lim) =~= s1.funs@[arr as int].params@.subrange(0, lim));
                }
                assert forall|j: int| 0 <= j < s0.funs@.len() && j != arr implies #[trigger] self.funs@[j] == s0.funs@[j] by {
                    assert(s1.funs@[j] == s0.funs@[j]);
                    assert(s2.funs@[j] == s1.funs@[j]);
                }
                assert forall|p: int| start <= p < start + k implies #[trigger] holds_element(self, arr, start, p, pv, strings) by {
                    lemma_element_kept(&s0, self, arr, start, p, pv, strings, lim);
                }
                assert(self.funs@[arr as int].params@.subrange(0, start) =~= s0.funs@[arr as int].params@.subrange(0, start));
                let e = self.funs@[arr as int].params@[lim];
                assert(e == spec_copy(s2.funs@[arr as int].params@[lim], elem));
                lemma_string_class_kept(&vm0, &s0);
                if strings {
                    assert(s1.spec_text_of(Some(elem)) == Some(pv[k as int]));
                }
                lemma_text_frame(&s1, self, elem);
                assert(self.spec_text_of(Some(e)) == self.spec_text_of(Some(elem)));
                assert(self.owns_buffer(e) == self.owns_buffer(elem));
                assert(holds_element(self, arr, start, lim, pv, strings));
                assert forall|p: int| start <= p < start + k + 1 implies (#[trigger] self.funs@[arr as int].params@[p]).name_key == K_BOYIA_STRING by {
                    if p < lim {
                        assert(self.funs@[arr as int].params@[p] == s0.funs@[arr as int].params@.subrange(0, lim)[p]);
                    }
                }
            }
            k = k + 1;
        }
        let mut value = blank_value(ValueType::BY_CLASS);
        value.name_key = K_BOYIA_ARRAY;
        value.obj = BoyiaClass { ptr: ObjRef::Fun(arr), sup: ObjRef::Null };
        let ghost s_end = *self;
        self.set_native_result(&value);
        proof {
            lemma_string_class_kept(&vm0, self);
            let f = self.funs@[arr as int];
            assert forall|kk: int| 0 <= kk < pv.len() implies {
                let e = #[trigger] f.params@[start + kk];
                &&& e.value_type == ValueType::BY_CLASS
                &&& e.name_key == K_BOYIA_STRING
                &&& (strings ==> self.spec_text_of(Some(e)) == Some(pv[kk]))
            } by {
                assert(holds_element(&s_end, arr, start, start + kk, pv, strings));
                assert(s_end.funs@[arr as int].params@[start + kk].name_key == K_BOYIA_STRING);
                let e = f.params@[start + kk];
                match e.obj.ptr {
                    ObjRef::Fun(i) => {
                        lemma_text_frame(&s_end, self, e);
                    },
                    _ => {},
                }
            }
        }
        OpHandleResult::kOpResultSuccess
    }

    /// `replace(search, replacement)`: the receiver's text with every occurrence of the
    /// search text replaced. `kOpResultEnd` when an operand is not a string.
    pub fn string_replace_impl(&mut self) -> (r: OpHandleResult)
        requires
            old(self).wf(),
        ensures
            final(self).wf(),
            replace_done(old(self), final(self), r),
    {
        let size = self.get_local_size();
        let hay = match self.value_to_string(self.get_local_value(size - 1)) {
            None => return OpHandleResult::kOpResultEnd,
            Some(h) => h,
        };
        let pat = match self.value_to_string(self.get_local_value(1)) {
            None => return OpHandleResult::kOpResultEnd,
            Some(n) => n,
        };
        let rep = match self.value_to_string(self.get_local_value(2)) {
            None => return OpHandleResult::kOpResultEnd,
            Some(n) => n,
        };
        let out = replace_bytes(hay.as_slice(), pat.as_slice(), rep.as_slice());
        self.set_string_result(out.as_slice())
    }

    /// `substring(start[, end])`: the receiver's bytes between `start` (local 1) and `end`
    /// (local 2 when given, that is when the frame holds callee, start, end and receiver;
    /// else the length), both made non-negative and clamped to the
    /// length, swapped when `start > end`. `kOpResultEnd` when the receiver is not a string
    /// or `start` is missing.
    pub fn string_substring_impl(&mut self) -> (r: OpHandleResult)
        requires
            old(self).wf(),
        ensures
            final(self).wf(),
            substring_done(old(self), final(self), r),
    {
        let size = self.get_local_size();
        let hay = match self.value_to_string(self.get_local_value(size - 1)) {
            None => return OpHandleResult::kOpResultEnd,
            Some(h) => h,
        };
        let start_val = match self.get_local_value(1) {
            None => return OpHandleResult::kOpResultEnd,
            Some(v) => v,
        };
        let start: usize = if start_val.int_val < 0 {
            0
        } else {
            start_val.int_val as usize
        };
        let end: usize = if size > 3 {
            match self.get_local_value(2) {
                None => hay.len(),
                Some(v) => if v.int_val < 0 {
                    0
                } else {
                    v.int_val as usize
                },
            }
        } else {
            hay.len()
        };
        let out = substring_bytes(hay.as_slice(), start, end);
        self.set_string_result(out.as_slice())
    }

    /// `trim()`: the receiver's text without leading and trailing ASCII whitespace.
    /// `kOpResultEnd` when the receiver is not a string.
    pub fn string_trim_impl(&mut self) -> (r: OpHandleResult)
        requires
            old(self).wf(),
        ensures
            final(self).wf(),
            trim_done(old(self), final(self), r),
    {
        let size = self.get_local_size();
        let hay = match self.value_to_string(self.get_local_value(size - 1)) {
            None => return OpHandleResult::kOpResultEnd,
            Some(h) => h,
        };
        let out = trim_bytes(hay.as_slice());
        self.set_string_result(out.as_slice())
    }
}


/// What running builtin native `id` did to the VM: the contract of that native (`Some` of
/// its result), or nothing at all for a native whose work lies outside the library
/// (printing, loading a file) or for the table's end marker, which yields `None`.
pub open spec fn builtin_done(id: NativeId, pre: &BoyiaVM, post: &BoyiaVM, r: Option<OpHandleResult>) -> bool {
    match id {
        NativeId::CreateObject => r matches Some(x) && create_object_done(pre, post, x),
        NativeId::StringLength => r matches Some(x) && length_done(pre, post, x),
        NativeId::StringEqual => r matches Some(x) && equal_done(pre, post, x),
        NativeId::StringIndexOf => r matches Some(x) && index_of_done(pre, post, x),
        NativeId::StringSplit => r matches Some(x) && split_done(pre, post, x),
        NativeId::StringReplace => r matches Some(x) && replace_done(pre, post, x),
        NativeId::StringSubstring => r matches Some(x) && substring_done(pre, post, x),
        NativeId::StringTrim => r matches Some(x) && trim_done(pre, post, x),
        _ => r is None && *post == *pre,
    }
}

impl BoyiaVM {
    /// Run builtin native `id` (see `builtin_done`).
    pub fn call_builtin(&mut self, id: NativeId) -> (r: Option<OpHandleResult>)
        requires
            old(self).wf(),
        ensures
            final(self).wf(),
            builtin_done(id, old(self), final(self), r),
    {
        match id {
            NativeId::CreateObject => Some(self.create_object()),
            NativeId::StringLength => Some(self.string_length_impl()),
            NativeId::StringEqual => Some(self.string_equal_impl()),
            NativeId::StringIndexOf => Some(self.string_index_of_impl()),
            NativeId::StringSplit => Some(self.string_split_impl()),
            NativeId::StringReplace => Some(self.string_replace_impl()),
            NativeId::StringSubstring => Some(self.string_substring_impl()),
            NativeId::StringTrim => Some(self.string_trim_impl()),
            _ => None,
        }
    }
}

/// A String object's text reads only the globals, its body and the buffer it points at:
/// it stays while those stay and the byte store only grows.
pub proof fn lemma_text_frame(a: &BoyiaVM, b: &BoyiaVM, v: BoyiaValue)
    requires
        a.globals == b.globals,
        v.value_type == ValueType::BY_CLASS,
        v.obj.ptr matches ObjRef::Fun(i) && i < a.funs@.len() && i < b.funs@.len() && a.funs@[i as int] == b.funs@[i as int],
        a.bytes@.len() <= b.bytes@.len(),
        forall|j: int| 0 <= j < a.bytes@.len() ==> #[trigger] b.bytes@[j] == a.bytes@[j],
        a.owns_buffer(v),
    ensures
        a.spec_text_of(Some(v)) == b.spec_text_of(Some(v)),
        b.owns_buffer(v),
{
    assert(a.spec_class_id(v) == b.spec_class_id(v));
    assert(a.spec_buffer_from_body(v.obj.ptr) == b.spec_buffer_from_body(v.obj.ptr));
    match a.spec_buffer_from_body(v.obj.ptr) {
        Some(s) => {
            match s.buf {
                StrRef::Buf(j) => {
                    assert(b.bytes@[j as int] == a.bytes@[j as int]);
                },
                StrRef::Null => {},
            }
            assert(a.str_bytes(s) == b.str_bytes(s));
        },
        None => {},
    }
}

} // verus!

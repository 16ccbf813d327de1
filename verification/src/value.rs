//! Script values: type tags, payloads and the copy rules between value slots.

use vstd::prelude::*;

verus! {

/// Signed machine integer of the VM.
pub type LInt = i32;

/// Pointer-sized signed integer held in integer values.
pub type LIntPtr = isize;

/// Type tag of a script value.
#[allow(non_camel_case_types)]
#[derive(Clone, Copy, PartialEq, Eq, Structural, Debug)]
pub enum ValueType {
    BY_ARG,
    BY_CHAR,
    BY_INT,
    BY_REAL,
    BY_STRING,
    BY_FUNC,
    BY_PROP_FUNC,
    BY_ASYNC_PROP,
    BY_NAV_FUNC,
    BY_NAV_PROP,
    BY_ANONYM_FUNC,
    BY_CLASS,
    BY_NAVCLASS,
}

/// Where an object slot points: nowhere (null), a global value slot, or a
/// function body in the VM's function store.
#[derive(Clone, Copy, PartialEq, Eq, Structural, Debug)]
pub enum ObjRef {
    Null,
    Global(usize),
    Fun(usize),
}

/// Where a string payload's bytes live: nowhere, or a buffer of the VM's byte store.
#[derive(Clone, Copy, PartialEq, Eq, Structural, Debug)]
pub enum StrRef {
    Null,
    Buf(usize),
}

/// A string payload: a buffer and the number of bytes used from its start.
#[derive(Clone, Copy, PartialEq, Eq, Structural, Debug)]
pub struct BoyiaStr {
    pub buf: StrRef,
    pub len: LInt,
}

/// An object payload: the object's body and its super (class values) or owner (props).
#[derive(Clone, Copy, PartialEq, Eq, Structural, Debug)]
pub struct BoyiaClass {
    pub ptr: ObjRef,
    pub sup: ObjRef,
}

/// A value slot: name key, type tag, and one payload field per payload kind.
/// Reals are kept as their IEEE-754 bit pattern.
#[derive(Clone, Copy, PartialEq, Eq, Structural, Debug)]
pub struct BoyiaValue {
    pub name_key: usize,
    pub value_type: ValueType,
    pub int_val: LIntPtr,
    pub real_bits: u64,
    pub str_val: BoyiaStr,
    pub obj: BoyiaClass,
}

/// A value with every field cleared, of the given type.
pub open spec fn spec_blank(t: ValueType) -> BoyiaValue {
    BoyiaValue {
        name_key: 0,
        value_type: t,
        int_val: 0,
        real_bits: 0,
        str_val: BoyiaStr { buf: StrRef::Null, len: 0 },
        obj: BoyiaClass { ptr: ObjRef::Null, sup: ObjRef::Null },
    }
}

/// A value with every field cleared, of the given type.
pub fn blank_value(t: ValueType) -> (v: BoyiaValue)
    ensures
        v == spec_blank(t),
{
    BoyiaValue {
        name_key: 0,
        value_type: t,
        int_val: 0,
        real_bits: 0,
        str_val: BoyiaStr { buf: StrRef::Null, len: 0 },
        obj: BoyiaClass { ptr: ObjRef::Null, sup: ObjRef::Null },
    }
}

/// An integer value.
pub fn int_value(n: LIntPtr) -> (v: BoyiaValue)
    ensures
        v == (BoyiaValue { int_val: n, ..spec_blank(ValueType::BY_INT) }),
{
    let mut v = blank_value(ValueType::BY_INT);
    v.int_val = n;
    v
}

/// The types whose payload is an integer.
pub open spec fn is_int_like(t: ValueType) -> bool {
    t == ValueType::BY_INT || t == ValueType::BY_CHAR || t == ValueType::BY_NAVCLASS
}

/// The types whose payload is a whole object (body and super).
pub open spec fn is_object_like(t: ValueType) -> bool {
    t == ValueType::BY_PROP_FUNC || t == ValueType::BY_ASYNC_PROP || t == ValueType::BY_NAV_PROP
        || t == ValueType::BY_ANONYM_FUNC || t == ValueType::BY_CLASS
}

/// `dest` after taking `src`'s type and the payload that this type uses; the name and
/// the other payload fields of `dest` stay. A plain function copies only its body, keeping
/// `dest`'s super; types without a payload rule copy the whole payload.
pub open spec fn spec_copy_no_name(dest: BoyiaValue, src: BoyiaValue) -> BoyiaValue {
    let t = src.value_type;
    let d = BoyiaValue { value_type: t, ..dest };
    if is_int_like(t) {
        BoyiaValue { int_val: src.int_val, ..d }
    } else if t == ValueType::BY_REAL {
        BoyiaValue { real_bits: src.real_bits, ..d }
    } else if t == ValueType::BY_FUNC {
        BoyiaValue { obj: BoyiaClass { ptr: src.obj.ptr, sup: dest.obj.sup }, ..d }
    } else if is_object_like(t) {
        BoyiaValue { obj: src.obj, ..d }
    } else if t == ValueType::BY_STRING {
        BoyiaValue { str_val: src.str_val, ..d }
    } else {
        BoyiaValue {
            int_val: src.int_val,
            real_bits: src.real_bits,
            str_val: src.str_val,
            obj: src.obj,
            ..d
        }
    }
}

/// `spec_copy_no_name` that also takes `src`'s name.
pub open spec fn spec_copy(dest: BoyiaValue, src: BoyiaValue) -> BoyiaValue {
    BoyiaValue { name_key: src.name_key, ..spec_copy_no_name(dest, src) }
}

/// Whether a slot of this type is a method bound to its object (its super is the object).
pub open spec fn spec_is_object_prop_func(t: ValueType) -> bool {
    t == ValueType::BY_PROP_FUNC || t == ValueType::BY_ASYNC_PROP || t == ValueType::BY_NAV_PROP
        || t == ValueType::BY_ANONYM_FUNC
}

/// Whether a slot of this type is a method bound to its object.
pub fn is_object_prop_func(t: ValueType) -> (r: bool)
    ensures
        r == spec_is_object_prop_func(t),
{
    t == ValueType::BY_PROP_FUNC || t == ValueType::BY_ASYNC_PROP || t == ValueType::BY_NAV_PROP
        || t == ValueType::BY_ANONYM_FUNC
}

/// Whether the value is a function of any kind.
pub open spec fn spec_is_function_type(t: ValueType) -> bool {
    t == ValueType::BY_FUNC || t == ValueType::BY_PROP_FUNC || t == ValueType::BY_ASYNC_PROP
        || t == ValueType::BY_NAV_FUNC || t == ValueType::BY_NAV_PROP || t
        == ValueType::BY_ANONYM_FUNC
}

/// Whether the value is a number (integer, character or real).
pub open spec fn spec_is_number(t: ValueType) -> bool {
    t == ValueType::BY_INT || t == ValueType::BY_CHAR || t == ValueType::BY_REAL
}

/// The number of a value type in instruction operands: its position in `ValueType`.
pub open spec fn spec_value_type_code(t: ValueType) -> u8 {
    match t {
        ValueType::BY_ARG => 0,
        ValueType::BY_CHAR => 1,
        ValueType::BY_INT => 2,
        ValueType::BY_REAL => 3,
        ValueType::BY_STRING => 4,
        ValueType::BY_FUNC => 5,
        ValueType::BY_PROP_FUNC => 6,
        ValueType::BY_ASYNC_PROP => 7,
        ValueType::BY_NAV_FUNC => 8,
        ValueType::BY_NAV_PROP => 9,
        ValueType::BY_ANONYM_FUNC => 10,
        ValueType::BY_CLASS => 11,
        ValueType::BY_NAVCLASS => 12,
    }
}

/// The number of a value type in instruction operands.
pub fn value_type_code(t: ValueType) -> (r: u8)
    ensures
        r == spec_value_type_code(t),
{
    match t {
        ValueType::BY_ARG => 0,
        ValueType::BY_CHAR => 1,
        ValueType::BY_INT => 2,
        ValueType::BY_REAL => 3,
        ValueType::BY_STRING => 4,
        ValueType::BY_FUNC => 5,
        ValueType::BY_PROP_FUNC => 6,
        ValueType::BY_ASYNC_PROP => 7,
        ValueType::BY_NAV_FUNC => 8,
        ValueType::BY_NAV_PROP => 9,
        ValueType::BY_ANONYM_FUNC => 10,
        ValueType::BY_CLASS => 11,
        ValueType::BY_NAVCLASS => 12,
    }
}

/// Whether a value is a number (`is_boyia_number`): an integer, a character or a real.
pub fn is_boyia_number(v: &BoyiaValue) -> (r: bool)
    ensures
        r == spec_is_number(v.value_type),
{
    v.value_type == ValueType::BY_INT || v.value_type == ValueType::BY_CHAR || v.value_type == ValueType::BY_REAL
}

/// Copy `src`'s type and payload into `dest`, keeping `dest`'s name.
pub fn value_copy_no_name(dest: &mut BoyiaValue, src: &BoyiaValue)
    ensures
        *final(dest) == spec_copy_no_name(*old(dest), *src),
{
    let t = src.value_type;
    dest.value_type = t;
    if t == ValueType::BY_INT || t == ValueType::BY_CHAR || t == ValueType::BY_NAVCLASS {
        dest.int_val = src.int_val;
    } else if t == ValueType::BY_REAL {
        dest.real_bits = src.real_bits;
    } else if t == ValueType::BY_FUNC {
        dest.obj.ptr = src.obj.ptr;
    } else if t == ValueType::BY_PROP_FUNC || t == ValueType::BY_ASYNC_PROP || t
        == ValueType::BY_NAV_PROP || t == ValueType::BY_ANONYM_FUNC || t == ValueType::BY_CLASS {
        dest.obj = src.obj;
    } else if t == ValueType::BY_STRING {
        dest.str_val = src.str_val;
    } else {
        dest.int_val = src.int_val;
        dest.real_bits = src.real_bits;
        dest.str_val = src.str_val;
        dest.obj = src.obj;
    }
}

/// Copy `src`'s name, type and payload into `dest`.
pub fn value_copy(dest: &mut BoyiaValue, src: &BoyiaValue)
    ensures
        *final(dest) == spec_copy(*old(dest), *src),
{
    dest.name_key = src.name_key;
    value_copy_no_name(dest, src);
}

/// Copying a value twice gives what copying it once gives.
pub proof fn lemma_copy_idempotent(dest: BoyiaValue, src: BoyiaValue)
    ensures
        spec_copy(spec_copy(dest, src), src) == spec_copy(dest, src),
        spec_copy_no_name(spec_copy_no_name(dest, src), src) == spec_copy_no_name(dest, src),
{
}

/// A copy carries the source's name and type, and the payload field that its type reads.
pub proof fn lemma_copy_carries_payload(dest: BoyiaValue, src: BoyiaValue)
    ensures
        spec_copy(dest, src).name_key == src.name_key,
        spec_copy(dest, src).value_type == src.value_type,
        is_int_like(src.value_type) ==> spec_copy(dest, src).int_val == src.int_val,
        src.value_type == ValueType::BY_REAL ==> spec_copy(dest, src).real_bits == src.real_bits,
        src.value_type == ValueType::BY_STRING ==> spec_copy(dest, src).str_val == src.str_val,
        is_object_like(src.value_type) ==> spec_copy(dest, src).obj == src.obj,
        spec_copy(dest, src).obj.ptr == src.obj.ptr || src.value_type == ValueType::BY_INT
            || src.value_type == ValueType::BY_CHAR || src.value_type == ValueType::BY_NAVCLASS
            || src.value_type == ValueType::BY_REAL || src.value_type == ValueType::BY_STRING,
{
}

} // verus!

//! What references lead to, and which mistakes programs make with variables.
use vstd::prelude::*;
use crate::bytecode::{Bytecode, Opcode};
use crate::embed::spec_get_struct_and_index;
use crate::fiber::{FiberView, StepView};
use crate::laws_basis::{
    comes_to, goes_on, has_slot, holds, inst_at, lemma_goes_on, lemma_operand, lemma_raises,
    lemma_result, lemma_step, operand, raises, with_result,
};
use crate::laws_numbers::{has_number, lemma_left};
use crate::laws_places::{content, is_there, lemma_field, part_of, target_of, variable_at, Variable};
use crate::laws_words::results_in;
use crate::machine::{UpValueState, VmView};
use crate::run::step;
use crate::value::{IntKind, PointerObj, SliceRef, Value, ValueType};

verus! {

/// A reference to a value leads to a new variable that holds the value.
pub proof fn law_reference_to_value(p: &Bytecode, w: VmView, f: FiberView, v: Value)
    requires
        comes_to(p, f, Opcode::REF, 0),
        holds(p, w, f, inst_at(p, f).s0, v),
        has_slot(w, f, inst_at(p, f).d as int),
        w.upvals.len() <= usize::MAX,
    ensures
        step(p, w, f) matches Some((w1, f1, s)) && s == StepView::Next && goes_on(f, f1, 1) && w1
            == with_result(
            VmView { upvals: w.upvals.push(UpValueState::Closed(v)), ..w },
            f,
            inst_at(p, f).d as int,
            Value::Pointer(PointerObj::UpVal(w.upvals.len() as usize)),
        ),
{
    let inst = inst_at(p, f);
    let x = VmView { upvals: w.upvals.push(UpValueState::Closed(v)), ..w };
    let ptr = Value::Pointer(PointerObj::UpVal(w.upvals.len() as usize));
    lemma_operand(p, w, f, inst.s0);
    lemma_result(x, f, inst.d, ptr);
    lemma_goes_on(p, w, f, with_result(x, f, inst.d as int, ptr));
}

/// The instruction that loads from where a reference leads to.
pub open spec fn load_for(op: Opcode, t: ValueType) -> Opcode {
    match op {
        Opcode::REF_UPVALUE => Opcode::LOAD_UP_VALUE,
        Opcode::REF_SLICE_MEMBER => if t == ValueType::Slice {
            Opcode::LOAD_SLICE
        } else {
            Opcode::LOAD_ARRAY
        },
        Opcode::REF_STRUCT_FIELD => Opcode::LOAD_STRUCT,
        Opcode::REF_EMBEDDED => Opcode::LOAD_EMBEDDED,
        _ => Opcode::LOAD_PKG,
    }
}

/// A reference to a variable is a pointer that leads to the very variable that would be
/// loaded from there: an element, a field, also of an embedded struct, a member of a
/// package, or a captured variable.
pub proof fn law_reference_to_variable(p: &Bytecode, w: VmView, f: FiberView, op: Opcode, x: Variable)
    requires
        comes_to(p, f, op, 0),
        op == Opcode::REF_UPVALUE || op == Opcode::REF_SLICE_MEMBER || op == Opcode::REF_STRUCT_FIELD
            || op == Opcode::REF_EMBEDDED || op == Opcode::REF_PKG_MEMBER,
        op == Opcode::REF_SLICE_MEMBER ==> (inst_at(p, f).t0 == ValueType::Slice || inst_at(
            p,
            f,
        ).t0 == ValueType::Array) && (operand(p, w, f, inst_at(p, f).s1) matches Value::Int(_, i)
            && i <= i32::MAX),
        variable_at(
            p,
            w,
            f,
            load_for(op, inst_at(p, f).t0),
            inst_at(p, f).s0,
            inst_at(p, f).s1,
        ) == Some(x),
        is_there(w, x),
        has_slot(w, f, inst_at(p, f).d as int),
    ensures
        exists|ptr: PointerObj| #[trigger]
            target_of(p, w, ptr) == Some(x) && results_in(
                p,
                w,
                f,
                inst_at(p, f).d,
                Value::Pointer(ptr),
            ),
{
    let inst = inst_at(p, f);
    let ptr: PointerObj = match op {
        Opcode::REF_UPVALUE => {
            let y = part_of(f.frames.last().var_ptrs->Some_0, inst.s0 as int)->Some_0;
            content(w, y)->Pointer_0
        },
        Opcode::REF_SLICE_MEMBER => {
            lemma_operand(p, w, f, inst.s0);
            lemma_operand(p, w, f, inst.s1);
            let i = operand(p, w, f, inst.s1)->Int_1;
            lemma_left(IntKind::Int32, i as int);
            match operand(p, w, f, inst.s0) {
                Value::Slice(s) => PointerObj::SliceMember(s, i as i32),
                Value::Array(r) => PointerObj::SliceMember(
                    SliceRef { array: r, begin: 0, end: r.len, cap_end: r.len },
                    i as i32,
                ),
                _ => PointerObj::UpVal(0),
            }
        },
        Opcode::REF_STRUCT_FIELD => {
            lemma_operand(p, w, f, inst.s0);
            PointerObj::StructField(operand(p, w, f, inst.s0)->Struct_0, inst.s1)
        },
        Opcode::REF_EMBEDDED => {
            lemma_operand(p, w, f, inst.s0);
            let path = p.indices@[inst.s1 as int]@;
            lemma_field(p, w, operand(p, w, f, inst.s0), path);
            let (s, k) = spec_get_struct_and_index(p, w, operand(p, w, f, inst.s0), path);
            PointerObj::StructField(s->Ok_0->Struct_0, k)
        },
        _ => {
            lemma_operand(p, w, f, inst.s0);
            PointerObj::PkgMember(operand(p, w, f, inst.s0)->Package_0, inst.s1)
        },
    };
    assert(target_of(p, w, ptr) == Some(x));
    lemma_result(w, f, inst.d, Value::Pointer(ptr));
    lemma_goes_on(p, w, f, with_result(w, f, inst.d as int, Value::Pointer(ptr)));
}

/// An element in front of the first one or behind the last one is a mistake of the
/// program.
pub proof fn law_index_mistake(p: &Bytecode, w: VmView, f: FiberView, holder: Value, k: IntKind, i: i128)
    requires
        ({
            let inst = inst_at(p, f);
            let op = inst.op0;
            let load = op == Opcode::LOAD_SLICE || op == Opcode::LOAD_ARRAY;
            let store = op == Opcode::STORE_SLICE || op == Opcode::STORE_ARRAY;
            &&& comes_to(p, f, op, 0)
            &&& load || store
            &&& load ==> holds(p, w, f, inst.s0, holder) && holds(
                p,
                w,
                f,
                inst.s1,
                Value::Int(k, i),
            )
            &&& store ==> holds(p, w, f, inst.d, holder) && holds(p, w, f, inst.s0, Value::Int(k, i))
            &&& match holder {
                Value::Slice(s) => (op == Opcode::LOAD_SLICE || op == Opcode::STORE_SLICE) && !(0
                    <= i < s.end - s.begin),
                Value::Array(r) => (op == Opcode::LOAD_ARRAY || op == Opcode::STORE_ARRAY) && !(0
                    <= i < r.len),
                _ => false,
            }
        }),
        has_number(k, i as int),
    ensures
        raises(p, w, f, "index out of range"@),
{
    let inst = inst_at(p, f);
    if inst.op0 == Opcode::LOAD_SLICE || inst.op0 == Opcode::LOAD_ARRAY {
        lemma_operand(p, w, f, inst.s1);
    } else {
        lemma_operand(p, w, f, inst.d);
    }
    lemma_operand(p, w, f, inst.s0);
    lemma_step(p, w, f);
    lemma_raises(p, w, f, 1, "index out of range"@);
}

/// To look for something behind nil is a mistake of the program.
pub proof fn law_nil_mistake(p: &Bytecode, w: VmView, f: FiberView, t: ValueType, k: IntKind, i: i128)
    requires
        ({
            let inst = inst_at(p, f);
            let op = inst.op0;
            &&& comes_to(p, f, op, 0)
            &&& match op {
                Opcode::LOAD_POINTER => holds(p, w, f, inst.s0, Value::Nil(t)),
                Opcode::STORE_POINTER => holds(p, w, f, inst.d, Value::Nil(t)),
                Opcode::LOAD_SLICE => holds(p, w, f, inst.s0, Value::Nil(t)) && holds(
                    p,
                    w,
                    f,
                    inst.s1,
                    Value::Int(k, i),
                ),
                Opcode::STORE_SLICE => holds(p, w, f, inst.d, Value::Nil(t)) && holds(
                    p,
                    w,
                    f,
                    inst.s0,
                    Value::Int(k, i),
                ),
                _ => false,
            }
        }),
        has_number(k, i as int),
    ensures
        raises(p, w, f, "access nil value"@),
{
    let inst = inst_at(p, f);
    match inst.op0 {
        Opcode::LOAD_POINTER => {
            lemma_operand(p, w, f, inst.s0);
        },
        Opcode::STORE_POINTER => {
            lemma_operand(p, w, f, inst.d);
        },
        Opcode::LOAD_SLICE => {
            lemma_operand(p, w, f, inst.s0);
            lemma_operand(p, w, f, inst.s1);
        },
        _ => {
            lemma_operand(p, w, f, inst.d);
            lemma_operand(p, w, f, inst.s0);
        },
    }
    lemma_step(p, w, f);
    lemma_raises(p, w, f, 1, "access nil value"@);
}

} // verus!

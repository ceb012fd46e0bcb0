//! What the instructions do that load, store and refer to variables.
use vstd::prelude::*;
use crate::bytecode::{Bytecode, Instruction, Opcode};
use crate::embed::{spec_get_embeded, spec_get_struct_and_index, walk};
use crate::fiber::{FiberView, StepView};
use crate::laws_basis::{
    comes_to, goes_on, has_operand, has_slot, holds, inst_at, lemma_copies, lemma_goes_on,
    lemma_operand, lemma_result, operand, with_result,
};
use crate::laws_numbers::{
    gives, has_number, is_integer_op, law_integers_calculate, law_integers_shift, shifts,
};
use crate::laws_words::results_in;
use crate::machine::{UpValueState, VmView};
use crate::ops_place::{
    array_at, assign, embedded_at, field_at, load_at, member_at, place_inst, pointee_at, slice_at,
    upvalue_at,
};
use crate::place::{field_place, load, pointee, spec_deref_value, store, Place};
use crate::run::{context_of, step};
use crate::trap::Trap;
use crate::value::{IntKind, OpIndex, PointerObj, Region, SliceRef, Value};

verus! {

/// A variable: a cell of an array, a struct or a package, a slot of a stack, or a
/// captured variable with a life of its own.
pub enum Variable {
    Cell(int),
    Slot(int, int),
    Own(int),
}

/// Whether the variable is there.
pub open spec fn is_there(w: VmView, x: Variable) -> bool {
    match x {
        Variable::Cell(a) => 0 <= a < w.cells.len() && a <= usize::MAX,
        Variable::Slot(s, i) => 0 <= s < w.stacks.len() && 0 <= i < w.stacks[s].len() && s
            <= usize::MAX && i <= i32::MAX,
        Variable::Own(id) => 0 <= id < w.upvals.len() && w.upvals[id] is Closed && id
            <= usize::MAX,
    }
}

/// What a variable holds.
pub open spec fn content(w: VmView, x: Variable) -> Value {
    match x {
        Variable::Cell(a) => w.cells[a],
        Variable::Slot(s, i) => w.stacks[s][i],
        Variable::Own(id) => w.upvals[id]->Closed_0,
    }
}

/// The tables with another value in a variable, and nothing else changed.
pub open spec fn with_content(w: VmView, x: Variable, v: Value) -> VmView {
    match x {
        Variable::Cell(a) => VmView { cells: w.cells.update(a, v), ..w },
        Variable::Slot(s, i) => VmView {
            stacks: w.stacks.update(s, w.stacks[s].update(i, v)),
            ..w
        },
        Variable::Own(id) => VmView {
            upvals: w.upvals.update(id, UpValueState::Closed(v)),
            ..w
        },
    }
}

/// Element `i` of an array, or field `i` of a struct.
pub open spec fn part_of(r: Region, i: int) -> Option<Variable> {
    if 0 <= i < r.len {
        Some(Variable::Cell(r.base + i))
    } else {
        None
    }
}

/// Element `i` of a slice.
pub open spec fn element_of(s: SliceRef, i: int) -> Option<Variable> {
    if 0 <= i < s.end - s.begin {
        part_of(s.array, s.begin + i)
    } else {
        None
    }
}

/// A captured variable.
pub open spec fn captured_one(w: VmView, id: int) -> Option<Variable> {
    if 0 <= id < w.upvals.len() {
        match w.upvals[id] {
            UpValueState::Closed(_) => Some(Variable::Own(id)),
            UpValueState::Open(d) => match d.stack {
                Some(s) => Some(Variable::Slot(s as int, d.stack_base + d.index)),
                None => None,
            },
        }
    } else {
        None
    }
}

/// What a pointer points to.
pub open spec fn target_of(p: &Bytecode, w: VmView, ptr: PointerObj) -> Option<Variable> {
    match ptr {
        PointerObj::UpVal(id) => captured_one(w, id as int),
        PointerObj::SliceMember(s, i) => element_of(s, i as int),
        PointerObj::StructField(r, i) => part_of(r, i as int),
        PointerObj::PkgMember(k, i) => if k < p.packages@.len() {
            part_of(p.packages@[k as int].members, i as int)
        } else {
            None
        },
    }
}

/// The variable that a value leads to along a path of fields: each number but the
/// last one leads from a struct into a field of it, and the last one is the field. A
/// pointer at the beginning, or where the last field lies, is followed.
pub open spec fn field_of(p: &Bytecode, w: VmView, v: Value, path: Seq<OpIndex>) -> Option<Variable> {
    if path.len() == 0 {
        None
    } else {
        match struct_on(p, w, v, path.drop_last()) {
            Some(Value::Struct(r)) => part_of(r, path.last() as int),
            Some(Value::Pointer(ptr)) => match target_of(p, w, ptr) {
                Some(x) => match content(w, x) {
                    Value::Struct(r) => if is_there(w, x) {
                        part_of(r, path.last() as int)
                    } else {
                        None
                    },
                    _ => None,
                },
                None => None,
            },
            _ => None,
        }
    }
}

/// The value that a value leads to along a path of fields.
pub open spec fn follow(w: VmView, v: Value, path: Seq<OpIndex>) -> Option<Value>
    decreases path.len(),
{
    if path.len() == 0 {
        Some(v)
    } else {
        match v {
            Value::Struct(r) => match part_of(r, path[0] as int) {
                Some(x) => if is_there(w, x) {
                    follow(w, content(w, x), path.drop_first())
                } else {
                    None
                },
                None => None,
            },
            _ => None,
        }
    }
}

/// The value that a value, or what it points to, leads to along a path of fields.
pub open spec fn struct_on(p: &Bytecode, w: VmView, v: Value, path: Seq<OpIndex>) -> Option<Value> {
    match v {
        Value::Pointer(ptr) => match target_of(p, w, ptr) {
            Some(x) => if is_there(w, x) {
                follow(w, content(w, x), path)
            } else {
                None
            },
            None => None,
        },
        Value::Nil(_) => None,
        _ => follow(w, v, path),
    }
}

/// The variable that an instruction loads from or stores to: `holder` says where it is
/// found, and `at` which part of it.
pub open spec fn variable_at(
    p: &Bytecode,
    w: VmView,
    f: FiberView,
    op: Opcode,
    holder: OpIndex,
    at: OpIndex,
) -> Option<Variable> {
    match op {
        Opcode::LOAD_SLICE | Opcode::STORE_SLICE => match (
            operand(p, w, f, holder),
            operand(p, w, f, at),
        ) {
            (Value::Slice(s), Value::Int(k, i)) => if has_operand(p, w, f, holder) && has_operand(
                p,
                w,
                f,
                at,
            ) && has_number(k, i as int) {
                element_of(s, i as int)
            } else {
                None
            },
            _ => None,
        },
        Opcode::LOAD_ARRAY | Opcode::STORE_ARRAY => match (
            operand(p, w, f, holder),
            operand(p, w, f, at),
        ) {
            (Value::Array(r), Value::Int(k, i)) => if has_operand(p, w, f, holder) && has_operand(
                p,
                w,
                f,
                at,
            ) && has_number(k, i as int) {
                part_of(r, i as int)
            } else {
                None
            },
            _ => None,
        },
        Opcode::LOAD_STRUCT | Opcode::STORE_STRUCT => match operand(p, w, f, holder) {
            Value::Struct(r) => if has_operand(p, w, f, holder) {
                part_of(r, at as int)
            } else {
                None
            },
            _ => None,
        },
        Opcode::LOAD_EMBEDDED | Opcode::STORE_EMBEDDED => if has_operand(p, w, f, holder) && 0 <= at
            < p.indices@.len() {
            field_of(p, w, operand(p, w, f, holder), p.indices@[at as int]@)
        } else {
            None
        },
        Opcode::LOAD_PKG | Opcode::STORE_PKG => match operand(p, w, f, holder) {
            Value::Package(k) => if has_operand(p, w, f, holder) && k < p.packages@.len() {
                part_of(p.packages@[k as int].members, at as int)
            } else {
                None
            },
            _ => None,
        },
        Opcode::LOAD_POINTER | Opcode::STORE_POINTER => match operand(p, w, f, holder) {
            Value::Pointer(ptr) => if has_operand(p, w, f, holder) {
                target_of(p, w, ptr)
            } else {
                None
            },
            _ => None,
        },
        Opcode::LOAD_UP_VALUE | Opcode::STORE_UP_VALUE => match f.frames.last().var_ptrs {
            Some(r) => match part_of(r, holder as int) {
                Some(x) => match content(w, x) {
                    Value::Pointer(PointerObj::UpVal(id)) => if is_there(w, x) {
                        captured_one(w, id as int)
                    } else {
                        None
                    },
                    _ => None,
                },
                None => None,
            },
            None => None,
        },
        _ => None,
    }
}

/// Whether a place of the machine is the variable.
pub open spec fn is_place(p: &Bytecode, w: VmView, place: Place, x: Variable) -> bool {
    &&& load(p, w, place) == Ok::<Value, Trap>(content(w, x))
    &&& forall|v: Value| #[trigger]
        store(p, w, place, v) == Ok::<VmView, Trap>(with_content(w, x, v))
    &&& match place {
        Place::Cell(a) => x == Variable::Cell(a as int),
        Place::Slot(s, i) => x == Variable::Slot(s as int, i as int),
        Place::Up(id) => captured_one(w, id as int) == Some(x),
        _ => false,
    }
}

proof fn lemma_captured(p: &Bytecode, w: VmView, id: usize)
    requires
        captured_one(w, id as int) matches Some(x) && is_there(w, x),
    ensures
        is_place(p, w, Place::Up(id), captured_one(w, id as int)->Some_0),
{
}

/// The place that a pointer leads to.
pub proof fn lemma_target(p: &Bytecode, w: VmView, ptr: PointerObj)
    requires
        target_of(p, w, ptr) matches Some(x) && is_there(w, x),
    ensures
        pointee(p, ptr) matches Ok(place) && is_place(p, w, place, target_of(p, w, ptr)->Some_0),
        spec_deref_value(p, w, Value::Pointer(ptr)) == Ok::<Value, Trap>(
            content(w, target_of(p, w, ptr)->Some_0),
        ),
{
    match ptr {
        PointerObj::UpVal(id) => {
            lemma_captured(p, w, id);
        },
        _ => {},
    }
}

/// A walk along fields.
proof fn lemma_follow(p: &Bytecode, w: VmView, v: Value, path: Seq<OpIndex>, i: nat)
    requires
        i <= path.len(),
        follow(w, v, path.subrange(i as int, path.len() as int)) is Some,
    ensures
        walk(p, w, v, path, i) == Ok::<Value, Trap>(
            follow(w, v, path.subrange(i as int, path.len() as int))->Some_0,
        ),
    decreases path.len() - i,
{
    let rest = path.subrange(i as int, path.len() as int);
    if i < path.len() {
        assert(rest.drop_first() =~= path.subrange(i as int + 1, path.len() as int));
        match v {
            Value::Struct(r) => {
                let x = part_of(r, rest[0] as int)->Some_0;
                lemma_follow(p, w, content(w, x), path, i + 1);
            },
            _ => {},
        }
    }
}

/// A walk along fields from a value or from what it points to.
pub proof fn lemma_struct_on(p: &Bytecode, w: VmView, v: Value, path: Seq<OpIndex>)
    requires
        struct_on(p, w, v, path) is Some,
    ensures
        spec_get_embeded(p, w, v, path) == Ok::<Value, Trap>(struct_on(p, w, v, path)->Some_0),
{
    assert(path.subrange(0, path.len() as int) =~= path);
    match v {
        Value::Pointer(ptr) => {
            lemma_target(p, w, ptr);
            lemma_follow(p, w, content(w, target_of(p, w, ptr)->Some_0), path, 0);
        },
        _ => {
            lemma_follow(p, w, v, path, 0);
        },
    }
}

/// The place of a field at the end of a path.
pub proof fn lemma_field(p: &Bytecode, w: VmView, v: Value, path: Seq<OpIndex>)
    requires
        field_of(p, w, v, path) matches Some(x) && is_there(w, x),
    ensures
        ({
            let (s, k) = spec_get_struct_and_index(p, w, v, path);
            s matches Ok(y) && field_place(y, k) matches Ok(place) && is_place(
                p,
                w,
                place,
                field_of(p, w, v, path)->Some_0,
            )
        }),
{
    lemma_struct_on(p, w, v, path.drop_last());
    match struct_on(p, w, v, path.drop_last())->Some_0 {
        Value::Pointer(ptr) => {
            lemma_target(p, w, ptr);
        },
        _ => {},
    }
}

/// The place that an instruction finds.
pub open spec fn place_at(
    p: &Bytecode,
    w: VmView,
    f: FiberView,
    op: Opcode,
    holder: OpIndex,
    at: OpIndex,
) -> Result<Place, Trap> {
    let c = context_of(f);
    match op {
        Opcode::LOAD_SLICE | Opcode::STORE_SLICE => slice_at(w, p, c, holder, at),
        Opcode::LOAD_ARRAY | Opcode::STORE_ARRAY => array_at(w, p, c, holder, at),
        Opcode::LOAD_STRUCT | Opcode::STORE_STRUCT => field_at(w, p, c, holder, at),
        Opcode::LOAD_EMBEDDED | Opcode::STORE_EMBEDDED => embedded_at(w, p, c, holder, at),
        Opcode::LOAD_PKG | Opcode::STORE_PKG => member_at(w, p, c, holder, at),
        Opcode::LOAD_POINTER | Opcode::STORE_POINTER => pointee_at(w, p, c, holder),
        _ => upvalue_at(w, c, holder),
    }
}

proof fn lemma_place_at(
    p: &Bytecode,
    w: VmView,
    f: FiberView,
    op: Opcode,
    holder: OpIndex,
    at: OpIndex,
)
    requires
        variable_at(p, w, f, op, holder, at) matches Some(x) && is_there(w, x),
    ensures
        place_at(p, w, f, op, holder, at) matches Ok(place) && is_place(
            p,
            w,
            place,
            variable_at(p, w, f, op, holder, at)->Some_0,
        ),
{
    let x = variable_at(p, w, f, op, holder, at)->Some_0;
    match op {
        Opcode::LOAD_UP_VALUE | Opcode::STORE_UP_VALUE => {
            let y = part_of(f.frames.last().var_ptrs->Some_0, holder as int)->Some_0;
            match content(w, y) {
                Value::Pointer(PointerObj::UpVal(id)) => {
                    lemma_captured(p, w, id);
                },
                _ => {},
            }
        },
        Opcode::LOAD_EMBEDDED | Opcode::STORE_EMBEDDED => {
            lemma_operand(p, w, f, holder);
            lemma_field(p, w, operand(p, w, f, holder), p.indices@[at as int]@);
        },
        Opcode::LOAD_POINTER | Opcode::STORE_POINTER => {
            lemma_operand(p, w, f, holder);
            lemma_target(p, w, operand(p, w, f, holder)->Pointer_0);
        },
        Opcode::LOAD_SLICE | Opcode::STORE_SLICE | Opcode::LOAD_ARRAY | Opcode::STORE_ARRAY => {
            lemma_operand(p, w, f, holder);
            lemma_operand(p, w, f, at);
        },
        _ => {
            lemma_operand(p, w, f, holder);
        },
    }
}

/// Whether an instruction loads what a variable holds.
pub open spec fn is_load(op: Opcode) -> bool {
    op == Opcode::LOAD_SLICE || op == Opcode::LOAD_ARRAY || op == Opcode::LOAD_STRUCT || op
        == Opcode::LOAD_EMBEDDED || op == Opcode::LOAD_PKG || op == Opcode::LOAD_POINTER || op
        == Opcode::LOAD_UP_VALUE
}

/// Whether an instruction stores into a variable.
pub open spec fn is_store(op: Opcode) -> bool {
    op == Opcode::STORE_SLICE || op == Opcode::STORE_ARRAY || op == Opcode::STORE_STRUCT || op
        == Opcode::STORE_EMBEDDED || op == Opcode::STORE_PKG || op == Opcode::STORE_POINTER || op
        == Opcode::STORE_UP_VALUE
}

/// The variable that an instruction stores into.
pub open spec fn stored_to(p: &Bytecode, w: VmView, f: FiberView) -> Option<Variable> {
    let inst = inst_at(p, f);
    variable_at(p, w, f, inst.op0, inst.d, inst.s0)
}

/// Where an instruction finds what it stores.
pub open spec fn stored_from(inst: Instruction) -> OpIndex {
    if inst.op0 == Opcode::STORE_POINTER || inst.op0 == Opcode::STORE_UP_VALUE {
        inst.s0
    } else {
        inst.s1
    }
}

/// Whether an instruction left a value in a variable, and did nothing else.
pub open spec fn leaves_in(p: &Bytecode, w: VmView, f: FiberView, x: Variable, v: Value) -> bool {
    step(p, w, f) matches Some((w1, f1, s)) && s == StepView::Next && goes_on(f, f1, 1) && w1
        == with_content(w, x, v)
}

/// What a variable holds goes into the result slot, and nothing else changes: an
/// element, a field, also of an embedded struct, a member of a package, what a pointer
/// points to, or a captured variable.
pub proof fn law_load_gives_content(p: &Bytecode, w: VmView, f: FiberView, op: Opcode, x: Variable)
    requires
        comes_to(p, f, op, 0),
        is_load(op),
        variable_at(p, w, f, op, inst_at(p, f).s0, inst_at(p, f).s1) == Some(x),
        is_there(w, x),
        has_slot(w, f, inst_at(p, f).d as int),
    ensures
        results_in(p, w, f, inst_at(p, f).d, content(w, x)),
{
    let inst = inst_at(p, f);
    let v = content(w, x);
    lemma_place_at(p, w, f, op, inst.s0, inst.s1);
    lemma_result(w, f, inst.d, v);
    assert(place_inst(p, w, context_of(f), inst, inst) == load_at(
        p,
        w,
        context_of(f),
        inst,
        place_at(p, w, f, op, inst.s0, inst.s1),
    ));
    lemma_goes_on(p, w, f, with_result(w, f, inst.d as int, v));
}

/// What a store does.
pub proof fn lemma_store(p: &Bytecode, w: VmView, f: FiberView, ex: Instruction)
    requires
        is_store(inst_at(p, f).op0),
        stored_to(p, w, f) matches Some(x) && is_there(w, x),
    ensures
        ({
            let inst = inst_at(p, f);
            let x = stored_to(p, w, f)->Some_0;
            place_at(p, w, f, inst.op0, inst.d, inst.s0) matches Ok(place) && is_place(
                p,
                w,
                place,
                x,
            ) && place_inst(p, w, context_of(f), inst, ex) == assign(
                p,
                w,
                context_of(f),
                inst,
                place,
                Ok(content(w, x)),
                stored_from(inst),
            )
        }),
{
    let inst = inst_at(p, f);
    lemma_place_at(p, w, f, inst.op0, inst.d, inst.s0);
}

/// A store leaves the value in the variable and changes nothing else.
pub proof fn law_store_leaves_value(p: &Bytecode, w: VmView, f: FiberView, x: Variable, v: Value)
    requires
        comes_to(p, f, inst_at(p, f).op0, 0),
        is_store(inst_at(p, f).op0),
        inst_at(p, f).op1 == Opcode::VOID,
        stored_to(p, w, f) == Some(x),
        is_there(w, x),
        holds(p, w, f, stored_from(inst_at(p, f)), v),
        !(v is Array) && !(v is Struct),
    ensures
        leaves_in(p, w, f, x, v),
{
    let inst = inst_at(p, f);
    lemma_operand(p, w, f, stored_from(inst));
    lemma_copies(w, v);
    lemma_store(p, w, f, inst);
    lemma_store(p, w, f, crate::laws_basis::word_after(p, f));
    lemma_goes_on(p, w, f, with_content(w, x, v));
}

/// An operation that is combined with a store gets what the variable holds and then the
/// operand, and leaves in the variable what it gives. Nothing else changes.
pub proof fn law_store_calculates(
    p: &Bytecode,
    w: VmView,
    f: FiberView,
    x: Variable,
    k: IntKind,
    a: i128,
    b: i128,
)
    requires
        comes_to(p, f, inst_at(p, f).op0, 0),
        is_store(inst_at(p, f).op0),
        is_integer_op(inst_at(p, f).op1),
        inst_at(p, f).t0 == k.spec_value_type(),
        stored_to(p, w, f) == Some(x),
        is_there(w, x),
        content(w, x) == Value::Int(k, a),
        holds(p, w, f, stored_from(inst_at(p, f)), Value::Int(k, b)),
        has_number(k, a as int),
        has_number(k, b as int),
        !((inst_at(p, f).op1 == Opcode::QUO || inst_at(p, f).op1 == Opcode::REM) && b == 0),
    ensures
        exists|r: i128| #[trigger]
            gives(inst_at(p, f).op1, k, a, b, r) && leaves_in(p, w, f, x, Value::Int(k, r)),
{
    let inst = inst_at(p, f);
    lemma_operand(p, w, f, stored_from(inst));
    law_integers_calculate(inst.op1, k, a, b);
    let r = crate::num::word_op(inst.op1, inst.t0, Value::Int(k, a), Value::Int(k, b))->Some_0->Done_0->Int_1;
    lemma_store(p, w, f, inst);
    lemma_store(p, w, f, crate::laws_basis::word_after(p, f));
    lemma_goes_on(p, w, f, with_content(w, x, Value::Int(k, r)));
    assert(gives(inst.op1, k, a, b, r));
}

/// A shift that is combined with a store leaves in the variable what it held, shifted
/// by so many places as the operand says.
pub proof fn law_store_shifts(
    p: &Bytecode,
    w: VmView,
    f: FiberView,
    x: Variable,
    k: IntKind,
    a: i128,
    j: IntKind,
    n: i128,
)
    requires
        comes_to(p, f, inst_at(p, f).op0, 0),
        is_store(inst_at(p, f).op0),
        inst_at(p, f).op1 == Opcode::SHL || inst_at(p, f).op1 == Opcode::SHR,
        inst_at(p, f).t0 == k.spec_value_type(),
        stored_to(p, w, f) == Some(x),
        is_there(w, x),
        content(w, x) == Value::Int(k, a),
        holds(p, w, f, stored_from(inst_at(p, f)), Value::Int(j, n)),
        has_number(k, a as int),
        has_number(j, n as int),
        0 <= n <= 0xffff_ffff,
    ensures
        exists|r: i128| #[trigger]
            shifts(inst_at(p, f).op1, k, a, n as int, r) && has_number(k, r as int) && leaves_in(
                p,
                w,
                f,
                x,
                Value::Int(k, r),
            ),
{
    let inst = inst_at(p, f);
    lemma_operand(p, w, f, stored_from(inst));
    law_integers_shift(inst.op1, k, a, j, n);
    let r = crate::num::word_op(inst.op1, inst.t0, Value::Int(k, a), Value::Int(j, n))->Some_0->Done_0->Int_1;
    lemma_store(p, w, f, inst);
    lemma_store(p, w, f, crate::laws_basis::word_after(p, f));
    lemma_goes_on(p, w, f, with_content(w, x, Value::Int(k, r)));
    assert(shifts(inst.op1, k, a, n as int, r));
}

} // verus!

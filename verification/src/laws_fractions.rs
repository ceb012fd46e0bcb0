//! What the instructions do with fractions: the host calculates.
use vstd::prelude::*;
use crate::bytecode::{Bytecode, Opcode};
use crate::effect::{Ask, Query};
use crate::fiber::{FiberView, StepView};
use crate::laws_basis::{
    comes_to, goes_on, has_slot, holds, inst_at, lemma_goes_on, lemma_operand, lemma_result,
    lemma_step, slot_of, with_result,
};
use crate::laws_words::{changes_by, results_in};
use crate::machine::VmView;
use crate::num::FloatTask;
use crate::reply::{resume, Reply};
use crate::run::step;
use crate::value::{Value, ValueType};

verus! {

/// Whether a value is a fraction of a type.
pub open spec fn is_fraction(t: ValueType, v: Value) -> bool {
    match t {
        ValueType::Float32 => v is Float32,
        ValueType::Float64 => v is Float64,
        ValueType::Complex64 => v is Complex64,
        ValueType::Complex128 => v is Complex128,
        _ => false,
    }
}

/// Whether an operation is one of those on fractions.
pub open spec fn is_fraction_op(op: Opcode) -> bool {
    op == Opcode::ADD || op == Opcode::SUB || op == Opcode::MUL || op == Opcode::QUO
}

/// Whether an instruction hands a task to the host, and the answer goes into its result
/// slot; nothing else changes.
pub open spec fn asks_for(p: &Bytecode, w: VmView, f: FiberView, task: FloatTask, r: Value) -> bool {
    step(p, w, f) matches Some((w1, f1, n)) && {
        &&& w1 == w
        &&& n == StepView::Ask(Ask::Query(Query::Float(task)))
        &&& goes_on(f, (FiberView { pending: f.pending, ..f1 }), 1)
        &&& resume(p, w, f1, Reply::Value(r)) == Some(
            (
                with_result(w, f, inst_at(p, f).d as int, r),
                FiberView { pending: None, ..f1 },
                StepView::Next,
            ),
        )
    }
}

/// An operation on two fractions is the host's: it gets the first operand and the
/// second, in this order.
pub proof fn law_fractions_calculate(
    p: &Bytecode,
    w: VmView,
    f: FiberView,
    a: Value,
    b: Value,
    r: Value,
)
    requires
        comes_to(p, f, inst_at(p, f).op0, 0),
        is_fraction_op(inst_at(p, f).op0),
        ({
            let t = inst_at(p, f).t0;
            is_fraction(t, a) && is_fraction(t, b) && is_fraction(t, r)
        }),
        holds(p, w, f, inst_at(p, f).s0, a),
        holds(p, w, f, inst_at(p, f).s1, b),
        has_slot(w, f, inst_at(p, f).d as int),
    ensures
        asks_for(
            p,
            w,
            f,
            FloatTask::Binary { op: inst_at(p, f).op0, t: inst_at(p, f).t0, a, b },
            r,
        ),
{
    let inst = inst_at(p, f);
    lemma_operand(p, w, f, inst.s0);
    lemma_operand(p, w, f, inst.s1);
    lemma_step(p, w, f);
    lemma_result(w, f, inst.d, r);
}

/// An operation that changes a fraction in a slot is the host's: it gets what the slot
/// holds and then the operand.
pub proof fn law_fraction_changes(
    p: &Bytecode,
    w: VmView,
    f: FiberView,
    op: Opcode,
    b: Value,
    r: Value,
)
    requires
        comes_to(p, f, inst_at(p, f).op0, 0),
        is_fraction_op(op) && changes_by(inst_at(p, f).op0, op),
        has_slot(w, f, inst_at(p, f).d as int),
        ({
            let t = inst_at(p, f).t0;
            is_fraction(t, slot_of(w, f, inst_at(p, f).d as int)) && is_fraction(t, b)
                && is_fraction(t, r)
        }),
        holds(p, w, f, inst_at(p, f).s0, b),
    ensures
        asks_for(
            p,
            w,
            f,
            FloatTask::Binary {
                op,
                t: inst_at(p, f).t0,
                a: slot_of(w, f, inst_at(p, f).d as int),
                b,
            },
            r,
        ),
{
    let inst = inst_at(p, f);
    lemma_operand(p, w, f, inst.s0);
    lemma_step(p, w, f);
    lemma_result(w, f, inst.d, r);
}

/// A fraction in a slot goes up or down by one through the host.
pub proof fn law_fraction_steps(p: &Bytecode, w: VmView, f: FiberView, r: Value)
    requires
        comes_to(p, f, inst_at(p, f).op0, 0),
        inst_at(p, f).op0 == Opcode::INC || inst_at(p, f).op0 == Opcode::DEC,
        has_slot(w, f, inst_at(p, f).d as int),
        ({
            let t = inst_at(p, f).t0;
            is_fraction(t, slot_of(w, f, inst_at(p, f).d as int)) && is_fraction(t, r)
        }),
    ensures
        ({
            let t = inst_at(p, f).t0;
            let a = slot_of(w, f, inst_at(p, f).d as int);
            asks_for(
                p,
                w,
                f,
                if inst_at(p, f).op0 == Opcode::INC {
                    FloatTask::Inc { t, a }
                } else {
                    FloatTask::Dec { t, a }
                },
                r,
            )
        }),
{
    let inst = inst_at(p, f);
    lemma_step(p, w, f);
    lemma_result(w, f, inst.d, r);
}

/// Whether two fractions of 32 bits differ in the sign only.
pub open spec fn turned32(a: u32, b: u32) -> bool {
    a + 0x8000_0000 == b || b + 0x8000_0000 == a
}

/// Whether two fractions of 64 bits differ in the sign only.
pub open spec fn turned64(a: u64, b: u64) -> bool {
    a + 0x8000_0000_0000_0000 == b || b + 0x8000_0000_0000_0000 == a
}

/// Whether a fraction is another with the sign turned.
pub open spec fn is_turned(a: Value, b: Value) -> bool {
    match (a, b) {
        (Value::Float32(x), Value::Float32(y)) => turned32(x, y),
        (Value::Float64(x), Value::Float64(y)) => turned64(x, y),
        (Value::Complex64(x, i), Value::Complex64(y, j)) => turned32(x, y) && turned32(i, j),
        (Value::Complex128(x, i), Value::Complex128(y, j)) => turned64(x, y) && turned64(i, j),
        _ => false,
    }
}

/// The negative of a fraction is the fraction with the sign turned.
pub proof fn law_fraction_turns(p: &Bytecode, w: VmView, f: FiberView, a: Value, b: Value)
    requires
        comes_to(p, f, Opcode::UNARY_SUB, 0),
        is_fraction(inst_at(p, f).t0, a),
        is_turned(a, b),
        holds(p, w, f, inst_at(p, f).s0, a),
        has_slot(w, f, inst_at(p, f).d as int),
    ensures
        results_in(p, w, f, inst_at(p, f).d, b),
{
    let inst = inst_at(p, f);
    lemma_operand(p, w, f, inst.s0);
    lemma_result(w, f, inst.d, b);
    lemma_turned(inst.t0, a, b);
    lemma_goes_on(p, w, f, with_result(w, f, inst.d as int, b));
}

proof fn lemma_turned(t: ValueType, a: Value, b: Value)
    requires
        is_fraction(t, a),
        is_turned(a, b),
    ensures
        crate::num::word_unary(Opcode::UNARY_SUB, t, a) == Some(b),
{
}

} // verus!

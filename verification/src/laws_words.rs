//! What the instructions do that calculate and compare.
use vstd::prelude::*;
use crate::bytecode::{Bytecode, Opcode};
use crate::fiber::{FiberView, StepView};
use crate::laws_basis::{
    comes_to, goes_on, has_slot, holds, inst_at, lemma_goes_on, lemma_operand, lemma_result,
    lemma_step, slot_of, with_result,
};
use crate::laws_numbers::{
    gives, has_number, is_integer_op, law_integers_calculate, law_integers_shift, law_integers_step,
    law_words_turn, left_of, shifts,
};
use crate::machine::VmView;
use crate::run::step;
use crate::value::{IntKind, OpIndex, Value, ValueType};

verus! {

/// Whether an instruction put a value into its result slot, and did nothing else.
pub open spec fn results_in(p: &Bytecode, w: VmView, f: FiberView, d: OpIndex, v: Value) -> bool {
    step(p, w, f) matches Some((w1, f1, s)) && s == StepView::Next && goes_on(f, f1, 1) && w1
        == with_result(w, f, d as int, v)
}

/// Whether an instruction that changes its result slot does so with an operation.
pub open spec fn changes_by(op: Opcode, plain: Opcode) -> bool {
    match op {
        Opcode::ADD_ASSIGN => plain == Opcode::ADD,
        Opcode::SUB_ASSIGN => plain == Opcode::SUB,
        Opcode::MUL_ASSIGN => plain == Opcode::MUL,
        Opcode::QUO_ASSIGN => plain == Opcode::QUO,
        Opcode::REM_ASSIGN => plain == Opcode::REM,
        Opcode::AND_ASSIGN => plain == Opcode::AND,
        Opcode::OR_ASSIGN => plain == Opcode::OR,
        Opcode::XOR_ASSIGN => plain == Opcode::XOR,
        Opcode::AND_NOT_ASSIGN => plain == Opcode::AND_NOT,
        Opcode::SHL_ASSIGN => plain == Opcode::SHL,
        Opcode::SHR_ASSIGN => plain == Opcode::SHR,
        _ => false,
    }
}

/// An operation on two integers puts into the result slot what it gives for the first
/// operand and the second, in this order.
pub proof fn law_integer_instruction(
    p: &Bytecode,
    w: VmView,
    f: FiberView,
    op: Opcode,
    k: IntKind,
    a: i128,
    b: i128,
)
    requires
        comes_to(p, f, op, 0),
        is_integer_op(op),
        inst_at(p, f).t0 == k.spec_value_type(),
        holds(p, w, f, inst_at(p, f).s0, Value::Int(k, a)),
        holds(p, w, f, inst_at(p, f).s1, Value::Int(k, b)),
        has_slot(w, f, inst_at(p, f).d as int),
        has_number(k, a as int),
        has_number(k, b as int),
    ensures
        (op == Opcode::QUO || op == Opcode::REM) && b == 0 ==> step(p, w, f) is None,
        !((op == Opcode::QUO || op == Opcode::REM) && b == 0) ==> exists|r: i128|
            #[trigger] gives(op, k, a, b, r) && results_in(
                p,
                w,
                f,
                inst_at(p, f).d,
                Value::Int(k, r),
            ),
{
    let inst = inst_at(p, f);
    law_integers_calculate(op, k, a, b);
    lemma_operand(p, w, f, inst.s0);
    lemma_operand(p, w, f, inst.s1);
    lemma_step(p, w, f);
    if !((op == Opcode::QUO || op == Opcode::REM) && b == 0) {
        let r = crate::num::word_op(op, inst.t0, Value::Int(k, a), Value::Int(k, b))->Some_0->Done_0->Int_1;
        lemma_result(w, f, inst.d, Value::Int(k, r));
        lemma_goes_on(p, w, f, with_result(w, f, inst.d as int, Value::Int(k, r)));
        assert(gives(op, k, a, b, r));
    }
}

/// An assignment with an operation on integers leaves in the result slot what the
/// operation gives for what the slot held and the operand, in this order.
pub proof fn law_integer_assignment(
    p: &Bytecode,
    w: VmView,
    f: FiberView,
    op: Opcode,
    plain: Opcode,
    k: IntKind,
    a: i128,
    b: i128,
)
    requires
        comes_to(p, f, op, 0),
        changes_by(op, plain),
        is_integer_op(plain),
        inst_at(p, f).t0 == k.spec_value_type(),
        has_slot(w, f, inst_at(p, f).d as int),
        slot_of(w, f, inst_at(p, f).d as int) == Value::Int(k, a),
        holds(p, w, f, inst_at(p, f).s0, Value::Int(k, b)),
        has_number(k, a as int),
        has_number(k, b as int),
    ensures
        (plain == Opcode::QUO || plain == Opcode::REM) && b == 0 ==> step(p, w, f) is None,
        !((plain == Opcode::QUO || plain == Opcode::REM) && b == 0) ==> exists|r: i128|
            #[trigger] gives(plain, k, a, b, r) && results_in(
                p,
                w,
                f,
                inst_at(p, f).d,
                Value::Int(k, r),
            ),
{
    let inst = inst_at(p, f);
    law_integers_calculate(plain, k, a, b);
    lemma_operand(p, w, f, inst.s0);
    lemma_step(p, w, f);
    if !((plain == Opcode::QUO || plain == Opcode::REM) && b == 0) {
        let r = crate::num::word_op(plain, inst.t0, Value::Int(k, a), Value::Int(k, b))->Some_0->Done_0->Int_1;
        lemma_result(w, f, inst.d, Value::Int(k, r));
        lemma_goes_on(p, w, f, with_result(w, f, inst.d as int, Value::Int(k, r)));
        assert(gives(plain, k, a, b, r));
    }
}

/// A shift puts the first operand, shifted by so many places as the second one says,
/// into the result slot.
pub proof fn law_shift_instruction(
    p: &Bytecode,
    w: VmView,
    f: FiberView,
    op: Opcode,
    k: IntKind,
    a: i128,
    j: IntKind,
    n: i128,
)
    requires
        comes_to(p, f, op, 0),
        op == Opcode::SHL || op == Opcode::SHR,
        inst_at(p, f).t0 == k.spec_value_type(),
        inst_at(p, f).t1 == j.spec_value_type(),
        holds(p, w, f, inst_at(p, f).s0, Value::Int(k, a)),
        holds(p, w, f, inst_at(p, f).s1, Value::Int(j, n)),
        has_slot(w, f, inst_at(p, f).d as int),
        has_number(k, a as int),
        has_number(j, n as int),
        0 <= n <= 0xffff_ffff,
    ensures
        exists|r: i128| #[trigger]
            shifts(op, k, a, n as int, r) && has_number(k, r as int) && results_in(
                p,
                w,
                f,
                inst_at(p, f).d,
                Value::Int(k, r),
            ),
{
    let inst = inst_at(p, f);
    let u = IntKind::Uint32;
    law_integers_shift(op, k, a, u, n);
    crate::laws_numbers::lemma_left(u, n as int);
    lemma_operand(p, w, f, inst.s0);
    lemma_operand(p, w, f, inst.s1);
    let r = crate::num::word_op(op, inst.t0, Value::Int(k, a), Value::Int(u, n))->Some_0->Done_0->Int_1;
    lemma_result(w, f, inst.d, Value::Int(k, r));
    lemma_goes_on(p, w, f, with_result(w, f, inst.d as int, Value::Int(k, r)));
    assert(shifts(op, k, a, n as int, r));
}

/// An assignment with a shift leaves in the result slot what it held, shifted by so
/// many places as the operand says.
pub proof fn law_shift_assignment(
    p: &Bytecode,
    w: VmView,
    f: FiberView,
    op: Opcode,
    plain: Opcode,
    k: IntKind,
    a: i128,
    j: IntKind,
    n: i128,
)
    requires
        comes_to(p, f, op, 0),
        changes_by(op, plain),
        plain == Opcode::SHL || plain == Opcode::SHR,
        inst_at(p, f).t0 == k.spec_value_type(),
        inst_at(p, f).t1 == j.spec_value_type(),
        has_slot(w, f, inst_at(p, f).d as int),
        slot_of(w, f, inst_at(p, f).d as int) == Value::Int(k, a),
        holds(p, w, f, inst_at(p, f).s0, Value::Int(j, n)),
        has_number(k, a as int),
        has_number(j, n as int),
        0 <= n <= 0xffff_ffff,
    ensures
        exists|r: i128| #[trigger]
            shifts(plain, k, a, n as int, r) && has_number(k, r as int) && results_in(
                p,
                w,
                f,
                inst_at(p, f).d,
                Value::Int(k, r),
            ),
{
    let inst = inst_at(p, f);
    let u = IntKind::Uint32;
    law_integers_shift(plain, k, a, u, n);
    crate::laws_numbers::lemma_left(u, n as int);
    lemma_operand(p, w, f, inst.s0);
    let r = crate::num::word_op(plain, inst.t0, Value::Int(k, a), Value::Int(u, n))->Some_0->Done_0->Int_1;
    lemma_result(w, f, inst.d, Value::Int(k, r));
    lemma_goes_on(p, w, f, with_result(w, f, inst.d as int, Value::Int(k, r)));
    assert(shifts(plain, k, a, n as int, r));
}

/// A step adds one to what the result slot holds, or takes one away.
pub proof fn law_step_instruction(p: &Bytecode, w: VmView, f: FiberView, op: Opcode, k: IntKind, a: i128)
    requires
        comes_to(p, f, op, 0),
        op == Opcode::INC || op == Opcode::DEC,
        inst_at(p, f).t0 == k.spec_value_type(),
        has_slot(w, f, inst_at(p, f).d as int),
        slot_of(w, f, inst_at(p, f).d as int) == Value::Int(k, a),
        has_number(k, a as int),
    ensures
        exists|r: i128|
            left_of(
                k,
                r as int,
                if op == Opcode::INC {
                    a + 1
                } else {
                    a - 1
                },
            ) && #[trigger] results_in(p, w, f, inst_at(p, f).d, Value::Int(k, r)),
{
    let inst = inst_at(p, f);
    law_integers_step(k, a);
    let r = crate::num::word_step(op == Opcode::INC, inst.t0, Value::Int(k, a))->Some_0->Done_0->Int_1;
    lemma_result(w, f, inst.d, Value::Int(k, r));
    lemma_goes_on(p, w, f, with_result(w, f, inst.d as int, Value::Int(k, r)));
    assert(results_in(p, w, f, inst.d, Value::Int(k, r)));
}

/// The sign of an integer is turned, or all of its bits are.
pub proof fn law_turn_instruction(p: &Bytecode, w: VmView, f: FiberView, op: Opcode, k: IntKind, a: i128)
    requires
        comes_to(p, f, op, 0),
        op == Opcode::UNARY_SUB || op == Opcode::UNARY_XOR,
        inst_at(p, f).t0 == k.spec_value_type(),
        holds(p, w, f, inst_at(p, f).s0, Value::Int(k, a)),
        has_slot(w, f, inst_at(p, f).d as int),
        has_number(k, a as int),
    ensures
        exists|r: i128|
            left_of(
                k,
                r as int,
                if op == Opcode::UNARY_SUB {
                    -a
                } else {
                    (!a) as int
                },
            ) && #[trigger] results_in(p, w, f, inst_at(p, f).d, Value::Int(k, r)),
{
    let inst = inst_at(p, f);
    law_words_turn(k, a, true);
    lemma_operand(p, w, f, inst.s0);
    let r = crate::num::word_unary(op, inst.t0, Value::Int(k, a))->Some_0->Int_1;
    lemma_result(w, f, inst.d, Value::Int(k, r));
    lemma_goes_on(p, w, f, with_result(w, f, inst.d as int, Value::Int(k, r)));
    assert(results_in(p, w, f, inst.d, Value::Int(k, r)));
}

/// The opposite of a truth is the other one.
pub proof fn law_not_instruction(p: &Bytecode, w: VmView, f: FiberView, b: bool)
    requires
        comes_to(p, f, Opcode::NOT, 0),
        inst_at(p, f).t0 == ValueType::Bool,
        holds(p, w, f, inst_at(p, f).s0, Value::Bool(b)),
        has_slot(w, f, inst_at(p, f).d as int),
    ensures
        results_in(p, w, f, inst_at(p, f).d, Value::Bool(!b)),
{
    let inst = inst_at(p, f);
    lemma_operand(p, w, f, inst.s0);
    lemma_result(w, f, inst.d, Value::Bool(!b));
    lemma_goes_on(p, w, f, with_result(w, f, inst.d as int, Value::Bool(!b)));
}

/// What a comparison of two numbers gives that come in one order.
pub open spec fn in_order(op: Opcode, less: bool, equal: bool, greater: bool) -> bool {
    match op {
        Opcode::EQL => equal,
        Opcode::NEQ => !equal,
        Opcode::LSS => less,
        Opcode::GTR => greater,
        Opcode::LEQ => less || equal,
        _ => greater || equal,
    }
}

/// Whether an operation is a comparison.
pub open spec fn compares(op: Opcode) -> bool {
    op == Opcode::EQL || op == Opcode::NEQ || op == Opcode::LSS || op == Opcode::GTR || op
        == Opcode::LEQ || op == Opcode::GEQ
}

/// Two integers of one type are compared as the numbers that they are.
pub proof fn law_integers_compare(
    p: &Bytecode,
    w: VmView,
    f: FiberView,
    op: Opcode,
    k: IntKind,
    a: i128,
    b: i128,
)
    requires
        comes_to(p, f, op, 0),
        compares(op),
        inst_at(p, f).t0 == k.spec_value_type(),
        inst_at(p, f).t1 == k.spec_value_type(),
        holds(p, w, f, inst_at(p, f).s0, Value::Int(k, a)),
        holds(p, w, f, inst_at(p, f).s1, Value::Int(k, b)),
        has_slot(w, f, inst_at(p, f).d as int),
    ensures
        results_in(p, w, f, inst_at(p, f).d, Value::Bool(in_order(op, a < b, a == b, a > b))),
{
    let inst = inst_at(p, f);
    let v = Value::Bool(in_order(op, a < b, a == b, a > b));
    lemma_operand(p, w, f, inst.s0);
    lemma_operand(p, w, f, inst.s1);
    lemma_result(w, f, inst.d, v);
    assert(inst.t0.spec_copyable());
    lemma_goes_on(p, w, f, with_result(w, f, inst.d as int, v));
}

} // verus!

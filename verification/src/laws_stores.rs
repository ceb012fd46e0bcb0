//! What is stored of strings, arrays, structs and fractions, and what references
//! lead to.
use vstd::prelude::*;
use crate::bytecode::{Bytecode, Opcode};
use crate::content::{copy_semantic, slice_seq};
use crate::effect::{Ask, Query};
use crate::fiber::{FiberView, StepView};
use crate::laws_basis::{
    comes_to, goes_on, has_slot, holds, inst_at, is_copy, lemma_copies, lemma_goes_on,
    lemma_operand, lemma_result, lemma_step, lemma_stops, operand, spells, with_result, word_after,
};
use crate::laws_places::{
    content, is_store, is_there, lemma_store, place_at, stored_from, stored_to, with_content,
    Variable,
};
use crate::laws_words::results_in;
use crate::machine::VmView;
use crate::num::FloatTask;
use crate::ops_place::concat;
use crate::place::store;
use crate::reply::{resume, Reply};
use crate::run::step;
use crate::trap::Trap;
use crate::value::{IntKind, SliceRef, Value, ValueType};

verus! {

/// Whether a string is put together out of two: its bytes are those of the first and
/// then those of the second, in new cells.
pub open spec fn joins(w: VmView, w1: VmView, v: Value, b: Seq<u8>, c: Seq<u8>) -> bool {
    &&& w1 == (VmView { cells: w1.cells, ..w })
    &&& w.cells.len() <= w1.cells.len()
    &&& forall|i: int| 0 <= i < w.cells.len() ==> #[trigger] w1.cells[i] == w.cells[i]
    &&& v matches Value::Str(s) && spells(w1.cells, s, b + c) && s.array.base >= w.cells.len()
}

proof fn lemma_concat(w: VmView, s: SliceRef, t: SliceRef, b: Seq<u8>, c: Seq<u8>)
    requires
        spells(w.cells, s, b),
        spells(w.cells, t, c),
        w.cells.len() + b.len() + c.len() <= usize::MAX,
    ensures
        concat(w, Value::Str(s), Value::Str(t)) matches Ok((w1, v)) && joins(w, w1, v, b, c),
{
    let (w1, v) = concat(w, Value::Str(s), Value::Str(t))->Ok_0;
    let x = slice_seq(w.cells, s)->Ok_0;
    let y = slice_seq(w.cells, t)->Ok_0;
    let u = v->Str_0;
    assert forall|i: int| 0 <= i < (b + c).len() implies w1.cells[u.array.base + u.begin + i]
        == Value::Int(IntKind::Uint8, #[trigger] (b + c)[i] as i128) by {
        if i < b.len() {
            assert(x[i] == Value::Int(IntKind::Uint8, b[i] as i128));
        } else {
            assert(y[i - b.len()] == Value::Int(IntKind::Uint8, c[i - b.len()] as i128));
        }
    }
}

/// The sum of two strings has the bytes of the first and behind them those of the
/// second. It goes into the result slot.
pub proof fn law_strings_join(
    p: &Bytecode,
    w: VmView,
    f: FiberView,
    s: SliceRef,
    t: SliceRef,
    b: Seq<u8>,
    c: Seq<u8>,
)
    requires
        comes_to(p, f, Opcode::ADD, 0),
        inst_at(p, f).t0 == ValueType::String,
        holds(p, w, f, inst_at(p, f).s0, Value::Str(s)),
        holds(p, w, f, inst_at(p, f).s1, Value::Str(t)),
        has_slot(w, f, inst_at(p, f).d as int),
        spells(w.cells, s, b),
        spells(w.cells, t, c),
        w.cells.len() + b.len() + c.len() <= usize::MAX,
    ensures
        step(p, w, f) matches Some((w1, f1, n)) && n == StepView::Next && goes_on(f, f1, 1)
            && exists|x: VmView, v: Value| #[trigger]
            joins(w, x, v, b, c) && w1 == with_result(x, f, inst_at(p, f).d as int, v),
{
    let inst = inst_at(p, f);
    lemma_operand(p, w, f, inst.s0);
    lemma_operand(p, w, f, inst.s1);
    lemma_concat(w, s, t, b, c);
    let (x, v) = concat(w, Value::Str(s), Value::Str(t))->Ok_0;
    lemma_result(x, f, inst.d, v);
    lemma_goes_on(p, w, f, with_result(x, f, inst.d as int, v));
    assert(joins(w, x, v, b, c));
}

/// A string that is added to one in a variable comes behind it.
pub proof fn law_store_joins(
    p: &Bytecode,
    w: VmView,
    f: FiberView,
    x: Variable,
    s: SliceRef,
    t: SliceRef,
    b: Seq<u8>,
    c: Seq<u8>,
)
    requires
        comes_to(p, f, inst_at(p, f).op0, 0),
        is_store(inst_at(p, f).op0),
        inst_at(p, f).op1 == Opcode::ADD,
        inst_at(p, f).t0 == ValueType::String,
        stored_to(p, w, f) == Some(x),
        is_there(w, x),
        content(w, x) == Value::Str(s),
        holds(p, w, f, stored_from(inst_at(p, f)), Value::Str(t)),
        spells(w.cells, s, b),
        spells(w.cells, t, c),
        w.cells.len() + b.len() + c.len() <= usize::MAX,
    ensures
        step(p, w, f) matches Some((w1, f1, n)) && n == StepView::Next && goes_on(f, f1, 1)
            && exists|y: VmView, v: Value| #[trigger]
            joins(w, y, v, b, c) && w1 == with_content(y, x, v),
{
    let inst = inst_at(p, f);
    lemma_operand(p, w, f, stored_from(inst));
    lemma_concat(w, s, t, b, c);
    let (y, v) = concat(w, Value::Str(s), Value::Str(t))->Ok_0;
    lemma_store(p, w, f, inst);
    lemma_store(p, w, f, word_after(p, f));
    let place = place_at(p, w, f, inst.op0, inst.d, inst.s0)->Ok_0;
    assert(store(p, y, place, v) == Ok::<VmView, Trap>(with_content(y, x, v)));
    lemma_goes_on(p, w, f, with_content(y, x, v));
    assert(joins(w, y, v, b, c));
}

/// An array or a struct that is stored is copied first: the variable then holds the
/// copy.
pub proof fn law_store_copies(p: &Bytecode, w: VmView, f: FiberView, x: Variable, v: Value)
    requires
        comes_to(p, f, inst_at(p, f).op0, 0),
        is_store(inst_at(p, f).op0),
        inst_at(p, f).op1 == Opcode::VOID,
        stored_to(p, w, f) == Some(x),
        is_there(w, x),
        holds(p, w, f, stored_from(inst_at(p, f)), v),
    ensures
        copy_semantic(w, v) is Ok ==> step(p, w, f) is Some,
        step(p, w, f) matches Some((w1, f1, n)) ==> n == StepView::Next && goes_on(f, f1, 1)
            && exists|y: VmView, u: Value| #[trigger]
            is_copy(w, y, v, u) && w1 == with_content(y, x, u),
{
    let inst = inst_at(p, f);
    lemma_operand(p, w, f, stored_from(inst));
    lemma_store(p, w, f, inst);
    lemma_store(p, w, f, word_after(p, f));
    lemma_copies(w, v);
    let place = place_at(p, w, f, inst.op0, inst.d, inst.s0)->Ok_0;
    match copy_semantic(w, v) {
        Ok((y, u)) => {
            assert(store(p, y, place, u) == Ok::<VmView, Trap>(with_content(y, x, u)));
            lemma_goes_on(p, w, f, with_content(y, x, u));
            assert(is_copy(w, y, v, u));
        },
        Err(_) => {
            lemma_stops(p, w, f);
        },
    }
}

/// A value that is duplicated is copied into the result slot.
pub proof fn law_duplicate_copies(p: &Bytecode, w: VmView, f: FiberView, v: Value)
    requires
        comes_to(p, f, Opcode::DUPLICATE, 0),
        holds(p, w, f, inst_at(p, f).s0, v),
        has_slot(w, f, inst_at(p, f).d as int),
    ensures
        copy_semantic(w, v) is Ok ==> step(p, w, f) is Some,
        !(v is Array) && !(v is Struct) ==> results_in(p, w, f, inst_at(p, f).d, v),
        step(p, w, f) matches Some((w1, f1, n)) ==> n == StepView::Next && goes_on(f, f1, 1)
            && exists|y: VmView, u: Value| #[trigger]
            is_copy(w, y, v, u) && w1 == with_result(y, f, inst_at(p, f).d as int, u),
{
    let inst = inst_at(p, f);
    lemma_operand(p, w, f, inst.s0);
    lemma_copies(w, v);
    match copy_semantic(w, v) {
        Ok((y, u)) => {
            lemma_result(y, f, inst.d, u);
            lemma_goes_on(p, w, f, with_result(y, f, inst.d as int, u));
            assert(is_copy(w, y, v, u));
        },
        Err(_) => {
            lemma_stops(p, w, f);
        },
    }
}

/// A calculation with fractions that is combined with a store is the host's: it gets
/// what the variable holds and then the operand, and what it answers with is left in
/// the variable.
pub proof fn law_store_of_fractions(
    p: &Bytecode,
    w: VmView,
    f: FiberView,
    x: Variable,
    a: Value,
    b: Value,
    r: Value,
)
    requires
        comes_to(p, f, inst_at(p, f).op0, 0),
        is_store(inst_at(p, f).op0),
        ({
            let op = inst_at(p, f).op1;
            op == Opcode::ADD || op == Opcode::SUB || op == Opcode::MUL || op == Opcode::QUO
        }),
        ({
            let t = inst_at(p, f).t0;
            &&& t == ValueType::Float32 || t == ValueType::Float64 || t == ValueType::Complex64
                || t == ValueType::Complex128
            &&& a.spec_typ() == t && b.spec_typ() == t && r.spec_typ() == t
        }),
        !(r is Nil),
        stored_to(p, w, f) == Some(x),
        is_there(w, x),
        content(w, x) == a,
        holds(p, w, f, stored_from(inst_at(p, f)), b),
    ensures
        step(p, w, f) matches Some((w1, f1, n)) && {
            let inst = inst_at(p, f);
            &&& w1 == w
            &&& n == StepView::Ask(
                Ask::Query(Query::Float(FloatTask::Binary { op: inst.op1, t: inst.t0, a, b })),
            )
            &&& goes_on(f, (FiberView { pending: f.pending, ..f1 }), 1)
            &&& resume(p, w, f1, Reply::Value(r)) == Some(
                (with_content(w, x, r), FiberView { pending: None, ..f1 }, StepView::Next),
            )
        },
{
    let inst = inst_at(p, f);
    lemma_operand(p, w, f, stored_from(inst));
    lemma_store(p, w, f, inst);
    lemma_store(p, w, f, word_after(p, f));
    let place = place_at(p, w, f, inst.op0, inst.d, inst.s0)->Ok_0;
    lemma_step(p, w, f);
    assert(store(p, w, place, r) == Ok::<VmView, Trap>(with_content(w, x, r)));
}

} // verus!

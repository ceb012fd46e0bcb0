//! What conversions and assertions of types give.
use vstd::prelude::*;
use crate::bytecode::{Bytecode, Opcode};
use crate::content::copy_semantic;
use crate::effect::{Ask, Query};
use crate::embed::spec_type_assert;
use crate::fiber::{FiberView, StepView};
use crate::laws_basis::{
    comes_to, goes_on, has_slot, holds, inst_at, is_copy, lemma_copies, lemma_goes_on,
    lemma_operand, lemma_raises, lemma_result, lemma_step, lemma_stops, moved, raises, with_result,
    word_after,
};
use crate::laws_numbers::{has_number, left_of, lemma_left};
use crate::laws_places::{content, is_there, lemma_target, target_of};
use crate::laws_words::results_in;
use crate::machine::VmView;
use crate::meta::{same_type, zero_value};
use crate::num::FloatTask;
use crate::reply::{resume, Reply};
use crate::run::{context_of, step};
use crate::trap::Trap;
use crate::value::{IntKind, InterfaceObj, Meta, UnsafePtr, Value, ValueType};

verus! {

/// An integer that is converted to another integer type is what is left of it there.
pub proof fn law_integers_convert(p: &Bytecode, w: VmView, f: FiberView, k: IntKind, j: IntKind, n: i128)
    requires
        comes_to(p, f, Opcode::CAST, 0),
        inst_at(p, f).t1 == k.spec_value_type(),
        inst_at(p, f).t0 == j.spec_value_type(),
        holds(p, w, f, inst_at(p, f).s0, Value::Int(k, n)),
        has_slot(w, f, inst_at(p, f).d as int),
        has_number(k, n as int),
    ensures
        exists|r: i128| #[trigger]
            left_of(j, r as int, n as int) && results_in(
                p,
                w,
                f,
                inst_at(p, f).d,
                Value::Int(j, r),
            ),
{
    let inst = inst_at(p, f);
    lemma_operand(p, w, f, inst.s0);
    lemma_left(j, n as int);
    let r = crate::num::wrap(j, n as int) as i128;
    lemma_result(w, f, inst.d, Value::Int(j, r));
    lemma_goes_on(p, w, f, with_result(w, f, inst.d as int, Value::Int(j, r)));
    assert(left_of(j, r as int, n as int));
}

/// A fraction is converted by the host, which gets the fraction and both types; what it
/// answers with goes into the result slot.
pub proof fn law_fractions_convert(p: &Bytecode, w: VmView, f: FiberView, v: Value, r: Value)
    requires
        comes_to(p, f, Opcode::CAST, 0),
        ({
            let t = inst_at(p, f).t1;
            let u = inst_at(p, f).t0;
            &&& t == ValueType::Float32 || t == ValueType::Float64
            &&& u == ValueType::Float32 || u == ValueType::Float64 || u == ValueType::Int || u
                == ValueType::Uint32
            &&& t != u && v.spec_typ() == t && r.spec_typ() == u
        }),
        !(v is Nil) && !(r is Nil),
        r matches Value::Int(k, n) ==> has_number(k, n as int),
        holds(p, w, f, inst_at(p, f).s0, v),
        has_slot(w, f, inst_at(p, f).d as int),
    ensures
        step(p, w, f) matches Some((w1, f1, n)) && {
            let inst = inst_at(p, f);
            &&& w1 == w
            &&& n == StepView::Ask(
                Ask::Query(Query::Float(FloatTask::Cast { from: inst.t1, to: inst.t0, a: v })),
            )
            &&& goes_on(f, (FiberView { pending: f.pending, ..f1 }), 1)
            &&& resume(p, w, f1, Reply::Value(r)) == Some(
                (
                    with_result(w, f, inst.d as int, r),
                    FiberView { pending: None, ..f1 },
                    StepView::Next,
                ),
            )
        },
{
    let inst = inst_at(p, f);
    lemma_operand(p, w, f, inst.s0);
    lemma_step(p, w, f);
    lemma_result(w, f, inst.d, r);
}

/// A value that is converted to an interface is copied into a new cell, and the result
/// leads to the cell and has the methods that the instruction names.
pub proof fn law_interface_is_made(p: &Bytecode, w: VmView, f: FiberView, v: Value)
    requires
        comes_to(p, f, Opcode::CAST, 0),
        inst_at(p, f).t0 == ValueType::Interface,
        0 <= inst_at(p, f).s1 < p.ifaces@.len(),
        holds(p, w, f, inst_at(p, f).s0, v),
        has_slot(w, f, inst_at(p, f).d as int),
    ensures
        copy_semantic(w, v) is Ok ==> step(p, w, f) is Some,
        step(p, w, f) matches Some((w1, f1, s)) ==> s == StepView::Next && goes_on(f, f1, 1)
            && exists|y: VmView, u: Value| #[trigger]
            is_copy(w, y, v, u) && w1 == with_result(
                VmView { cells: y.cells.push(u), ..y },
                f,
                inst_at(p, f).d as int,
                Value::Interface(
                    InterfaceObj::Gos {
                        under: y.cells.len() as usize,
                        binding: Some(inst_at(p, f).s1 as usize),
                    },
                ),
            ),
{
    let inst = inst_at(p, f);
    lemma_operand(p, w, f, inst.s0);
    lemma_copies(w, v);
    match copy_semantic(w, v) {
        Ok((y, u)) => {
            let z = VmView { cells: y.cells.push(u), ..y };
            let i = Value::Interface(
                InterfaceObj::Gos {
                    under: y.cells.len() as usize,
                    binding: Some(inst.s1 as usize),
                },
            );
            lemma_result(z, f, inst.d, i);
            lemma_goes_on(p, w, f, with_result(z, f, inst.d as int, i));
            assert(is_copy(w, y, v, u));
        },
        Err(_) => {
            lemma_stops(p, w, f);
        },
    }
}

/// A pointer loses its type and gets it back where it points to a value of that type;
/// otherwise that is a mistake. One of the host never becomes a pointer.
pub proof fn law_pointers_convert(p: &Bytecode, w: VmView, f: FiberView, v: Value)
    requires
        comes_to(p, f, Opcode::CAST, 0),
        holds(p, w, f, inst_at(p, f).s0, v),
        has_slot(w, f, inst_at(p, f).d as int),
    ensures
        ({
            let inst = inst_at(p, f);
            &&& inst.t0 == ValueType::UnsafePtr && inst.t1 == ValueType::Pointer ==> {
                &&& v matches Value::Pointer(ptr) ==> results_in(
                    p,
                    w,
                    f,
                    inst.d,
                    Value::UnsafePtr(UnsafePtr::Handle(ptr)),
                )
                &&& v is Nil ==> results_in(
                    p,
                    w,
                    f,
                    inst.d,
                    Value::Nil(ValueType::UnsafePtr),
                )
            }
            &&& inst.t0 == ValueType::Pointer && inst.t1 == ValueType::Pointer ==> results_in(
                p,
                w,
                f,
                inst.d,
                v,
            )
            &&& inst.t0 == ValueType::Pointer && inst.t1 == ValueType::UnsafePtr ==> {
                &&& v is Nil ==> results_in(p, w, f, inst.d, Value::Nil(ValueType::Pointer))
                &&& v matches Value::UnsafePtr(UnsafePtr::Foreign(_)) ==> raises(
                    p,
                    w,
                    f,
                    "only a unsafe-pointer cast from a pointer can be cast back to a pointer"@,
                )
                &&& v matches Value::UnsafePtr(UnsafePtr::Handle(ptr)) ==> target_of(
                    p,
                    w,
                    ptr,
                ) matches Some(x) ==> is_there(w, x) ==> if content(w, x).spec_typ()
                    == inst.op1_t {
                    results_in(p, w, f, inst.d, Value::Pointer(ptr))
                } else {
                    raises(
                        p,
                        w,
                        f,
                        "the pointer does not point to a value of the wanted type"@,
                    )
                }
            }
        }),
{
    let inst = inst_at(p, f);
    lemma_operand(p, w, f, inst.s0);
    if inst.t0 == ValueType::UnsafePtr && inst.t1 == ValueType::Pointer {
        match v {
            Value::Pointer(ptr) => {
                let x = Value::UnsafePtr(UnsafePtr::Handle(ptr));
                lemma_result(w, f, inst.d, x);
                lemma_goes_on(p, w, f, with_result(w, f, inst.d as int, x));
            },
            Value::Nil(_) => {
                let x = Value::Nil(ValueType::UnsafePtr);
                lemma_result(w, f, inst.d, x);
                lemma_goes_on(p, w, f, with_result(w, f, inst.d as int, x));
            },
            _ => {},
        }
    } else if inst.t0 == ValueType::Pointer && inst.t1 == ValueType::Pointer {
        lemma_result(w, f, inst.d, v);
        lemma_goes_on(p, w, f, with_result(w, f, inst.d as int, v));
    } else if inst.t0 == ValueType::Pointer && inst.t1 == ValueType::UnsafePtr {
        lemma_untyped(p, w, f, v);
    }
}

proof fn lemma_untyped(p: &Bytecode, w: VmView, f: FiberView, v: Value)
    requires
        comes_to(p, f, Opcode::CAST, 0),
        holds(p, w, f, inst_at(p, f).s0, v),
        has_slot(w, f, inst_at(p, f).d as int),
        inst_at(p, f).t0 == ValueType::Pointer && inst_at(p, f).t1 == ValueType::UnsafePtr,
    ensures
        v is Nil ==> results_in(p, w, f, inst_at(p, f).d, Value::Nil(ValueType::Pointer)),
        v matches Value::UnsafePtr(UnsafePtr::Foreign(_)) ==> raises(
            p,
            w,
            f,
            "only a unsafe-pointer cast from a pointer can be cast back to a pointer"@,
        ),
        v matches Value::UnsafePtr(UnsafePtr::Handle(ptr)) ==> target_of(
            p,
            w,
            ptr,
        ) matches Some(x) ==> is_there(w, x) ==> if content(w, x).spec_typ() == inst_at(
            p,
            f,
        ).op1_t {
            results_in(p, w, f, inst_at(p, f).d, Value::Pointer(ptr))
        } else {
            raises(p, w, f, "the pointer does not point to a value of the wanted type"@)
        },
{
    let inst = inst_at(p, f);
    lemma_operand(p, w, f, inst.s0);
    lemma_step(p, w, f);
    match v {
        Value::UnsafePtr(UnsafePtr::Handle(ptr)) => {
            match target_of(p, w, ptr) {
                Some(x) => {
                    if is_there(w, x) {
                        lemma_target(p, w, ptr);
                        if content(w, x).spec_typ() == inst.op1_t {
                            lemma_result(w, f, inst.d, Value::Pointer(ptr));
                            lemma_goes_on(
                                p,
                                w,
                                f,
                                with_result(w, f, inst.d as int, Value::Pointer(ptr)),
                            );
                        } else {
                            lemma_raises(
                                p,
                                w,
                                f,
                                1,
                                "the pointer does not point to a value of the wanted type"@,
                            );
                        }
                    }
                },
                None => {},
            }
        },
        Value::UnsafePtr(_) => {
            lemma_raises(
                p,
                w,
                f,
                1,
                "only a unsafe-pointer cast from a pointer can be cast back to a pointer"@,
            );
        },
        Value::Nil(_) => {
            let x = Value::Nil(ValueType::Pointer);
            lemma_result(w, f, inst.d, x);
            lemma_goes_on(p, w, f, with_result(w, f, inst.d as int, x));
        },
        _ => {},
    }
}

/// Whether an assertion put a value into the result slot and, if asked for, whether the
/// type was right into the slot that the following word names.
pub open spec fn asserted(p: &Bytecode, w: VmView, y: VmView, f: FiberView, x: Value, ok: bool) -> bool {
    let inst = inst_at(p, f);
    step(p, w, f) matches Some((w1, f1, s)) && s == StepView::Next && if inst.t1
        == ValueType::FlagB {
        w1 == with_result(
            with_result(y, f, inst.d as int, x),
            f,
            word_after(p, f).d as int,
            Value::Bool(ok),
        ) && goes_on(f, f1, 2)
    } else {
        w1 == with_result(y, f, inst.d as int, x) && goes_on(f, f1, 1)
    }
}

/// What an interface value holds comes out as a copy where it is of the type that is
/// asserted, or where its type is not known. Otherwise the zero value of that type comes
/// out. Of an object of the host nothing can be asserted.
pub proof fn law_type_assertion(
    p: &Bytecode,
    w: VmView,
    f: FiberView,
    iface: InterfaceObj,
    want: Meta,
)
    requires
        comes_to(p, f, Opcode::TYPE_ASSERT, 1),
        inst_at(p, f).s1 < 0,
        holds(p, w, f, inst_at(p, f).s0, Value::Interface(iface)),
        holds(p, w, f, inst_at(p, f).s1, Value::Metadata(want)),
        has_slot(w, f, inst_at(p, f).d as int),
        has_slot(w, f, word_after(p, f).d as int),
    ensures
        iface is Ffi ==> raises(p, w, f, "FFI interface do not support type assertion"@),
        iface matches InterfaceObj::Gos { under, binding } ==> under < w.cells.len() ==> (
        binding matches Some(b) ==> b < p.ifaces@.len()) ==> {
            let right = match binding {
                Some(b) => same_type(p, want, p.ifaces@[b as int].meta),
                None => same_type(p, want, want),
            };
            &&& right == Ok::<bool, Trap>(true) ==> copy_semantic(w, w.cells[under as int]) is Ok
                ==> exists|y: VmView, x: Value| #[trigger]
                is_copy(w, y, w.cells[under as int], x) && asserted(p, w, y, f, x, true)
            &&& right == Ok::<bool, Trap>(false) ==> (zero_value(p, w, want) matches Ok((y, x))
                ==> asserted(p, w, y, f, x, false))
        },
{
    let inst = inst_at(p, f);
    lemma_operand(p, w, f, inst.s0);
    lemma_operand(p, w, f, inst.s1);
    match iface {
        InterfaceObj::Ffi { .. } => {
            lemma_step(p, w, f);
            lemma_raises(p, w, f, 1, "FFI interface do not support type assertion"@);
        },
        InterfaceObj::Gos { under, binding } => {
            if under < w.cells.len() && (binding matches Some(b) ==> b < p.ifaces@.len()) {
                lemma_copies(w, w.cells[under as int]);
                match spec_type_assert(p, w, Value::Interface(iface), Value::Metadata(want)) {
                    Ok((y, (x, ok))) => {
                        lemma_asserted(p, w, f, y, x, ok);
                    },
                    Err(_) => {},
                }
            }
        },
    }
}

proof fn lemma_asserted(p: &Bytecode, w: VmView, f: FiberView, y: VmView, x: Value, ok: bool)
    requires
        comes_to(p, f, Opcode::TYPE_ASSERT, 1),
        inst_at(p, f).s1 < 0 && -1 - inst_at(p, f).s1 < p.consts@.len(),
        has_slot(w, f, inst_at(p, f).d as int),
        has_slot(w, f, word_after(p, f).d as int),
        w.read(context_of(f), p.consts@, inst_at(p, f).s0) is Ok,
        spec_type_assert(
            p,
            w,
            w.read(context_of(f), p.consts@, inst_at(p, f).s0)->Ok_0,
            p.consts@[-1 - inst_at(p, f).s1],
        ) == Ok::<(VmView, (Value, bool)), Trap>((y, (x, ok))),
    ensures
        y.stacks == w.stacks ==> asserted(p, w, y, f, x, ok),
{
    let inst = inst_at(p, f);
    if y.stacks == w.stacks {
        lemma_step(p, w, f);
        lemma_result(y, f, inst.d, x);
        lemma_result(
            with_result(y, f, inst.d as int, x),
            f,
            word_after(p, f).d,
            Value::Bool(ok),
        );
        let g = moved(f, 1);
        assert(g.with_pc((g.top().pc + 1) as i32).frames =~= moved(f, 2).frames);
        assert(g.with_pc((g.top().pc + 0) as i32).frames =~= g.frames);
    }
}

/// The type of what an interface holds goes into the result slot; for nil and objects of
/// the host it is the type of nil. If asked for, a copy of what the interface holds, or
/// the interface value itself, goes into the other slot.
pub proof fn law_type_of_interface(p: &Bytecode, w: VmView, f: FiberView, v: Value)
    requires
        comes_to(p, f, Opcode::TYPE, 0),
        holds(p, w, f, inst_at(p, f).s0, v),
        has_slot(w, f, inst_at(p, f).d as int),
        has_slot(w, f, inst_at(p, f).s1 as int),
    ensures
        ({
            let inst = inst_at(p, f);
            let none = Value::Metadata(p.none_meta);
            &&& v is Nil || (v matches Value::Interface(i) && i is Ffi) ==> (step(
                p,
                w,
                f,
            ) matches Some((w1, f1, s)) && s == StepView::Next && goes_on(f, f1, 1) && w1 == if inst.t0
                == ValueType::FlagA {
                with_result(with_result(w, f, inst.d as int, none), f, inst.s1 as int, v)
            } else {
                with_result(w, f, inst.d as int, none)
            })
            &&& v matches Value::Interface(InterfaceObj::Gos { under, binding: Some(b) }) ==> b
                < p.ifaces@.len() && under < w.cells.len() && copy_semantic(
                w,
                w.cells[under as int],
            ) is Ok ==> exists|y: VmView, x: Value| #[trigger]
                is_copy(w, y, w.cells[under as int], x) && (step(p, w, f) matches Some((w1, f1, s))
                    && s == StepView::Next && goes_on(f, f1, 1) && {
                    let m = Value::Metadata(p.ifaces@[b as int].meta);
                    w1 == if inst.t0 == ValueType::FlagA {
                        with_result(with_result(y, f, inst.d as int, m), f, inst.s1 as int, x)
                    } else {
                        with_result(w, f, inst.d as int, m)
                    }
                })
        }),
{
    let inst = inst_at(p, f);
    lemma_operand(p, w, f, inst.s0);
    match v {
        Value::Interface(InterfaceObj::Gos { under, binding: Some(b) }) => {
            if b < p.ifaces@.len() && under < w.cells.len() && copy_semantic(
                w,
                w.cells[under as int],
            ) is Ok {
                let m = Value::Metadata(p.ifaces@[b as int].meta);
                lemma_copies(w, w.cells[under as int]);
                let (y, x) = copy_semantic(w, w.cells[under as int])->Ok_0;
                lemma_result(w, f, inst.d, m);
                lemma_result(y, f, inst.d, m);
                lemma_result(with_result(y, f, inst.d as int, m), f, inst.s1, x);
                lemma_goes_on(
                    p,
                    w,
                    f,
                    if inst.t0 == ValueType::FlagA {
                        with_result(with_result(y, f, inst.d as int, m), f, inst.s1 as int, x)
                    } else {
                        with_result(w, f, inst.d as int, m)
                    },
                );
                assert(is_copy(w, y, w.cells[under as int], x));
            }
        },
        _ => {
            if v is Nil || (v matches Value::Interface(i) && i is Ffi) {
                let m = Value::Metadata(p.none_meta);
                lemma_result(w, f, inst.d, m);
                lemma_result(with_result(w, f, inst.d as int, m), f, inst.s1, v);
                lemma_goes_on(
                    p,
                    w,
                    f,
                    if inst.t0 == ValueType::FlagA {
                        with_result(with_result(w, f, inst.d as int, m), f, inst.s1 as int, v)
                    } else {
                        with_result(w, f, inst.d as int, m)
                    },
                );
            }
        },
    }
}

/// A pointer without a type, converted to a number, gives its address, which the host
/// knows; nil gives zero.
pub proof fn law_pointer_to_number(p: &Bytecode, w: VmView, f: FiberView, v: Value, n: i128)
    requires
        comes_to(p, f, Opcode::CAST, 0),
        inst_at(p, f).t0 == ValueType::UintPtr && inst_at(p, f).t1 == ValueType::UnsafePtr,
        holds(p, w, f, inst_at(p, f).s0, v),
        has_slot(w, f, inst_at(p, f).d as int),
        has_number(IntKind::UintPtr, n as int),
    ensures
        v is Nil ==> results_in(p, w, f, inst_at(p, f).d, Value::Int(IntKind::UintPtr, 0)),
        v matches Value::UnsafePtr(u) ==> (step(p, w, f) matches Some((w1, f1, s)) && {
            let r = Value::Int(IntKind::UintPtr, n);
            &&& w1 == w
            &&& s == StepView::Ask(Ask::Query(Query::Address(u)))
            &&& goes_on(f, (FiberView { pending: f.pending, ..f1 }), 1)
            &&& resume(p, w, f1, Reply::Value(r)) == Some(
                (
                    with_result(w, f, inst_at(p, f).d as int, r),
                    FiberView { pending: None, ..f1 },
                    StepView::Next,
                ),
            )
        }),
{
    let inst = inst_at(p, f);
    lemma_operand(p, w, f, inst.s0);
    if v is Nil {
        let r = Value::Int(IntKind::UintPtr, 0);
        lemma_result(w, f, inst.d, r);
        lemma_goes_on(p, w, f, with_result(w, f, inst.d as int, r));
    } else {
        lemma_step(p, w, f);
        lemma_result(w, f, inst.d, Value::Int(IntKind::UintPtr, n));
    }
}

/// What is nil has no type that could be asserted, and there is nothing to walk through.
pub proof fn law_nil_is_refused(p: &Bytecode, w: VmView, f: FiberView, t: ValueType)
    requires
        comes_to(p, f, inst_at(p, f).op0, 0),
        holds(p, w, f, inst_at(p, f).s0, Value::Nil(t)),
        inst_at(p, f).op0 == Opcode::TYPE_ASSERT && inst_at(p, f).s1 < 0 && -1 - inst_at(p, f).s1
            < p.consts@.len() || inst_at(p, f).op0 == Opcode::RANGE_INIT && (inst_at(p, f).t0
            == ValueType::Slice || inst_at(p, f).t0 == ValueType::GoMap),
    ensures
        raises(p, w, f, "access nil value"@),
{
    lemma_operand(p, w, f, inst_at(p, f).s0);
    lemma_step(p, w, f);
    lemma_raises(p, w, f, 1, "access nil value"@);
}

} // verus!

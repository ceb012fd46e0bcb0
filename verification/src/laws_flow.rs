//! What jumps, panics and the start of packages do.
use vstd::prelude::*;
use crate::bytecode::{Bytecode, MetadataType, Opcode};
use crate::content::values_equal;
use crate::effect::Ask;
use crate::fiber::{index_of, FiberView, StepView};
use crate::laws_basis::{
    code_of, comes_to, goes_on, has_slot, holds, inst_at, lemma_operand, lemma_raises, lemma_result,
    lemma_step, moved, raises, says, with_result,
};
use crate::machine::VmView;
use crate::meta::{same_type, underlying};
use crate::panic::PanicView;
use crate::reply::{resume, Reply};
use crate::run::{context_of, step};
use crate::value::{
    void, IntKind, InterfaceObj, Meta, OpIndex, PackageKey, SliceRef, Value, ValueType,
};

verus! {

/// Whether an instruction only goes on, by `n` words of code.
pub open spec fn only_moves(p: &Bytecode, w: VmView, f: FiberView, n: int) -> bool {
    step(p, w, f) matches Some((w1, f1, s)) && s == StepView::Next && w1 == w && goes_on(f, f1, n)
}

/// Whether a jump can be made.
pub open spec fn can_jump(f: FiberView, d: OpIndex) -> bool {
    i32::MIN <= f.frames.last().pc + 1 + d <= i32::MAX
}

/// Where a jump leads.
pub proof fn lemma_jump(f: FiberView, d: int)
    requires
        f.frames.len() > 0,
        i32::MIN <= f.frames.last().pc + 1 + d <= i32::MAX,
        i32::MIN <= f.frames.last().pc + 1 <= i32::MAX,
    ensures
        moved(f, 1).with_pc((f.frames.last().pc + 1 + d) as i32) == moved(f, 1 + d),
{
    assert(moved(f, 1).with_pc((f.frames.last().pc + 1 + d) as i32).frames =~= moved(
        f,
        1 + d,
    ).frames);
}

/// A jump goes on so many words of code behind the next one as it says.
pub proof fn law_jump(p: &Bytecode, w: VmView, f: FiberView)
    requires
        comes_to(p, f, Opcode::JUMP, 0),
        can_jump(f, inst_at(p, f).d),
    ensures
        only_moves(p, w, f, 1 + inst_at(p, f).d),
{
    lemma_step(p, w, f);
    lemma_jump(f, inst_at(p, f).d as int);
}

/// A jump under a condition is made where the condition is true, or where it is not.
/// Otherwise the next instruction follows.
pub proof fn law_jump_if(p: &Bytecode, w: VmView, f: FiberView, b: bool)
    requires
        ({
            let op = inst_at(p, f).op0;
            &&& comes_to(p, f, op, 0)
            &&& op == Opcode::JUMP_IF || op == Opcode::JUMP_IF_NOT
        }),
        holds(p, w, f, inst_at(p, f).s0, Value::Bool(b)),
        can_jump(f, inst_at(p, f).d),
    ensures
        only_moves(
            p,
            w,
            f,
            if b == (inst_at(p, f).op0 == Opcode::JUMP_IF) {
                1 + inst_at(p, f).d
            } else {
                1
            },
        ),
{
    lemma_operand(p, w, f, inst_at(p, f).s0);
    lemma_step(p, w, f);
    lemma_jump(f, inst_at(p, f).d as int);
    lemma_jump(f, 0);
}

/// A switch jumps where the two values are equal: integers where they are the same
/// number, types where they are the same type, other values as a comparison says.
pub proof fn law_switch(p: &Bytecode, w: VmView, f: FiberView, a: Value, b: Value)
    requires
        comes_to(p, f, Opcode::SWITCH, 0),
        holds(p, w, f, inst_at(p, f).s0, a),
        holds(p, w, f, inst_at(p, f).s1, b),
        can_jump(f, inst_at(p, f).d),
    ensures
        ({
            let t = inst_at(p, f).t0;
            let to = 1 + inst_at(p, f).d;
            &&& a matches Value::Int(j, m) ==> b matches Value::Int(k, n) ==> j == k && t
                == j.spec_value_type() ==> only_moves(
                p,
                w,
                f,
                if m == n {
                    to
                } else {
                    1
                },
            )
            &&& a is Metadata && b is Metadata && t == ValueType::Metadata ==> (same_type(
                p,
                a->Metadata_0,
                b->Metadata_0,
            ) matches Ok(e) ==> only_moves(
                p,
                w,
                f,
                if e {
                    to
                } else {
                    1
                },
            ))
            &&& t == ValueType::String || t == ValueType::Interface || t == ValueType::Pointer || t
                == ValueType::Struct || t == ValueType::Array ==> (values_equal(
                p,
                w,
                a,
                b,
            ) matches Ok(e) ==> only_moves(
                p,
                w,
                f,
                if e {
                    to
                } else {
                    1
                },
            ))
        }),
{
    lemma_operand(p, w, f, inst_at(p, f).s0);
    lemma_operand(p, w, f, inst_at(p, f).s1);
    lemma_step(p, w, f);
    lemma_jump(f, inst_at(p, f).d as int);
    lemma_jump(f, 0);
}

/// What imports a package that is ready jumps over what would make it so.
pub proof fn law_import(p: &Bytecode, w: VmView, f: FiberView, k: PackageKey)
    requires
        comes_to(p, f, Opcode::IMPORT, 0),
        holds(p, w, f, inst_at(p, f).s0, Value::Package(k)),
        k < p.packages@.len(),
        k < w.inited.len(),
        can_jump(f, inst_at(p, f).d),
    ensures
        only_moves(
            p,
            w,
            f,
            if w.inited[k as int] {
                1 + inst_at(p, f).d
            } else {
                1
            },
        ),
{
    lemma_operand(p, w, f, inst_at(p, f).s0);
    lemma_step(p, w, f);
    lemma_jump(f, inst_at(p, f).d as int);
    lemma_jump(f, 0);
}

/// What is asserted and true changes nothing; what is not true is a panic.
pub proof fn law_assert(p: &Bytecode, w: VmView, f: FiberView, b: bool)
    requires
        comes_to(p, f, Opcode::ASSERT, 0),
        holds(p, w, f, inst_at(p, f).s0, Value::Bool(b)),
    ensures
        b ==> only_moves(p, w, f, 1),
        !b ==> raises(p, w, f, "Opcode::ASSERT: not true!"@),
{
    lemma_operand(p, w, f, inst_at(p, f).s0);
    lemma_step(p, w, f);
    lemma_jump(f, 0);
    lemma_raises(p, w, f, 1, "Opcode::ASSERT: not true!"@);
}

/// The initialisers of a package come one after the other: each goes into the result
/// slot, and the next number into the slot of the number. Behind the last one, the two
/// words of code that would call it are left out.
pub proof fn law_initialisers(p: &Bytecode, w: VmView, f: FiberView, k: PackageKey, i: i128)
    requires
        comes_to(p, f, Opcode::LOAD_INIT_FUNC, 0),
        holds(p, w, f, inst_at(p, f).s0, Value::Package(k)),
        holds(p, w, f, inst_at(p, f).s1, Value::Int(IntKind::Int32, i)),
        inst_at(p, f).s1 >= 0,
        k < p.packages@.len(),
        0 <= i < i32::MAX,
        has_slot(w, f, inst_at(p, f).d as int),
        can_jump(f, 2),
    ensures
        ({
            let inits = p.packages@[k as int].init_funcs@;
            let inst = inst_at(p, f);
            &&& i < inits.len() ==> (step(p, w, f) matches Some((w1, f1, s)) && s == StepView::Next
                && goes_on(f, f1, 1) && w1 == with_result(
                with_result(w, f, inst.d as int, inits[i as int]),
                f,
                inst.s1 as int,
                Value::Int(IntKind::Int32, (i + 1) as i128),
            ))
            &&& i >= inits.len() ==> only_moves(p, w, f, 3)
        }),
{
    let inst = inst_at(p, f);
    lemma_operand(p, w, f, inst.s0);
    lemma_operand(p, w, f, inst.s1);
    lemma_step(p, w, f);
    lemma_jump(f, 2);
    lemma_jump(f, 0);
    let inits = p.packages@[k as int].init_funcs@;
    if i < inits.len() {
        lemma_result(w, f, inst.d, inits[i as int]);
        lemma_result(
            with_result(w, f, inst.d as int, inits[i as int]),
            f,
            inst.s1,
            Value::Int(IntKind::Int32, (i + 1) as i128),
        );
    }
}

/// A panic says the value that it is started with. It notes the instruction, and the
/// running function goes to its last instruction; nothing else changes.
pub proof fn law_panic_starts(p: &Bytecode, w: VmView, f: FiberView, v: Value)
    requires
        comes_to(p, f, Opcode::PANIC, 0),
        holds(p, w, f, inst_at(p, f).s0, v),
    ensures
        step(p, w, f) matches Some((w1, f1, s)) && {
            &&& w1 == w && s == StepView::Next
            &&& f1.panic == Some(
                PanicView {
                    msg: v,
                    call_stack: seq![(f.frames.last().func, f.frames.last().pc)],
                },
            )
            &&& goes_on(
                f,
                (FiberView { panic: f.panic, ..f1 }),
                code_of(p, f).len() - 1 - f.frames.last().pc,
            )
        },
{
    lemma_operand(p, w, f, inst_at(p, f).s0);
    lemma_step(p, w, f);
    let g = moved(f, 1);
    assert(index_of(g.top().pc - 1) == Some(f.frames.last().pc));
    let f1 = step(p, w, f)->Some_0.1;
    assert(f1.frames =~= moved(f, code_of(p, f).len() - 1 - f.frames.last().pc).frames);
}

/// A panic that is recovered is on its way no more. What it said is in an interface in
/// the result slot; where there is no panic, nil is there.
pub proof fn law_recover(p: &Bytecode, w: VmView, f: FiberView)
    requires
        comes_to(p, f, Opcode::RECOVER, 0),
        has_slot(w, f, inst_at(p, f).d as int),
        w.cells.len() <= usize::MAX,
    ensures
        step(p, w, f) matches Some((w1, f1, s)) && {
            let d = inst_at(p, f).d as int;
            &&& s == StepView::Next
            &&& f1.panic is None
            &&& goes_on(f, (FiberView { panic: f.panic, ..f1 }), 1)
            &&& match f.panic {
                None => w1 == with_result(w, f, d, void()),
                Some(e) => w1 == with_result(
                    VmView { cells: w.cells.push(e.msg), ..w },
                    f,
                    d,
                    Value::Interface(
                        InterfaceObj::Gos { under: w.cells.len() as usize, binding: None },
                    ),
                ),
            }
        },
{
    let inst = inst_at(p, f);
    lemma_step(p, w, f);
    match f.panic {
        None => {
            lemma_result(w, f, inst.d, void());
        },
        Some(e) => {
            lemma_result(
                VmView { cells: w.cells.push(e.msg), ..w },
                f,
                inst.d,
                Value::Interface(
                    InterfaceObj::Gos { under: w.cells.len() as usize, binding: None },
                ),
            );
        },
    }
}

/// An object of the host is made by its name. The result is an interface value over the
/// object, of the type that the program names; where that fails, it is a panic with what
/// the host says.
pub proof fn law_host_object(
    p: &Bytecode,
    w: VmView,
    f: FiberView,
    name: SliceRef,
    m: Meta,
    ffi: usize,
    e: String,
)
    requires
        comes_to(p, f, Opcode::FFI, 0),
        f.pending is None,
        holds(p, w, f, inst_at(p, f).s0, Value::Metadata(m)),
        holds(p, w, f, inst_at(p, f).s1, Value::Str(name)),
        m.key < p.metas@.len(),
        has_slot(w, f, inst_at(p, f).d as int),
    ensures
        step(p, w, f) matches Some((w1, f1, s)) && {
            &&& w1 == w && s == StepView::Ask(Ask::FfiCreate { name })
            &&& goes_on(f, (FiberView { pending: None, ..f1 }), 1)
            &&& resume(p, w, f1, Reply::Created(ffi)) == Some(
                (
                    with_result(
                        w,
                        f,
                        inst_at(p, f).d as int,
                        Value::Interface(
                            InterfaceObj::Ffi {
                                ffi,
                                meta: match p.metas@[m.key as int] {
                                    MetadataType::Named(u) => u,
                                    _ => m,
                                },
                            },
                        ),
                    ),
                    FiberView { pending: None, ..f1 },
                    StepView::Next,
                ),
            )
            &&& resume(p, w, f1, Reply::Failed(e)) matches Some((w2, f2, t)) && t == StepView::Next
                && says(p, w, f, 1, e@, w2, f2)
        },
{
    let inst = inst_at(p, f);
    lemma_operand(p, w, f, inst.s0);
    lemma_operand(p, w, f, inst.s1);
    lemma_step(p, w, f);
    let f1 = step(p, w, f)->Some_0.1;
    assert(f1.waiting(None) == moved(f, 1));
    assert(context_of(f1.waiting(None)) == context_of(f));
    lemma_raises(p, w, f, 1, e@);
    lemma_result(
        w,
        f,
        inst.d,
        Value::Interface(InterfaceObj::Ffi { ffi, meta: underlying(p, m)->Ok_0 }),
    );
}

} // verus!

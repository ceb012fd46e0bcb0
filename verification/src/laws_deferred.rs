//! What holds of deferred calls, from the time they are deferred until the function
//! has returned.
use vstd::prelude::*;
use crate::bytecode::{Bytecode, Instruction, Opcode, ValueDesc};
use crate::closure::{as_closure, gos_from_func};
use crate::fiber::{index_of, last_pc, FiberView, StepView};
use crate::frame::{or_empty, with_referrer, DeferredView, FrameView};
use crate::laws_run::lemma_link_keeps_stacks;
use crate::laws_valid_fiber::deferred;
use crate::machine::{region_cell, spec_const, ClosureObj, Ctx, UpValueState, VmView};
use crate::ops_call::{
    capture, counts, enter, has_deferred, op_call, op_closure, op_return, owner, run_deferred,
    take_args, with_deferred, with_recv,
};
use crate::reply::{resume, Reply};
use crate::run::{context_of, fetch, fiber_inst, group, step, Group};
use crate::value::{FunctionKey, OpIndex, PointerObj, Region, Value, ValueType};

verus! {

/// A call that is deferred does not run: the function notes it behind those that it
/// deferred before, with the values that are on the stack for it. These are its
/// results, still zero, its receiver, if it has one, and its arguments.
pub proof fn law_call_is_deferred(p: &Bytecode, w: VmView, f: FiberView, c: Ctx, inst: Instruction)
    requires
        f.frames.len() > 0,
        inst.t0 == ValueType::FlagC,
        w.read(c, p.consts@, inst.d) matches Ok(v) && as_closure(w, v) matches Ok(
            ClosureObj::Gos { .. },
        ),
    ensures
        op_call(p, w, f, c, inst) matches Some((w1, f1, s)) ==> {
            &&& s == StepView::Next
            &&& deferred(f1.top()).len() == deferred(f.top()).len() + 1
            &&& f1 == with_deferred(f, deferred(f1.top()).last())
            &&& deferred_as(p, w, f, c, inst, deferred(f1.top()).last())
        },
{
    match op_call(p, w, f, c, inst) {
        Some((w1, f1, _)) => {
            let v = w.read(c, p.consts@, inst.d)->Ok_0;
            let base = index_of(c.sb + inst.s0)->Some_0;
            match as_closure(w, v)->Ok_0 {
                ClosureObj::Gos { func, uvs, recv } => {
                    let (x, fr) = enter(p, w, f.stack, func, uvs, recv, base)->Some_0;
                    lemma_enter_stack(p, w, f.stack, func, uvs, recv, base);
                    let (y, vals) = take_args(p, x, f.stack, fr)->Some_0;
                    let d = DeferredView {
                        func: fr.func,
                        var_ptrs: fr.var_ptrs,
                        referred_by: fr.referred_by,
                        vec: vals,
                    };
                    assert(f1 == with_deferred(f, d));
                    assert(deferred(f1.top()) == deferred(f.top()).push(d));
                },
                _ => {},
            }
        },
        None => {},
    }
}

/// Whether a call is deferred with the values that are on the stack for it.
pub open spec fn deferred_as(
    p: &Bytecode,
    w: VmView,
    f: FiberView,
    c: Ctx,
    inst: Instruction,
    d: DeferredView,
) -> bool {
    match w.read(c, p.consts@, inst.d) {
        Ok(v) => match as_closure(w, v) {
            Ok(ClosureObj::Gos { func, uvs: _, recv }) => {
                let given = with_recv(p.functions@[func as int].ret_zeros@, recv);
                &&& d.func == func
                &&& counts(p, func) matches Some((rets, params, _)) && d.vec.len() == rets + params
                &&& forall|i: int|
                    0 <= i < d.vec.len() && i < given.len() ==> #[trigger] d.vec[i] == given[i]
                &&& forall|i: int|
                    given.len() <= i < d.vec.len() && c.sb + inst.s0 + i
                        < w.stacks[f.stack as int].len() ==> #[trigger] d.vec[i]
                        == w.stacks[f.stack as int][c.sb + inst.s0 + i]
            },
            _ => false,
        },
        Err(_) => false,
    }
}

/// A call that starts puts its results and its receiver on the stack, and leaves
/// the rest of the stack alone.
proof fn lemma_enter_stack(
    p: &Bytecode,
    w: VmView,
    stack: usize,
    func: FunctionKey,
    uvs: Option<Region>,
    recv: Option<Value>,
    base: OpIndex,
)
    ensures
        enter(p, w, stack, func, uvs, recv, base) matches Some((x, fr)) ==> {
            let given = with_recv(p.functions@[func as int].ret_zeros@, recv);
            &&& fr.func == func && fr.stack_base == base && 0 <= base
            &&& x.stacks[stack as int].len() >= w.stacks[stack as int].len()
            &&& forall|i: int|
                0 <= i < given.len() ==> x.stacks[stack as int][base + i] == #[trigger] given[i]
            &&& forall|i: int|
                0 <= i < w.stacks[stack as int].len() && !(base <= i < base + given.len())
                    ==> #[trigger] x.stacks[stack as int][i] == w.stacks[stack as int][i]
        },
{
    match enter(p, w, stack, func, uvs, recv, base) {
        Some((x, fr)) => {
            let fo = p.functions@[func as int];
            let n = index_of(base + fo.max_write_index + 1)->Some_0;
            let w1 = w.with_min_size(stack, n)->Ok_0;
            let w2 = w1.with_vec(stack, base, with_recv(fo.ret_zeros@, recv))->Ok_0;
            match uvs {
                Some(r) => {
                    lemma_link_keeps_stacks(w2, stack, base, fo.up_ptrs@, r, 0, seq![], None);
                },
                None => {},
            }
            assert(x.stacks == w2.stacks);
        },
        None => {},
    }
}

/// Something that happens to a fiber: an instruction, or an answer of the host, with
/// the tables and the fiber before and after.
pub struct Moment {
    pub w: VmView,
    pub f: FiberView,
    pub reply: Option<Reply>,
    pub w1: VmView,
    pub f1: FiberView,
}

/// Whether it can happen. While the fiber waits for an answer it runs no instruction.
#[verifier::opaque]
pub open spec fn happens(p: &Bytecode, m: Moment) -> bool {
    match m.reply {
        None => m.f.pending is None && match step(p, m.w, m.f) {
            Some((x, g, _)) => x == m.w1 && g == m.f1,
            None => false,
        },
        Some(r) => match resume(p, m.w, m.f, r) {
            Some((x, g, _)) => x == m.w1 && g == m.f1,
            None => false,
        },
    }
}

/// Whether the fiber before a moment is the one that the moment before has left. In
/// between a turn may have ended, and others may have changed the tables.
pub open spec fn goes_on(h: Seq<Moment>, i: int) -> bool {
    let f = h[i].f1;
    let g = h[i + 1].f;
    &&& g == (FiberView { panic: g.panic, unit_left: g.unit_left, ..f })
    &&& g.panic == f.panic || g.panic is None
}

/// Whether moments follow each other in the life of a fiber.
pub open spec fn history(p: &Bytecode, h: Seq<Moment>) -> bool {
    &&& forall|i: int| 0 <= i < h.len() ==> happens(p, #[trigger] h[i])
    &&& forall|i: int| 0 <= i < h.len() - 1 ==> #[trigger] goes_on(h, i)
}

/// Whether an instruction is the return of a function with deferred calls.
pub open spec fn is_deferring_return(inst: Instruction) -> bool {
    inst.op0 == Opcode::RETURN && inst.t0 == ValueType::FlagC
}

/// Whether a frame is at a return, and would be at one after a panic.
pub open spec fn at_return(p: &Bytecode, fr: FrameView) -> bool {
    &&& fr.func < p.functions@.len()
    &&& {
        let code = p.functions@[fr.func as int].code@;
        &&& 0 <= fr.pc < code.len()
        &&& is_deferring_return(code[fr.pc as int])
        &&& is_deferring_return(code.last())
    }
}

/// The moments, from the `i`th on, in which the frame with number `k` calls.
pub open spec fn calls_of(h: Seq<Moment>, k: nat, i: int) -> Seq<int>
    decreases h.len() - i,
{
    if i < 0 || i >= h.len() {
        seq![]
    } else if h[i].f.frames.len() == k + 1 && h[i].f1.frames.len() == k + 2 {
        seq![i] + calls_of(h, k, i + 1)
    } else {
        calls_of(h, k, i + 1)
    }
}

/// Whether in a moment the frame with number `k` starts a deferred call: with the
/// values that the call was deferred with, in slots behind its own, which stay as
/// they are.
pub open spec fn runs_deferred(p: &Bytecode, m: Moment, k: nat, own: FrameView, d: DeferredView) -> bool {
    let fr = m.f1.frames[k as int + 1];
    let before = m.w.stacks[m.f.stack as int];
    let after = m.w1.stacks[m.f.stack as int];
    &&& m.f.frames.len() == k + 1
    &&& m.f1.frames.len() == k + 2
    &&& fr.func == d.func && fr.pc == 0
    &&& fr.var_ptrs == d.var_ptrs && fr.referred_by == d.referred_by
    &&& counts(p, own.func) matches Some((rets, params, locals)) && fr.stack_base
        == own.stack_base + rets + params + locals
    &&& after.len() >= fr.stack_base + d.vec.len()
    &&& forall|i: int| 0 <= i < d.vec.len() ==> after[fr.stack_base + i] == #[trigger] d.vec[i]
    &&& forall|i: int|
        0 <= i < fr.stack_base && i < before.len() ==> #[trigger] after[i] == before[i]
}

/// Whether a frame below the running one is as it was, but for the variables that
/// it notes and for a panic that has sent it to its last instruction.
spec fn rests(p: &Bytecode, fr: FrameView, gr: FrameView) -> bool {
    &&& gr == (FrameView { pc: gr.pc, referred_by: gr.referred_by, ..fr })
    &&& gr.pc == fr.pc || last_pc(p, fr.func) == Some(gr.pc)
}

/// Whether only the running frame has changed, or one frame has come or gone.
spec fn only_top(p: &Bytecode, f: FiberView, g: FiberView) -> bool {
    &&& f.frames.len() > 0
    &&& f.frames.len() - 1 <= g.frames.len() <= f.frames.len() + 1
    &&& g.frames.len() < f.frames.len() ==> g.pending == f.pending
    &&& forall|i: int|
        0 <= i < f.frames.len() - 1 ==> rests(p, f.frames[i], #[trigger] g.frames[i])
}

proof fn lemma_owner_below(frames: Seq<FrameView>, func: FunctionKey, k: int)
    requires
        k < frames.len(),
    ensures
        owner(frames, func, k) matches Some(i) ==> 0 < i < frames.len(),
    decreases k,
{
    if k > 0 {
        lemma_owner_below(frames, func, k - 1);
    }
}

proof fn lemma_capture_rests(
    p: &Bytecode,
    w: VmView,
    frames: Seq<FrameView>,
    stack: usize,
    uvs: Region,
    i: nat,
)
    requires
        capture(w, frames, stack, uvs, i) is Some,
    ensures
        capture(w, frames, stack, uvs, i) matches Some((_, g)) && g.len() == frames.len()
            && forall|k: int| 0 <= k < frames.len() ==> rests(p, frames[k], #[trigger] g[k]),
    decreases uvs.len - i,
{
    if i < uvs.len {
        let a = region_cell(uvs, i as int)->Ok_0;
        match w.cells[a as int] {
            Value::Pointer(PointerObj::UpVal(id)) => {
                match w.upvals[id as int] {
                    UpValueState::Open(d) => {
                        lemma_owner_below(frames, d.func, frames.len() - 1);
                        match owner(frames, d.func, frames.len() - 1) {
                            Some(o) => {
                                let x = VmView {
                                    upvals: w.upvals.update(
                                        id as int,
                                        UpValueState::Open(
                                            ValueDesc {
                                                stack: Some(stack),
                                                stack_base: frames[o].stack_base,
                                                ..d
                                            },
                                        ),
                                    ),
                                    ..w
                                };
                                let fr = FrameView {
                                    referred_by: Some(
                                        with_referrer(
                                            or_empty(frames[o].referred_by),
                                            d.index,
                                            d.typ,
                                            id,
                                        ),
                                    ),
                                    ..frames[o]
                                };
                                let mid = frames.update(o, fr);
                                lemma_capture_rests(p, x, mid, stack, uvs, i + 1);
                                let g = capture(x, mid, stack, uvs, i + 1)->Some_0.1;
                                assert forall|k: int| 0 <= k < frames.len() implies rests(
                                    p,
                                    frames[k],
                                    #[trigger] g[k],
                                ) by {
                                    assert(rests(p, mid[k], g[k]));
                                }
                            },
                            None => {
                                lemma_capture_rests(p, w, frames, stack, uvs, i + 1);
                            },
                        }
                    },
                    UpValueState::Closed(_) => {
                        lemma_capture_rests(p, w, frames, stack, uvs, i + 1);
                    },
                }
            },
            _ => {
                lemma_capture_rests(p, w, frames, stack, uvs, i + 1);
            },
        }
    }
}

proof fn lemma_closure_rests(p: &Bytecode, w: VmView, f: FiberView, c: Ctx, inst: Instruction)
    requires
        f.frames.len() > 0,
    ensures
        op_closure(p, w, f, c, inst) matches Some((_, g, _)) ==> only_top(p, f, g),
{
    match op_closure(p, w, f, c, inst) {
        Some((_, g, _)) => match spec_const(p.consts@, inst.s0) {
            Ok(Value::Function(func)) => {
                let (x, cls) = gos_from_func(p, w, func, None)->Ok_0;
                match cls {
                    ClosureObj::Gos { uvs: Some(r), .. } => {
                        lemma_capture_rests(p, x, f.frames, f.stack, r, 0);
                    },
                    _ => {},
                }
            },
            _ => {},
        },
        None => {},
    }
}

proof fn lemma_fiber_rests(
    p: &Bytecode,
    w: VmView,
    f: FiberView,
    c: Ctx,
    inst: Instruction,
    code: Seq<Instruction>,
)
    requires
        f.frames.len() > 0,
    ensures
        fiber_inst(p, w, f, c, inst, code) matches Some((_, g, _)) ==> only_top(p, f, g),
{
    if inst.op0 == Opcode::CLOSURE {
        lemma_closure_rests(p, w, f, c, inst);
    }
}

proof fn lemma_step_rests(p: &Bytecode, w: VmView, f: FiberView)
    ensures
        step(p, w, f) matches Some((_, g, _)) ==> only_top(p, f, g),
{
    match fetch(p, f) {
        Some((f1, inst, next)) => {
            if group(inst.op0) == Group::Fiber {
                let code = p.functions@[f.top().func as int].code@;
                lemma_fiber_rests(p, w, f1, context_of(f), inst, code);
                match fiber_inst(p, w, f1, context_of(f), inst, code) {
                    Some((_, g, _)) => {
                        assert forall|i: int| 0 <= i < f.frames.len() - 1 implies rests(
                            p,
                            f.frames[i],
                            #[trigger] g.frames[i],
                        ) by {
                            assert(rests(p, f1.frames[i], g.frames[i]));
                        }
                    },
                    None => {},
                }
            }
        },
        None => {},
    }
}

proof fn lemma_resume_rests(p: &Bytecode, w: VmView, f: FiberView, reply: Reply)
    ensures
        resume(p, w, f, reply) matches Some((_, g, _)) ==> only_top(p, f, g) && g.frames.len()
            == f.frames.len(),
{
}

proof fn lemma_moment_rests(p: &Bytecode, m: Moment)
    requires
        happens(p, m),
    ensures
        only_top(p, m.f, m.f1),
        m.f1.frames.len() < m.f.frames.len() ==> m.f1.pending is None,
{
    reveal(happens);
    match m.reply {
        None => {
            lemma_step_rests(p, m.w, m.f);
        },
        Some(r) => {
            lemma_resume_rests(p, m.w, m.f, r);
        },
    }
}

/// Whether a fiber is on the way through the return of the frame with number `k`:
/// the frame is at its return, with these calls waiting.
#[verifier::opaque]
spec fn returning(
    p: &Bytecode,
    f: FiberView,
    k: nat,
    own: FrameView,
    waiting: Seq<DeferredView>,
) -> bool {
    &&& f.frames.len() > k
    &&& f.frames[k as int].func == own.func
    &&& f.frames[k as int].stack_base == own.stack_base
    &&& deferred(f.frames[k as int]) == waiting
    &&& at_return(p, f.frames[k as int])
    &&& f.frames.len() == k + 1 ==> f.pending is None
}

/// One round of a return: a deferred call starts, or the frame goes.
proof fn lemma_round(
    p: &Bytecode,
    m: Moment,
    k: nat,
    own: FrameView,
    waiting: Seq<DeferredView>,
)
    requires
        happens(p, m),
        returning(p, m.f, k, own, waiting),
        m.f.frames.len() == k + 1,
    ensures
        waiting.len() == 0 ==> m.f1.frames.len() == k,
        waiting.len() > 0 ==> runs_deferred(p, m, k, own, waiting.last()) && returning(
            p,
            m.f1,
            k,
            own,
            waiting.drop_last(),
        ),
{
    reveal(happens);
    reveal(returning);
    let (f1, inst, next) = fetch(p, m.f)->Some_0;
    let c = context_of(m.f);
    let fr = m.f.top();
    assert(is_deferring_return(inst));
    assert(step(p, m.w, m.f) == op_return(p, m.w, f1, c, inst));
    assert(f1.top() == (FrameView { pc: f1.top().pc, ..fr }));
    assert(deferred(f1.top()) == waiting);
    if waiting.len() > 0 {
        assert(has_deferred(f1.top()));
        assert(op_return(p, m.w, f1, c, inst) == run_deferred(p, m.w, f1));
        assert(f1.top().defer_stack == Some(waiting));
        let after = m.f1.frames[k as int];
        assert(after == (FrameView {
            pc: fr.pc,
            defer_stack: Some(waiting.drop_last()),
            ..fr
        }));
        assert(deferred(after) == waiting.drop_last());
    } else {
        assert(!has_deferred(f1.top()));
    }
}

/// While a deferred call runs, the frame that deferred it waits at its return.
proof fn lemma_between(
    p: &Bytecode,
    m: Moment,
    k: nat,
    own: FrameView,
    waiting: Seq<DeferredView>,
)
    requires
        happens(p, m),
        returning(p, m.f, k, own, waiting),
        m.f.frames.len() > k + 1,
    ensures
        returning(p, m.f1, k, own, waiting),
{
    lemma_moment_rests(p, m);
    reveal(returning);
    assert(rests(p, m.f.frames[k as int], m.f1.frames[k as int]));
    assert(deferred(m.f1.frames[k as int]) == deferred(m.f.frames[k as int]));
}

/// Between two moments the fiber stays on its way.
proof fn lemma_goes_on(
    p: &Bytecode,
    h: Seq<Moment>,
    i: int,
    k: nat,
    own: FrameView,
    waiting: Seq<DeferredView>,
)
    requires
        goes_on(h, i),
        returning(p, h[i].f1, k, own, waiting),
    ensures
        returning(p, h[i + 1].f, k, own, waiting),
        h[i].f1.frames.len() > k,
{
    reveal(returning);
}

proof fn lemma_calls_of(
    p: &Bytecode,
    h: Seq<Moment>,
    k: nat,
    i: int,
    own: FrameView,
    waiting: Seq<DeferredView>,
)
    requires
        history(p, h),
        0 <= i < h.len(),
        forall|j: int| 0 <= j < h.len() ==> (#[trigger] h[j]).f.frames.len() > k,
        h.last().f1.frames.len() == k,
        returning(p, h[i].f, k, own, waiting),
    ensures
        calls_of(h, k, i).len() == waiting.len(),
        forall|j: int|
            0 <= j < waiting.len() ==> i <= #[trigger] calls_of(h, k, i)[j] < h.len() - 1
                && runs_deferred(
                p,
                h[calls_of(h, k, i)[j]],
                k,
                own,
                waiting[waiting.len() - 1 - j],
            ),
        forall|j: int, l: int|
            0 <= j < l < waiting.len() ==> #[trigger] calls_of(h, k, i)[j] < #[trigger] calls_of(
                h,
                k,
                i,
            )[l],
    decreases h.len() - i,
{
    let m = h[i];
    assert(happens(p, m));
    if i < h.len() - 1 {
        assert(goes_on(h, i));
        assert(h[i + 1].f.frames.len() > k);
    }
    if m.f.frames.len() == k + 1 {
        lemma_round(p, m, k, own, waiting);
        assert(waiting.len() > 0 ==> m.f1.frames.len() == k + 2);
        if waiting.len() == 0 {
            if i < h.len() - 1 {
                assert(h[i + 1].f.frames == m.f1.frames);
            }
            assert(calls_of(h, k, i + 1) =~= seq![]);
        } else {
            let rest = waiting.drop_last();
            assert(i < h.len() - 1) by {
                reveal(returning);
            }
            lemma_goes_on(p, h, i, k, own, rest);
            lemma_calls_of(p, h, k, i + 1, own, rest);
            let later = calls_of(h, k, i + 1);
            let all = calls_of(h, k, i);
            assert(all == seq![i] + later);
            assert forall|j: int| 0 <= j < waiting.len() implies i <= #[trigger] all[j] < h.len()
                - 1 && runs_deferred(p, h[all[j]], k, own, waiting[waiting.len() - 1 - j]) by {
                if j > 0 {
                    assert(all[j] == later[j - 1]);
                    assert(rest[rest.len() - 1 - (j - 1)] == waiting[waiting.len() - 1 - j]);
                }
            }
            assert forall|j: int, l: int| 0 <= j < l < waiting.len() implies #[trigger] all[j]
                < #[trigger] all[l] by {
                assert(all[l] == later[l - 1]);
                if j > 0 {
                    assert(all[j] == later[j - 1]);
                }
            }
        }
    } else {
        lemma_between(p, m, k, own, waiting);
        assert(i < h.len() - 1) by {
            reveal(returning);
        }
        lemma_goes_on(p, h, i, k, own, waiting);
        lemma_calls_of(p, h, k, i + 1, own, waiting);
    }
}

/// Whether in a moment the frame with number `k` runs an instruction with this
/// operation.
pub open spec fn runs_op(p: &Bytecode, m: Moment, k: nat, op: Opcode) -> bool {
    &&& m.f.frames.len() == k + 1
    &&& m.reply is None
    &&& fetch(p, m.f) matches Some((_, inst, _)) && inst.op0 == op
}

/// Whether in a moment the frame with number `k` defers a call of a function.
pub open spec fn defers(p: &Bytecode, m: Moment, k: nat) -> bool {
    &&& runs_op(p, m, k, Opcode::CALL)
    &&& fetch(p, m.f) matches Some((_, inst, _)) && inst.t0 == ValueType::FlagC && match m.w.read(
        context_of(m.f),
        p.consts@,
        inst.d,
    ) {
        Ok(v) => match as_closure(m.w, v) {
            Ok(ClosureObj::Gos { .. }) => true,
            _ => false,
        },
        Err(_) => false,
    }
}

/// The moments, from the `i`th on, in which the frame with number `k` defers a call.
pub open spec fn defers_of(p: &Bytecode, h: Seq<Moment>, k: nat, i: int) -> Seq<int>
    decreases h.len() - i,
{
    if i < 0 || i >= h.len() {
        seq![]
    } else if defers(p, h[i], k) {
        seq![i] + defers_of(p, h, k, i + 1)
    } else {
        defers_of(p, h, k, i + 1)
    }
}

proof fn lemma_fiber_defers(
    p: &Bytecode,
    w: VmView,
    f: FiberView,
    c: Ctx,
    inst: Instruction,
    code: Seq<Instruction>,
)
    requires
        f.frames.len() > 0,
        inst.op0 != Opcode::RETURN,
        inst.op0 != Opcode::CLOSURE,
        !(inst.op0 == Opcode::CALL && inst.t0 == ValueType::FlagC),
    ensures
        fiber_inst(p, w, f, c, inst, code) matches Some((_, g, _)) ==> g.frames.len()
            >= f.frames.len() && g.frames[f.frames.len() - 1].defer_stack == f.top().defer_stack,
{
}

proof fn lemma_closure_defers(p: &Bytecode, w: VmView, f: FiberView, c: Ctx, inst: Instruction)
    requires
        f.frames.len() > 0,
    ensures
        op_closure(p, w, f, c, inst) matches Some((_, g, _)) ==> g.frames.len() == f.frames.len()
            && g.frames[f.frames.len() - 1].defer_stack == f.top().defer_stack,
{
    match op_closure(p, w, f, c, inst) {
        Some((_, g, _)) => match spec_const(p.consts@, inst.s0) {
            Ok(Value::Function(func)) => {
                let (x, cls) = gos_from_func(p, w, func, None)->Ok_0;
                match cls {
                    ClosureObj::Gos { uvs: Some(r), .. } => {
                        lemma_capture_rests(p, x, f.frames, f.stack, r, 0);
                        assert(rests(p, f.top(), g.frames[f.frames.len() - 1]));
                    },
                    _ => {},
                }
            },
            _ => {},
        },
        None => {},
    }
}

proof fn lemma_host_call_defers(p: &Bytecode, w: VmView, f: FiberView, c: Ctx, inst: Instruction)
    requires
        f.frames.len() > 0,
        w.read(c, p.consts@, inst.d) matches Ok(v) ==> !(as_closure(w, v) matches Ok(
            ClosureObj::Gos { .. },
        )),
    ensures
        op_call(p, w, f, c, inst) matches Some((_, g, _)) ==> g.frames.len() == f.frames.len()
            && g.frames[f.frames.len() - 1].defer_stack == f.top().defer_stack,
{
}

/// What happens to the calls that the frame with number `k` has deferred, in a
/// moment in which it does not return.
proof fn lemma_moment_defers(p: &Bytecode, m: Moment, k: nat)
    requires
        happens(p, m),
        m.f.frames.len() > k,
        !runs_op(p, m, k, Opcode::RETURN),
    ensures
        m.f1.frames.len() > k,
        defers(p, m, k) ==> {
            let list = deferred(m.f1.frames[k as int]);
            &&& list.len() > 0
            &&& list == deferred(m.f.frames[k as int]).push(list.last())
            &&& deferred_in(p, m, list.last())
        },
        !defers(p, m, k) ==> deferred(m.f1.frames[k as int]) == deferred(m.f.frames[k as int]),
{
    if m.f.frames.len() > k + 1 {
        lemma_moment_rests(p, m);
        assert(rests(p, m.f.frames[k as int], m.f1.frames[k as int]));
    } else {
        reveal(happens);
        match m.reply {
            None => {
                let (f1, inst, next) = fetch(p, m.f)->Some_0;
                let c = context_of(m.f);
                let code = p.functions@[m.f.top().func as int].code@;
                if group(inst.op0) == Group::Fiber {
                    if inst.op0 == Opcode::CLOSURE {
                        lemma_closure_defers(p, m.w, f1, c, inst);
                    } else if inst.op0 == Opcode::CALL && inst.t0 == ValueType::FlagC {
                        assert(step(p, m.w, m.f) == op_call(p, m.w, f1, c, inst));
                        if defers(p, m, k) {
                            law_call_is_deferred(p, m.w, f1, c, inst);
                            let d = deferred(m.f1.top()).last();
                            assert(deferred(f1.top()) == deferred(m.f.top()));
                            assert(deferred(with_deferred(f1, d).top()) == deferred(
                                f1.top(),
                            ).push(d));
                        } else {
                            lemma_host_call_defers(p, m.w, f1, c, inst);
                        }
                    } else {
                        lemma_fiber_defers(p, m.w, f1, c, inst, code);
                    }
                }
            },
            Some(r) => {
                lemma_resume_defers(p, m.w, m.f, r);
            },
        }
    }
}

/// Whether a call was deferred in a moment with the values that were on the stack
/// for it then.
pub open spec fn deferred_in(p: &Bytecode, m: Moment, d: DeferredView) -> bool {
    fetch(p, m.f) matches Some((f1, inst, _)) && deferred_as(
        p,
        m.w,
        f1,
        context_of(m.f),
        inst,
        d,
    )
}

proof fn lemma_resume_defers(p: &Bytecode, w: VmView, f: FiberView, reply: Reply)
    ensures
        resume(p, w, f, reply) matches Some((_, g, _)) ==> g.frames.len() == f.frames.len()
            && g.top().defer_stack == f.top().defer_stack,
{
}

/// As long as a function does not return, the calls that it defers wait in the order
/// in which it defers them, each with the values that were on the stack for it in
/// that moment; and nothing else changes the list, whatever the function and the
/// functions that it calls do.
pub proof fn law_deferred_calls_wait(p: &Bytecode, h: Seq<Moment>, k: nat, i: int)
    requires
        history(p, h),
        0 <= i < h.len(),
        forall|j: int|
            i <= j < h.len() ==> (#[trigger] h[j]).f.frames.len() > k && !runs_op(
                p,
                h[j],
                k,
                Opcode::RETURN,
            ),
    ensures
        ({
            let before = deferred(h[i].f.frames[k as int]);
            let after = deferred(h.last().f1.frames[k as int]);
            let moments = defers_of(p, h, k, i);
            &&& h.last().f1.frames.len() > k
            &&& after.len() == before.len() + moments.len()
            &&& after.subrange(0, before.len() as int) == before
            &&& forall|j: int|
                0 <= j < moments.len() ==> i <= #[trigger] moments[j] < h.len() && deferred_in(
                    p,
                    h[moments[j]],
                    after[before.len() + j],
                )
            &&& forall|j: int, l: int|
                0 <= j < l < moments.len() ==> #[trigger] moments[j] < #[trigger] moments[l]
        }),
    decreases h.len() - i,
{
    let m = h[i];
    assert(happens(p, m));
    lemma_moment_defers(p, m, k);
    let before = deferred(m.f.frames[k as int]);
    let middle = deferred(m.f1.frames[k as int]);
    let moments = defers_of(p, h, k, i);
    let later = defers_of(p, h, k, i + 1);
    if i < h.len() - 1 {
        assert(goes_on(h, i));
        law_deferred_calls_wait(p, h, k, i + 1);
        let after = deferred(h.last().f1.frames[k as int]);
        assert(h[i + 1].f.frames == m.f1.frames);
        assert(after.subrange(0, middle.len() as int) == middle);
        assert(after.subrange(0, before.len() as int) =~= middle.subrange(0, before.len() as int))
            by {
            assert forall|a: int| 0 <= a < before.len() implies after[a] == middle[a] by {
                assert(after.subrange(0, middle.len() as int)[a] == middle[a]);
            }
        }
        assert(middle.subrange(0, before.len() as int) =~= before);
        if defers(p, m, k) {
            assert(moments == seq![i] + later);
            assert(after[before.len() as int] == middle.last()) by {
                assert(after.subrange(0, middle.len() as int)[before.len() as int]
                    == middle.last());
            }
            assert forall|j: int| 0 <= j < moments.len() implies i <= #[trigger] moments[j]
                < h.len() && deferred_in(p, h[moments[j]], after[before.len() + j]) by {
                if j > 0 {
                    assert(moments[j] == later[j - 1]);
                    assert(after[middle.len() + (j - 1)] == after[before.len() + j]);
                }
            }
            assert forall|j: int, l: int| 0 <= j < l < moments.len() implies #[trigger] moments[j]
                < #[trigger] moments[l] by {
                assert(moments[l] == later[l - 1]);
                if j > 0 {
                    assert(moments[j] == later[j - 1]);
                }
            }
        } else {
            assert(moments == later);
        }
    } else {
        assert(later =~= seq![]);
        assert(middle.subrange(0, before.len() as int) =~= before);
        if defers(p, m, k) {
            assert(moments =~= seq![i]);
        }
    }
}

/// When a function with deferred calls returns, the calls run, the one that was
/// deferred last first, each once, and each with the values that it was deferred
/// with. All of them end before the frame of the function goes, and none of them
/// starts in a slot of the function, whose own slots are left alone by their start.
///
/// The law is about any life of the fiber from the moment in which the function
/// comes to its return to the moment in which its frame goes: whatever the deferred
/// calls do, whether they panic, wait for the host or defer calls of their own, and
/// whatever other fibers do in between.
pub proof fn law_deferred_calls_run(p: &Bytecode, h: Seq<Moment>, k: nat)
    requires
        history(p, h),
        h.len() > 0,
        h[0].f.frames.len() == k + 1,
        h[0].f.pending is None,
        at_return(p, h[0].f.top()),
        forall|j: int| 0 <= j < h.len() ==> (#[trigger] h[j]).f.frames.len() > k,
        h.last().f1.frames.len() == k,
    ensures
        ({
            let own = h[0].f.top();
            let waiting = deferred(own);
            let calls = calls_of(h, k, 0);
            &&& calls.len() == waiting.len()
            &&& forall|j: int|
                0 <= j < waiting.len() ==> 0 <= #[trigger] calls[j] < h.len() - 1 && runs_deferred(
                    p,
                    h[calls[j]],
                    k,
                    own,
                    waiting[waiting.len() - 1 - j],
                )
            &&& forall|j: int, l: int|
                0 <= j < l < waiting.len() ==> #[trigger] calls[j] < #[trigger] calls[l]
            &&& h.last().f.frames.len() == k + 1
        }),
{
    let own = h[0].f.top();
    assert(returning(p, h[0].f, k, own, deferred(own))) by {
        reveal(returning);
    }
    lemma_calls_of(p, h, k, 0, own, deferred(own));
    let m = h.last();
    assert(happens(p, m));
    lemma_moment_rests(p, m);
}

} // verus!

//! What holds of calls, panics and turns.
use vstd::prelude::*;
use crate::bytecode::{Bytecode, Instruction, ValueDesc};
use crate::closure::as_closure;
use crate::effect::{result_place, Ask};
use crate::fiber::{index_of, last_pc, FiberView, StepView, YIELD_UNIT};
use crate::frame::{
    close_all, close_slots, or_empty, with_referrer, DeferredView, FrameView, Referred,
};
use crate::machine::{offset, region_cell, ClosureObj, Ctx, UpValueState, VmView};
use crate::ops_call::{
    captured, counts, has_deferred, init_package, init_vars, leave, link, op_call, op_return,
    run_deferred, with_deferred, with_recv,
};
use crate::panic::PanicView;
use crate::place::load;
use crate::reply::{resume, Reply};
use crate::run::{
    begin, context_of, counted, data_inst, fetch, fiber_inst, group, main_loop, op_recover,
    run_unit, step, Group,
};
use crate::trap::Trap;
use crate::value::{void, InterfaceObj, OpIndex, PackageKey, PointerObj, Region, Value, ValueType};

verus! {

pub proof fn lemma_close_keeps_stacks(w: VmView, stack: usize, base: OpIndex, refs: Referred, i: nat)
    ensures
        close_slots(w, stack, base, refs, i) matches Ok(x) ==> x == (VmView {
            upvals: x.upvals,
            ..w
        }),
    decreases refs.len() - i,
{
    if i < refs.len() {
        let weaks = refs[i as int].1.weaks;
        if weaks.len() == 0 {
            lemma_close_keeps_stacks(w, stack, base, refs, i + 1);
        } else {
            match offset(base, refs[i as int].0) {
                Ok(k) => match w.slot(stack, k) {
                    Ok(val) => {
                        lemma_close_all_keeps_stacks(w, weaks, 0, val);
                        match close_all(w, weaks, 0, val) {
                            Ok(x) => {
                                lemma_close_keeps_stacks(x, stack, base, refs, i + 1);
                            },
                            Err(_) => {},
                        }
                    },
                    Err(_) => {},
                },
                Err(_) => {},
            }
        }
    }
}

proof fn lemma_close_all_keeps_stacks(w: VmView, weaks: Seq<usize>, i: nat, val: Value)
    ensures
        close_all(w, weaks, i, val) matches Ok(x) ==> x == (VmView { upvals: x.upvals, ..w }),
    decreases weaks.len() - i,
{
    if i < weaks.len() && weaks[i as int] < w.upvals.len() {
        let x = VmView {
            upvals: w.upvals.update(weaks[i as int] as int, UpValueState::Closed(val)),
            ..w
        };
        lemma_close_all_keeps_stacks(x, weaks, i + 1, val);
    }
}

/// A return leads back to the caller, which goes on where it stood. Its slots
/// and the results of the call stay as they are; the parameters and local
/// variables of the call are gone. Other stacks are not touched.
pub proof fn law_return_leads_back(p: &Bytecode, w: VmView, f: FiberView, c: Ctx, inst: Instruction)
    requires
        f.frames.len() > 1,
        f.panic is None,
        inst.t0 == ValueType::FlagA || (inst.t0 == ValueType::FlagC && !has_deferred(f.top())),
    ensures
        op_return(p, w, f, c, inst) matches Some((w1, f1, s)) ==> {
            &&& s == StepView::Next
            &&& f1 == (FiberView { frames: f.frames.drop_last(), ..f })
            &&& w1 == (VmView { upvals: w1.upvals, stacks: w1.stacks, ..w })
            &&& w1.stacks.len() == w.stacks.len()
            &&& forall|t: int|
                0 <= t < w.stacks.len() && t != f.stack ==> #[trigger] w1.stacks[t] == w.stacks[t]
            &&& counts(p, f.top().func) matches Some((rets, params, locals)) && forall|i: int|
                #![trigger w1.stacks[f.stack as int][i]]
                0 <= i < w.stacks[f.stack as int].len() ==> w1.stacks[f.stack as int].len()
                    == w.stacks[f.stack as int].len() && w1.stacks[f.stack as int][i] == (
                if f.top().stack_base + rets <= i < f.top().stack_base + rets + params + locals {
                    void()
                } else {
                    w.stacks[f.stack as int][i]
                })
        },
{
    let fr = f.top();
    lemma_close_keeps_stacks(w, f.stack, fr.stack_base, or_empty(fr.referred_by), 0);
}

/// A call and the return from it: whatever the function did in its own frame,
/// the frames are then those from before the call.
pub proof fn law_call_then_return(
    p: &Bytecode,
    w: VmView,
    f: FiberView,
    c: Ctx,
    call: Instruction,
    w1: VmView,
    f1: FiberView,
    c1: Ctx,
    ret: Instruction,
)
    requires
        call.t0 == ValueType::FlagA,
        op_call(p, w, f, c, call) matches Some((_, f0, StepView::Next)) && f0.frames.len()
            > f.frames.len() && f1.frames.len() == f0.frames.len() && f1.frames.drop_last()
            == f0.frames.drop_last(),
        f.frames.len() > 0,
        f1.panic is None,
        ret.t0 == ValueType::FlagA || (ret.t0 == ValueType::FlagC && !has_deferred(f1.top())),
    ensures
        op_return(p, w1, f1, c1, ret) matches Some((_, f2, s)) ==> s == StepView::Next && f2.frames
            == f.frames,
{
    let f0 = op_call(p, w, f, c, call)->Some_0.1;
    assert(f0.frames.drop_last() =~= f.frames);
}

/// The call that was deferred last runs first, with the values that it was
/// deferred with, and the calls that were deferred before go on waiting. Its slots
/// come behind those of the function, which stay as they are.
pub proof fn law_deferred_runs_last_first(p: &Bytecode, w: VmView, f: FiberView, d: DeferredView)
    requires
        f.frames.len() > 0,
    ensures
        has_deferred(with_deferred(f, d).top()),
        run_deferred(p, w, with_deferred(f, d)) matches Some((w1, f1, s)) ==> {
            &&& s == StepView::Next
            &&& f1.frames.len() == f.frames.len() + 1
            &&& f1.top().func == d.func && f1.top().pc == 0
            &&& f1.top().var_ptrs == d.var_ptrs && f1.top().referred_by == d.referred_by
            &&& forall|i: int|
                0 <= i < f.frames.len() - 1 ==> #[trigger] f1.frames[i] == f.frames[i]
            &&& f1.frames[f.frames.len() - 1].defer_stack == Some(
                match f.top().defer_stack {
                    Some(s) => s,
                    None => seq![],
                },
            )
            &&& f1.frames[f.frames.len() - 1].pc == f.top().pc - 1
            &&& counts(p, f.top().func) matches Some((rets, params, locals))
                && f1.top().stack_base == f.top().stack_base + rets + params + locals
            &&& w1.stacks[f.stack as int].len() >= f1.top().stack_base + d.vec.len()
            &&& forall|i: int|
                0 <= i < d.vec.len() ==> w1.stacks[f.stack as int][f1.top().stack_base + i]
                    == #[trigger] d.vec[i]
            &&& forall|i: int|
                0 <= i < f1.top().stack_base && i < w.stacks[f.stack as int].len()
                    ==> #[trigger] w1.stacks[f.stack as int][i] == w.stacks[f.stack as int][i]
        },
{
    let g = with_deferred(f, d);
    let before = match f.top().defer_stack {
        Some(s) => s,
        None => seq![],
    };
    assert(before.push(d).drop_last() =~= before);
}

/// A function with calls that wait does not return: it runs one of them, and
/// comes to the return again.
pub proof fn law_return_waits(p: &Bytecode, w: VmView, f: FiberView, c: Ctx, inst: Instruction)
    requires
        f.frames.len() > 0,
        inst.t0 == ValueType::FlagC,
        has_deferred(f.top()),
    ensures
        op_return(p, w, f, c, inst) matches Some((_, f1, s)) ==> s == StepView::Next
            && f1.frames.len() == f.frames.len() + 1 && f1.frames[f.frames.len() - 1].pc
            == f.top().pc - 1 && f1.frames[f.frames.len() - 1].defer_stack->Some_0.len() + 1
            == f.top().defer_stack->Some_0.len(),
{
}

/// A panic that leaves a function with a caller says the same as before, notes
/// where the caller stands, and sends the caller to its last instruction.
pub proof fn law_panic_passes_frame(p: &Bytecode, w: VmView, f: FiberView, d: PanicView)
    requires
        f.frames.len() > 1,
        f.panic == Some(d),
    ensures
        leave(p, w, f) matches Some((w1, f1, s)) ==> {
            let caller = f.frames[f.frames.len() - 2];
            &&& s == StepView::Next
            &&& w1 == w
            &&& f1.panic == Some(
                PanicView {
                    msg: d.msg,
                    call_stack: d.call_stack.push((caller.func, (caller.pc - 1) as i32)),
                },
            )
            &&& f1.frames.len() == f.frames.len() - 1
            &&& last_pc(p, caller.func) == Some(f1.top().pc)
            &&& f1.top() == (FrameView { pc: f1.top().pc, ..caller })
        },
{
}

/// A panic that leaves the last function of a fiber is what remains of the
/// fiber.
pub proof fn law_panic_ends_fiber(p: &Bytecode, w: VmView, f: FiberView)
    requires
        f.frames.len() == 1,
    ensures
        leave(p, w, f) matches Some((w1, f1, s)) && s == StepView::End && w1.panic_data == f.panic
            && f1.frames.len() == 0,
{
}

/// A panic is recovered once: what it said is then in an interface in the result
/// slot, and no panic is on its way. Without a panic, the result is nil.
pub proof fn law_recover_once(p: &Bytecode, w: VmView, f: FiberView, c: Ctx, inst: Instruction)
    requires
        w.cells.len() < usize::MAX,
    ensures
        op_recover(w, f, c, inst) matches Some((w1, f1, s)) ==> {
            &&& s == StepView::Next
            &&& f1 == (FiberView { panic: None, ..f })
            &&& result_place(c, inst.d) matches Ok(pl)
            &&& f.panic is None ==> load(p, w1, pl) == Ok::<Value, Trap>(void())
            &&& f.panic matches Some(d) ==> {
                &&& load(p, w1, pl) matches Ok(
                    Value::Interface(InterfaceObj::Gos { under, binding: None }),
                )
                &&& w1.cell(under as int) == Ok::<Value, Trap>(d.msg)
            }
            &&& op_recover(w1, f1, c, inst) matches Some((w2, f2, _)) ==> load(p, w2, pl) == Ok::<
                Value,
                Trap,
            >(void()) && f2 == f1
        },
{
}

/// A mistake of the program leaves no trace in the tables but the text of its
/// panic, which is added to the cells; and the panic notes one place, in the
/// running function.
pub proof fn law_mistake_leaves_no_trace(p: &Bytecode, w: VmView, f: FiberView)
    ensures
        fetch(p, f) matches Some((_, inst, next)) && group(inst.op0) != Group::Fiber && data_inst(
            p,
            w,
            context_of(f),
            inst,
            next,
            f.context.async_enabled,
        ) is Err ==> (step(p, w, f) matches Some((w1, f1, s)) ==> {
            &&& s == StepView::Next
            &&& w1 == w.with_cells(w1.cells)
            &&& w.cells.len() <= w1.cells.len()
            &&& w1.cells.subrange(0, w.cells.len() as int) == w.cells
            &&& f1.frames.len() == f.frames.len()
            &&& f1.panic matches Some(d) && d.call_stack.len() == 1 && d.call_stack[0].0
                == f.top().func
            &&& last_pc(p, f.top().func) == Some(f1.top().pc)
        }),
{
    match step(p, w, f) {
        Some((w1, f1, _)) => {
            assert(w.cells.subrange(0, w.cells.len() as int) =~= w.cells);
            let (_, inst, next) = fetch(p, f)->Some_0;
            match data_inst(p, w, context_of(f), inst, next, f.context.async_enabled) {
                Err(Trap::Panic(e)) => {
                    assert(w1.cells.subrange(0, w.cells.len() as int) =~= w.cells);
                },
                _ => {},
            }
        },
        None => {},
    }
}

/// An instruction is counted once, whatever it does, and the context, the number
/// and the stack of the fiber never change.
pub proof fn law_step_counts(p: &Bytecode, w: VmView, f: FiberView)
    ensures
        step(p, w, f) matches Some((_, f1, _)) ==> {
            &&& f1.total_inst == counted(f.total_inst)
            &&& f1.context == f.context
            &&& f1.id == f.id
            &&& f1.stack == f.stack
            &&& f1.started == f.started
            &&& f1.unit_left == f.unit_left
        },
{
    match fetch(p, f) {
        Some((f1, inst, next)) => {
            if group(inst.op0) == Group::Fiber {
                let code = p.functions@[f.top().func as int].code@;
                lemma_fiber_keeps(p, w, f1, context_of(f), inst, code);
            }
        },
        None => {},
    }
}

proof fn lemma_fiber_keeps(
    p: &Bytecode,
    w: VmView,
    f: FiberView,
    c: Ctx,
    inst: Instruction,
    code: Seq<Instruction>,
)
    ensures
        fiber_inst(p, w, f, c, inst, code) matches Some((_, f1, _)) ==> {
            &&& f1.total_inst == f.total_inst
            &&& f1.context == f.context
            &&& f1.id == f.id
            &&& f1.stack == f.stack
            &&& f1.started == f.started
            &&& f1.unit_left == f.unit_left
        },
{
}

/// A turn is at most as many instructions as are left in the unit, and others
/// get their turn after exactly that many.
pub proof fn law_turn_is_bounded(p: &Bytecode, w: VmView, f: FiberView, n: nat)
    requires
        f.total_inst + n < u64::MAX,
        n <= usize::MAX,
    ensures
        run_unit(p, w, f, n) matches Some((_, f1, s)) ==> {
            &&& s != StepView::Next
            &&& f.total_inst <= f1.total_inst <= f.total_inst + n
            &&& s == StepView::Yield ==> f1.total_inst == f.total_inst + n && f1.unit_left
                == YIELD_UNIT && f1.panic is None
            &&& s != StepView::Yield ==> f1.total_inst + f1.unit_left == f.total_inst + n
        },
    decreases n,
{
    if n > 0 {
        law_step_counts(p, w, f);
        lemma_step_never_yields(p, w, f);
        match step(p, w, f) {
            Some((x, g, StepView::Next)) => {
                law_turn_is_bounded(p, x, g, (n - 1) as nat);
            },
            _ => {},
        }
    }
}

proof fn lemma_step_never_yields(p: &Bytecode, w: VmView, f: FiberView)
    ensures
        step(p, w, f) matches Some((_, _, s)) ==> s != StepView::Yield,
{
}

/// Whether a step neither spawns a fiber nor asks the host to communicate.
pub open spec fn alone(s: StepView) -> bool {
    match s {
        StepView::Spawn(_) => false,
        StepView::Ask(a) => match a {
            Ask::Send { .. } | Ask::Recv { .. } | Ask::Select { .. } | Ask::Close { .. }
            | Ask::Block => false,
            Ask::FfiCall { is_async, .. } => !is_async,
            _ => true,
        },
        _ => true,
    }
}

proof fn lemma_fiber_alone(
    p: &Bytecode,
    w: VmView,
    f: FiberView,
    c: Ctx,
    inst: Instruction,
    code: Seq<Instruction>,
)
    requires
        !f.context.async_enabled,
    ensures
        fiber_inst(p, w, f, c, inst, code) matches Some((_, _, s)) ==> alone(s),
{
}

/// Without a scheduler no fiber is spawned, and the host is never asked to
/// communicate.
pub proof fn law_no_scheduler(p: &Bytecode, w: VmView, f: FiberView)
    requires
        !f.context.async_enabled,
    ensures
        step(p, w, f) matches Some((_, _, s)) ==> alone(s),
{
    match fetch(p, f) {
        Some((f1, inst, next)) => {
            if group(inst.op0) == Group::Fiber {
                let code = p.functions@[f.top().func as int].code@;
                lemma_fiber_alone(p, w, f1, context_of(f), inst, code);
            }
        },
        None => {},
    }
}

pub proof fn lemma_link_keeps_stacks(
    w: VmView,
    stack: usize,
    base: OpIndex,
    descs: Seq<ValueDesc>,
    uvs: Region,
    i: nat,
    ptrs: Seq<Value>,
    refs: Option<Referred>,
)
    ensures
        link(w, stack, base, descs, uvs, i, ptrs, refs) matches Some((x, _, _)) ==> x == (VmView {
            upvals: x.upvals,
            ..w
        }),
    decreases descs.len() - i,
{
    if i < descs.len() {
        let d = descs[i as int];
        if d.is_local {
            let id = w.upvals.len() as usize;
            lemma_link_keeps_stacks(
                w.with_new_upval(
                    UpValueState::Open(ValueDesc { stack: Some(stack), stack_base: base, ..d }),
                ),
                stack,
                base,
                descs,
                uvs,
                i + 1,
                ptrs.push(Value::Pointer(PointerObj::UpVal(id))),
                Some(with_referrer(or_empty(refs), d.index, d.typ, id)),
            );
        } else {
            match captured(w, uvs, i as int) {
                Some(id) => {
                    lemma_link_keeps_stacks(
                        w,
                        stack,
                        base,
                        descs,
                        uvs,
                        i + 1,
                        ptrs.push(Value::Pointer(PointerObj::UpVal(id))),
                        refs,
                    );
                },
                None => {},
            }
        }
    }
}

/// A fiber that is spawned has a stack of its own, which is new, and the next
/// number; the fiber that spawns it goes on as it was.
pub proof fn law_spawn_is_separate(p: &Bytecode, w: VmView, f: FiberView, c: Ctx, inst: Instruction)
    requires
        w.stacks.len() < usize::MAX,
    ensures
        op_call(p, w, f, c, inst) matches Some((w1, f1, StepView::Spawn(g))) ==> {
            &&& f1 == f
            &&& f.stack < w.stacks.len()
            &&& g.stack == w.stacks.len()
            &&& w1.stacks.len() == w.stacks.len() + 1
            &&& g.id == f.context.next_id
            &&& g.context.next_id == g.id + 1
            &&& g.frames.len() == 1 && g.top().pc == 0 && g.top().stack_base == 0
            &&& g.panic is None && g.pending is None
        },
{
    match op_call(p, w, f, c, inst) {
        Some((_, _, StepView::Spawn(_))) => {
            let v = w.read(c, p.consts@, inst.d)->Ok_0;
            let base = index_of(c.sb + inst.s0)->Some_0;
            match as_closure(w, v)->Ok_0 {
                ClosureObj::Gos { func, uvs: Some(r), recv } => {
                    let fo = p.functions@[func as int];
                    let n = index_of(base + fo.max_write_index + 1)->Some_0;
                    let x = w.with_min_size(f.stack, n)->Ok_0;
                    let y = x.with_vec(f.stack, base, with_recv(fo.ret_zeros@, recv))->Ok_0;
                    lemma_link_keeps_stacks(y, f.stack, base, fo.up_ptrs@, r, 0, seq![], None);
                },
                _ => {},
            }
        },
        _ => {},
    }
}

/// The slots that the first function of a fiber writes to are there when it begins.
/// Those of its local variables hold their zero values, and its parameters are left
/// alone.
pub proof fn law_first_function_has_room(p: &Bytecode, w: VmView, f: FiberView)
    requires
        !f.started,
        f.frames.len() > 0 && f.top().func < p.functions@.len(),
        f.stack < w.stacks.len(),
        0 <= p.functions@[f.top().func as int].param_count,
        -1 <= f.top().stack_base + p.functions@[f.top().func as int].max_write_index < i32::MAX,
    ensures
        begin(p, w, f) matches Some((w1, f1)) && {
            let fo = p.functions@[f.top().func as int];
            let s = w.stacks[f.stack as int];
            let s1 = w1.stacks[f.stack as int];
            &&& f1 == (FiberView { started: true, ..f })
            &&& f.top().stack_base + fo.max_write_index < s1.len()
            &&& fo.param_count + fo.local_zeros@.len() <= s1.len()
            &&& s1.subrange(
                fo.param_count as int,
                fo.param_count + fo.local_zeros@.len(),
            ) == fo.local_zeros@
            &&& forall|i: int| 0 <= i < fo.param_count && i < s.len() ==> #[trigger] s1[i] == s[i]
        },
{
    let (w1, f1) = begin(p, w, f)->Some_0;
    let fo = p.functions@[f.top().func as int];
    let s1 = w1.stacks[f.stack as int];
    assert(s1.subrange(fo.param_count as int, fo.param_count + fo.local_zeros@.len())
        =~= fo.local_zeros@);
}

/// Where the host is asked for an answer, the fiber waits for it; otherwise it
/// does not.
pub proof fn law_ask_then_wait(p: &Bytecode, w: VmView, f: FiberView)
    requires
        f.pending is None,
    ensures
        step(p, w, f) matches Some((_, f1, s)) ==> {
            let asked = s matches StepView::Ask(a) && !(a is Close);
            asked <==> f1.pending is Some
        },
{
    match fetch(p, f) {
        Some((f1, inst, next)) => {
            if group(inst.op0) == Group::Fiber {
                let code = p.functions@[f.top().func as int].code@;
                lemma_fiber_waits(p, w, f1, context_of(f), inst, code);
            }
        },
        None => {},
    }
}

proof fn lemma_fiber_waits(
    p: &Bytecode,
    w: VmView,
    f: FiberView,
    c: Ctx,
    inst: Instruction,
    code: Seq<Instruction>,
)
    requires
        f.pending is None,
    ensures
        fiber_inst(p, w, f, c, inst, code) matches Some((_, f1, s)) ==> {
            let asked = s matches StepView::Ask(a) && !(a is Close);
            asked <==> f1.pending is Some
        },
{
}

/// A fiber that waits does not run, takes one answer, and then waits no more.
pub proof fn law_one_answer(
    p: &Bytecode,
    w: VmView,
    f: FiberView,
    reply: Reply,
    w1: VmView,
    again: Reply,
)
    ensures
        f.pending is Some ==> main_loop(p, w, f) is None,
        resume(p, w, f, reply) matches Some((_, f1, s)) ==> s == StepView::Next && f1.pending is None
            && resume(p, w1, f1, again) is None,
{
}

/// Whether the variables of a package, up to the `i`th, are where they belong.
pub open spec fn vars_placed(
    w: VmView,
    members: Region,
    mapping: Seq<usize>,
    vals: Seq<Value>,
    i: int,
) -> bool {
    forall|j: int|
        0 <= j < i ==> var_placed(w, members, #[trigger] mapping[j], vals[j])
}

/// Whether a variable of a package holds a value.
pub open spec fn var_placed(w: VmView, members: Region, member: usize, val: Value) -> bool {
    region_cell(members, member as int) matches Ok(a) && w.cell(a as int) == Ok::<Value, Trap>(val)
}

proof fn lemma_init_vars(
    w: VmView,
    members: Region,
    mapping: Seq<usize>,
    vals: Seq<Value>,
    i: nat,
)
    requires
        i <= vals.len(),
        forall|j: int, k: int|
            #![trigger mapping[j], mapping[k]]
            0 <= j < k < mapping.len() ==> mapping[j] != mapping[k],
        i <= mapping.len(),
        vars_placed(w, members, mapping, vals, i as int),
    ensures
        init_vars(w, members, mapping, vals, i) matches Some(x) ==> vars_placed(
            x,
            members,
            mapping,
            vals,
            vals.len() as int,
        ) && x == w.with_cells(x.cells),
    decreases vals.len() - i,
{
    if i < vals.len() && i < mapping.len() {
        match region_cell(members, mapping[i as int] as int) {
            Ok(a) => match w.with_cell(a as int, vals[i as int]) {
                Ok(x) => {
                    assert forall|j: int| 0 <= j < i + 1 implies var_placed(
                        x,
                        members,
                        #[trigger] mapping[j],
                        vals[j],
                    ) by {
                        if j < i {
                            assert(mapping[j] != mapping[i as int]);
                            assert(var_placed(w, members, mapping[j], vals[j]));
                        }
                    }
                    lemma_init_vars(x, members, mapping, vals, i + 1);
                },
                Err(_) => {},
            },
            Err(_) => {},
        }
    }
}

/// A package is made ready once: its variables then hold what its initialiser
/// left on the stack, and to make it ready again is refused.
pub proof fn law_package_ready_once(
    p: &Bytecode,
    w: VmView,
    f: FiberView,
    c: Ctx,
    inst: Instruction,
    k: PackageKey,
    w2: VmView,
)
    requires
        w.read(c, p.consts@, inst.d) == Ok::<Value, Trap>(Value::Package(k)),
        w2.read(c, p.consts@, inst.d) == Ok::<Value, Trap>(Value::Package(k)),
        k < p.packages@.len() ==> forall|i: int, j: int|
            #![trigger p.packages@[k as int].var_mapping@[i], p.packages@[k as int].var_mapping@[j]]
            0 <= i < j < p.packages@[k as int].var_mapping@.len()
                ==> p.packages@[k as int].var_mapping@[i] != p.packages@[k as int].var_mapping@[j],
    ensures
        init_package(p, w, f, c, inst) matches Some(w1) ==> {
            let pkg = p.packages@[k as int];
            &&& k < w.inited.len() && !w.inited[k as int]
            &&& w1.inited == w.inited.update(k as int, true)
            &&& counts(p, f.top().func) matches Some((_, _, locals)) && index_of(
                c.sb + locals,
            ) matches Some(end) && w.taken(f.stack, c.sb, end) matches Ok((_, vals))
                && vars_placed(w1, pkg.members, pkg.var_mapping@, vals, vals.len() as int)
        },
        k < w2.inited.len() && w2.inited[k as int] ==> init_package(p, w2, f, c, inst) is None,
{
    match init_package(p, w, f, c, inst) {
        Some(w1) => {
            let pkg = p.packages@[k as int];
            let locals = counts(p, f.top().func)->Some_0.2;
            let end = index_of(c.sb + locals)->Some_0;
            let (x, vals) = w.taken(f.stack, c.sb, end)->Ok_0;
            lemma_init_vars(x, pkg.members, pkg.var_mapping@, vals, 0);
            let y = init_vars(x, pkg.members, pkg.var_mapping@, vals, 0)->Some_0;
            assert forall|j: int| 0 <= j < vals.len() implies var_placed(
                w1,
                pkg.members,
                #[trigger] pkg.var_mapping@[j],
                vals[j],
            ) by {
                assert(var_placed(y, pkg.members, pkg.var_mapping@[j], vals[j]));
            }
        },
        None => {},
    }
}

} // verus!

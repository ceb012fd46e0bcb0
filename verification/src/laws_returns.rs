//! What returns leave: results, captured variables, deferred calls, panics and the
//! variables of packages.
use vstd::prelude::*;
use crate::bytecode::{Bytecode, Instruction, Opcode};
use crate::effect::{Ask, Pending};
use crate::fiber::{index_of, FiberView, StepView};
use crate::frame::{or_empty, DeferredView, FrameView};
use crate::laws_basis::{
    comes_to, goes_on, holds, inst_at, lemma_operand, lemma_raises, lemma_step, moved, says,
    slot_of,
};
use crate::laws_calls::call_base;
use crate::laws_closure::{law_drop_closes_variables, one_slot_each};
use crate::laws_run::{law_package_ready_once, lemma_close_keeps_stacks, var_placed};
use crate::machine::{region_cell, ClosureObj, Ctx, UpValueState, VmView};
use crate::ops_call::{clear_frame, init_package, init_vars, leave, run_deferred};
use crate::panic::PanicView;
use crate::reply::{resume, Reply};
use crate::run::{context_of, step};
use crate::trap::Trap;
use crate::value::{void, Meta, MetadataKey, OpIndex, PackageKey, Region, Value, ValueType};

verus! {

/// Whether a fiber comes to a return that clears the frame of its function.
pub open spec fn comes_back(p: &Bytecode, f: FiberView) -> bool {
    &&& comes_to(p, f, Opcode::RETURN, 0)
    &&& inst_at(p, f).t0 == ValueType::FlagA || (inst_at(p, f).t0 == ValueType::FlagC && (
    f.frames.last().defer_stack matches Some(s) ==> s.len() == 0))
}

/// Whether the frame of the running function was cleared: its results stay, its
/// parameters and local variables are gone, and all other slots are as they were. The
/// variables that were captured in it hold what their slots held.
pub open spec fn cleared(p: &Bytecode, w: VmView, w1: VmView, f: FiberView) -> bool {
    let fr = f.frames.last();
    let fo = p.functions@[fr.func as int];
    let old = w.stacks[f.stack as int];
    let new = w1.stacks[f.stack as int];
    let begin = fr.stack_base + fo.ret_zeros@.len();
    let end = begin + fo.param_count + fo.local_zeros@.len();
    &&& f.stack < w.stacks.len()
    &&& w1 == (VmView { upvals: w1.upvals, stacks: w1.stacks, ..w })
    &&& w1.stacks.len() == w.stacks.len()
    &&& forall|t: int|
        0 <= t < w.stacks.len() && t != f.stack ==> #[trigger] w1.stacks[t] == w.stacks[t]
    &&& new.len() == old.len()
    &&& forall|i: int|
        0 <= i < old.len() ==> #[trigger] new[i] == if begin <= i < end {
            void()
        } else {
            old[i]
        }
    &&& one_slot_each(or_empty(fr.referred_by)) ==> forall|k: int, l: int|
        #![trigger or_empty(fr.referred_by)[k].1.weaks[l]]
        0 <= k < or_empty(fr.referred_by).len() && 0 <= l < or_empty(
            fr.referred_by,
        )[k].1.weaks.len() ==> {
            let at = fr.stack_base + or_empty(fr.referred_by)[k].0;
            let id = or_empty(fr.referred_by)[k].1.weaks[l];
            &&& 0 <= at < old.len()
            &&& id < w1.upvals.len()
            &&& w1.upvals[id as int] == UpValueState::Closed(old[at])
        }
}

proof fn lemma_clear(p: &Bytecode, w: VmView, f: FiberView)
    requires
        f.frames.len() > 0,
    ensures
        clear_frame(p, w, f.stack, f.frames.last()) matches Some(w1) ==> f.frames.last().func
            < p.functions@.len() && cleared(p, w, w1, f),
        ({
            let fr = f.frames.last();
            let fo = p.functions@[fr.func as int];
            let n = fo.ret_zeros@.len() + fo.param_count + fo.local_zeros@.len();
            &&& fr.func < p.functions@.len() && f.stack < w.stacks.len() && or_empty(
                fr.referred_by,
            ).len() == 0 && 0 <= fr.stack_base && 0 <= fo.param_count && fr.stack_base + n
                <= w.stacks[f.stack as int].len() && fr.stack_base + n <= i32::MAX
        }) ==> clear_frame(p, w, f.stack, f.frames.last()) is Some,
{
    let fr = f.frames.last();
    let refs = or_empty(fr.referred_by);
    lemma_close_keeps_stacks(w, f.stack, fr.stack_base, refs, 0);
    match clear_frame(p, w, f.stack, fr) {
        Some(w1) => {
            if one_slot_each(refs) {
                law_drop_closes_variables(w, f.stack, fr.stack_base, refs, seq![]);
            }
        },
        None => {},
    }
}

/// A return leads back to the caller, which goes on behind the call as it stood. The
/// results of the function are where they were, its parameters and local variables
/// are gone, and the variables that were captured in it live on with what they held.
pub proof fn law_return_leaves_results(p: &Bytecode, w: VmView, f: FiberView)
    requires
        comes_back(p, f),
        f.frames.len() > 1,
        f.panic is None,
    ensures
        step(p, w, f) matches Some((w1, f1, s)) ==> {
            &&& s == StepView::Next
            &&& cleared(p, w, w1, f)
            &&& f1 == (FiberView {
                frames: f.frames.drop_last(),
                total_inst: f1.total_inst,
                ..f
            })
        },
        ({
            let fr = f.frames.last();
            let fo = p.functions@[fr.func as int];
            let n = fo.ret_zeros@.len() + fo.param_count + fo.local_zeros@.len();
            &&& f.stack < w.stacks.len() && fr.referred_by is None && 0 <= fr.stack_base && 0
                <= fo.param_count && fr.stack_base + n <= w.stacks[f.stack as int].len()
                && fr.stack_base + n <= i32::MAX
        }) ==> step(p, w, f) is Some,
{
    lemma_step(p, w, f);
    let g = moved(f, 1);
    lemma_clear(p, w, g);
    assert(g.frames.drop_last() =~= f.frames.drop_last());
}

/// The return of the first function ends the fiber. The panic that is still on its
/// way, if there is one, is what remains of it.
pub proof fn law_last_return_ends(p: &Bytecode, w: VmView, f: FiberView)
    requires
        comes_back(p, f),
        f.frames.len() == 1,
    ensures
        step(p, w, f) matches Some((w1, f1, s)) ==> {
            &&& s == StepView::End
            &&& f1.frames.len() == 0
            &&& w1.panic_data == f.panic
            &&& w1 == (VmView {
                upvals: w1.upvals,
                stacks: w1.stacks,
                panic_data: w1.panic_data,
                ..w
            })
            &&& w1.stacks.len() == w.stacks.len()
            &&& forall|t: int|
                0 <= t < w.stacks.len() && t != f.stack ==> #[trigger] w1.stacks[t] == w.stacks[t]
        },
{
    lemma_step(p, w, f);
    lemma_clear(p, w, moved(f, 1));
}

/// With a panic on its way, a return sends the caller to its own last instruction. The
/// panic says what it said and notes where the caller stood.
pub proof fn law_panic_goes_up(p: &Bytecode, w: VmView, f: FiberView, d: PanicView)
    requires
        comes_back(p, f),
        f.frames.len() > 1,
        f.panic == Some(d),
    ensures
        step(p, w, f) matches Some((w1, f1, s)) ==> {
            let caller = f.frames[f.frames.len() - 2];
            &&& s == StepView::Next
            &&& cleared(p, w, w1, f)
            &&& caller.func < p.functions@.len()
            &&& f1.frames.len() == f.frames.len() - 1
            &&& forall|i: int|
                0 <= i < f.frames.len() - 2 ==> #[trigger] f1.frames[i] == f.frames[i]
            &&& f1.frames.last().pc == p.functions@[caller.func as int].code@.len() - 1
            &&& f1.frames.last() == (FrameView { pc: f1.frames.last().pc, ..caller })
            &&& f1.panic matches Some(e) && e.msg == d.msg && e.call_stack.len()
                == d.call_stack.len() + 1 && e.call_stack.drop_last() == d.call_stack
                && e.call_stack.last().0 == caller.func && e.call_stack.last().1 == caller.pc - 1
        },
{
    lemma_step(p, w, f);
    lemma_clear(p, w, moved(f, 1));
    match step(p, w, f) {
        Some((w1, f1, _)) => {
            assert(f1.panic->Some_0.call_stack.drop_last() =~= d.call_stack);
        },
        None => {},
    }
}

/// Whether the latest of the calls that wait begins: its function, with the values that
/// it was deferred with and the zero values of its local variables, behind the slots of
/// the running function. The others go on waiting, and the running function comes back
/// to its return.
pub open spec fn deferred_begins(
    p: &Bytecode,
    w: VmView,
    f: FiberView,
    waiting: Seq<DeferredView>,
    w1: VmView,
    f1: FiberView,
    s: StepView,
) -> bool {
    let own = f.frames.last();
    let fo = p.functions@[own.func as int];
    let call = waiting.last();
    let locals = p.functions@[call.func as int].local_zeros@;
    let base = own.stack_base + fo.ret_zeros@.len() + fo.param_count
        + fo.local_zeros@.len();
    let fr = f1.frames.last();
    let old = w.stacks[f.stack as int];
    let new = w1.stacks[f.stack as int];
    &&& s == StepView::Next
    &&& f.stack < w.stacks.len() && call.func < p.functions@.len()
    &&& f1.frames.len() == f.frames.len() + 1
    &&& fr.func == call.func && fr.pc == 0 && fr.stack_base == base
    &&& fr.var_ptrs == call.var_ptrs && fr.referred_by == call.referred_by
    &&& fr.defer_stack is None
    &&& forall|i: int|
        0 <= i < f.frames.len() - 1 ==> #[trigger] f1.frames[i] == f.frames[i]
    &&& f1.frames[f.frames.len() - 1] == (FrameView {
        defer_stack: Some(waiting.drop_last()),
        ..own
    })
    &&& f1.panic == f.panic
    &&& w1 == (VmView { stacks: w1.stacks, ..w })
    &&& w1.stacks.len() == w.stacks.len()
    &&& forall|t: int|
        0 <= t < w.stacks.len() && t != f.stack ==> #[trigger] w1.stacks[t] == w.stacks[t]
    &&& base + call.vec.len() + locals.len() <= new.len()
    &&& forall|i: int| 0 <= i < call.vec.len() ==> new[base + i] == #[trigger] call.vec[i]
    &&& forall|i: int|
        0 <= i < locals.len() ==> new[base + call.vec.len() + i] == #[trigger] locals[i]
    &&& forall|i: int|
        0 <= i < old.len() && !(base <= i < base + call.vec.len() + locals.len())
            ==> #[trigger] new[i] == old[i]
}

proof fn lemma_deferred_begins(p: &Bytecode, w: VmView, f: FiberView, waiting: Seq<DeferredView>)
    requires
        comes_to(p, f, Opcode::RETURN, 0),
        f.frames.last().defer_stack == Some(waiting),
        waiting.len() > 0,
    ensures
        run_deferred(p, w, moved(f, 1)) matches Some((w1, f1, s)) ==> deferred_begins(
            p,
            w,
            f,
            waiting,
            w1,
            f1,
            s,
        ),
{
    let g = moved(f, 1);
    assert(index_of(g.top().pc - 1) == Some(f.frames.last().pc));
}

/// A function with deferred calls comes to its return again and again, and each time
/// runs the call that was deferred last, until none is left. The call begins behind
/// the slots of the function, with the values that it was deferred with and behind
/// them its local variables, which are zero.
pub proof fn law_return_runs_deferred(
    p: &Bytecode,
    w: VmView,
    f: FiberView,
    waiting: Seq<DeferredView>,
)
    requires
        comes_to(p, f, Opcode::RETURN, 0),
        inst_at(p, f).t0 == ValueType::FlagC,
        f.frames.last().defer_stack == Some(waiting),
        waiting.len() > 0,
    ensures
        step(p, w, f) matches Some((w1, f1, s)) ==> deferred_begins(p, w, f, waiting, w1, f1, s),
{
    lemma_step(p, w, f);
    lemma_deferred_begins(p, w, f, waiting);
}

proof fn lemma_mapped(w: VmView, members: Region, mapping: Seq<usize>, vals: Seq<Value>, i: nat)
    requires
        i < vals.len(),
    ensures
        init_vars(w, members, mapping, vals, i) is Some ==> vals.len() <= mapping.len(),
    decreases vals.len() - i,
{
    match init_vars(w, members, mapping, vals, i) {
        Some(_) => {
            let a = region_cell(members, mapping[i as int] as int)->Ok_0;
            let w1 = w.with_cell(a as int, vals[i as int])->Ok_0;
            if i + 1 < vals.len() {
                lemma_mapped(w1, members, mapping, vals, i + 1);
            }
        },
        None => {},
    }
}

proof fn lemma_variables(p: &Bytecode, w: VmView, g: FiberView, c: Ctx, inst: Instruction, k: PackageKey)
    requires
        w.read(c, p.consts@, inst.d) == Ok::<Value, Trap>(Value::Package(k)),
        k < p.packages@.len(),
        g.frames.len() > 0,
        g.frames.last().func < p.functions@.len(),
        forall|i: int, j: int|
            #![trigger p.packages@[k as int].var_mapping@[i], p.packages@[k as int].var_mapping@[j]]
            0 <= i < j < p.packages@[k as int].var_mapping@.len()
                ==> p.packages@[k as int].var_mapping@[i] != p.packages@[k as int].var_mapping@[j],
    ensures
        init_package(p, w, g, c, inst) matches Some(w1) ==> {
            let pkg = p.packages@[k as int];
            let n = p.functions@[g.frames.last().func as int].local_zeros@.len();
            &&& k < w.inited.len() && !w.inited[k as int]
            &&& w1.inited == w.inited.update(k as int, true)
            &&& n <= pkg.var_mapping@.len()
            &&& forall|i: int|
                0 <= i < n ==> {
                    let at = pkg.members.base + (#[trigger] pkg.var_mapping@[i]);
                    &&& at < w1.cells.len()
                    &&& w1.cells[at] == w.stacks[g.stack as int][c.sb + i]
                }
        },
        k < w.inited.len() && w.inited[k as int] ==> init_package(p, w, g, c, inst) is None,
{
    law_package_ready_once(p, w, g, c, inst, k, w);
    match init_package(p, w, g, c, inst) {
        Some(w1) => {
            let pkg = p.packages@[k as int];
            let n = p.functions@[g.frames.last().func as int].local_zeros@.len();
            let end = index_of(c.sb + n)->Some_0;
            let (x, vals) = w.taken(g.stack, c.sb, end)->Ok_0;
            if vals.len() > 0 {
                lemma_mapped(x, pkg.members, pkg.var_mapping@, vals, 0);
            }
            assert forall|i: int| 0 <= i < n implies ({
                let at = pkg.members.base + (#[trigger] pkg.var_mapping@[i]);
                &&& at < w1.cells.len()
                &&& w1.cells[at] == w.stacks[g.stack as int][c.sb + i]
            }) by {
                assert(var_placed(w1, pkg.members, pkg.var_mapping@[i], vals[i]));
            }
        },
        None => {},
    }
}

/// The initialiser of a package leaves the first values of its variables on the
/// stack. Each becomes the member that it is mapped to, and the package is ready.
pub proof fn law_package_gets_variables(p: &Bytecode, w: VmView, f: FiberView, k: PackageKey)
    requires
        comes_to(p, f, Opcode::RETURN, 0),
        inst_at(p, f).t0 == ValueType::FlagB,
        holds(p, w, f, inst_at(p, f).d, Value::Package(k)),
        k < p.packages@.len(),
        f.frames.len() > 1,
        f.panic is None,
        forall|i: int, j: int|
            #![trigger p.packages@[k as int].var_mapping@[i], p.packages@[k as int].var_mapping@[j]]
            0 <= i < j < p.packages@[k as int].var_mapping@.len()
                ==> p.packages@[k as int].var_mapping@[i] != p.packages@[k as int].var_mapping@[j],
    ensures
        step(p, w, f) matches Some((w1, f1, s)) ==> {
            let pkg = p.packages@[k as int];
            let n = p.functions@[f.frames.last().func as int].local_zeros@.len();
            &&& s == StepView::Next
            &&& f1 == (FiberView {
                frames: f.frames.drop_last(),
                total_inst: f1.total_inst,
                ..f
            })
            &&& k < w.inited.len() && !w.inited[k as int]
            &&& w1.inited == w.inited.update(k as int, true)
            &&& n <= pkg.var_mapping@.len()
            &&& forall|i: int|
                0 <= i < n ==> {
                    let at = pkg.members.base + (#[trigger] pkg.var_mapping@[i]);
                    &&& at < w1.cells.len()
                    &&& w1.cells[at] == slot_of(w, f, i)
                }
        },
        k < w.inited.len() && w.inited[k as int] ==> step(p, w, f) is None,
{
    lemma_step(p, w, f);
    lemma_operand(p, w, f, inst_at(p, f).d);
    let g = moved(f, 1);
    lemma_variables(p, w, g, context_of(f), inst_at(p, f), k);
    assert(g.frames.drop_last() =~= f.frames.drop_last());
    match init_package(p, w, g, context_of(f), inst_at(p, f)) {
        Some(w1) => {
            assert(leave(p, w1, g) == Some(
                (w1, FiberView { frames: f.frames.drop_last(), ..g }, StepView::Next),
            ));
        },
        None => {},
    }
}

/// Whether a fiber comes to a call of a method of the host.
pub open spec fn calls_host(
    p: &Bytecode,
    w: VmView,
    f: FiberView,
    ffi: usize,
    iface: MetadataKey,
    index: usize,
    meta: Meta,
    is_async: bool,
) -> bool {
    &&& comes_to(p, f, Opcode::CALL, 0)
    &&& exists|id: usize|
        id < w.closures.len() && holds(p, w, f, inst_at(p, f).d, Value::Closure(id))
            && #[trigger] w.closures[id as int] == (ClosureObj::Ffi {
            ffi,
            iface,
            index,
            meta,
            is_async,
        })
    &&& meta.key < p.metas@.len()
    &&& p.metas@[meta.key as int] is Signature
}

/// Whether a fiber waits for the answer to a call to the host: the arguments that
/// stood in the slots from `begin` to `end` left the stack in their order, and nothing
/// else changed.
pub open spec fn arguments_taken(
    w: VmView,
    w1: VmView,
    stack: usize,
    begin: int,
    end: int,
    args: Seq<Value>,
) -> bool {
    let old = w.stacks[stack as int];
    let new = w1.stacks[stack as int];
    &&& stack < w.stacks.len() && 0 <= begin <= end <= old.len()
    &&& args.len() == end - begin
    &&& forall|i: int| 0 <= i < args.len() ==> #[trigger] args[i] == old[begin + i]
    &&& w1 == (VmView { stacks: w.stacks.update(stack as int, new), ..w })
    &&& new.len() == old.len()
    &&& forall|i: int| 0 <= i < old.len() && !(begin <= i < end) ==> #[trigger] new[i] == old[i]
    &&& forall|i: int| begin <= i < end ==> #[trigger] new[i] == void()
}

proof fn lemma_taken(w: VmView, stack: usize, begin: OpIndex, end: OpIndex)
    ensures
        w.taken(stack, begin, end) matches Ok((x, args)) ==> arguments_taken(
            w,
            x,
            stack,
            begin as int,
            end as int,
            args,
        ),
{
}

/// Whether the arguments of a call of a method of the host are there.
pub open spec fn has_arguments(p: &Bytecode, w: VmView, f: FiberView, meta: Meta) -> bool {
    let begin = call_base(p, f) + 1 + p.metas@[meta.key as int]->results@.len();
    let end = begin + p.metas@[meta.key as int]->params@.len();
    &&& f.stack < w.stacks.len()
    &&& 0 <= begin && i32::MIN <= call_base(p, f)
    &&& end <= w.stacks[f.stack as int].len() && end <= i32::MAX
}

/// A method of the host is called with the arguments that the caller left behind the
/// slots for the results and the one for the receiver, in their order. They leave the
/// stack.
pub proof fn law_host_is_called(
    p: &Bytecode,
    w: VmView,
    f: FiberView,
    ffi: usize,
    iface: MetadataKey,
    index: usize,
    meta: Meta,
    is_async: bool,
)
    requires
        calls_host(p, w, f, ffi, iface, index, meta, is_async),
        is_async ==> f.context.async_enabled,
    ensures
        has_arguments(p, w, f, meta) ==> step(p, w, f) is Some,
        step(p, w, f) matches Some((w1, f1, s)) ==> {
            let base = call_base(p, f);
            let begin = base + 1 + p.metas@[meta.key as int]->results@.len();
            let end = begin + p.metas@[meta.key as int]->params@.len();
            &&& s == StepView::Ask(Ask::FfiCall { ffi, iface, index, is_async })
            &&& arguments_taken(w, w1, f.stack, begin, end, f1.args)
            &&& f1.pending matches Some(Pending::FfiCall { begin: at }) && at == base
            &&& goes_on(f, (FiberView { args: f.args, pending: f.pending, ..f1 }), 1)
        },
{
    let base = call_base(p, f);
    let begin = base + 1 + p.metas@[meta.key as int]->results@.len();
    let end = begin + p.metas@[meta.key as int]->params@.len();
    lemma_step(p, w, f);
    lemma_operand(p, w, f, inst_at(p, f).d);
    if i32::MIN <= begin && end <= i32::MAX {
        lemma_taken(w, f.stack, begin as OpIndex, end as OpIndex);
    }
}

/// Without a scheduler, a method of the host that waits is not called: the program
/// panics.
pub proof fn law_host_call_needs_scheduler(
    p: &Bytecode,
    w: VmView,
    f: FiberView,
    ffi: usize,
    iface: MetadataKey,
    index: usize,
    meta: Meta,
)
    requires
        calls_host(p, w, f, ffi, iface, index, meta, true),
        !f.context.async_enabled,
        has_arguments(p, w, f, meta),
    ensures
        step(p, w, f) matches Some((w1, f1, s)) && s == StepView::Next && exists|x: VmView|
            #[trigger] says(p, x, f, 1, "Async features disabled"@, w1, f1),
{
    let begin = call_base(p, f) + 1 + p.metas@[meta.key as int]->results@.len();
    let end = begin + p.metas@[meta.key as int]->params@.len();
    lemma_step(p, w, f);
    lemma_operand(p, w, f, inst_at(p, f).d);
    let (x, _) = w.taken(f.stack, begin as OpIndex, end as OpIndex)->Ok_0;
    lemma_raises(p, x, f, 1, "Async features disabled"@);
}

/// What the host returns from a call goes, in its order, into the slots from the
/// beginning of the call on, and nothing else changes.
pub proof fn law_host_returns(p: &Bytecode, w: VmView, f: FiberView, begin: OpIndex, vals: Vec<Value>)
    requires
        f.pending == Some(Pending::FfiCall { begin }),
        f.frames.len() > 0,
        f.stack < w.stacks.len(),
        0 <= begin,
    ensures
        resume(p, w, f, Reply::Returned(vals)) matches Some((w1, f1, s)) && {
            let old = w.stacks[f.stack as int];
            let new = w1.stacks[f.stack as int];
            &&& s == StepView::Next
            &&& f1 == (FiberView { pending: None, ..f })
            &&& w1 == (VmView { stacks: w1.stacks, ..w })
            &&& w1.stacks.len() == w.stacks.len()
            &&& forall|t: int|
                0 <= t < w.stacks.len() && t != f.stack ==> #[trigger] w1.stacks[t] == w.stacks[t]
            &&& begin + vals@.len() <= new.len()
            &&& forall|i: int| 0 <= i < vals@.len() ==> new[begin + i] == #[trigger] vals@[i]
            &&& forall|i: int|
                0 <= i < old.len() && !(begin <= i < begin + vals@.len()) ==> #[trigger] new[i]
                    == old[i]
        },
{
}

} // verus!

//! What calls begin with, what goroutines are given, and what returns leave.
use vstd::prelude::*;
use crate::bytecode::{Bytecode, Opcode, ValueDesc};
use crate::fiber::{index_of, new_fiber, FiberView, StepView};
use crate::frame::FrameView;
use crate::laws_basis::{
    comes_to, goes_on, holds, inst_at, lemma_operand, lemma_raises, lemma_step, moved, says,
};
use crate::laws_closure::{law_call_links_variables, lies};
use crate::laws_run::lemma_link_keeps_stacks;
use crate::machine::{fresh_stack, ClosureObj, UpValueState, VmView};
use crate::ops_call::{enter, take_args, with_recv};
use crate::run::step;
use crate::value::{void, FunctionKey, OpIndex, PointerObj, Region, Value, ValueType};

verus! {

/// Whether a stack became what a call begins with: behind `base` the results with
/// their zero values, and behind them the receiver, if there is one. What the caller
/// left in the other slots stays there.
pub open spec fn begins_with(
    before: Seq<Value>,
    after: Seq<Value>,
    base: int,
    zeros: Seq<Value>,
    recv: Option<Value>,
) -> bool {
    &&& before.len() <= after.len()
    &&& base + zeros.len() <= after.len()
    &&& forall|i: int| 0 <= i < zeros.len() ==> after[base + i] == #[trigger] zeros[i]
    &&& recv matches Some(v) ==> base + zeros.len() < after.len() && after[base + zeros.len()] == v
    &&& forall|i: int|
        0 <= i < before.len() && !(base <= i < base + zeros.len()) && !(recv is Some && i == base
            + zeros.len()) ==> #[trigger] after[i] == before[i]
}

/// Whether the variables that a function captures are there for a call of it, in
/// the cells from `q.base` on: those of the call itself lie in its slots, the others
/// are those of the function value.
pub open spec fn has_variables(
    w: VmView,
    w1: VmView,
    stack: usize,
    base: int,
    descs: Seq<ValueDesc>,
    uvs: Region,
    q: Region,
) -> bool {
    &&& q.len == descs.len()
    &&& q.base + q.len <= w1.cells.len()
    &&& forall|k: int|
        0 <= k < descs.len() ==> (w1.cells[q.base + k] matches Value::Pointer(
            PointerObj::UpVal(id),
        ) && if (#[trigger] descs[k]).is_local {
            &&& id < w1.upvals.len()
            &&& w1.upvals[id as int] matches UpValueState::Open(d)
            &&& d.stack == Some(stack) && d.stack_base == base && d.index == descs[k].index
        } else {
            k < uvs.len && w1.cells[q.base + k] == w.cells[uvs.base + k]
        })
}

proof fn lemma_enter(
    p: &Bytecode,
    w: VmView,
    stack: usize,
    func: FunctionKey,
    uvs: Option<Region>,
    recv: Option<Value>,
    base: OpIndex,
)
    ensures
        enter(p, w, stack, func, uvs, recv, base) matches Some((x, fr)) ==> {
            let fo = p.functions@[func as int];
            &&& func < p.functions@.len() && stack < w.stacks.len() && 0 <= base
            &&& x == (VmView { cells: x.cells, upvals: x.upvals, stacks: x.stacks, ..w })
            &&& x.stacks.len() == w.stacks.len()
            &&& forall|t: int|
                0 <= t < w.stacks.len() && t != stack ==> #[trigger] x.stacks[t] == w.stacks[t]
            &&& begins_with(
                w.stacks[stack as int],
                x.stacks[stack as int],
                base as int,
                fo.ret_zeros@,
                recv,
            )
            &&& base + fo.max_write_index < x.stacks[stack as int].len()
            &&& fr.func == func && fr.pc == 0 && fr.stack_base == base && fr.defer_stack is None
            &&& uvs is None ==> fr.var_ptrs is None && fr.referred_by is None && x.cells == w.cells
                && x.upvals == w.upvals
            &&& uvs matches Some(r) ==> x.cells.len() <= usize::MAX && x.upvals.len() <= usize::MAX
                && w.upvals.len() + fo.up_ptrs@.len() <= usize::MAX && w.cells.len()
                + fo.up_ptrs@.len() <= usize::MAX ==> (fr.var_ptrs matches Some(q)
                && has_variables(w, x, stack, base as int, fo.up_ptrs@, r, q))
        },
        func < p.functions@.len() && stack < w.stacks.len() && 0 <= base && 0 <= base
            + p.functions@[func as int].max_write_index + 1 <= i32::MAX && uvs is None ==> enter(
            p,
            w,
            stack,
            func,
            uvs,
            recv,
            base,
        ) is Some,
{
    match enter(p, w, stack, func, uvs, recv, base) {
        Some((x, fr)) => {
            let fo = p.functions@[func as int];
            let n = index_of(base + fo.max_write_index + 1)->Some_0;
            let given = with_recv(fo.ret_zeros@, recv);
            let y = w.with_min_size(stack, n)->Ok_0;
            let z = y.with_vec(stack, base, given)->Ok_0;
            assert forall|i: int| 0 <= i < fo.ret_zeros@.len() implies z.stacks[stack as int][base
                + i] == #[trigger] fo.ret_zeros@[i] by {
                assert(given[i] == fo.ret_zeros@[i]);
            }
            match uvs {
                Some(r) => {
                    lemma_link_keeps_stacks(z, stack, base, fo.up_ptrs@, r, 0, seq![], None);
                    if w.upvals.len() + fo.up_ptrs@.len() <= usize::MAX && w.cells.len()
                        + fo.up_ptrs@.len() <= usize::MAX {
                        law_call_links_variables(p, w, stack, func, uvs, recv, base);
                        let q = fr.var_ptrs->Some_0;
                        assert forall|k: int| 0 <= k < fo.up_ptrs@.len() implies (
                        x.cells[q.base + k] matches Value::Pointer(PointerObj::UpVal(id)) && if (
                        #[trigger] fo.up_ptrs@[k]).is_local {
                            lies(x, stack, base, fo.up_ptrs@[k].index, id)
                        } else {
                            k < r.len && x.cells[q.base + k] == w.cells[r.base + k]
                        }) by {}
                    }
                },
                None => {},
            }
        },
        None => {},
    }
}

/// Whether a fiber comes to a call of a function of the program.
pub open spec fn calls(
    p: &Bytecode,
    w: VmView,
    f: FiberView,
    style: ValueType,
    func: FunctionKey,
    uvs: Option<Region>,
    recv: Option<Value>,
) -> bool {
    &&& comes_to(p, f, Opcode::CALL, 0)
    &&& inst_at(p, f).t0 == style
    &&& exists|id: usize|
        id < w.closures.len() && holds(p, w, f, inst_at(p, f).d, Value::Closure(id))
            && #[trigger] w.closures[id as int] == (ClosureObj::Gos { func, uvs, recv })
    &&& func < p.functions@.len()
}

/// Where the slots of the call begin.
pub open spec fn call_base(p: &Bytecode, f: FiberView) -> int {
    f.frames.last().stack_base + inst_at(p, f).s0
}

/// A call begins at the first instruction of the function, in a frame of its own
/// with its own slots. First come its results, which are still zero, and then the
/// receiver, if the function value is bound to one, as the first parameter; behind it
/// are the arguments that the caller left there. The frame has the variables that
/// the function captures, and room for all slots that it writes to. The caller goes on
/// later behind the call, and nothing else changes.
pub proof fn law_call_begins(
    p: &Bytecode,
    w: VmView,
    f: FiberView,
    func: FunctionKey,
    uvs: Option<Region>,
    recv: Option<Value>,
)
    requires
        calls(p, w, f, ValueType::FlagA, func, uvs, recv),
    ensures
        ({
            let fo = p.functions@[func as int];
            let base = call_base(p, f);
            &&& uvs is None && f.stack < w.stacks.len() && 0 <= base && 0 <= base
                + fo.max_write_index + 1 <= i32::MAX && base <= i32::MAX ==> step(p, w, f) is Some
            &&& step(p, w, f) matches Some((w1, f1, s)) ==> {
                let fr = f1.frames.last();
                &&& s == StepView::Next
                &&& f1.frames.len() == f.frames.len() + 1
                &&& goes_on(f, (FiberView { frames: f1.frames.drop_last(), ..f1 }), 1)
                &&& fr.func == func && fr.pc == 0 && fr.stack_base == base && fr.defer_stack is None
                &&& w1 == (VmView { cells: w1.cells, upvals: w1.upvals, stacks: w1.stacks, ..w })
                &&& w1.stacks.len() == w.stacks.len()
                &&& forall|t: int|
                    0 <= t < w.stacks.len() && t != f.stack ==> #[trigger] w1.stacks[t]
                        == w.stacks[t]
                &&& begins_with(
                    w.stacks[f.stack as int],
                    w1.stacks[f.stack as int],
                    base,
                    fo.ret_zeros@,
                    recv,
                )
                &&& base + fo.max_write_index < w1.stacks[f.stack as int].len()
                &&& uvs is None ==> fr.var_ptrs is None && w1.cells == w.cells
                &&& uvs matches Some(r) ==> w.upvals.len() + fo.up_ptrs@.len() <= usize::MAX
                    && w.cells.len() + fo.up_ptrs@.len() <= usize::MAX && w1.cells.len()
                    <= usize::MAX && w1.upvals.len() <= usize::MAX ==> (fr.var_ptrs matches Some(q)
                    && has_variables(w, w1, f.stack, base, fo.up_ptrs@, r, q))
            }
        }),
{
    lemma_step(p, w, f);
    lemma_operand(p, w, f, inst_at(p, f).d);
    let base = call_base(p, f);
    if index_of(base) is Some {
        lemma_enter(p, w, f.stack, func, uvs, recv, base as OpIndex);
    }
    match step(p, w, f) {
        Some((_, f1, _)) => {
            assert(f1.frames.drop_last() =~= moved(f, 1).frames);
        },
        None => {},
    }
}

proof fn lemma_spawned(p: &Bytecode, x: VmView, stack: usize, fr: FrameView)
    requires
        fr.func < p.functions@.len(),
    ensures
        take_args(p, x, stack, fr) matches Some((y, vals)) ==> {
            let fo = p.functions@[fr.func as int];
            let n = fo.ret_zeros@.len() + fo.param_count;
            let own = fresh_stack(vals);
            &&& stack < x.stacks.len()
            &&& y == (VmView { stacks: y.stacks, ..x })
            &&& y.stacks.len() == x.stacks.len()
            &&& forall|t: int|
                0 <= t < x.stacks.len() && t != stack ==> #[trigger] y.stacks[t] == x.stacks[t]
            &&& forall|i: int|
                0 <= i < x.stacks[stack as int].len() && !(fr.stack_base <= i < fr.stack_base + n)
                    ==> #[trigger] y.stacks[stack as int][i] == x.stacks[stack as int][i]
            &&& forall|i: int|
                fr.stack_base <= i < fr.stack_base + n ==> #[trigger] y.stacks[stack as int][i]
                    == void()
            &&& y.stacks[stack as int].len() == x.stacks[stack as int].len()
            &&& vals.len() == n && n <= own.len()
            &&& 0 <= fr.stack_base && fr.stack_base + n <= x.stacks[stack as int].len()
            &&& forall|i: int|
                #![trigger own[i]]
                #![trigger vals[i]]
                0 <= i < n ==> own[i] == x.stacks[stack as int][fr.stack_base + i] && vals[i]
                    == own[i]
        },
        ({
            let fo = p.functions@[fr.func as int];
            let n = fo.ret_zeros@.len() + fo.param_count;
            stack < x.stacks.len() && 0 <= fr.stack_base && 0 <= fo.param_count && fr.stack_base + n
                <= i32::MAX && fo.local_zeros@.len() <= i32::MAX && fr.stack_base + n
                <= x.stacks[stack as int].len() ==> take_args(
                p,
                x,
                stack,
                fr,
            ) is Some
        }),
{
}

/// Whether there is room for a call: its slots can be counted, and its arguments are
/// there.
pub open spec fn has_room(p: &Bytecode, w: VmView, f: FiberView, func: FunctionKey) -> bool {
    let fo = p.functions@[func as int];
    let base = call_base(p, f);
    let n = fo.ret_zeros@.len() + fo.param_count;
    &&& f.stack < w.stacks.len()
    &&& 0 <= base && base + n <= i32::MAX && 0 <= fo.param_count
    &&& fo.local_zeros@.len() <= i32::MAX
    &&& 0 <= base + fo.max_write_index + 1 <= i32::MAX
    &&& n <= fo.max_write_index + 1 || base + n <= w.stacks[f.stack as int].len()
}

proof fn lemma_same_variables(
    w: VmView,
    x: VmView,
    y: VmView,
    stack: usize,
    base: int,
    descs: Seq<ValueDesc>,
    uvs: Region,
    q: Region,
)
    requires
        has_variables(w, x, stack, base, descs, uvs, q),
        y.cells == x.cells,
        y.upvals == x.upvals,
    ensures
        has_variables(w, y, stack, base, descs, uvs, q),
{
}

proof fn lemma_spawn_step(
    p: &Bytecode,
    w: VmView,
    f: FiberView,
    func: FunctionKey,
    uvs: Option<Region>,
    recv: Option<Value>,
)
    requires
        calls(p, w, f, ValueType::FlagB, func, uvs, recv),
        f.context.async_enabled,
        w.stacks.len() < usize::MAX,
    ensures
        step(p, w, f) matches Some((w1, f1, s)) ==> {
            let base = call_base(p, f);
            &&& index_of(base) is Some
            &&& enter(p, w, f.stack, func, uvs, recv, base as OpIndex) matches Some((x, fr))
            &&& take_args(p, x, f.stack, fr) matches Some((y, vals))
            &&& w1 == (VmView { stacks: y.stacks.push(fresh_stack(vals)), ..y })
            &&& goes_on(f, f1, 1)
            &&& s == StepView::Spawn(
                new_fiber(
                    f.context,
                    y.stacks.len() as usize,
                    FrameView { stack_base: 0, ..fr },
                ),
            )
        },
        ({
            let base = call_base(p, f);
            &&& index_of(base) is Some
            &&& f.context.next_id < usize::MAX
            &&& enter(p, w, f.stack, func, uvs, recv, base as OpIndex) matches Some((x, fr))
            &&& take_args(p, x, f.stack, fr) is Some
        }) ==> step(p, w, f) is Some,
{
    lemma_step(p, w, f);
    lemma_operand(p, w, f, inst_at(p, f).d);
}

/// A goroutine gets a new stack, which begins with what a call would begin with: the
/// results, which are still zero, the receiver, if the function value is bound to one,
/// and the arguments in the order in which the caller left them. It begins at the
/// first instruction of the function, with the variables that the function captures.
/// The slots that were for the call are then empty, and the others are as they were.
pub proof fn law_goroutine_begins(
    p: &Bytecode,
    w: VmView,
    f: FiberView,
    func: FunctionKey,
    uvs: Option<Region>,
    recv: Option<Value>,
)
    requires
        calls(p, w, f, ValueType::FlagB, func, uvs, recv),
        f.context.async_enabled,
        w.stacks.len() < usize::MAX,
    ensures
        ({
            let fo = p.functions@[func as int];
            let base = call_base(p, f);
            let n = fo.ret_zeros@.len() + fo.param_count;
            &&& uvs is None && has_room(p, w, f, func) && f.context.next_id < usize::MAX ==> step(
                p,
                w,
                f,
            ) is Some
            &&& step(p, w, f) matches Some((w1, f1, s)) ==> {
                let old = w.stacks[f.stack as int];
                &&& f.stack < w.stacks.len()
                &&& goes_on(f, f1, 1)
                &&& w1 == (VmView { cells: w1.cells, upvals: w1.upvals, stacks: w1.stacks, ..w })
                &&& w1.stacks.len() == w.stacks.len() + 1
                &&& forall|t: int|
                    0 <= t < w.stacks.len() && t != f.stack ==> #[trigger] w1.stacks[t]
                        == w.stacks[t]
                &&& forall|i: int|
                    0 <= i < old.len() && !(base <= i < base + n) && !(base <= i < base
                        + fo.ret_zeros@.len()) && !(recv is Some && i == base
                        + fo.ret_zeros@.len()) ==> #[trigger] w1.stacks[f.stack as int][i] == old[i]
                &&& forall|i: int|
                    base <= i < base + n ==> #[trigger] w1.stacks[f.stack as int][i] == void()
                &&& s matches StepView::Spawn(g) && {
                    let own = w1.stacks[g.stack as int];
                    &&& g.stack == w.stacks.len()
                    &&& g.frames.len() == 1
                    &&& g.frames[0].func == func && g.frames[0].pc == 0
                    &&& g.frames[0].stack_base == 0 && g.frames[0].defer_stack is None
                    &&& n <= own.len()
                    &&& forall|i: int|
                        0 <= i < fo.ret_zeros@.len() && i < n ==> own[i]
                            == #[trigger] fo.ret_zeros@[i]
                    &&& recv matches Some(v) ==> fo.ret_zeros@.len() < n
                        ==> own[fo.ret_zeros@.len() as int] == v
                    &&& forall|i: int|
                        fo.ret_zeros@.len() + (if recv is Some {
                            1int
                        } else {
                            0int
                        }) <= i < n && base + i < old.len() ==> #[trigger] own[i] == old[base + i]
                    &&& uvs is None ==> g.frames[0].var_ptrs is None && w1.cells == w.cells
                    &&& uvs matches Some(r) ==> w.upvals.len() + fo.up_ptrs@.len() <= usize::MAX
                        && w.cells.len() + fo.up_ptrs@.len() <= usize::MAX && w1.cells.len()
                        <= usize::MAX && w1.upvals.len() <= usize::MAX ==> (
                    g.frames[0].var_ptrs matches Some(q) && has_variables(
                        w,
                        w1,
                        f.stack,
                        base,
                        fo.up_ptrs@,
                        r,
                        q,
                    ))
                    &&& g.context.async_enabled && g.panic is None && g.pending is None
                    &&& !g.started && g.rstack.len() == 0 && g.id == f.context.next_id
                }
            }
        }),
{
    lemma_spawn_step(p, w, f, func, uvs, recv);
    let base = call_base(p, f);
    if index_of(base) is Some {
        lemma_enter(p, w, f.stack, func, uvs, recv, base as OpIndex);
        match enter(p, w, f.stack, func, uvs, recv, base as OpIndex) {
            Some((x, fr)) => {
                lemma_spawned(p, x, f.stack, fr);
                lemma_spawn_step(p, w, f, func, uvs, recv);
                match step(p, w, f) {
                    Some((w1, _, _)) => {
                        let fo = p.functions@[func as int];
                        if uvs is Some && w.upvals.len() + fo.up_ptrs@.len() <= usize::MAX
                            && w.cells.len() + fo.up_ptrs@.len() <= usize::MAX && w1.cells.len()
                            <= usize::MAX && w1.upvals.len() <= usize::MAX {
                            lemma_same_variables(
                                w,
                                x,
                                w1,
                                f.stack,
                                base,
                                fo.up_ptrs@,
                                uvs->Some_0,
                                fr.var_ptrs->Some_0,
                            );
                        }
                    },
                    None => {},
                }
            },
            None => {},
        }
    }
}

/// A call that is deferred waits behind those that were deferred before, with what a
/// call would begin with: the results, which are still zero, the receiver, if the
/// function value is bound to one, and the arguments in the order in which the caller
/// left them.
pub proof fn law_deferred_keeps_arguments(
    p: &Bytecode,
    w: VmView,
    f: FiberView,
    func: FunctionKey,
    uvs: Option<Region>,
    recv: Option<Value>,
)
    requires
        calls(p, w, f, ValueType::FlagC, func, uvs, recv),
    ensures
        ({
            let fo = p.functions@[func as int];
            let base = call_base(p, f);
            let n = fo.ret_zeros@.len() + fo.param_count;
            &&& uvs is None && has_room(p, w, f, func) ==> step(p, w, f) is Some
            &&& step(p, w, f) matches Some((w1, f1, s)) ==> {
                let old = w.stacks[f.stack as int];
                let fr = f1.frames.last();
                let waited = match f.frames.last().defer_stack {
                    Some(x) => x,
                    None => seq![],
                };
                &&& s == StepView::Next
                &&& w1 == (VmView { cells: w1.cells, upvals: w1.upvals, stacks: w1.stacks, ..w })
                &&& w1.stacks.len() == w.stacks.len()
                &&& forall|t: int|
                    0 <= t < w.stacks.len() && t != f.stack ==> #[trigger] w1.stacks[t]
                        == w.stacks[t]
                &&& forall|i: int|
                    0 <= i < old.len() && !(base <= i < base + n) && !(base <= i < base
                        + fo.ret_zeros@.len()) && !(recv is Some && i == base
                        + fo.ret_zeros@.len()) ==> #[trigger] w1.stacks[f.stack as int][i] == old[i]
                &&& forall|i: int|
                    base <= i < base + n ==> #[trigger] w1.stacks[f.stack as int][i] == void()
                &&& f1.frames.len() == f.frames.len()
                &&& fr.defer_stack matches Some(waiting) && waiting.len() == waited.len() + 1 && {
                    let d = waiting.last();
                    &&& waiting.drop_last() == waited
                    &&& d.func == func
                    &&& d.vec.len() == n
                    &&& forall|i: int|
                        0 <= i < fo.ret_zeros@.len() && i < n ==> d.vec[i]
                            == #[trigger] fo.ret_zeros@[i]
                    &&& recv matches Some(v) ==> fo.ret_zeros@.len() < n
                        ==> d.vec[fo.ret_zeros@.len() as int] == v
                    &&& forall|i: int|
                        fo.ret_zeros@.len() + (if recv is Some {
                            1int
                        } else {
                            0int
                        }) <= i < n && base + i < old.len() ==> #[trigger] d.vec[i] == old[base + i]
                    &&& uvs is None ==> d.var_ptrs is None
                    &&& uvs matches Some(r) ==> w.upvals.len() + fo.up_ptrs@.len() <= usize::MAX
                        && w.cells.len() + fo.up_ptrs@.len() <= usize::MAX && w1.cells.len()
                        <= usize::MAX && w1.upvals.len() <= usize::MAX ==> (
                    d.var_ptrs matches Some(q) && has_variables(
                        w,
                        w1,
                        f.stack,
                        base,
                        fo.up_ptrs@,
                        r,
                        q,
                    ))
                }
                &&& goes_on(
                    f,
                    (FiberView {
                        frames: f1.frames.update(
                            f1.frames.len() - 1,
                            FrameView { defer_stack: f.frames.last().defer_stack, ..fr },
                        ),
                        ..f1
                    }),
                    1,
                )
            }
        }),
{
    lemma_step(p, w, f);
    lemma_operand(p, w, f, inst_at(p, f).d);
    let base = call_base(p, f);
    if index_of(base) is Some {
        lemma_enter(p, w, f.stack, func, uvs, recv, base as OpIndex);
        match enter(p, w, f.stack, func, uvs, recv, base as OpIndex) {
            Some((x, fr)) => {
                lemma_spawned(p, x, f.stack, fr);
            },
            None => {},
        }
    }
    match step(p, w, f) {
        Some((_, f1, _)) => {
            let fr = f1.frames.last();
            let waited = match f.frames.last().defer_stack {
                Some(x) => x,
                None => seq![],
            };
            assert(fr.defer_stack->Some_0.drop_last() =~= waited);
            assert(f1.frames.update(
                f1.frames.len() - 1,
                FrameView { defer_stack: f.frames.last().defer_stack, ..fr },
            ) =~= moved(f, 1).frames);
        },
        None => {},
    }
}

/// Without a scheduler no goroutine begins: the program panics.
pub proof fn law_goroutine_needs_scheduler(
    p: &Bytecode,
    w: VmView,
    f: FiberView,
    func: FunctionKey,
    uvs: Option<Region>,
    recv: Option<Value>,
)
    requires
        calls(p, w, f, ValueType::FlagB, func, uvs, recv),
        !f.context.async_enabled,
    ensures
        step(p, w, f) matches Some((w1, f1, s)) ==> s == StepView::Next && exists|x: VmView|
            #[trigger] says(p, x, f, 1, "Async features disabled"@, w1, f1),
        uvs is None && has_room(p, w, f, func) ==> step(p, w, f) is Some,
{
    lemma_step(p, w, f);
    lemma_operand(p, w, f, inst_at(p, f).d);
    let base = call_base(p, f);
    if index_of(base) is Some {
        lemma_enter(p, w, f.stack, func, uvs, recv, base as OpIndex);
        match enter(p, w, f.stack, func, uvs, recv, base as OpIndex) {
            Some((x, fr)) => {
                lemma_raises(p, x, f, 1, "Async features disabled"@);
            },
            None => {},
        }
    }
}

} // verus!

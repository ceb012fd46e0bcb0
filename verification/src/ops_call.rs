//! The instructions that call functions, return from them and make closures.
use vstd::prelude::*;
use crate::bytecode::{Bytecode, Instruction, MetadataType, PackageObj, ValueDesc};
use crate::closure::{as_closure, gos_from_func, new_closure};
use crate::effect::{Ask, Pending};
use crate::fiber::{
    get_last_pc, index_of, last_pc, new_fiber, performed, raise_text, sure, to_index, Context,
    Fiber, FiberView, Step, StepView, Stepped,
};
use crate::frame::{
    close_slots, deferred_view, noted_as, or_empty, with_referrer, CallFrame, DeferredCall,
    DeferredView, FrameView, Referred,
};
use crate::machine::{
    cell_of, copy_values, fresh_stack, get_const, next_region, region_cell, spec_const, ClosureObj,
    Ctx, UpValueState, Vm, VmView,
};
use crate::panic::PanicView;
use crate::trap::{RuntimeError, Trap};
use crate::value::{FunctionKey, Meta, MetadataKey, OpIndex, PointerObj, Region, Value, ValueType};

verus! {

/// The numbers of a function's results, parameters and local variables.
pub open spec fn counts(p: &Bytecode, func: FunctionKey) -> Option<(int, int, int)> {
    if func < p.functions@.len() {
        let fo = p.functions@[func as int];
        if fo.ret_zeros@.len() <= i32::MAX && fo.local_zeros@.len() <= i32::MAX {
            Some((fo.ret_zeros@.len() as int, fo.param_count as int, fo.local_zeros@.len() as int))
        } else {
            None
        }
    } else {
        None
    }
}

fn get_counts(p: &Bytecode, func: FunctionKey) -> (r: Result<(i64, i64, i64), Trap>)
    ensures
        match counts(p, func) {
            Some((a, b, c)) => r == Ok::<(i64, i64, i64), Trap>((a as i64, b as i64, c as i64)) && 0
                <= a <= i32::MAX && i32::MIN <= b <= i32::MAX && 0 <= c <= i32::MAX,
            None => r == Err::<(i64, i64, i64), Trap>(Trap::Fault),
        },
{
    if func >= p.functions.len() {
        return Err(Trap::Fault);
    }
    let fo = &p.functions[func];
    if fo.ret_zeros.len() <= 0x7fff_ffff && fo.local_zeros.len() <= 0x7fff_ffff {
        Ok((fo.ret_zeros.len() as i64, fo.param_count as i64, fo.local_zeros.len() as i64))
    } else {
        Err(Trap::Fault)
    }
}

/// The slots that a call begins with: the results, and the receiver of a bound
/// function.
pub open spec fn with_recv(rets: Seq<Value>, recv: Option<Value>) -> Seq<Value> {
    match recv {
        Some(v) => rets.push(v),
        None => rets,
    }
}

/// The captured variables of a call, from the `i`th on. Those of the frame
/// itself are new, and the frame notes them, each slot with one type; the others
/// come from the closure.
pub open spec fn link(
    w: VmView,
    stack: usize,
    base: OpIndex,
    descs: Seq<ValueDesc>,
    uvs: Region,
    i: nat,
    ptrs: Seq<Value>,
    refs: Option<Referred>,
) -> Option<(VmView, Seq<Value>, Option<Referred>)>
    decreases descs.len() - i,
{
    if i >= descs.len() {
        Some((w, ptrs, refs))
    } else {
        let d = descs[i as int];
        if d.is_local && !noted_as(or_empty(refs), d.index, d.typ) {
            None
        } else if d.is_local {
            let id = w.upvals.len() as usize;
            link(
                w.with_new_upval(
                    UpValueState::Open(
                        ValueDesc { stack: Some(stack), stack_base: base, ..d },
                    ),
                ),
                stack,
                base,
                descs,
                uvs,
                i + 1,
                ptrs.push(Value::Pointer(PointerObj::UpVal(id))),
                Some(with_referrer(or_empty(refs), d.index, d.typ, id)),
            )
        } else {
            match captured(w, uvs, i as int) {
                Some(id) => link(
                    w,
                    stack,
                    base,
                    descs,
                    uvs,
                    i + 1,
                    ptrs.push(Value::Pointer(PointerObj::UpVal(id))),
                    refs,
                ),
                None => None,
            }
        }
    }
}

/// The captured variable at a place of a closure.
pub open spec fn captured(w: VmView, uvs: Region, i: int) -> Option<usize> {
    match region_cell(uvs, i) {
        Ok(a) => match w.cell(a as int) {
            Ok(Value::Pointer(PointerObj::UpVal(id))) => Some(id),
            _ => None,
        },
        Err(e) => None,
    }
}

/// The frame of a call, and the tables with its slots ready.
pub open spec fn enter(
    p: &Bytecode,
    w: VmView,
    stack: usize,
    func: FunctionKey,
    uvs: Option<Region>,
    recv: Option<Value>,
    base: OpIndex,
) -> Option<(VmView, FrameView)> {
    if func >= p.functions@.len() {
        None
    } else {
        let fo = p.functions@[func as int];
        match index_of(base + fo.max_write_index + 1) {
            None => None,
            Some(n) => match w.with_min_size(stack, n) {
                Err(e) => None,
                Ok(w1) => match w1.with_vec(stack, base, with_recv(fo.ret_zeros@, recv)) {
                    Err(e) => None,
                    Ok(w2) => match uvs {
                        None => Some((w2, CallFrame::started(func, base))),
                        Some(r) => match link(
                            w2,
                            stack,
                            base,
                            fo.up_ptrs@,
                            r,
                            0,
                            seq![],
                            None,
                        ) {
                            Some((w3, ptrs, refs)) => Some(
                                (
                                    w3.with_cells(w3.cells + ptrs),
                                    FrameView {
                                        var_ptrs: Some(next_region(w3.cells, ptrs.len())),
                                        referred_by: refs,
                                        ..CallFrame::started(func, base)
                                    },
                                ),
                            ),
                            None => None,
                        },
                    },
                },
            },
        }
    }
}

/// The results and parameters of a call leave the stack.
pub open spec fn take_args(p: &Bytecode, w: VmView, stack: usize, fr: FrameView) -> Option<
    (VmView, Seq<Value>),
> {
    match counts(p, fr.func) {
        Some((rets, params, _)) => match index_of(fr.stack_base + rets + params) {
            Some(end) => match w.taken(stack, fr.stack_base, end) {
                Ok((w1, vals)) => Some((w1, vals)),
                Err(e) => None,
            },
            None => None,
        },
        None => None,
    }
}

/// The fiber with a call that waits for the running function to return.
pub open spec fn with_deferred(f: FiberView, d: DeferredView) -> FiberView {
    f.with_top(
        FrameView {
            defer_stack: Some(
                (match f.top().defer_stack {
                    Some(s) => s,
                    None => seq![],
                }).push(d),
            ),
            ..f.top()
        },
    )
}

/// A call of a function of the program: at once, on a fiber of its own, or when
/// the running function returns.
pub open spec fn call_gos(
    p: &Bytecode,
    w: VmView,
    f: FiberView,
    style: ValueType,
    func: FunctionKey,
    uvs: Option<Region>,
    recv: Option<Value>,
    base: OpIndex,
) -> Stepped {
    match enter(p, w, f.stack, func, uvs, recv, base) {
        None => None,
        Some((w1, fr)) => match style {
            ValueType::FlagA => Some((w1, f.with_call(fr), StepView::Next)),
            ValueType::FlagB => if !f.context.async_enabled {
                raise_text(p, w1, f, RuntimeError::AsyncDisabled.spec_message())
            } else {
                match take_args(p, w1, f.stack, fr) {
                    Some((w2, vals)) => if f.context.next_id < usize::MAX {
                        Some(
                            (
                                VmView { stacks: w2.stacks.push(fresh_stack(vals)), ..w2 },
                                f,
                                StepView::Spawn(
                                    new_fiber(
                                        f.context,
                                        w2.stacks.len() as usize,
                                        FrameView { stack_base: 0, ..fr },
                                    ),
                                ),
                            ),
                        )
                    } else {
                        None
                    },
                    None => None,
                }
            },
            ValueType::FlagC => match take_args(p, w1, f.stack, fr) {
                Some((w2, vals)) => Some(
                    (
                        w2,
                        with_deferred(
                            f,
                            DeferredView {
                                func: fr.func,
                                var_ptrs: fr.var_ptrs,
                                referred_by: fr.referred_by,
                                vec: vals,
                            },
                        ),
                        StepView::Next,
                    ),
                ),
                None => None,
            },
            _ => None,
        },
    }
}

/// A call of a method of the host's: the arguments leave the stack.
pub open spec fn call_ffi(
    p: &Bytecode,
    w: VmView,
    f: FiberView,
    ffi: usize,
    iface: MetadataKey,
    index: usize,
    meta: Meta,
    is_async: bool,
    base: OpIndex,
) -> Stepped {
    if meta.key >= p.metas@.len() {
        None
    } else {
        match p.metas@[meta.key as int] {
            MetadataType::Signature { params, results } => match (
                index_of(base + 1 + results@.len()),
                index_of(base + 1 + results@.len() + params@.len()),
            ) {
                (Some(begin), Some(end)) => match w.taken(f.stack, begin, end) {
                    Ok((w1, args)) => if is_async && !f.context.async_enabled {
                        raise_text(p, w1, f, RuntimeError::AsyncDisabled.spec_message())
                    } else {
                        Some(
                            (
                                w1,
                                FiberView { args, ..f }.waiting(
                                    Some(Pending::FfiCall { begin: base }),
                                ),
                                StepView::Ask(Ask::FfiCall { ffi, iface, index, is_async }),
                            ),
                        )
                    },
                    Err(e) => None,
                },
                _ => None,
            },
            _ => None,
        }
    }
}

/// A call of a function value.
pub open spec fn op_call(p: &Bytecode, w: VmView, f: FiberView, c: Ctx, inst: Instruction) -> Stepped {
    match (w.read(c, p.consts@, inst.d), index_of(c.sb + inst.s0)) {
        (Ok(v), Some(base)) => match as_closure(w, v) {
            Ok(ClosureObj::Gos { func, uvs, recv }) => call_gos(
                p,
                w,
                f,
                inst.t0,
                func,
                uvs,
                recv,
                base,
            ),
            Ok(ClosureObj::Ffi { ffi, iface, index, meta, is_async }) => call_ffi(
                p,
                w,
                f,
                ffi,
                iface,
                index,
                meta,
                is_async,
                base,
            ),
            Err(e) => None,
        },
        _ => None,
    }
}

/// The members of a package once its variables, from the `i`th on, have their
/// first values.
pub open spec fn init_vars(w: VmView, members: Region, mapping: Seq<usize>, vals: Seq<Value>, i: nat) -> Option<
    VmView,
>
    decreases vals.len() - i,
{
    if i >= vals.len() {
        Some(w)
    } else if i < mapping.len() {
        match region_cell(members, mapping[i as int] as int) {
            Ok(a) => match w.with_cell(a as int, vals[i as int]) {
                Ok(w1) => init_vars(w1, members, mapping, vals, i + 1),
                Err(e) => None,
            },
            Err(e) => None,
        }
    } else {
        None
    }
}

/// The variables that the initialiser of a package leaves on the stack become
/// members of the package, and the package is ready. That happens once.
pub open spec fn init_package(p: &Bytecode, w: VmView, f: FiberView, c: Ctx, inst: Instruction) -> Option<
    VmView,
> {
    match (w.read(c, p.consts@, inst.d), counts(p, f.top().func)) {
        (Ok(Value::Package(k)), Some((_, _, locals))) => if k < p.packages@.len() && k
            < w.inited.len() && !w.inited[k as int] {
            match index_of(c.sb + locals) {
                Some(end) => match w.taken(f.stack, c.sb, end) {
                    Ok((w1, vals)) => match init_vars(
                        w1,
                        p.packages@[k as int].members,
                        p.packages@[k as int].var_mapping@,
                        vals,
                        0,
                    ) {
                        Some(w2) => Some(
                            VmView { inited: w2.inited.update(k as int, true), ..w2 },
                        ),
                        None => None,
                    },
                    Err(e) => None,
                },
                None => None,
            }
        } else {
            None
        },
        _ => None,
    }
}

/// The last of the calls that wait runs, behind the slots of the running
/// function, which then comes to its return again.
pub open spec fn run_deferred(p: &Bytecode, w: VmView, f: FiberView) -> Stepped {
    let fr = f.top();
    let waiting = fr.defer_stack->Some_0;
    let call = waiting.last();
    match (index_of(fr.pc - 1), counts(p, fr.func)) {
        (Some(pc), Some((rets, params, locals))) => match index_of(
            fr.stack_base + rets + params + locals,
        ) {
            None => None,
            Some(base) => match w.with_vec(f.stack, base, call.vec) {
                Err(e) => None,
                Ok(w1) => match index_of(base + call.vec.len()) {
                    None => None,
                    Some(next) => if call.func >= p.functions@.len() {
                        None
                    } else {
                        match w1.with_vec(
                            f.stack,
                            next,
                            p.functions@[call.func as int].local_zeros@,
                        ) {
                            Err(e) => None,
                            Ok(w2) => Some(
                                (
                                    w2,
                                    f.with_top(
                                        FrameView {
                                            pc,
                                            defer_stack: Some(waiting.drop_last()),
                                            ..fr
                                        },
                                    ).with_call(
                                        FrameView {
                                            var_ptrs: call.var_ptrs,
                                            referred_by: call.referred_by,
                                            ..CallFrame::started(call.func, base)
                                        },
                                    ),
                                    StepView::Next,
                                ),
                            ),
                        }
                    },
                },
            },
        },
        _ => None,
    }
}

/// The tables once a frame is no longer needed: the variables that were captured
/// in it keep their values, and its parameters and local variables leave the
/// stack.
pub open spec fn clear_frame(p: &Bytecode, w: VmView, stack: usize, fr: FrameView) -> Option<VmView> {
    match (close_slots(w, stack, fr.stack_base, or_empty(fr.referred_by), 0), counts(p, fr.func)) {
        (Ok(w1), Some((rets, params, locals))) => match (
            index_of(fr.stack_base + rets),
            index_of(fr.stack_base + rets + params + locals),
        ) {
            (Some(begin), Some(end)) => match w1.taken(stack, begin, end) {
                Ok((w2, _)) => Some(w2),
                Err(e) => None,
            },
            _ => None,
        },
        _ => None,
    }
}

/// The running function is done. Without a caller the fiber is finished, and
/// the panic that is still on its way is what remains of it. A caller goes on;
/// with a panic on its way it notes its place and goes to its last instruction.
pub open spec fn leave(p: &Bytecode, w: VmView, f: FiberView) -> Stepped {
    let rest = FiberView { frames: f.frames.drop_last(), ..f };
    if rest.frames.len() == 0 {
        let w1 = VmView { panic_data: f.panic, ..w };
        Some(
            (
                if f.stack < w.stacks.len() {
                    w1.with_stack(f.stack, seq![])
                } else {
                    w1
                },
                FiberView { panic: None, ..rest },
                StepView::End,
            ),
        )
    } else {
        match f.panic {
            None => Some((w, rest, StepView::Next)),
            Some(d) => match (index_of(rest.top().pc - 1), last_pc(p, rest.top().func)) {
                (Some(at), Some(end)) => Some(
                    (
                        w,
                        FiberView {
                            panic: Some(
                                PanicView {
                                    call_stack: d.call_stack.push((rest.top().func, at)),
                                    ..d
                                },
                            ),
                            ..rest.with_pc(end)
                        },
                        StepView::Next,
                    ),
                ),
                _ => None,
            },
        }
    }
}

/// Whether a frame has calls that wait.
pub open spec fn has_deferred(fr: FrameView) -> bool {
    fr.defer_stack matches Some(s) && s.len() > 0
}

/// The return from a function.
pub open spec fn op_return(p: &Bytecode, w: VmView, f: FiberView, c: Ctx, inst: Instruction) -> Stepped {
    match inst.t0 {
        ValueType::FlagB => match init_package(p, w, f, c, inst) {
            Some(w1) => leave(p, w1, f),
            None => None,
        },
        ValueType::FlagA | ValueType::FlagC => if inst.t0 == ValueType::FlagC && has_deferred(
            f.top(),
        ) {
            run_deferred(p, w, f)
        } else {
            match clear_frame(p, w, f.stack, f.top()) {
                Some(w1) => leave(p, w1, f),
                None => None,
            }
        },
        _ => None,
    }
}

/// The latest frame of a function, from frame `k` down; the first frame of a
/// fiber is not looked at.
pub open spec fn owner(frames: Seq<FrameView>, func: FunctionKey, k: int) -> Option<int>
    decreases k,
{
    if k <= 0 {
        None
    } else if frames[k].func == func {
        Some(k)
    } else {
        owner(frames, func, k - 1)
    }
}

/// A new closure's captured variables, from the `i`th on, find the frames that
/// they lie in, and the frames note them, each slot with one type.
pub open spec fn capture(w: VmView, frames: Seq<FrameView>, stack: usize, uvs: Region, i: nat) -> Option<
    (VmView, Seq<FrameView>),
>
    decreases uvs.len - i,
{
    if i >= uvs.len {
        Some((w, frames))
    } else {
        match region_cell(uvs, i as int) {
            Err(e) => None,
            Ok(a) => match w.cell(a as int) {
                Err(e) => None,
                Ok(Value::Pointer(PointerObj::UpVal(id))) => if id >= w.upvals.len() {
                    None
                } else {
                    match w.upvals[id as int] {
                        UpValueState::Open(d) => match owner(frames, d.func, frames.len() - 1) {
                            Some(k) => if !noted_as(
                                or_empty(frames[k].referred_by),
                                d.index,
                                d.typ,
                            ) {
                                None
                            } else {
                                capture(
                                    VmView {
                                        upvals: w.upvals.update(
                                            id as int,
                                            UpValueState::Open(
                                                ValueDesc {
                                                    stack: Some(stack),
                                                    stack_base: frames[k].stack_base,
                                                    ..d
                                                },
                                            ),
                                        ),
                                        ..w
                                    },
                                    frames.update(
                                        k,
                                        FrameView {
                                            referred_by: Some(
                                                with_referrer(
                                                    or_empty(frames[k].referred_by),
                                                    d.index,
                                                    d.typ,
                                                    id,
                                                ),
                                            ),
                                            ..frames[k]
                                        },
                                    ),
                                    stack,
                                    uvs,
                                    i + 1,
                                )
                            },
                            None => capture(w, frames, stack, uvs, i + 1),
                        },
                        UpValueState::Closed(_) => capture(w, frames, stack, uvs, i + 1),
                    }
                },
                Ok(_) => capture(w, frames, stack, uvs, i + 1),
            },
        }
    }
}

/// A closure goes into the result slot.
pub open spec fn op_closure(p: &Bytecode, w: VmView, f: FiberView, c: Ctx, inst: Instruction) -> Stepped {
    match spec_const(p.consts@, inst.s0) {
        Ok(Value::Function(func)) => match gos_from_func(p, w, func, None) {
            Ok((w1, cls)) => {
                let linked = match cls {
                    ClosureObj::Gos { uvs: Some(r), .. } => capture(w1, f.frames, f.stack, r, 0),
                    _ => Some((w1, f.frames)),
                };
                match linked {
                    Some((w2, frames)) => {
                        let (w3, v) = new_closure(w2, cls);
                        match w3.write(c, inst.d, v) {
                            Ok(w4) => Some((w4, FiberView { frames, ..f }, StepView::Next)),
                            Err(e) => None,
                        }
                    },
                    None => None,
                }
            },
            Err(e) => None,
        },
        _ => None,
    }
}

impl Vm {
    fn captured(&self, uvs: Region, i: usize) -> (r: Result<usize, Trap>)
        ensures
            match captured(self@, uvs, i as int) {
                Some(id) => r == Ok::<usize, Trap>(id),
                None => r == Err::<usize, Trap>(Trap::Fault),
            },
    {
        let a: usize = sure(cell_of(uvs, i))?;
        match sure(self.get_cell(a))? {
            Value::Pointer(PointerObj::UpVal(id)) => Ok(id),
            _ => Err(Trap::Fault),
        }
    }

    fn link(&mut self, stack: usize, fr: &mut CallFrame, descs: &Vec<ValueDesc>, uvs: Region) -> (r:
        Result<Vec<Value>, Trap>)
        ensures
            match link(
                old(self)@,
                stack,
                old(fr)@.stack_base,
                descs@,
                uvs,
                0,
                seq![],
                old(fr)@.referred_by,
            ) {
                Some((w, ptrs, refs)) => {
                    &&& r is Ok
                    &&& r->Ok_0@ == ptrs
                    &&& final(self)@ == w
                    &&& final(fr)@ == (FrameView { referred_by: refs, ..old(fr)@ })
                },
                None => r == Err::<Vec<Value>, Trap>(Trap::Fault),
            },
    {
        let base: OpIndex = fr.stack_base;
        let mut ptrs: Vec<Value> = Vec::new();
        assert(ptrs@ =~= seq![]);
        let mut i: usize = 0;
        while i < descs.len()
            invariant
                i <= descs@.len(),
                base == old(fr)@.stack_base,
                fr@ == (FrameView { referred_by: fr@.referred_by, ..old(fr)@ }),
                link(
                    old(self)@,
                    stack,
                    base,
                    descs@,
                    uvs,
                    0,
                    seq![],
                    old(fr)@.referred_by,
                ) == link(
                    self@,
                    stack,
                    base,
                    descs@,
                    uvs,
                    i as nat,
                    ptrs@,
                    fr@.referred_by,
                ),
            decreases descs@.len() - i,
        {
            let d = descs[i];
            if d.is_local {
                if !fr.is_noted_as(d.index, d.typ) {
                    return Err(Trap::Fault);
                }
                let id: usize = self.new_upval(
                    UpValueState::Open(
                        ValueDesc {
                            func: d.func,
                            index: d.index,
                            typ: d.typ,
                            is_local: d.is_local,
                            stack: Some(stack),
                            stack_base: base,
                        },
                    ),
                );
                fr.add_referred_by(d.index, d.typ, id);
                ptrs.push(Value::Pointer(PointerObj::UpVal(id)));
            } else {
                let id: usize = self.captured(uvs, i)?;
                ptrs.push(Value::Pointer(PointerObj::UpVal(id)));
            }
            i = i + 1;
        }
        Ok(ptrs)
    }

    fn enter(
        &mut self,
        p: &Bytecode,
        stack: usize,
        func: FunctionKey,
        uvs: Option<Region>,
        recv: Option<Value>,
        base: OpIndex,
    ) -> (r: Result<CallFrame, Trap>)
        ensures
            match enter(p, old(self)@, stack, func, uvs, recv, base) {
                Some((w, fr)) => r is Ok && r->Ok_0@ == fr && final(self)@ == w,
                None => r == Err::<CallFrame, Trap>(Trap::Fault),
            },
    {
        if func >= p.functions.len() {
            return Err(Trap::Fault);
        }
        let fo = &p.functions[func];
        let n: OpIndex = to_index(base as i64 + fo.max_write_index as i64 + 1)?;
        let mut returns_recv = copy_values(&fo.ret_zeros);
        match recv {
            Some(v) => {
                returns_recv.push(v);
            },
            None => {},
        }
        sure(self.set_min_size(stack, n))?;
        sure(self.set_vec(stack, base, &returns_recv))?;
        let mut fr = CallFrame::with_closure(func, base);
        match uvs {
            Some(r) => {
                let ptrs = self.link(stack, &mut fr, &fo.up_ptrs, r)?;
                fr.var_ptrs = Some(self.new_cells(&ptrs));
            },
            None => {},
        }
        Ok(fr)
    }

    fn take_args(&mut self, p: &Bytecode, stack: usize, func: FunctionKey, base: OpIndex) -> (r: Result<
        Vec<Value>,
        Trap,
    >)
        ensures
            match take_args(p, old(self)@, stack, CallFrame::started(func, base)) {
                Some((w, vals)) => r is Ok && r->Ok_0@ == vals && final(self)@ == w,
                None => r == Err::<Vec<Value>, Trap>(Trap::Fault),
            },
    {
        let (rets, params, _) = get_counts(p, func)?;
        let end: OpIndex = to_index(base as i64 + rets + params)?;
        sure(self.move_vec(stack, base, end))
    }

    fn init_vars(&mut self, pkg: &PackageObj, vals: &Vec<Value>) -> (r: Result<(), Trap>)
        ensures
            match init_vars(old(self)@, pkg.members, pkg.var_mapping@, vals@, 0) {
                Some(w) => r == Ok::<(), Trap>(()) && final(self)@ == w,
                None => r == Err::<(), Trap>(Trap::Fault),
            },
            final(self)@.inited == old(self)@.inited,
    {
        let mut i: usize = 0;
        while i < vals.len()
            invariant
                i <= vals@.len(),
                self@.inited == old(self)@.inited,
                init_vars(old(self)@, pkg.members, pkg.var_mapping@, vals@, 0) == init_vars(
                    self@,
                    pkg.members,
                    pkg.var_mapping@,
                    vals@,
                    i as nat,
                ),
            decreases vals@.len() - i,
        {
            if i >= pkg.var_mapping.len() {
                return Err(Trap::Fault);
            }
            let a: usize = sure(cell_of(pkg.members, pkg.var_mapping[i]))?;
            sure(self.set_cell(a, vals[i]))?;
            i = i + 1;
        }
        Ok(())
    }

    fn clear_frame(&mut self, p: &Bytecode, stack: usize, fr: &CallFrame) -> (r: Result<(), Trap>)
        ensures
            match clear_frame(p, old(self)@, stack, fr@) {
                Some(w) => r == Ok::<(), Trap>(()) && final(self)@ == w,
                None => r == Err::<(), Trap>(Trap::Fault),
            },
    {
        sure(fr.on_drop(self, stack))?;
        let (rets, params, locals) = get_counts(p, fr.func)?;
        let begin: OpIndex = to_index(fr.stack_base as i64 + rets)?;
        let end: OpIndex = to_index(fr.stack_base as i64 + rets + params + locals)?;
        sure(self.move_vec(stack, begin, end))?;
        Ok(())
    }
}

impl Context {
    /// The frame that a program begins with.
    pub fn new_entry_frame(&self, p: &Bytecode, vm: &mut Vm, entry: FunctionKey) -> (r: Result<
        CallFrame,
        Trap,
    >)
        ensures
            match gos_from_func(p, old(vm)@, entry, None) {
                Ok((w, _)) => r is Ok && r->Ok_0@ == CallFrame::started(entry, 0) && final(vm)@
                    == w,
                Err(_) => r == Err::<CallFrame, Trap>(Trap::Fault),
            },
    {
        sure(vm.gos_from_func(p, entry, None))?;
        Ok(CallFrame::with_closure(entry, 0))
    }

    /// A fiber that runs beside the others, on a stack that holds the values.
    pub fn spawn_fiber(&self, vm: &mut Vm, vals: &Vec<Value>, first_frame: CallFrame) -> (r: Fiber)
        requires
            self.next_id < usize::MAX,
        ensures
            r@ == new_fiber(*self, old(vm)@.stacks.len() as usize, first_frame@),
            final(vm)@ == (VmView {
                stacks: old(vm)@.stacks.push(fresh_stack(vals@)),
                ..old(vm)@
            }),
    {
        let stack: usize = vm.new_stack(vals);
        Fiber::new(*self, stack, first_frame)
    }
}

fn push_deferred(fr: &mut CallFrame, d: DeferredCall)
    ensures
        final(fr)@ == (FrameView {
            defer_stack: Some(
                (match old(fr)@.defer_stack {
                    Some(s) => s,
                    None => seq![],
                }).push(d@),
            ),
            ..old(fr)@
        }),
{
    if fr.defer_stack.is_none() {
        fr.defer_stack = Some(Vec::new());
    }
    let ghost before = match old(fr)@.defer_stack {
        Some(s) => s,
        None => seq![],
    };
    match &mut fr.defer_stack {
        Some(s) => {
            assert(deferred_view(s@) =~= before);
            s.push(d);
            assert(deferred_view(s@) =~= before.push(d@));
        },
        None => {},
    }
}

fn pop_deferred(fr: &mut CallFrame) -> (r: Option<DeferredCall>)
    ensures
        match r {
            Some(d) => {
                &&& has_deferred(old(fr)@)
                &&& d@ == old(fr)@.defer_stack->Some_0.last()
                &&& final(fr)@ == (FrameView {
                    defer_stack: Some(old(fr)@.defer_stack->Some_0.drop_last()),
                    ..old(fr)@
                })
            },
            None => !has_deferred(old(fr)@) && final(fr)@ == old(fr)@,
        },
{
    match &mut fr.defer_stack {
        Some(s) => {
            let ghost before = deferred_view(s@);
            let d = s.pop();
            match d {
                Some(x) => {
                    assert(deferred_view(s@) =~= before.drop_last());
                    Some(x)
                },
                None => {
                    assert(deferred_view(s@) =~= before);
                    None
                },
            }
        },
        None => None,
    }
}

impl Fiber {
    fn call_gos(
        &mut self,
        p: &Bytecode,
        vm: &mut Vm,
        style: ValueType,
        func: FunctionKey,
        uvs: Option<Region>,
        recv: Option<Value>,
        base: OpIndex,
    ) -> (r: Result<Step, Trap>)
        requires
            old(self)@.frames.len() > 0,
        ensures
            performed(
                r,
                final(vm)@,
                final(self)@,
                call_gos(p, old(vm)@, old(self)@, style, func, uvs, recv, base),
            ),
    {
        let mut nframe = vm.enter(p, self.stack, func, uvs, recv, base)?;
        match style {
            ValueType::FlagA => {
                self.push_frame(nframe);
                Ok(Step::Next)
            },
            ValueType::FlagB => {
                if !self.context.async_enabled {
                    return self.raise_text(p, vm, RuntimeError::AsyncDisabled.message());
                }
                let vec = vm.take_args(p, self.stack, func, base)?;
                if self.context.next_id == usize::MAX {
                    return Err(Trap::Fault);
                }
                nframe.stack_base = 0;
                Ok(Step::Spawn(self.context.spawn_fiber(vm, &vec, nframe)))
            },
            ValueType::FlagC => {
                let vec = vm.take_args(p, self.stack, func, base)?;
                let d = DeferredCall {
                    func: nframe.func,
                    var_ptrs: nframe.var_ptrs,
                    referred_by: nframe.referred_by,
                    vec,
                };
                let n: usize = self.frames.len() - 1;
                let ghost before = self@;
                let fr = &mut self.frames[n];
                push_deferred(fr, d);
                assert(self@.frames =~= with_deferred(before, d@).frames);
                Ok(Step::Next)
            },
            _ => Err(Trap::Fault),
        }
    }

    fn call_ffi(
        &mut self,
        p: &Bytecode,
        vm: &mut Vm,
        ffi: usize,
        iface: MetadataKey,
        index: usize,
        meta: Meta,
        is_async: bool,
        base: OpIndex,
    ) -> (r: Result<Step, Trap>)
        ensures
            performed(
                r,
                final(vm)@,
                final(self)@,
                call_ffi(
                    p,
                    old(vm)@,
                    old(self)@,
                    ffi,
                    iface,
                    index,
                    meta,
                    is_async,
                    base,
                ),
            ),
    {
        if meta.key >= p.metas.len() {
            return Err(Trap::Fault);
        }
        match &p.metas[meta.key] {
            MetadataType::Signature { params, results } => {
                if results.len() > 0xffff_ffff || params.len() > 0xffff_ffff {
                    return Err(Trap::Fault);
                }
                let begin: OpIndex = to_index(base as i64 + 1 + results.len() as i64)?;
                let end: OpIndex = to_index(
                    base as i64 + 1 + results.len() as i64 + params.len() as i64,
                )?;
                let args = sure(vm.move_vec(self.stack, begin, end))?;
                if is_async && !self.context.async_enabled {
                    return self.raise_text(p, vm, RuntimeError::AsyncDisabled.message());
                }
                self.args = args;
                self.pending = Some(Pending::FfiCall { begin: base });
                Ok(Step::Ask(Ask::FfiCall { ffi, iface, index, is_async }))
            },
            _ => Err(Trap::Fault),
        }
    }

    /// Calls a function value.
    pub fn op_call(&mut self, p: &Bytecode, vm: &mut Vm, c: Ctx, inst: &Instruction) -> (r: Result<
        Step,
        Trap,
    >)
        requires
            old(self)@.frames.len() > 0,
        ensures
            performed(
                r,
                final(vm)@,
                final(self)@,
                op_call(p, old(vm)@, old(self)@, c, *inst),
            ),
    {
        let v = sure(vm.read(c, p, inst.d))?;
        let base: OpIndex = to_index(c.sb as i64 + inst.s0 as i64)?;
        match sure(vm.get_closure(v))? {
            ClosureObj::Gos { func, uvs, recv } => self.call_gos(
                p,
                vm,
                inst.t0,
                func,
                uvs,
                recv,
                base,
            ),
            ClosureObj::Ffi { ffi, iface, index, meta, is_async } => self.call_ffi(
                p,
                vm,
                ffi,
                iface,
                index,
                meta,
                is_async,
                base,
            ),
        }
    }

    fn init_package(&self, p: &Bytecode, vm: &mut Vm, c: Ctx, inst: &Instruction) -> (r: Result<
        (),
        Trap,
    >)
        requires
            self@.frames.len() > 0,
        ensures
            match init_package(p, old(vm)@, self@, c, *inst) {
                Some(w) => r == Ok::<(), Trap>(()) && final(vm)@ == w,
                None => r == Err::<(), Trap>(Trap::Fault),
            },
    {
        let k: usize = match sure(vm.read(c, p, inst.d))? {
            Value::Package(k) => k,
            _ => return Err(Trap::Fault),
        };
        let (_, _, locals) = get_counts(p, self.top().func())?;
        if k >= p.packages.len() || k >= vm.inited.len() || vm.inited[k] {
            return Err(Trap::Fault);
        }
        let end: OpIndex = to_index(c.sb as i64 + locals)?;
        let vals = sure(vm.move_vec(self.stack, c.sb, end))?;
        vm.init_vars(&p.packages[k], &vals)?;
        vm.inited.set(k, true);
        Ok(())
    }

    fn run_deferred(&mut self, p: &Bytecode, vm: &mut Vm) -> (r: Result<Option<Step>, Trap>)
        requires
            old(self)@.frames.len() > 0,
        ensures
            if has_deferred(old(self)@.top()) {
                match run_deferred(p, old(vm)@, old(self)@) {
                    Some((w, f, s)) => {
                        &&& r matches Ok(Some(x)) && x@ == s
                        &&& final(vm)@ == w
                        &&& final(self)@ == f
                    },
                    None => r == Err::<Option<Step>, Trap>(Trap::Fault),
                }
            } else {
                &&& r matches Ok(None)
                &&& final(vm)@ == old(vm)@
                &&& final(self)@ == old(self)@
            },
    {
        let n: usize = self.frames.len() - 1;
        let ghost before = self@;
        let fr = &mut self.frames[n];
        let popped = pop_deferred(fr);
        let call = match popped {
            Some(call) => call,
            None => {
                assert(self@.frames =~= before.frames);
                return Ok(None);
            },
        };
        let func: FunctionKey = fr.func;
        let sb: OpIndex = fr.stack_base;
        let pc: OpIndex = to_index(fr.pc as i64 - 1)?;
        fr.pc = pc;
        let (rets, params, locals) = get_counts(p, func)?;
        let new_sb: OpIndex = to_index(sb as i64 + rets + params + locals)?;
        sure(vm.set_vec(self.stack, new_sb, &call.vec))?;
        if call.vec.len() > 0xffff_ffff {
            return Err(Trap::Fault);
        }
        let index: OpIndex = to_index(new_sb as i64 + call.vec.len() as i64)?;
        if call.func >= p.functions.len() {
            return Err(Trap::Fault);
        }
        sure(vm.set_vec(self.stack, index, &p.functions[call.func].local_zeros))?;
        let nframe = CallFrame {
            func: call.func,
            pc: 0,
            stack_base: new_sb,
            var_ptrs: call.var_ptrs,
            referred_by: call.referred_by,
            defer_stack: None,
        };
        assert(self@.frames =~= before.with_top(
            FrameView {
                pc,
                defer_stack: Some(before.top().defer_stack->Some_0.drop_last()),
                ..before.top()
            },
        ).frames);
        self.push_frame(nframe);
        Ok(Some(Step::Next))
    }

    fn leave(&mut self, p: &Bytecode, vm: &mut Vm) -> (r: Result<Step, Trap>)
        requires
            old(self)@.frames.len() > 0,
        ensures
            performed(r, final(vm)@, final(self)@, leave(p, old(vm)@, old(self)@)),
    {
        let ghost rest = FiberView { frames: self@.frames.drop_last(), ..self@ };
        self.frames.pop();
        assert(self@.frames =~= rest.frames);
        if self.frames.len() == 0 {
            vm.panic_data = self.panic.take();
            vm.drop_stack(self.stack);
            return Ok(Step::End);
        }
        let func: FunctionKey = self.top().func();
        let pc: OpIndex = self.top().pc;
        match &mut self.panic {
            Some(d) => {
                let at: OpIndex = to_index(pc as i64 - 1)?;
                let end: OpIndex = get_last_pc(p, func)?;
                d.call_stack.push((func, at));
                self.set_pc(end);
            },
            None => {},
        }
        Ok(Step::Next)
    }

    /// Returns from the running function.
    pub fn op_return(&mut self, p: &Bytecode, vm: &mut Vm, c: Ctx, inst: &Instruction) -> (r: Result<
        Step,
        Trap,
    >)
        requires
            old(self)@.frames.len() > 0,
        ensures
            performed(
                r,
                final(vm)@,
                final(self)@,
                op_return(p, old(vm)@, old(self)@, c, *inst),
            ),
    {
        match inst.t0 {
            ValueType::FlagB => {
                self.init_package(p, vm, c, inst)?;
            },
            ValueType::FlagA | ValueType::FlagC => {
                if inst.t0 == ValueType::FlagC {
                    match self.run_deferred(p, vm)? {
                        Some(s) => return Ok(s),
                        None => {},
                    }
                }
                vm.clear_frame(p, self.stack, self.top())?;
            },
            _ => return Err(Trap::Fault),
        }
        self.leave(p, vm)
    }

    fn owner(&self, func: FunctionKey) -> (r: Option<usize>)
        requires
            self@.frames.len() > 0,
        ensures
            match owner(self@.frames, func, self@.frames.len() - 1) {
                Some(k) => (r matches Some(x) && x == k) && 0 < k < self@.frames.len(),
                None => r is None,
            },
    {
        let mut k: usize = self.frames.len() - 1;
        while k > 0
            invariant
                k < self@.frames.len(),
                owner(self@.frames, func, self@.frames.len() - 1) == owner(
                    self@.frames,
                    func,
                    k as int,
                ),
            decreases k,
        {
            if self.frames[k].func() == func {
                return Some(k);
            }
            k = k - 1;
        }
        None
    }

    fn capture(&mut self, vm: &mut Vm, uvs: Region) -> (r: Result<(), Trap>)
        requires
            old(self)@.frames.len() > 0,
        ensures
            match capture(old(vm)@, old(self)@.frames, old(self)@.stack, uvs, 0) {
                Some((w, frames)) => {
                    &&& r == Ok::<(), Trap>(())
                    &&& final(vm)@ == w
                    &&& final(self)@ == (FiberView { frames, ..old(self)@ })
                },
                None => r == Err::<(), Trap>(Trap::Fault),
            },
    {
        let mut i: usize = 0;
        while i < uvs.len
            invariant
                self@ == (FiberView { frames: self@.frames, ..old(self)@ }),
                self@.frames.len() > 0,
                capture(old(vm)@, old(self)@.frames, old(self)@.stack, uvs, 0) == capture(
                    vm@,
                    self@.frames,
                    old(self)@.stack,
                    uvs,
                    i as nat,
                ),
            decreases uvs.len - i,
        {
            let a: usize = sure(cell_of(uvs, i))?;
            match sure(vm.get_cell(a))? {
                Value::Pointer(PointerObj::UpVal(id)) => {
                    if id >= vm.upvals.len() {
                        return Err(Trap::Fault);
                    }
                    match vm.upvals[id] {
                        UpValueState::Open(d) => {
                            match self.owner(d.func) {
                                Some(k) => {
                                    let ghost before = self@;
                                    let ghost w = vm@;
                                    assert(self@.frames[k as int] == self.frames@[k as int]@);
                                    if !self.frames[k].is_noted_as(d.index, d.typ) {
                                        return Err(Trap::Fault);
                                    }
                                    let upframe = &mut self.frames[k];
                                    let base: OpIndex = upframe.stack_base;
                                    upframe.add_referred_by(d.index, d.typ, id);
                                    assert(self@.frames =~= before.frames.update(
                                        k as int,
                                        FrameView {
                                            referred_by: Some(
                                                with_referrer(
                                                    or_empty(before.frames[k as int].referred_by),
                                                    d.index,
                                                    d.typ,
                                                    id,
                                                ),
                                            ),
                                            ..before.frames[k as int]
                                        },
                                    ));
                                    vm.upvals[id] =
                                    UpValueState::Open(
                                        ValueDesc {
                                            func: d.func,
                                            index: d.index,
                                            typ: d.typ,
                                            is_local: d.is_local,
                                            stack: Some(self.stack),
                                            stack_base: base,
                                        },
                                    );
                                    assert(vm@.upvals =~= w.upvals.update(
                                        id as int,
                                        UpValueState::Open(
                                            ValueDesc {
                                                stack: Some(self@.stack),
                                                stack_base: base,
                                                ..d
                                            },
                                        ),
                                    ));
                                },
                                None => {},
                            }
                        },
                        UpValueState::Closed(_) => {},
                    }
                },
                _ => {},
            }
            i = i + 1;
        }
        Ok(())
    }

    /// Makes a closure.
    pub fn op_closure(&mut self, p: &Bytecode, vm: &mut Vm, c: Ctx, inst: &Instruction) -> (r: Result<
        Step,
        Trap,
    >)
        requires
            old(self)@.frames.len() > 0,
        ensures
            performed(
                r,
                final(vm)@,
                final(self)@,
                op_closure(p, old(vm)@, old(self)@, c, *inst),
            ),
    {
        let func: FunctionKey = match sure(get_const(&p.consts, inst.s0))? {
            Value::Function(func) => func,
            _ => return Err(Trap::Fault),
        };
        let cls = sure(vm.gos_from_func(p, func, None))?;
        match cls {
            ClosureObj::Gos { uvs: Some(r), .. } => {
                self.capture(vm, r)?;
            },
            _ => {},
        }
        let v = vm.add_closure(cls);
        sure(vm.write(c, inst.d, v))?;
        Ok(Step::Next)
    }
}

} // verus!

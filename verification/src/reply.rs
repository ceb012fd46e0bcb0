//! What the host answers, and what a fiber makes of it.
use vstd::prelude::*;
use crate::bytecode::{Bytecode, Instruction};
use crate::content::copy_semantic;
use crate::effect::Pending;
use crate::embed::{as_metadata, get_metadata};
use crate::fiber::{
    index_of, performed, raise_text, sure, to_index, Fiber, FiberView, SelectCommType, Step,
    StepView, Stepped,
};
use crate::machine::{Ctx, Vm, VmView};
use crate::meta::{get_underlying, underlying};
use crate::num::{fits, in_range, Calc};
use crate::ops_place::calculate;
use crate::ops_type::char_text;
use crate::place::store;
use crate::run::{advance, context_of};
use crate::trap::Trap;
use crate::value::{InterfaceObj, OpIndex, Value, ValueType};

verus! {

/// An answer of the host.
pub enum Reply {
    /// A value: what was calculated, an address, the length of a channel.
    Value(Value),
    /// The value was sent.
    Sent,
    /// What came from the channel; nothing, if it is closed.
    Received(Option<Value>),
    /// The number of the communication that was done, and what came from the
    /// channel. A number behind the last one stands for the default.
    Selected(usize, Option<Value>),
    /// The new object.
    Created(usize),
    /// The results of a call.
    Returned(Vec<Value>),
    /// It did not work.
    Failed(String),
}

/// Whether a value is of a type, and an integer in the range of its type.
pub open spec fn of_type(v: Value, t: ValueType) -> bool {
    &&& v.spec_typ() == t
    &&& v matches Value::Int(k, n) ==> in_range(k, n as int)
}

/// What came from a channel. A channel that is closed gives a copy of the zero
/// value.
pub open spec fn received(w: VmView, chan: usize, v: Option<Value>) -> Option<
    (VmView, Value, bool),
> {
    match v {
        Some(x) => Some((w, x, true)),
        None => if chan < w.chans.len() {
            match copy_semantic(w, w.chans[chan as int].recv_zero) {
                Ok((w1, x)) => Some((w1, x, false)),
                Err(e) => None,
            }
        } else {
            None
        },
    }
}

/// What came goes into the result slot; if asked for, also whether it is a value
/// that was sent.
pub open spec fn finish_recv(
    w: VmView,
    f: FiberView,
    c: Ctx,
    inst: Instruction,
    chan: usize,
    v: Option<Value>,
) -> Stepped {
    match received(w, chan, v) {
        None => None,
        Some((w1, x, ok)) => match w1.write(c, inst.d, x) {
            Err(e) => None,
            Ok(w2) => if inst.t1 == ValueType::FlagB {
                match w2.write(c, inst.s1, Value::Bool(ok)) {
                    Ok(w3) => Some((w3, f, StepView::Next)),
                    Err(e) => None,
                }
            } else {
                Some((w2, f, StepView::Next))
            },
        },
    }
}

/// What a select received goes where the communication says, if anywhere.
pub open spec fn keep_received(
    w: VmView,
    c: Ctx,
    flag: ValueType,
    dst: OpIndex,
    x: Value,
    ok: bool,
) -> Option<VmView> {
    match flag {
        ValueType::FlagC => match w.write(c, dst, x) {
            Ok(w1) => Some(w1),
            Err(e) => None,
        },
        ValueType::FlagD => match (w.write(c, dst, x), index_of(dst + 1)) {
            (Ok(w1), Some(next)) => match w1.write(c, next, Value::Bool(ok)) {
                Ok(w2) => Some(w2),
                Err(e) => None,
            },
            _ => None,
        },
        _ => Some(w),
    }
}

/// The fiber goes to the code of the communication that was done, or of the
/// default.
pub open spec fn finish_select(
    w: VmView,
    f: FiberView,
    c: Ctx,
    default_offset: Option<OpIndex>,
    i: usize,
    v: Option<Value>,
) -> Stepped {
    if i >= f.comms.len() {
        match default_offset {
            Some(d) => advance(w, f, d),
            None => None,
        }
    } else {
        let comm = f.comms[i as int];
        match comm.typ {
            SelectCommType::Send(_) => advance(w, f, comm.offset),
            SelectCommType::Recv(flag, dst) => match comm.chan {
                Value::Channel(chan) => match received(w, chan, v) {
                    Some((w1, x, ok)) => match keep_received(w1, c, flag, dst, x, ok) {
                        Some(w2) => advance(w2, f, comm.offset),
                        None => None,
                    },
                    None => None,
                },
                _ => None,
            },
        }
    }
}

/// The new object, in an interface of the type that was asked for, goes into the
/// result slot.
pub open spec fn finish_create(
    p: &Bytecode,
    w: VmView,
    f: FiberView,
    c: Ctx,
    inst: Instruction,
    ffi: usize,
) -> Stepped {
    match w.read(c, p.consts@, inst.s0) {
        Err(e) => None,
        Ok(v) => match as_metadata(v) {
            Err(e) => None,
            Ok(m) => match underlying(p, m) {
                Err(e) => None,
                Ok(meta) => match w.write(
                    c,
                    inst.d,
                    Value::Interface(InterfaceObj::Ffi { ffi, meta }),
                ) {
                    Ok(w1) => Some((w1, f, StepView::Next)),
                    Err(e) => None,
                },
            },
        },
    }
}

/// What a fiber that waits makes of an answer. An answer to another question
/// means that something is broken.
pub open spec fn resume(p: &Bytecode, w: VmView, f0: FiberView, reply: Reply) -> Stepped {
    let f = f0.waiting(None);
    let c = context_of(f);
    if f.frames.len() == 0 {
        None
    } else {
        match (f0.pending, reply) {
            (Some(Pending::Store { place, typ }), Reply::Value(v)) => if of_type(v, typ) {
                match store(p, w, place, v) {
                    Ok(w1) => Some((w1, f, StepView::Next)),
                    Err(e) => None,
                }
            } else {
                None
            },
            (Some(Pending::Text { place }), Reply::Value(v)) => match char_text(w, v) {
                Ok((w1, s)) => match store(p, w1, place, s) {
                    Ok(w2) => Some((w2, f, StepView::Next)),
                    Err(e) => None,
                },
                Err(e) => None,
            },
            (Some(Pending::Shift { place, op, typ, val }), Reply::Value(n)) => if of_type(
                n,
                ValueType::Uint32,
            ) {
                match calculate(w, op, typ, val, n) {
                    Ok((w1, Calc::Done(v))) => match store(p, w1, place, v) {
                        Ok(w2) => Some((w2, f, StepView::Next)),
                        Err(e) => None,
                    },
                    _ => None,
                }
            } else {
                None
            },
            (Some(Pending::Send), Reply::Sent) => Some((w, f, StepView::Next)),
            (Some(Pending::Send), Reply::Failed(m)) => raise_text(p, w, f, m@),
            (Some(Pending::Recv { inst, chan }), Reply::Received(v)) => finish_recv(
                w,
                f,
                c,
                inst,
                chan,
                v,
            ),
            (Some(Pending::Select { default_offset }), Reply::Selected(i, v)) => finish_select(
                w,
                f,
                c,
                default_offset,
                i,
                v,
            ),
            (Some(Pending::Select { .. }), Reply::Failed(m)) => raise_text(p, w, f, m@),
            (Some(Pending::FfiCreate { inst }), Reply::Created(ffi)) => finish_create(
                p,
                w,
                f,
                c,
                inst,
                ffi,
            ),
            (Some(Pending::FfiCreate { .. }), Reply::Failed(m)) => raise_text(p, w, f, m@),
            (Some(Pending::FfiCall { begin }), Reply::Returned(vals)) => match w.with_vec(
                f.stack,
                begin,
                vals@,
            ) {
                Ok(w1) => Some((w1, f, StepView::Next)),
                Err(e) => None,
            },
            (Some(Pending::FfiCall { .. }), Reply::Failed(m)) => raise_text(p, w, f, m@),
            _ => None,
        }
    }
}

fn is_of_type(v: Value, t: ValueType) -> (r: bool)
    ensures
        r == of_type(v, t),
{
    v.typ() == t && match v {
        Value::Int(k, n) => fits(k, n),
        _ => true,
    }
}

impl Vm {
    fn received(&mut self, chan: usize, v: Option<Value>) -> (r: Result<(Value, bool), Trap>)
        ensures
            match received(old(self)@, chan, v) {
                Some((w, x, ok)) => r == Ok::<(Value, bool), Trap>((x, ok)) && final(self)@ == w,
                None => r == Err::<(Value, bool), Trap>(Trap::Fault),
            },
    {
        match v {
            Some(x) => Ok((x, true)),
            None => {
                if chan >= self.chans.len() {
                    return Err(Trap::Fault);
                }
                let zero = self.chans[chan].recv_zero;
                let x = sure(self.copy_semantic(zero))?;
                Ok((x, false))
            },
        }
    }

    fn keep_received(&mut self, c: Ctx, flag: ValueType, dst: OpIndex, x: Value, ok: bool) -> (r:
        Result<(), Trap>)
        ensures
            match keep_received(old(self)@, c, flag, dst, x, ok) {
                Some(w) => r == Ok::<(), Trap>(()) && final(self)@ == w,
                None => r == Err::<(), Trap>(Trap::Fault),
            },
    {
        match flag {
            ValueType::FlagC => sure(self.write(c, dst, x)),
            ValueType::FlagD => {
                sure(self.write(c, dst, x))?;
                let next: OpIndex = to_index(dst as i64 + 1)?;
                sure(self.write(c, next, Value::Bool(ok)))
            },
            _ => Ok(()),
        }
    }
}

impl Fiber {
    fn finish_recv(
        &mut self,
        vm: &mut Vm,
        c: Ctx,
        inst: &Instruction,
        chan: usize,
        v: Option<Value>,
    ) -> (r: Result<Step, Trap>)
        ensures
            performed(
                r,
                final(vm)@,
                final(self)@,
                finish_recv(old(vm)@, old(self)@, c, *inst, chan, v),
            ),
    {
        let (x, ok) = vm.received(chan, v)?;
        sure(vm.write(c, inst.d, x))?;
        if inst.t1 == ValueType::FlagB {
            sure(vm.write(c, inst.s1, Value::Bool(ok)))?;
        }
        Ok(Step::Next)
    }

    fn finish_select(
        &mut self,
        vm: &mut Vm,
        c: Ctx,
        default_offset: Option<OpIndex>,
        i: usize,
        v: Option<Value>,
    ) -> (r: Result<Step, Trap>)
        requires
            old(self)@.frames.len() > 0,
        ensures
            performed(
                r,
                final(vm)@,
                final(self)@,
                finish_select(old(vm)@, old(self)@, c, default_offset, i, v),
            ),
    {
        let block_offset: OpIndex = if i >= self.comms.len() {
            match default_offset {
                Some(d) => d,
                None => return Err(Trap::Fault),
            }
        } else {
            let comm = self.comms[i];
            match comm.typ {
                SelectCommType::Send(_) => {},
                SelectCommType::Recv(flag, dst) => {
                    match comm.chan {
                        Value::Channel(chan) => {
                            let (x, ok) = vm.received(chan, v)?;
                            vm.keep_received(c, flag, dst, x, ok)?;
                        },
                        _ => return Err(Trap::Fault),
                    }
                },
            }
            comm.offset
        };
        let pc: OpIndex = to_index(self.top().pc as i64 + block_offset as i64)?;
        self.set_pc(pc);
        Ok(Step::Next)
    }

    fn finish_create(&mut self, p: &Bytecode, vm: &mut Vm, c: Ctx, inst: &Instruction, ffi: usize) -> (r:
        Result<Step, Trap>)
        ensures
            performed(
                r,
                final(vm)@,
                final(self)@,
                finish_create(p, old(vm)@, old(self)@, c, *inst, ffi),
            ),
    {
        let v = sure(vm.read(c, p, inst.s0))?;
        let m = sure(get_metadata(v))?;
        let meta = sure(get_underlying(p, m))?;
        sure(vm.write(c, inst.d, Value::Interface(InterfaceObj::Ffi { ffi, meta })))?;
        Ok(Step::Next)
    }

    /// Takes the answer that the fiber waits for.
    pub fn resume(&mut self, p: &Bytecode, vm: &mut Vm, reply: Reply) -> (r: Result<Step, Trap>)
        ensures
            performed(
                r,
                final(vm)@,
                final(self)@,
                resume(p, old(vm)@, old(self)@, reply),
            ),
    {
        if self.frames.len() == 0 {
            return Err(Trap::Fault);
        }
        let pending = self.pending;
        self.pending = None;
        let c = Ctx {
            stack: self.stack,
            sb: self.top().stack_base,
            uvs: self.top().var_ptrs,
        };
        match (pending, reply) {
            (Some(Pending::Store { place, typ }), Reply::Value(v)) => {
                if !is_of_type(v, typ) {
                    return Err(Trap::Fault);
                }
                sure(vm.store(p, place, v))?;
                Ok(Step::Next)
            },
            (Some(Pending::Text { place }), Reply::Value(v)) => {
                let s = sure(vm.char_text(v))?;
                sure(vm.store(p, place, s))?;
                Ok(Step::Next)
            },
            (Some(Pending::Shift { place, op, typ, val }), Reply::Value(n)) => {
                if !is_of_type(n, ValueType::Uint32) {
                    return Err(Trap::Fault);
                }
                let v = match sure(vm.calculate(op, typ, val, n))? {
                    Calc::Done(v) => v,
                    Calc::Host(_) => return Err(Trap::Fault),
                };
                sure(vm.store(p, place, v))?;
                Ok(Step::Next)
            },
            (Some(Pending::Send), Reply::Sent) => Ok(Step::Next),
            (Some(Pending::Send), Reply::Failed(m)) => self.raise_text(p, vm, m.as_str()),
            (Some(Pending::Recv { inst, chan }), Reply::Received(v)) => self.finish_recv(
                vm,
                c,
                &inst,
                chan,
                v,
            ),
            (Some(Pending::Select { default_offset }), Reply::Selected(i, v)) => self.finish_select(
                vm,
                c,
                default_offset,
                i,
                v,
            ),
            (Some(Pending::Select { .. }), Reply::Failed(m)) => self.raise_text(
                p,
                vm,
                m.as_str(),
            ),
            (Some(Pending::FfiCreate { inst }), Reply::Created(ffi)) => self.finish_create(
                p,
                vm,
                c,
                &inst,
                ffi,
            ),
            (Some(Pending::FfiCreate { .. }), Reply::Failed(m)) => self.raise_text(
                p,
                vm,
                m.as_str(),
            ),
            (Some(Pending::FfiCall { begin }), Reply::Returned(vals)) => {
                sure(vm.set_vec(self.stack, begin, &vals))?;
                Ok(Step::Next)
            },
            (Some(Pending::FfiCall { .. }), Reply::Failed(m)) => self.raise_text(
                p,
                vm,
                m.as_str(),
            ),
            _ => Err(Trap::Fault),
        }
    }
}

} // verus!

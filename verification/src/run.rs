//! The interpreter: fibers run instruction by instruction.
use vstd::prelude::*;
use crate::bytecode::{Bytecode, FunctionObj, Instruction, Opcode};
use crate::closure::gos_from_func;
use crate::content::copy_semantic;
use crate::effect::{Ask, Effect, Outcome, Pending};
use crate::fiber::{
    index_of, new_fiber, panic_view, performed, raise, raise_text, sure, to_index, Context, Fiber,
    FiberView, SelectComm, SelectCommType, Step, StepView, Stepped, YIELD_UNIT,
};
use crate::frame::CallFrame;
use crate::machine::{agrees, fresh_stack, Ctx, Vm, VmView};
use crate::ops_call::{op_call, op_closure, op_return};
use crate::ops_make::make_inst;
use crate::ops_place::place_inst;
use crate::ops_type::{boxed, type_inst};
use crate::ops_word::word_inst;
use crate::panic::PanicData;
use crate::range::{find_walk, latest_walk, range_init, range_next};
use crate::trap::{RuntimeError, Trap};
use crate::value::{void, FunctionKey, OpIndex, Value, ValueType};

verus! {

/// Who carries an instruction out.
#[derive(Clone, Copy, PartialEq, Eq, Structural, Debug)]
pub enum Group {
    Place,
    Word,
    Type,
    Make,
    Fiber,
}

/// Who carries an instruction out.
pub open spec fn group(op: Opcode) -> Group {
    match op {
        Opcode::DUPLICATE
        | Opcode::LOAD_SLICE
        | Opcode::STORE_SLICE
        | Opcode::LOAD_ARRAY
        | Opcode::STORE_ARRAY
        | Opcode::LOAD_MAP
        | Opcode::STORE_MAP
        | Opcode::LOAD_STRUCT
        | Opcode::STORE_STRUCT
        | Opcode::LOAD_EMBEDDED
        | Opcode::STORE_EMBEDDED
        | Opcode::LOAD_PKG
        | Opcode::STORE_PKG
        | Opcode::LOAD_POINTER
        | Opcode::STORE_POINTER
        | Opcode::LOAD_UP_VALUE
        | Opcode::STORE_UP_VALUE
        | Opcode::REF
        | Opcode::REF_UPVALUE
        | Opcode::REF_SLICE_MEMBER
        | Opcode::REF_STRUCT_FIELD
        | Opcode::REF_EMBEDDED
        | Opcode::REF_PKG_MEMBER => Group::Place,
        Opcode::PACK_VARIADIC
        | Opcode::JUMP
        | Opcode::JUMP_IF
        | Opcode::JUMP_IF_NOT
        | Opcode::SWITCH
        | Opcode::IMPORT
        | Opcode::LOAD_INIT_FUNC
        | Opcode::BIND_METHOD
        | Opcode::BIND_I_METHOD
        | Opcode::CAST
        | Opcode::TYPE_ASSERT
        | Opcode::TYPE
        | Opcode::ASSERT => Group::Type,
        Opcode::SLICE
        | Opcode::LITERAL
        | Opcode::NEW
        | Opcode::MAKE
        | Opcode::COMPLEX
        | Opcode::REAL
        | Opcode::IMAG
        | Opcode::LEN
        | Opcode::CAP
        | Opcode::APPEND
        | Opcode::COPY
        | Opcode::DELETE => Group::Make,
        Opcode::CALL
        | Opcode::RETURN
        | Opcode::CLOSURE
        | Opcode::SELECT
        | Opcode::RANGE_INIT
        | Opcode::RANGE
        | Opcode::PANIC
        | Opcode::RECOVER
        | Opcode::SEND
        | Opcode::RECV
        | Opcode::CLOSE
        | Opcode::FFI
        | Opcode::VOID => Group::Fiber,
        _ => Group::Word,
    }
}

fn get_group(op: Opcode) -> (r: Group)
    ensures
        r == group(op),
{
    match op {
        Opcode::DUPLICATE
        | Opcode::LOAD_SLICE
        | Opcode::STORE_SLICE
        | Opcode::LOAD_ARRAY
        | Opcode::STORE_ARRAY
        | Opcode::LOAD_MAP
        | Opcode::STORE_MAP
        | Opcode::LOAD_STRUCT
        | Opcode::STORE_STRUCT
        | Opcode::LOAD_EMBEDDED
        | Opcode::STORE_EMBEDDED
        | Opcode::LOAD_PKG
        | Opcode::STORE_PKG
        | Opcode::LOAD_POINTER
        | Opcode::STORE_POINTER
        | Opcode::LOAD_UP_VALUE
        | Opcode::STORE_UP_VALUE
        | Opcode::REF
        | Opcode::REF_UPVALUE
        | Opcode::REF_SLICE_MEMBER
        | Opcode::REF_STRUCT_FIELD
        | Opcode::REF_EMBEDDED
        | Opcode::REF_PKG_MEMBER => Group::Place,
        Opcode::PACK_VARIADIC
        | Opcode::JUMP
        | Opcode::JUMP_IF
        | Opcode::JUMP_IF_NOT
        | Opcode::SWITCH
        | Opcode::IMPORT
        | Opcode::LOAD_INIT_FUNC
        | Opcode::BIND_METHOD
        | Opcode::BIND_I_METHOD
        | Opcode::CAST
        | Opcode::TYPE_ASSERT
        | Opcode::TYPE
        | Opcode::ASSERT => Group::Type,
        Opcode::SLICE
        | Opcode::LITERAL
        | Opcode::NEW
        | Opcode::MAKE
        | Opcode::COMPLEX
        | Opcode::REAL
        | Opcode::IMAG
        | Opcode::LEN
        | Opcode::CAP
        | Opcode::APPEND
        | Opcode::COPY
        | Opcode::DELETE => Group::Make,
        Opcode::CALL
        | Opcode::RETURN
        | Opcode::CLOSURE
        | Opcode::SELECT
        | Opcode::RANGE_INIT
        | Opcode::RANGE
        | Opcode::PANIC
        | Opcode::RECOVER
        | Opcode::SEND
        | Opcode::RECV
        | Opcode::CLOSE
        | Opcode::FFI
        | Opcode::VOID => Group::Fiber,
        _ => Group::Word,
    }
}

/// Whether an instruction takes up two words.
pub open spec fn two_words(op: Opcode) -> bool {
    op == Opcode::LOAD_MAP || op == Opcode::STORE_MAP || op == Opcode::SLICE || op
        == Opcode::LITERAL
}

/// The fiber goes on, some instructions further.
pub open spec fn advance(w: VmView, f: FiberView, d: OpIndex) -> Stepped {
    match index_of(f.top().pc + d) {
        Some(pc) => Some((w, f.with_pc(pc), StepView::Next)),
        None => None,
    }
}

/// What the outcome of an instruction means for the fiber. A mistake of the
/// program leaves no trace but the panic.
pub open spec fn finish(p: &Bytecode, w: VmView, f: FiberView, r: Outcome) -> Stepped {
    match r {
        Ok((w1, Effect::Next(d))) => advance(w1, f, d),
        Ok((w1, Effect::Raise(e))) => raise_text(p, w1, f, e.spec_message()),
        Ok((w1, Effect::Ask(q, pending))) => Some(
            (w1, f.waiting(Some(pending)), StepView::Ask(Ask::Query(q))),
        ),
        Err(Trap::Panic(e)) => raise_text(p, w, f, e.spec_message()),
        Err(Trap::Fault) => None,
    }
}

/// What an instruction does that concerns the tables only.
pub open spec fn data_inst(
    p: &Bytecode,
    w: VmView,
    c: Ctx,
    inst: Instruction,
    next: Option<Instruction>,
    async_enabled: bool,
) -> Outcome {
    match group(inst.op0) {
        Group::Place => place_inst(
            p,
            w,
            c,
            inst,
            match next {
                Some(ex) => ex,
                None => inst,
            },
        ),
        Group::Word => word_inst(p, w, c, inst),
        Group::Type => type_inst(p, w, c, inst, next),
        Group::Make => make_inst(p, w, c, inst, next, async_enabled),
        Group::Fiber => Err(Trap::Fault),
    }
}

/// The channel that a value is, if it is not nil.
pub open spec fn as_channel(v: Result<Value, Trap>) -> Option<Option<usize>> {
    match v {
        Ok(Value::Channel(k)) => Some(Some(k)),
        Ok(Value::Nil(_)) => Some(None),
        _ => None,
    }
}

/// The communications of a select from the `i`th on, one in each of the words
/// that follow. What is to be sent is copied.
pub open spec fn select_comms(
    p: &Bytecode,
    w: VmView,
    c: Ctx,
    code: Seq<Instruction>,
    pc: int,
    count: int,
    i: int,
    comms: Seq<SelectComm>,
) -> Option<(VmView, Seq<SelectComm>)>
    decreases count - i,
{
    if i >= count {
        Some((w, comms))
    } else if pc + i < 0 || pc + i >= code.len() {
        None
    } else {
        let entry = code[pc + i];
        match w.read(c, p.consts@, entry.s0) {
            Err(e) => None,
            Ok(chan) => match entry.t0 {
                ValueType::FlagA => match w.read(c, p.consts@, entry.s1) {
                    Err(e) => None,
                    Ok(v) => match copy_semantic(w, v) {
                        Err(e) => None,
                        Ok((w1, x)) => select_comms(
                            p,
                            w1,
                            c,
                            code,
                            pc,
                            count,
                            i + 1,
                            comms.push(
                                SelectComm {
                                    typ: SelectCommType::Send(x),
                                    chan,
                                    offset: entry.d,
                                },
                            ),
                        ),
                    },
                },
                ValueType::FlagB | ValueType::FlagC | ValueType::FlagD => select_comms(
                    p,
                    w,
                    c,
                    code,
                    pc,
                    count,
                    i + 1,
                    comms.push(
                        SelectComm {
                            typ: SelectCommType::Recv(entry.t0, entry.s1),
                            chan,
                            offset: entry.d,
                        },
                    ),
                ),
                _ => None,
            },
        }
    }
}

/// A select asks the host to do one of its communications.
pub open spec fn op_select(
    p: &Bytecode,
    w: VmView,
    f: FiberView,
    c: Ctx,
    inst: Instruction,
    code: Seq<Instruction>,
) -> Stepped {
    let count = inst.s0 as int;
    match (
        if count < 0 {
            None
        } else {
            select_comms(p, w, c, code, f.top().pc as int, count, 0, seq![])
        },
        index_of(f.top().pc + count),
    ) {
        (Some((w1, comms)), Some(pc)) => {
            let has_default = inst.t0 == ValueType::FlagE;
            Some(
                (
                    w1,
                    FiberView { comms, ..f.with_pc(pc) }.waiting(
                        Some(
                            Pending::Select {
                                default_offset: if has_default {
                                    Some(inst.d)
                                } else {
                                    None
                                },
                            },
                        ),
                    ),
                    StepView::Ask(Ask::Select { has_default }),
                ),
            )
        },
        _ => None,
    }
}

/// A walk begins.
pub open spec fn op_range_init(p: &Bytecode, w: VmView, f: FiberView, c: Ctx, inst: Instruction) -> Stepped {
    match w.read(c, p.consts@, inst.s0) {
        Ok(v) => match range_init(w, v, inst.t0) {
            Ok((w1, it)) => Some(
                (w1, FiberView { rstack: f.rstack.push(it), ..f }, StepView::Next),
            ),
            Err(Trap::Panic(e)) => raise_text(p, w, f, e.spec_message()),
            Err(Trap::Fault) => None,
        },
        Err(e) => None,
    }
}

/// The next element of the latest walk through such a value and its key go into
/// their slots. At the end the walk is dropped and the fiber goes elsewhere.
pub open spec fn op_range(p: &Bytecode, w: VmView, f: FiberView, c: Ctx, inst: Instruction) -> Stepped {
    match latest_walk(f.rstack, inst.t0, f.rstack.len() as int) {
        None => None,
        Some(i) => match range_next(p, w, f.rstack[i]) {
            Ok(None) => advance(w, FiberView { rstack: f.rstack.remove(i), ..f }, inst.s0),
            Ok(Some((k, v, it))) => match w.write(c, inst.d, k) {
                Ok(w1) => match w1.write(c, inst.s1, v) {
                    Ok(w2) => Some(
                        (w2, FiberView { rstack: f.rstack.update(i, it), ..f }, StepView::Next),
                    ),
                    Err(e) => None,
                },
                Err(e) => None,
            },
            Err(e) => None,
        },
    }
}

/// The panic on its way ends here, and what it said goes into the result slot;
/// nil, if there is none.
pub open spec fn op_recover(w: VmView, f: FiberView, c: Ctx, inst: Instruction) -> Stepped {
    let (w1, v) = match f.panic {
        Some(d) => boxed(w, d.msg, None),
        None => (w, void()),
    };
    match w1.write(c, inst.d, v) {
        Ok(w2) => Some((w2, FiberView { panic: None, ..f }, StepView::Next)),
        Err(e) => None,
    }
}

/// A value is sent; on a nil channel the fiber waits forever.
pub open spec fn op_send(p: &Bytecode, w: VmView, f: FiberView, c: Ctx, inst: Instruction) -> Stepped {
    match (as_channel(w.read(c, p.consts@, inst.s0)), w.read(c, p.consts@, inst.s1)) {
        (Some(Some(chan)), Ok(val)) => Some(
            (w, f.waiting(Some(Pending::Send)), StepView::Ask(Ask::Send { chan, val })),
        ),
        (Some(None), Ok(_)) => Some(
            (w, f.waiting(Some(Pending::Forever)), StepView::Ask(Ask::Block)),
        ),
        _ => None,
    }
}

/// A value is received; on a nil channel the fiber waits forever.
pub open spec fn op_recv(p: &Bytecode, w: VmView, f: FiberView, c: Ctx, inst: Instruction) -> Stepped {
    match as_channel(w.read(c, p.consts@, inst.s0)) {
        Some(Some(chan)) => Some(
            (w, f.waiting(Some(Pending::Recv { inst, chan })), StepView::Ask(Ask::Recv { chan })),
        ),
        Some(None) => Some((w, f.waiting(Some(Pending::Forever)), StepView::Ask(Ask::Block))),
        None => None,
    }
}

/// A channel is closed; a nil channel stays as it is.
pub open spec fn op_close(p: &Bytecode, w: VmView, f: FiberView, c: Ctx, inst: Instruction) -> Stepped {
    match as_channel(w.read(c, p.consts@, inst.s0)) {
        Some(Some(chan)) => Some((w, f.waiting(None), StepView::Ask(Ask::Close { chan }))),
        Some(None) => Some((w, f, StepView::Next)),
        None => None,
    }
}

/// The host makes an object by its name.
pub open spec fn op_ffi(p: &Bytecode, w: VmView, f: FiberView, c: Ctx, inst: Instruction) -> Stepped {
    match (w.read(c, p.consts@, inst.s0), w.read(c, p.consts@, inst.s1)) {
        (Ok(_), Ok(Value::Str(name))) => Some(
            (
                w,
                f.waiting(Some(Pending::FfiCreate { inst })),
                StepView::Ask(Ask::FfiCreate { name }),
            ),
        ),
        _ => None,
    }
}

/// What an instruction does that concerns the fiber. Without a scheduler there
/// is no communication.
pub open spec fn fiber_inst(
    p: &Bytecode,
    w: VmView,
    f: FiberView,
    c: Ctx,
    inst: Instruction,
    code: Seq<Instruction>,
) -> Stepped {
    match inst.op0 {
        Opcode::CALL => op_call(p, w, f, c, inst),
        Opcode::RETURN => op_return(p, w, f, c, inst),
        Opcode::CLOSURE => op_closure(p, w, f, c, inst),
        Opcode::RANGE_INIT => op_range_init(p, w, f, c, inst),
        Opcode::RANGE => op_range(p, w, f, c, inst),
        Opcode::PANIC => match w.read(c, p.consts@, inst.s0) {
            Ok(msg) => raise(p, w, f, msg),
            Err(e) => None,
        },
        Opcode::RECOVER => op_recover(w, f, c, inst),
        Opcode::FFI => op_ffi(p, w, f, c, inst),
        Opcode::SELECT | Opcode::SEND | Opcode::RECV | Opcode::CLOSE => if !f.context.async_enabled {
            raise_text(p, w, f, RuntimeError::AsyncDisabled.spec_message())
        } else {
            match inst.op0 {
                Opcode::SELECT => op_select(p, w, f, c, inst, code),
                Opcode::SEND => op_send(p, w, f, c, inst),
                Opcode::RECV => op_recv(p, w, f, c, inst),
                _ => op_close(p, w, f, c, inst),
            }
        },
        _ => None,
    }
}

/// Where the running function finds its operands.
pub open spec fn context_of(f: FiberView) -> Ctx {
    Ctx { stack: f.stack, sb: f.top().stack_base, uvs: f.top().var_ptrs }
}

/// One more.
pub open spec fn counted(n: u64) -> u64 {
    if n == u64::MAX {
        0
    } else {
        (n + 1) as u64
    }
}

/// The instruction at the position of the running function: with it the
/// position moves on, past both words if there are two.
pub open spec fn fetch(p: &Bytecode, f: FiberView) -> Option<
    (FiberView, Instruction, Option<Instruction>),
> {
    if f.frames.len() == 0 || f.top().func >= p.functions@.len() {
        None
    } else {
        let code = p.functions@[f.top().func as int].code@;
        let pc = f.top().pc as int;
        if 0 <= pc < code.len() {
            let inst = code[pc];
            let next = if pc + 1 < code.len() {
                Some(code[pc + 1])
            } else {
                None
            };
            if two_words(inst.op0) && next is None {
                None
            } else {
                match index_of(
                    pc + if two_words(inst.op0) {
                        2int
                    } else {
                        1int
                    },
                ) {
                    Some(k) => Some(
                        (
                            FiberView { total_inst: counted(f.total_inst), ..f.with_pc(k) },
                            inst,
                            next,
                        ),
                    ),
                    None => None,
                }
            }
        } else {
            None
        }
    }
}

/// What one instruction does.
pub open spec fn step(p: &Bytecode, w: VmView, f: FiberView) -> Stepped {
    match fetch(p, f) {
        None => None,
        Some((f1, inst, next)) => if group(inst.op0) == Group::Fiber {
            fiber_inst(
                p,
                w,
                f1,
                context_of(f),
                inst,
                p.functions@[f.top().func as int].code@,
            )
        } else {
            finish(
                p,
                w,
                f1,
                data_inst(p, w, context_of(f), inst, next, f.context.async_enabled),
            )
        },
    }
}

/// What up to `n` instructions do: the fiber stops early where the host has to
/// do something. After the last one it is the turn of others, and a panic that
/// is still on its way then is lost.
pub open spec fn run_unit(p: &Bytecode, w: VmView, f: FiberView, n: nat) -> Stepped
    decreases n,
{
    if n == 0 {
        Some((w, FiberView { panic: None, unit_left: YIELD_UNIT, ..f }, StepView::Yield))
    } else {
        match step(p, w, f) {
            None => None,
            Some((w1, f1, StepView::Next)) => run_unit(p, w1, f1, (n - 1) as nat),
            Some((w1, f1, s)) => Some((w1, FiberView { unit_left: (n - 1) as usize, ..f1 }, s)),
        }
    }
}

/// The tables with room for the slots that a function writes to, which are counted
/// from `base`.
pub open spec fn with_room(w: VmView, stack: usize, base: OpIndex, fo: FunctionObj) -> VmView {
    match index_of(base + fo.max_write_index + 1) {
        Some(n) => match w.with_min_size(stack, n) {
            Ok(w1) => w1,
            Err(e) => w,
        },
        None => w,
    }
}

/// A fiber before its first instruction gets the slots that its function writes to,
/// and among them those of its local variables.
pub open spec fn begin(p: &Bytecode, w: VmView, f: FiberView) -> Option<(VmView, FiberView)> {
    if f.started {
        Some((w, f))
    } else if f.frames.len() > 0 && f.top().func < p.functions@.len() {
        let fo = p.functions@[f.top().func as int];
        let w1 = with_room(w, f.stack, f.top().stack_base, fo);
        match w1.with_vec(f.stack, fo.param_count, fo.local_zeros@) {
            Ok(w2) => Some((w2, FiberView { started: true, ..f })),
            Err(e) => None,
        }
    } else {
        None
    }
}

/// What a fiber does until its turn is over or the host has to do something.
/// One that waits for an answer does nothing.
pub open spec fn main_loop(p: &Bytecode, w: VmView, f: FiberView) -> Stepped {
    if f.pending is Some {
        None
    } else {
        match begin(p, w, f) {
            Some((w1, f1)) => run_unit(p, w1, f1, f1.unit_left as nat),
            None => None,
        }
    }
}

impl Vm {
    fn run_data_inst(
        &mut self,
        p: &Bytecode,
        c: Ctx,
        inst: &Instruction,
        next: Option<Instruction>,
        async_enabled: bool,
        g: Group,
    ) -> (r: Result<Effect, Trap>)
        requires
            g == group(inst.op0),
        ensures
            agrees(
                r,
                old(self)@,
                final(self)@,
                data_inst(p, old(self)@, c, *inst, next, async_enabled),
            ),
    {
        match g {
            Group::Place => {
                let ex = match next {
                    Some(ex) => ex,
                    None => *inst,
                };
                self.run_place_inst(p, c, inst, &ex)
            },
            Group::Word => self.run_word_inst(p, c, inst),
            Group::Type => self.run_type_inst(p, c, inst, next),
            Group::Make => self.run_make_inst(p, c, inst, next, async_enabled),
            Group::Fiber => Err(Trap::Fault),
        }
    }

    fn channel_at(&self, p: &Bytecode, c: Ctx, s: OpIndex) -> (r: Result<Option<usize>, Trap>)
        ensures
            match as_channel(self@.read(c, p.consts@, s)) {
                Some(k) => r == Ok::<Option<usize>, Trap>(k),
                None => r == Err::<Option<usize>, Trap>(Trap::Fault),
            },
    {
        match sure(self.read(c, p, s))? {
            Value::Channel(k) => Ok(Some(k)),
            Value::Nil(_) => Ok(None),
            _ => Err(Trap::Fault),
        }
    }

    fn select_comms(
        &mut self,
        p: &Bytecode,
        c: Ctx,
        code: &Vec<Instruction>,
        pc: OpIndex,
        count: OpIndex,
    ) -> (r: Result<Vec<SelectComm>, Trap>)
        requires
            0 <= count,
        ensures
            match select_comms(p, old(self)@, c, code@, pc as int, count as int, 0, seq![]) {
                Some((w, comms)) => r is Ok && r->Ok_0@ == comms && final(self)@ == w,
                None => r == Err::<Vec<SelectComm>, Trap>(Trap::Fault),
            },
    {
        let mut comms: Vec<SelectComm> = Vec::new();
        assert(comms@ =~= seq![]);
        let mut i: OpIndex = 0;
        while i < count
            invariant
                0 <= i <= count,
                select_comms(p, old(self)@, c, code@, pc as int, count as int, 0, seq![])
                    == select_comms(
                    p,
                    self@,
                    c,
                    code@,
                    pc as int,
                    count as int,
                    i as int,
                    comms@,
                ),
            decreases count - i,
        {
            let k: i64 = pc as i64 + i as i64;
            if k < 0 || k as u64 >= code.len() as u64 {
                return Err(Trap::Fault);
            }
            let entry = code[k as usize];
            let chan = sure(self.read(c, p, entry.s0))?;
            let typ = match entry.t0 {
                ValueType::FlagA => {
                    let v = sure(self.read(c, p, entry.s1))?;
                    let x = sure(self.copy_semantic(v))?;
                    SelectCommType::Send(x)
                },
                ValueType::FlagB | ValueType::FlagC | ValueType::FlagD => SelectCommType::Recv(
                    entry.t0,
                    entry.s1,
                ),
                _ => return Err(Trap::Fault),
            };
            comms.push(SelectComm { typ, chan, offset: entry.d });
            i = i + 1;
        }
        Ok(comms)
    }
}

impl Fiber {
    fn advance(&mut self, vm: &mut Vm, d: OpIndex) -> (r: Result<Step, Trap>)
        requires
            old(self)@.frames.len() > 0,
        ensures
            performed(r, final(vm)@, final(self)@, advance(old(vm)@, old(self)@, d)),
    {
        let pc: OpIndex = to_index(self.top().pc as i64 + d as i64)?;
        self.set_pc(pc);
        Ok(Step::Next)
    }

    fn op_select(
        &mut self,
        p: &Bytecode,
        vm: &mut Vm,
        c: Ctx,
        inst: &Instruction,
        code: &Vec<Instruction>,
    ) -> (r: Result<Step, Trap>)
        requires
            old(self)@.frames.len() > 0,
        ensures
            performed(
                r,
                final(vm)@,
                final(self)@,
                op_select(p, old(vm)@, old(self)@, c, *inst, code@),
            ),
    {
        let count: OpIndex = inst.s0;
        if count < 0 {
            return Err(Trap::Fault);
        }
        let comms = vm.select_comms(p, c, code, self.top().pc, count)?;
        let pc: OpIndex = to_index(self.top().pc as i64 + count as i64)?;
        self.set_pc(pc);
        self.comms = comms;
        let has_default = inst.t0 == ValueType::FlagE;
        let default_offset = if has_default {
            Some(inst.d)
        } else {
            None
        };
        self.pending = Some(Pending::Select { default_offset });
        Ok(Step::Ask(Ask::Select { has_default }))
    }

    fn op_range_init(&mut self, p: &Bytecode, vm: &mut Vm, c: Ctx, inst: &Instruction) -> (r: Result<
        Step,
        Trap,
    >)
        ensures
            performed(
                r,
                final(vm)@,
                final(self)@,
                op_range_init(p, old(vm)@, old(self)@, c, *inst),
            ),
    {
        let v = sure(vm.read(c, p, inst.s0))?;
        match vm.range_init(v, inst.t0) {
            Ok(it) => {
                self.rstack.push(it);
                Ok(Step::Next)
            },
            Err(Trap::Panic(e)) => self.raise_text(p, vm, e.message()),
            Err(Trap::Fault) => Err(Trap::Fault),
        }
    }

    fn op_range(&mut self, p: &Bytecode, vm: &mut Vm, c: Ctx, inst: &Instruction) -> (r: Result<
        Step,
        Trap,
    >)
        requires
            old(self)@.frames.len() > 0,
        ensures
            performed(
                r,
                final(vm)@,
                final(self)@,
                op_range(p, old(vm)@, old(self)@, c, *inst),
            ),
    {
        let i: usize = match find_walk(&self.rstack, inst.t0) {
            Some(i) => i,
            None => return Err(Trap::Fault),
        };
        match sure(vm.range_next(p, self.rstack[i]))? {
            None => {
                self.rstack.remove(i);
                self.advance(vm, inst.s0)
            },
            Some((k, v, it)) => {
                sure(vm.write(c, inst.d, k))?;
                sure(vm.write(c, inst.s1, v))?;
                self.rstack.set(i, it);
                Ok(Step::Next)
            },
        }
    }

    fn op_recover(&mut self, vm: &mut Vm, c: Ctx, inst: &Instruction) -> (r: Result<Step, Trap>)
        ensures
            performed(
                r,
                final(vm)@,
                final(self)@,
                op_recover(old(vm)@, old(self)@, c, *inst),
            ),
    {
        let v = match self.panic.take() {
            Some(d) => vm.boxed(d.msg, None),
            None => Value::Nil(ValueType::Void),
        };
        sure(vm.write(c, inst.d, v))?;
        Ok(Step::Next)
    }

    fn op_send(&mut self, p: &Bytecode, vm: &mut Vm, c: Ctx, inst: &Instruction) -> (r: Result<
        Step,
        Trap,
    >)
        ensures
            performed(
                r,
                final(vm)@,
                final(self)@,
                op_send(p, old(vm)@, old(self)@, c, *inst),
            ),
    {
        let k = vm.channel_at(p, c, inst.s0)?;
        let val = sure(vm.read(c, p, inst.s1))?;
        match k {
            Some(chan) => {
                self.pending = Some(Pending::Send);
                Ok(Step::Ask(Ask::Send { chan, val }))
            },
            None => {
                self.pending = Some(Pending::Forever);
                Ok(Step::Ask(Ask::Block))
            },
        }
    }

    fn op_recv(&mut self, p: &Bytecode, vm: &mut Vm, c: Ctx, inst: &Instruction) -> (r: Result<
        Step,
        Trap,
    >)
        ensures
            performed(
                r,
                final(vm)@,
                final(self)@,
                op_recv(p, old(vm)@, old(self)@, c, *inst),
            ),
    {
        match vm.channel_at(p, c, inst.s0)? {
            Some(chan) => {
                self.pending = Some(Pending::Recv { inst: *inst, chan });
                Ok(Step::Ask(Ask::Recv { chan }))
            },
            None => {
                self.pending = Some(Pending::Forever);
                Ok(Step::Ask(Ask::Block))
            },
        }
    }

    fn op_close(&mut self, p: &Bytecode, vm: &mut Vm, c: Ctx, inst: &Instruction) -> (r: Result<
        Step,
        Trap,
    >)
        ensures
            performed(
                r,
                final(vm)@,
                final(self)@,
                op_close(p, old(vm)@, old(self)@, c, *inst),
            ),
    {
        match vm.channel_at(p, c, inst.s0)? {
            Some(chan) => {
                self.pending = None;
                Ok(Step::Ask(Ask::Close { chan }))
            },
            None => Ok(Step::Next),
        }
    }

    fn op_ffi(&mut self, p: &Bytecode, vm: &mut Vm, c: Ctx, inst: &Instruction) -> (r: Result<
        Step,
        Trap,
    >)
        ensures
            performed(
                r,
                final(vm)@,
                final(self)@,
                op_ffi(p, old(vm)@, old(self)@, c, *inst),
            ),
    {
        sure(vm.read(c, p, inst.s0))?;
        match sure(vm.read(c, p, inst.s1))? {
            Value::Str(name) => {
                self.pending = Some(Pending::FfiCreate { inst: *inst });
                Ok(Step::Ask(Ask::FfiCreate { name }))
            },
            _ => Err(Trap::Fault),
        }
    }

    fn run_fiber_inst(
        &mut self,
        p: &Bytecode,
        vm: &mut Vm,
        c: Ctx,
        inst: &Instruction,
        code: &Vec<Instruction>,
    ) -> (r: Result<Step, Trap>)
        requires
            old(self)@.frames.len() > 0,
        ensures
            performed(
                r,
                final(vm)@,
                final(self)@,
                fiber_inst(p, old(vm)@, old(self)@, c, *inst, code@),
            ),
    {
        match inst.op0 {
            Opcode::CALL => self.op_call(p, vm, c, inst),
            Opcode::RETURN => self.op_return(p, vm, c, inst),
            Opcode::CLOSURE => self.op_closure(p, vm, c, inst),
            Opcode::RANGE_INIT => self.op_range_init(p, vm, c, inst),
            Opcode::RANGE => self.op_range(p, vm, c, inst),
            Opcode::PANIC => {
                let msg = sure(vm.read(c, p, inst.s0))?;
                self.raise(p, vm, msg)
            },
            Opcode::RECOVER => self.op_recover(vm, c, inst),
            Opcode::FFI => self.op_ffi(p, vm, c, inst),
            Opcode::SELECT | Opcode::SEND | Opcode::RECV | Opcode::CLOSE => {
                if !self.context.async_enabled {
                    return self.raise_text(p, vm, RuntimeError::AsyncDisabled.message());
                }
                match inst.op0 {
                    Opcode::SELECT => self.op_select(p, vm, c, inst, code),
                    Opcode::SEND => self.op_send(p, vm, c, inst),
                    Opcode::RECV => self.op_recv(p, vm, c, inst),
                    _ => self.op_close(p, vm, c, inst),
                }
            },
            _ => Err(Trap::Fault),
        }
    }

    fn fetch(&mut self, p: &Bytecode) -> (r: Result<(Instruction, Option<Instruction>), Trap>)
        ensures
            match fetch(p, old(self)@) {
                Some((f, inst, next)) => {
                    &&& r == Ok::<(Instruction, Option<Instruction>), Trap>((inst, next))
                    &&& final(self)@ == f
                },
                None => r == Err::<(Instruction, Option<Instruction>), Trap>(Trap::Fault),
            },
    {
        if self.frames.len() == 0 {
            return Err(Trap::Fault);
        }
        let func: FunctionKey = self.top().func();
        let pc: OpIndex = self.top().pc;
        if func >= p.functions.len() {
            return Err(Trap::Fault);
        }
        let code = &self.top().func_obj(p).code;
        if pc < 0 || pc as usize >= code.len() {
            return Err(Trap::Fault);
        }
        let inst = code[pc as usize];
        let next = if (pc as usize) < code.len() - 1 {
            Some(code[pc as usize + 1])
        } else {
            None
        };
        let two = inst.op0 == Opcode::LOAD_MAP || inst.op0 == Opcode::STORE_MAP || inst.op0
            == Opcode::SLICE || inst.op0 == Opcode::LITERAL;
        if two && next.is_none() {
            return Err(Trap::Fault);
        }
        let k: OpIndex = to_index(
            pc as i64 + if two {
                2
            } else {
                1
            },
        )?;
        self.set_pc(k);
        self.total_inst = self.total_inst.wrapping_add(1);
        Ok((inst, next))
    }

    /// Runs one instruction.
    pub fn step(&mut self, p: &Bytecode, vm: &mut Vm) -> (r: Result<Step, Trap>)
        ensures
            performed(r, final(vm)@, final(self)@, step(p, old(vm)@, old(self)@)),
    {
        let (inst, next) = self.fetch(p)?;
        let func: FunctionKey = self.top().func();
        let c = Ctx {
            stack: self.stack,
            sb: self.top().stack_base,
            uvs: self.top().var_ptrs,
        };
        let g = get_group(inst.op0);
        if g == Group::Fiber {
            return self.run_fiber_inst(p, vm, c, &inst, &p.functions[func].code);
        }
        match vm.run_data_inst(p, c, &inst, next, self.context.async_enabled, g) {
            Ok(Effect::Next(d)) => self.advance(vm, d),
            Ok(Effect::Raise(e)) => self.raise_text(p, vm, e.message()),
            Ok(Effect::Ask(q, pending)) => {
                self.pending = Some(pending);
                Ok(Step::Ask(Ask::Query(q)))
            },
            Err(Trap::Panic(e)) => self.raise_text(p, vm, e.message()),
            Err(Trap::Fault) => Err(Trap::Fault),
        }
    }

    fn begin(&mut self, p: &Bytecode, vm: &mut Vm) -> (r: Result<(), Trap>)
        ensures
            match begin(p, old(vm)@, old(self)@) {
                Some((w, f)) => r == Ok::<(), Trap>(()) && final(vm)@ == w && final(self)@ == f,
                None => r == Err::<(), Trap>(Trap::Fault),
            },
    {
        if self.started {
            return Ok(());
        }
        if self.frames.len() == 0 || self.top().func() >= p.functions.len() {
            return Err(Trap::Fault);
        }
        let fo = self.top().func_obj(p);
        let n: i64 = self.top().stack_base as i64 + fo.max_write_index as i64 + 1;
        if 0 <= n && n <= i32::MAX as i64 && self.stack < vm.stacks.len() {
            sure(vm.set_min_size(self.stack, n as OpIndex))?;
        }
        sure(vm.set_vec(self.stack, fo.param_count, &fo.local_zeros))?;
        self.started = true;
        Ok(())
    }

    /// Runs until the turn of the fiber is over or the host has to do something.
    pub fn main_loop(&mut self, p: &Bytecode, vm: &mut Vm) -> (r: Result<Step, Trap>)
        ensures
            performed(r, final(vm)@, final(self)@, main_loop(p, old(vm)@, old(self)@)),
    {
        if self.pending.is_some() {
            return Err(Trap::Fault);
        }
        self.begin(p, vm)?;
        let mut n: usize = self.unit_left;
        while n > 0
            invariant
                main_loop(p, old(vm)@, old(self)@) == run_unit(p, vm@, self@, n as nat),
            decreases n,
        {
            n = n - 1;
            match self.step(p, vm)? {
                Step::Next => {},
                s => {
                    self.unit_left = n;
                    return Ok(s);
                },
            }
        }
        self.panic = None;
        self.unit_left = YIELD_UNIT;
        Ok(Step::Yield)
    }
}

/// A program before its first instruction: a new stack, and the frame of the
/// function that it begins with.
pub open spec fn started(p: &Bytecode, w: VmView, context: Context) -> Option<(VmView, FiberView)> {
    match gos_from_func(p, w, p.entry, None) {
        Ok((w1, _)) => Some(
            (
                VmView { stacks: w1.stacks.push(fresh_stack(seq![])), ..w1 },
                new_fiber(context, w1.stacks.len() as usize, CallFrame::started(p.entry, 0)),
            ),
        ),
        Err(e) => None,
    }
}

/// Makes the first fiber of a program.
pub fn start(p: &Bytecode, vm: &mut Vm, async_enabled: bool) -> (r: Result<Fiber, Trap>)
    ensures
        match started(p, old(vm)@, (Context { async_enabled, next_id: 0 })) {
            Some((w, f)) => r is Ok && r->Ok_0@ == f && final(vm)@ == w,
            None => r == Err::<Fiber, Trap>(Trap::Fault),
        },
{
    let ctx = Context::new(async_enabled);
    let entry = ctx.new_entry_frame(p, vm, p.entry)?;
    let none: Vec<Value> = Vec::new();
    assert(none@ =~= seq![]);
    Ok(ctx.spawn_fiber(vm, &none, entry))
}

impl Vm {
    /// Takes the panic that the last fiber to finish left behind.
    pub fn take_panic(&mut self) -> (r: Option<PanicData>)
        ensures
            panic_view(r) == old(self)@.panic_data,
            final(self)@ == (VmView { panic_data: None, ..old(self)@ }),
    {
        self.panic_data.take()
    }
}

} // verus!

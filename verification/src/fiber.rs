//! Fibers: what runs the functions of a program.
use vstd::prelude::*;
use crate::bytecode::Bytecode;
use crate::content::new_text;
use crate::effect::{Ask, Pending};
use crate::frame::{CallFrame, FrameView};
use crate::machine::{Vm, VmView};
use crate::ops_type::boxed;
use crate::panic::{PanicData, PanicView};
use crate::range::RangeIter;
use crate::trap::Trap;
use crate::value::{FunctionKey, OpIndex, Value, ValueType};

verus! {

/// How many instructions a fiber runs before others get their turn.
pub const YIELD_UNIT: usize = 1024;

/// What a fiber hands on to the fibers that it spawns: whether there is a
/// scheduler for them, and the number that the next one gets.
#[derive(Clone, Copy, PartialEq, Eq, Structural, Debug)]
pub struct Context {
    pub async_enabled: bool,
    pub next_id: usize,
}

/// One of the communications that a select chooses from: to send a value, or to
/// receive one (and what of it to put into which slot).
#[derive(Clone, Copy, PartialEq, Eq, Structural, Debug)]
pub enum SelectCommType {
    Send(Value),
    Recv(ValueType, OpIndex),
}

/// A communication with its channel, and how far away the code is that follows
/// it.
#[derive(Clone, Copy, PartialEq, Eq, Structural, Debug)]
pub struct SelectComm {
    pub typ: SelectCommType,
    pub chan: Value,
    pub offset: OpIndex,
}

/// A line of execution: its stack, the walks it is on, the frames of its calls,
/// the panic on its way through them, and what it waits for.
pub struct Fiber {
    pub stack: usize,
    pub rstack: Vec<RangeIter>,
    pub frames: Vec<CallFrame>,
    pub context: Context,
    pub id: usize,
    pub panic: Option<PanicData>,
    pub started: bool,
    pub unit_left: usize,
    pub total_inst: u64,
    pub pending: Option<Pending>,
    /// What a select chooses from.
    pub comms: Vec<SelectComm>,
    /// The arguments of a call to the host.
    pub args: Vec<Value>,
}

/// What a fiber holds.
pub struct FiberView {
    pub stack: usize,
    pub rstack: Seq<RangeIter>,
    pub frames: Seq<FrameView>,
    pub context: Context,
    pub id: usize,
    pub panic: Option<PanicView>,
    pub started: bool,
    pub unit_left: usize,
    pub total_inst: u64,
    pub pending: Option<Pending>,
    pub comms: Seq<SelectComm>,
    pub args: Seq<Value>,
}

/// What follows an instruction, as the host sees it.
pub enum Step {
    /// Run the next instruction.
    Next,
    /// Let others run.
    Yield,
    /// The fiber is finished.
    End,
    /// Ask the host.
    Ask(Ask),
    /// Run another fiber beside this one.
    Spawn(Fiber),
}

/// What follows an instruction.
pub enum StepView {
    Next,
    Yield,
    End,
    Ask(Ask),
    Spawn(FiberView),
}

/// What a fiber does: the tables and the fiber after it, and what follows; or
/// nothing where the code is broken.
pub type Stepped = Option<(VmView, FiberView, StepView)>;

impl Step {
    /// What follows.
    pub open spec fn view(&self) -> StepView {
        match self {
            Step::Next => StepView::Next,
            Step::Yield => StepView::Yield,
            Step::End => StepView::End,
            Step::Ask(a) => StepView::Ask(*a),
            Step::Spawn(f) => StepView::Spawn(f@),
        }
    }
}

/// The frames of the calls.
pub open spec fn frames_view(v: Seq<CallFrame>) -> Seq<FrameView> {
    Seq::new(v.len(), |i: int| v[i]@)
}

/// The panic on its way.
pub open spec fn panic_view(v: Option<PanicData>) -> Option<PanicView> {
    match v {
        Some(d) => Some(d@),
        None => None,
    }
}

/// That a fiber did what it had to do.
pub open spec fn performed(r: Result<Step, Trap>, w: VmView, f: FiberView, want: Stepped) -> bool {
    match want {
        Some((w1, f1, s)) => r is Ok && r->Ok_0@ == s && w == w1 && f == f1,
        None => r == Err::<Step, Trap>(Trap::Fault),
    }
}

/// Takes every early end as a fault.
pub fn sure<T>(r: Result<T, Trap>) -> (s: Result<T, Trap>)
    ensures
        match r {
            Ok(t) => s == Ok::<T, Trap>(t),
            Err(_) => s == Err::<T, Trap>(Trap::Fault),
        },
{
    match r {
        Ok(t) => Ok(t),
        Err(_) => Err(Trap::Fault),
    }
}

/// A number as a position.
pub open spec fn index_of(n: int) -> Option<OpIndex> {
    if i32::MIN <= n <= i32::MAX {
        Some(n as i32)
    } else {
        None
    }
}

/// Takes a number as a position.
pub fn to_index(n: i64) -> (r: Result<OpIndex, Trap>)
    ensures
        match index_of(n as int) {
            Some(k) => r == Ok::<OpIndex, Trap>(k),
            None => r == Err::<OpIndex, Trap>(Trap::Fault),
        },
{
    if -0x8000_0000 <= n && n <= 0x7fff_ffff {
        Ok(n as i32)
    } else {
        Err(Trap::Fault)
    }
}

/// The position of the last instruction of a function.
pub open spec fn last_pc(p: &Bytecode, func: FunctionKey) -> Option<OpIndex> {
    if func < p.functions@.len() {
        index_of(p.functions@[func as int].code@.len() - 1)
    } else {
        None
    }
}

/// The position of the last instruction of a function.
pub fn get_last_pc(p: &Bytecode, func: FunctionKey) -> (r: Result<OpIndex, Trap>)
    ensures
        match last_pc(p, func) {
            Some(k) => r == Ok::<OpIndex, Trap>(k),
            None => r == Err::<OpIndex, Trap>(Trap::Fault),
        },
{
    if func >= p.functions.len() {
        return Err(Trap::Fault);
    }
    let n: usize = p.functions[func].code.len();
    if n > 0x8000_0000 {
        Err(Trap::Fault)
    } else {
        to_index(n as i64 - 1)
    }
}

impl FiberView {
    /// The frame of the running function.
    pub open spec fn top(self) -> FrameView {
        self.frames.last()
    }

    /// The fiber with another frame for the running function.
    pub open spec fn with_top(self, fr: FrameView) -> FiberView {
        FiberView { frames: self.frames.update(self.frames.len() - 1, fr), ..self }
    }

    /// The fiber at another position.
    pub open spec fn with_pc(self, pc: OpIndex) -> FiberView {
        self.with_top(FrameView { pc, ..self.top() })
    }

    /// The fiber before the call of a function.
    pub open spec fn with_call(self, fr: FrameView) -> FiberView {
        FiberView { frames: self.frames.push(fr), ..self }
    }

    /// The fiber as it waits for an answer.
    pub open spec fn waiting(self, pending: Option<Pending>) -> FiberView {
        FiberView { pending, ..self }
    }
}

/// A fiber before its first instruction.
pub open spec fn new_fiber(context: Context, stack: usize, first_frame: FrameView) -> FiberView {
    FiberView {
        stack,
        rstack: seq![],
        frames: seq![first_frame],
        context: Context { next_id: (context.next_id + 1) as usize, ..context },
        id: context.next_id,
        panic: None,
        started: false,
        unit_left: YIELD_UNIT,
        total_inst: 0,
        pending: None,
        comms: seq![],
        args: seq![],
    }
}

/// A panic starts in the running function: it notes the place, and the function
/// goes to its last instruction.
pub open spec fn raise(p: &Bytecode, w: VmView, f: FiberView, msg: Value) -> Stepped {
    if f.frames.len() == 0 {
        None
    } else {
        match (index_of(f.top().pc - 1), last_pc(p, f.top().func)) {
            (Some(at), Some(end)) => Some(
                (
                    w,
                    FiberView {
                        panic: Some(PanicView { msg, call_stack: seq![(f.top().func, at)] }),
                        ..f.with_pc(end)
                    },
                    StepView::Next,
                ),
            ),
            _ => None,
        }
    }
}

/// A panic starts with a text, which is in an interface.
pub open spec fn raise_text(p: &Bytecode, w: VmView, f: FiberView, text: Seq<char>) -> Stepped {
    let (w1, v) = new_text(w, text);
    let (w2, msg) = boxed(w1, v, None);
    raise(p, w2, f, msg)
}

impl Context {
    /// The context of the first fiber.
    pub fn new(async_enabled: bool) -> (r: Context)
        ensures
            r == (Context { async_enabled, next_id: 0 }),
    {
        Context { async_enabled, next_id: 0 }
    }
}

impl Fiber {
    /// What the fiber holds.
    pub open spec fn view(&self) -> FiberView {
        FiberView {
            stack: self.stack,
            rstack: self.rstack@,
            frames: frames_view(self.frames@),
            context: self.context,
            id: self.id,
            panic: panic_view(self.panic),
            started: self.started,
            unit_left: self.unit_left,
            total_inst: self.total_inst,
            pending: self.pending,
            comms: self.comms@,
            args: self.args@,
        }
    }

    /// A fiber before its first instruction. It takes the next number; the
    /// fibers that it spawns go on counting from there.
    pub fn new(context: Context, stack: usize, first_frame: CallFrame) -> (r: Fiber)
        requires
            context.next_id < usize::MAX,
        ensures
            r@ == new_fiber(context, stack, first_frame@),
    {
        let id: usize = context.next_id;
        let mut frames: Vec<CallFrame> = Vec::new();
        frames.push(first_frame);
        assert(frames_view(frames@) =~= seq![first_frame@]);
        let r = Fiber {
            stack,
            rstack: Vec::new(),
            frames,
            context: Context { async_enabled: context.async_enabled, next_id: id + 1 },
            id,
            panic: None,
            started: false,
            unit_left: YIELD_UNIT,
            total_inst: 0,
            pending: None,
            comms: Vec::new(),
            args: Vec::new(),
        };
        assert(r@.rstack =~= seq![]);
        assert(r@.comms =~= seq![]);
        assert(r@.args =~= seq![]);
        r
    }

    /// The number of the fiber.
    pub fn _id(&self) -> (r: usize)
        ensures
            r == self@.id,
    {
        self.id
    }

    /// The frame of the running function.
    pub fn top(&self) -> (r: &CallFrame)
        requires
            self@.frames.len() > 0,
        ensures
            r@ == self@.top(),
    {
        &self.frames[self.frames.len() - 1]
    }

    /// Goes to another position.
    pub fn set_pc(&mut self, pc: OpIndex)
        requires
            old(self)@.frames.len() > 0,
        ensures
            final(self)@ == old(self)@.with_pc(pc),
    {
        let n: usize = self.frames.len() - 1;
        let fr = &mut self.frames[n];
        fr.pc = pc;
        assert(self@.frames =~= old(self)@.with_pc(pc).frames);
    }

    /// Calls a function.
    pub fn push_frame(&mut self, fr: CallFrame)
        ensures
            final(self)@ == old(self)@.with_call(fr@),
    {
        self.frames.push(fr);
        assert(self@.frames =~= old(self)@.frames.push(fr@));
    }

    /// Starts a panic in the running function.
    pub fn raise(&mut self, p: &Bytecode, vm: &mut Vm, msg: Value) -> (r: Result<Step, Trap>)
        ensures
            performed(r, final(vm)@, final(self)@, raise(p, old(vm)@, old(self)@, msg)),
    {
        if self.frames.len() == 0 {
            return Err(Trap::Fault);
        }
        let func: FunctionKey = self.top().func();
        let at: OpIndex = to_index(self.top().pc as i64 - 1)?;
        let end: OpIndex = get_last_pc(p, func)?;
        let mut data = PanicData::new(msg);
        data.call_stack.push((func, at));
        assert(data.call_stack@ =~= seq![(func, at)]);
        self.panic = Some(data);
        self.set_pc(end);
        Ok(Step::Next)
    }

    /// Starts a panic with a text.
    pub fn raise_text(&mut self, p: &Bytecode, vm: &mut Vm, text: &str) -> (r: Result<Step, Trap>)
        ensures
            performed(r, final(vm)@, final(self)@, raise_text(p, old(vm)@, old(self)@, text@)),
    {
        let v = vm.add_text(text);
        let msg = vm.boxed(v, None);
        self.raise(p, vm, msg)
    }
}

} // verus!

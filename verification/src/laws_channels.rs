//! What communication over channels does.
use vstd::prelude::*;
use crate::bytecode::{Bytecode, Instruction, Opcode};
use crate::content::copy_semantic;
use crate::effect::{Ask, Pending};
use crate::fiber::{FiberView, SelectComm, SelectCommType, StepView};
use crate::frame::FrameView;
use crate::laws_basis::{
    code_of, comes_to, goes_on, has_operand, has_slot, holds, inst_at, is_copy, lemma_copies,
    lemma_operand, lemma_raises, lemma_result, lemma_step, moved, operand, raises, says,
    with_result,
};
use crate::machine::VmView;
use crate::reply::{resume, Reply};
use crate::run::{context_of, select_comms, step};
use crate::value::{OpIndex, Value, ValueType};

verus! {

/// Whether a fiber asks the host for something and waits for the answer, and nothing
/// else changes.
pub open spec fn asks(p: &Bytecode, w: VmView, f: FiberView, a: Ask) -> bool {
    step(p, w, f) matches Some((w1, f1, s)) && w1 == w && s == StepView::Ask(a) && goes_on(
        f,
        (FiberView { pending: f.pending, ..f1 }),
        1,
    )
}

/// The fiber that waits.
pub open spec fn asking(p: &Bytecode, w: VmView, f: FiberView) -> FiberView {
    step(p, w, f)->Some_0.1
}

/// A value that is sent goes to the channel as it is, and the fiber waits. Once it is
/// sent, the fiber goes on; where that fails, it panics with what the host says.
pub proof fn law_send(p: &Bytecode, w: VmView, f: FiberView, chan: usize, v: Value, m: String)
    requires
        comes_to(p, f, Opcode::SEND, 0),
        f.context.async_enabled,
        f.pending is None,
        holds(p, w, f, inst_at(p, f).s0, Value::Channel(chan)),
        holds(p, w, f, inst_at(p, f).s1, v),
    ensures
        asks(p, w, f, Ask::Send { chan, val: v }),
        resume(p, w, asking(p, w, f), Reply::Sent) matches Some((w1, f1, s)) && w1 == w && s
            == StepView::Next && goes_on(f, f1, 1),
        resume(p, w, asking(p, w, f), Reply::Failed(m)) matches Some((w1, f1, s)) && s
            == StepView::Next && says(p, w, f, 1, m@, w1, f1),
{
    lemma_operand(p, w, f, inst_at(p, f).s0);
    lemma_operand(p, w, f, inst_at(p, f).s1);
    lemma_step(p, w, f);
    lemma_raises(p, w, f, 1, m@);
    assert(asking(p, w, f).waiting(None) == moved(f, 1));
}

/// A nil channel never sends and never receives: the fiber waits forever.
pub proof fn law_nil_channel_blocks(p: &Bytecode, w: VmView, f: FiberView, t: ValueType, r: Reply)
    requires
        comes_to(p, f, inst_at(p, f).op0, 0),
        inst_at(p, f).op0 == Opcode::SEND || inst_at(p, f).op0 == Opcode::RECV,
        f.context.async_enabled,
        holds(p, w, f, inst_at(p, f).s0, Value::Nil(t)),
        inst_at(p, f).op0 == Opcode::SEND ==> has_operand(p, w, f, inst_at(p, f).s1),
    ensures
        asks(p, w, f, Ask::Block),
        resume(p, w, asking(p, w, f), r) is None,
{
    lemma_operand(p, w, f, inst_at(p, f).s0);
    if inst_at(p, f).op0 == Opcode::SEND {
        lemma_operand(p, w, f, inst_at(p, f).s1);
    }
    lemma_step(p, w, f);
}

/// Whether the value that was received, and whether there was one, went into their
/// slots.
pub open spec fn keeps(
    w: VmView,
    w1: VmView,
    f: FiberView,
    d: int,
    v: Value,
    second: Option<int>,
    ok: bool,
) -> bool {
    w1 == match second {
        Some(e) => with_result(with_result(w, f, d, v), f, e, Value::Bool(ok)),
        None => with_result(w, f, d, v),
    }
}

/// A fiber that receives waits for the channel. What it gets goes into the result slot;
/// from a closed channel it gets a copy of the zero value of the channel. If asked for,
/// it also notes which of the two it was.
pub proof fn law_receive(p: &Bytecode, w: VmView, f: FiberView, chan: usize, v: Option<Value>)
    requires
        comes_to(p, f, Opcode::RECV, 0),
        f.context.async_enabled,
        f.pending is None,
        holds(p, w, f, inst_at(p, f).s0, Value::Channel(chan)),
        has_slot(w, f, inst_at(p, f).d as int),
        has_slot(w, f, inst_at(p, f).s1 as int),
        chan < w.chans.len(),
        v is None ==> copy_semantic(w, w.chans[chan as int].recv_zero) is Ok,
    ensures
        asks(p, w, f, Ask::Recv { chan }),
        resume(p, w, asking(p, w, f), Reply::Received(v)) matches Some((w1, f1, s)) && {
            let inst = inst_at(p, f);
            let second = if inst.t1 == ValueType::FlagB {
                Some(inst.s1 as int)
            } else {
                None
            };
            &&& s == StepView::Next
            &&& goes_on(f, f1, 1)
            &&& v matches Some(x) ==> keeps(w, w1, f, inst.d as int, x, second, true)
            &&& v is None ==> exists|y: VmView, z: Value| #[trigger]
                is_copy(w, y, w.chans[chan as int].recv_zero, z) && keeps(
                    y,
                    w1,
                    f,
                    inst.d as int,
                    z,
                    second,
                    false,
                )
        },
{
    let inst = inst_at(p, f);
    lemma_operand(p, w, f, inst.s0);
    lemma_step(p, w, f);
    let g = asking(p, w, f);
    assert(g.waiting(None) == moved(f, 1));
    assert(context_of(g.waiting(None)) == context_of(f));
    let (y, x, ok) = match v {
        Some(x) => (w, x, true),
        None => {
            lemma_copies(w, w.chans[chan as int].recv_zero);
            let (y, x) = copy_semantic(w, w.chans[chan as int].recv_zero)->Ok_0;
            (y, x, false)
        },
    };
    lemma_result(y, f, inst.d, x);
    lemma_result(with_result(y, f, inst.d as int, x), f, inst.s1, Value::Bool(ok));
    if v is None {
        assert(is_copy(w, y, w.chans[chan as int].recv_zero, x));
    }
}

/// A channel is closed by the host; a nil channel is left alone.
pub proof fn law_close(p: &Bytecode, w: VmView, f: FiberView, v: Value)
    requires
        comes_to(p, f, Opcode::CLOSE, 0),
        f.context.async_enabled,
        f.pending is None,
        holds(p, w, f, inst_at(p, f).s0, v),
        v is Channel || v is Nil,
    ensures
        step(p, w, f) matches Some((w1, f1, s)) && w1 == w && goes_on(f, f1, 1) && s == match v {
            Value::Channel(chan) => StepView::Ask(Ask::Close { chan }),
            _ => StepView::Next,
        },
{
    lemma_operand(p, w, f, inst_at(p, f).s0);
    lemma_step(p, w, f);
    assert(moved(f, 1).waiting(None) == moved(f, 1));
}

/// Without a scheduler, communication is refused.
pub proof fn law_communication_needs_scheduler(p: &Bytecode, w: VmView, f: FiberView)
    requires
        ({
            let op = inst_at(p, f).op0;
            &&& comes_to(p, f, op, 0)
            &&& op == Opcode::SEND || op == Opcode::RECV || op == Opcode::CLOSE || op
                == Opcode::SELECT
        }),
        !f.context.async_enabled,
    ensures
        raises(p, w, f, "Async features disabled"@),
{
    lemma_step(p, w, f);
    lemma_raises(p, w, f, 1, "Async features disabled"@);
}

/// When a fiber that waits in a select goes on with a receive, what came from the
/// channel is in the slot that the communication names, and, if asked for, the slot
/// behind it says that something came. From a closed channel comes a copy of the zero
/// value of the channel. The fiber goes to the code of the communication, and nothing
/// else changes.
pub proof fn law_select_receives(
    p: &Bytecode,
    w: VmView,
    f: FiberView,
    default_offset: Option<OpIndex>,
    i: usize,
    flag: ValueType,
    d: OpIndex,
    chan: usize,
    v: Option<Value>,
)
    requires
        f.frames.len() > 0,
        f.pending == Some(Pending::Select { default_offset }),
        i < f.comms.len(),
        f.comms[i as int].typ == SelectCommType::Recv(flag, d),
        f.comms[i as int].chan == Value::Channel(chan),
        i32::MIN <= f.frames.last().pc + f.comms[i as int].offset <= i32::MAX,
        flag == ValueType::FlagC || flag == ValueType::FlagD ==> has_slot(w, f, d as int),
        flag == ValueType::FlagD ==> has_slot(w, f, d + 1) && d < i32::MAX,
        chan < w.chans.len(),
        v is None ==> copy_semantic(w, w.chans[chan as int].recv_zero) is Ok,
    ensures
        resume(p, w, f, Reply::Selected(i, v)) matches Some((w1, f1, s)) && {
            &&& s == StepView::Next
            &&& f1 == (FiberView {
                pending: None,
                frames: f.frames.update(
                    f.frames.len() - 1,
                    FrameView {
                        pc: (f.frames.last().pc + f.comms[i as int].offset) as i32,
                        ..f.frames.last()
                    },
                ),
                ..f
            })
            &&& exists|y: VmView, x: Value|
                #![trigger selected(w, y, chan, v, x)]
                selected(w, y, chan, v, x) && match flag {
                    ValueType::FlagC => keeps(y, w1, f, d as int, x, None, v is Some),
                    ValueType::FlagD => keeps(y, w1, f, d as int, x, Some(d + 1), v is Some),
                    _ => w1 == y,
                }
        },
{
    let (y, x) = match v {
        Some(x) => (w, x),
        None => {
            lemma_copies(w, w.chans[chan as int].recv_zero);
            copy_semantic(w, w.chans[chan as int].recv_zero)->Ok_0
        },
    };
    assert(selected(w, y, chan, v, x));
    let g = f.waiting(None);
    assert(context_of(g) == context_of(f));
    if flag == ValueType::FlagC || flag == ValueType::FlagD {
        lemma_result(y, f, d, x);
        if flag == ValueType::FlagD {
            lemma_result(
                with_result(y, f, d as int, x),
                f,
                (d + 1) as OpIndex,
                Value::Bool(v is Some),
            );
        }
    }
}

/// What a communication gives: what came from the channel, or a copy of the zero value
/// of the channel.
pub open spec fn selected(w: VmView, y: VmView, chan: usize, v: Option<Value>, x: Value) -> bool {
    match v {
        Some(u) => y == w && x == u,
        None => is_copy(w, y, w.chans[chan as int].recv_zero, x),
    }
}

/// When a fiber that waits in a select goes on with a send, or with the default, it goes
/// to the code of it, and nothing else changes. A number behind the last communication
/// stands for the default. Where that fails, the fiber panics with what the host says.
pub proof fn law_select_goes_to(
    p: &Bytecode,
    w: VmView,
    f: FiberView,
    default_offset: Option<OpIndex>,
    i: usize,
    v: Option<Value>,
    to: OpIndex,
)
    requires
        f.frames.len() > 0,
        f.pending == Some(Pending::Select { default_offset }),
        if i < f.comms.len() {
            f.comms[i as int].typ is Send && f.comms[i as int].offset == to
        } else {
            default_offset == Some(to)
        },
        i32::MIN <= f.frames.last().pc + to <= i32::MAX,
    ensures
        resume(p, w, f, Reply::Selected(i, v)) == Some(
            (
                w,
                FiberView {
                    pending: None,
                    frames: f.frames.update(
                        f.frames.len() - 1,
                        FrameView { pc: (f.frames.last().pc + to) as i32, ..f.frames.last() },
                    ),
                    ..f
                },
                StepView::Next,
            ),
        ),
{
}

/// Whether a communication is what a word of code says: its channel, where to go on,
/// and either the value to send or where to put what is received. A value to send is
/// copied.
pub open spec fn listed(p: &Bytecode, w: VmView, f: FiberView, entry: Instruction, comm: SelectComm) -> bool {
    &&& has_operand(p, w, f, entry.s0)
    &&& comm.chan == operand(p, w, f, entry.s0)
    &&& comm.offset == entry.d
    &&& if entry.t0 == ValueType::FlagA {
        &&& has_operand(p, w, f, entry.s1)
        &&& comm.typ matches SelectCommType::Send(x) && {
            let v = operand(p, w, f, entry.s1);
            !(v is Array) && !(v is Struct) ==> x == v
        }
    } else {
        comm.typ == SelectCommType::Recv(entry.t0, entry.s1)
    }
}

/// Whether communications are those that words of code describe, from the word `at` on.
pub open spec fn all_listed(
    p: &Bytecode,
    w: VmView,
    f: FiberView,
    code: Seq<Instruction>,
    at: int,
    comms: Seq<SelectComm>,
) -> bool {
    forall|j: int| 0 <= j < comms.len() ==> listed(p, w, f, code[at + j], #[trigger] comms[j])
}

proof fn lemma_lists(
    p: &Bytecode,
    w: VmView,
    x: VmView,
    f: FiberView,
    code: Seq<Instruction>,
    pc: int,
    count: int,
    i: int,
    comms: Seq<SelectComm>,
)
    requires
        0 <= i <= count,
        comms.len() == i,
        f.frames.len() > 0,
        x == (VmView { cells: x.cells, ..w }),
        all_listed(p, w, f, code, pc, comms),
    ensures
        select_comms(p, x, context_of(f), code, pc, count, i, comms) matches Some((y, all)) ==> {
            &&& y == (VmView { cells: y.cells, ..w })
            &&& all.len() == count
            &&& all_listed(p, w, f, code, pc, all)
        },
    decreases count - i,
{
    let c = context_of(f);
    match select_comms(p, x, c, code, pc, count, i, comms) {
        Some(_) => if i < count {
            let entry = code[pc + i];
            let chan = x.read(c, p.consts@, entry.s0)->Ok_0;
            assert(w.read(c, p.consts@, entry.s0) == x.read(c, p.consts@, entry.s0));
            assert(has_operand(p, w, f, entry.s0));
            lemma_operand(p, w, f, entry.s0);
            if entry.t0 == ValueType::FlagA {
                assert(w.read(c, p.consts@, entry.s1) == x.read(c, p.consts@, entry.s1));
                assert(has_operand(p, w, f, entry.s1));
                lemma_operand(p, w, f, entry.s1);
                let v = operand(p, w, f, entry.s1);
                lemma_copies(x, v);
                let (y, u) = copy_semantic(x, v)->Ok_0;
                let comm = SelectComm {
                    typ: SelectCommType::Send(u),
                    chan,
                    offset: entry.d,
                };
                assert(listed(p, w, f, entry, comm));
                lemma_lists(p, w, y, f, code, pc, count, i + 1, comms.push(comm));
            } else {
                let comm = SelectComm {
                    typ: SelectCommType::Recv(entry.t0, entry.s1),
                    chan,
                    offset: entry.d,
                };
                assert(listed(p, w, f, entry, comm));
                lemma_lists(p, w, x, f, code, pc, count, i + 1, comms.push(comm));
            }
        },
        None => {},
    }
}

/// A select lists the communications that the words of code behind it describe, in their
/// order, and waits until the host has done one of them. It will then go on behind those
/// words.
pub proof fn law_select_lists(p: &Bytecode, w: VmView, f: FiberView)
    requires
        comes_to(p, f, Opcode::SELECT, 0),
        f.context.async_enabled,
        f.pending is None,
    ensures
        step(p, w, f) matches Some((w1, f1, s)) ==> {
            let inst = inst_at(p, f);
            let at = f.frames.last().pc + 1;
            &&& inst.s0 >= 0
            &&& w1 == (VmView { cells: w1.cells, ..w })
            &&& s == StepView::Ask(Ask::Select { has_default: inst.t0 == ValueType::FlagE })
            &&& f1.comms.len() == inst.s0
            &&& all_listed(p, w, f, code_of(p, f), at, f1.comms)
            &&& f1.pending == Some(
                Pending::Select {
                    default_offset: if inst.t0 == ValueType::FlagE {
                        Some(inst.d)
                    } else {
                        None
                    },
                },
            )
            &&& goes_on(f, (FiberView { comms: f.comms, pending: None, ..f1 }), 1 + inst.s0)
        },
{
    let inst = inst_at(p, f);
    lemma_step(p, w, f);
    let g = moved(f, 1);
    assert(g.with_pc((f.frames.last().pc + 1 + inst.s0) as i32).frames =~= moved(
        f,
        1 + inst.s0,
    ).frames);
    if inst.s0 >= 0 {
        lemma_lists(
            p,
            w,
            w,
            f,
            code_of(p, f),
            f.frames.last().pc + 1,
            inst.s0 as int,
            0,
            seq![],
        );
    }
}

} // verus!

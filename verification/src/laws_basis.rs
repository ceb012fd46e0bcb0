//! The words in which the laws on instructions are stated: what a fiber comes to,
//! its operands and its result slot.
use vstd::prelude::*;
use vstd::utf8::encode_utf8;
use crate::bytecode::{Bytecode, Instruction, Opcode};
use crate::content::{
    byte_values, bytes_of, copy_semantic, depth, is_byte, lemma_copy_no_panic, new_str, new_text,
    slice_seq, str_bytes,
};
use crate::effect::Effect;
use crate::fiber::{index_of, raise_text, FiberView, StepView};
use crate::frame::FrameView;
use crate::laws_memory::{law_copy_is_separate, mirrors};
use crate::machine::VmView;
use crate::run::{context_of, counted, data_inst, fiber_inst, finish, group, step, two_words, Group};
use crate::trap::Trap;
use crate::value::{IntKind, InterfaceObj, OpIndex, SliceRef, Value};

verus! {

/// The code of the running function.
pub open spec fn code_of(p: &Bytecode, f: FiberView) -> Seq<Instruction> {
    p.functions@[f.frames.last().func as int].code@
}

/// The instruction that a fiber comes to.
pub open spec fn inst_at(p: &Bytecode, f: FiberView) -> Instruction {
    code_of(p, f)[f.frames.last().pc as int]
}

/// The word behind that instruction.
pub open spec fn word_after(p: &Bytecode, f: FiberView) -> Instruction {
    code_of(p, f)[f.frames.last().pc + 1]
}

/// Whether a fiber comes to an instruction with the operation, with at least `n`
/// more words of code behind it.
pub open spec fn comes_to(p: &Bytecode, f: FiberView, op: Opcode, n: int) -> bool {
    &&& f.frames.len() > 0
    &&& f.frames.last().func < p.functions@.len()
    &&& 0 <= f.frames.last().pc
    &&& f.frames.last().pc + n < code_of(p, f).len() < i32::MAX
    &&& inst_at(p, f).op0 == op
}

/// Whether the running function has slot `d`.
pub open spec fn has_slot(w: VmView, f: FiberView, d: int) -> bool {
    &&& f.stack < w.stacks.len()
    &&& 0 <= f.frames.last().stack_base + d < w.stacks[f.stack as int].len()
    &&& f.frames.last().stack_base + d <= i32::MAX
}

/// Slot `d` of the running function.
pub open spec fn slot_of(w: VmView, f: FiberView, d: int) -> Value {
    w.stacks[f.stack as int][f.frames.last().stack_base + d]
}

/// The tables with another value in slot `d` of the running function, and nothing
/// else changed.
pub open spec fn with_result(w: VmView, f: FiberView, d: int, v: Value) -> VmView {
    VmView {
        stacks: w.stacks.update(
            f.stack as int,
            w.stacks[f.stack as int].update(f.frames.last().stack_base + d, v),
        ),
        ..w
    }
}

/// Whether there is an operand: a number from zero on is a slot, a negative one a
/// constant.
pub open spec fn has_operand(p: &Bytecode, w: VmView, f: FiberView, i: OpIndex) -> bool {
    if i >= 0 {
        has_slot(w, f, i as int)
    } else {
        -1 - i < p.consts@.len()
    }
}

/// An operand.
pub open spec fn operand(p: &Bytecode, w: VmView, f: FiberView, i: OpIndex) -> Value {
    if i >= 0 {
        slot_of(w, f, i as int)
    } else {
        p.consts@[-1 - i]
    }
}

/// Whether the operand is there and is the value.
pub open spec fn holds(p: &Bytecode, w: VmView, f: FiberView, i: OpIndex, v: Value) -> bool {
    has_operand(p, w, f, i) && operand(p, w, f, i) == v
}

/// Whether a fiber only went on, by `n` words of code.
pub open spec fn goes_on(f: FiberView, f1: FiberView, n: int) -> bool {
    f1 == (FiberView {
        frames: f.frames.update(
            f.frames.len() - 1,
            FrameView { pc: (f.frames.last().pc + n) as i32, ..f.frames.last() },
        ),
        total_inst: f1.total_inst,
        ..f
    })
}

/// Whether `x` is a copy of what `v` was, made beside what there was.
#[verifier::opaque]
pub open spec fn is_copy(w: VmView, w1: VmView, v: Value, x: Value) -> bool {
    &&& w.cells.len() <= w1.cells.len()
    &&& forall|i: int| 0 <= i < w.cells.len() ==> #[trigger] w1.cells[i] == w.cells[i]
    &&& w1 == (VmView { cells: w1.cells, ..w })
    &&& w1.cells.len() <= usize::MAX ==> mirrors(
        w1.cells,
        v,
        x,
        w.cells.len() as int,
        w.cells.len() + 1,
    )
}

/// What a copy is.
pub proof fn lemma_copies(w: VmView, v: Value)
    ensures
        copy_semantic(w, v) matches Ok((w1, x)) ==> is_copy(w, w1, v, x) && w1 == (VmView {
            cells: w1.cells,
            ..w
        }) && w.cells.len() <= w1.cells.len(),
        copy_semantic(w, v) matches Err(e) ==> e == Trap::Fault,
        !(v is Array) && !(v is Struct) ==> copy_semantic(w, v) == Ok::<(VmView, Value), Trap>(
            (w, v),
        ),
{
    reveal(is_copy);
    lemma_copy_no_panic(w.cells, v, depth(w.cells));
    law_copy_is_separate(w, v);
    match copy_semantic(w, v) {
        Ok((w1, _)) => {
            assert forall|i: int| 0 <= i < w.cells.len() implies #[trigger] w1.cells[i]
                == w.cells[i] by {
                assert(w1.cells.subrange(0, w.cells.len() as int)[i] == w.cells[i]);
            }
        },
        Err(_) => {},
    }
}

/// Operands are read from slots and constants.
pub proof fn lemma_operand(p: &Bytecode, w: VmView, f: FiberView, i: OpIndex)
    requires
        has_operand(p, w, f, i),
    ensures
        w.read(context_of(f), p.consts@, i) == Ok::<Value, Trap>(operand(p, w, f, i)),
{
}

/// Results go into slots.
pub proof fn lemma_result(w: VmView, f: FiberView, d: OpIndex, v: Value)
    requires
        has_slot(w, f, d as int),
    ensures
        w.write(context_of(f), d, v) == Ok::<VmView, Trap>(with_result(w, f, d as int, v)),
{
}

/// A fiber that went on by some words of code.
pub open spec fn moved(f: FiberView, n: int) -> FiberView {
    FiberView {
        frames: f.frames.update(
            f.frames.len() - 1,
            FrameView { pc: (f.frames.last().pc + n) as i32, ..f.frames.last() },
        ),
        total_inst: counted(f.total_inst),
        ..f
    }
}

/// How many words an instruction takes.
pub open spec fn words(op: Opcode) -> int {
    if two_words(op) {
        2
    } else {
        1
    }
}

/// What a fiber does with an instruction.
pub proof fn lemma_step(p: &Bytecode, w: VmView, f: FiberView)
    requires
        comes_to(p, f, inst_at(p, f).op0, words(inst_at(p, f).op0) - 1),
    ensures
        ({
            let inst = inst_at(p, f);
            let next = if f.frames.last().pc + 1 < code_of(p, f).len() {
                Some(word_after(p, f))
            } else {
                None
            };
            let g = moved(f, words(inst.op0));
            step(p, w, f) == if group(inst.op0) == Group::Fiber {
                fiber_inst(p, w, g, context_of(f), inst, code_of(p, f))
            } else {
                finish(
                    p,
                    w,
                    g,
                    data_inst(p, w, context_of(f), inst, next, f.context.async_enabled),
                )
            }
        }),
{
    let k = words(inst_at(p, f).op0);
    assert(index_of(f.top().pc + k) == Some((f.top().pc + k) as i32));
}

/// A calculation that succeeds.
pub proof fn lemma_goes_on(p: &Bytecode, w: VmView, f: FiberView, w1: VmView)
    requires
        comes_to(p, f, inst_at(p, f).op0, words(inst_at(p, f).op0) - 1),
        group(inst_at(p, f).op0) != Group::Fiber,
        ({
            let next = if f.frames.last().pc + 1 < code_of(p, f).len() {
                Some(word_after(p, f))
            } else {
                None
            };
            data_inst(p, w, context_of(f), inst_at(p, f), next, f.context.async_enabled) == Ok::<
                (VmView, Effect),
                Trap,
            >((w1, Effect::Next(0)))
        }),
    ensures
        step(p, w, f) matches Some((x, f1, s)) && {
            &&& x == w1
            &&& s == StepView::Next
            &&& goes_on(f, f1, words(inst_at(p, f).op0))
        },
{
    lemma_step(p, w, f);
    let g = moved(f, words(inst_at(p, f).op0));
    assert(index_of(g.top().pc + 0) == Some(g.top().pc));
    assert(g.with_pc(g.top().pc).frames =~= g.frames);
}

/// A calculation that fails.
pub proof fn lemma_stops(p: &Bytecode, w: VmView, f: FiberView)
    requires
        comes_to(p, f, inst_at(p, f).op0, words(inst_at(p, f).op0) - 1),
        group(inst_at(p, f).op0) != Group::Fiber,
        ({
            let next = if f.frames.last().pc + 1 < code_of(p, f).len() {
                Some(word_after(p, f))
            } else {
                None
            };
            data_inst(p, w, context_of(f), inst_at(p, f), next, f.context.async_enabled) == Err::<
                (VmView, Effect),
                Trap,
            >(Trap::Fault)
        }),
    ensures
        step(p, w, f) is None,
{
    lemma_step(p, w, f);
}

/// Whether a string has the bytes.
pub open spec fn spells(cells: Seq<Value>, s: SliceRef, b: Seq<u8>) -> bool {
    &&& s.begin <= s.end <= s.array.len
    &&& s.array.base + s.array.len <= cells.len()
    &&& s.end - s.begin == b.len()
    &&& forall|i: int|
        0 <= i < b.len() ==> cells[s.array.base + s.begin + i] == Value::Int(
            IntKind::Uint8,
            #[trigger] b[i] as i128,
        )
}

/// The bytes of a string are those in its cells.
pub proof fn lemma_spells(cells: Seq<Value>, s: SliceRef, b: Seq<u8>)
    ensures
        spells(cells, s, b) <==> str_bytes(cells, s) == Ok::<Seq<u8>, Trap>(b),
{
    if spells(cells, s, b) {
        let vals = slice_seq(cells, s)->Ok_0;
        assert forall|i: int| 0 <= i < vals.len() implies is_byte(#[trigger] vals[i]) by {
            assert(vals[i] == Value::Int(IntKind::Uint8, b[i] as i128));
        }
        assert(bytes_of(vals) =~= b);
    }
    if str_bytes(cells, s) == Ok::<Seq<u8>, Trap>(b) {
        let vals = slice_seq(cells, s)->Ok_0;
        assert forall|i: int| 0 <= i < b.len() implies cells[s.array.base + s.begin + i]
            == Value::Int(IntKind::Uint8, #[trigger] b[i] as i128) by {
            assert(is_byte(vals[i]));
            assert(bytes_of(vals)[i] == b[i]);
        }
    }
}

/// A new string has its bytes.
pub proof fn lemma_new_str_spells(w: VmView, b: Seq<u8>)
    requires
        w.cells.len() + b.len() <= usize::MAX,
    ensures
        new_str(w, b).1 matches Value::Str(s) && spells(new_str(w, b).0.cells, s, b),
        new_str(w, b).0 == (VmView { cells: w.cells + byte_values(b), ..w }),
{
    let s = new_str(w, b).1->Str_0;
    let cells = new_str(w, b).0.cells;
    assert forall|i: int| 0 <= i < b.len() implies cells[s.array.base + s.begin + i]
        == Value::Int(IntKind::Uint8, #[trigger] b[i] as i128) by {
        assert(byte_values(b)[i] == Value::Int(IntKind::Uint8, b[i] as i128));
    }
}

/// Whether an instruction started a panic with a text, and did nothing else: what the
/// panic says is an interface value over the text, it notes the instruction, and the
/// running function goes to its last instruction.
pub open spec fn raises(p: &Bytecode, w: VmView, f: FiberView, text: Seq<char>) -> bool {
    step(p, w, f) matches Some((w1, f1, s)) && {
        &&& s == StepView::Next
        &&& says(p, w, f, words(inst_at(p, f).op0), text, w1, f1)
    }
}

/// Whether a panic with a text has been started by an instruction of `n` words.
pub open spec fn says(
    p: &Bytecode,
    w: VmView,
    f: FiberView,
    n: int,
    text: Seq<char>,
    w1: VmView,
    f1: FiberView,
) -> bool {
    &&& w.cells.len() < w1.cells.len()
    &&& w1 == (VmView { cells: w1.cells, ..w })
    &&& forall|i: int| 0 <= i < w.cells.len() ==> #[trigger] w1.cells[i] == w.cells[i]
    &&& f1.panic matches Some(d) && {
        &&& d.call_stack == seq![(f.frames.last().func, (f.frames.last().pc + n - 1) as i32)]
        &&& w1.cells.len() <= usize::MAX ==> (d.msg matches Value::Interface(
            InterfaceObj::Gos { under, binding },
        ) && binding is None && under < w1.cells.len() && (
        w1.cells[under as int] matches Value::Str(t) && spells(w1.cells, t, encode_utf8(text))))
    }
    &&& f1.frames.len() == f.frames.len()
    &&& f1.frames.drop_last() == f.frames.drop_last()
    &&& f1.frames.last() == (FrameView {
        pc: (code_of(p, f).len() - 1) as i32,
        ..f.frames.last()
    })
    &&& f1 == (FiberView {
        panic: f1.panic,
        frames: f1.frames,
        total_inst: f1.total_inst,
        ..f
    })
}

/// How a panic starts.
pub proof fn lemma_raises(p: &Bytecode, w: VmView, f: FiberView, n: int, text: Seq<char>)
    requires
        comes_to(p, f, inst_at(p, f).op0, n - 1),
        n == 1 || n == 2,
    ensures
        raise_text(p, w, moved(f, n), text) matches Some((w1, f1, s)) && s == StepView::Next
            && says(p, w, f, n, text, w1, f1),
{
    let g = moved(f, n);
    let b = encode_utf8(text);
    let (x, v) = new_text(w, text);
    assert(index_of(g.top().pc - 1) == Some((f.frames.last().pc + n - 1) as i32));
    let (w1, f1, _) = raise_text(p, w, g, text)->Some_0;
    assert(f1.frames.drop_last() =~= f.frames.drop_last());
    if w1.cells.len() <= usize::MAX {
        lemma_new_str_spells(w, b);
        assert forall|i: int| 0 <= i < x.cells.len() implies w1.cells[i] == x.cells[i] by {}
    }
}

} // verus!

//! How programs and fibers start, and how fibers take turns.
use vstd::prelude::*;
use vstd::utf8::encode_utf8;
use crate::bytecode::Bytecode;
use crate::closure::gos_from_func;
use crate::content::new_text;
use crate::fiber::{raise_text, Context, FiberView, StepView};
use crate::frame::FrameView;
use crate::laws_basis::{code_of, lemma_new_str_spells, says};
use crate::laws_literals::lemma_keeps;
use crate::machine::VmView;
use crate::reply::{resume, Reply};
use crate::run::{begin, main_loop, run_unit, started, step};
use crate::value::void;

verus! {

/// A program starts with a fiber that is about to run the first instruction of the
/// function that it begins with, on a new stack of its own that holds nothing.
pub proof fn law_program_starts(p: &Bytecode, w: VmView, context: Context)
    requires
        p.entry < p.functions@.len(),
        context.next_id < usize::MAX,
    ensures
        started(p, w, context) matches Some((w1, f)) && {
            &&& f.frames == seq![
                FrameView {
                    func: p.entry,
                    pc: 0,
                    stack_base: 0,
                    var_ptrs: None,
                    referred_by: None,
                    defer_stack: None,
                },
            ]
            &&& f.id == context.next_id
            &&& f.context == (Context { next_id: (context.next_id + 1) as usize, ..context })
            &&& f.panic is None && f.pending is None && !f.started
            &&& f.rstack.len() == 0 && f.comms.len() == 0 && f.args.len() == 0
            &&& f.unit_left == 1024 && f.total_inst == 0
            &&& f.stack == w.stacks.len() as usize
            &&& w1.stacks.len() == w.stacks.len() + 1
            &&& w1.stacks.drop_last() == w.stacks
            &&& forall|i: int|
                0 <= i < w1.stacks.last().len() ==> #[trigger] w1.stacks.last()[i] == void()
            &&& w1.closures == w.closures && w1.chans == w.chans && w1.maps == w.maps
            &&& w1.inited == w.inited && w1.panic_data == w.panic_data
        },
{
    lemma_keeps(p, w, p.entry);
    lemma_rest_kept(p, w);
    let (w1, f) = started(p, w, context)->Some_0;
    assert(w1.stacks.drop_last() =~= w.stacks);
}

proof fn lemma_rest_kept(p: &Bytecode, w: VmView)
    ensures
        gos_from_func(p, w, p.entry, None) matches Ok((x, _)) ==> x.chans == w.chans && x.maps
            == w.maps && x.inited == w.inited && x.panic_data == w.panic_data,
{
    if p.entry < p.functions@.len() {
        crate::laws_literals::lemma_uvs_keep(
            w,
            p.functions@[p.entry as int].up_ptrs@,
            0,
            seq![],
        );
    }
}

/// Whether the local variables of the running function have their zero values: behind
/// the slots of the parameters. All other slots stay as they are.
pub open spec fn has_locals(p: &Bytecode, w: VmView, f: FiberView, w1: VmView) -> bool {
    let fo = p.functions@[f.frames.last().func as int];
    let old = w.stacks[f.stack as int];
    let new = w1.stacks[f.stack as int];
    &&& w1 == (VmView { stacks: w.stacks.update(f.stack as int, new), ..w })
    &&& old.len() <= new.len()
    &&& fo.param_count + fo.local_zeros@.len() <= new.len()
    &&& f.frames.last().stack_base + fo.max_write_index < new.len()
    &&& forall|i: int|
        0 <= i < fo.local_zeros@.len() ==> new[fo.param_count + i]
            == #[trigger] fo.local_zeros@[i]
    &&& forall|i: int|
        0 <= i < old.len() && !(fo.param_count <= i < fo.param_count + fo.local_zeros@.len())
            ==> #[trigger] new[i] == old[i]
}

proof fn lemma_begins(p: &Bytecode, w: VmView, f: FiberView)
    requires
        !f.started,
        f.frames.len() > 0,
        f.frames.last().func < p.functions@.len(),
        f.stack < w.stacks.len(),
        0 <= p.functions@[f.frames.last().func as int].param_count,
        0 <= f.frames.last().stack_base + p.functions@[f.frames.last().func as int].max_write_index
            + 1 <= i32::MAX,
    ensures
        begin(p, w, f) matches Some((w1, f1)) && has_locals(p, w, f, w1) && f1 == (FiberView {
            started: true,
            ..f
        }),
{
    let fo = p.functions@[f.frames.last().func as int];
    let w1 = begin(p, w, f)->Some_0.0;
    let new = w1.stacks[f.stack as int];
    assert(w1.stacks =~= w.stacks.update(f.stack as int, new));
}

/// A fiber that has not run yet gets the slots of its function with the zero values of
/// its local variables, once, and then runs.
pub proof fn law_fiber_begins(p: &Bytecode, w: VmView, f: FiberView)
    requires
        !f.started,
        f.pending is None,
        f.frames.len() > 0,
        f.frames.last().func < p.functions@.len(),
        f.stack < w.stacks.len(),
        0 <= p.functions@[f.frames.last().func as int].param_count,
        0 <= f.frames.last().stack_base + p.functions@[f.frames.last().func as int].max_write_index
            + 1 <= i32::MAX,
    ensures
        exists|w1: VmView| #[trigger]
            has_locals(p, w, f, w1) && main_loop(p, w, f) == main_loop(
                p,
                w1,
                FiberView { started: true, ..f },
            ),
{
    lemma_begins(p, w, f);
    let (w1, _) = begin(p, w, f)->Some_0;
    assert(has_locals(p, w, f, w1));
}

/// A fiber runs one instruction after another. Where the host has to do something, its
/// turn is interrupted, and what is left of it is kept. After the last instruction of a
/// turn it is the turn of others, and the next one has as many again.
pub proof fn law_fiber_runs(p: &Bytecode, w: VmView, f: FiberView)
    requires
        f.started,
        f.pending is None,
        f.unit_left > 0,
    ensures
        step(p, w, f) is None ==> main_loop(p, w, f) is None,
        step(p, w, f) matches Some((w1, f1, s)) ==> {
            &&& s != StepView::Next ==> main_loop(p, w, f) == Some(
                (w1, FiberView { unit_left: (f.unit_left - 1) as usize, ..f1 }, s),
            )
            &&& s == StepView::Next && f.unit_left == 1 ==> main_loop(p, w, f) == Some(
                (w1, FiberView { panic: None, unit_left: 1024, ..f1 }, StepView::Yield),
            )
            &&& s == StepView::Next && f.unit_left > 1 ==> main_loop(p, w, f) == run_unit(
                p,
                w1,
                f1,
                (f.unit_left - 1) as nat,
            )
        },
{
    reveal_with_fuel(run_unit, 2);
}

/// A fiber that waits for an answer does not run.
pub proof fn law_waiting_fiber_rests(p: &Bytecode, w: VmView, f: FiberView)
    requires
        f.pending is Some,
    ensures
        main_loop(p, w, f) is None,
{
}

/// Where the host fails at what a fiber waits for, the running function panics with the
/// text that the host gives, and nothing else happens.
pub proof fn law_failure_raises(p: &Bytecode, w: VmView, f: FiberView, m: String)
    requires
        f.frames.len() > 0,
        f.frames.last().func < p.functions@.len(),
        f.frames.last().pc > 0,
        0 < code_of(p, f).len() <= i32::MAX,
        f.pending matches Some(q) && (q is Send || q is Select || q is FfiCreate || q is FfiCall),
    ensures
        resume(p, w, f, Reply::Failed(m)) matches Some((w1, f1, s)) && s == StepView::Next && says(
            p,
            w,
            FiberView { pending: None, ..f },
            0,
            m@,
            w1,
            f1,
        ),
{
    let g = f.waiting(None);
    let b = encode_utf8(m@);
    let (x, _) = new_text(w, m@);
    let (w1, f1, _) = raise_text(p, w, g, m@)->Some_0;
    assert(f1.frames.drop_last() =~= f.frames.drop_last());
    if w1.cells.len() <= usize::MAX {
        lemma_new_str_spells(w, b);
        assert forall|i: int| 0 <= i < x.cells.len() implies w1.cells[i] == x.cells[i] by {}
    }
}

} // verus!

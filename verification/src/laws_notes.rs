//! Frames note the variables that closures capture in them, so that these outlive the
//! frames.
use vstd::prelude::*;
use crate::bytecode::{Bytecode, Opcode, ValueDesc};
use crate::closure::new_uvs;
use crate::fiber::{index_of, FiberView, StepView};
use crate::frame::{or_empty, slot_pos, with_referrer, FrameView, Referred};
use crate::laws_basis::{
    comes_to, has_slot, inst_at, lemma_operand, lemma_result, lemma_step, moved,
};
use crate::laws_calls::{call_base, calls};
use crate::laws_closure::{id_at, id_of, lemma_new_uvs, new_place};
use crate::laws_literals::{is_latest_of, lemma_capture_keeps, lemma_keeps, lemma_latest};
use crate::machine::{next_region, ClosureObj, UpValueState, VmView};
use crate::ops_call::{capture, enter, link, owner};
use crate::run::step;
use crate::value::{FunctionKey, OpIndex, PointerObj, Region, Value, ValueType};

verus! {

/// Whether a captured variable is noted for a slot.
pub open spec fn is_noted(refs: Option<Referred>, index: OpIndex, id: usize) -> bool {
    exists|i: int, j: int| #[trigger] noted_at(or_empty(refs), index, id, i, j)
}

/// Whether a captured variable is noted for a slot at a place of the notes.
pub open spec fn noted_at(refs: Referred, index: OpIndex, id: usize, i: int, j: int) -> bool {
    &&& 0 <= i < refs.len()
    &&& refs[i].0 == index
    &&& 0 <= j < refs[i].1.weaks.len()
    &&& refs[i].1.weaks[j] == id
}

proof fn lemma_pos(refs: Referred, index: OpIndex, i: nat)
    ensures
        slot_pos(refs, index, i) matches Some(k) ==> i <= k < refs.len() && refs[k as int].0
            == index,
    decreases refs.len() - i,
{
    if i < refs.len() && refs[i as int].0 != index {
        lemma_pos(refs, index, i + 1);
    }
}

proof fn lemma_notes(refs: Referred, index: OpIndex, typ: ValueType, uv: usize)
    ensures
        is_noted(Some(with_referrer(refs, index, typ, uv)), index, uv),
        forall|a: OpIndex, b: usize| #[trigger]
            is_noted(Some(refs), a, b) ==> is_noted(
                Some(with_referrer(refs, index, typ, uv)),
                a,
                b,
            ),
{
    let more = with_referrer(refs, index, typ, uv);
    lemma_pos(refs, index, 0);
    match slot_pos(refs, index, 0) {
        Some(k) => {
            let n = refs[k as int].1.weaks.len();
            assert(noted_at(or_empty(Some(more)), index, uv, k as int, n as int));
        },
        None => {
            assert(noted_at(or_empty(Some(more)), index, uv, refs.len() as int, 0));
        },
    }
    assert forall|a: OpIndex, b: usize| #[trigger] is_noted(Some(refs), a, b) implies is_noted(
        Some(more),
        a,
        b,
    ) by {
        let (i, j) = choose|i: int, j: int| #[trigger]
            noted_at(or_empty(Some(refs)), a, b, i, j);
        assert(noted_at(or_empty(Some(more)), a, b, i, j));
    }
}

proof fn lemma_link_notes(
    w: VmView,
    stack: usize,
    base: OpIndex,
    descs: Seq<ValueDesc>,
    uvs: Region,
    i: nat,
    ptrs: Seq<Value>,
    refs: Option<Referred>,
)
    requires
        i <= descs.len(),
        ptrs.len() == i,
    ensures
        link(w, stack, base, descs, uvs, i, ptrs, refs) matches Some((_, out, notes)) ==> {
            &&& out.len() == descs.len()
            &&& forall|k: int| 0 <= k < i ==> #[trigger] out[k] == ptrs[k]
            &&& forall|a: OpIndex, b: usize| #[trigger]
                is_noted(refs, a, b) ==> is_noted(notes, a, b)
            &&& forall|k: int|
                i <= k < descs.len() && (#[trigger] descs[k]).is_local ==> (
                out[k] matches Value::Pointer(PointerObj::UpVal(id)) && is_noted(
                    notes,
                    descs[k].index,
                    id,
                ))
        },
    decreases descs.len() - i,
{
    if i < descs.len() && link(w, stack, base, descs, uvs, i, ptrs, refs) is Some {
        let d = descs[i as int];
        if d.is_local {
            let id = w.upvals.len() as usize;
            let more = with_referrer(or_empty(refs), d.index, d.typ, id);
            let next = ptrs.push(Value::Pointer(PointerObj::UpVal(id)));
            lemma_notes(or_empty(refs), d.index, d.typ, id);
            lemma_link_notes(
                w.with_new_upval(
                    UpValueState::Open(ValueDesc { stack: Some(stack), stack_base: base, ..d }),
                ),
                stack,
                base,
                descs,
                uvs,
                i + 1,
                next,
                Some(more),
            );
            let (_, out, notes) = link(w, stack, base, descs, uvs, i, ptrs, refs)->Some_0;
            assert(out[i as int] == next[i as int]);
            assert(is_noted(Some(more), d.index, id));
            assert forall|a: OpIndex, b: usize| #[trigger] is_noted(refs, a, b) implies is_noted(
                notes,
                a,
                b,
            ) by {
                assert(is_noted(Some(or_empty(refs)), a, b));
                assert(is_noted(Some(more), a, b));
            }
            assert forall|k: int| 0 <= k < i implies #[trigger] out[k] == ptrs[k] by {
                assert(out[k] == next[k]);
            }
        } else {
            let id = crate::ops_call::captured(w, uvs, i as int)->Some_0;
            let next = ptrs.push(Value::Pointer(PointerObj::UpVal(id)));
            lemma_link_notes(w, stack, base, descs, uvs, i + 1, next, refs);
            let (_, out, _) = link(w, stack, base, descs, uvs, i, ptrs, refs)->Some_0;
            assert forall|k: int| 0 <= k < i implies #[trigger] out[k] == ptrs[k] by {
                assert(out[k] == next[k]);
            }
        }
    }
}

/// Whether a frame notes the variables of its own that its function captures.
pub open spec fn notes_own(
    w: VmView,
    refs: Option<Referred>,
    descs: Seq<ValueDesc>,
    q: Region,
) -> bool {
    forall|k: int|
        0 <= k < descs.len() && (#[trigger] descs[k]).is_local ==> (
        w.cells[q.base + k] matches Value::Pointer(PointerObj::UpVal(id)) && is_noted(
            refs,
            descs[k].index,
            id,
        ))
}

proof fn lemma_enter_notes(
    p: &Bytecode,
    w: VmView,
    stack: usize,
    func: FunctionKey,
    r: Region,
    recv: Option<Value>,
    base: OpIndex,
)
    ensures
        enter(p, w, stack, func, Some(r), recv, base) matches Some((x, fr)) ==> x.cells.len()
            <= usize::MAX ==> (fr.var_ptrs matches Some(q) && notes_own(
            x,
            fr.referred_by,
            p.functions@[func as int].up_ptrs@,
            q,
        )),
{
    match enter(p, w, stack, func, Some(r), recv, base) {
        Some((x, fr)) => {
            let fo = p.functions@[func as int];
            let n = index_of(base + fo.max_write_index + 1)->Some_0;
            let y = w.with_min_size(stack, n)->Ok_0;
            let z = y.with_vec(
                stack,
                base,
                crate::ops_call::with_recv(fo.ret_zeros@, recv),
            )->Ok_0;
            lemma_link_notes(z, stack, base, fo.up_ptrs@, r, 0, seq![], None);
            let (w3, ptrs, refs) = link(z, stack, base, fo.up_ptrs@, r, 0, seq![], None)->Some_0;
            if x.cells.len() <= usize::MAX {
                let q = fr.var_ptrs->Some_0;
                assert forall|k: int|
                    0 <= k < fo.up_ptrs@.len() && (#[trigger] fo.up_ptrs@[k]).is_local implies (
                x.cells[q.base + k] matches Value::Pointer(PointerObj::UpVal(id)) && is_noted(
                    fr.referred_by,
                    fo.up_ptrs@[k].index,
                    id,
                )) by {
                    assert(x.cells[q.base + k] == ptrs[k]);
                }
            }
        },
        None => {},
    }
}

/// The frame of a call notes the variables of its own that its function captures, and
/// so do a call that is deferred and the first frame of a goroutine.
pub proof fn law_calls_note_variables(
    p: &Bytecode,
    w: VmView,
    f: FiberView,
    style: ValueType,
    func: FunctionKey,
    r: Region,
    recv: Option<Value>,
)
    requires
        calls(p, w, f, style, func, Some(r), recv),
        style == ValueType::FlagB ==> f.context.async_enabled,
    ensures
        step(p, w, f) matches Some((w1, f1, s)) ==> w1.cells.len() <= usize::MAX ==> {
            let descs = p.functions@[func as int].up_ptrs@;
            let fr = f1.frames.last();
            &&& style == ValueType::FlagA ==> (fr.var_ptrs matches Some(q) && notes_own(
                w1,
                fr.referred_by,
                descs,
                q,
            ))
            &&& style == ValueType::FlagB ==> (s matches StepView::Spawn(g) && (
            g.frames[0].var_ptrs matches Some(q) && notes_own(
                w1,
                g.frames[0].referred_by,
                descs,
                q,
            )))
            &&& style == ValueType::FlagC ==> (fr.defer_stack matches Some(ds) && (
            ds.last().var_ptrs matches Some(q) && notes_own(
                w1,
                ds.last().referred_by,
                descs,
                q,
            )))
        },
{
    lemma_step(p, w, f);
    lemma_operand(p, w, f, inst_at(p, f).d);
    let base = call_base(p, f);
    let descs = p.functions@[func as int].up_ptrs@;
    if index_of(base) is Some {
        lemma_enter_notes(p, w, f.stack, func, r, recv, base as OpIndex);
        match enter(p, w, f.stack, func, Some(r), recv, base as OpIndex) {
            Some((x, fr)) => {
                match step(p, w, f) {
                    Some((w1, _, _)) => {
                        assert(w1.cells == x.cells);
                        if w1.cells.len() <= usize::MAX {
                            lemma_same_notes(x, w1, fr.referred_by, descs, fr.var_ptrs->Some_0);
                        }
                    },
                    None => {},
                }
            },
            None => {},
        }
    }
}

proof fn lemma_same_notes(
    w: VmView,
    x: VmView,
    refs: Option<Referred>,
    descs: Seq<ValueDesc>,
    q: Region,
)
    requires
        notes_own(w, refs, descs, q),
        w.cells == x.cells,
    ensures
        notes_own(x, refs, descs, q),
{
}

proof fn lemma_owner_kept(f: Seq<FrameView>, g: Seq<FrameView>, func: FunctionKey, k: int)
    requires
        f.len() == g.len(),
        k < f.len(),
        forall|i: int| 0 <= i < f.len() ==> (#[trigger] g[i]).func == f[i].func,
    ensures
        owner(f, func, k) == owner(g, func, k),
        owner(f, func, k) matches Some(o) ==> 0 < o <= k,
    decreases k,
{
    if k > 0 {
        assert(g[k].func == f[k].func);
        lemma_owner_kept(f, g, func, k - 1);
    }
}

/// Whether variable `id` at a place of a closure belongs to a slot of a function.
pub open spec fn belongs(w: VmView, uvs: Region, a: int, id: usize, func: FunctionKey, index: OpIndex) -> bool {
    &&& w.cells[uvs.base + a] == Value::Pointer(PointerObj::UpVal(id))
    &&& id < w.upvals.len()
    &&& w.upvals[id as int] matches UpValueState::Open(d)
    &&& d.func == func && d.index == index
}

proof fn lemma_capture_notes(
    w: VmView,
    frames: Seq<FrameView>,
    stack: usize,
    uvs: Region,
    i: nat,
)
    ensures
        capture(w, frames, stack, uvs, i) matches Some((_, after)) ==> {
            &&& after.len() == frames.len()
            &&& forall|o: int, x: OpIndex, y: usize|
                0 <= o < frames.len() && #[trigger] is_noted(frames[o].referred_by, x, y)
                    ==> is_noted(after[o].referred_by, x, y)
            &&& forall|a: int, id: usize, func: FunctionKey, index: OpIndex|
                i <= a < uvs.len && #[trigger] belongs(w, uvs, a, id, func, index) ==> (owner(
                    frames,
                    func,
                    frames.len() - 1,
                ) matches Some(o) ==> is_noted(after[o].referred_by, index, id))
        },
    decreases uvs.len - i,
{
    if i < uvs.len && capture(w, frames, stack, uvs, i) is Some {
        let after = capture(w, frames, stack, uvs, i)->Some_0.1;
        let at = uvs.base + i;
        match w.cells[at] {
            Value::Pointer(PointerObj::UpVal(id)) => match w.upvals[id as int] {
                UpValueState::Open(d) => {
                    lemma_owner_kept(frames, frames, d.func, frames.len() - 1);
                    match owner(frames, d.func, frames.len() - 1) {
                        Some(k) => {
                            let x = VmView {
                                upvals: w.upvals.update(
                                    id as int,
                                    UpValueState::Open(
                                        ValueDesc {
                                            stack: Some(stack),
                                            stack_base: frames[k].stack_base,
                                            ..d
                                        },
                                    ),
                                ),
                                ..w
                            };
                            let refs = with_referrer(
                                or_empty(frames[k].referred_by),
                                d.index,
                                d.typ,
                                id,
                            );
                            let next = frames.update(
                                k,
                                FrameView { referred_by: Some(refs), ..frames[k] },
                            );
                            lemma_notes(or_empty(frames[k].referred_by), d.index, d.typ, id);
                            lemma_capture_notes(x, next, stack, uvs, i + 1);
                            assert(is_noted(next[k].referred_by, d.index, id));
                            assert forall|o: int, a: OpIndex, b: usize|
                                0 <= o < frames.len() && #[trigger] is_noted(
                                    frames[o].referred_by,
                                    a,
                                    b,
                                ) implies is_noted(after[o].referred_by, a, b) by {
                                if o == k {
                                    assert(is_noted(
                                        Some(or_empty(frames[k].referred_by)),
                                        a,
                                        b,
                                    ));
                                }
                                assert(is_noted(next[o].referred_by, a, b));
                            }
                            assert forall|a: int, y: usize, func: FunctionKey, index: OpIndex|
                                i <= a < uvs.len && #[trigger] belongs(
                                    w,
                                    uvs,
                                    a,
                                    y,
                                    func,
                                    index,
                                ) implies (owner(frames, func, frames.len() - 1) matches Some(o)
                                ==> is_noted(after[o].referred_by, index, y)) by {
                                lemma_owner_kept(frames, next, func, frames.len() - 1);
                                if a > i {
                                    assert(belongs(x, uvs, a, y, func, index)) by {
                                        if y == id {
                                        } else {
                                            assert(x.upvals[y as int] == w.upvals[y as int]);
                                        }
                                    }
                                }
                            }
                        },
                        None => {
                            lemma_capture_notes(w, frames, stack, uvs, i + 1);
                        },
                    }
                },
                UpValueState::Closed(_) => {
                    lemma_capture_notes(w, frames, stack, uvs, i + 1);
                },
            },
            _ => {
                lemma_capture_notes(w, frames, stack, uvs, i + 1);
            },
        }
    }
}

/// When a closure is made, the frames in which the variables lie that it captures note
/// them: the latest call of the function that a variable belongs to.
pub proof fn law_closure_is_noted(p: &Bytecode, w: VmView, f: FiberView, func: FunctionKey)
    requires
        comes_to(p, f, Opcode::CLOSURE, 0),
        inst_at(p, f).s0 < 0 && -1 - inst_at(p, f).s0 < p.consts@.len(),
        p.consts@[-1 - inst_at(p, f).s0] == Value::Function(func),
        func < p.functions@.len(),
        has_slot(w, f, inst_at(p, f).d as int),
        w.upvals.len() + p.functions@[func as int].up_ptrs@.len() <= usize::MAX,
        w.cells.len() + p.functions@[func as int].up_ptrs@.len() <= usize::MAX,
    ensures
        step(p, w, f) matches Some((w1, f1, s)) ==> {
            let descs = p.functions@[func as int].up_ptrs@;
            forall|a: int, o: int|
                #![trigger descs[a], is_latest_of(f.frames, descs[a].func, o)]
                0 <= a < descs.len() && !descs[a].is_local && is_latest_of(
                    f.frames,
                    descs[a].func,
                    o,
                ) ==> (w1.closures.last() matches ClosureObj::Gos { uvs: Some(r), .. } && is_noted(
                    f1.frames[o].referred_by,
                    descs[a].index,
                    id_at(w1, r, a),
                ))
        },
{
    let inst = inst_at(p, f);
    let g = moved(f, 1);
    let descs = p.functions@[func as int].up_ptrs@;
    lemma_step(p, w, f);
    lemma_keeps(p, w, func);
    if descs.len() > 0 && step(p, w, f) is Some {
        lemma_new_uvs(w, descs, 0, seq![], 0);
        let (x, vals) = new_uvs(w, descs, 0, seq![]);
        let r = next_region(x.cells, vals.len());
        let w1 = x.with_cells(x.cells + vals);
        lemma_capture_keeps(w1, g.frames, f.stack, r, 0);
        lemma_capture_notes(w1, g.frames, f.stack, r, 0);
        let (w2, after) = capture(w1, g.frames, f.stack, r, 0)->Some_0;
        let v = Value::Closure(w.closures.len() as usize);
        let w3 = VmView {
            closures: w2.closures.push(ClosureObj::Gos { func, uvs: Some(r), recv: None }),
            ..w2
        };
        lemma_result(w3, f, inst.d, v);
        let (w4, f1, _) = step(p, w, f)->Some_0;
        assert(w4.cells == w1.cells);
        assert forall|a: int, o: int|
            #![trigger descs[a], is_latest_of(f.frames, descs[a].func, o)]
            0 <= a < descs.len() && !descs[a].is_local && is_latest_of(
                f.frames,
                descs[a].func,
                o,
            ) implies (w4.closures.last() matches ClosureObj::Gos { uvs: Some(q), .. } && is_noted(
            f1.frames[o].referred_by,
            descs[a].index,
            id_at(w4, q, a),
        )) by {
            assert(new_place(x, descs[a], vals[a], 0));
            assert(w1.cells[r.base + a] == vals[a]);
            assert(belongs(w1, r, a, id_of(vals[a]), descs[a].func, descs[a].index));
            lemma_latest(f.frames, descs[a].func, f.frames.len() - 1, o);
            lemma_owner_kept(f.frames, g.frames, descs[a].func, f.frames.len() - 1);
        }
    }
}

} // verus!

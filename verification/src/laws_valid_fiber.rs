//! What fibers hold is valid, whatever they run.
use vstd::prelude::*;
use vstd::utf8::encode_utf8;
use crate::bytecode::{Bytecode, FunctionObj, Instruction, MetadataType, Opcode, ValueDesc};
use crate::closure::{as_closure, gos_from_func, new_closure};
use crate::content::{copy_semantic, new_text, str_bytes};
use crate::effect::{Ask, Effect, Pending};
use crate::embed::as_metadata;
use crate::fiber::{
    index_of, last_pc, new_fiber, raise, raise_text, Context, FiberView, SelectComm, SelectCommType,
    StepView, Stepped,
};
use crate::frame::{
    close_all, close_slots, or_empty, slot_pos, with_referrer, CallFrame, DeferredView, FrameView,
    Referred,
};
use crate::laws_growth::{
    grows, law_resume_grows, lemma_added_grows, lemma_capture_grows, lemma_close_slots_grows,
    lemma_copy_grows, lemma_data_grows, lemma_enter_grows, lemma_func_grows, lemma_grows_self,
    lemma_grows_trans, lemma_init_vars_grows, lemma_link_grows, lemma_raise_grows,
    lemma_received_grows, lemma_select_grows, lemma_store_grows, lemma_unit_grows,
    lemma_write_grows,
};
use crate::laws_valid::{
    fits, good, lemma_all_stay, lemma_cell_valid, lemma_closure_stays, lemma_copy_valid,
    lemma_fits_before, lemma_get_valid, lemma_good_closure, lemma_good_more_cells,
    lemma_good_new_stack, lemma_good_other, lemma_good_parts, lemma_good_set_upval,
    lemma_good_stack, lemma_good_upval, lemma_read_valid, lemma_store_valid, lemma_taken_valid,
    lemma_value_stays, lemma_vec_valid, lemma_write_valid, valid_all, valid_closure, valid_entries,
    valid_function, valid_region, valid_slice, valid_value,
};
use crate::laws_valid_inst::{
    lemma_calculate_valid, lemma_place_stays, lemma_place_valid, lemma_word_valid, sound_outcome,
    valid_pending, valid_query,
};
use crate::laws_valid_make::lemma_make_valid;
use crate::laws_valid_type::{
    lemma_boxed_valid, lemma_char_text_valid, lemma_func_valid, lemma_new_str_valid,
    lemma_type_valid,
};
use crate::machine::{
    fresh_stack, offset, region_cell, region_seq, spec_const, ClosureObj, Ctx, UpValueState, VmView,
};
use crate::meta::underlying;
use crate::ops_call::{
    call_ffi, call_gos, capture, captured, clear_frame, counts, enter, has_deferred, init_package,
    init_vars, leave, link, op_call, op_closure, op_return, owner, run_deferred, take_args,
    with_deferred, with_recv,
};
use crate::ops_type::{boxed, char_text};
use crate::panic::PanicView;
use crate::range::{entry_keys, latest_walk, next_entry, range_init, range_next, RangeIter};
use crate::reply::{finish_create, finish_recv, finish_select, received, resume, Reply};
use crate::run::{
    advance, begin, context_of, data_inst, fetch, fiber_inst, group, main_loop, op_close, op_ffi,
    op_range, op_range_init, op_recover, op_recv, op_select, op_send, run_unit, select_comms,
    started, step, with_room, Group,
};
use crate::text::char_at;
use crate::trap::{RuntimeError, Trap};
use crate::value::{
    void, FunctionKey, InterfaceObj, Meta, MetadataKey, OpIndex, PointerObj, Region, Value,
    ValueType,
};

verus! {

/// Whether all of several captured variables are there.
pub open spec fn valid_weaks(w: VmView, s: Seq<usize>) -> bool {
    forall|i: int| 0 <= i < s.len() ==> #[trigger] s[i] < w.upvals.len()
}

/// Whether all captured variables that a frame has noted are there.
pub open spec fn valid_refs(w: VmView, refs: Option<Referred>) -> bool {
    forall|i: int|
        0 <= i < or_empty(refs).len() ==> valid_weaks(w, (#[trigger] or_empty(refs)[i]).1.weaks)
}

/// Whether the list of variables of a call is there.
pub open spec fn valid_vars(w: VmView, vars: Option<Region>) -> bool {
    vars matches Some(r) ==> valid_region(w, r)
}

/// Whether what a deferred call refers to is there.
pub open spec fn valid_deferred(p: &Bytecode, w: VmView, d: DeferredView) -> bool {
    valid_vars(w, d.var_ptrs) && valid_refs(w, d.referred_by) && valid_all(p, w, d.vec)
}

/// The calls that a frame has deferred.
pub open spec fn deferred(fr: FrameView) -> Seq<DeferredView> {
    match fr.defer_stack {
        Some(s) => s,
        None => seq![],
    }
}

/// Whether what a frame refers to is there.
pub open spec fn valid_frame(p: &Bytecode, w: VmView, fr: FrameView) -> bool {
    &&& valid_vars(w, fr.var_ptrs)
    &&& valid_refs(w, fr.referred_by)
    &&& forall|i: int|
        0 <= i < deferred(fr).len() ==> valid_deferred(p, w, #[trigger] deferred(fr)[i])
}

/// Whether what is walked over is there.
pub open spec fn valid_iter(w: VmView, it: RangeIter) -> bool {
    match it {
        RangeIter::List { s, .. } => valid_slice(w, s),
        RangeIter::Text { s, .. } => valid_slice(w, s),
        RangeIter::Dict { map, keys, .. } => map < w.maps.len() && valid_region(w, keys),
    }
}

/// Whether what is sent and where is there.
pub open spec fn valid_comm(p: &Bytecode, w: VmView, c: SelectComm) -> bool {
    &&& valid_value(p, w, c.chan)
    &&& c.typ matches SelectCommType::Send(v) ==> valid_value(p, w, v)
}

/// Whether what a fiber refers to is there.
#[verifier::opaque]
pub open spec fn valid_fiber(p: &Bytecode, w: VmView, f: FiberView) -> bool {
    &&& forall|i: int| 0 <= i < f.frames.len() ==> valid_frame(p, w, #[trigger] f.frames[i])
    &&& forall|i: int| 0 <= i < f.rstack.len() ==> valid_iter(w, #[trigger] f.rstack[i])
    &&& forall|i: int| 0 <= i < f.comms.len() ==> valid_comm(p, w, #[trigger] f.comms[i])
    &&& valid_all(p, w, f.args)
    &&& f.panic matches Some(d) ==> valid_value(p, w, d.msg)
    &&& f.pending matches Some(q) ==> valid_pending(p, w, q)
}

/// Whether what the host is asked for is there.
pub open spec fn valid_ask(p: &Bytecode, w: VmView, a: Ask) -> bool {
    match a {
        Ask::Query(q) => valid_query(p, w, q),
        Ask::Send { chan, val } => chan < w.chans.len() && valid_value(p, w, val),
        Ask::Recv { chan } => chan < w.chans.len(),
        Ask::Close { chan } => chan < w.chans.len(),
        Ask::FfiCreate { name } => valid_slice(w, name),
        _ => true,
    }
}

/// Whether what a step hands out is valid.
pub open spec fn valid_step(p: &Bytecode, w: VmView, s: StepView) -> bool {
    match s {
        StepView::Ask(a) => valid_ask(p, w, a),
        StepView::Spawn(g) => valid_fiber(p, w, g),
        _ => true,
    }
}

/// Whether everything is valid after a step.
pub open spec fn sound_step(p: &Bytecode, r: Stepped) -> bool {
    match r {
        Some((x, g, s)) => fits(x) ==> good(p, x) && valid_fiber(p, x, g) && valid_step(p, x, s),
        None => true,
    }
}

proof fn lemma_refs_stay(w: VmView, x: VmView, refs: Option<Referred>)
    requires
        grows(w, x),
        valid_refs(w, refs),
    ensures
        valid_refs(x, refs),
{
    reveal(grows);
}

proof fn lemma_vars_stay(w: VmView, x: VmView, vars: Option<Region>)
    requires
        grows(w, x),
        valid_vars(w, vars),
    ensures
        valid_vars(x, vars),
{
    reveal(grows);
}

proof fn lemma_frame_stays(p: &Bytecode, w: VmView, x: VmView, fr: FrameView)
    requires
        grows(w, x),
        valid_frame(p, w, fr),
    ensures
        valid_frame(p, x, fr),
{
    lemma_vars_stay(w, x, fr.var_ptrs);
    lemma_refs_stay(w, x, fr.referred_by);
    let s = deferred(fr);
    assert forall|i: int| 0 <= i < s.len() implies valid_deferred(p, x, #[trigger] s[i]) by {
        lemma_vars_stay(w, x, s[i].var_ptrs);
        lemma_refs_stay(w, x, s[i].referred_by);
        lemma_all_stay(p, w, x, s[i].vec);
    }
}

/// What a fiber refers to stays there.
proof fn lemma_fiber_stays(p: &Bytecode, w: VmView, x: VmView, f: FiberView)
    requires
        grows(w, x),
        valid_fiber(p, w, f),
    ensures
        valid_fiber(p, x, f),
{
    reveal(valid_fiber);
    assert forall|i: int| 0 <= i < f.frames.len() implies valid_frame(
        p,
        x,
        #[trigger] f.frames[i],
    ) by {
        lemma_frame_stays(p, w, x, f.frames[i]);
    }
    assert forall|i: int| 0 <= i < f.rstack.len() implies valid_iter(
        x,
        #[trigger] f.rstack[i],
    ) by {
        assert(valid_iter(w, f.rstack[i]));
        reveal(grows);
    }
    assert forall|i: int| 0 <= i < f.comms.len() implies valid_comm(
        p,
        x,
        #[trigger] f.comms[i],
    ) by {
        assert(valid_comm(p, w, f.comms[i]));
        lemma_value_stays(p, w, x, f.comms[i].chan);
        match f.comms[i].typ {
            SelectCommType::Send(v) => {
                lemma_value_stays(p, w, x, v);
            },
            _ => {},
        }
    }
    lemma_all_stay(p, w, x, f.args);
    match f.panic {
        Some(d) => {
            lemma_value_stays(p, w, x, d.msg);
        },
        None => {},
    }
    match f.pending {
        Some(Pending::Store { place, .. }) => {
            lemma_place_stays(p, w, x, place);
        },
        Some(Pending::Text { place }) => {
            lemma_place_stays(p, w, x, place);
        },
        Some(Pending::Shift { place, val, .. }) => {
            lemma_place_stays(p, w, x, place);
            lemma_value_stays(p, w, x, val);
        },
        _ => {
            reveal(grows);
        },
    }
}

/// A fiber whose last frame has changed.
proof fn lemma_top_valid(p: &Bytecode, w: VmView, f: FiberView, fr: FrameView)
    requires
        valid_fiber(p, w, f),
        f.frames.len() > 0,
        valid_frame(p, w, fr),
    ensures
        valid_fiber(p, w, f.with_top(fr)),
{
    reveal(valid_fiber);
}

/// The last frame of a fiber.
proof fn lemma_frame_valid(p: &Bytecode, w: VmView, f: FiberView, i: int)
    requires
        valid_fiber(p, w, f),
        0 <= i < f.frames.len(),
    ensures
        valid_frame(p, w, f.frames[i]),
{
    reveal(valid_fiber);
}

/// A fiber at another instruction.
proof fn lemma_pc_valid(p: &Bytecode, w: VmView, f: FiberView, pc: OpIndex)
    requires
        valid_fiber(p, w, f),
        f.frames.len() > 0,
    ensures
        valid_fiber(p, w, f.with_pc(pc)),
{
    lemma_frame_valid(p, w, f, f.frames.len() - 1);
    let fr = FrameView { pc, ..f.top() };
    assert(deferred(fr) == deferred(f.top()));
    lemma_top_valid(p, w, f, fr);
}

proof fn lemma_raise_valid(p: &Bytecode, w: VmView, f: FiberView, msg: Value)
    requires
        good(p, w),
        valid_fiber(p, w, f),
        valid_value(p, w, msg),
    ensures
        sound_step(p, raise(p, w, f, msg)),
{
    match raise(p, w, f, msg) {
        Some((x, g, _)) => {
            let end = last_pc(p, f.top().func)->Some_0;
            lemma_pc_valid(p, w, f, end);
            reveal(valid_fiber);
        },
        None => {},
    }
}

proof fn lemma_raise_text_valid(p: &Bytecode, w: VmView, f: FiberView, text: Seq<char>)
    requires
        good(p, w),
        valid_fiber(p, w, f),
    ensures
        sound_step(p, raise_text(p, w, f, text)),
{
    let (x, v) = new_text(w, text);
    let (y, msg) = boxed(x, v, None);
    match raise_text(p, w, f, text) {
        Some((z, _, _)) => {
            if fits(z) {
                lemma_new_str_valid(p, w, encode_utf8(text));
                lemma_added_grows(x, y);
                lemma_fits_before(x, y);
                lemma_boxed_valid(p, x, v, None);
                lemma_grows_trans(w, x, y);
                lemma_fiber_stays(p, w, y, f);
                lemma_raise_valid(p, y, f, msg);
            }
        },
        None => {},
    }
}

/// One more captured variable to note.
proof fn lemma_referrer_valid(
    w: VmView,
    refs: Option<Referred>,
    index: OpIndex,
    typ: ValueType,
    id: usize,
)
    requires
        valid_refs(w, refs),
        id < w.upvals.len(),
    ensures
        valid_refs(w, Some(with_referrer(or_empty(refs), index, typ, id))),
{
    let before = or_empty(refs);
    let after = with_referrer(before, index, typ, id);
    lemma_slot_pos_bound(before, index, 0);
    assert forall|i: int| 0 <= i < after.len() implies valid_weaks(
        w,
        (#[trigger] after[i]).1.weaks,
    ) by {
        if i < before.len() {
            assert(valid_weaks(w, before[i].1.weaks));
        }
    }
}

proof fn lemma_slot_pos_bound(refs: Referred, index: OpIndex, i: nat)
    ensures
        slot_pos(refs, index, i) matches Some(k) ==> k < refs.len(),
    decreases refs.len() - i,
{
    if i < refs.len() {
        lemma_slot_pos_bound(refs, index, i + 1);
    }
}

/// The variables that a call finds are valid.
proof fn lemma_link_valid(
    p: &Bytecode,
    w: VmView,
    stack: usize,
    base: OpIndex,
    descs: Seq<ValueDesc>,
    uvs: Region,
    i: nat,
    ptrs: Seq<Value>,
    refs: Option<Referred>,
    x: VmView,
)
    requires
        good(p, w),
        valid_all(p, w, ptrs),
        valid_refs(w, refs),
        link(w, stack, base, descs, uvs, i, ptrs, refs) matches Some((y, _, _)) && y == x,
        fits(x),
    ensures
        good(p, x),
        link(w, stack, base, descs, uvs, i, ptrs, refs) matches Some((_, vals, noted)) && valid_all(
            p,
            x,
            vals,
        ) && valid_refs(x, noted),
    decreases descs.len() - i,
{
    if i < descs.len() {
        let d = descs[i as int];
        if d.is_local {
            let id = w.upvals.len() as usize;
            let u = UpValueState::Open(
                ValueDesc { stack: Some(stack), stack_base: base, ..d },
            );
            let y = w.with_new_upval(u);
            let next = ptrs.push(Value::Pointer(PointerObj::UpVal(id)));
            let more = Some(with_referrer(or_empty(refs), d.index, d.typ, id));
            lemma_link_grows(y, stack, base, descs, uvs, i + 1, next, more);
            lemma_fits_before(y, x);
            lemma_good_upval(p, w, u);
            lemma_all_stay(p, w, y, ptrs);
            lemma_refs_stay(w, y, refs);
            lemma_referrer_valid(y, refs, d.index, d.typ, id);
            lemma_link_valid(p, y, stack, base, descs, uvs, i + 1, next, more, x);
        } else {
            match captured(w, uvs, i as int) {
                Some(id) => {
                    lemma_good_parts(p, w);
                    let next = ptrs.push(Value::Pointer(PointerObj::UpVal(id)));
                    assert(valid_value(p, w, Value::Pointer(PointerObj::UpVal(id))));
                    lemma_link_valid(p, w, stack, base, descs, uvs, i + 1, next, refs, x);
                },
                None => {},
            }
        }
    }
}

/// A new frame is valid.
proof fn lemma_enter_valid(
    p: &Bytecode,
    w: VmView,
    stack: usize,
    func: FunctionKey,
    uvs: Option<Region>,
    recv: Option<Value>,
    base: OpIndex,
)
    requires
        good(p, w),
        recv matches Some(v) ==> valid_value(p, w, v),
    ensures
        enter(p, w, stack, func, uvs, recv, base) matches Some((x, fr)) ==> fits(x) ==> good(p, x)
            && valid_frame(p, x, fr),
{
    match enter(p, w, stack, func, uvs, recv, base) {
        Some((z, fr)) => {
            if fits(z) {
                let fo = p.functions@[func as int];
                let n = index_of(base + fo.max_write_index + 1)->Some_0;
                let x = w.with_min_size(stack, n)->Ok_0;
                let args = with_recv(fo.ret_zeros@, recv);
                let y = x.with_vec(stack, base, args)->Ok_0;
                lemma_vec_valid(p, w, stack, n, seq![]);
                lemma_good_parts(p, w);
                assert(valid_function(p, w, fo));
                lemma_all_stay(p, w, x, args);
                lemma_vec_valid(p, x, stack, base, args);
                match uvs {
                    Some(r) => {
                        let (y1, ptrs, refs) = link(
                            y,
                            stack,
                            base,
                            fo.up_ptrs@,
                            r,
                            0,
                            seq![],
                            None,
                        )->Some_0;
                        lemma_added_grows(y1, z);
                        lemma_fits_before(y1, z);
                        lemma_link_valid(
                            p,
                            y,
                            stack,
                            base,
                            fo.up_ptrs@,
                            r,
                            0,
                            seq![],
                            None,
                            y1,
                        );
                        lemma_good_more_cells(p, y1, ptrs);
                        lemma_refs_stay(y1, z, refs);
                        assert(deferred(fr).len() == 0);
                    },
                    None => {
                        assert(deferred(fr).len() == 0);
                        assert(or_empty(fr.referred_by).len() == 0);
                    },
                }
            }
        },
        None => {},
    }
}

/// A new stack is valid.
proof fn lemma_fresh_stack_valid(p: &Bytecode, w: VmView, vals: Seq<Value>)
    requires
        valid_all(p, w, vals),
    ensures
        valid_all(p, w, fresh_stack(vals)),
{
    let s = fresh_stack(vals);
    assert forall|i: int| 0 <= i < s.len() implies valid_value(p, w, #[trigger] s[i]) by {}
}

/// A fiber that has just been made is valid.
proof fn lemma_new_fiber_valid(
    p: &Bytecode,
    w: VmView,
    context: Context,
    stack: usize,
    fr: FrameView,
)
    requires
        valid_frame(p, w, fr),
    ensures
        valid_fiber(p, w, new_fiber(context, stack, fr)),
{
    reveal(valid_fiber);
}

proof fn lemma_take_args_valid(p: &Bytecode, w: VmView, stack: usize, fr: FrameView)
    requires
        good(p, w),
    ensures
        take_args(p, w, stack, fr) matches Some((x, vals)) ==> good(p, x) && grows(w, x)
            && valid_all(p, x, vals),
{
    match take_args(p, w, stack, fr) {
        Some(_) => {
            let (rets, params, _) = counts(p, fr.func)->Some_0;
            let end = index_of(fr.stack_base + rets + params)->Some_0;
            lemma_taken_valid(p, w, stack, fr.stack_base, end);
        },
        None => {},
    }
}

proof fn lemma_call_gos_valid(
    p: &Bytecode,
    w: VmView,
    f: FiberView,
    style: ValueType,
    func: FunctionKey,
    uvs: Option<Region>,
    recv: Option<Value>,
    base: OpIndex,
)
    requires
        good(p, w),
        valid_fiber(p, w, f),
        f.frames.len() > 0,
        recv matches Some(v) ==> valid_value(p, w, v),
    ensures
        sound_step(p, call_gos(p, w, f, style, func, uvs, recv, base)),
{
    match call_gos(p, w, f, style, func, uvs, recv, base) {
        Some((z, _, _)) => {
            if fits(z) {
                let (x, fr) = enter(p, w, f.stack, func, uvs, recv, base)->Some_0;
                lemma_enter_grows(p, w, f.stack, func, uvs, recv, base);
                let text = RuntimeError::AsyncDisabled.spec_message();
                let (y, vals) = take_args(p, x, f.stack, fr)->Some_0;
                match style {
                    ValueType::FlagA => {},
                    ValueType::FlagB => {
                        if !f.context.async_enabled {
                            lemma_raise_grows(p, x, f, text);
                            lemma_fits_before(x, z);
                        } else {
                            lemma_added_grows(x, y);
                            lemma_added_grows(y, z);
                            lemma_fits_before(y, z);
                            lemma_fits_before(x, y);
                        }
                    },
                    _ => {
                        lemma_added_grows(x, y);
                        lemma_fits_before(x, y);
                    },
                }
                lemma_enter_valid(p, w, f.stack, func, uvs, recv, base);
                lemma_fiber_stays(p, w, x, f);
                lemma_take_args_valid(p, x, f.stack, fr);
                match style {
                    ValueType::FlagA => {
                        reveal(valid_fiber);
                    },
                    ValueType::FlagB => {
                        if !f.context.async_enabled {
                            lemma_raise_text_valid(p, x, f, text);
                        } else {
                            let s = fresh_stack(vals);
                            let first = FrameView { stack_base: 0, ..fr };
                            lemma_fresh_stack_valid(p, y, vals);
                            lemma_good_new_stack(p, y, s);
                            lemma_grows_trans(x, y, z);
                            lemma_fiber_stays(p, x, z, f);
                            lemma_frame_stays(p, x, z, fr);
                            assert(deferred(first) == deferred(fr));
                            lemma_new_fiber_valid(
                                p,
                                z,
                                f.context,
                                y.stacks.len() as usize,
                                first,
                            );
                        }
                    },
                    _ => {
                        let d = DeferredView {
                            func: fr.func,
                            var_ptrs: fr.var_ptrs,
                            referred_by: fr.referred_by,
                            vec: vals,
                        };
                        lemma_fiber_stays(p, x, y, f);
                        lemma_frame_stays(p, x, y, fr);
                        lemma_defer_valid(p, y, f, d);
                    },
                }
            }
        },
        None => {},
    }
}

/// One more deferred call.
proof fn lemma_defer_valid(p: &Bytecode, w: VmView, f: FiberView, d: DeferredView)
    requires
        valid_fiber(p, w, f),
        f.frames.len() > 0,
        valid_deferred(p, w, d),
    ensures
        valid_fiber(p, w, with_deferred(f, d)),
{
    lemma_frame_valid(p, w, f, f.frames.len() - 1);
    let fr = with_deferred(f, d).top();
    assert(deferred(fr) == deferred(f.top()).push(d));
    assert forall|i: int| 0 <= i < deferred(fr).len() implies valid_deferred(
        p,
        w,
        #[trigger] deferred(fr)[i],
    ) by {
        if i < deferred(f.top()).len() {
            assert(deferred(fr)[i] == deferred(f.top())[i]);
        }
    }
    lemma_top_valid(p, w, f, fr);
}

proof fn lemma_call_ffi_valid(
    p: &Bytecode,
    w: VmView,
    f: FiberView,
    ffi: usize,
    iface: MetadataKey,
    index: usize,
    meta: Meta,
    is_async: bool,
    base: OpIndex,
)
    requires
        good(p, w),
        valid_fiber(p, w, f),
    ensures
        sound_step(p, call_ffi(p, w, f, ffi, iface, index, meta, is_async, base)),
{
    match call_ffi(p, w, f, ffi, iface, index, meta, is_async, base) {
        Some((z, _, _)) => {
            match p.metas@[meta.key as int] {
                MetadataType::Signature { params, results } => {
                    let from = index_of(base + 1 + results@.len())->Some_0;
                    let to = index_of(base + 1 + results@.len() + params@.len())->Some_0;
                    let (x, args) = w.taken(f.stack, from, to)->Ok_0;
                    lemma_taken_valid(p, w, f.stack, from, to);
                    lemma_fiber_stays(p, w, x, f);
                    if is_async && !f.context.async_enabled {
                        lemma_raise_text_valid(
                            p,
                            x,
                            f,
                            RuntimeError::AsyncDisabled.spec_message(),
                        );
                    } else {
                        reveal(valid_fiber);
                    }
                },
                _ => {},
            }
        },
        None => {},
    }
}

proof fn lemma_call_valid(p: &Bytecode, w: VmView, f: FiberView, c: Ctx, inst: Instruction)
    requires
        good(p, w),
        valid_fiber(p, w, f),
        f.frames.len() > 0,
    ensures
        sound_step(p, op_call(p, w, f, c, inst)),
{
    match (w.read(c, p.consts@, inst.d), index_of(c.sb + inst.s0)) {
        (Ok(v), Some(base)) => match as_closure(w, v) {
            Ok(ClosureObj::Gos { func, uvs, recv }) => {
                lemma_good_parts(p, w);
                assert(valid_closure(p, w, w.closures[v->Closure_0 as int]));
                lemma_call_gos_valid(p, w, f, inst.t0, func, uvs, recv, base);
            },
            Ok(ClosureObj::Ffi { ffi, iface, index, meta, is_async }) => {
                lemma_call_ffi_valid(p, w, f, ffi, iface, index, meta, is_async, base);
            },
            Err(_) => {},
        },
        _ => {},
    }
}

proof fn lemma_init_vars_valid(
    p: &Bytecode,
    w: VmView,
    members: Region,
    mapping: Seq<usize>,
    vals: Seq<Value>,
    i: nat,
)
    requires
        good(p, w),
        valid_all(p, w, vals),
    ensures
        init_vars(w, members, mapping, vals, i) matches Some(x) ==> good(p, x),
    decreases vals.len() - i,
{
    if i < vals.len() && i < mapping.len() {
        match region_cell(members, mapping[i as int] as int) {
            Ok(a) => match w.with_cell(a as int, vals[i as int]) {
                Ok(x) => {
                    lemma_cell_valid(p, w, a as int, vals[i as int]);
                    lemma_added_grows(w, x);
                    lemma_all_stay(p, w, x, vals);
                    lemma_init_vars_valid(p, x, members, mapping, vals, i + 1);
                },
                Err(_) => {},
            },
            Err(_) => {},
        }
    }
}

proof fn lemma_init_package_valid(p: &Bytecode, w: VmView, f: FiberView, c: Ctx, inst: Instruction)
    requires
        good(p, w),
    ensures
        init_package(p, w, f, c, inst) matches Some(x) ==> good(p, x) && grows(w, x),
{
    match init_package(p, w, f, c, inst) {
        Some(y) => match w.read(c, p.consts@, inst.d) {
            Ok(Value::Package(k)) => {
                let locals = counts(p, f.top().func)->Some_0.2;
                let end = index_of(c.sb + locals)->Some_0;
                let (x, vals) = w.taken(f.stack, c.sb, end)->Ok_0;
                let pkg = p.packages@[k as int];
                let x1 = init_vars(x, pkg.members, pkg.var_mapping@, vals, 0)->Some_0;
                lemma_taken_valid(p, w, f.stack, c.sb, end);
                lemma_init_vars_grows(x, pkg.members, pkg.var_mapping@, vals, 0);
                lemma_grows_trans(w, x, x1);
                assert(grows(x1, y)) by {
                    reveal(grows);
                }
                lemma_grows_trans(w, x1, y);
                lemma_init_vars_valid(p, x, pkg.members, pkg.var_mapping@, vals, 0);
                lemma_good_other(p, x1, y.inited, x1.panic_data);
            },
            _ => {},
        },
        None => {},
    }
}

proof fn lemma_close_all_valid(p: &Bytecode, w: VmView, weaks: Seq<usize>, i: nat, val: Value)
    requires
        good(p, w),
        valid_value(p, w, val),
    ensures
        close_all(w, weaks, i, val) matches Ok(x) ==> good(p, x),
    decreases weaks.len() - i,
{
    if i < weaks.len() && weaks[i as int] < w.upvals.len() {
        let u = UpValueState::Closed(val);
        let x = VmView { upvals: w.upvals.update(weaks[i as int] as int, u), ..w };
        lemma_good_set_upval(p, w, weaks[i as int], u);
        lemma_value_stays(p, w, x, val);
        lemma_close_all_valid(p, x, weaks, i + 1, val);
    }
}

proof fn lemma_close_slots_valid(
    p: &Bytecode,
    w: VmView,
    stack: usize,
    base: OpIndex,
    refs: Referred,
    i: nat,
)
    requires
        good(p, w),
    ensures
        close_slots(w, stack, base, refs, i) matches Ok(x) ==> good(p, x),
    decreases refs.len() - i,
{
    if i < refs.len() {
        let weaks = refs[i as int].1.weaks;
        if weaks.len() == 0 {
            lemma_close_slots_valid(p, w, stack, base, refs, i + 1);
        } else {
            match offset(base, refs[i as int].0) {
                Ok(k) => match w.slot(stack, k) {
                    Ok(val) => {
                        lemma_good_parts(p, w);
                        assert(valid_all(p, w, w.stacks[stack as int]));
                        lemma_close_all_valid(p, w, weaks, 0, val);
                        match close_all(w, weaks, 0, val) {
                            Ok(x) => {
                                lemma_close_slots_valid(p, x, stack, base, refs, i + 1);
                            },
                            Err(_) => {},
                        }
                    },
                    Err(_) => {},
                },
                Err(_) => {},
            }
        }
    }
}

proof fn lemma_clear_frame_valid(p: &Bytecode, w: VmView, stack: usize, fr: FrameView)
    requires
        good(p, w),
    ensures
        clear_frame(p, w, stack, fr) matches Some(x) ==> good(p, x) && grows(w, x),
{
    match clear_frame(p, w, stack, fr) {
        Some(y) => {
            let refs = or_empty(fr.referred_by);
            let x = close_slots(w, stack, fr.stack_base, refs, 0)->Ok_0;
            let (rets, params, locals) = counts(p, fr.func)->Some_0;
            let from = index_of(fr.stack_base + rets)->Some_0;
            let to = index_of(fr.stack_base + rets + params + locals)->Some_0;
            lemma_close_slots_grows(w, stack, fr.stack_base, refs, 0);
            lemma_close_slots_valid(p, w, stack, fr.stack_base, refs, 0);
            lemma_taken_valid(p, x, stack, from, to);
            lemma_grows_trans(w, x, y);
        },
        None => {},
    }
}

/// A fiber without its last frame.
proof fn lemma_rest_valid(p: &Bytecode, w: VmView, f: FiberView)
    requires
        valid_fiber(p, w, f),
    ensures
        f.frames.len() > 0 ==> valid_fiber(
            p,
            w,
            FiberView { frames: f.frames.drop_last(), ..f },
        ),
{
    reveal(valid_fiber);
}

/// A fiber with another panic.
proof fn lemma_panic_valid(p: &Bytecode, w: VmView, f: FiberView, panic: Option<PanicView>)
    requires
        valid_fiber(p, w, f),
        panic matches Some(d) ==> valid_value(p, w, d.msg),
    ensures
        valid_fiber(p, w, FiberView { panic, ..f }),
{
    reveal(valid_fiber);
}

proof fn lemma_leave_valid(p: &Bytecode, w: VmView, f: FiberView)
    requires
        good(p, w),
        valid_fiber(p, w, f),
        f.frames.len() > 0,
    ensures
        sound_step(p, leave(p, w, f)),
{
    let rest = FiberView { frames: f.frames.drop_last(), ..f };
    lemma_rest_valid(p, w, f);
    assert(f.panic matches Some(d) ==> valid_value(p, w, d.msg)) by {
        reveal(valid_fiber);
    }
    match leave(p, w, f) {
        Some((x, g, _)) => {
            if rest.frames.len() == 0 {
                let w1 = VmView { panic_data: f.panic, ..w };
                lemma_good_other(p, w, w.inited, f.panic);
                lemma_added_grows(w, w1);
                lemma_panic_valid(p, w, rest, None);
                if f.stack < w.stacks.len() {
                    lemma_good_stack(p, w1, f.stack, seq![]);
                    lemma_grows_trans(w, w1, x);
                }
                lemma_fiber_stays(p, w, x, g);
            } else {
                match f.panic {
                    Some(d) => {
                        let end = last_pc(p, rest.top().func)->Some_0;
                        lemma_pc_valid(p, w, rest, end);
                        lemma_panic_valid(p, w, rest.with_pc(end), g.panic);
                    },
                    None => {},
                }
            }
        },
        None => {},
    }
}

proof fn lemma_run_deferred_valid(p: &Bytecode, w: VmView, f: FiberView)
    requires
        good(p, w),
        valid_fiber(p, w, f),
        f.frames.len() > 0,
        has_deferred(f.top()),
    ensures
        sound_step(p, run_deferred(p, w, f)),
{
    match run_deferred(p, w, f) {
        Some((z, g, _)) => {
            let fr = f.top();
            lemma_frame_valid(p, w, f, f.frames.len() - 1);
            let waiting = fr.defer_stack->Some_0;
            let call = waiting.last();
            assert(deferred(fr) == waiting);
            assert(valid_deferred(p, w, call)) by {
                assert(deferred(fr)[waiting.len() - 1] == call);
            }
            let pc = index_of(fr.pc - 1)->Some_0;
            let (rets, params, locals) = counts(p, fr.func)->Some_0;
            let base = index_of(fr.stack_base + rets + params + locals)->Some_0;
            let next = index_of(base + call.vec.len())->Some_0;
            let x = w.with_vec(f.stack, base, call.vec)->Ok_0;
            lemma_vec_valid(p, w, f.stack, base, call.vec);
            lemma_good_parts(p, x);
            let fo = p.functions@[call.func as int];
            assert(valid_function(p, x, fo));
            lemma_vec_valid(p, x, f.stack, next, fo.local_zeros@);
            lemma_grows_trans(w, x, z);
            let before = FrameView { pc, defer_stack: Some(waiting.drop_last()), ..fr };
            assert(valid_frame(p, w, before)) by {
                assert(deferred(before) == waiting.drop_last());
                assert forall|i: int| 0 <= i < deferred(before).len() implies valid_deferred(
                    p,
                    w,
                    #[trigger] deferred(before)[i],
                ) by {
                    assert(deferred(fr)[i] == deferred(before)[i]);
                }
            }
            lemma_top_valid(p, w, f, before);
            let after = FrameView {
                var_ptrs: call.var_ptrs,
                referred_by: call.referred_by,
                ..CallFrame::started(call.func, base)
            };
            assert(valid_frame(p, w, after)) by {
                assert(deferred(after).len() == 0);
            }
            assert(valid_fiber(p, w, f.with_top(before).with_call(after))) by {
                reveal(valid_fiber);
            }
            lemma_fiber_stays(p, w, z, g);
        },
        None => {},
    }
}

proof fn lemma_return_valid(p: &Bytecode, w: VmView, f: FiberView, c: Ctx, inst: Instruction)
    requires
        good(p, w),
        valid_fiber(p, w, f),
        f.frames.len() > 0,
    ensures
        sound_step(p, op_return(p, w, f, c, inst)),
{
    if inst.t0 == ValueType::FlagB {
        lemma_init_package_valid(p, w, f, c, inst);
        match init_package(p, w, f, c, inst) {
            Some(x) => {
                lemma_fiber_stays(p, w, x, f);
                lemma_leave_valid(p, x, f);
            },
            None => {},
        }
    } else if inst.t0 == ValueType::FlagC && has_deferred(f.top()) {
        lemma_run_deferred_valid(p, w, f);
    } else {
        lemma_clear_frame_valid(p, w, f.stack, f.top());
        match clear_frame(p, w, f.stack, f.top()) {
            Some(x) => {
                lemma_fiber_stays(p, w, x, f);
                lemma_leave_valid(p, x, f);
            },
            None => {},
        }
    }
}

proof fn lemma_owner_bound(frames: Seq<FrameView>, func: FunctionKey, k: int)
    requires
        k < frames.len(),
    ensures
        owner(frames, func, k) matches Some(i) ==> 0 < i < frames.len(),
    decreases k,
{
    if k > 0 {
        lemma_owner_bound(frames, func, k - 1);
    }
}

/// Whether all of several frames are valid.
spec fn valid_frames(p: &Bytecode, w: VmView, frames: Seq<FrameView>) -> bool {
    forall|i: int| 0 <= i < frames.len() ==> valid_frame(p, w, #[trigger] frames[i])
}

proof fn lemma_capture_valid(
    p: &Bytecode,
    w: VmView,
    frames: Seq<FrameView>,
    stack: usize,
    uvs: Region,
    i: nat,
)
    requires
        good(p, w),
        valid_frames(p, w, frames),
    ensures
        capture(w, frames, stack, uvs, i) matches Some((x, g)) ==> good(p, x) && valid_frames(
            p,
            x,
            g,
        ),
    decreases uvs.len - i,
{
    if i < uvs.len {
        match region_cell(uvs, i as int) {
            Ok(a) => match w.cell(a as int) {
                Ok(Value::Pointer(PointerObj::UpVal(id))) => {
                    if id < w.upvals.len() {
                        match w.upvals[id as int] {
                            UpValueState::Open(d) => {
                                lemma_owner_bound(frames, d.func, frames.len() - 1);
                                match owner(frames, d.func, frames.len() - 1) {
                                    Some(k) => {
                                        let u = UpValueState::Open(
                                            ValueDesc {
                                                stack: Some(stack),
                                                stack_base: frames[k].stack_base,
                                                ..d
                                            },
                                        );
                                        let x = VmView {
                                            upvals: w.upvals.update(id as int, u),
                                            ..w
                                        };
                                        let fr = FrameView {
                                            referred_by: Some(
                                                with_referrer(
                                                    or_empty(frames[k].referred_by),
                                                    d.index,
                                                    d.typ,
                                                    id,
                                                ),
                                            ),
                                            ..frames[k]
                                        };
                                        lemma_good_set_upval(p, w, id, u);
                                        assert(valid_frames(p, x, frames)) by {
                                            assert forall|j: int|
                                                0 <= j < frames.len() implies valid_frame(
                                                p,
                                                x,
                                                #[trigger] frames[j],
                                            ) by {
                                                lemma_frame_stays(p, w, x, frames[j]);
                                            }
                                        }
                                        assert(valid_frame(p, x, frames[k]));
                                        lemma_referrer_valid(
                                            x,
                                            frames[k].referred_by,
                                            d.index,
                                            d.typ,
                                            id,
                                        );
                                        assert(deferred(fr) == deferred(frames[k]));
                                        assert(valid_frame(p, x, fr));
                                        lemma_capture_valid(
                                            p,
                                            x,
                                            frames.update(k, fr),
                                            stack,
                                            uvs,
                                            i + 1,
                                        );
                                    },
                                    None => {
                                        lemma_capture_valid(p, w, frames, stack, uvs, i + 1);
                                    },
                                }
                            },
                            UpValueState::Closed(_) => {
                                lemma_capture_valid(p, w, frames, stack, uvs, i + 1);
                            },
                        }
                    }
                },
                Ok(_) => {
                    lemma_capture_valid(p, w, frames, stack, uvs, i + 1);
                },
                Err(_) => {},
            },
            Err(_) => {},
        }
    }
}

proof fn lemma_closure_valid(p: &Bytecode, w: VmView, f: FiberView, c: Ctx, inst: Instruction)
    requires
        good(p, w),
        valid_fiber(p, w, f),
    ensures
        sound_step(p, op_closure(p, w, f, c, inst)),
{
    match op_closure(p, w, f, c, inst) {
        Some((z, g, _)) => {
            if fits(z) {
                match spec_const(p.consts@, inst.s0) {
                    Ok(Value::Function(func)) => {
                        let (x, cls) = gos_from_func(p, w, func, None)->Ok_0;
                        let (y, frames) = match cls {
                            ClosureObj::Gos { uvs: Some(r), .. } => capture(
                                x,
                                f.frames,
                                f.stack,
                                r,
                                0,
                            )->Some_0,
                            _ => (x, f.frames),
                        };
                        let (y1, v) = new_closure(y, cls);
                        lemma_func_grows(p, w, func, None);
                        lemma_grows_self(x);
                        match cls {
                            ClosureObj::Gos { uvs: Some(r), .. } => {
                                lemma_capture_grows(x, f.frames, f.stack, r, 0);
                            },
                            _ => {},
                        }
                        lemma_added_grows(y, y1);
                        lemma_write_grows(y1, c, inst.d, v);
                        lemma_fits_before(y1, z);
                        lemma_fits_before(y, y1);
                        lemma_fits_before(x, y);
                        lemma_func_valid(p, w, func, None);
                        lemma_fiber_stays(p, w, x, f);
                        assert(valid_frames(p, x, f.frames)) by {
                            reveal(valid_fiber);
                        }
                        match cls {
                            ClosureObj::Gos { uvs: Some(r), .. } => {
                                lemma_capture_valid(p, x, f.frames, f.stack, r, 0);
                            },
                            _ => {},
                        }
                        lemma_fiber_stays(p, x, y, f);
                        assert(valid_fiber(p, y, g)) by {
                            reveal(valid_fiber);
                        }
                        lemma_closure_stays(p, x, y, cls);
                        lemma_good_closure(p, y, cls);
                        lemma_write_valid(p, y1, c, inst.d, v);
                        lemma_grows_trans(y, y1, z);
                        lemma_fiber_stays(p, y, z, g);
                    },
                    _ => {},
                }
            }
        },
        None => {},
    }
}

/// Whether all of several communications are valid.
spec fn valid_comms(p: &Bytecode, w: VmView, s: Seq<SelectComm>) -> bool {
    forall|i: int| 0 <= i < s.len() ==> valid_comm(p, w, #[trigger] s[i])
}

proof fn lemma_comms_stay(p: &Bytecode, w: VmView, x: VmView, s: Seq<SelectComm>)
    requires
        grows(w, x),
        valid_comms(p, w, s),
    ensures
        valid_comms(p, x, s),
{
    assert forall|i: int| 0 <= i < s.len() implies valid_comm(p, x, #[trigger] s[i]) by {
        lemma_value_stays(p, w, x, s[i].chan);
        match s[i].typ {
            SelectCommType::Send(v) => {
                lemma_value_stays(p, w, x, v);
            },
            _ => {},
        }
    }
}

proof fn lemma_select_comms_valid(
    p: &Bytecode,
    w: VmView,
    c: Ctx,
    code: Seq<Instruction>,
    pc: int,
    count: int,
    i: int,
    comms: Seq<SelectComm>,
)
    requires
        good(p, w),
        valid_comms(p, w, comms),
    ensures
        select_comms(p, w, c, code, pc, count, i, comms) matches Some((x, s)) ==> fits(x) ==> good(
            p,
            x,
        ) && valid_comms(p, x, s),
    decreases count - i,
{
    if i < count && 0 <= pc + i < code.len() {
        let entry = code[pc + i];
        lemma_read_valid(p, w, c, entry.s0);
        lemma_read_valid(p, w, c, entry.s1);
        match w.read(c, p.consts@, entry.s0) {
            Ok(chan) => match entry.t0 {
                ValueType::FlagA => match w.read(c, p.consts@, entry.s1) {
                    Ok(v) => match copy_semantic(w, v) {
                        Ok((x, val)) => {
                            let next = comms.push(
                                SelectComm {
                                    typ: SelectCommType::Send(val),
                                    chan,
                                    offset: entry.d,
                                },
                            );
                            lemma_select_grows(p, x, c, code, pc, count, i + 1, next);
                            match select_comms(p, x, c, code, pc, count, i + 1, next) {
                                Some((y, _)) => {
                                    if fits(y) {
                                        lemma_fits_before(x, y);
                                        lemma_copy_grows(w, v);
                                        lemma_copy_valid(p, w, v);
                                        lemma_comms_stay(p, w, x, comms);
                                        lemma_value_stays(p, w, x, chan);
                                        lemma_select_comms_valid(
                                            p,
                                            x,
                                            c,
                                            code,
                                            pc,
                                            count,
                                            i + 1,
                                            next,
                                        );
                                    }
                                },
                                None => {},
                            }
                        },
                        Err(_) => {},
                    },
                    Err(_) => {},
                },
                ValueType::FlagB | ValueType::FlagC | ValueType::FlagD => {
                    lemma_select_comms_valid(
                        p,
                        w,
                        c,
                        code,
                        pc,
                        count,
                        i + 1,
                        comms.push(
                            SelectComm {
                                typ: SelectCommType::Recv(entry.t0, entry.s1),
                                chan,
                                offset: entry.d,
                            },
                        ),
                    );
                },
                _ => {},
            },
            Err(_) => {},
        }
    }
}

/// A fiber that waits for an answer.
proof fn lemma_waiting_valid(p: &Bytecode, w: VmView, f: FiberView, pending: Option<Pending>)
    requires
        valid_fiber(p, w, f),
        pending matches Some(q) ==> valid_pending(p, w, q),
    ensures
        valid_fiber(p, w, f.waiting(pending)),
{
    reveal(valid_fiber);
}

proof fn lemma_select_valid(
    p: &Bytecode,
    w: VmView,
    f: FiberView,
    c: Ctx,
    inst: Instruction,
    code: Seq<Instruction>,
)
    requires
        good(p, w),
        valid_fiber(p, w, f),
        f.frames.len() > 0,
    ensures
        sound_step(p, op_select(p, w, f, c, inst, code)),
{
    match op_select(p, w, f, c, inst, code) {
        Some((x, g, _)) => {
            if fits(x) {
                let count = inst.s0 as int;
                let at = f.top().pc as int;
                let comms = select_comms(p, w, c, code, at, count, 0, seq![])->Some_0.1;
                lemma_select_grows(p, w, c, code, at, count, 0, seq![]);
                lemma_select_comms_valid(p, w, c, code, at, count, 0, seq![]);
                lemma_fiber_stays(p, w, x, f);
                let pc = index_of(f.top().pc + count)->Some_0;
                lemma_pc_valid(p, x, f, pc);
                let h = FiberView { comms, ..f.with_pc(pc) };
                assert(valid_fiber(p, x, h)) by {
                    reveal(valid_fiber);
                }
                lemma_waiting_valid(p, x, h, g.pending);
            }
        },
        None => {},
    }
}

/// Every character has a small number.
proof fn lemma_char_small(b: Seq<u8>, i: int)
    ensures
        char_at(b, i) matches Ok((c, _)) ==> c <= 0x10ffff,
{
    let rest = b.subrange(i, b.len() as int);
    let b1 = rest[0];
    let b2 = rest[1];
    let b3 = rest[2];
    assert((b1 & 0x7f) <= 0x7f) by (bit_vector);
    assert((((b1 & 0x1f) as u32) << 6) | ((b2 & 0x3f) as u32) <= 0x7ff) by (bit_vector);
    assert((((b1 & 0x0f) as u32) << 12) | (((b2 & 0x3f) as u32) << 6) | ((b3 & 0x3f) as u32)
        <= 0xffff) by (bit_vector);
}

proof fn lemma_next_entry_valid(p: &Bytecode, w: VmView, m: usize, keys: Seq<Value>, i: nat)
    requires
        good(p, w),
    ensures
        next_entry(p, w, m, keys, i) matches Ok(Some((k, v))) ==> k < keys.len() && valid_value(
            p,
            w,
            v,
        ),
    decreases keys.len() - i,
{
    if i < keys.len() {
        lemma_get_valid(p, w, m, keys[i as int]);
        lemma_next_entry_valid(p, w, m, keys, i + 1);
    }
}

/// What a walk comes to is valid.
proof fn lemma_range_next_valid(p: &Bytecode, w: VmView, it: RangeIter)
    requires
        good(p, w),
        fits(w),
        valid_iter(w, it),
    ensures
        range_next(p, w, it) matches Ok(Some((k, v, next))) ==> valid_value(p, w, k)
            && valid_value(p, w, v) && valid_iter(w, next),
{
    lemma_good_parts(p, w);
    match it {
        RangeIter::Text { s, next } => match str_bytes(w.cells, s) {
            Ok(b) => {
                lemma_char_small(b, next as int);
            },
            Err(_) => {},
        },
        RangeIter::Dict { map, keys, next } => match region_seq(w.cells, keys) {
            Ok(ks) => {
                lemma_next_entry_valid(p, w, map, ks, next as nat);
            },
            Err(_) => {},
        },
        _ => {},
    }
}

proof fn lemma_range_init_valid(p: &Bytecode, w: VmView, f: FiberView, c: Ctx, inst: Instruction)
    requires
        good(p, w),
        valid_fiber(p, w, f),
    ensures
        sound_step(p, op_range_init(p, w, f, c, inst)),
{
    lemma_raise_text_valid(p, w, f, RuntimeError::NilAccess.spec_message());
    match w.read(c, p.consts@, inst.s0) {
        Ok(v) => match range_init(w, v, inst.t0) {
            Ok((x, it)) => {
                if fits(x) {
                    lemma_read_valid(p, w, c, inst.s0);
                    lemma_good_parts(p, w);
                    lemma_grows_self(w);
                    match v {
                        Value::GoMap(m) => {
                            assert(valid_entries(p, w, w.maps[m as int]));
                            lemma_good_more_cells(p, w, entry_keys(w.maps[m as int]));
                        },
                        _ => {},
                    }
                    lemma_fiber_stays(p, w, x, f);
                    reveal(valid_fiber);
                }
            },
            Err(_) => {},
        },
        Err(_) => {},
    }
}

proof fn lemma_latest_bound(s: Seq<RangeIter>, t: ValueType, n: int)
    requires
        n <= s.len(),
    ensures
        latest_walk(s, t, n) matches Some(k) ==> 0 <= k < s.len(),
    decreases n,
{
    if n > 0 {
        lemma_latest_bound(s, t, n - 1);
    }
}

proof fn lemma_advance_valid(p: &Bytecode, w: VmView, f: FiberView, d: OpIndex)
    requires
        good(p, w),
        valid_fiber(p, w, f),
        f.frames.len() > 0,
    ensures
        sound_step(p, advance(w, f, d)),
{
    match index_of(f.top().pc + d) {
        Some(pc) => {
            lemma_pc_valid(p, w, f, pc);
        },
        None => {},
    }
}

proof fn lemma_range_valid(p: &Bytecode, w: VmView, f: FiberView, c: Ctx, inst: Instruction)
    requires
        good(p, w),
        valid_fiber(p, w, f),
        f.frames.len() > 0,
    ensures
        sound_step(p, op_range(p, w, f, c, inst)),
{
    match op_range(p, w, f, c, inst) {
        Some((z, g, _)) => {
            let i = latest_walk(f.rstack, inst.t0, f.rstack.len() as int)->Some_0;
            lemma_latest_bound(f.rstack, inst.t0, f.rstack.len() as int);
            match range_next(p, w, f.rstack[i]) {
                Ok(Some((k, v, it))) => {
                    if fits(z) {
                        let y = w.write(c, inst.d, k)->Ok_0;
                        lemma_write_grows(w, c, inst.d, k);
                        lemma_write_grows(y, c, inst.s1, v);
                        lemma_fits_before(y, z);
                        lemma_fits_before(w, y);
                        assert(valid_iter(w, f.rstack[i])) by {
                            reveal(valid_fiber);
                        }
                        lemma_range_next_valid(p, w, f.rstack[i]);
                        lemma_write_valid(p, w, c, inst.d, k);
                        lemma_value_stays(p, w, y, v);
                        lemma_write_valid(p, y, c, inst.s1, v);
                        lemma_grows_trans(w, y, z);
                        assert(valid_fiber(p, w, g)) by {
                            reveal(valid_fiber);
                        }
                        lemma_fiber_stays(p, w, z, g);
                    }
                },
                _ => {
                    let shorter = FiberView { rstack: f.rstack.remove(i), ..f };
                    assert(valid_fiber(p, w, shorter)) by {
                        reveal(valid_fiber);
                    }
                    lemma_advance_valid(p, w, shorter, inst.s0);
                },
            }
        },
        None => {},
    }
}

proof fn lemma_recover_valid(p: &Bytecode, w: VmView, f: FiberView, c: Ctx, inst: Instruction)
    requires
        good(p, w),
        valid_fiber(p, w, f),
    ensures
        sound_step(p, op_recover(w, f, c, inst)),
{
    match op_recover(w, f, c, inst) {
        Some((z, g, _)) => {
            if fits(z) {
                let (x, v) = match f.panic {
                    Some(d) => boxed(w, d.msg, None),
                    None => (w, void()),
                };
                lemma_added_grows(w, x);
                lemma_write_grows(x, c, inst.d, v);
                lemma_fits_before(x, z);
                match f.panic {
                    Some(d) => {
                        assert(valid_value(p, w, d.msg)) by {
                            reveal(valid_fiber);
                        }
                        lemma_boxed_valid(p, w, d.msg, None);
                    },
                    None => {},
                }
                lemma_write_valid(p, x, c, inst.d, v);
                lemma_grows_trans(w, x, z);
                lemma_panic_valid(p, w, f, None);
                lemma_fiber_stays(p, w, z, g);
            }
        },
        None => {},
    }
}

proof fn lemma_channel_valid(p: &Bytecode, w: VmView, f: FiberView, c: Ctx, inst: Instruction)
    requires
        good(p, w),
        valid_fiber(p, w, f),
    ensures
        sound_step(p, op_send(p, w, f, c, inst)),
        sound_step(p, op_recv(p, w, f, c, inst)),
        sound_step(p, op_close(p, w, f, c, inst)),
        sound_step(p, op_ffi(p, w, f, c, inst)),
{
    lemma_read_valid(p, w, c, inst.s0);
    lemma_read_valid(p, w, c, inst.s1);
    lemma_waiting_valid(p, w, f, Some(Pending::Send));
    lemma_waiting_valid(p, w, f, Some(Pending::Forever));
    lemma_waiting_valid(p, w, f, Some(Pending::FfiCreate { inst }));
    lemma_waiting_valid(p, w, f, None);
    match w.read(c, p.consts@, inst.s0) {
        Ok(Value::Channel(chan)) => {
            lemma_waiting_valid(p, w, f, Some(Pending::Recv { inst, chan }));
        },
        _ => {},
    }
}

proof fn lemma_fiber_inst_valid(
    p: &Bytecode,
    w: VmView,
    f: FiberView,
    c: Ctx,
    inst: Instruction,
    code: Seq<Instruction>,
)
    requires
        good(p, w),
        valid_fiber(p, w, f),
        f.frames.len() > 0,
    ensures
        sound_step(p, fiber_inst(p, w, f, c, inst, code)),
{
    lemma_raise_text_valid(p, w, f, RuntimeError::AsyncDisabled.spec_message());
    match inst.op0 {
        Opcode::CALL => {
            lemma_call_valid(p, w, f, c, inst);
        },
        Opcode::RETURN => {
            lemma_return_valid(p, w, f, c, inst);
        },
        Opcode::CLOSURE => {
            lemma_closure_valid(p, w, f, c, inst);
        },
        Opcode::RANGE_INIT => {
            lemma_range_init_valid(p, w, f, c, inst);
        },
        Opcode::RANGE => {
            lemma_range_valid(p, w, f, c, inst);
        },
        Opcode::RECOVER => {
            lemma_recover_valid(p, w, f, c, inst);
        },
        Opcode::PANIC => {
            lemma_read_valid(p, w, c, inst.s0);
            match w.read(c, p.consts@, inst.s0) {
                Ok(msg) => {
                    lemma_raise_valid(p, w, f, msg);
                },
                Err(_) => {},
            }
        },
        Opcode::SELECT => {
            lemma_select_valid(p, w, f, c, inst, code);
        },
        Opcode::SEND | Opcode::RECV | Opcode::CLOSE | Opcode::FFI => {
            lemma_channel_valid(p, w, f, c, inst);
        },
        _ => {},
    }
}

proof fn lemma_data_valid(
    p: &Bytecode,
    w: VmView,
    c: Ctx,
    inst: Instruction,
    next: Option<Instruction>,
    async_enabled: bool,
)
    requires
        good(p, w),
    ensures
        sound_outcome(p, data_inst(p, w, c, inst, next, async_enabled)),
{
    let ex = match next {
        Some(ex) => ex,
        None => inst,
    };
    match group(inst.op0) {
        Group::Place => {
            lemma_place_valid(p, w, c, inst, ex);
        },
        Group::Word => {
            lemma_word_valid(p, w, c, inst);
        },
        Group::Type => {
            lemma_type_valid(p, w, c, inst, next);
        },
        Group::Make => {
            lemma_make_valid(p, w, c, inst, next, async_enabled);
        },
        Group::Fiber => {},
    }
}

/// Every value leads somewhere: as long as the tables are no longer than a machine
/// can count, whatever instruction a fiber runs, what the tables, the fiber and a
/// new fiber refer to is there, and every integer is in the range of its type. The
/// same holds of what the host is asked about.
pub proof fn law_step_keeps_valid(p: &Bytecode, w: VmView, f: FiberView)
    requires
        good(p, w),
        valid_fiber(p, w, f),
    ensures
        step(p, w, f) matches Some((x, g, s)) ==> fits(x) ==> good(p, x) && valid_fiber(p, x, g)
            && valid_step(p, x, s),
{
    match fetch(p, f) {
        Some((f1, inst, next)) => {
            let c = context_of(f);
            lemma_pc_valid(p, w, f, f1.top().pc);
            assert(valid_fiber(p, w, f1)) by {
                reveal(valid_fiber);
                assert(f1.frames == f.with_pc(f1.top().pc).frames);
            }
            if group(inst.op0) == Group::Fiber {
                lemma_fiber_inst_valid(
                    p,
                    w,
                    f1,
                    c,
                    inst,
                    p.functions@[f.top().func as int].code@,
                );
            } else {
                let r = data_inst(p, w, c, inst, next, f.context.async_enabled);
                lemma_data_valid(p, w, c, inst, next, f.context.async_enabled);
                lemma_data_grows(
                    p,
                    w,
                    c,
                    inst,
                    next,
                    f.context.async_enabled,
                );
                match r {
                    Ok((x, Effect::Next(d))) => {
                        if fits(x) {
                            lemma_fiber_stays(p, w, x, f1);
                            lemma_advance_valid(p, x, f1, d);
                        }
                    },
                    Ok((x, Effect::Raise(e))) => {
                        lemma_raise_grows(p, x, f1, e.spec_message());
                        match raise_text(p, x, f1, e.spec_message()) {
                            Some((y, _, _)) => {
                                if fits(y) {
                                    lemma_fits_before(x, y);
                                    lemma_fiber_stays(p, w, x, f1);
                                    lemma_raise_text_valid(p, x, f1, e.spec_message());
                                }
                            },
                            None => {},
                        }
                    },
                    Ok((x, Effect::Ask(q, pending))) => {
                        if fits(x) {
                            lemma_fiber_stays(p, w, x, f1);
                            lemma_waiting_valid(p, x, f1, Some(pending));
                        }
                    },
                    Err(Trap::Panic(e)) => {
                        lemma_raise_text_valid(p, w, f1, e.spec_message());
                    },
                    Err(Trap::Fault) => {},
                }
            }
        },
        None => {},
    }
}

proof fn lemma_unit_valid(p: &Bytecode, w: VmView, f: FiberView, n: nat)
    requires
        good(p, w),
        valid_fiber(p, w, f),
    ensures
        sound_step(p, run_unit(p, w, f, n)),
    decreases n,
{
    if n == 0 {
        lemma_panic_valid(p, w, f, None);
        reveal(valid_fiber);
    } else {
        law_step_keeps_valid(p, w, f);
        match step(p, w, f) {
            Some((x, g, StepView::Next)) => {
                lemma_unit_grows(p, x, g, (n - 1) as nat);
                match run_unit(p, x, g, (n - 1) as nat) {
                    Some((y, _, _)) => {
                        if fits(y) {
                            lemma_fits_before(x, y);
                            lemma_unit_valid(p, x, g, (n - 1) as nat);
                        }
                    },
                    None => {},
                }
            },
            Some((x, g, s)) => {
                if fits(x) {
                    let h = FiberView { unit_left: (n - 1) as usize, ..g };
                    assert(valid_fiber(p, x, h)) by {
                        reveal(valid_fiber);
                    }
                }
            },
            None => {},
        }
    }
}

proof fn lemma_room_valid(p: &Bytecode, w: VmView, stack: usize, base: OpIndex, fo: FunctionObj)
    requires
        good(p, w),
    ensures
        good(p, with_room(w, stack, base, fo)),
        grows(w, with_room(w, stack, base, fo)),
{
    lemma_grows_self(w);
    match index_of(base + fo.max_write_index + 1) {
        Some(n) => {
            lemma_vec_valid(p, w, stack, n, seq![]);
        },
        None => {},
    }
}

/// Every value leads somewhere, however long a fiber runs.
pub proof fn law_run_keeps_valid(p: &Bytecode, w: VmView, f: FiberView)
    requires
        good(p, w),
        valid_fiber(p, w, f),
    ensures
        main_loop(p, w, f) matches Some((x, g, s)) ==> fits(x) ==> good(p, x) && valid_fiber(
            p,
            x,
            g,
        ) && valid_step(p, x, s),
{
    match begin(p, w, f) {
        Some((x, g)) => {
            if !f.started {
                let fo = p.functions@[f.top().func as int];
                lemma_good_parts(p, w);
                assert(valid_function(p, w, fo));
                let y = with_room(w, f.stack, f.top().stack_base, fo);
                lemma_room_valid(p, w, f.stack, f.top().stack_base, fo);
                lemma_all_stay(p, w, y, fo.local_zeros@);
                lemma_vec_valid(p, y, f.stack, fo.param_count, fo.local_zeros@);
                lemma_grows_trans(w, y, x);
                lemma_fiber_stays(p, w, x, f);
                assert(valid_fiber(p, x, g)) by {
                    reveal(valid_fiber);
                }
            }
            lemma_unit_valid(p, x, g, g.unit_left as nat);
        },
        None => {},
    }
}

/// Whether an answer of the host refers to what is there.
pub open spec fn valid_reply(p: &Bytecode, w: VmView, r: Reply) -> bool {
    match r {
        Reply::Value(v) => valid_value(p, w, v),
        Reply::Received(Some(v)) => valid_value(p, w, v),
        Reply::Selected(_, Some(v)) => valid_value(p, w, v),
        Reply::Returned(vals) => valid_all(p, w, vals@),
        _ => true,
    }
}

proof fn lemma_received_valid(p: &Bytecode, w: VmView, chan: usize, v: Option<Value>)
    requires
        good(p, w),
        v matches Some(x) ==> valid_value(p, w, x),
    ensures
        received(w, chan, v) matches Some((x, val, _)) ==> fits(x) ==> good(p, x) && valid_value(
            p,
            x,
            val,
        ),
{
    lemma_good_parts(p, w);
    if chan < w.chans.len() {
        assert(valid_value(p, w, w.chans[chan as int].recv_zero));
        lemma_copy_valid(p, w, w.chans[chan as int].recv_zero);
    }
}

proof fn lemma_finish_recv_valid(
    p: &Bytecode,
    w: VmView,
    f: FiberView,
    c: Ctx,
    inst: Instruction,
    chan: usize,
    v: Option<Value>,
)
    requires
        good(p, w),
        valid_fiber(p, w, f),
        v matches Some(x) ==> valid_value(p, w, x),
    ensures
        sound_step(p, finish_recv(w, f, c, inst, chan, v)),
{
    match finish_recv(w, f, c, inst, chan, v) {
        Some((z, _, _)) => {
            if fits(z) {
                let (x, val, ok) = received(w, chan, v)->Some_0;
                let y = x.write(c, inst.d, val)->Ok_0;
                lemma_received_grows(w, chan, v);
                lemma_write_grows(x, c, inst.d, val);
                lemma_grows_trans(w, x, y);
                if inst.t1 == ValueType::FlagB {
                    lemma_write_grows(y, c, inst.s1, Value::Bool(ok));
                    lemma_fits_before(y, z);
                    lemma_grows_trans(w, y, z);
                }
                lemma_fits_before(x, y);
                lemma_received_valid(p, w, chan, v);
                lemma_write_valid(p, x, c, inst.d, val);
                lemma_write_valid(p, y, c, inst.s1, Value::Bool(ok));
                lemma_fiber_stays(p, w, z, f);
            }
        },
        None => {},
    }
}

proof fn lemma_finish_select_valid(
    p: &Bytecode,
    w: VmView,
    f: FiberView,
    c: Ctx,
    default_offset: Option<OpIndex>,
    i: usize,
    v: Option<Value>,
)
    requires
        good(p, w),
        valid_fiber(p, w, f),
        f.frames.len() > 0,
        v matches Some(x) ==> valid_value(p, w, x),
    ensures
        sound_step(p, finish_select(w, f, c, default_offset, i, v)),
{
    if i >= f.comms.len() {
        match default_offset {
            Some(d) => {
                lemma_advance_valid(p, w, f, d);
            },
            None => {},
        }
    } else {
        let comm = f.comms[i as int];
        match (comm.typ, comm.chan) {
            (SelectCommType::Send(_), _) => {
                lemma_advance_valid(p, w, f, comm.offset);
            },
            (SelectCommType::Recv(flag, dst), Value::Channel(chan)) => {
                match finish_select(w, f, c, default_offset, i, v) {
                    Some((z, _, _)) => {
                        if fits(z) {
                            let (x, val, ok) = received(w, chan, v)->Some_0;
                            lemma_received_grows(w, chan, v);
                            lemma_added_grows(x, z);
                            lemma_fits_before(x, z);
                            lemma_received_valid(p, w, chan, v);
                            lemma_write_valid(p, x, c, dst, val);
                            match x.write(c, dst, val) {
                                Ok(y) => match index_of(dst + 1) {
                                    Some(next) => {
                                        lemma_write_valid(p, y, c, next, Value::Bool(ok));
                                    },
                                    None => {},
                                },
                                Err(_) => {},
                            }
                            assert(good(p, z));
                            lemma_grows_trans(w, x, z);
                            lemma_fiber_stays(p, w, z, f);
                            lemma_advance_valid(p, z, f, comm.offset);
                        }
                    },
                    None => {},
                }
            },
            _ => {},
        }
    }
}

proof fn lemma_finish_create_valid(
    p: &Bytecode,
    w: VmView,
    f: FiberView,
    c: Ctx,
    inst: Instruction,
    ffi: usize,
)
    requires
        good(p, w),
        valid_fiber(p, w, f),
    ensures
        sound_step(p, finish_create(p, w, f, c, inst, ffi)),
{
    match finish_create(p, w, f, c, inst, ffi) {
        Some((x, _, _)) => {
            let m = as_metadata(w.read(c, p.consts@, inst.s0)->Ok_0)->Ok_0;
            let meta = underlying(p, m)->Ok_0;
            let v = Value::Interface(InterfaceObj::Ffi { ffi, meta });
            lemma_write_grows(w, c, inst.d, v);
            lemma_write_valid(p, w, c, inst.d, v);
            lemma_fiber_stays(p, w, x, f);
        },
        None => {},
    }
}

/// Every value leads somewhere, whatever the host answers, if what it answers with
/// does.
pub proof fn law_resume_keeps_valid(p: &Bytecode, w: VmView, f: FiberView, reply: Reply)
    requires
        good(p, w),
        valid_fiber(p, w, f),
        valid_reply(p, w, reply),
    ensures
        resume(p, w, f, reply) matches Some((x, g, s)) ==> fits(x) ==> good(p, x) && valid_fiber(
            p,
            x,
            g,
        ) && valid_step(p, x, s),
{
    let g = f.waiting(None);
    let c = context_of(g);
    lemma_waiting_valid(p, w, f, None);
    assert(f.pending matches Some(q) ==> valid_pending(p, w, q)) by {
        reveal(valid_fiber);
    }
    match resume(p, w, f, reply) {
        Some((z, _, _)) => {
            law_resume_grows(p, w, f, reply);
            match (f.pending, reply) {
                (Some(Pending::Store { place, typ }), Reply::Value(v)) => {
                    lemma_store_valid(p, w, place, v);
                    lemma_fiber_stays(p, w, z, g);
                },
                (Some(Pending::Text { place }), Reply::Value(v)) => {
                    let (x, s) = char_text(w, v)->Ok_0;
                    lemma_added_grows(w, x);
                    lemma_store_grows(p, x, place, s);
                    if fits(z) {
                        lemma_fits_before(x, z);
                        lemma_char_text_valid(p, w, v);
                        lemma_place_stays(p, w, x, place);
                        lemma_store_valid(p, x, place, s);
                        lemma_fiber_stays(p, w, z, g);
                    }
                },
                (Some(Pending::Shift { place, op, typ, val }), Reply::Value(n)) => {
                    lemma_calculate_valid(p, w, Ok(place), op, typ, val, n);
                    lemma_fiber_stays(p, w, z, g);
                },
                (Some(Pending::Recv { inst, chan }), Reply::Received(v)) => {
                    lemma_finish_recv_valid(p, w, g, c, inst, chan, v);
                },
                (Some(Pending::Select { default_offset }), Reply::Selected(i, v)) => {
                    lemma_finish_select_valid(p, w, g, c, default_offset, i, v);
                },
                (Some(Pending::FfiCreate { inst }), Reply::Created(ffi)) => {
                    lemma_finish_create_valid(p, w, g, c, inst, ffi);
                },
                (Some(Pending::FfiCall { begin }), Reply::Returned(vals)) => {
                    lemma_vec_valid(p, w, g.stack, begin, vals@);
                    lemma_fiber_stays(p, w, z, g);
                },
                (_, Reply::Failed(m)) => {
                    lemma_raise_text_valid(p, w, g, m@);
                },
                _ => {},
            }
        },
        None => {},
    }
}

/// Every value leads somewhere at the start of a program.
pub proof fn law_start_is_valid(p: &Bytecode, w: VmView, context: Context)
    requires
        good(p, w),
    ensures
        started(p, w, context) matches Some((x, f)) ==> fits(x) ==> good(p, x) && valid_fiber(
            p,
            x,
            f,
        ),
{
    match started(p, w, context) {
        Some((y, f)) => {
            if fits(y) {
                let x = gos_from_func(p, w, p.entry, None)->Ok_0.0;
                lemma_added_grows(x, y);
                lemma_fits_before(x, y);
                lemma_func_valid(p, w, p.entry, None);
                lemma_fresh_stack_valid(p, x, seq![]);
                lemma_good_new_stack(p, x, fresh_stack(seq![]));
                let fr = CallFrame::started(p.entry, 0);
                assert(deferred(fr).len() == 0);
                assert(or_empty(fr.referred_by).len() == 0);
                lemma_new_fiber_valid(p, y, context, x.stacks.len() as usize, fr);
            }
        },
        None => {},
    }
}

} // verus!

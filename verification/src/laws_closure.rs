//! What holds of captured variables and the frames that they lie in.
use vstd::prelude::*;
use crate::bytecode::{Bytecode, ValueDesc};
use crate::closure::{gos_from_func, new_uvs};
use crate::frame::{
    close_all, close_slots, noted_as, or_empty, slot_pos, with_referrer, FrameView, Referred,
};
use crate::laws_memory::{law_return_keeps_captured, noted, notes_right};
use crate::machine::{offset, ClosureObj, UpValueState, VmView};
use crate::ops_call::{capture, captured, enter, link, owner};
use crate::trap::Trap;
use crate::value::{FunctionKey, OpIndex, PointerObj, Region, Value, ValueType};

verus! {

/// Whether a captured variable lies in a slot of a frame.
pub open spec fn lies(w: VmView, stack: usize, base: OpIndex, index: OpIndex, id: usize) -> bool {
    &&& id < w.upvals.len()
    &&& w.upvals[id as int] matches UpValueState::Open(d)
    &&& d.stack == Some(stack)
    &&& d.stack_base == base
    &&& d.index == index
}

/// Whether all the captured variables that a frame notes lie in it.
pub open spec fn notes_open(w: VmView, stack: usize, base: OpIndex, refs: Referred) -> bool {
    forall|i: int, j: int|
        #![trigger refs[i].1.weaks[j]]
        0 <= i < refs.len() && 0 <= j < refs[i].1.weaks.len() ==> lies(
            w,
            stack,
            base,
            refs[i].0,
            refs[i].1.weaks[j],
        )
}

/// Whether a frame notes no captured variable from number `n` on.
pub open spec fn notes_below(refs: Referred, n: int) -> bool {
    forall|i: int, j: int|
        #![trigger refs[i].1.weaks[j]]
        0 <= i < refs.len() && 0 <= j < refs[i].1.weaks.len() ==> refs[i].1.weaks[j] < n
}

/// Whether a captured variable has a life of its own in the second state, and
/// holds what it held in the first.
pub open spec fn survives(w: VmView, w1: VmView, id: usize) -> bool {
    w.upvalue(id) matches Ok(v) && w1.upvals[id as int] == UpValueState::Closed(v)
}

/// What a frame notes is right while the variables lie in it. So when its
/// function returns, they keep what they hold, with a life of their own.
pub proof fn law_noted_variables_survive(w: VmView, stack: usize, base: OpIndex, refs: Referred)
    requires
        notes_open(w, stack, base, refs),
    ensures
        notes_right(w, stack, base, refs),
        close_slots(w, stack, base, refs, 0) matches Ok(w1) ==> forall|i: int, j: int|
            #![trigger refs[i].1.weaks[j]]
            0 <= i < refs.len() && 0 <= j < refs[i].1.weaks.len() ==> survives(
                w,
                w1,
                refs[i].1.weaks[j],
            ),
{
    assert forall|i: int, j: int|
        #![trigger refs[i].1.weaks[j]]
        0 <= i < refs.len() && 0 <= j < refs[i].1.weaks.len() implies noted(
        w,
        stack,
        base,
        refs[i].0,
        refs[i].1.weaks[j],
    ) by {
        assert(lies(w, stack, base, refs[i].0, refs[i].1.weaks[j]));
    }
    law_return_keeps_captured(w, stack, base, refs);
    match close_slots(w, stack, base, refs, 0) {
        Ok(w1) => {
            assert forall|i: int, j: int|
                #![trigger refs[i].1.weaks[j]]
                0 <= i < refs.len() && 0 <= j < refs[i].1.weaks.len() implies survives(
                w,
                w1,
                refs[i].1.weaks[j],
            ) by {
                let id = refs[i].1.weaks[j];
                assert(lies(w, stack, base, refs[i].0, id));
                assert(w1.upvalue(id) == w.upvalue(id));
                assert(w1.upvals[id as int] is Closed);
            }
        },
        Err(_) => {},
    }
}

/// Whether no captured variable is noted for two slots.
pub open spec fn one_slot_each(refs: Referred) -> bool {
    forall|i: int, j: int, k: int, l: int|
        #![trigger refs[i].1.weaks[j], refs[k].1.weaks[l]]
        0 <= i < refs.len() && 0 <= j < refs[i].1.weaks.len() && 0 <= k < refs.len() && 0 <= l
            < refs[k].1.weaks.len() && refs[i].1.weaks[j] == refs[k].1.weaks[l] ==> refs[i].0
            == refs[k].0
}

/// Whether a captured variable is noted, from the `i`th slot of the list on.
pub open spec fn notes_variable(refs: Referred, i: nat, id: int) -> bool {
    exists|k: int, l: int|
        #![trigger refs[k].1.weaks[l]]
        i <= k < refs.len() && 0 <= l < refs[k].1.weaks.len() && refs[k].1.weaks[l] == id
}

/// Whether every slot that is noted and every captured variable noted for it is
/// there.
pub open spec fn notes_there(w: VmView, stack: usize, base: OpIndex, refs: Referred) -> bool {
    forall|i: int, j: int|
        #![trigger refs[i].1.weaks[j]]
        0 <= i < refs.len() && 0 <= j < refs[i].1.weaks.len() ==> refs[i].1.weaks[j]
            < w.upvals.len() && slot_of(w, stack, base, refs[i].0) is Ok
}

/// What a slot of a frame holds.
pub open spec fn slot_of(w: VmView, stack: usize, base: OpIndex, index: OpIndex) -> Result<
    Value,
    Trap,
> {
    match offset(base, index) {
        Ok(k) => w.slot(stack, k),
        Err(e) => Err(e),
    }
}

proof fn lemma_close_all(w: VmView, weaks: Seq<usize>, i: nat, val: Value)
    requires
        i <= weaks.len(),
    ensures
        (forall|j: int| i <= j < weaks.len() ==> #[trigger] weaks[j] < w.upvals.len())
            ==> close_all(w, weaks, i, val) is Ok,
        close_all(w, weaks, i, val) matches Ok(x) ==> {
            &&& x == (VmView { upvals: x.upvals, ..w })
            &&& x.upvals.len() == w.upvals.len()
            &&& forall|j: int|
                i <= j < weaks.len() ==> (#[trigger] weaks[j]) < w.upvals.len()
                    && x.upvals[weaks[j] as int] == UpValueState::Closed(val)
            &&& forall|id: int|
                0 <= id < w.upvals.len() && (forall|j: int|
                    i <= j < weaks.len() ==> #[trigger] weaks[j] != id) ==> #[trigger] x.upvals[id]
                    == w.upvals[id]
        },
    decreases weaks.len() - i,
{
    if i < weaks.len() && weaks[i as int] < w.upvals.len() {
        let x = VmView {
            upvals: w.upvals.update(weaks[i as int] as int, UpValueState::Closed(val)),
            ..w
        };
        lemma_close_all(x, weaks, i + 1, val);
        match close_all(x, weaks, i + 1, val) {
            Ok(y) => {
                assert(y.upvals[weaks[i as int] as int] == UpValueState::Closed(val)) by {
                    if forall|j: int|
                        i + 1 <= j < weaks.len() ==> #[trigger] weaks[j] != weaks[i as int] as int {
                        assert(y.upvals[weaks[i as int] as int] == x.upvals[weaks[i as int] as int]);
                    }
                }
            },
            Err(_) => {},
        }
    }
}

proof fn lemma_close_from(w: VmView, stack: usize, base: OpIndex, refs: Referred, i: nat)
    requires
        one_slot_each(refs),
        i <= refs.len(),
    ensures
        notes_there(w, stack, base, refs) ==> close_slots(w, stack, base, refs, i) is Ok,
        close_slots(w, stack, base, refs, i) matches Ok(x) ==> {
            &&& x == (VmView { upvals: x.upvals, ..w })
            &&& x.upvals.len() == w.upvals.len()
            &&& forall|k: int, l: int|
                #![trigger refs[k].1.weaks[l]]
                i <= k < refs.len() && 0 <= l < refs[k].1.weaks.len() ==> closed_to(
                    x,
                    refs[k].1.weaks[l],
                    slot_of(w, stack, base, refs[k].0),
                )
            &&& forall|id: int|
                0 <= id < w.upvals.len() && !notes_variable(refs, i, id)
                    ==> #[trigger] x.upvals[id] == w.upvals[id]
        },
    decreases refs.len() - i,
{
    if i < refs.len() {
        let weaks = refs[i as int].1.weaks;
        if weaks.len() == 0 {
            lemma_close_from(w, stack, base, refs, i + 1);
            match close_slots(w, stack, base, refs, i + 1) {
                Ok(x) => {
                    assert forall|id: int|
                        0 <= id < w.upvals.len() && !notes_variable(refs, i, id) implies #[trigger] x.upvals[id] == w.upvals[id] by {
                        assert(!notes_variable(refs, i + 1, id));
                    }
                },
                Err(_) => {},
            }
        } else {
            assert(notes_there(w, stack, base, refs) ==> weaks[0] < w.upvals.len() && slot_of(
                w,
                stack,
                base,
                refs[i as int].0,
            ) is Ok);
            match slot_of(w, stack, base, refs[i as int].0) {
                Ok(val) => {
                    lemma_close_all(w, weaks, 0, val);
                    assert(notes_there(w, stack, base, refs) ==> forall|j: int|
                        0 <= j < weaks.len() ==> #[trigger] weaks[j] < w.upvals.len()) by {
                        if notes_there(w, stack, base, refs) {
                            assert forall|j: int| 0 <= j < weaks.len() implies #[trigger] weaks[j]
                                < w.upvals.len() by {
                                assert(refs[i as int].1.weaks[j] < w.upvals.len());
                            }
                        }
                    }
                    match close_all(w, weaks, 0, val) {
                        Ok(x) => {
                            lemma_close_from(x, stack, base, refs, i + 1);
                            assert(notes_there(w, stack, base, refs) ==> notes_there(
                                x,
                                stack,
                                base,
                                refs,
                            ));
                            match close_slots(x, stack, base, refs, i + 1) {
                                Ok(y) => {
                                    lemma_close_step(w, x, y, stack, base, refs, i, val);
                                },
                                Err(_) => {},
                            }
                        },
                        Err(_) => {},
                    }
                },
                Err(_) => {},
            }
        }
    }
}

/// Whether a captured variable has a life of its own and holds a value.
pub open spec fn closed_to(w: VmView, id: usize, v: Result<Value, Trap>) -> bool {
    v matches Ok(x) && id < w.upvals.len() && w.upvals[id as int] == UpValueState::Closed(x)
}

proof fn lemma_close_step(
    w: VmView,
    x: VmView,
    y: VmView,
    stack: usize,
    base: OpIndex,
    refs: Referred,
    i: nat,
    val: Value,
)
    requires
        one_slot_each(refs),
        i < refs.len(),
        slot_of(w, stack, base, refs[i as int].0) == Ok::<Value, Trap>(val),
        x == (VmView { upvals: x.upvals, ..w }),
        x.upvals.len() == w.upvals.len() == y.upvals.len(),
        forall|j: int|
            0 <= j < refs[i as int].1.weaks.len() ==> (#[trigger] refs[i as int].1.weaks[j])
                < w.upvals.len() && x.upvals[refs[i as int].1.weaks[j] as int]
                == UpValueState::Closed(val),
        forall|id: int|
            0 <= id < w.upvals.len() && (forall|j: int|
                0 <= j < refs[i as int].1.weaks.len() ==> #[trigger] refs[i as int].1.weaks[j]
                    != id) ==> #[trigger] x.upvals[id] == w.upvals[id],
        forall|k: int, l: int|
            #![trigger refs[k].1.weaks[l]]
            i + 1 <= k < refs.len() && 0 <= l < refs[k].1.weaks.len() ==> closed_to(
                y,
                refs[k].1.weaks[l],
                slot_of(x, stack, base, refs[k].0),
            ),
        forall|id: int|
            0 <= id < x.upvals.len() && !notes_variable(refs, i + 1, id) ==> #[trigger] y.upvals[id]
                == x.upvals[id],
    ensures
        forall|k: int, l: int|
            #![trigger refs[k].1.weaks[l]]
            i <= k < refs.len() && 0 <= l < refs[k].1.weaks.len() ==> closed_to(
                y,
                refs[k].1.weaks[l],
                slot_of(w, stack, base, refs[k].0),
            ),
        forall|id: int|
            0 <= id < w.upvals.len() && !notes_variable(refs, i, id)
                ==> #[trigger] y.upvals[id] == w.upvals[id],
{
    assert forall|k: int, l: int|
        #![trigger refs[k].1.weaks[l]]
        i <= k < refs.len() && 0 <= l < refs[k].1.weaks.len() implies closed_to(
        y,
        refs[k].1.weaks[l],
        slot_of(w, stack, base, refs[k].0),
    ) by {
        let id = refs[k].1.weaks[l];
        assert(slot_of(x, stack, base, refs[k].0) == slot_of(w, stack, base, refs[k].0));
        if k == i {
            if notes_variable(refs, i + 1, id as int) {
                let (a, b) = choose|a: int, b: int|
                    #![trigger refs[a].1.weaks[b]]
                    i + 1 <= a < refs.len() && 0 <= b < refs[a].1.weaks.len()
                        && refs[a].1.weaks[b] == id;
                assert(refs[a].0 == refs[k].0);
                assert(closed_to(y, refs[a].1.weaks[b], slot_of(x, stack, base, refs[a].0)));
            } else {
                assert(y.upvals[id as int] == x.upvals[id as int]);
            }
        }
    }
    assert forall|id: int|
        0 <= id < w.upvals.len() && !notes_variable(refs, i, id) implies #[trigger] y.upvals[id] == w.upvals[id] by {
        assert(!notes_variable(refs, i + 1, id));
        assert forall|j: int|
            0 <= j < refs[i as int].1.weaks.len() implies #[trigger] refs[i as int].1.weaks[j]
            != id by {}
        assert(x.upvals[id] == w.upvals[id]);
    }
}

/// When a frame is dropped, every captured variable that it notes holds what its
/// slot holds, with a life of its own: whatever happens to the stack afterwards, it
/// holds that. Variables that the frame does not note, the stacks and all other
/// tables stay as they are. It works wherever the slots and the variables are
/// there.
pub proof fn law_drop_closes_variables(
    w: VmView,
    stack: usize,
    base: OpIndex,
    refs: Referred,
    s: Seq<Value>,
)
    requires
        one_slot_each(refs),
    ensures
        notes_there(w, stack, base, refs) ==> close_slots(w, stack, base, refs, 0) is Ok,
        close_slots(w, stack, base, refs, 0) matches Ok(x) ==> {
            &&& x == (VmView { upvals: x.upvals, ..w })
            &&& x.upvals.len() == w.upvals.len()
            &&& forall|k: int, l: int|
                #![trigger refs[k].1.weaks[l]]
                0 <= k < refs.len() && 0 <= l < refs[k].1.weaks.len() ==> closed_to(
                    x,
                    refs[k].1.weaks[l],
                    slot_of(w, stack, base, refs[k].0),
                ) && x.with_stack(stack, s).upvalue(refs[k].1.weaks[l]) == slot_of(
                    w,
                    stack,
                    base,
                    refs[k].0,
                )
            &&& forall|id: int|
                0 <= id < w.upvals.len() && !notes_variable(refs, 0, id) ==> #[trigger] x.upvals[id]
                    == w.upvals[id]
        },
{
    lemma_close_from(w, stack, base, refs, 0);
}

/// Two captured variables that were noted for one slot both hold what the slot
/// holds once the frame is dropped, and go on holding it whatever happens to the
/// stack.
pub proof fn law_two_variables_of_a_slot(
    w: VmView,
    stack: usize,
    base: OpIndex,
    refs: Referred,
    index: OpIndex,
    typ: ValueType,
    a: usize,
    b: usize,
    v: Value,
    s: Seq<Value>,
)
    requires
        ({
            let more = with_referrer(with_referrer(refs, index, typ, a), index, typ, b);
            &&& one_slot_each(more)
            &&& notes_there(w, stack, base, more)
        }),
        slot_of(w, stack, base, index) == Ok::<Value, Trap>(v),
    ensures
        ({
            let more = with_referrer(with_referrer(refs, index, typ, a), index, typ, b);
            &&& close_slots(w, stack, base, more, 0) matches Ok(x)
            &&& x == (VmView { upvals: x.upvals, ..w })
            &&& x.upvals[a as int] == UpValueState::Closed(v)
            &&& x.upvals[b as int] == UpValueState::Closed(v)
            &&& x.with_stack(stack, s).upvalue(a) == Ok::<Value, Trap>(v)
            &&& x.with_stack(stack, s).upvalue(b) == Ok::<Value, Trap>(v)
            &&& forall|id: int|
                0 <= id < w.upvals.len() && !notes_variable(more, 0, id) ==> #[trigger] x.upvals[id]
                    == w.upvals[id]
        }),
{
    let one = with_referrer(refs, index, typ, a);
    let more = with_referrer(one, index, typ, b);
    law_drop_closes_variables(w, stack, base, more, s);
    lemma_slot_pos(refs, index, 0);
    lemma_noted_at(refs, index, typ, a);
    lemma_noted_at(one, index, typ, b);
    let i = slot_pos(one, index, 0)->Some_0 as int;
    lemma_slot_pos(one, index, 0);
    let n = one[i].1.weaks.len() as int;
    assert(one[i].1.weaks[n - 1] == a);
    assert(more[i].1.weaks[n - 1] == a);
    assert(more[i].1.weaks[n] == b);
}

/// A variable that was noted stands last in the list of its slot.
proof fn lemma_noted_at(refs: Referred, index: OpIndex, typ: ValueType, uv: usize)
    ensures
        slot_pos(with_referrer(refs, index, typ, uv), index, 0) matches Some(k) && {
            let list = with_referrer(refs, index, typ, uv)[k as int].1.weaks;
            list.len() > 0 && list.last() == uv
        },
{
    lemma_slot_pos(refs, index, 0);
    let more = with_referrer(refs, index, typ, uv);
    match slot_pos(refs, index, 0) {
        Some(k) => {
            lemma_slot_pos_same(refs, more, index, 0, k);
        },
        None => {
            lemma_slot_pos_pushed(refs, more, index, 0);
        },
    }
}

proof fn lemma_slot_pos_same(refs: Referred, more: Referred, index: OpIndex, i: nat, k: nat)
    requires
        slot_pos(refs, index, i) == Some(k),
        more.len() == refs.len(),
        forall|j: int| 0 <= j < refs.len() ==> (#[trigger] more[j]).0 == refs[j].0,
    ensures
        slot_pos(more, index, i) == Some(k),
    decreases refs.len() - i,
{
    assert(more[i as int].0 == refs[i as int].0);
    if refs[i as int].0 != index {
        lemma_slot_pos_same(refs, more, index, i + 1, k);
    }
}

proof fn lemma_slot_pos_pushed(refs: Referred, more: Referred, index: OpIndex, i: nat)
    requires
        slot_pos(refs, index, i) is None,
        i <= refs.len(),
        more.len() == refs.len() + 1,
        more.last().0 == index,
        forall|j: int| 0 <= j < refs.len() ==> (#[trigger] more[j]).0 == refs[j].0,
    ensures
        slot_pos(more, index, i) == Some(refs.len()),
    decreases refs.len() - i,
{
    if i < refs.len() {
        assert(more[i as int].0 == refs[i as int].0);
        lemma_slot_pos_pushed(refs, more, index, i + 1);
    }
}

proof fn lemma_slot_pos(refs: Referred, index: OpIndex, i: nat)
    ensures
        slot_pos(refs, index, i) matches Some(k) ==> k < refs.len() && refs[k as int].0 == index,
    decreases refs.len() - i,
{
    if i < refs.len() && refs[i as int].0 != index {
        lemma_slot_pos(refs, index, i + 1);
    }
}

/// A note that is added is the only one that is new.
proof fn lemma_with_referrer(
    refs: Referred,
    index: OpIndex,
    typ: ValueType,
    uv: usize,
    i: int,
    j: int,
)
    requires
        0 <= i < with_referrer(refs, index, typ, uv).len(),
        0 <= j < with_referrer(refs, index, typ, uv)[i].1.weaks.len(),
    ensures
        ({
            let more = with_referrer(refs, index, typ, uv);
            ||| more[i].0 == index && more[i].1.weaks[j] == uv
            ||| i < refs.len() && j < refs[i].1.weaks.len() && more[i].0 == refs[i].0
                && more[i].1.weaks[j] == refs[i].1.weaks[j]
        }),
{
    lemma_slot_pos(refs, index, 0);
}

/// A note of a variable that lies in the frame keeps the notes right.
proof fn lemma_note_open(
    w: VmView,
    stack: usize,
    base: OpIndex,
    refs: Referred,
    index: OpIndex,
    typ: ValueType,
    uv: usize,
)
    requires
        notes_open(w, stack, base, refs),
        lies(w, stack, base, index, uv),
    ensures
        notes_open(w, stack, base, with_referrer(refs, index, typ, uv)),
{
    let more = with_referrer(refs, index, typ, uv);
    assert forall|i: int, j: int|
        #![trigger more[i].1.weaks[j]]
        0 <= i < more.len() && 0 <= j < more[i].1.weaks.len() implies lies(
        w,
        stack,
        base,
        more[i].0,
        more[i].1.weaks[j],
    ) by {
        lemma_with_referrer(refs, index, typ, uv, i, j);
        if !(more[i].0 == index && more[i].1.weaks[j] == uv) {
            assert(lies(w, stack, base, refs[i].0, refs[i].1.weaks[j]));
        }
    }
}

/// What a pointer among the captured variables of a call leads to: for a
/// variable of the frame itself its slot, for another the variable that the
/// closure has.
pub open spec fn linked(
    w: VmView,
    before: VmView,
    stack: usize,
    base: OpIndex,
    d: ValueDesc,
    uvs: Region,
    i: int,
    ptr: Value,
) -> bool {
    ptr matches Value::Pointer(PointerObj::UpVal(id)) && if d.is_local {
        lies(w, stack, base, d.index, id)
    } else {
        captured(before, uvs, i) == Some(id)
    }
}

proof fn lemma_link(
    before: VmView,
    w: VmView,
    stack: usize,
    base: OpIndex,
    descs: Seq<ValueDesc>,
    uvs: Region,
    i: nat,
    ptrs: Seq<Value>,
    refs: Option<Referred>,
)
    requires
        i <= descs.len(),
        ptrs.len() == i,
        w.upvals.len() + descs.len() - i <= usize::MAX,
        w.cells == before.cells,
        notes_open(w, stack, base, or_empty(refs)),
        forall|k: int|
            0 <= k < i ==> linked(
                w,
                before,
                stack,
                base,
                #[trigger] descs[k],
                uvs,
                k,
                ptrs[k],
            ),
    ensures
        link(w, stack, base, descs, uvs, i, ptrs, refs) matches Some((w1, out, refs1)) ==> {
            &&& w1 == (VmView { upvals: w1.upvals, ..w })
            &&& w.upvals.len() <= w1.upvals.len()
            &&& w1.upvals.subrange(0, w.upvals.len() as int) == w.upvals
            &&& notes_open(w1, stack, base, or_empty(refs1))
            &&& out.len() == descs.len()
            &&& forall|k: int|
                0 <= k < descs.len() ==> linked(
                    w1,
                    before,
                    stack,
                    base,
                    #[trigger] descs[k],
                    uvs,
                    k,
                    out[k],
                )
        },
    decreases descs.len() - i,
{
    assert(w.upvals.subrange(0, w.upvals.len() as int) =~= w.upvals);
    if i < descs.len() {
        let d = descs[i as int];
        if d.is_local {
            let id = w.upvals.len() as usize;
            let w1 = w.with_new_upval(
                UpValueState::Open(ValueDesc { stack: Some(stack), stack_base: base, ..d }),
            );
            let more = Some(with_referrer(or_empty(refs), d.index, d.typ, id));
            let next = ptrs.push(Value::Pointer(PointerObj::UpVal(id)));
            let old_refs = or_empty(refs);
            assert forall|a: int, j: int|
                #![trigger old_refs[a].1.weaks[j]]
                0 <= a < old_refs.len() && 0 <= j < old_refs[a].1.weaks.len() implies lies(
                w1,
                stack,
                base,
                old_refs[a].0,
                old_refs[a].1.weaks[j],
            ) by {
                assert(lies(w, stack, base, old_refs[a].0, old_refs[a].1.weaks[j]));
            }
            lemma_note_open(w1, stack, base, old_refs, d.index, d.typ, id);
            assert forall|k: int| 0 <= k < i + 1 implies linked(
                w1,
                before,
                stack,
                base,
                #[trigger] descs[k],
                uvs,
                k,
                next[k],
            ) by {
                if k < i {
                    assert(linked(w, before, stack, base, descs[k], uvs, k, ptrs[k]));
                }
            }
            lemma_link(before, w1, stack, base, descs, uvs, i + 1, next, more);
            match link(w1, stack, base, descs, uvs, i + 1, next, more) {
                Some((w2, _, _)) => {
                    assert(w2.upvals.subrange(0, w.upvals.len() as int) =~= w2.upvals.subrange(
                        0,
                        w1.upvals.len() as int,
                    ).subrange(0, w.upvals.len() as int));
                    assert(w1.upvals.subrange(0, w.upvals.len() as int) =~= w.upvals);
                },
                None => {},
            }
        } else {
            match captured(w, uvs, i as int) {
                Some(id) => {
                    let next = ptrs.push(Value::Pointer(PointerObj::UpVal(id)));
                    assert forall|k: int| 0 <= k < i + 1 implies linked(
                        w,
                        before,
                        stack,
                        base,
                        #[trigger] descs[k],
                        uvs,
                        k,
                        next[k],
                    ) by {
                        if k < i {
                            assert(linked(w, before, stack, base, descs[k], uvs, k, ptrs[k]));
                        }
                    }
                    lemma_link(before, w, stack, base, descs, uvs, i + 1, next, refs);
                },
                None => {},
            }
        }
    }
}

/// In a call, the captured variables of the new frame itself lie in its slots,
/// and the frame notes them; the others are those of the closure. The variables
/// that there were stay as they are.
pub proof fn law_call_links_variables(
    p: &Bytecode,
    w: VmView,
    stack: usize,
    func: FunctionKey,
    uvs: Option<Region>,
    recv: Option<Value>,
    base: OpIndex,
)
    requires
        func < p.functions@.len() ==> w.upvals.len() + p.functions@[func as int].up_ptrs@.len()
            <= usize::MAX && w.cells.len() + p.functions@[func as int].up_ptrs@.len() <= usize::MAX,
    ensures
        enter(p, w, stack, func, uvs, recv, base) matches Some((w1, fr)) ==> {
            &&& fr.func == func && fr.stack_base == base && fr.pc == 0
            &&& w.upvals.len() <= w1.upvals.len()
            &&& w1.upvals.subrange(0, w.upvals.len() as int) == w.upvals
            &&& notes_open(w1, stack, base, or_empty(fr.referred_by))
            &&& uvs is None ==> fr.var_ptrs is None
            &&& uvs matches Some(r) ==> {
                &&& fr.var_ptrs matches Some(q)
                &&& q.len == p.functions@[func as int].up_ptrs@.len()
                &&& q.base + q.len <= w1.cells.len()
                &&& forall|k: int|
                    0 <= k < q.len ==> linked(
                        w1,
                        w,
                        stack,
                        base,
                        #[trigger] p.functions@[func as int].up_ptrs@[k],
                        r,
                        k,
                        w1.cells[q.base + k],
                    )
            }
        },
{
    assert(w.upvals.subrange(0, w.upvals.len() as int) =~= w.upvals);
    match enter(p, w, stack, func, uvs, recv, base) {
        Some((w1, fr)) => {
            match uvs {
                Some(r) => {
                    let fo = p.functions@[func as int];
                    let n = crate::fiber::index_of(base + fo.max_write_index + 1)->Some_0;
                    let wa = w.with_min_size(stack, n)->Ok_0;
                    let wb = wa.with_vec(
                        stack,
                        base,
                        crate::ops_call::with_recv(fo.ret_zeros@, recv),
                    )->Ok_0;
                    lemma_link(w, wb, stack, base, fo.up_ptrs@, r, 0, seq![], None);
                    let (w3, ptrs, refs) = link(wb, stack, base, fo.up_ptrs@, r, 0, seq![], None)->Some_0;
                    let q = fr.var_ptrs->Some_0;
                    assert(q.len == fo.up_ptrs@.len());
                    let notes = or_empty(refs);
                    assert forall|a: int, j: int|
                        #![trigger notes[a].1.weaks[j]]
                        0 <= a < notes.len() && 0 <= j < notes[a].1.weaks.len() implies lies(
                        w1,
                        stack,
                        base,
                        notes[a].0,
                        notes[a].1.weaks[j],
                    ) by {
                        assert(lies(w3, stack, base, notes[a].0, notes[a].1.weaks[j]));
                    }
                    assert forall|k: int| 0 <= k < q.len implies linked(
                        w1,
                        w,
                        stack,
                        base,
                        #[trigger] p.functions@[func as int].up_ptrs@[k],
                        r,
                        k,
                        w1.cells[q.base + k],
                    ) by {
                        assert(linked(w3, w, stack, base, fo.up_ptrs@[k], r, k, ptrs[k]));
                        assert(w1.cells[q.base + k] == ptrs[k]);
                    }
                },
                None => {},
            }
        },
        None => {},
    }
}

/// Whether the notes of all frames are right.
pub open spec fn all_open(w: VmView, stack: usize, frames: Seq<FrameView>) -> bool {
    forall|k: int|
        0 <= k < frames.len() ==> notes_open(
            w,
            stack,
            (#[trigger] frames[k]).stack_base,
            or_empty(frames[k].referred_by),
        )
}

/// Whether no frame notes a captured variable from number `n` on.
pub open spec fn all_below(frames: Seq<FrameView>, n: int) -> bool {
    forall|k: int|
        0 <= k < frames.len() ==> notes_below(or_empty((#[trigger] frames[k]).referred_by), n)
}

/// Whether two lists of frames are of the same calls.
pub open spec fn same_calls(f: Seq<FrameView>, g: Seq<FrameView>) -> bool {
    &&& f.len() == g.len()
    &&& forall|k: int|
        0 <= k < f.len() ==> g[k] == (FrameView {
            referred_by: g[k].referred_by,
            ..#[trigger] f[k]
        })
}

/// The number of the captured variable at a place of a closure.
pub open spec fn id_at(w: VmView, uvs: Region, a: int) -> usize {
    match w.cells[uvs.base + a] {
        Value::Pointer(PointerObj::UpVal(id)) => id,
        _ => 0,
    }
}

/// Whether a place of a closure is as a new function value has it: empty for a
/// variable of the function itself, and a captured variable that has not found
/// its frame for another.
pub open spec fn unlinked(w: VmView, uvs: Region, descs: Seq<ValueDesc>, a: int) -> bool {
    if descs[a].is_local {
        !(w.cells[uvs.base + a] is Pointer)
    } else {
        &&& w.cells[uvs.base + a] == Value::Pointer(PointerObj::UpVal(id_at(w, uvs, a)))
        &&& id_at(w, uvs, a) < w.upvals.len()
        &&& w.upvals[id_at(w, uvs, a) as int] == UpValueState::Open(descs[a])
    }
}

/// Whether the places of a closure from the `i`th on are as a new function value
/// has them, each captured variable with a higher number than those before, and
/// none of them noted by a frame.
pub open spec fn fresh_uvs(
    w: VmView,
    frames: Seq<FrameView>,
    uvs: Region,
    descs: Seq<ValueDesc>,
    i: int,
) -> bool {
    &&& uvs.base + uvs.len <= w.cells.len()
    &&& uvs.len == descs.len()
    &&& forall|a: int| i <= a < descs.len() ==> unlinked(w, uvs, descs, a)
    &&& forall|a: int, b: int|
        i <= a < b < descs.len() && !descs[a].is_local && !descs[b].is_local ==> id_at(w, uvs, a)
            < id_at(w, uvs, b)
    &&& forall|a: int|
        i <= a < descs.len() && !(#[trigger] descs[a]).is_local ==> all_below(
            frames,
            id_at(w, uvs, a) as int,
        )
}

/// Where a captured variable is once the closure was made: in the latest frame
/// of its function, if there is one.
pub open spec fn found(
    w: VmView,
    frames: Seq<FrameView>,
    stack: usize,
    d: ValueDesc,
    id: usize,
) -> bool {
    match owner(frames, d.func, frames.len() - 1) {
        Some(o) => 0 < o < frames.len() && frames[o].func == d.func && lies(
            w,
            stack,
            frames[o].stack_base,
            d.index,
            id,
        ),
        None => id < w.upvals.len() && w.upvals[id as int] == UpValueState::Open(d),
    }
}

proof fn lemma_owner_range(frames: Seq<FrameView>, func: FunctionKey, k: int)
    ensures
        owner(frames, func, k) matches Some(o) ==> 0 < o <= k && frames[o].func == func,
    decreases k,
{
    if k > 0 && frames[k].func != func {
        lemma_owner_range(frames, func, k - 1);
    }
}

proof fn lemma_owner_same(f: Seq<FrameView>, g: Seq<FrameView>, func: FunctionKey, k: int)
    requires
        same_calls(f, g),
        k < f.len(),
    ensures
        owner(f, func, k) == owner(g, func, k),
    decreases k,
{
    if k > 0 {
        assert(g[k] == (FrameView { referred_by: g[k].referred_by, ..f[k] }));
        lemma_owner_same(f, g, func, k - 1);
    }
}

proof fn lemma_notes_kept(
    w: VmView,
    x: VmView,
    stack: usize,
    base: OpIndex,
    refs: Referred,
    n: int,
)
    requires
        notes_open(w, stack, base, refs),
        notes_below(refs, n),
        w.upvals.len() <= x.upvals.len(),
        forall|id: int| 0 <= id < n && id < w.upvals.len() ==> x.upvals[id] == w.upvals[id],
    ensures
        notes_open(x, stack, base, refs),
{
    assert forall|i: int, j: int|
        #![trigger refs[i].1.weaks[j]]
        0 <= i < refs.len() && 0 <= j < refs[i].1.weaks.len() implies lies(
        x,
        stack,
        base,
        refs[i].0,
        refs[i].1.weaks[j],
    ) by {
        assert(lies(w, stack, base, refs[i].0, refs[i].1.weaks[j]));
        assert(refs[i].1.weaks[j] < n);
    }
}

proof fn lemma_note_below(refs: Referred, index: OpIndex, typ: ValueType, uv: usize, n: int, m: int)
    requires
        notes_below(refs, n),
        n <= m,
        uv < m,
    ensures
        notes_below(with_referrer(refs, index, typ, uv), m),
{
    let more = with_referrer(refs, index, typ, uv);
    assert forall|i: int, j: int|
        #![trigger more[i].1.weaks[j]]
        0 <= i < more.len() && 0 <= j < more[i].1.weaks.len() implies more[i].1.weaks[j] < m by {
        lemma_with_referrer(refs, index, typ, uv, i, j);
        if more[i].1.weaks[j] != uv {
            assert(refs[i].1.weaks[j] < n);
        }
    }
}

/// Whether the slots that are noted have the types that the slots of the function
/// have.
pub open spec fn notes_typed(
    refs: Referred,
    func: FunctionKey,
    slot_type: spec_fn(FunctionKey, OpIndex) -> ValueType,
) -> bool {
    forall|i: int|
        0 <= i < refs.len() ==> (#[trigger] refs[i]).1.typ == slot_type(func, refs[i].0)
}

/// Whether all frames note slots with the types that the slots of their functions
/// have.
pub open spec fn all_typed(
    frames: Seq<FrameView>,
    slot_type: spec_fn(FunctionKey, OpIndex) -> ValueType,
) -> bool {
    forall|k: int|
        0 <= k < frames.len() ==> notes_typed(
            or_empty((#[trigger] frames[k]).referred_by),
            frames[k].func,
            slot_type,
        )
}

/// One captured variable finds its frame.
proof fn lemma_capture_one(
    w: VmView,
    frames: Seq<FrameView>,
    stack: usize,
    id: usize,
    d: ValueDesc,
    o: int,
    slot_type: spec_fn(FunctionKey, OpIndex) -> ValueType,
) -> (r: (VmView, Seq<FrameView>))
    requires
        0 <= o < frames.len(),
        frames[o].func == d.func,
        d.typ == slot_type(d.func, d.index),
        all_typed(frames, slot_type),
        id < w.upvals.len(),
        all_open(w, stack, frames),
        all_below(frames, id as int),
    ensures
        r.0 == (VmView {
            upvals: w.upvals.update(
                id as int,
                UpValueState::Open(
                    ValueDesc { stack: Some(stack), stack_base: frames[o].stack_base, ..d },
                ),
            ),
            ..w
        }),
        r.1 == frames.update(
            o,
            FrameView {
                referred_by: Some(
                    with_referrer(or_empty(frames[o].referred_by), d.index, d.typ, id),
                ),
                ..frames[o]
            },
        ),
        all_open(r.0, stack, r.1),
        all_below(r.1, id + 1),
        all_typed(r.1, slot_type),
        same_calls(frames, r.1),
        noted_as(or_empty(frames[o].referred_by), d.index, d.typ),
{
    assert(notes_typed(or_empty(frames[o].referred_by), frames[o].func, slot_type));
    lemma_slot_pos(or_empty(frames[o].referred_by), d.index, 0);
    let base = frames[o].stack_base;
    let w1 = VmView {
        upvals: w.upvals.update(
            id as int,
            UpValueState::Open(ValueDesc { stack: Some(stack), stack_base: base, ..d }),
        ),
        ..w
    };
    let refs = or_empty(frames[o].referred_by);
    let more = with_referrer(refs, d.index, d.typ, id);
    let frames1 = frames.update(o, FrameView { referred_by: Some(more), ..frames[o] });
    assert forall|k: int| 0 <= k < frames1.len() implies notes_open(
        w1,
        stack,
        (#[trigger] frames1[k]).stack_base,
        or_empty(frames1[k].referred_by),
    ) by {
        assert(notes_open(w, stack, frames[k].stack_base, or_empty(frames[k].referred_by)));
        assert(notes_below(or_empty(frames[k].referred_by), id as int));
        lemma_notes_kept(
            w,
            w1,
            stack,
            frames[k].stack_base,
            or_empty(frames[k].referred_by),
            id as int,
        );
        if k == o {
            lemma_note_open(w1, stack, base, refs, d.index, d.typ, id);
        }
    }
    assert forall|k: int| 0 <= k < frames1.len() implies notes_below(
        or_empty((#[trigger] frames1[k]).referred_by),
        id + 1,
    ) by {
        assert(notes_below(or_empty(frames[k].referred_by), id as int));
        if k == o {
            lemma_note_below(refs, d.index, d.typ, id, id as int, id + 1);
        } else {
            let same = or_empty(frames[k].referred_by);
            assert forall|i: int, j: int|
                #![trigger same[i].1.weaks[j]]
                0 <= i < same.len() && 0 <= j < same[i].1.weaks.len() implies same[i].1.weaks[j]
                < id + 1 by {
                assert(same[i].1.weaks[j] < id);
            }
        }
    }
    (w1, frames1)
}

proof fn lemma_capture(
    w: VmView,
    frames: Seq<FrameView>,
    stack: usize,
    uvs: Region,
    descs: Seq<ValueDesc>,
    i: nat,
    slot_type: spec_fn(FunctionKey, OpIndex) -> ValueType,
)
    requires
        i <= descs.len(),
        w.cells.len() <= usize::MAX,
        all_typed(frames, slot_type),
        forall|a: int|
            0 <= a < descs.len() ==> (#[trigger] descs[a]).typ == slot_type(
                descs[a].func,
                descs[a].index,
            ),
        all_open(w, stack, frames),
        fresh_uvs(w, frames, uvs, descs, i as int),
    ensures
        capture(w, frames, stack, uvs, i) matches Some((w1, frames1)) && {
            &&& w1 == (VmView { upvals: w1.upvals, ..w })
            &&& w1.upvals.len() == w.upvals.len()
            &&& all_open(w1, stack, frames1)
            &&& all_typed(frames1, slot_type)
            &&& same_calls(frames, frames1)
            &&& forall|id: int|
                0 <= id < w.upvals.len() && (forall|a: int|
                    i <= a < descs.len() && !(#[trigger] descs[a]).is_local ==> id < id_at(
                        w,
                        uvs,
                        a,
                    )) ==> #[trigger] w1.upvals[id] == w.upvals[id]
            &&& forall|a: int|
                i <= a < descs.len() && !(#[trigger] descs[a]).is_local ==> found(
                    w1,
                    frames,
                    stack,
                    descs[a],
                    id_at(w, uvs, a),
                )
        },
    decreases descs.len() - i,
{
    if i < descs.len() {
        assert(unlinked(w, uvs, descs, i as int));
        let d = descs[i as int];
        if d.is_local {
            lemma_capture(w, frames, stack, uvs, descs, i + 1, slot_type);
        } else {
            let id = id_at(w, uvs, i as int);
            lemma_owner_range(frames, d.func, frames.len() - 1);
            let (x, g) = match owner(frames, d.func, frames.len() - 1) {
                Some(o) => lemma_capture_one(w, frames, stack, id, d, o, slot_type),
                None => (w, frames),
            };
            assert forall|a: int| i + 1 <= a < descs.len() implies unlinked(x, uvs, descs, a) by {
                assert(unlinked(w, uvs, descs, a));
            }
            assert forall|a: int|
                i + 1 <= a < descs.len() && !(#[trigger] descs[a]).is_local implies all_below(
                g,
                id_at(x, uvs, a) as int,
            ) by {
                assert(id < id_at(w, uvs, a));
                assert(all_below(frames, id_at(w, uvs, a) as int));
                if owner(frames, d.func, frames.len() - 1) is Some {
                    assert forall|k: int| 0 <= k < g.len() implies notes_below(
                        or_empty((#[trigger] g[k]).referred_by),
                        id_at(x, uvs, a) as int,
                    ) by {
                        let refs = or_empty(g[k].referred_by);
                        assert(notes_below(refs, id + 1));
                        assert forall|b: int, j: int|
                            #![trigger refs[b].1.weaks[j]]
                            0 <= b < refs.len() && 0 <= j < refs[b].1.weaks.len() implies refs[b].1.weaks[j]
                            < id_at(x, uvs, a) by {
                            assert(refs[b].1.weaks[j] < id + 1);
                        }
                    }
                }
            }
            assert forall|a: int, b: int|
                i + 1 <= a < b < descs.len() && !descs[a].is_local && !descs[b].is_local implies id_at(
                x,
                uvs,
                a,
            ) < id_at(x, uvs, b) by {
                assert(id_at(w, uvs, a) < id_at(w, uvs, b));
            }
            lemma_capture(x, g, stack, uvs, descs, i + 1, slot_type);
            let (w1, frames1) = capture(x, g, stack, uvs, (i + 1) as nat)->Some_0;
            assert(capture(w, frames, stack, uvs, i) == Some((w1, frames1)));
            assert(w1.upvals[id as int] == x.upvals[id as int]) by {
                assert forall|a: int|
                    i + 1 <= a < descs.len() && !(#[trigger] descs[a]).is_local implies id < id_at(
                    x,
                    uvs,
                    a,
                ) by {
                    assert(id_at(w, uvs, i as int) < id_at(w, uvs, a));
                }
            }
            assert forall|a: int|
                i <= a < descs.len() && !(#[trigger] descs[a]).is_local implies found(
                w1,
                frames,
                stack,
                descs[a],
                id_at(w, uvs, a),
            ) by {
                if a > i {
                    assert(found(w1, g, stack, descs[a], id_at(x, uvs, a)));
                    lemma_owner_same(frames, g, descs[a].func, frames.len() - 1);
                    lemma_owner_range(frames, descs[a].func, frames.len() - 1);
                    match owner(frames, descs[a].func, frames.len() - 1) {
                        Some(o) => {
                            assert(g[o] == (FrameView {
                                referred_by: g[o].referred_by,
                                ..frames[o]
                            }));
                        },
                        None => {},
                    }
                }
            }
            assert forall|k: int| 0 <= k < frames.len() implies frames1[k] == (FrameView {
                referred_by: frames1[k].referred_by,
                ..#[trigger] frames[k]
            }) by {
                assert(g[k] == (FrameView { referred_by: g[k].referred_by, ..frames[k] }));
                assert(frames1[k] == (FrameView { referred_by: frames1[k].referred_by, ..g[k] }));
            }
            assert forall|n: int|
                0 <= n < w.upvals.len() && (forall|a: int|
                    i <= a < descs.len() && !(#[trigger] descs[a]).is_local ==> n < id_at(
                        w,
                        uvs,
                        a,
                    )) implies #[trigger] w1.upvals[n] == w.upvals[n] by {
                assert(n < id_at(w, uvs, i as int));
                assert forall|a: int|
                    i + 1 <= a < descs.len() && !(#[trigger] descs[a]).is_local implies n < id_at(
                    x,
                    uvs,
                    a,
                ) by {}
            }
        }
    }
}

/// What a new function value has for its variables.
pub proof fn lemma_new_uvs(w: VmView, descs: Seq<ValueDesc>, i: nat, out: Seq<Value>, low: int)
    requires
        i <= descs.len(),
        out.len() == i,
        w.upvals.len() + descs.len() - i <= usize::MAX,
        low <= w.upvals.len(),
        forall|a: int|
            0 <= a < i ==> new_place(w, #[trigger] descs[a], out[a], low),
        forall|a: int, b: int|
            0 <= a < b < i && !descs[a].is_local && !descs[b].is_local ==> id_of(
                #[trigger] out[a],
            ) < id_of(#[trigger] out[b]),
    ensures
        ({
            let (w1, vals) = new_uvs(w, descs, i, out);
            &&& w1 == (VmView { upvals: w1.upvals, ..w })
            &&& w.upvals.len() <= w1.upvals.len()
            &&& w1.upvals.subrange(0, w.upvals.len() as int) == w.upvals
            &&& vals.len() == descs.len()
            &&& forall|a: int|
                0 <= a < descs.len() ==> new_place(w1, #[trigger] descs[a], vals[a], low)
            &&& forall|a: int, b: int|
                0 <= a < b < descs.len() && !descs[a].is_local && !descs[b].is_local ==> id_of(
                    #[trigger] vals[a],
                ) < id_of(#[trigger] vals[b])
        }),
    decreases descs.len() - i,
{
    assert(w.upvals.subrange(0, w.upvals.len() as int) =~= w.upvals);
    if i < descs.len() {
        let d = descs[i as int];
        let (x, next) = if d.is_local {
            (w, out.push(crate::value::void()))
        } else {
            (
                w.with_new_upval(UpValueState::Open(d)),
                out.push(Value::Pointer(PointerObj::UpVal(w.upvals.len() as usize))),
            )
        };
        assert forall|a: int| 0 <= a < i + 1 implies new_place(
            x,
            #[trigger] descs[a],
            next[a],
            low,
        ) by {
            if a < i {
                assert(new_place(w, descs[a], out[a], low));
            }
        }
        assert forall|a: int, b: int|
            0 <= a < b < i + 1 && !descs[a].is_local && !descs[b].is_local implies id_of(
            #[trigger] next[a],
        ) < id_of(#[trigger] next[b]) by {
            assert(new_place(w, descs[a], out[a], low));
            if b < i {
                assert(id_of(out[a]) < id_of(out[b]));
            }
        }
        lemma_new_uvs(x, descs, i + 1, next, low);
        let (w1, _) = new_uvs(x, descs, i + 1, next);
        assert(w1.upvals.subrange(0, w.upvals.len() as int) =~= w1.upvals.subrange(
            0,
            x.upvals.len() as int,
        ).subrange(0, w.upvals.len() as int));
        assert(x.upvals.subrange(0, w.upvals.len() as int) =~= w.upvals);
    }
}

/// The number of a captured variable.
pub open spec fn id_of(v: Value) -> usize {
    match v {
        Value::Pointer(PointerObj::UpVal(id)) => id,
        _ => 0,
    }
}

/// What a new function value has for a variable.
pub open spec fn new_place(w: VmView, d: ValueDesc, v: Value, low: int) -> bool {
    if d.is_local {
        !(v is Pointer)
    } else {
        &&& v == Value::Pointer(PointerObj::UpVal(id_of(v)))
        &&& low <= id_of(v) < w.upvals.len()
        &&& w.upvals[id_of(v) as int] == UpValueState::Open(d)
    }
}

/// A new closure finds the variables that it captures, where each slot of a
/// function has one type: each variable lies in the latest frame of the function
/// that it belongs to, if there is one, and the frame notes it. The notes of all frames stay right, and the variables that there were stay
/// as they are.
pub proof fn law_closure_finds_variables(
    p: &Bytecode,
    w: VmView,
    func: FunctionKey,
    frames: Seq<FrameView>,
    stack: usize,
    slot_type: spec_fn(FunctionKey, OpIndex) -> ValueType,
)
    requires
        all_open(w, stack, frames),
        all_typed(frames, slot_type),
        func < p.functions@.len() ==> forall|a: int|
            0 <= a < p.functions@[func as int].up_ptrs@.len() ==> (
            #[trigger] p.functions@[func as int].up_ptrs@[a]).typ == slot_type(
                p.functions@[func as int].up_ptrs@[a].func,
                p.functions@[func as int].up_ptrs@[a].index,
            ),
        func < p.functions@.len() ==> w.upvals.len() + p.functions@[func as int].up_ptrs@.len()
            <= usize::MAX && w.cells.len() + p.functions@[func as int].up_ptrs@.len() <= usize::MAX,
    ensures
        gos_from_func(p, w, func, None) matches Ok((w1, ClosureObj::Gos { uvs: Some(r), .. })) ==> {
            &&& capture(w1, frames, stack, r, 0) matches Some((w2, frames2))
            &&& all_open(w2, stack, frames2)
            &&& all_typed(frames2, slot_type)
            &&& same_calls(frames, frames2)
            &&& w.upvals.len() <= w2.upvals.len()
            &&& w2.upvals.subrange(0, w.upvals.len() as int) == w.upvals
            &&& r.len == p.functions@[func as int].up_ptrs@.len()
            &&& forall|a: int|
                0 <= a < r.len && !(#[trigger] p.functions@[func as int].up_ptrs@[a]).is_local
                    ==> found(
                    w2,
                    frames,
                    stack,
                    p.functions@[func as int].up_ptrs@[a],
                    id_at(w2, r, a),
                )
        },
{
    if func < p.functions@.len() && p.functions@[func as int].up_ptrs@.len() > 0 {
        let descs = p.functions@[func as int].up_ptrs@;
        lemma_new_uvs(w, descs, 0, seq![], w.upvals.len() as int);
        let (x, vals) = new_uvs(w, descs, 0, seq![]);
        let w1 = x.with_cells(x.cells + vals);
        let r = crate::machine::next_region(x.cells, vals.len());
        assert(gos_from_func(p, w, func, None) matches Ok(
            (y, ClosureObj::Gos { uvs: Some(q), .. }),
        ) && y == w1 && q == r);
        assert forall|a: int| 0 <= a < descs.len() implies w1.cells[r.base + a] == vals[a] by {}
        assert forall|k: int| 0 <= k < frames.len() implies notes_open(
            w1,
            stack,
            (#[trigger] frames[k]).stack_base,
            or_empty(frames[k].referred_by),
        ) && notes_below(or_empty(frames[k].referred_by), w.upvals.len() as int) by {
            let refs = or_empty(frames[k].referred_by);
            assert(notes_open(w, stack, frames[k].stack_base, refs));
            assert forall|i: int, j: int|
                #![trigger refs[i].1.weaks[j]]
                0 <= i < refs.len() && 0 <= j < refs[i].1.weaks.len() implies refs[i].1.weaks[j]
                < w.upvals.len() by {
                assert(lies(w, stack, frames[k].stack_base, refs[i].0, refs[i].1.weaks[j]));
            }
            assert forall|id: int| 0 <= id < w.upvals.len() implies w1.upvals[id]
                == w.upvals[id] by {
                assert(w1.upvals[id] == x.upvals.subrange(0, w.upvals.len() as int)[id]);
            }
            lemma_notes_kept(w, w1, stack, frames[k].stack_base, refs, w.upvals.len() as int);
        }
        assert forall|a: int| 0 <= a < descs.len() implies unlinked(w1, r, descs, a) by {
            assert(new_place(x, descs[a], vals[a], w.upvals.len() as int));
            assert(w1.cells[r.base + a] == vals[a]);
        }
        assert forall|a: int, b: int|
            0 <= a < b < descs.len() && !descs[a].is_local && !descs[b].is_local implies id_at(
            w1,
            r,
            a,
        ) < id_at(w1, r, b) by {
            assert(w1.cells[r.base + a] == vals[a]);
            assert(w1.cells[r.base + b] == vals[b]);
            assert(id_of(vals[a]) < id_of(vals[b]));
        }
        assert forall|a: int|
            0 <= a < descs.len() && !(#[trigger] descs[a]).is_local implies all_below(
            frames,
            id_at(w1, r, a) as int,
        ) by {
            assert(new_place(x, descs[a], vals[a], w.upvals.len() as int));
            assert(w1.cells[r.base + a] == vals[a]);
            assert forall|k: int| 0 <= k < frames.len() implies notes_below(
                or_empty((#[trigger] frames[k]).referred_by),
                id_at(w1, r, a) as int,
            ) by {
                let refs = or_empty(frames[k].referred_by);
                assert(notes_below(refs, w.upvals.len() as int));
                assert forall|i: int, j: int|
                    #![trigger refs[i].1.weaks[j]]
                    0 <= i < refs.len() && 0 <= j < refs[i].1.weaks.len() implies refs[i].1.weaks[j]
                    < id_at(w1, r, a) by {
                    assert(refs[i].1.weaks[j] < w.upvals.len());
                }
            }
        }
        lemma_capture(w1, frames, stack, r, descs, 0, slot_type);
        let (w2, frames2) = capture(w1, frames, stack, r, 0)->Some_0;
        assert forall|id: int| 0 <= id < w.upvals.len() implies w2.upvals[id] == w.upvals[id] by {
            assert forall|a: int|
                0 <= a < descs.len() && !(#[trigger] descs[a]).is_local implies id < id_at(
                w1,
                r,
                a,
            ) by {
                assert(new_place(x, descs[a], vals[a], w.upvals.len() as int));
                assert(w1.cells[r.base + a] == vals[a]);
            }
            assert(w2.upvals[id] == w1.upvals[id]);
            assert(w1.upvals[id] == x.upvals.subrange(0, w.upvals.len() as int)[id]);
        }
        assert(w2.upvals.subrange(0, w.upvals.len() as int) =~= w.upvals);
        assert forall|a: int|
            0 <= a < r.len && !(#[trigger] p.functions@[func as int].up_ptrs@[a]).is_local implies found(
            w2,
            frames,
            stack,
            p.functions@[func as int].up_ptrs@[a],
            id_at(w2, r, a),
        ) by {
            assert(found(w2, frames, stack, descs[a], id_at(w1, r, a)));
        }
    }
}

} // verus!

//! What the instructions make is valid.
use vstd::prelude::*;
use crate::bytecode::{Bytecode, Instruction, Opcode};
use crate::content::{copy_semantic, slice_seq};
use crate::dict::map_get;
use crate::effect::{done, put, put_new, result_place, settle, Effect, Outcome, Pending, Query};
use crate::embed::{spec_get_embeded, walk};
use crate::laws_growth::{grows, lemma_copy_grows, lemma_store_grows, lemma_write_grows};
use crate::laws_valid::{
    fits, good, lemma_copy_valid, lemma_fits_before, lemma_get_valid, lemma_good_more_cells,
    lemma_good_parts, lemma_good_upval, lemma_load_valid, lemma_read_valid, lemma_store_valid,
    lemma_value_stays, lemma_write_valid, sound, valid_place, valid_value,
};
use crate::laws_values::law_integers_stay_in_range;
use crate::machine::{Ctx, UpValueState, VmView};
use crate::num::{word_cast, word_unary, Calc, FloatTask};
use crate::ops_place::{
    array_at, as_package, assign, calculate, embedded_at, embedded_target, field_at, field_pointer,
    load_at, load_map, lookup, member_at, member_pointer, place_inst, pointee_at, ref_embedded,
    ref_pkg_member, ref_slice_member, ref_struct_field, ref_upvalue, ref_value, slice_at, store_at,
    store_map, upvalue_at, upvalue_id,
};
use crate::ops_word::{plain_op, relation, result_value, word_inst};
use crate::place::{
    as_index, as_non_nil_pointer, field_place, load, pointee, spec_deref_value, store, Place,
};
use crate::trap::{or_fault, Trap};
use crate::value::{void, OpIndex, PointerObj, Value, ValueType};

verus! {

/// Whether what an answer is for can be written.
pub open spec fn valid_pending(p: &Bytecode, w: VmView, pending: Pending) -> bool {
    match pending {
        Pending::Store { place, .. } => valid_place(p, w, place),
        Pending::Text { place } => valid_place(p, w, place),
        Pending::Shift { place, val, .. } => valid_place(p, w, place) && valid_value(p, w, val),
        Pending::Recv { chan, .. } => chan < w.chans.len(),
        _ => true,
    }
}

/// Whether what the host is asked about is there.
pub open spec fn valid_query(p: &Bytecode, w: VmView, q: Query) -> bool {
    match q {
        Query::Float(FloatTask::Binary { a, b, .. }) => valid_value(p, w, a) && valid_value(
            p,
            w,
            b,
        ),
        Query::Float(FloatTask::Inc { a, .. }) => valid_value(p, w, a),
        Query::Float(FloatTask::Dec { a, .. }) => valid_value(p, w, a),
        Query::Float(FloatTask::Cast { a, .. }) => valid_value(p, w, a),
        Query::Address(u) => valid_value(p, w, Value::UnsafePtr(u)),
        Query::ChanLen(k) => k < w.chans.len(),
    }
}

/// Whether what an instruction leaves behind is valid.
pub open spec fn sound_outcome(p: &Bytecode, r: Outcome) -> bool {
    match r {
        Ok((x, e)) => fits(x) ==> good(p, x) && match e {
            Effect::Ask(q, pending) => valid_query(p, x, q) && valid_pending(p, x, pending),
            _ => true,
        },
        Err(_) => true,
    }
}

pub proof fn lemma_put_valid(p: &Bytecode, w: VmView, c: Ctx, d: OpIndex, r: Result<Value, Trap>)
    requires
        good(p, w),
        r matches Ok(v) ==> valid_value(p, w, v),
    ensures
        sound_outcome(p, put(w, c, d, r)),
{
    match r {
        Ok(v) => {
            lemma_write_valid(p, w, c, d, v);
        },
        Err(_) => {},
    }
}

pub proof fn lemma_put_new_valid(
    p: &Bytecode,
    c: Ctx,
    d: OpIndex,
    r: Result<(VmView, Value), Trap>,
)
    requires
        sound(p, r),
    ensures
        sound_outcome(p, put_new(c, d, r)),
{
    match r {
        Ok((x, v)) => match x.write(c, d, v) {
            Ok(y) => {
                if fits(y) {
                    lemma_write_grows(x, c, d, v);
                    lemma_fits_before(x, y);
                    lemma_write_valid(p, x, c, d, v);
                }
            },
            Err(_) => {},
        },
        Err(_) => {},
    }
}

/// The same with tables that are good whatever their size.
proof fn lemma_done_store_valid(p: &Bytecode, x: VmView, place: Place, v: Value)
    requires
        fits(x) ==> good(p, x) && valid_value(p, x, v) && valid_place(p, x, place),
    ensures
        sound_outcome(p, done(store(p, x, place, v))),
{
    match store(p, x, place, v) {
        Ok(y) => {
            if fits(y) {
                lemma_store_grows(p, x, place, v);
                lemma_fits_before(x, y);
                lemma_store_valid(p, x, place, v);
            }
        },
        Err(_) => {},
    }
}

pub proof fn lemma_place_stays(p: &Bytecode, w: VmView, x: VmView, place: Place)
    requires
        grows(w, x),
        valid_place(p, w, place),
    ensures
        valid_place(p, x, place),
{
    match place {
        Place::Entry(_, k) => {
            lemma_value_stays(p, w, x, k);
        },
        _ => {},
    }
}

/// What is calculated is valid.
pub proof fn lemma_calculate_valid(
    p: &Bytecode,
    w: VmView,
    place: Result<Place, Trap>,
    op: Opcode,
    t: ValueType,
    a: Value,
    b: Value,
)
    requires
        good(p, w),
        place matches Ok(pl) ==> valid_place(p, w, pl),
        valid_value(p, w, a),
        valid_value(p, w, b),
    ensures
        sound_outcome(p, settle(p, place, calculate(w, op, t, a, b))),
{
    if t == ValueType::String && op == Opcode::ADD {
        match (a, b) {
            (Value::Str(s), Value::Str(r)) => {
                match (slice_seq(w.cells, s), slice_seq(w.cells, r)) {
                    (Ok(u), Ok(v)) => {
                        lemma_good_parts(p, w);
                        lemma_good_more_cells(p, w, u + v);
                        let x = w.with_cells(w.cells + (u + v));
                        match place {
                            Ok(pl) => {
                                lemma_place_stays(p, w, x, pl);
                                lemma_done_store_valid(
                                    p,
                                    x,
                                    pl,
                                    calculate(w, op, t, a, b)->Ok_0.1->Done_0,
                                );
                            },
                            Err(_) => {},
                        }
                    },
                    _ => {},
                }
            },
            _ => {},
        }
    } else {
        law_integers_stay_in_range(op, op == Opcode::INC, t, t, a, b);
        match (place, calculate(w, op, t, a, b)) {
            (Ok(pl), Ok((x, Calc::Done(v)))) => {
                assert(valid_value(p, w, v));
                lemma_done_store_valid(p, w, pl, v);
            },
            _ => {},
        }
    }
}

proof fn lemma_assign_valid(
    p: &Bytecode,
    w: VmView,
    c: Ctx,
    inst: Instruction,
    place: Place,
    old_value: Result<Value, Trap>,
    src: OpIndex,
)
    requires
        good(p, w),
        valid_place(p, w, place),
        old_value matches Ok(v) ==> valid_value(p, w, v),
    ensures
        sound_outcome(p, assign(p, w, c, inst, place, old_value, src)),
{
    lemma_read_valid(p, w, c, src);
    match w.read(c, p.consts@, src) {
        Ok(v) => {
            if inst.op1 == Opcode::VOID {
                lemma_copy_valid(p, w, v);
                lemma_copy_grows(w, v);
                match copy_semantic(w, v) {
                    Ok((x, y)) => {
                        lemma_place_stays(p, w, x, place);
                        lemma_done_store_valid(p, x, place, y);
                    },
                    Err(_) => {},
                }
            } else {
                match old_value {
                    Ok(a) => {
                        lemma_calculate_valid(p, w, Ok(place), inst.op1, inst.t0, a, v);
                    },
                    Err(_) => {},
                }
            }
        },
        Err(_) => {},
    }
}

proof fn lemma_load_at_valid(
    p: &Bytecode,
    w: VmView,
    c: Ctx,
    inst: Instruction,
    place: Result<Place, Trap>,
)
    requires
        good(p, w),
    ensures
        sound_outcome(p, load_at(p, w, c, inst, place)),
{
    match place {
        Ok(pl) => {
            lemma_load_valid(p, w, pl);
            lemma_put_valid(p, w, c, inst.d, load(p, w, pl));
        },
        Err(_) => {},
    }
}

proof fn lemma_store_at_valid(
    p: &Bytecode,
    w: VmView,
    c: Ctx,
    inst: Instruction,
    place: Result<Place, Trap>,
    src: OpIndex,
)
    requires
        good(p, w),
        place matches Ok(pl) ==> valid_place(p, w, pl),
    ensures
        sound_outcome(p, store_at(p, w, c, inst, place, src)),
{
    match place {
        Ok(pl) => {
            lemma_load_valid(p, w, pl);
            lemma_assign_valid(p, w, c, inst, pl, load(p, w, pl), src);
        },
        Err(_) => {},
    }
}

proof fn lemma_load_map_valid(p: &Bytecode, w: VmView, c: Ctx, inst: Instruction, ex: Instruction)
    requires
        good(p, w),
    ensures
        sound_outcome(p, load_map(p, w, c, inst, ex)),
{
    match load_map(p, w, c, inst, ex) {
        Ok((y, _)) => {
            let map = w.read(c, p.consts@, inst.s0)->Ok_0;
            let key = w.read(c, p.consts@, inst.s1)->Ok_0;
            let given = w.read(c, p.consts@, ex.s0)->Ok_0;
            let (x, v) = match lookup(p, w, map, key) {
                Ok(Some(v)) => (w, v),
                _ => copy_semantic(w, given)->Ok_0,
            };
            let z = x.write(c, inst.d, v)->Ok_0;
            let ok = lookup(p, w, map, key) matches Ok(Some(_));
            if fits(y) {
                lemma_write_grows(x, c, inst.d, v);
                lemma_write_grows(z, c, ex.d, Value::Bool(ok));
                if inst.t1 == ValueType::FlagB {
                    lemma_fits_before(z, y);
                }
                lemma_fits_before(x, z);
                lemma_read_valid(p, w, c, ex.s0);
                match lookup(p, w, map, key) {
                    Ok(Some(_)) => match map {
                        Value::GoMap(m) => {
                            lemma_get_valid(p, w, m, key);
                        },
                        _ => {},
                    },
                    _ => {
                        lemma_copy_valid(p, w, given);
                    },
                }
                lemma_write_valid(p, x, c, inst.d, v);
                lemma_write_valid(p, z, c, ex.d, Value::Bool(ok));
            }
        },
        Err(_) => {},
    }
}

proof fn lemma_store_map_valid(p: &Bytecode, w: VmView, c: Ctx, inst: Instruction, ex: Instruction)
    requires
        good(p, w),
    ensures
        sound_outcome(p, store_map(p, w, c, inst, ex)),
{
    match (w.read(c, p.consts@, inst.d), w.read(c, p.consts@, inst.s0)) {
        (Ok(Value::GoMap(m)), Ok(key)) => {
            let old_value = match map_get(p, w, m, key) {
                Ok(Some(v)) => Ok(v),
                Ok(None) => w.read(c, p.consts@, ex.s0),
                Err(e) => Err(e),
            };
            lemma_read_valid(p, w, c, inst.s0);
            lemma_read_valid(p, w, c, ex.s0);
            lemma_get_valid(p, w, m, key);
            lemma_assign_valid(p, w, c, inst, Place::Entry(m, key), old_value, inst.s1);
        },
        _ => {},
    }
}

/// What a path leads to is valid.
proof fn lemma_walk_valid(p: &Bytecode, w: VmView, v: Value, path: Seq<OpIndex>, i: nat)
    requires
        good(p, w),
        valid_value(p, w, v),
    ensures
        walk(p, w, v, path, i) matches Ok(x) ==> valid_value(p, w, x),
    decreases path.len() - i,
{
    if i < path.len() {
        match field_place(v, path[i as int]) {
            Ok(pl) => match load(p, w, pl) {
                Ok(x) => {
                    lemma_load_valid(p, w, pl);
                    lemma_walk_valid(p, w, x, path, i + 1);
                },
                Err(_) => {},
            },
            Err(_) => {},
        }
    }
}

pub proof fn lemma_deref_valid(p: &Bytecode, w: VmView, v: Value)
    requires
        good(p, w),
    ensures
        spec_deref_value(p, w, v) matches Ok(x) ==> valid_value(p, w, x),
{
    match as_non_nil_pointer(v) {
        Ok(ptr) => match pointee(p, ptr) {
            Ok(pl) => {
                lemma_load_valid(p, w, pl);
            },
            Err(_) => {},
        },
        Err(_) => {},
    }
}

/// What is embedded in a valid value is valid.
pub proof fn lemma_embeded_valid(p: &Bytecode, w: VmView, v: Value, path: Seq<OpIndex>)
    requires
        good(p, w),
        valid_value(p, w, v),
    ensures
        spec_get_embeded(p, w, v, path) matches Ok(x) ==> valid_value(p, w, x),
{
    lemma_deref_valid(p, w, v);
    if v.spec_typ() == ValueType::Pointer {
        match spec_deref_value(p, w, v) {
            Ok(s) => {
                lemma_walk_valid(p, w, s, path, 0);
            },
            Err(_) => {},
        }
    } else {
        lemma_walk_valid(p, w, v, path, 0);
    }
}

proof fn lemma_target_valid(p: &Bytecode, w: VmView, c: Ctx, s: OpIndex, i: OpIndex)
    requires
        good(p, w),
    ensures
        embedded_target(w, p, c, s, i) matches Ok((v, _)) ==> valid_value(p, w, v),
{
    if 0 <= i < p.indices@.len() {
        lemma_read_valid(p, w, c, s);
        match w.read(c, p.consts@, s) {
            Ok(v) => {
                let path = p.indices@[i as int]@;
                let most = path.drop_last();
                lemma_embeded_valid(p, w, v, most);
                match spec_get_embeded(p, w, v, most) {
                    Ok(x) => {
                        lemma_deref_valid(p, w, x);
                    },
                    Err(_) => {},
                }
            },
            Err(_) => {},
        }
    }
}

/// A new pointer is valid.
proof fn lemma_ref_valid(p: &Bytecode, w: VmView, c: Ctx, inst: Instruction)
    requires
        good(p, w),
    ensures
        sound_outcome(p, ref_value(p, w, c, inst)),
        sound_outcome(p, ref_upvalue(w, c, inst)),
        sound_outcome(p, ref_slice_member(p, w, c, inst)),
        sound_outcome(p, ref_struct_field(p, w, c, inst)),
        sound_outcome(p, ref_embedded(p, w, c, inst)),
        sound_outcome(p, ref_pkg_member(p, w, c, inst)),
{
    lemma_read_valid(p, w, c, inst.s0);
    lemma_target_valid(p, w, c, inst.s0, inst.s1);
    match w.read(c, p.consts@, inst.s0) {
        Ok(v) => {
            let x = w.with_new_upval(UpValueState::Closed(v));
            let ptr = Value::Pointer(PointerObj::UpVal(w.upvals.len() as usize));
            lemma_good_upval(p, w, UpValueState::Closed(v));
            lemma_put_new_valid(p, c, inst.d, Ok((x, ptr)));
            lemma_put_valid(p, w, c, inst.d, field_pointer(v, inst.s1));
            match as_package(v) {
                Ok(k) => {
                    lemma_put_valid(
                        p,
                        w,
                        c,
                        inst.d,
                        Ok(Value::Pointer(PointerObj::PkgMember(k, inst.s1))),
                    );
                },
                Err(_) => {},
            }
            match w.read(c, p.consts@, inst.s1) {
                Ok(i) => match as_index(i) {
                    Ok(n) => {
                        lemma_put_valid(p, w, c, inst.d, member_pointer(v, inst.t0, n));
                    },
                    Err(_) => {},
                },
                Err(_) => {},
            }
        },
        Err(_) => {},
    }
    match upvalue_id(w, c, inst.s0) {
        Ok(id) => {
            lemma_good_parts(p, w);
            lemma_put_valid(p, w, c, inst.d, Ok(Value::Pointer(PointerObj::UpVal(id))));
        },
        Err(_) => {},
    }
    match embedded_target(w, p, c, inst.s0, inst.s1) {
        Ok((v, k)) => {
            lemma_put_valid(p, w, c, inst.d, field_pointer(v, k));
        },
        Err(_) => {},
    }
}

pub proof fn lemma_place_valid(p: &Bytecode, w: VmView, c: Ctx, inst: Instruction, ex: Instruction)
    requires
        good(p, w),
    ensures
        sound_outcome(p, place_inst(p, w, c, inst, ex)),
{
    match inst.op0 {
        Opcode::DUPLICATE => {
            lemma_read_valid(p, w, c, inst.s0);
            match w.read(c, p.consts@, inst.s0) {
                Ok(v) => {
                    lemma_copy_valid(p, w, v);
                    lemma_put_new_valid(p, c, inst.d, copy_semantic(w, v));
                },
                Err(_) => {},
            }
        },
        Opcode::STORE_SLICE => {
            lemma_store_at_valid(p, w, c, inst, slice_at(w, p, c, inst.d, inst.s0), inst.s1);
        },
        Opcode::STORE_ARRAY => {
            lemma_store_at_valid(p, w, c, inst, array_at(w, p, c, inst.d, inst.s0), inst.s1);
        },
        Opcode::STORE_STRUCT => {
            lemma_store_at_valid(p, w, c, inst, field_at(w, p, c, inst.d, inst.s0), inst.s1);
        },
        Opcode::STORE_EMBEDDED => {
            lemma_store_at_valid(p, w, c, inst, embedded_at(w, p, c, inst.d, inst.s0), inst.s1);
        },
        Opcode::STORE_PKG => {
            lemma_store_at_valid(p, w, c, inst, member_at(w, p, c, inst.d, inst.s0), inst.s1);
        },
        Opcode::STORE_POINTER => {
            lemma_store_at_valid(p, w, c, inst, pointee_at(w, p, c, inst.d), inst.s0);
        },
        Opcode::STORE_UP_VALUE => {
            lemma_store_at_valid(p, w, c, inst, upvalue_at(w, c, inst.d), inst.s0);
        },
        Opcode::LOAD_MAP => {
            lemma_load_map_valid(p, w, c, inst, ex);
        },
        Opcode::STORE_MAP => {
            lemma_store_map_valid(p, w, c, inst, ex);
        },
        Opcode::LOAD_SLICE => {
            lemma_load_at_valid(p, w, c, inst, slice_at(w, p, c, inst.s0, inst.s1));
        },
        Opcode::LOAD_ARRAY => {
            lemma_load_at_valid(p, w, c, inst, array_at(w, p, c, inst.s0, inst.s1));
        },
        Opcode::LOAD_STRUCT => {
            lemma_load_at_valid(p, w, c, inst, field_at(w, p, c, inst.s0, inst.s1));
        },
        Opcode::LOAD_EMBEDDED => {
            lemma_load_at_valid(p, w, c, inst, embedded_at(w, p, c, inst.s0, inst.s1));
        },
        Opcode::LOAD_PKG => {
            lemma_load_at_valid(p, w, c, inst, member_at(w, p, c, inst.s0, inst.s1));
        },
        Opcode::LOAD_POINTER => {
            lemma_load_at_valid(p, w, c, inst, pointee_at(w, p, c, inst.s0));
        },
        Opcode::LOAD_UP_VALUE => {
            lemma_load_at_valid(p, w, c, inst, upvalue_at(w, c, inst.s0));
        },
        Opcode::REF
        | Opcode::REF_UPVALUE
        | Opcode::REF_SLICE_MEMBER
        | Opcode::REF_STRUCT_FIELD
        | Opcode::REF_EMBEDDED
        | Opcode::REF_PKG_MEMBER => {
            lemma_ref_valid(p, w, c, inst);
        },
        _ => {},
    }
}

proof fn lemma_shift_valid(
    p: &Bytecode,
    w: VmView,
    place: Result<Place, Trap>,
    inst: Instruction,
    op: Opcode,
    a: Value,
    b: Value,
)
    requires
        good(p, w),
        valid_value(p, w, a),
        valid_value(p, w, b),
        place matches Ok(pl) ==> valid_place(p, w, pl),
    ensures
        word_cast(inst.t1, ValueType::Uint32, b) matches Some(Calc::Done(n)) ==> sound_outcome(
            p,
            settle(p, place, calculate(w, op, inst.t0, a, n)),
        ),
{
    match word_cast(inst.t1, ValueType::Uint32, b) {
        Some(Calc::Done(n)) => {
            law_integers_stay_in_range(op, true, ValueType::Uint32, inst.t1, b, b);
            lemma_calculate_valid(p, w, place, op, inst.t0, a, n);
        },
        _ => {},
    }
}

pub proof fn lemma_word_valid(p: &Bytecode, w: VmView, c: Ctx, inst: Instruction)
    requires
        good(p, w),
    ensures
        sound_outcome(p, word_inst(p, w, c, inst)),
{
    lemma_read_valid(p, w, c, inst.s0);
    lemma_read_valid(p, w, c, inst.s1);
    let s0 = w.read(c, p.consts@, inst.s0);
    let s1 = w.read(c, p.consts@, inst.s1);
    let d = result_value(p, w, c, inst.d);
    let pl = result_place(c, inst.d);
    if pl is Ok {
        lemma_load_valid(p, w, pl->Ok_0);
    }
    if s0 is Ok && s1 is Ok {
        lemma_calculate_valid(p, w, pl, inst.op0, inst.t0, s0->Ok_0, s1->Ok_0);
        lemma_shift_valid(p, w, pl, inst, inst.op0, s0->Ok_0, s1->Ok_0);
        lemma_put_valid(
            p,
            w,
            c,
            inst.d,
            Ok(Value::Bool(relation(p, w, inst, s0->Ok_0, s1->Ok_0)->Ok_0)),
        );
    }
    if d is Ok && s0 is Ok {
        lemma_calculate_valid(p, w, pl, plain_op(inst.op0), inst.t0, d->Ok_0, s0->Ok_0);
        lemma_shift_valid(p, w, pl, inst, plain_op(inst.op0), d->Ok_0, s0->Ok_0);
    }
    if d is Ok {
        lemma_calculate_valid(p, w, pl, inst.op0, inst.t0, d->Ok_0, void());
    }
    if s0 is Ok {
        law_integers_stay_in_range(inst.op0, true, inst.t0, inst.t0, s0->Ok_0, void());
        lemma_put_valid(p, w, c, inst.d, or_fault(word_unary(inst.op0, inst.t0, s0->Ok_0)));
    }
}

} // verus!

//! What holds of the tables: whatever a program does, what was made stays.
use vstd::prelude::*;
use crate::bytecode::{Binding4Runtime, Bytecode, Instruction, MetadataType, Opcode, ValueDesc};
use crate::closure::{as_closure, bound_func, gos_from_func, new_closure, new_uvs};
use crate::content::{copy_all, copy_semantic, depth, lemma_copy_rest_shape, lemma_copy_shape};
use crate::dict::{map_get, map_insert, with_new_map};
use crate::effect::{put, put_new, result_place, settle, Effect, Pending};
use crate::embed::{
    as_metadata, as_non_nil_interface, bind_method, innermost_method, spec_bind_iface_method,
    spec_cast_receiver, spec_type_assert, through,
};
use crate::fiber::{index_of, raise_text, FiberView, SelectComm, SelectCommType, StepView};
use crate::frame::{close_all, close_slots, or_empty, with_referrer, FrameView, Referred};
use crate::machine::{
    offset, region_cell, spec_const, ChannelObj, ClosureObj, Ctx, UpValueState, VmView,
};
use crate::meta::{field_metas, meta_depth, unwrap_named, zero, zero_rest, zero_value};
use crate::num::{int_in, word_cast, word_unary, Calc};
use crate::ops_call::{
    capture, captured, clear_frame, counts, enter, has_deferred, init_package, init_vars, leave,
    link, op_call, op_closure, op_return, owner, take_args, with_recv,
};
use crate::ops_make::{
    as_int, chan_size, complex_of, complex_part, count_value, literal_map, literal_struct,
    literal_value, make_inst, op_make, part_of, slice_size, slot_at, with_new_chan,
};
use crate::ops_place::{
    array_at, as_package, assign, calculate, embedded_at, embedded_target, field_at, field_pointer,
    load_at, load_map, lookup, member_at, member_pointer, pair, place_inst, pointee_at,
    ref_embedded, ref_pkg_member, ref_slice_member, ref_struct_field, ref_upvalue, ref_value,
    slice_at, store_at, upvalue_at, upvalue_id,
};
use crate::ops_type::{
    boxed, cast, char_text, dynamic_type, load_init_func, op_type, op_type_assert, pack_variadic,
    to_interface, to_pointer, to_slice, to_string, to_unsafe_ptr, type_inst,
};
use crate::ops_word::{plain_op, relation, result_value, word_inst};
use crate::place::{as_index, load, store, Place};
use crate::range::{latest_walk, range_next};
use crate::reply::{received, resume, Reply};
use crate::run::{
    begin, context_of, data_inst, fetch, fiber_inst, group, main_loop, op_range, op_range_init,
    op_recover, run_unit, select_comms, step, Group,
};
use crate::slices::{
    append_values, capacity, elements, length, repeated, slice_append, slice_copy_from,
    slice_with_data, slice_with_size,
};
use crate::trap::{or_fault, RuntimeError, Trap};
use crate::value::{
    void, FunctionKey, IntKind, InterfaceObj, Meta, OpIndex, PointerObj, Region, Value, ValueType,
};

verus! {

/// Whether the second state of the tables can come after the first: nothing has
/// gone from them, function values and channels are what they were, a captured
/// variable with a life of its own keeps it, and a package that is ready stays
/// so.
#[verifier::opaque]
pub open spec fn grows(w: VmView, x: VmView) -> bool {
    &&& w.cells.len() <= x.cells.len()
    &&& w.upvals.len() <= x.upvals.len()
    &&& forall|i: int|
        0 <= i < w.upvals.len() && w.upvals[i] is Closed ==> #[trigger] x.upvals[i] is Closed
    &&& w.closures.len() <= x.closures.len()
    &&& forall|i: int| 0 <= i < w.closures.len() ==> #[trigger] x.closures[i] == w.closures[i]
    &&& w.chans.len() <= x.chans.len()
    &&& forall|i: int| 0 <= i < w.chans.len() ==> #[trigger] x.chans[i] == w.chans[i]
    &&& w.maps.len() <= x.maps.len()
    &&& w.inited.len() == x.inited.len()
    &&& forall|i: int| 0 <= i < w.inited.len() && w.inited[i] ==> #[trigger] x.inited[i]
    &&& w.stacks.len() <= x.stacks.len()
}

pub proof fn lemma_grows_trans(w: VmView, x: VmView, y: VmView)
    requires
        grows(w, x),
        grows(x, y),
    ensures
        grows(w, y),
{
    reveal(grows);
    assert forall|i: int| 0 <= i < w.upvals.len() && w.upvals[i] is Closed implies #[trigger] y.upvals[i]
        is Closed by {
        assert(x.upvals[i] is Closed);
    }
    assert forall|i: int| 0 <= i < w.closures.len() implies #[trigger] y.closures[i]
        == w.closures[i] by {
        assert(x.closures[i] == w.closures[i]);
    }
    assert forall|i: int| 0 <= i < w.chans.len() implies #[trigger] y.chans[i] == w.chans[i] by {
        assert(x.chans[i] == w.chans[i]);
    }
    assert forall|i: int| 0 <= i < w.inited.len() && w.inited[i] implies #[trigger] y.inited[i] by {
        assert(x.inited[i]);
    }
}

pub proof fn lemma_grows_self(w: VmView)
    ensures
        grows(w, w),
{
    reveal(grows);
}

/// A value that is added to one of the tables.
pub proof fn lemma_added_grows(w: VmView, x: VmView)
    requires
        x == (VmView {
            cells: x.cells,
            upvals: x.upvals,
            closures: x.closures,
            chans: x.chans,
            maps: x.maps,
            stacks: x.stacks,
            panic_data: x.panic_data,
            ..w
        }),
        w.cells.len() <= x.cells.len(),
        x.upvals == w.upvals || exists|u: UpValueState| x.upvals == #[trigger] w.upvals.push(u),
        x.closures == w.closures || exists|u: ClosureObj|
            x.closures == #[trigger] w.closures.push(u),
        x.chans == w.chans || exists|u: ChannelObj| x.chans == #[trigger] w.chans.push(u),
        w.maps.len() <= x.maps.len(),
        w.stacks.len() <= x.stacks.len(),
    ensures
        grows(w, x),
{
    reveal(grows);
}

pub proof fn lemma_copy_grows(w: VmView, v: Value)
    ensures
        copy_semantic(w, v) matches Ok((x, _)) ==> grows(w, x),
{
    reveal(grows);
    lemma_copy_shape(w.cells, v, depth(w.cells));
}

pub proof fn lemma_copy_all_grows(w: VmView, src: Seq<Value>)
    ensures
        copy_all(w, src) matches Ok((x, _)) ==> grows(w, x),
{
    reveal(grows);
    lemma_copy_rest_shape(w.cells, src, 0, seq![], depth(w.cells));
}

pub proof fn lemma_store_grows(p: &Bytecode, w: VmView, place: Place, v: Value)
    ensures
        store(p, w, place, v) matches Ok(x) ==> grows(w, x),
{
    reveal(grows);
}

proof fn lemma_zero_longer(p: &Bytecode, cells: Seq<Value>, m: Meta, fuel: nat)
    ensures
        zero(p, cells, m, fuel) matches Ok((cs, _)) ==> cells.len() <= cs.len(),
    decreases fuel, 0nat,
{
    if m.ptr_depth == 0 && fuel > 0 && m.key < p.metas@.len() {
        match p.metas@[m.key as int] {
            MetadataType::Array(e, n) => {
                lemma_zero_rest_longer(
                    p,
                    cells,
                    Seq::new(n as nat, |i: int| e),
                    0,
                    seq![],
                    (fuel - 1) as nat,
                );
            },
            MetadataType::Struct(f) => {
                lemma_zero_rest_longer(
                    p,
                    cells,
                    field_metas(f@),
                    0,
                    seq![],
                    (fuel - 1) as nat,
                );
            },
            MetadataType::Named(u) => {
                lemma_zero_longer(p, cells, u, (fuel - 1) as nat);
            },
            _ => {},
        }
    }
}

pub proof fn lemma_zero_rest_longer(
    p: &Bytecode,
    cells: Seq<Value>,
    metas: Seq<Meta>,
    i: nat,
    out: Seq<Value>,
    fuel: nat,
)
    ensures
        zero_rest(p, cells, metas, i, out, fuel) matches Ok((cs, _)) ==> cells.len() <= cs.len(),
    decreases fuel, 1 + metas.len() - i,
{
    if i < metas.len() {
        lemma_zero_longer(p, cells, metas[i as int], fuel);
        match zero(p, cells, metas[i as int], fuel) {
            Ok((cs, v)) => {
                lemma_zero_rest_longer(p, cs, metas, i + 1, out.push(v), fuel);
            },
            Err(_) => {},
        }
    }
}

proof fn lemma_zero_grows(p: &Bytecode, w: VmView, m: Meta)
    ensures
        zero_value(p, w, m) matches Ok((x, _)) ==> grows(w, x),
{
    reveal(grows);
    lemma_zero_longer(p, w.cells, m, meta_depth(p));
}

proof fn lemma_assign_grows(
    p: &Bytecode,
    w: VmView,
    c: Ctx,
    inst: Instruction,
    place: Place,
    old_value: Result<Value, Trap>,
    src: OpIndex,
)
    ensures
        assign(p, w, c, inst, place, old_value, src) matches Ok((x, _)) ==> grows(w, x),
{
    match w.read(c, p.consts@, src) {
        Ok(v) => {
            if inst.op1 == Opcode::VOID {
                lemma_copy_grows(w, v);
                match copy_semantic(w, v) {
                    Ok((x, y)) => {
                        lemma_store_grows(p, x, place, y);
                        match store(p, x, place, y) {
                            Ok(z) => {
                                lemma_grows_trans(w, x, z);
                            },
                            Err(_) => {},
                        }
                    },
                    Err(_) => {},
                }
            } else {
                match old_value {
                    Ok(a) => {
                        lemma_settle_grows(p, w, Ok(place), inst.op1, inst.t0, a, v);
                    },
                    Err(_) => {},
                }
            }
        },
        Err(_) => {},
    }
}

proof fn lemma_settle_grows(
    p: &Bytecode,
    w: VmView,
    place: Result<Place, Trap>,
    op: Opcode,
    t: ValueType,
    a: Value,
    b: Value,
)
    ensures
        settle(p, place, calculate(w, op, t, a, b)) matches Ok((x, _)) ==> grows(w, x),
{
    match calculate(w, op, t, a, b) {
        Ok((x, _)) => {
            lemma_added_grows(w, x);
        },
        Err(_) => {},
    }
    match (place, calculate(w, op, t, a, b)) {
        (Ok(pl), Ok((x, Calc::Done(v)))) => {
            lemma_store_grows(p, x, pl, v);
            match store(p, x, pl, v) {
                Ok(z) => {
                    lemma_grows_trans(w, x, z);
                },
                Err(_) => {},
            }
        },
        _ => {},
    }
}

pub proof fn lemma_write_grows(w: VmView, c: Ctx, d: OpIndex, v: Value)
    ensures
        w.write(c, d, v) matches Ok(x) ==> grows(w, x),
{
    reveal(grows);
}

proof fn lemma_put_new_grows(w: VmView, c: Ctx, d: OpIndex, r: Result<(VmView, Value), Trap>)
    requires
        r matches Ok((x, _)) ==> grows(w, x),
    ensures
        put_new(c, d, r) matches Ok((x, _)) ==> grows(w, x),
{
    match r {
        Ok((x, v)) => {
            lemma_write_grows(x, c, d, v);
            match x.write(c, d, v) {
                Ok(y) => {
                    lemma_grows_trans(w, x, y);
                },
                Err(_) => {},
            }
        },
        Err(_) => {},
    }
}

proof fn lemma_put_grows(w: VmView, c: Ctx, d: OpIndex, r: Result<Value, Trap>)
    ensures
        put(w, c, d, r) matches Ok((x, _)) ==> grows(w, x),
{
    match r {
        Ok(v) => {
            lemma_write_grows(w, c, d, v);
        },
        Err(_) => {},
    }
}

proof fn lemma_load_at_grows(
    p: &Bytecode,
    w: VmView,
    c: Ctx,
    inst: Instruction,
    place: Result<Place, Trap>,
)
    ensures
        load_at(p, w, c, inst, place) matches Ok((x, _)) ==> grows(w, x),
{
    match place {
        Ok(pl) => {
            lemma_put_grows(w, c, inst.d, load(p, w, pl));
        },
        Err(_) => {},
    }
}

proof fn lemma_ref_grows(p: &Bytecode, w: VmView, c: Ctx, inst: Instruction)
    ensures
        ref_value(p, w, c, inst) matches Ok((x, _)) ==> grows(w, x),
        ref_upvalue(w, c, inst) matches Ok((x, _)) ==> grows(w, x),
        ref_slice_member(p, w, c, inst) matches Ok((x, _)) ==> grows(w, x),
        ref_struct_field(p, w, c, inst) matches Ok((x, _)) ==> grows(w, x),
        ref_embedded(p, w, c, inst) matches Ok((x, _)) ==> grows(w, x),
        ref_pkg_member(p, w, c, inst) matches Ok((x, _)) ==> grows(w, x),
{
    match w.read(c, p.consts@, inst.s0) {
        Ok(v) => {
            let x = w.with_new_upval(UpValueState::Closed(v));
            let ptr = Value::Pointer(PointerObj::UpVal(w.upvals.len() as usize));
            lemma_added_grows(w, x);
            lemma_put_new_grows(w, c, inst.d, Ok((x, ptr)));
            lemma_put_grows(w, c, inst.d, field_pointer(v, inst.s1));
            match as_package(v) {
                Ok(k) => {
                    lemma_put_grows(
                        w,
                        c,
                        inst.d,
                        Ok(Value::Pointer(PointerObj::PkgMember(k, inst.s1))),
                    );
                },
                Err(_) => {},
            }
            match w.read(c, p.consts@, inst.s1) {
                Ok(i) => match as_index(i) {
                    Ok(n) => {
                        lemma_put_grows(w, c, inst.d, member_pointer(v, inst.t0, n));
                    },
                    Err(_) => {},
                },
                Err(_) => {},
            }
        },
        Err(_) => {},
    }
    match upvalue_id(w, c, inst.s0) {
        Ok(id) => {
            lemma_put_grows(w, c, inst.d, Ok(Value::Pointer(PointerObj::UpVal(id))));
        },
        Err(_) => {},
    }
    match embedded_target(w, p, c, inst.s0, inst.s1) {
        Ok((v, k)) => {
            lemma_put_grows(w, c, inst.d, field_pointer(v, k));
        },
        Err(_) => {},
    }
}

proof fn lemma_store_at_grows(
    p: &Bytecode,
    w: VmView,
    c: Ctx,
    inst: Instruction,
    place: Result<Place, Trap>,
    src: OpIndex,
)
    ensures
        store_at(p, w, c, inst, place, src) matches Ok((x, _)) ==> grows(w, x),
{
    match place {
        Ok(pl) => {
            lemma_assign_grows(p, w, c, inst, pl, load(p, w, pl), src);
        },
        Err(_) => {},
    }
}

proof fn lemma_load_map_grows(p: &Bytecode, w: VmView, c: Ctx, inst: Instruction, ex: Instruction)
    ensures
        load_map(p, w, c, inst, ex) matches Ok((x, _)) ==> grows(w, x),
{
    match load_map(p, w, c, inst, ex) {
        Ok((y, _)) => {
            let map = w.read(c, p.consts@, inst.s0)->Ok_0;
            let key = w.read(c, p.consts@, inst.s1)->Ok_0;
            let (x, v) = match lookup(p, w, map, key) {
                Ok(Some(v)) => (w, v),
                _ => copy_semantic(w, w.read(c, p.consts@, ex.s0)->Ok_0)->Ok_0,
            };
            lemma_copy_grows(w, w.read(c, p.consts@, ex.s0)->Ok_0);
            lemma_grows_self(w);
            assert(grows(w, x));
            let z = x.write(c, inst.d, v)->Ok_0;
            lemma_write_grows(x, c, inst.d, v);
            lemma_grows_trans(w, x, z);
            if inst.t1 == ValueType::FlagB {
                let ok = lookup(p, w, map, key) matches Ok(Some(_));
                lemma_write_grows(z, c, ex.d, Value::Bool(ok));
                lemma_grows_trans(w, z, y);
            }
        },
        Err(_) => {},
    }
}

proof fn lemma_place_grows(p: &Bytecode, w: VmView, c: Ctx, inst: Instruction, ex: Instruction)
    ensures
        place_inst(p, w, c, inst, ex) matches Ok((x, _)) ==> grows(w, x),
{
    match inst.op0 {
        Opcode::DUPLICATE => {
            match w.read(c, p.consts@, inst.s0) {
                Ok(v) => {
                    lemma_copy_grows(w, v);
                    lemma_put_new_grows(w, c, inst.d, copy_semantic(w, v));
                },
                Err(_) => {},
            }
        },
        Opcode::STORE_SLICE => {
            lemma_store_at_grows(p, w, c, inst, slice_at(w, p, c, inst.d, inst.s0), inst.s1);
        },
        Opcode::STORE_ARRAY => {
            lemma_store_at_grows(p, w, c, inst, array_at(w, p, c, inst.d, inst.s0), inst.s1);
        },
        Opcode::STORE_STRUCT => {
            lemma_store_at_grows(p, w, c, inst, field_at(w, p, c, inst.d, inst.s0), inst.s1);
        },
        Opcode::STORE_EMBEDDED => {
            lemma_store_at_grows(p, w, c, inst, embedded_at(w, p, c, inst.d, inst.s0), inst.s1);
        },
        Opcode::STORE_PKG => {
            lemma_store_at_grows(p, w, c, inst, member_at(w, p, c, inst.d, inst.s0), inst.s1);
        },
        Opcode::STORE_POINTER => {
            lemma_store_at_grows(p, w, c, inst, pointee_at(w, p, c, inst.d), inst.s0);
        },
        Opcode::STORE_UP_VALUE => {
            lemma_store_at_grows(p, w, c, inst, upvalue_at(w, c, inst.d), inst.s0);
        },
        Opcode::LOAD_MAP => {
            lemma_load_map_grows(p, w, c, inst, ex);
        },
        Opcode::STORE_MAP => {
            match (w.read(c, p.consts@, inst.d), w.read(c, p.consts@, inst.s0)) {
                (Ok(Value::GoMap(m)), Ok(key)) => {
                    let old_value = match map_get(p, w, m, key) {
                        Ok(Some(v)) => Ok(v),
                        Ok(None) => w.read(c, p.consts@, ex.s0),
                        Err(e) => Err(e),
                    };
                    lemma_assign_grows(p, w, c, inst, Place::Entry(m, key), old_value, inst.s1);
                },
                _ => {},
            }
        },
        Opcode::LOAD_SLICE => {
            lemma_load_at_grows(p, w, c, inst, slice_at(w, p, c, inst.s0, inst.s1));
        },
        Opcode::LOAD_ARRAY => {
            lemma_load_at_grows(p, w, c, inst, array_at(w, p, c, inst.s0, inst.s1));
        },
        Opcode::LOAD_STRUCT => {
            lemma_load_at_grows(p, w, c, inst, field_at(w, p, c, inst.s0, inst.s1));
        },
        Opcode::LOAD_EMBEDDED => {
            lemma_load_at_grows(p, w, c, inst, embedded_at(w, p, c, inst.s0, inst.s1));
        },
        Opcode::LOAD_PKG => {
            lemma_load_at_grows(p, w, c, inst, member_at(w, p, c, inst.s0, inst.s1));
        },
        Opcode::LOAD_POINTER => {
            lemma_load_at_grows(p, w, c, inst, pointee_at(w, p, c, inst.s0));
        },
        Opcode::LOAD_UP_VALUE => {
            lemma_load_at_grows(p, w, c, inst, upvalue_at(w, c, inst.s0));
        },
        Opcode::REF
        | Opcode::REF_UPVALUE
        | Opcode::REF_SLICE_MEMBER
        | Opcode::REF_STRUCT_FIELD
        | Opcode::REF_EMBEDDED
        | Opcode::REF_PKG_MEMBER => {
            lemma_ref_grows(p, w, c, inst);
        },
        _ => {},
    }
}

proof fn lemma_word_grows(p: &Bytecode, w: VmView, c: Ctx, inst: Instruction)
    ensures
        word_inst(p, w, c, inst) matches Ok((x, _)) ==> grows(w, x),
{
    let s0 = w.read(c, p.consts@, inst.s0);
    let s1 = w.read(c, p.consts@, inst.s1);
    let d = result_value(p, w, c, inst.d);
    let pl = result_place(c, inst.d);
    lemma_settle_grows(p, w, pl, inst.op0, inst.t0, s0->Ok_0, s1->Ok_0);
    lemma_settle_grows(p, w, pl, plain_op(inst.op0), inst.t0, d->Ok_0, s0->Ok_0);
    lemma_settle_grows(p, w, pl, inst.op0, inst.t0, d->Ok_0, void());
    lemma_grows_self(w);
    match word_cast(inst.t1, ValueType::Uint32, s1->Ok_0) {
        Some(Calc::Done(n)) => {
            lemma_settle_grows(p, w, pl, inst.op0, inst.t0, s0->Ok_0, n);
        },
        _ => {},
    }
    match word_cast(inst.t1, ValueType::Uint32, s0->Ok_0) {
        Some(Calc::Done(n)) => {
            lemma_settle_grows(p, w, pl, plain_op(inst.op0), inst.t0, d->Ok_0, n);
        },
        _ => {},
    }
    lemma_put_grows(w, c, inst.d, or_fault(word_unary(inst.op0, inst.t0, s0->Ok_0)));
    lemma_put_grows(
        w,
        c,
        inst.d,
        Ok(Value::Bool(relation(p, w, inst, s0->Ok_0, s1->Ok_0)->Ok_0)),
    );
}

pub proof fn lemma_new_uvs_grows(w: VmView, descs: Seq<ValueDesc>, i: nat, out: Seq<Value>)
    ensures
        grows(w, new_uvs(w, descs, i, out).0),
    decreases descs.len() - i,
{
    lemma_grows_self(w);
    if i < descs.len() {
        if descs[i as int].is_local {
            lemma_new_uvs_grows(w, descs, i + 1, out.push(void()));
        } else {
            let x = w.with_new_upval(UpValueState::Open(descs[i as int]));
            let next = out.push(Value::Pointer(PointerObj::UpVal(w.upvals.len() as usize)));
            lemma_added_grows(w, x);
            lemma_new_uvs_grows(x, descs, i + 1, next);
            lemma_grows_trans(w, x, new_uvs(x, descs, i + 1, next).0);
        }
    }
}

pub proof fn lemma_func_grows(p: &Bytecode, w: VmView, func: FunctionKey, recv: Option<Value>)
    ensures
        gos_from_func(p, w, func, recv) matches Ok((x, _)) ==> grows(w, x),
{
    lemma_grows_self(w);
    if func < p.functions@.len() {
        let descs = p.functions@[func as int].up_ptrs@;
        let (x, vals) = new_uvs(w, descs, 0, seq![]);
        lemma_new_uvs_grows(w, descs, 0, seq![]);
        let y = x.with_cells(x.cells + vals);
        lemma_added_grows(x, y);
        lemma_grows_trans(w, x, y);
    }
}

pub proof fn lemma_bound_grows(p: &Bytecode, w: VmView, func: FunctionKey, recv: Option<Value>)
    ensures
        bound_func(p, w, func, recv) matches Ok((x, _)) ==> grows(w, x),
{
    lemma_func_grows(p, w, func, recv);
    match gos_from_func(p, w, func, recv) {
        Ok((x, cls)) => {
            let y = new_closure(x, cls).0;
            lemma_added_grows(x, y);
            lemma_grows_trans(w, x, y);
        },
        Err(_) => {},
    }
}

proof fn lemma_bind_grows(p: &Bytecode, w: VmView, iface: InterfaceObj, index: usize)
    ensures
        bind_method(p, w, iface, index) matches Ok((x, _)) ==> grows(w, x),
{
    match iface {
        InterfaceObj::Gos { under, binding: Some(b) } => {
            if b < p.ifaces@.len() && index < p.ifaces@[b as int].methods@.len() && under
                < w.cells.len() {
                match p.ifaces@[b as int].methods@[index as int] {
                    Binding4Runtime::Struct { func, ptr_recv, indices } => {
                        match through(p, w, w.cells[under as int], indices) {
                            Ok(obj) => {
                                lemma_copy_grows(w, obj);
                                match copy_semantic(w, obj) {
                                    Ok((x, v)) => {
                                        match spec_cast_receiver(p, x, v, ptr_recv) {
                                            Ok((y, recv)) => {
                                                lemma_added_grows(x, y);
                                                lemma_grows_trans(w, x, y);
                                                lemma_bound_grows(p, y, func, Some(recv));
                                                match bound_func(p, y, func, Some(recv)) {
                                                    Ok((z, _)) => {
                                                        lemma_grows_trans(w, y, z);
                                                    },
                                                    Err(_) => {},
                                                }
                                            },
                                            Err(_) => {},
                                        }
                                    },
                                    Err(_) => {},
                                }
                            },
                            Err(_) => {},
                        }
                    },
                    Binding4Runtime::Iface { .. } => {},
                }
            }
        },
        InterfaceObj::Ffi { ffi, meta } => {
            match bind_method(p, w, iface, index) {
                Ok((x, _)) => {
                    lemma_added_grows(w, x);
                },
                Err(_) => {},
            }
        },
        _ => {},
    }
}

proof fn lemma_convert_grows(p: &Bytecode, w: VmView, c: Ctx, inst: Instruction)
    ensures
        cast(p, w, c, inst) matches Ok((x, _)) ==> grows(w, x),
{
    lemma_grows_self(w);
    match w.read(c, p.consts@, inst.s0) {
        Ok(v) => {
            lemma_put_grows(w, c, inst.d, Ok(Value::Int(IntKind::UintPtr, 0)));
            match word_cast(inst.t1, inst.t0, v) {
                Some(Calc::Done(x)) => {
                    match result_place(c, inst.d) {
                        Ok(pl) => {
                            lemma_store_grows(p, w, pl, x);
                        },
                        Err(_) => {},
                    }
                },
                _ => {},
            }
            match inst.t0 {
                ValueType::Interface => {
                    lemma_copy_grows(w, v);
                    match copy_semantic(w, v) {
                        Ok((x, y)) => {
                            let b = Some(inst.s1 as usize);
                            lemma_added_grows(x, boxed(x, y, b).0);
                            lemma_grows_trans(w, x, boxed(x, y, b).0);
                        },
                        Err(_) => {},
                    }
                    lemma_put_new_grows(w, c, inst.d, to_interface(p, w, v, inst.s1));
                },
                ValueType::String => {
                    match to_string(w, inst.t1, inst.op1_t, v) {
                        Ok((x, _)) => {
                            lemma_added_grows(w, x);
                        },
                        Err(_) => {},
                    }
                    lemma_put_new_grows(w, c, inst.d, to_string(w, inst.t1, inst.op1_t, v));
                },
                ValueType::Slice => {
                    match to_slice(w, inst.op1_t, v) {
                        Ok((x, _)) => {
                            lemma_added_grows(w, x);
                        },
                        Err(_) => {},
                    }
                    lemma_put_new_grows(w, c, inst.d, to_slice(w, inst.op1_t, v));
                },
                ValueType::Pointer => {
                    lemma_put_grows(w, c, inst.d, to_pointer(p, w, inst.t1, inst.op1_t, v));
                },
                ValueType::UnsafePtr => {
                    lemma_put_grows(w, c, inst.d, to_unsafe_ptr(inst.t1, v));
                },
                _ => {},
            }
        },
        Err(_) => {},
    }
}

proof fn lemma_type_assert_grows(
    p: &Bytecode,
    w: VmView,
    c: Ctx,
    inst: Instruction,
    next: Option<Instruction>,
)
    ensures
        op_type_assert(p, w, c, inst, next) matches Ok((x, _)) ==> grows(w, x),
{
    match op_type_assert(p, w, c, inst, next) {
        Ok((z, _)) => {
            let v = w.read(c, p.consts@, inst.s0)->Ok_0;
            let want = spec_const(p.consts@, inst.s1)->Ok_0;
            let (x, (val, ok)) = spec_type_assert(p, w, v, want)->Ok_0;
            match as_non_nil_interface(v) {
                Ok(InterfaceObj::Gos { under, .. }) => {
                    lemma_copy_grows(w, w.cell(under as int)->Ok_0);
                    lemma_zero_grows(p, w, as_metadata(want)->Ok_0);
                },
                _ => {},
            }
            assert(grows(w, x));
            let y = x.write(c, inst.d, val)->Ok_0;
            lemma_write_grows(x, c, inst.d, val);
            lemma_grows_trans(w, x, y);
            if inst.t1 == ValueType::FlagB {
                lemma_write_grows(y, c, next->Some_0.d, Value::Bool(ok));
                lemma_grows_trans(w, y, z);
            }
        },
        Err(_) => {},
    }
}

proof fn lemma_op_type_grows(p: &Bytecode, w: VmView, c: Ctx, inst: Instruction)
    ensures
        op_type(p, w, c, inst) matches Ok((x, _)) ==> grows(w, x),
{
    match op_type(p, w, c, inst) {
        Ok((z, _)) => {
            let v = w.read(c, p.consts@, inst.s0)->Ok_0;
            let (under, m) = dynamic_type(p, v)->Ok_0;
            lemma_put_grows(w, c, inst.d, Ok(Value::Metadata(m)));
            if inst.t0 == ValueType::FlagA {
                let (x, val) = match under {
                    Some(a) => copy_semantic(w, w.cell(a as int)->Ok_0)->Ok_0,
                    None => (w, v),
                };
                lemma_grows_self(w);
                lemma_copy_grows(w, w.cell(under->Some_0 as int)->Ok_0);
                assert(grows(w, x));
                let y = x.write(c, inst.d, Value::Metadata(m))->Ok_0;
                lemma_write_grows(x, c, inst.d, Value::Metadata(m));
                lemma_grows_trans(w, x, y);
                lemma_write_grows(y, c, inst.s1, val);
                lemma_grows_trans(w, y, z);
            }
        },
        Err(_) => {},
    }
}

proof fn lemma_init_func_grows(p: &Bytecode, w: VmView, c: Ctx, inst: Instruction)
    ensures
        load_init_func(p, w, c, inst) matches Ok((x, _)) ==> grows(w, x),
{
    lemma_grows_self(w);
    match load_init_func(p, w, c, inst) {
        Ok((z, Effect::Next(n))) => {
            if n == 0 {
                let k = as_package(w.read(c, p.consts@, inst.s0)->Ok_0)->Ok_0;
                let i = int_in(w.read(c, p.consts@, inst.s1)->Ok_0, IntKind::Int32)->Some_0;
                let f = p.packages@[k as int].init_funcs@[i as int];
                let y = w.write(c, inst.d, f)->Ok_0;
                let next = Value::Int(IntKind::Int32, (i + 1) as i128);
                lemma_write_grows(w, c, inst.d, f);
                lemma_write_grows(y, c, inst.s1, next);
                lemma_grows_trans(w, y, z);
            }
        },
        _ => {},
    }
}

proof fn lemma_pack_grows(w: VmView, c: Ctx, inst: Instruction)
    ensures
        pack_variadic(w, c, inst) matches Ok((x, _)) ==> grows(w, x),
{
    match pack_variadic(w, c, inst) {
        Ok((z, _)) => {
            let b = offset(c.sb, inst.s0)->Ok_0;
            let e = offset(c.sb, inst.s1)->Ok_0;
            let (x, vals) = w.taken(c.stack, b, e)->Ok_0;
            let (y, v) = slice_with_data(x, vals);
            lemma_added_grows(w, x);
            lemma_added_grows(x, y);
            lemma_grows_trans(w, x, y);
            lemma_write_grows(y, c, inst.d, v);
            lemma_grows_trans(w, y, z);
        },
        Err(_) => {},
    }
}

proof fn lemma_type_grows(
    p: &Bytecode,
    w: VmView,
    c: Ctx,
    inst: Instruction,
    next: Option<Instruction>,
)
    ensures
        type_inst(p, w, c, inst, next) matches Ok((x, _)) ==> grows(w, x),
{
    lemma_grows_self(w);
    match inst.op0 {
        Opcode::PACK_VARIADIC => {
            lemma_pack_grows(w, c, inst);
        },
        Opcode::LOAD_INIT_FUNC => {
            lemma_init_func_grows(p, w, c, inst);
        },
        Opcode::BIND_METHOD => {
            match pair(w.read(c, p.consts@, inst.s0), w.read(c, p.consts@, inst.s1)) {
                Ok((v, Value::Function(f))) => {
                    lemma_copy_grows(w, v);
                    match copy_semantic(w, v) {
                        Ok((x, recv)) => {
                            lemma_bound_grows(p, x, f, Some(recv));
                            match bound_func(p, x, f, Some(recv)) {
                                Ok((y, _)) => {
                                    lemma_grows_trans(w, x, y);
                                },
                                Err(_) => {},
                            }
                            lemma_put_new_grows(w, c, inst.d, bound_func(p, x, f, Some(recv)));
                        },
                        Err(_) => {},
                    }
                },
                _ => {},
            }
        },
        Opcode::BIND_I_METHOD => {
            match w.read(c, p.consts@, inst.s0) {
                Ok(v) => match as_non_nil_interface(v) {
                    Ok(iface) => {
                        let r = spec_bind_iface_method(p, w, iface, inst.s1 as usize);
                        let (inner, i) = innermost_method(p, w, iface, inst.s1 as usize);
                        lemma_bind_grows(p, w, inner, i);
                        lemma_put_new_grows(w, c, inst.d, r);
                    },
                    Err(_) => {},
                },
                Err(_) => {},
            }
        },
        Opcode::CAST => {
            lemma_convert_grows(p, w, c, inst);
        },
        Opcode::TYPE_ASSERT => {
            lemma_type_assert_grows(p, w, c, inst, next);
        },
        Opcode::TYPE => {
            lemma_op_type_grows(p, w, c, inst);
        },
        _ => {},
    }
}

pub proof fn lemma_literal_map_grows(
    p: &Bytecode,
    w: VmView,
    m: usize,
    stack: usize,
    begin: int,
    count: int,
    i: int,
)
    ensures
        literal_map(p, w, m, stack, begin, count, i) matches Ok(x) ==> grows(w, x),
    decreases count - i,
{
    lemma_grows_self(w);
    if i < count {
        match pair(slot_at(w, stack, begin + 2 * i), slot_at(w, stack, begin + 1 + 2 * i)) {
            Ok((k, v)) => {
                lemma_store_grows(p, w, Place::Entry(m, k), v);
                match map_insert(p, w, m, k, v) {
                    Ok(x) => {
                        lemma_literal_map_grows(p, x, m, stack, begin, count, i + 1);
                        match literal_map(p, x, m, stack, begin, count, i + 1) {
                            Ok(y) => {
                                lemma_grows_trans(w, x, y);
                            },
                            Err(_) => {},
                        }
                    },
                    Err(_) => {},
                }
            },
            Err(_) => {},
        }
    }
}

pub proof fn lemma_literal_struct_grows(
    w: VmView,
    r: Region,
    stack: usize,
    begin: int,
    count: int,
    i: int,
)
    ensures
        literal_struct(w, r, stack, begin, count, i) matches Ok(x) ==> grows(w, x),
    decreases count - i,
{
    lemma_grows_self(w);
    if i < count {
        match pair(slot_at(w, stack, begin + 2 * i), slot_at(w, stack, begin + 1 + 2 * i)) {
            Ok((n, v)) => {
                match int_in(n, IntKind::Uint) {
                    Some(k) => match region_cell(r, k as int) {
                        Ok(a) => {
                            match w.with_cell(a as int, v) {
                                Ok(x) => {
                                    lemma_added_grows(w, x);
                                    lemma_literal_struct_grows(x, r, stack, begin, count, i + 1);
                                    match literal_struct(x, r, stack, begin, count, i + 1) {
                                        Ok(y) => {
                                            lemma_grows_trans(w, x, y);
                                        },
                                        Err(_) => {},
                                    }
                                },
                                Err(_) => {},
                            }
                        },
                        Err(_) => {},
                    },
                    None => {},
                }
            },
            Err(_) => {},
        }
    }
}

proof fn lemma_literal_grows(
    p: &Bytecode,
    w: VmView,
    md: Meta,
    stack: usize,
    begin: int,
    count: int,
)
    ensures
        literal_value(p, w, md, stack, begin, count) matches Ok((x, _)) ==> grows(w, x),
{
    match literal_value(p, w, md, stack, begin, count) {
        Ok((y, v)) => match p.metas@[md.key as int] {
            MetadataType::Slice(m) | MetadataType::Array(m, _) => {
                let x = zero_value(p, w, m)->Ok_0.0;
                lemma_zero_grows(p, w, m);
                lemma_added_grows(x, y);
                lemma_grows_trans(w, x, y);
            },
            MetadataType::GoMap(_, _) => {
                let x = with_new_map(w);
                lemma_added_grows(w, x);
                lemma_literal_map_grows(p, x, w.maps.len() as usize, stack, begin, count, 0);
                lemma_grows_trans(w, x, y);
            },
            MetadataType::Struct(_) => {
                let (x, z) = zero_value(p, w, md)->Ok_0;
                lemma_zero_grows(p, w, md);
                match z {
                    Value::Struct(r) => {
                        lemma_literal_struct_grows(x, r, stack, begin, count, 0);
                        lemma_grows_trans(w, x, y);
                    },
                    _ => {},
                }
            },
            _ => {},
        },
        Err(_) => {},
    }
}

pub proof fn lemma_sized_grows(w: VmView, len: usize, cap: usize, z: Value)
    ensures
        slice_with_size(w, len, cap, z) matches Ok((x, _)) ==> grows(w, x),
{
    lemma_copy_all_grows(w, repeated(z, cap as nat));
    match copy_all(w, repeated(z, cap as nat)) {
        Ok((x, vals)) => {
            let y = x.with_cells(x.cells + vals);
            lemma_added_grows(x, y);
            lemma_grows_trans(w, x, y);
        },
        Err(_) => {},
    }
}

proof fn lemma_append_grows(w: VmView, text: bool, a: Value, b: Value)
    ensures
        slice_append(w, text, a, b) matches Ok((x, _)) ==> grows(w, x),
        slice_copy_from(w, text, a, b) matches Ok((x, _)) ==> grows(w, x),
{
    match elements(w, text, b) {
        Ok(src) => {
            lemma_copy_all_grows(w, src);
            match copy_all(w, src) {
                Ok((x, vals)) => match append_values(x, a, vals) {
                    Ok((y, _)) => {
                        lemma_added_grows(x, y);
                        lemma_grows_trans(w, x, y);
                    },
                    Err(_) => {},
                },
                Err(_) => {},
            }
            match slice_copy_from(w, text, a, b) {
                Ok((y, n)) => {
                    lemma_copy_all_grows(w, src.subrange(0, n));
                    let x = copy_all(w, src.subrange(0, n))->Ok_0.0;
                    lemma_added_grows(x, y);
                    lemma_grows_trans(w, x, y);
                },
                Err(_) => {},
            }
        },
        Err(_) => {},
    }
}

proof fn lemma_op_make_grows(
    p: &Bytecode,
    w: VmView,
    c: Ctx,
    inst: Instruction,
    next: Option<Instruction>,
    async_enabled: bool,
)
    ensures
        op_make(p, w, c, inst, next, async_enabled) matches Ok((x, _)) ==> grows(w, x),
{
    match op_make(p, w, c, inst, next, async_enabled) {
        Ok((y, _)) => {
            let md = as_metadata(w.read(c, p.consts@, inst.s0)->Ok_0)->Ok_0;
            let key = unwrap_named(p, md.key, meta_depth(p))->Ok_0;
            match p.metas@[key as int] {
                MetadataType::Slice(m) => {
                    let (len, cap, _) = slice_size(p, w, c, inst, next)->Ok_0;
                    let (x, z) = zero_value(p, w, m)->Ok_0;
                    let (x1, v) = slice_with_size(x, len, cap, z)->Ok_0;
                    lemma_zero_grows(p, w, m);
                    lemma_sized_grows(x, len, cap, z);
                    lemma_grows_trans(w, x, x1);
                    lemma_write_grows(x1, c, inst.d, v);
                    lemma_grows_trans(w, x1, y);
                },
                MetadataType::GoMap(_, _) => {
                    let v = Value::GoMap(w.maps.len() as usize);
                    lemma_added_grows(w, with_new_map(w));
                    lemma_put_new_grows(w, c, inst.d, Ok((with_new_map(w), v)));
                },
                MetadataType::Channel(_, m) => {
                    if !async_enabled {
                        lemma_write_grows(w, c, inst.d, void());
                    } else {
                        let cap = chan_size(p, w, c, inst)->Ok_0;
                        let (x, z) = zero_value(p, w, m)->Ok_0;
                        lemma_zero_grows(p, w, m);
                        lemma_added_grows(x, with_new_chan(x, cap, z));
                        lemma_grows_trans(w, x, with_new_chan(x, cap, z));
                        let v = Value::Channel(x.chans.len() as usize);
                        lemma_put_new_grows(w, c, inst.d, Ok((with_new_chan(x, cap, z), v)));
                    }
                },
                _ => {},
            }
        },
        Err(_) => {},
    }
}

proof fn lemma_make_grows(
    p: &Bytecode,
    w: VmView,
    c: Ctx,
    inst: Instruction,
    next: Option<Instruction>,
    async_enabled: bool,
)
    ensures
        make_inst(p, w, c, inst, next, async_enabled) matches Ok((x, _)) ==> grows(w, x),
{
    lemma_grows_self(w);
    let s0 = w.read(c, p.consts@, inst.s0);
    let s1 = w.read(c, p.consts@, inst.s1);
    match make_inst(p, w, c, inst, next, async_enabled) {
        Ok((y, _)) => match inst.op0 {
            Opcode::SLICE => {
                let ex = next->Some_0;
                let b = as_int(s1)->Ok_0;
                let e = as_int(w.read(c, p.consts@, ex.s0))->Ok_0;
                let m = as_int(w.read(c, p.consts@, ex.s1))->Ok_0;
                lemma_put_grows(
                    w,
                    c,
                    inst.d,
                    part_of(inst.t0, s0->Ok_0, b as int, e as int, m as int),
                );
            },
            Opcode::LITERAL => {
                let ex = next->Some_0;
                let md = as_metadata(spec_const(p.consts@, ex.s0)->Ok_0)->Ok_0;
                let begin = offset(c.sb, inst.s0)->Ok_0 as int;
                lemma_literal_grows(p, w, md, c.stack, begin, inst.s1 as int);
                lemma_put_new_grows(
                    w,
                    c,
                    inst.d,
                    literal_value(p, w, md, c.stack, begin, inst.s1 as int),
                );
            },
            Opcode::NEW => {
                let m = as_metadata(s0->Ok_0)->Ok_0.spec_into_value_category();
                let (x, z) = zero_value(p, w, m)->Ok_0;
                let x1 = x.with_new_upval(UpValueState::Closed(z));
                lemma_zero_grows(p, w, m);
                lemma_added_grows(x, x1);
                lemma_grows_trans(w, x, x1);
                let ptr = Value::Pointer(PointerObj::UpVal(x.upvals.len() as usize));
                lemma_put_new_grows(w, c, inst.d, Ok((x1, ptr)));
            },
            Opcode::MAKE => {
                lemma_op_make_grows(p, w, c, inst, next, async_enabled);
            },
            Opcode::COMPLEX => {
                lemma_put_grows(w, c, inst.d, complex_of(inst.t0, s0->Ok_0, s1->Ok_0));
            },
            Opcode::REAL | Opcode::IMAG => {
                lemma_put_grows(
                    w,
                    c,
                    inst.d,
                    complex_part(inst.op0 == Opcode::REAL, inst.t0, s0->Ok_0),
                );
            },
            Opcode::LEN => {
                lemma_put_grows(w, c, inst.d, Ok(count_value(length(w, s0->Ok_0)->Ok_0)));
            },
            Opcode::CAP => {
                lemma_put_grows(w, c, inst.d, Ok(count_value(capacity(w, s0->Ok_0)->Ok_0)));
            },
            Opcode::APPEND => {
                let text = inst.t0 == ValueType::String;
                lemma_append_grows(w, text, s0->Ok_0, s1->Ok_0);
                let (x, v) = slice_append(w, text, s0->Ok_0, s1->Ok_0)->Ok_0;
                lemma_write_grows(x, c, inst.d, v);
                lemma_grows_trans(w, x, y);
            },
            Opcode::COPY => {
                let text = inst.t0 == ValueType::String;
                lemma_append_grows(w, text, s0->Ok_0, s1->Ok_0);
                let (x, n) = slice_copy_from(w, text, s0->Ok_0, s1->Ok_0)->Ok_0;
                lemma_write_grows(x, c, inst.d, count_value(n));
                lemma_grows_trans(w, x, y);
            },
            Opcode::DELETE => {
                lemma_added_grows(w, y);
            },
            _ => {},
        },
        Err(_) => {},
    }
}

pub proof fn lemma_data_grows(
    p: &Bytecode,
    w: VmView,
    c: Ctx,
    inst: Instruction,
    next: Option<Instruction>,
    async_enabled: bool,
)
    ensures
        data_inst(p, w, c, inst, next, async_enabled) matches Ok((x, _)) ==> grows(w, x),
{
    let ex = match next {
        Some(ex) => ex,
        None => inst,
    };
    match group(inst.op0) {
        Group::Place => {
            lemma_place_grows(p, w, c, inst, ex);
        },
        Group::Word => {
            lemma_word_grows(p, w, c, inst);
        },
        Group::Type => {
            lemma_type_grows(p, w, c, inst, next);
        },
        Group::Make => {
            lemma_make_grows(p, w, c, inst, next, async_enabled);
        },
        Group::Fiber => {},
    }
}

pub proof fn lemma_raise_grows(p: &Bytecode, w: VmView, f: FiberView, text: Seq<char>)
    ensures
        raise_text(p, w, f, text) matches Some((x, _, _)) ==> grows(w, x),
{
    match raise_text(p, w, f, text) {
        Some((x, _, _)) => {
            lemma_added_grows(w, x);
        },
        None => {},
    }
}

proof fn lemma_close_all_grows(w: VmView, weaks: Seq<usize>, i: nat, val: Value)
    ensures
        close_all(w, weaks, i, val) matches Ok(x) ==> grows(w, x),
    decreases weaks.len() - i,
{
    lemma_grows_self(w);
    if i < weaks.len() && weaks[i as int] < w.upvals.len() {
        let x = VmView {
            upvals: w.upvals.update(weaks[i as int] as int, UpValueState::Closed(val)),
            ..w
        };
        assert(grows(w, x)) by {
            reveal(grows);
        }
        lemma_close_all_grows(x, weaks, i + 1, val);
        match close_all(x, weaks, i + 1, val) {
            Ok(y) => {
                lemma_grows_trans(w, x, y);
            },
            Err(_) => {},
        }
    }
}

pub proof fn lemma_close_slots_grows(w: VmView, stack: usize, base: OpIndex, refs: Referred, i: nat)
    ensures
        close_slots(w, stack, base, refs, i) matches Ok(x) ==> grows(w, x),
    decreases refs.len() - i,
{
    lemma_grows_self(w);
    if i < refs.len() {
        let weaks = refs[i as int].1.weaks;
        if weaks.len() == 0 {
            lemma_close_slots_grows(w, stack, base, refs, i + 1);
        } else {
            match offset(base, refs[i as int].0) {
                Ok(k) => match w.slot(stack, k) {
                    Ok(val) => {
                        lemma_close_all_grows(w, weaks, 0, val);
                        match close_all(w, weaks, 0, val) {
                            Ok(x) => {
                                lemma_close_slots_grows(x, stack, base, refs, i + 1);
                                match close_slots(x, stack, base, refs, i + 1) {
                                    Ok(y) => {
                                        lemma_grows_trans(w, x, y);
                                    },
                                    Err(_) => {},
                                }
                            },
                            Err(_) => {},
                        }
                    },
                    Err(_) => {},
                },
                Err(_) => {},
            }
        }
    }
}

pub proof fn lemma_link_grows(
    w: VmView,
    stack: usize,
    base: OpIndex,
    descs: Seq<ValueDesc>,
    uvs: Region,
    i: nat,
    ptrs: Seq<Value>,
    refs: Option<Referred>,
)
    ensures
        link(w, stack, base, descs, uvs, i, ptrs, refs) matches Some((x, _, _)) ==> grows(w, x),
    decreases descs.len() - i,
{
    lemma_grows_self(w);
    if i < descs.len() {
        let d = descs[i as int];
        if d.is_local {
            let id = w.upvals.len() as usize;
            let x = w.with_new_upval(
                UpValueState::Open(ValueDesc { stack: Some(stack), stack_base: base, ..d }),
            );
            let next = ptrs.push(Value::Pointer(PointerObj::UpVal(id)));
            let more = Some(with_referrer(or_empty(refs), d.index, d.typ, id));
            lemma_added_grows(w, x);
            lemma_link_grows(x, stack, base, descs, uvs, i + 1, next, more);
            match link(x, stack, base, descs, uvs, i + 1, next, more) {
                Some((y, _, _)) => {
                    lemma_grows_trans(w, x, y);
                },
                None => {},
            }
        } else {
            match captured(w, uvs, i as int) {
                Some(id) => {
                    let next = ptrs.push(Value::Pointer(PointerObj::UpVal(id)));
                    lemma_link_grows(w, stack, base, descs, uvs, i + 1, next, refs);
                },
                None => {},
            }
        }
    }
}

pub proof fn lemma_enter_grows(
    p: &Bytecode,
    w: VmView,
    stack: usize,
    func: FunctionKey,
    uvs: Option<Region>,
    recv: Option<Value>,
    base: OpIndex,
)
    ensures
        enter(p, w, stack, func, uvs, recv, base) matches Some((x, _)) ==> grows(w, x),
{
    match enter(p, w, stack, func, uvs, recv, base) {
        Some((z, _)) => {
            let fo = p.functions@[func as int];
            let n = index_of(base + fo.max_write_index + 1)->Some_0;
            let x = w.with_min_size(stack, n)->Ok_0;
            let y = x.with_vec(stack, base, with_recv(fo.ret_zeros@, recv))->Ok_0;
            lemma_added_grows(w, x);
            lemma_added_grows(x, y);
            lemma_grows_trans(w, x, y);
            match uvs {
                Some(r) => {
                    lemma_link_grows(y, stack, base, fo.up_ptrs@, r, 0, seq![], None);
                    let y1 = link(y, stack, base, fo.up_ptrs@, r, 0, seq![], None)->Some_0.0;
                    lemma_grows_trans(w, y, y1);
                    lemma_added_grows(y1, z);
                    lemma_grows_trans(w, y1, z);
                },
                None => {},
            }
        },
        None => {},
    }
}

proof fn lemma_call_grows(p: &Bytecode, w: VmView, f: FiberView, c: Ctx, inst: Instruction)
    ensures
        op_call(p, w, f, c, inst) matches Some((x, _, _)) ==> grows(w, x),
{
    match op_call(p, w, f, c, inst) {
        Some((z, _, _)) => {
            let v = w.read(c, p.consts@, inst.d)->Ok_0;
            let base = index_of(c.sb + inst.s0)->Some_0;
            match as_closure(w, v)->Ok_0 {
                ClosureObj::Gos { func, uvs, recv } => {
                    let (x, fr) = enter(p, w, f.stack, func, uvs, recv, base)->Some_0;
                    lemma_enter_grows(p, w, f.stack, func, uvs, recv, base);
                    match inst.t0 {
                        ValueType::FlagA => {},
                        ValueType::FlagB => {
                            if !f.context.async_enabled {
                                lemma_raise_grows(
                                    p,
                                    x,
                                    f,
                                    RuntimeError::AsyncDisabled.spec_message(),
                                );
                                lemma_grows_trans(w, x, z);
                            } else {
                                let y = take_args(p, x, f.stack, fr)->Some_0.0;
                                lemma_added_grows(x, y);
                                lemma_grows_trans(w, x, y);
                                lemma_added_grows(y, z);
                                lemma_grows_trans(w, y, z);
                            }
                        },
                        _ => {
                            lemma_added_grows(x, z);
                            lemma_grows_trans(w, x, z);
                        },
                    }
                },
                ClosureObj::Ffi { ffi, iface, index, meta, is_async } => {
                    match p.metas@[meta.key as int] {
                        MetadataType::Signature { params, results } => {
                            let begin = index_of(base + 1 + results@.len())->Some_0;
                            let end = index_of(base + 1 + results@.len() + params@.len())->Some_0;
                            let x = w.taken(f.stack, begin, end)->Ok_0.0;
                            lemma_added_grows(w, x);
                            if is_async && !f.context.async_enabled {
                                lemma_raise_grows(
                                    p,
                                    x,
                                    f,
                                    RuntimeError::AsyncDisabled.spec_message(),
                                );
                                lemma_grows_trans(w, x, z);
                            }
                        },
                        _ => {},
                    }
                },
            }
        },
        None => {},
    }
}

pub proof fn lemma_init_vars_grows(
    w: VmView,
    members: Region,
    mapping: Seq<usize>,
    vals: Seq<Value>,
    i: nat,
)
    ensures
        init_vars(w, members, mapping, vals, i) matches Some(x) ==> grows(w, x),
    decreases vals.len() - i,
{
    lemma_grows_self(w);
    if i < vals.len() && i < mapping.len() {
        match region_cell(members, mapping[i as int] as int) {
            Ok(a) => match w.with_cell(a as int, vals[i as int]) {
                Ok(x) => {
                    lemma_added_grows(w, x);
                    lemma_init_vars_grows(x, members, mapping, vals, i + 1);
                    match init_vars(x, members, mapping, vals, i + 1) {
                        Some(y) => {
                            lemma_grows_trans(w, x, y);
                        },
                        None => {},
                    }
                },
                Err(_) => {},
            },
            Err(_) => {},
        }
    }
}

proof fn lemma_leave_grows(p: &Bytecode, w: VmView, f: FiberView)
    ensures
        leave(p, w, f) matches Some((x, _, _)) ==> grows(w, x),
{
    match leave(p, w, f) {
        Some((x, _, _)) => {
            lemma_added_grows(w, x);
        },
        None => {},
    }
}

proof fn lemma_return_grows(p: &Bytecode, w: VmView, f: FiberView, c: Ctx, inst: Instruction)
    ensures
        op_return(p, w, f, c, inst) matches Some((x, _, _)) ==> grows(w, x),
{
    match op_return(p, w, f, c, inst) {
        Some((z, _, _)) => {
            if inst.t0 == ValueType::FlagB {
                let y = init_package(p, w, f, c, inst)->Some_0;
                match w.read(c, p.consts@, inst.d) {
                    Ok(Value::Package(k)) => {
                        let locals = counts(p, f.top().func)->Some_0.2;
                        let end = index_of(c.sb + locals)->Some_0;
                        let (x, vals) = w.taken(f.stack, c.sb, end)->Ok_0;
                        let pkg = p.packages@[k as int];
                        let x1 = init_vars(x, pkg.members, pkg.var_mapping@, vals, 0)->Some_0;
                        lemma_added_grows(w, x);
                        lemma_init_vars_grows(x, pkg.members, pkg.var_mapping@, vals, 0);
                        lemma_grows_trans(w, x, x1);
                        assert(grows(x1, y)) by {
                            reveal(grows);
                        }
                        lemma_grows_trans(w, x1, y);
                    },
                    _ => {},
                }
                lemma_leave_grows(p, y, f);
                lemma_grows_trans(w, y, z);
            } else if inst.t0 == ValueType::FlagC && has_deferred(f.top()) {
                lemma_added_grows(w, z);
            } else {
                let fr = f.top();
                let y = clear_frame(p, w, f.stack, fr)->Some_0;
                let x = close_slots(
                    w,
                    f.stack,
                    fr.stack_base,
                    or_empty(fr.referred_by),
                    0,
                )->Ok_0;
                lemma_close_slots_grows(w, f.stack, fr.stack_base, or_empty(fr.referred_by), 0);
                lemma_added_grows(x, y);
                lemma_grows_trans(w, x, y);
                lemma_leave_grows(p, y, f);
                lemma_grows_trans(w, y, z);
            }
        },
        None => {},
    }
}

pub proof fn lemma_capture_grows(w: VmView, frames: Seq<FrameView>, stack: usize, uvs: Region, i: nat)
    ensures
        capture(w, frames, stack, uvs, i) matches Some((x, _)) ==> grows(w, x),
    decreases uvs.len - i,
{
    lemma_grows_self(w);
    if i < uvs.len {
        match region_cell(uvs, i as int) {
            Ok(a) => match w.cell(a as int) {
                Ok(Value::Pointer(PointerObj::UpVal(id))) => {
                    if id < w.upvals.len() {
                        match w.upvals[id as int] {
                            UpValueState::Open(d) => {
                                match owner(frames, d.func, frames.len() - 1) {
                                    Some(k) => {
                                        let x = VmView {
                                            upvals: w.upvals.update(
                                                id as int,
                                                UpValueState::Open(
                                                    ValueDesc {
                                                        stack: Some(stack),
                                                        stack_base: frames[k].stack_base,
                                                        ..d
                                                    },
                                                ),
                                            ),
                                            ..w
                                        };
                                        let g = frames.update(
                                            k,
                                            FrameView {
                                                referred_by: Some(
                                                    with_referrer(
                                                        or_empty(frames[k].referred_by),
                                                        d.index,
                                                        d.typ,
                                                        id,
                                                    ),
                                                ),
                                                ..frames[k]
                                            },
                                        );
                                        assert(grows(w, x)) by {
                                            reveal(grows);
                                        }
                                        lemma_capture_grows(x, g, stack, uvs, i + 1);
                                        match capture(x, g, stack, uvs, i + 1) {
                                            Some((y, _)) => {
                                                lemma_grows_trans(w, x, y);
                                            },
                                            None => {},
                                        }
                                    },
                                    None => {
                                        lemma_capture_grows(w, frames, stack, uvs, i + 1);
                                    },
                                }
                            },
                            UpValueState::Closed(_) => {
                                lemma_capture_grows(w, frames, stack, uvs, i + 1);
                            },
                        }
                    }
                },
                Ok(_) => {
                    lemma_capture_grows(w, frames, stack, uvs, i + 1);
                },
                Err(_) => {},
            },
            Err(_) => {},
        }
    }
}

proof fn lemma_closure_grows(p: &Bytecode, w: VmView, f: FiberView, c: Ctx, inst: Instruction)
    ensures
        op_closure(p, w, f, c, inst) matches Some((x, _, _)) ==> grows(w, x),
{
    match op_closure(p, w, f, c, inst) {
        Some((z, _, _)) => {
            match spec_const(p.consts@, inst.s0) {
                Ok(Value::Function(func)) => {
                    let (x, cls) = gos_from_func(p, w, func, None)->Ok_0;
                    lemma_func_grows(p, w, func, None);
                    let (y, _) = match cls {
                        ClosureObj::Gos { uvs: Some(r), .. } => capture(
                            x,
                            f.frames,
                            f.stack,
                            r,
                            0,
                        )->Some_0,
                        _ => (x, f.frames),
                    };
                    lemma_grows_self(x);
                    match cls {
                        ClosureObj::Gos { uvs: Some(r), .. } => {
                            lemma_capture_grows(x, f.frames, f.stack, r, 0);
                        },
                        _ => {},
                    }
                    lemma_grows_trans(w, x, y);
                    let (y1, v) = new_closure(y, cls);
                    lemma_added_grows(y, y1);
                    lemma_grows_trans(w, y, y1);
                    lemma_write_grows(y1, c, inst.d, v);
                    lemma_grows_trans(w, y1, z);
                },
                _ => {},
            }
        },
        None => {},
    }
}

pub proof fn lemma_select_grows(
    p: &Bytecode,
    w: VmView,
    c: Ctx,
    code: Seq<Instruction>,
    pc: int,
    count: int,
    i: int,
    comms: Seq<SelectComm>,
)
    ensures
        select_comms(p, w, c, code, pc, count, i, comms) matches Some((x, _)) ==> grows(w, x),
    decreases count - i,
{
    lemma_grows_self(w);
    if i < count && 0 <= pc + i < code.len() {
        let entry = code[pc + i];
        match w.read(c, p.consts@, entry.s0) {
            Ok(chan) => {
                match entry.t0 {
                    ValueType::FlagA => match w.read(c, p.consts@, entry.s1) {
                        Ok(v) => {
                            lemma_copy_grows(w, v);
                            match copy_semantic(w, v) {
                                Ok((x, val)) => {
                                    let next = comms.push(
                                        SelectComm {
                                            typ: SelectCommType::Send(val),
                                            chan,
                                            offset: entry.d,
                                        },
                                    );
                                    lemma_select_grows(p, x, c, code, pc, count, i + 1, next);
                                    match select_comms(p, x, c, code, pc, count, i + 1, next) {
                                        Some((y, _)) => {
                                            lemma_grows_trans(w, x, y);
                                        },
                                        None => {},
                                    }
                                },
                                Err(_) => {},
                            }
                        },
                        Err(_) => {},
                    },
                    ValueType::FlagB | ValueType::FlagC | ValueType::FlagD => {
                        lemma_select_grows(
                            p,
                            w,
                            c,
                            code,
                            pc,
                            count,
                            i + 1,
                            comms.push(
                                SelectComm {
                                    typ: SelectCommType::Recv(entry.t0, entry.s1),
                                    chan,
                                    offset: entry.d,
                                },
                            ),
                        );
                    },
                    _ => {},
                }
            },
            Err(_) => {},
        }
    }
}

proof fn lemma_range_grows(p: &Bytecode, w: VmView, f: FiberView, c: Ctx, inst: Instruction)
    ensures
        op_range_init(p, w, f, c, inst) matches Some((x, _, _)) ==> grows(w, x),
        op_range(p, w, f, c, inst) matches Some((x, _, _)) ==> grows(w, x),
        op_recover(w, f, c, inst) matches Some((x, _, _)) ==> grows(w, x),
{
    lemma_grows_self(w);
    match op_range_init(p, w, f, c, inst) {
        Some((x, _, _)) => {
            lemma_added_grows(w, x);
        },
        None => {},
    }
    let i = latest_walk(f.rstack, inst.t0, f.rstack.len() as int)->Some_0;
    match op_range(p, w, f, c, inst) {
        Some((z, _, _)) => match range_next(p, w, f.rstack[i]) {
            Ok(Some((k, v, _))) => {
                let y = w.write(c, inst.d, k)->Ok_0;
                lemma_write_grows(w, c, inst.d, k);
                lemma_write_grows(y, c, inst.s1, v);
                lemma_grows_trans(w, y, z);
            },
            _ => {},
        },
        None => {},
    }
    match op_recover(w, f, c, inst) {
        Some((z, _, _)) => {
            let (x, v) = match f.panic {
                Some(d) => boxed(w, d.msg, None),
                None => (w, void()),
            };
            lemma_added_grows(w, x);
            lemma_write_grows(x, c, inst.d, v);
            lemma_grows_trans(w, x, z);
        },
        None => {},
    }
}

proof fn lemma_fiber_grows(
    p: &Bytecode,
    w: VmView,
    f: FiberView,
    c: Ctx,
    inst: Instruction,
    code: Seq<Instruction>,
)
    ensures
        fiber_inst(p, w, f, c, inst, code) matches Some((x, _, _)) ==> grows(w, x),
{
    lemma_grows_self(w);
    lemma_raise_grows(p, w, f, RuntimeError::AsyncDisabled.spec_message());
    match inst.op0 {
        Opcode::CALL => {
            lemma_call_grows(p, w, f, c, inst);
        },
        Opcode::RETURN => {
            lemma_return_grows(p, w, f, c, inst);
        },
        Opcode::CLOSURE => {
            lemma_closure_grows(p, w, f, c, inst);
        },
        Opcode::RANGE_INIT | Opcode::RANGE | Opcode::RECOVER => {
            lemma_range_grows(p, w, f, c, inst);
        },
        Opcode::SELECT => {
            lemma_select_grows(p, w, c, code, f.top().pc as int, inst.s0 as int, 0, seq![]);
        },
        _ => {},
    }
}

/// Whatever instruction a program runs, nothing goes from the tables: function
/// values and channels stay what they are, a captured variable with a life of its
/// own keeps it, and a package that is ready stays so.
pub proof fn law_step_grows(p: &Bytecode, w: VmView, f: FiberView)
    ensures
        step(p, w, f) matches Some((x, _, _)) ==> grows(w, x),
{
    match fetch(p, f) {
        Some((f1, inst, next)) => {
            let c = context_of(f);
            if group(inst.op0) == Group::Fiber {
                lemma_fiber_grows(
                    p,
                    w,
                    f1,
                    c,
                    inst,
                    p.functions@[f.top().func as int].code@,
                );
            } else {
                let r = data_inst(p, w, c, inst, next, f.context.async_enabled);
                lemma_data_grows(p, w, c, inst, next, f.context.async_enabled);
                match r {
                    Ok((x, Effect::Raise(e))) => {
                        lemma_raise_grows(p, x, f1, e.spec_message());
                        match raise_text(p, x, f1, e.spec_message()) {
                            Some((y, _, _)) => {
                                lemma_grows_trans(w, x, y);
                            },
                            None => {},
                        }
                    },
                    Err(Trap::Panic(e)) => {
                        lemma_raise_grows(p, w, f1, e.spec_message());
                    },
                    _ => {},
                }
            }
        },
        None => {},
    }
}

/// Whatever the host answers, nothing goes from the tables.
pub proof fn law_resume_grows(p: &Bytecode, w: VmView, f: FiberView, reply: Reply)
    ensures
        resume(p, w, f, reply) matches Some((x, _, _)) ==> grows(w, x),
{
    lemma_grows_self(w);
    let g = f.waiting(None);
    let c = context_of(g);
    match resume(p, w, f, reply) {
        Some((z, _, _)) => match (f.pending, reply) {
            (Some(Pending::Store { place, typ }), Reply::Value(v)) => {
                lemma_store_grows(p, w, place, v);
            },
            (Some(Pending::Text { place }), Reply::Value(v)) => {
                let (x, s) = char_text(w, v)->Ok_0;
                lemma_added_grows(w, x);
                lemma_store_grows(p, x, place, s);
                lemma_grows_trans(w, x, z);
            },
            (Some(Pending::Shift { place, op, typ, val }), Reply::Value(n)) => {
                lemma_settle_grows(p, w, Ok(place), op, typ, val, n);
            },
            (Some(Pending::Recv { inst, chan }), Reply::Received(v)) => {
                lemma_received_grows(w, chan, v);
                let (x, val, ok) = received(w, chan, v)->Some_0;
                let y = x.write(c, inst.d, val)->Ok_0;
                lemma_write_grows(x, c, inst.d, val);
                lemma_grows_trans(w, x, y);
                if inst.t1 == ValueType::FlagB {
                    lemma_write_grows(y, c, inst.s1, Value::Bool(ok));
                    lemma_grows_trans(w, y, z);
                }
            },
            (Some(Pending::Select { default_offset }), Reply::Selected(i, v)) => {
                if i < g.comms.len() {
                    match (g.comms[i as int].typ, g.comms[i as int].chan) {
                        (SelectCommType::Recv(flag, dst), Value::Channel(chan)) => {
                            lemma_received_grows(w, chan, v);
                            let (x, val, ok) = received(w, chan, v)->Some_0;
                            lemma_added_grows(x, z);
                            lemma_grows_trans(w, x, z);
                        },
                        _ => {},
                    }
                }
            },
            (Some(Pending::FfiCreate { inst }), Reply::Created(_)) => {
                lemma_added_grows(w, z);
            },
            (Some(Pending::FfiCall { .. }), Reply::Returned(_)) => {
                lemma_added_grows(w, z);
            },
            (_, Reply::Failed(m)) => {
                lemma_raise_grows(p, w, g, m@);
            },
            _ => {},
        },
        None => {},
    }
}

pub proof fn lemma_received_grows(w: VmView, chan: usize, v: Option<Value>)
    ensures
        received(w, chan, v) matches Some((x, _, _)) ==> grows(w, x),
{
    lemma_grows_self(w);
    if chan < w.chans.len() {
        lemma_copy_grows(w, w.chans[chan as int].recv_zero);
    }
}

pub proof fn lemma_unit_grows(p: &Bytecode, w: VmView, f: FiberView, n: nat)
    ensures
        run_unit(p, w, f, n) matches Some((x, _, _)) ==> grows(w, x),
    decreases n,
{
    lemma_grows_self(w);
    if n > 0 {
        law_step_grows(p, w, f);
        match step(p, w, f) {
            Some((x, g, StepView::Next)) => {
                lemma_unit_grows(p, x, g, (n - 1) as nat);
                match run_unit(p, x, g, (n - 1) as nat) {
                    Some((y, _, _)) => {
                        lemma_grows_trans(w, x, y);
                    },
                    None => {},
                }
            },
            _ => {},
        }
    }
}

/// However long a fiber runs, nothing goes from the tables.
pub proof fn law_run_grows(p: &Bytecode, w: VmView, f: FiberView)
    ensures
        main_loop(p, w, f) matches Some((x, _, _)) ==> grows(w, x),
{
    match begin(p, w, f) {
        Some((x, g)) => {
            lemma_added_grows(w, x);
            lemma_unit_grows(p, x, g, g.unit_left as nat);
            match run_unit(p, x, g, g.unit_left as nat) {
                Some((y, _, _)) => {
                    lemma_grows_trans(w, x, y);
                },
                None => {},
            }
        },
        None => {},
    }
}

} // verus!

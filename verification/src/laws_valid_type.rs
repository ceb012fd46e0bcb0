//! What is bound, converted and asserted is valid.
use vstd::prelude::*;
use vstd::utf8::{decode_utf8, encode_scalar};
use crate::bytecode::{Binding4Runtime, Bytecode, Instruction, Opcode, ValueDesc};
use crate::closure::{bound_func, gos_from_func, new_closure, new_uvs};
use crate::content::{byte_values, copy_semantic, new_str, slice_seq, str_bytes};
use crate::effect::{result_place, Effect};
use crate::embed::{
    as_metadata, as_non_nil_interface, bind_method, innermost_method, spec_bind_iface_method,
    spec_cast_receiver, spec_type_assert, through,
};
use crate::laws_growth::{
    grows, lemma_added_grows, lemma_bound_grows, lemma_grows_self, lemma_grows_trans,
    lemma_new_uvs_grows, lemma_write_grows,
};
use crate::laws_valid::{
    fits, good, lemma_all_stay, lemma_copy_valid, lemma_fits_before, lemma_good_closure,
    lemma_good_more_cells, lemma_good_parts, lemma_good_upval, lemma_read_valid, lemma_store_valid,
    lemma_taken_valid, lemma_value_stays, lemma_write_valid, lemma_zero_valid, sound, valid_all,
    valid_closure, valid_package, valid_value,
};
use crate::laws_valid_inst::{
    lemma_deref_valid, lemma_embeded_valid, lemma_put_new_valid, lemma_put_valid, sound_outcome,
};
use crate::laws_values::law_integers_stay_in_range;
use crate::machine::{offset, spec_const, Ctx, UpValueState, VmView};
use crate::num::{int_in, word_cast, Calc};
use crate::ops_place::{as_package, pair};
use crate::ops_type::{
    boxed, cast, char_text, dynamic_type, load_init_func, op_type, op_type_assert, pack_variadic,
    to_interface, to_pointer, to_slice, to_string, to_unsafe_ptr, type_inst,
};
use crate::slices::slice_with_data;
use crate::text::{rune_values, runes_bytes, scalar, str_runes};
use crate::value::{
    rune_of, void, FunctionKey, IntKind, InterfaceObj, OpIndex, PointerObj, UnsafePtr, Value,
    ValueType,
};

verus! {

proof fn lemma_new_uvs_valid(
    p: &Bytecode,
    w: VmView,
    descs: Seq<ValueDesc>,
    i: nat,
    out: Seq<Value>,
)
    requires
        good(p, w),
        valid_all(p, w, out),
        fits(new_uvs(w, descs, i, out).0),
    ensures
        good(p, new_uvs(w, descs, i, out).0),
        valid_all(p, new_uvs(w, descs, i, out).0, new_uvs(w, descs, i, out).1),
    decreases descs.len() - i,
{
    if i < descs.len() {
        if descs[i as int].is_local {
            lemma_new_uvs_valid(p, w, descs, i + 1, out.push(void()));
        } else {
            let u = UpValueState::Open(descs[i as int]);
            let x = w.with_new_upval(u);
            let next = out.push(Value::Pointer(PointerObj::UpVal(w.upvals.len() as usize)));
            lemma_good_upval(p, w, u);
            lemma_new_uvs_grows(x, descs, i + 1, next);
            lemma_fits_before(x, new_uvs(x, descs, i + 1, next).0);
            lemma_all_stay(p, w, x, out);
            lemma_new_uvs_valid(p, x, descs, i + 1, next);
        }
    }
}

pub proof fn lemma_func_valid(p: &Bytecode, w: VmView, func: FunctionKey, recv: Option<Value>)
    requires
        good(p, w),
        recv matches Some(v) ==> valid_value(p, w, v),
    ensures
        gos_from_func(p, w, func, recv) matches Ok((x, cls)) ==> fits(x) ==> good(p, x)
            && valid_closure(p, x, cls),
{
    match gos_from_func(p, w, func, recv) {
        Ok((y, cls)) => {
            if fits(y) {
                let descs = p.functions@[func as int].up_ptrs@;
                if descs.len() > 0 {
                    let (x, vals) = new_uvs(w, descs, 0, seq![]);
                    lemma_new_uvs_grows(w, descs, 0, seq![]);
                    lemma_added_grows(x, y);
                    lemma_fits_before(x, y);
                    lemma_new_uvs_valid(p, w, descs, 0, seq![]);
                    lemma_good_more_cells(p, x, vals);
                    lemma_grows_trans(w, x, y);
                    match recv {
                        Some(v) => {
                            lemma_value_stays(p, w, y, v);
                        },
                        None => {},
                    }
                }
            }
        },
        Err(_) => {},
    }
}

proof fn lemma_bound_valid(p: &Bytecode, w: VmView, func: FunctionKey, recv: Option<Value>)
    requires
        good(p, w),
        recv matches Some(v) ==> valid_value(p, w, v),
    ensures
        sound(p, bound_func(p, w, func, recv)),
{
    lemma_func_valid(p, w, func, recv);
    match gos_from_func(p, w, func, recv) {
        Ok((x, cls)) => {
            let (y, v) = new_closure(x, cls);
            if fits(y) {
                lemma_added_grows(x, y);
                lemma_fits_before(x, y);
                lemma_good_closure(p, x, cls);
            }
        },
        Err(_) => {},
    }
}

/// A receiver that was made to fit is valid.
proof fn lemma_receiver_valid(p: &Bytecode, w: VmView, receiver: Value, b1: bool)
    requires
        good(p, w),
        valid_value(p, w, receiver),
    ensures
        sound(p, spec_cast_receiver(p, w, receiver, b1)),
        spec_cast_receiver(p, w, receiver, b1) matches Ok((x, _)) ==> grows(w, x),
{
    lemma_grows_self(w);
    lemma_good_upval(p, w, UpValueState::Closed(receiver));
    lemma_deref_valid(p, w, receiver);
}

/// A method that was bound is valid.
proof fn lemma_bind_valid(p: &Bytecode, w: VmView, iface: InterfaceObj, index: usize)
    requires
        good(p, w),
    ensures
        sound(p, bind_method(p, w, iface, index)),
{
    match bind_method(p, w, iface, index) {
        Ok((z, m)) => match iface {
            InterfaceObj::Gos { under, binding: Some(b) } => {
                lemma_good_parts(p, w);
                let v = w.cells[under as int];
                match p.ifaces@[b as int].methods@[index as int] {
                    Binding4Runtime::Struct { func, ptr_recv, indices } => {
                        lemma_through_valid(p, w, v, indices);
                        let obj = through(p, w, v, indices)->Ok_0;
                        let (x, val) = copy_semantic(w, obj)->Ok_0;
                        let (y, recv) = spec_cast_receiver(p, x, val, ptr_recv)->Ok_0;
                        if fits(z) {
                            lemma_bound_grows(p, y, func, Some(recv));
                            lemma_fits_before(y, z);
                            lemma_added_grows(x, y);
                            lemma_fits_before(x, y);
                            lemma_copy_valid(p, w, obj);
                            lemma_receiver_valid(p, x, val, ptr_recv);
                            lemma_bound_valid(p, y, func, Some(recv));
                        }
                    },
                    Binding4Runtime::Iface { .. } => {},
                }
            },
            InterfaceObj::Ffi { ffi, meta } => {
                if fits(z) {
                    lemma_good_closure(p, w, z.closures.last());
                    assert(z.closures == w.closures.push(z.closures.last()));
                }
            },
            _ => {},
        },
        Err(_) => {},
    }
}

proof fn lemma_through_valid(
    p: &Bytecode,
    w: VmView,
    v: Value,
    path: Option<Vec<OpIndex>>,
)
    requires
        good(p, w),
        valid_value(p, w, v),
    ensures
        through(p, w, v, path) matches Ok(x) ==> valid_value(p, w, x),
{
    match path {
        Some(inds) => {
            lemma_embeded_valid(p, w, v, inds@);
        },
        None => {},
    }
}

/// A new string is valid.
pub proof fn lemma_new_str_valid(p: &Bytecode, w: VmView, b: Seq<u8>)
    requires
        good(p, w),
    ensures
        sound(p, Ok(new_str(w, b))),
        grows(w, new_str(w, b).0),
{
    lemma_good_more_cells(p, w, byte_values(b));
}

/// New elements and the slice of them are valid.
pub proof fn lemma_slice_data_valid(p: &Bytecode, w: VmView, vals: Seq<Value>)
    requires
        good(p, w),
        valid_all(p, w, vals),
    ensures
        sound(p, Ok(slice_with_data(w, vals))),
        grows(w, slice_with_data(w, vals).0),
{
    lemma_good_more_cells(p, w, vals);
}

/// A value in a box of its own is valid.
pub proof fn lemma_boxed_valid(p: &Bytecode, w: VmView, v: Value, binding: Option<usize>)
    requires
        good(p, w),
        valid_value(p, w, v),
        binding matches Some(b) ==> b < p.ifaces@.len(),
    ensures
        sound(p, Ok(boxed(w, v, binding))),
        grows(w, boxed(w, v, binding).0),
{
    lemma_good_more_cells(p, w, seq![v]);
    assert(w.cells.push(v) =~= w.cells + seq![v]);
}

proof fn lemma_to_interface_valid(p: &Bytecode, w: VmView, v: Value, binding: OpIndex)
    requires
        good(p, w),
        valid_value(p, w, v),
    ensures
        sound(p, to_interface(p, w, v, binding)),
{
    lemma_copy_valid(p, w, v);
    match to_interface(p, w, v, binding) {
        Ok((y, _)) => {
            let (x, val) = copy_semantic(w, v)->Ok_0;
            if fits(y) {
                lemma_added_grows(x, y);
                lemma_fits_before(x, y);
                lemma_boxed_valid(p, x, val, Some(binding as usize));
            }
        },
        Err(_) => {},
    }
}

/// The string of a character is good.
pub proof fn lemma_char_text_valid(p: &Bytecode, w: VmView, v: Value)
    requires
        good(p, w),
    ensures
        sound(p, char_text(w, v)),
{
    match v {
        Value::Int(IntKind::Uint32, n) => match scalar(n as int) {
            Ok(u) => {
                lemma_new_str_valid(p, w, encode_scalar(u));
            },
            Err(_) => {},
        },
        _ => {},
    }
}

proof fn lemma_text_valid(p: &Bytecode, w: VmView, from: ValueType, elem: ValueType, v: Value)
    requires
        good(p, w),
        valid_value(p, w, v),
    ensures
        sound(p, to_string(w, from, elem, v)),
        sound(p, to_slice(w, elem, v)),
{
    lemma_new_str_valid(p, w, seq![]);
    match v {
        Value::Slice(s) => match slice_seq(w.cells, s) {
            Ok(vals) => match runes_bytes(vals, 0, seq![]) {
                Ok(b) => {
                    lemma_new_str_valid(p, w, b);
                },
                Err(_) => {},
            },
            Err(_) => {},
        },
        Value::Str(s) => match str_bytes(w.cells, s) {
            Ok(b) => match str_runes(b) {
                Ok(vals) => {
                    lemma_runes_valid(p, w, decode_utf8(b));
                    lemma_slice_data_valid(p, w, vals);
                },
                Err(_) => {},
            },
            Err(_) => {},
        },
        _ => {},
    }
    match word_cast(from, ValueType::Uint32, v) {
        Some(Calc::Done(x)) => {
            lemma_char_text_valid(p, w, x);
        },
        _ => {},
    }
}

proof fn lemma_runes_valid(p: &Bytecode, w: VmView, s: Seq<char>)
    ensures
        valid_all(p, w, rune_values(s)),
{
    let vals = rune_values(s);
    assert forall|i: int| 0 <= i < vals.len() implies valid_value(p, w, #[trigger] vals[i]) by {
        lemma_rune_valid(p, w, s[i]);
    }
}

proof fn lemma_rune_valid(p: &Bytecode, w: VmView, c: char)
    ensures
        valid_value(p, w, rune_of(c as int)),
{
}

proof fn lemma_pointer_valid(p: &Bytecode, w: VmView, from: ValueType, elem: ValueType, v: Value)
    requires
        valid_value(p, w, v),
    ensures
        to_pointer(p, w, from, elem, v) matches Ok(x) ==> valid_value(p, w, x),
        to_unsafe_ptr(from, v) matches Ok(x) ==> valid_value(p, w, x),
{
}

proof fn lemma_convert_valid(p: &Bytecode, w: VmView, c: Ctx, inst: Instruction)
    requires
        good(p, w),
    ensures
        sound_outcome(p, cast(p, w, c, inst)),
{
    lemma_read_valid(p, w, c, inst.s0);
    match w.read(c, p.consts@, inst.s0) {
        Ok(v) => {
            lemma_put_valid(p, w, c, inst.d, Ok(Value::Int(IntKind::UintPtr, 0)));
            law_integers_stay_in_range(Opcode::ADD, true, inst.t0, inst.t1, v, v);
            match word_cast(inst.t1, inst.t0, v) {
                Some(Calc::Done(x)) => {
                    match result_place(c, inst.d) {
                        Ok(pl) => {
                            assert(valid_value(p, w, x));
                            lemma_store_valid(p, w, pl, x);
                        },
                        Err(_) => {},
                    }
                },
                _ => {},
            }
            match inst.t0 {
                ValueType::Interface => {
                    lemma_to_interface_valid(p, w, v, inst.s1);
                    lemma_put_new_valid(p, c, inst.d, to_interface(p, w, v, inst.s1));
                },
                ValueType::String => {
                    lemma_text_valid(p, w, inst.t1, inst.op1_t, v);
                    lemma_put_new_valid(p, c, inst.d, to_string(w, inst.t1, inst.op1_t, v));
                },
                ValueType::Slice => {
                    lemma_text_valid(p, w, inst.t1, inst.op1_t, v);
                    lemma_put_new_valid(p, c, inst.d, to_slice(w, inst.op1_t, v));
                },
                ValueType::Pointer => {
                    lemma_pointer_valid(p, w, inst.t1, inst.op1_t, v);
                    lemma_put_valid(p, w, c, inst.d, to_pointer(p, w, inst.t1, inst.op1_t, v));
                },
                ValueType::UnsafePtr => {
                    lemma_pointer_valid(p, w, inst.t1, inst.op1_t, v);
                    lemma_put_valid(p, w, c, inst.d, to_unsafe_ptr(inst.t1, v));
                },
                _ => {},
            }
        },
        Err(_) => {},
    }
}

proof fn lemma_type_assert_valid(
    p: &Bytecode,
    w: VmView,
    c: Ctx,
    inst: Instruction,
    next: Option<Instruction>,
)
    requires
        good(p, w),
    ensures
        sound_outcome(p, op_type_assert(p, w, c, inst, next)),
{
    match op_type_assert(p, w, c, inst, next) {
        Ok((z, _)) => {
            let v = w.read(c, p.consts@, inst.s0)->Ok_0;
            let want = spec_const(p.consts@, inst.s1)->Ok_0;
            let (x, (val, ok)) = spec_type_assert(p, w, v, want)->Ok_0;
            let y = x.write(c, inst.d, val)->Ok_0;
            if fits(z) {
                lemma_write_grows(x, c, inst.d, val);
                if inst.t1 == ValueType::FlagB {
                    lemma_write_grows(y, c, next->Some_0.d, Value::Bool(ok));
                    lemma_fits_before(y, z);
                }
                lemma_fits_before(x, y);
                lemma_good_parts(p, w);
                match as_non_nil_interface(v) {
                    Ok(InterfaceObj::Gos { under, .. }) => {
                        lemma_copy_valid(p, w, w.cell(under as int)->Ok_0);
                        lemma_zero_valid(p, w, as_metadata(want)->Ok_0);
                    },
                    _ => {},
                }
                lemma_write_valid(p, x, c, inst.d, val);
                if inst.t1 == ValueType::FlagB {
                    lemma_write_valid(p, y, c, next->Some_0.d, Value::Bool(ok));
                }
            }
        },
        Err(_) => {},
    }
}

proof fn lemma_op_type_valid(p: &Bytecode, w: VmView, c: Ctx, inst: Instruction)
    requires
        good(p, w),
    ensures
        sound_outcome(p, op_type(p, w, c, inst)),
{
    match op_type(p, w, c, inst) {
        Ok((z, _)) => {
            let v = w.read(c, p.consts@, inst.s0)->Ok_0;
            let (under, m) = dynamic_type(p, v)->Ok_0;
            lemma_put_valid(p, w, c, inst.d, Ok(Value::Metadata(m)));
            if inst.t0 == ValueType::FlagA {
                let (x, val) = match under {
                    Some(a) => copy_semantic(w, w.cell(a as int)->Ok_0)->Ok_0,
                    None => (w, v),
                };
                let y = x.write(c, inst.d, Value::Metadata(m))->Ok_0;
                if fits(z) {
                    lemma_write_grows(x, c, inst.d, Value::Metadata(m));
                    lemma_write_grows(y, c, inst.s1, val);
                    lemma_fits_before(y, z);
                    lemma_fits_before(x, y);
                    lemma_good_parts(p, w);
                    lemma_read_valid(p, w, c, inst.s0);
                    if under is Some {
                        lemma_copy_valid(p, w, w.cell(under->Some_0 as int)->Ok_0);
                    }
                    lemma_write_valid(p, x, c, inst.d, Value::Metadata(m));
                    lemma_value_stays(p, x, y, val);
                    lemma_write_valid(p, y, c, inst.s1, val);
                }
            }
        },
        Err(_) => {},
    }
}

proof fn lemma_init_func_valid(p: &Bytecode, w: VmView, c: Ctx, inst: Instruction)
    requires
        good(p, w),
    ensures
        sound_outcome(p, load_init_func(p, w, c, inst)),
{
    match load_init_func(p, w, c, inst) {
        Ok((z, Effect::Next(n))) => {
            if n == 0 {
                let k = as_package(w.read(c, p.consts@, inst.s0)->Ok_0)->Ok_0;
                let i = int_in(w.read(c, p.consts@, inst.s1)->Ok_0, IntKind::Int32)->Some_0;
                let pkg = p.packages@[k as int];
                let f = pkg.init_funcs@[i as int];
                let y = w.write(c, inst.d, f)->Ok_0;
                lemma_good_parts(p, w);
                assert(valid_package(p, w, pkg));
                lemma_write_valid(p, w, c, inst.d, f);
                lemma_write_valid(p, y, c, inst.s1, Value::Int(IntKind::Int32, (i + 1) as i128));
            }
        },
        _ => {},
    }
}

proof fn lemma_pack_valid(p: &Bytecode, w: VmView, c: Ctx, inst: Instruction)
    requires
        good(p, w),
    ensures
        sound_outcome(p, pack_variadic(w, c, inst)),
{
    match pack_variadic(w, c, inst) {
        Ok((z, _)) => {
            let b = offset(c.sb, inst.s0)->Ok_0;
            let e = offset(c.sb, inst.s1)->Ok_0;
            let (x, vals) = w.taken(c.stack, b, e)->Ok_0;
            let (y, v) = slice_with_data(x, vals);
            if fits(z) {
                lemma_write_grows(y, c, inst.d, v);
                lemma_fits_before(y, z);
                lemma_taken_valid(p, w, c.stack, b, e);
                lemma_slice_data_valid(p, x, vals);
                lemma_write_valid(p, y, c, inst.d, v);
            }
        },
        Err(_) => {},
    }
}

pub proof fn lemma_type_valid(
    p: &Bytecode,
    w: VmView,
    c: Ctx,
    inst: Instruction,
    next: Option<Instruction>,
)
    requires
        good(p, w),
    ensures
        sound_outcome(p, type_inst(p, w, c, inst, next)),
{
    match inst.op0 {
        Opcode::PACK_VARIADIC => {
            lemma_pack_valid(p, w, c, inst);
        },
        Opcode::LOAD_INIT_FUNC => {
            lemma_init_func_valid(p, w, c, inst);
        },
        Opcode::BIND_METHOD => {
            lemma_read_valid(p, w, c, inst.s0);
            match pair(w.read(c, p.consts@, inst.s0), w.read(c, p.consts@, inst.s1)) {
                Ok((v, Value::Function(f))) => {
                    lemma_copy_valid(p, w, v);
                    match copy_semantic(w, v) {
                        Ok((x, recv)) => {
                            match bound_func(p, x, f, Some(recv)) {
                                Ok((y, _)) => {
                                    if fits(y) {
                                        lemma_bound_grows(p, x, f, Some(recv));
                                        lemma_fits_before(x, y);
                                        lemma_bound_valid(p, x, f, Some(recv));
                                    }
                                },
                                Err(_) => {},
                            }
                            lemma_put_new_valid(p, c, inst.d, bound_func(p, x, f, Some(recv)));
                        },
                        Err(_) => {},
                    }
                },
                _ => {},
            }
        },
        Opcode::BIND_I_METHOD => {
            match w.read(c, p.consts@, inst.s0) {
                Ok(v) => match as_non_nil_interface(v) {
                    Ok(iface) => {
                        let r = spec_bind_iface_method(p, w, iface, inst.s1 as usize);
                        let (inner, i) = innermost_method(p, w, iface, inst.s1 as usize);
                        lemma_bind_valid(p, w, inner, i);
                        lemma_put_new_valid(p, c, inst.d, r);
                    },
                    Err(_) => {},
                },
                Err(_) => {},
            }
        },
        Opcode::CAST => {
            lemma_convert_valid(p, w, c, inst);
        },
        Opcode::TYPE_ASSERT => {
            lemma_type_assert_valid(p, w, c, inst, next);
        },
        Opcode::TYPE => {
            lemma_op_type_valid(p, w, c, inst);
        },
        _ => {},
    }
}

} // verus!

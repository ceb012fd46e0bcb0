//! What is made, sliced and appended is valid.
use vstd::prelude::*;
use crate::bytecode::{Bytecode, Instruction, MetadataType, Opcode};
use crate::content::{copy_all, depth, lemma_copy_rest_shape};
use crate::dict::{find, lemma_find_no_panic, map_delete, map_insert, with_new_map};
use crate::embed::as_metadata;
use crate::laws_growth::{
    grows, lemma_added_grows, lemma_copy_all_grows, lemma_literal_map_grows,
    lemma_literal_struct_grows, lemma_sized_grows, lemma_write_grows,
};
use crate::laws_valid::{
    fits, good, lemma_all_stay, lemma_cell_valid, lemma_copy_all_valid, lemma_fits_before,
    lemma_good_cells, lemma_good_chan, lemma_good_map, lemma_good_more_cells, lemma_good_new_map,
    lemma_good_parts, lemma_good_upval, lemma_read_valid, lemma_store_valid, lemma_value_stays,
    lemma_write_valid, lemma_zero_valid, sound, valid_all, valid_entries, valid_value,
};
use crate::laws_valid_inst::{lemma_put_new_valid, lemma_put_valid, sound_outcome};
use crate::laws_valid_type::lemma_slice_data_valid;
use crate::machine::{
    offset, overlay, region_cell, spec_const, ChannelObj, Ctx, UpValueState, VmView,
};
use crate::meta::{meta_depth, unwrap_named, zero_value};
use crate::num::{int_in, lemma_wrap_in_range};
use crate::ops_make::{
    as_int, chan_size, complex_of, complex_part, count_value, literal_elements, literal_list,
    literal_map, literal_position, literal_struct, literal_value, make_inst, op_make, op_new,
    part_of, placed, slice_size, slot_at, with_new_chan,
};
use crate::ops_place::pair;
use crate::place::Place;
use crate::slices::{
    append_values, capacity, elements, grown, length, repeated, slice_append, slice_copy_from,
    slice_with_size,
};
use crate::value::{void, IntKind, Meta, PointerObj, Region, Value, ValueType};

verus! {

/// A length is an integer in the range of its type.
proof fn lemma_count_valid(p: &Bytecode, w: VmView, n: int)
    ensures
        valid_value(p, w, count_value(n)),
{
    lemma_wrap_in_range(IntKind::Int, n);
}

/// A part of a valid value is valid.
proof fn lemma_part_valid(
    p: &Bytecode,
    w: VmView,
    t: ValueType,
    v: Value,
    begin: int,
    end: int,
    max: int,
)
    requires
        valid_value(p, w, v),
    ensures
        part_of(t, v, begin, end, max) matches Ok(x) ==> valid_value(p, w, x),
{
}

proof fn lemma_slot_at_valid(p: &Bytecode, w: VmView, stack: usize, k: int)
    requires
        good(p, w),
    ensures
        slot_at(w, stack, k) matches Ok(v) ==> valid_value(p, w, v),
{
    lemma_good_parts(p, w);
    if stack < w.stacks.len() {
        assert(valid_all(p, w, w.stacks[stack as int]));
    }
}

proof fn lemma_literal_list_valid(
    p: &Bytecode,
    w: VmView,
    stack: usize,
    begin: int,
    count: int,
    z: Value,
    i: int,
    before: int,
    vals: Seq<Value>,
)
    requires
        good(p, w),
        valid_value(p, w, z),
        valid_all(p, w, vals),
        before >= -1,
    ensures
        literal_list(w, stack, begin, count, z, i, before, vals) matches Ok(out) ==> valid_all(
            p,
            w,
            out,
        ),
    decreases count - i,
{
    if i < count {
        lemma_slot_at_valid(p, w, stack, begin + 1 + 2 * i);
        match pair(slot_at(w, stack, begin + 2 * i), slot_at(w, stack, begin + 1 + 2 * i)) {
            Ok((x, elem)) => match int_in(x, IntKind::Int32) {
                Some(given) => {
                    let k = literal_position(given as int, before);
                    let more = placed(vals, k, elem, z);
                    assert(valid_all(p, w, more));
                    lemma_literal_list_valid(p, w, stack, begin, count, z, i + 1, k, more);
                },
                None => {},
            },
            Err(_) => {},
        }
    }
}

proof fn lemma_literal_map_valid(
    p: &Bytecode,
    w: VmView,
    m: usize,
    stack: usize,
    begin: int,
    count: int,
    i: int,
)
    requires
        good(p, w),
    ensures
        literal_map(p, w, m, stack, begin, count, i) matches Ok(x) ==> good(p, x),
    decreases count - i,
{
    if i < count {
        lemma_slot_at_valid(p, w, stack, begin + 2 * i);
        lemma_slot_at_valid(p, w, stack, begin + 1 + 2 * i);
        match pair(slot_at(w, stack, begin + 2 * i), slot_at(w, stack, begin + 1 + 2 * i)) {
            Ok((k, v)) => {
                lemma_store_valid(p, w, Place::Entry(m, k), v);
                match map_insert(p, w, m, k, v) {
                    Ok(x) => {
                        lemma_literal_map_valid(p, x, m, stack, begin, count, i + 1);
                    },
                    Err(_) => {},
                }
            },
            Err(_) => {},
        }
    }
}

proof fn lemma_literal_struct_valid(
    p: &Bytecode,
    w: VmView,
    r: Region,
    stack: usize,
    begin: int,
    count: int,
    i: int,
)
    requires
        good(p, w),
    ensures
        literal_struct(w, r, stack, begin, count, i) matches Ok(x) ==> good(p, x),
    decreases count - i,
{
    if i < count {
        lemma_slot_at_valid(p, w, stack, begin + 1 + 2 * i);
        match pair(slot_at(w, stack, begin + 2 * i), slot_at(w, stack, begin + 1 + 2 * i)) {
            Ok((n, v)) => match int_in(n, IntKind::Uint) {
                Some(k) => match region_cell(r, k as int) {
                    Ok(a) => {
                        lemma_cell_valid(p, w, a as int, v);
                        match w.with_cell(a as int, v) {
                            Ok(x) => {
                                lemma_literal_struct_valid(p, x, r, stack, begin, count, i + 1);
                            },
                            Err(_) => {},
                        }
                    },
                    Err(_) => {},
                },
                None => {},
            },
            Err(_) => {},
        }
    }
}

/// A composite value that was written out is valid.
proof fn lemma_literal_valid(
    p: &Bytecode,
    w: VmView,
    md: Meta,
    stack: usize,
    begin: int,
    count: int,
)
    requires
        good(p, w),
    ensures
        sound(p, literal_value(p, w, md, stack, begin, count)),
{
    match literal_value(p, w, md, stack, begin, count) {
        Ok((y, v)) => {
            if fits(y) {
                match p.metas@[md.key as int] {
                    MetadataType::Slice(m) | MetadataType::Array(m, _) => {
                        let (x, z) = zero_value(p, w, m)->Ok_0;
                        let vals = literal_elements(p, w, m, stack, begin, count)->Ok_0.1;
                        lemma_added_grows(x, y);
                        lemma_fits_before(x, y);
                        lemma_zero_valid(p, w, m);
                        lemma_literal_list_valid(p, x, stack, begin, count, z, 0, -1, seq![]);
                        lemma_good_more_cells(p, x, vals);
                    },
                    MetadataType::GoMap(_, _) => {
                        let x = with_new_map(w);
                        let m = w.maps.len() as usize;
                        lemma_literal_map_grows(p, x, m, stack, begin, count, 0);
                        lemma_fits_before(x, y);
                        lemma_good_new_map(p, w);
                        lemma_value_stays(p, x, y, Value::GoMap(m));
                        lemma_literal_map_valid(p, x, m, stack, begin, count, 0);
                    },
                    MetadataType::Struct(_) => {
                        let (x, z) = zero_value(p, w, md)->Ok_0;
                        match z {
                            Value::Struct(r) => {
                                lemma_literal_struct_grows(x, r, stack, begin, count, 0);
                                lemma_fits_before(x, y);
                                lemma_zero_valid(p, w, md);
                                lemma_value_stays(p, x, y, z);
                                lemma_literal_struct_valid(p, x, r, stack, begin, count, 0);
                            },
                            _ => {},
                        }
                    },
                    _ => {},
                }
            }
        },
        Err(_) => {},
    }
}

proof fn lemma_sized_valid(p: &Bytecode, w: VmView, len: usize, cap: usize, z: Value)
    requires
        good(p, w),
        valid_value(p, w, z),
    ensures
        sound(p, slice_with_size(w, len, cap, z)),
{
    match slice_with_size(w, len, cap, z) {
        Ok((y, _)) => {
            if fits(y) {
                let src = repeated(z, cap as nat);
                let (x, vals) = copy_all(w, src)->Ok_0;
                lemma_added_grows(x, y);
                lemma_fits_before(x, y);
                lemma_copy_all_valid(p, w, src);
                lemma_copy_rest_shape(
                    w.cells,
                    src,
                    0,
                    seq![],
                    depth(w.cells),
                );
                lemma_good_more_cells(p, x, vals);
            }
        },
        Err(_) => {},
    }
}

/// Valid values can be put over cells.
proof fn lemma_overlay_valid(p: &Bytecode, w: VmView, begin: int, vals: Seq<Value>)
    requires
        good(p, w),
        valid_all(p, w, vals),
        0 <= begin,
    ensures
        good(p, w.with_cells(overlay(w.cells, begin, vals))),
        grows(w, w.with_cells(overlay(w.cells, begin, vals))),
{
    let cells = overlay(w.cells, begin, vals);
    let x = w.with_cells(cells);
    lemma_added_grows(w, x);
    lemma_good_parts(p, w);
    lemma_all_stay(p, w, x, w.cells);
    lemma_all_stay(p, w, x, vals);
    lemma_good_cells(p, w, cells);
}

proof fn lemma_append_values_valid(p: &Bytecode, w: VmView, a: Value, vals: Seq<Value>)
    requires
        good(p, w),
        valid_value(p, w, a),
        valid_all(p, w, vals),
    ensures
        sound(p, append_values(w, a, vals)),
{
    match append_values(w, a, vals) {
        Ok((y, v)) => {
            if fits(y) {
                match a {
                    Value::Slice(s) => {
                        let need = s.end - s.begin + vals.len();
                        if need <= s.cap_end - s.begin {
                            lemma_overlay_valid(p, w, s.array.base + s.end, vals);
                        } else {
                            lemma_good_parts(p, w);
                            let before = w.cells.subrange(
                                s.array.base + s.begin,
                                s.array.base + s.end,
                            );
                            let room = grown(s.cap_end - s.begin, need);
                            let all = before + vals + repeated(void(), (room - need) as nat);
                            lemma_good_more_cells(p, w, all);
                        }
                    },
                    _ => {
                        lemma_slice_data_valid(p, w, vals);
                    },
                }
            }
        },
        Err(_) => {},
    }
}

proof fn lemma_elements_valid(p: &Bytecode, w: VmView, text: bool, v: Value)
    requires
        good(p, w),
    ensures
        elements(w, text, v) matches Ok(s) ==> valid_all(p, w, s),
{
    lemma_good_parts(p, w);
}

/// What was appended or copied is valid.
proof fn lemma_append_valid(p: &Bytecode, w: VmView, text: bool, a: Value, b: Value)
    requires
        good(p, w),
        valid_value(p, w, a),
    ensures
        sound(p, slice_append(w, text, a, b)),
        slice_copy_from(w, text, a, b) matches Ok((x, _)) ==> fits(x) ==> good(p, x),
{
    lemma_elements_valid(p, w, text, b);
    match slice_append(w, text, a, b) {
        Ok((y, _)) => {
            let src = elements(w, text, b)->Ok_0;
            let (x, vals) = copy_all(w, src)->Ok_0;
            if fits(y) {
                lemma_copy_all_grows(w, src);
                lemma_added_grows(x, y);
                lemma_fits_before(x, y);
                lemma_copy_all_valid(p, w, src);
                lemma_value_stays(p, w, x, a);
                lemma_append_values_valid(p, x, a, vals);
            }
        },
        Err(_) => {},
    }
    match slice_copy_from(w, text, a, b) {
        Ok((y, n)) => {
            let src = elements(w, text, b)->Ok_0.subrange(0, n);
            let (x, vals) = copy_all(w, src)->Ok_0;
            if fits(y) {
                lemma_added_grows(x, y);
                lemma_fits_before(x, y);
                lemma_copy_all_valid(p, w, src);
                match a {
                    Value::Slice(s) => {
                        lemma_overlay_valid(p, x, s.array.base + s.begin, vals);
                    },
                    _ => {},
                }
            }
        },
        Err(_) => {},
    }
}

proof fn lemma_op_make_valid(
    p: &Bytecode,
    w: VmView,
    c: Ctx,
    inst: Instruction,
    next: Option<Instruction>,
    async_enabled: bool,
)
    requires
        good(p, w),
    ensures
        sound_outcome(p, op_make(p, w, c, inst, next, async_enabled)),
{
    match op_make(p, w, c, inst, next, async_enabled) {
        Ok((y, _)) => {
            if fits(y) {
                let md = as_metadata(w.read(c, p.consts@, inst.s0)->Ok_0)->Ok_0;
                let key = unwrap_named(p, md.key, meta_depth(p))->Ok_0;
                match p.metas@[key as int] {
                    MetadataType::Slice(m) => {
                        let (len, cap, _) = slice_size(p, w, c, inst, next)->Ok_0;
                        let (x, z) = zero_value(p, w, m)->Ok_0;
                        let (x1, v) = slice_with_size(x, len, cap, z)->Ok_0;
                        lemma_write_grows(x1, c, inst.d, v);
                        lemma_fits_before(x1, y);
                        lemma_sized_grows(x, len, cap, z);
                        lemma_fits_before(x, x1);
                        lemma_zero_valid(p, w, m);
                        lemma_sized_valid(p, x, len, cap, z);
                        lemma_write_valid(p, x1, c, inst.d, v);
                    },
                    MetadataType::GoMap(_, _) => {
                        let v = Value::GoMap(w.maps.len() as usize);
                        lemma_good_new_map(p, w);
                        lemma_put_new_valid(p, c, inst.d, Ok((with_new_map(w), v)));
                    },
                    MetadataType::Channel(_, m) => {
                        if !async_enabled {
                            lemma_write_valid(p, w, c, inst.d, void());
                        } else {
                            let cap = chan_size(p, w, c, inst)->Ok_0;
                            let (x, z) = zero_value(p, w, m)->Ok_0;
                            let x1 = with_new_chan(x, cap, z);
                            let v = Value::Channel(x.chans.len() as usize);
                            lemma_added_grows(x, x1);
                            lemma_write_grows(x1, c, inst.d, v);
                            lemma_fits_before(x1, y);
                            lemma_fits_before(x, x1);
                            lemma_zero_valid(p, w, m);
                            lemma_good_chan(p, x, ChannelObj { cap, recv_zero: z });
                            lemma_put_new_valid(p, c, inst.d, Ok((x1, v)));
                        }
                    },
                    _ => {},
                }
            }
        },
        Err(_) => {},
    }
}

proof fn lemma_new_valid(p: &Bytecode, w: VmView, c: Ctx, inst: Instruction)
    requires
        good(p, w),
    ensures
        sound_outcome(p, op_new(p, w, c, inst)),
{
    match op_new(p, w, c, inst) {
        Ok((y, _)) => {
            let m = as_metadata(w.read(c, p.consts@, inst.s0)->Ok_0)->Ok_0
                .spec_into_value_category();
            let (x, z) = zero_value(p, w, m)->Ok_0;
            let x1 = x.with_new_upval(UpValueState::Closed(z));
            let ptr = Value::Pointer(PointerObj::UpVal(x.upvals.len() as usize));
            if fits(y) {
                lemma_added_grows(x, x1);
                lemma_write_grows(x1, c, inst.d, ptr);
                lemma_fits_before(x1, y);
                lemma_fits_before(x, x1);
                lemma_zero_valid(p, w, m);
                lemma_good_upval(p, x, UpValueState::Closed(z));
                lemma_put_new_valid(p, c, inst.d, Ok((x1, ptr)));
            }
        },
        Err(_) => {},
    }
}

proof fn lemma_delete_valid(p: &Bytecode, w: VmView, m: usize, key: Value)
    requires
        good(p, w),
    ensures
        map_delete(p, w, m, key) matches Ok(x) ==> good(p, x),
{
    lemma_good_parts(p, w);
    if m < w.maps.len() {
        let e = w.maps[m as int];
        assert(valid_entries(p, w, e));
        lemma_find_no_panic(p, w, e, key, 0);
        match find(p, w, e, key, 0) {
            Ok(Some(i)) => {
                lemma_good_map(p, w, m, e.remove(i as int));
            },
            _ => {},
        }
    }
}

pub proof fn lemma_make_valid(
    p: &Bytecode,
    w: VmView,
    c: Ctx,
    inst: Instruction,
    next: Option<Instruction>,
    async_enabled: bool,
)
    requires
        good(p, w),
    ensures
        sound_outcome(p, make_inst(p, w, c, inst, next, async_enabled)),
{
    lemma_read_valid(p, w, c, inst.s0);
    lemma_read_valid(p, w, c, inst.s1);
    let s0 = w.read(c, p.consts@, inst.s0);
    let s1 = w.read(c, p.consts@, inst.s1);
    match make_inst(p, w, c, inst, next, async_enabled) {
        Ok((y, _)) => match inst.op0 {
            Opcode::SLICE => {
                let ex = next->Some_0;
                let b = as_int(s1)->Ok_0 as int;
                let e = as_int(w.read(c, p.consts@, ex.s0))->Ok_0 as int;
                let m = as_int(w.read(c, p.consts@, ex.s1))->Ok_0 as int;
                lemma_part_valid(p, w, inst.t0, s0->Ok_0, b, e, m);
                lemma_put_valid(p, w, c, inst.d, part_of(inst.t0, s0->Ok_0, b, e, m));
            },
            Opcode::LITERAL => {
                let ex = next->Some_0;
                let md = as_metadata(spec_const(p.consts@, ex.s0)->Ok_0)->Ok_0;
                let begin = offset(c.sb, inst.s0)->Ok_0 as int;
                lemma_literal_valid(p, w, md, c.stack, begin, inst.s1 as int);
                lemma_put_new_valid(
                    p,
                    c,
                    inst.d,
                    literal_value(p, w, md, c.stack, begin, inst.s1 as int),
                );
            },
            Opcode::NEW => {
                lemma_new_valid(p, w, c, inst);
            },
            Opcode::MAKE => {
                lemma_op_make_valid(p, w, c, inst, next, async_enabled);
            },
            Opcode::COMPLEX => {
                lemma_put_valid(p, w, c, inst.d, complex_of(inst.t0, s0->Ok_0, s1->Ok_0));
            },
            Opcode::REAL | Opcode::IMAG => {
                lemma_put_valid(
                    p,
                    w,
                    c,
                    inst.d,
                    complex_part(inst.op0 == Opcode::REAL, inst.t0, s0->Ok_0),
                );
            },
            Opcode::LEN => {
                let n = length(w, s0->Ok_0)->Ok_0;
                lemma_count_valid(p, w, n);
                lemma_put_valid(p, w, c, inst.d, Ok(count_value(n)));
            },
            Opcode::CAP => {
                let n = capacity(w, s0->Ok_0)->Ok_0;
                lemma_count_valid(p, w, n);
                lemma_put_valid(p, w, c, inst.d, Ok(count_value(n)));
            },
            Opcode::APPEND => {
                let text = inst.t0 == ValueType::String;
                lemma_append_valid(p, w, text, s0->Ok_0, s1->Ok_0);
                let (x, v) = slice_append(w, text, s0->Ok_0, s1->Ok_0)->Ok_0;
                lemma_put_new_valid(p, c, inst.d, Ok((x, v)));
            },
            Opcode::COPY => {
                let text = inst.t0 == ValueType::String;
                lemma_append_valid(p, w, text, s0->Ok_0, s1->Ok_0);
                let (x, n) = slice_copy_from(w, text, s0->Ok_0, s1->Ok_0)->Ok_0;
                lemma_count_valid(p, x, n);
                lemma_put_new_valid(p, c, inst.d, Ok((x, count_value(n))));
            },
            Opcode::DELETE => {
                match s0 {
                    Ok(Value::GoMap(m)) => {
                        lemma_delete_valid(p, w, m, s1->Ok_0);
                    },
                    _ => {},
                }
            },
            _ => {},
        },
        Err(_) => {},
    }
}

} // verus!

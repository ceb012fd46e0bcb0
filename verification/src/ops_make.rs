//! The instructions that make values and look into them.
use vstd::prelude::*;
use crate::bytecode::{Bytecode, Instruction, MetadataType, Opcode};
use crate::dict::{map_delete, map_insert, with_new_map};
use crate::effect::{
    done, get_result_place, put, put_new, result_place, Effect, Outcome, Pending, Query,
};
use crate::embed::{as_metadata, get_metadata};
use crate::machine::{
    agrees, cell_of, get_const, offset, add_offset, region_cell, spec_const, ChannelObj, Ctx,
    UpValueState, Vm, VmView,
};
use crate::meta::{meta_depth, mtype_unwraped, unwrap_named, zero_value};
use crate::num::{get_int, int_in, wrap, wrap_to};
use crate::ops_place::pair;
use crate::slices::{
    array_with_data, capacity, get_slice_array, get_slice_slice, get_slice_string, length, repeated,
    slice_append, slice_array, slice_copy_from, slice_slice, slice_string, slice_with_data,
    slice_with_size,
};
use crate::trap::{or_fault, RuntimeError, Trap};
use crate::value::{
    int_of, void, IntKind, Meta, MetadataKey, OpIndex, PointerObj, Region, Value, ValueType,
};

verus! {

/// The machine integer that a value is.
pub open spec fn as_int(v: Result<Value, Trap>) -> Result<i128, Trap> {
    match v {
        Ok(x) => or_fault(int_in(x, IntKind::Int)),
        Err(e) => Err(e),
    }
}

/// A machine integer that counts something.
pub open spec fn as_count(v: Result<Value, Trap>) -> Result<usize, Trap> {
    match as_int(v) {
        Ok(n) => if 0 <= n <= usize::MAX {
            Ok(n as usize)
        } else {
            Err(Trap::Fault)
        },
        Err(e) => Err(e),
    }
}

/// A count as a machine integer.
pub open spec fn count_value(n: int) -> Value {
    int_of(wrap(IntKind::Int, n))
}

fn get_as_int(v: Result<Value, Trap>) -> (r: Result<i128, Trap>)
    ensures
        r == as_int(v),
{
    match get_int(v?, IntKind::Int) {
        Some(n) => Ok(n),
        None => Err(Trap::Fault),
    }
}

fn get_as_count(v: Result<Value, Trap>) -> (r: Result<usize, Trap>)
    ensures
        r == as_count(v),
{
    let n: i128 = get_as_int(v)?;
    if 0 <= n && n <= usize::MAX as i128 {
        Ok(n as usize)
    } else {
        Err(Trap::Fault)
    }
}

fn get_count_value(n: usize) -> (r: Value)
    ensures
        r == count_value(n as int),
{
    Value::Int(IntKind::Int, wrap_to(IntKind::Int, n as i128))
}

/// A part of a slice, of a string or of an array.
pub open spec fn part_of(t: ValueType, v: Value, begin: int, end: int, max: int) -> Result<
    Value,
    Trap,
> {
    match t {
        ValueType::Slice => slice_slice(v, begin, end, max),
        ValueType::String => slice_string(v, begin, end, max),
        ValueType::Array => slice_array(v, begin, end),
        _ => Err(Trap::Fault),
    }
}

/// A part goes into the result slot.
pub open spec fn op_slice(
    p: &Bytecode,
    w: VmView,
    c: Ctx,
    inst: Instruction,
    ex: Instruction,
) -> Outcome {
    match pair(
        pair(w.read(c, p.consts@, inst.s0), as_int(w.read(c, p.consts@, inst.s1))),
        pair(as_int(w.read(c, p.consts@, ex.s0)), as_int(w.read(c, p.consts@, ex.s1))),
    ) {
        Ok(((v, b), (e, m))) => put(
            w,
            c,
            inst.d,
            part_of(inst.t0, v, b as int, e as int, m as int),
        ),
        Err(e) => Err(e),
    }
}

/// The slot at a position that was calculated.
pub open spec fn slot_at(w: VmView, stack: usize, k: int) -> Result<Value, Trap> {
    if i32::MIN <= k <= i32::MAX {
        w.slot(stack, k as i32)
    } else {
        Err(Trap::Fault)
    }
}

/// A list with an element at a position. Positions that were left out get the
/// zero value.
pub open spec fn placed(vals: Seq<Value>, k: int, elem: Value, zero: Value) -> Seq<Value> {
    if k < vals.len() {
        vals.update(k, elem)
    } else {
        (vals + repeated(zero, (k - vals.len()) as nat)).push(elem)
    }
}

/// The position of an element of a literal: the one that is given, or else the
/// one behind the element before.
pub open spec fn literal_position(given: int, before: int) -> int {
    if given < 0 {
        before + 1
    } else {
        given
    }
}

/// The elements of a literal from pair `i` on. The pairs lie on the stack from
/// `begin` on, each a position (or a negative number for none) and an element.
pub open spec fn literal_list(
    w: VmView,
    stack: usize,
    begin: int,
    count: int,
    zero: Value,
    i: int,
    before: int,
    vals: Seq<Value>,
) -> Result<Seq<Value>, Trap>
    decreases count - i,
{
    if i >= count {
        Ok(vals)
    } else {
        match pair(slot_at(w, stack, begin + 2 * i), slot_at(w, stack, begin + 1 + 2 * i)) {
            Ok((x, elem)) => match int_in(x, IntKind::Int32) {
                Some(given) => {
                    let k = literal_position(given as int, before);
                    if k > i32::MAX {
                        Err(Trap::Fault)
                    } else {
                        literal_list(
                            w,
                            stack,
                            begin,
                            count,
                            zero,
                            i + 1,
                            k,
                            placed(vals, k, elem, zero),
                        )
                    }
                },
                None => Err(Trap::Fault),
            },
            Err(e) => Err(e),
        }
    }
}

/// Map `m` with the pairs of a literal from pair `i` on, each a key and a value.
pub open spec fn literal_map(
    p: &Bytecode,
    w: VmView,
    m: usize,
    stack: usize,
    begin: int,
    count: int,
    i: int,
) -> Result<VmView, Trap>
    decreases count - i,
{
    if i >= count {
        Ok(w)
    } else {
        match pair(slot_at(w, stack, begin + 2 * i), slot_at(w, stack, begin + 1 + 2 * i)) {
            Ok((k, v)) => match map_insert(p, w, m, k, v) {
                Ok(w1) => literal_map(p, w1, m, stack, begin, count, i + 1),
                Err(e) => Err(e),
            },
            Err(e) => Err(e),
        }
    }
}

/// A struct with the pairs of a literal from pair `i` on, each the number of a
/// field and its value.
pub open spec fn literal_struct(
    w: VmView,
    r: Region,
    stack: usize,
    begin: int,
    count: int,
    i: int,
) -> Result<VmView, Trap>
    decreases count - i,
{
    if i >= count {
        Ok(w)
    } else {
        match pair(slot_at(w, stack, begin + 2 * i), slot_at(w, stack, begin + 1 + 2 * i)) {
            Ok((x, v)) => match int_in(x, IntKind::Uint) {
                Some(n) => match region_cell(r, n as int) {
                    Ok(a) => match w.with_cell(a as int, v) {
                        Ok(w1) => literal_struct(w1, r, stack, begin, count, i + 1),
                        Err(e) => Err(e),
                    },
                    Err(e) => Err(e),
                },
                None => Err(Trap::Fault),
            },
            Err(e) => Err(e),
        }
    }
}

/// The elements of a literal of element type `m`, with the zero value made first.
pub open spec fn literal_elements(
    p: &Bytecode,
    w: VmView,
    m: Meta,
    stack: usize,
    begin: int,
    count: int,
) -> Result<(VmView, Seq<Value>), Trap> {
    match zero_value(p, w, m) {
        Ok((w1, zero)) => match literal_list(w1, stack, begin, count, zero, 0, -1, seq![]) {
            Ok(vals) => Ok((w1, vals)),
            Err(e) => Err(e),
        },
        Err(e) => Err(e),
    }
}

/// The value of a literal.
pub open spec fn literal_value(
    p: &Bytecode,
    w: VmView,
    md: Meta,
    stack: usize,
    begin: int,
    count: int,
) -> Result<(VmView, Value), Trap> {
    if md.key >= p.metas@.len() {
        Err(Trap::Fault)
    } else {
        match p.metas@[md.key as int] {
            MetadataType::Slice(m) => match literal_elements(p, w, m, stack, begin, count) {
                Ok((w1, vals)) => Ok(slice_with_data(w1, vals)),
                Err(e) => Err(e),
            },
            MetadataType::Array(m, _) => match literal_elements(p, w, m, stack, begin, count) {
                Ok((w1, vals)) => Ok(array_with_data(w1, vals)),
                Err(e) => Err(e),
            },
            MetadataType::GoMap(_, _) => {
                let m = w.maps.len() as usize;
                match literal_map(p, with_new_map(w), m, stack, begin, count, 0) {
                    Ok(w1) => Ok((w1, Value::GoMap(m))),
                    Err(e) => Err(e),
                }
            },
            MetadataType::Struct(_) => match zero_value(p, w, md) {
                Ok((w1, Value::Struct(r))) => match literal_struct(
                    w1,
                    r,
                    stack,
                    begin,
                    count,
                    0,
                ) {
                    Ok(w2) => Ok((w2, Value::Struct(r))),
                    Err(e) => Err(e),
                },
                Ok(_) => Err(Trap::Fault),
                Err(e) => Err(e),
            },
            _ => Err(Trap::Fault),
        }
    }
}

/// A literal goes into the result slot.
pub open spec fn op_literal(
    p: &Bytecode,
    w: VmView,
    c: Ctx,
    inst: Instruction,
    ex: Instruction,
) -> Outcome {
    match pair(spec_const(p.consts@, ex.s0), offset(c.sb, inst.s0)) {
        Ok((v, begin)) => match as_metadata(v) {
            Ok(md) => put_new(
                c,
                inst.d,
                literal_value(p, w, md, c.stack, begin as int, inst.s1 as int),
            ),
            Err(e) => Err(e),
        },
        Err(e) => Err(e),
    }
}

/// A pointer to a new variable with the zero value of a type.
pub open spec fn op_new(p: &Bytecode, w: VmView, c: Ctx, inst: Instruction) -> Outcome {
    match w.read(c, p.consts@, inst.s0) {
        Ok(v) => match as_metadata(v) {
            Ok(md) => match zero_value(p, w, md.spec_into_value_category()) {
                Ok((w1, zero)) => put(
                    w1.with_new_upval(UpValueState::Closed(zero)),
                    c,
                    inst.d,
                    Ok(Value::Pointer(PointerObj::UpVal(w1.upvals.len() as usize))),
                ),
                Err(e) => Err(e),
            },
            Err(e) => Err(e),
        },
        Err(e) => Err(e),
    }
}

/// The length and the capacity of a slice that is to be made, and how many
/// words follow the instruction.
pub open spec fn slice_size(
    p: &Bytecode,
    w: VmView,
    c: Ctx,
    inst: Instruction,
    next: Option<Instruction>,
) -> Result<(usize, usize, OpIndex), Trap> {
    match inst.t0 {
        ValueType::FlagC => match next {
            Some(ex) => match pair(
                as_count(w.read(c, p.consts@, inst.s1)),
                as_count(w.read(c, p.consts@, ex.s0)),
            ) {
                Ok((cap, len)) => Ok((len, cap, 1)),
                Err(e) => Err(e),
            },
            None => Err(Trap::Fault),
        },
        ValueType::FlagB => match as_count(w.read(c, p.consts@, inst.s1)) {
            Ok(len) => Ok((len, len, 0)),
            Err(e) => Err(e),
        },
        _ => Err(Trap::Fault),
    }
}

/// How many values a channel that is to be made holds.
pub open spec fn chan_size(p: &Bytecode, w: VmView, c: Ctx, inst: Instruction) -> Result<
    usize,
    Trap,
> {
    match inst.t0 {
        ValueType::FlagB => as_count(w.read(c, p.consts@, inst.s1)),
        ValueType::FlagA => Ok(0),
        _ => Err(Trap::Fault),
    }
}

/// The tables with one more channel.
pub open spec fn with_new_chan(w: VmView, cap: usize, recv_zero: Value) -> VmView {
    VmView { chans: w.chans.push(ChannelObj { cap, recv_zero }), ..w }
}

/// An empty slice, map or channel of a type. Without a scheduler there are no
/// channels: the program panics, and the result slot is cleared.
pub open spec fn op_make(
    p: &Bytecode,
    w: VmView,
    c: Ctx,
    inst: Instruction,
    next: Option<Instruction>,
    async_enabled: bool,
) -> Outcome {
    match w.read(c, p.consts@, inst.s0) {
        Err(e) => Err(e),
        Ok(v) => match as_metadata(v) {
            Err(e) => Err(e),
            Ok(md) => match unwrap_named(p, md.key, meta_depth(p)) {
                Err(e) => Err(Trap::Fault),
                Ok(key) => match p.metas@[key as int] {
                    MetadataType::Slice(m) => match slice_size(p, w, c, inst, next) {
                        Err(e) => Err(e),
                        Ok((len, cap, more)) => match zero_value(p, w, m) {
                            Err(e) => Err(e),
                            Ok((w1, zero)) => match slice_with_size(w1, len, cap, zero) {
                                Err(e) => Err(Trap::Fault),
                                Ok((w2, s)) => match w2.write(c, inst.d, s) {
                                    Ok(w3) => Ok((w3, Effect::Next(more))),
                                    Err(e) => Err(e),
                                },
                            },
                        },
                    },
                    MetadataType::GoMap(_, _) => put(
                        with_new_map(w),
                        c,
                        inst.d,
                        Ok(Value::GoMap(w.maps.len() as usize)),
                    ),
                    MetadataType::Channel(_, m) => if !async_enabled {
                        match w.write(c, inst.d, void()) {
                            Ok(w1) => Ok((w1, Effect::Raise(RuntimeError::AsyncDisabled))),
                            Err(e) => Err(e),
                        }
                    } else {
                        match chan_size(p, w, c, inst) {
                            Err(e) => Err(e),
                            Ok(cap) => match zero_value(p, w, m) {
                                Err(e) => Err(e),
                                Ok((w1, zero)) => put(
                                    with_new_chan(w1, cap, zero),
                                    c,
                                    inst.d,
                                    Ok(Value::Channel(w1.chans.len() as usize)),
                                ),
                            },
                        }
                    },
                    _ => Err(Trap::Fault),
                },
            },
        },
    }
}

/// A complex number out of its parts.
pub open spec fn complex_of(t: ValueType, r: Value, i: Value) -> Result<Value, Trap> {
    match (t, r, i) {
        (ValueType::Float32, Value::Float32(x), Value::Float32(y)) => Ok(Value::Complex64(x, y)),
        (ValueType::Float64, Value::Float64(x), Value::Float64(y)) => Ok(Value::Complex128(x, y)),
        _ => Err(Trap::Fault),
    }
}

/// A part of a complex number.
pub open spec fn complex_part(first: bool, t: ValueType, v: Value) -> Result<Value, Trap> {
    match (t, v) {
        (ValueType::Complex64, Value::Complex64(x, y)) => Ok(
            Value::Float32(if first { x } else { y }),
        ),
        (ValueType::Complex128, Value::Complex128(x, y)) => Ok(
            Value::Float64(if first { x } else { y }),
        ),
        _ => Err(Trap::Fault),
    }
}

/// The number of elements; the host knows that of a channel.
pub open spec fn op_len(p: &Bytecode, w: VmView, c: Ctx, inst: Instruction) -> Outcome {
    match w.read(c, p.consts@, inst.s0) {
        Ok(Value::Channel(k)) => match result_place(c, inst.d) {
            Ok(pl) => Ok(
                (
                    w,
                    Effect::Ask(
                        Query::ChanLen(k), Pending::Store { place: pl, typ: ValueType::Int },
                    ),
                ),
            ),
            Err(e) => Err(e),
        },
        Ok(v) => match length(w, v) {
            Ok(n) => put(w, c, inst.d, Ok(count_value(n))),
            Err(e) => Err(Trap::Fault),
        },
        Err(e) => Err(e),
    }
}

/// A slice with more elements behind.
pub open spec fn op_append(p: &Bytecode, w: VmView, c: Ctx, inst: Instruction) -> Outcome {
    match pair(w.read(c, p.consts@, inst.s0), w.read(c, p.consts@, inst.s1)) {
        Ok((a, b)) => match slice_append(w, inst.t0 == ValueType::String, a, b) {
            Ok((w1, v)) => done(w1.write(c, inst.d, v)),
            Err(e) => Err(Trap::Fault),
        },
        Err(e) => Err(e),
    }
}

/// Elements of one slice go over those of another; their number goes into the
/// result slot.
pub open spec fn op_copy(p: &Bytecode, w: VmView, c: Ctx, inst: Instruction) -> Outcome {
    match pair(w.read(c, p.consts@, inst.s0), w.read(c, p.consts@, inst.s1)) {
        Ok((a, b)) => match slice_copy_from(w, inst.t0 == ValueType::String, a, b) {
            Ok((w1, n)) => done(w1.write(c, inst.d, count_value(n))),
            Err(e) => Err(Trap::Fault),
        },
        Err(e) => Err(e),
    }
}

/// A key leaves a map; a nil map has none.
pub open spec fn op_delete(p: &Bytecode, w: VmView, c: Ctx, inst: Instruction) -> Outcome {
    match pair(w.read(c, p.consts@, inst.s0), w.read(c, p.consts@, inst.s1)) {
        Ok((Value::GoMap(m), key)) => done(map_delete(p, w, m, key)),
        Ok((Value::Nil(_), _)) => Ok((w, Effect::Next(0))),
        Ok(_) => Err(Trap::Fault),
        Err(e) => Err(e),
    }
}

/// What an instruction that makes a value or looks into one does.
pub open spec fn make_inst(
    p: &Bytecode,
    w: VmView,
    c: Ctx,
    inst: Instruction,
    next: Option<Instruction>,
    async_enabled: bool,
) -> Outcome {
    match inst.op0 {
        Opcode::SLICE => match next {
            Some(ex) => op_slice(p, w, c, inst, ex),
            None => Err(Trap::Fault),
        },
        Opcode::LITERAL => match next {
            Some(ex) => op_literal(p, w, c, inst, ex),
            None => Err(Trap::Fault),
        },
        Opcode::NEW => op_new(p, w, c, inst),
        Opcode::MAKE => op_make(p, w, c, inst, next, async_enabled),
        Opcode::COMPLEX => match pair(
            w.read(c, p.consts@, inst.s0),
            w.read(c, p.consts@, inst.s1),
        ) {
            Ok((r, i)) => put(w, c, inst.d, complex_of(inst.t0, r, i)),
            Err(e) => Err(e),
        },
        Opcode::REAL | Opcode::IMAG => match w.read(c, p.consts@, inst.s0) {
            Ok(v) => put(w, c, inst.d, complex_part(inst.op0 == Opcode::REAL, inst.t0, v)),
            Err(e) => Err(e),
        },
        Opcode::LEN => op_len(p, w, c, inst),
        Opcode::CAP => match w.read(c, p.consts@, inst.s0) {
            Ok(v) => match capacity(w, v) {
                Ok(n) => put(w, c, inst.d, Ok(count_value(n))),
                Err(e) => Err(Trap::Fault),
            },
            Err(e) => Err(e),
        },
        Opcode::APPEND => op_append(p, w, c, inst),
        Opcode::COPY => op_copy(p, w, c, inst),
        Opcode::DELETE => op_delete(p, w, c, inst),
        _ => Err(Trap::Fault),
    }
}

fn get_part(t: ValueType, v: Value, begin: i128, end: i128, max: i128) -> (r: Result<Value, Trap>)
    ensures
        r == part_of(t, v, begin as int, end as int, max as int),
{
    match t {
        ValueType::Slice => get_slice_slice(v, begin, end, max),
        ValueType::String => get_slice_string(v, begin, end, max),
        ValueType::Array => get_slice_array(v, begin, end),
        _ => Err(Trap::Fault),
    }
}

fn get_complex(t: ValueType, r: Value, i: Value) -> (res: Result<Value, Trap>)
    ensures
        res == complex_of(t, r, i),
{
    match (t, r, i) {
        (ValueType::Float32, Value::Float32(x), Value::Float32(y)) => Ok(Value::Complex64(x, y)),
        (ValueType::Float64, Value::Float64(x), Value::Float64(y)) => Ok(Value::Complex128(x, y)),
        _ => Err(Trap::Fault),
    }
}

fn get_complex_part(first: bool, t: ValueType, v: Value) -> (r: Result<Value, Trap>)
    ensures
        r == complex_part(first, t, v),
{
    match (t, v) {
        (ValueType::Complex64, Value::Complex64(x, y)) => Ok(
            Value::Float32(if first { x } else { y }),
        ),
        (ValueType::Complex128, Value::Complex128(x, y)) => Ok(
            Value::Float64(if first { x } else { y }),
        ),
        _ => Err(Trap::Fault),
    }
}

/// Puts an element into a list.
fn put_at(vals: &mut Vec<Value>, k: usize, elem: Value, zero: Value)
    ensures
        final(vals)@ == placed(old(vals)@, k as int, elem, zero),
{
    if k < vals.len() {
        vals.set(k, elem);
        return;
    }
    let n: usize = vals.len();
    assert(vals@ =~= old(vals)@ + repeated(zero, 0));
    while vals.len() < k
        invariant
            n == old(vals)@.len(),
            n <= vals.len() <= k,
            vals@ == old(vals)@ + repeated(zero, (vals.len() - n) as nat),
        decreases k - vals.len(),
    {
        vals.push(zero);
        assert(vals@ =~= old(vals)@ + repeated(zero, (vals.len() - n) as nat));
    }
    vals.push(elem);
}

impl Vm {
    fn op_slice(&mut self, p: &Bytecode, c: Ctx, inst: &Instruction, ex: &Instruction) -> (r: Result<
        Effect,
        Trap,
    >)
        ensures
            agrees(r, old(self)@, final(self)@, op_slice(p, old(self)@, c, *inst, *ex)),
    {
        let v = self.read(c, p, inst.s0)?;
        let begin: i128 = get_as_int(self.read(c, p, inst.s1))?;
        let end: i128 = get_as_int(self.read(c, p, ex.s0))?;
        let max: i128 = get_as_int(self.read(c, p, ex.s1))?;
        let x = get_part(inst.t0, v, begin, end, max)?;
        self.put(c, inst.d, x)
    }

    fn slot_at(&self, stack: usize, k: i64) -> (r: Result<Value, Trap>)
        ensures
            r == slot_at(self@, stack, k as int),
    {
        if -0x8000_0000 <= k && k <= 0x7fff_ffff {
            self.get(stack, k as i32)
        } else {
            Err(Trap::Fault)
        }
    }

    fn literal_list(&self, stack: usize, begin: OpIndex, count: OpIndex, zero: Value) -> (r: Result<
        Vec<Value>,
        Trap,
    >)
        ensures
            match literal_list(
                self@,
                stack,
                begin as int,
                count as int,
                zero,
                0,
                -1,
                seq![],
            ) {
                Ok(s) => r is Ok && r->Ok_0@ == s,
                Err(e) => r == Err::<Vec<Value>, Trap>(e) && e == Trap::Fault,
            },
    {
        let mut vals: Vec<Value> = Vec::new();
        let mut before: i64 = -1;
        let mut i: i64 = 0;
        assert(vals@ =~= seq![]);
        while i < count as i64
            invariant
                0 <= i,
                i <= count || i == 0,
                -1 <= before <= i32::MAX,
                literal_list(
                    self@,
                    stack,
                    begin as int,
                    count as int,
                    zero,
                    0,
                    -1,
                    seq![],
                ) == literal_list(
                    self@,
                    stack,
                    begin as int,
                    count as int,
                    zero,
                    i as int,
                    before as int,
                    vals@,
                ),
            decreases count - i,
        {
            let x = self.slot_at(stack, begin as i64 + 2 * i)?;
            let elem = self.slot_at(stack, begin as i64 + 1 + 2 * i)?;
            let given: i128 = match get_int(x, IntKind::Int32) {
                Some(n) => n,
                None => return Err(Trap::Fault),
            };
            let k: i64 = if given < 0 {
                before + 1
            } else {
                given as i64
            };
            if k > 0x7fff_ffff {
                return Err(Trap::Fault);
            }
            put_at(&mut vals, k as usize, elem, zero);
            before = k;
            i = i + 1;
        }
        Ok(vals)
    }

    fn literal_map(&mut self, p: &Bytecode, m: usize, stack: usize, begin: OpIndex, count: OpIndex) -> (r:
        Result<(), Trap>)
        ensures
            match literal_map(p, old(self)@, m, stack, begin as int, count as int, 0) {
                Ok(w) => r == Ok::<(), Trap>(()) && final(self)@ == w,
                Err(e) => r == Err::<(), Trap>(e) && e == Trap::Fault,
            },
    {
        let mut i: i64 = 0;
        while i < count as i64
            invariant
                0 <= i,
                i <= count || i == 0,
                literal_map(p, old(self)@, m, stack, begin as int, count as int, 0) == literal_map(
                    p,
                    self@,
                    m,
                    stack,
                    begin as int,
                    count as int,
                    i as int,
                ),
            decreases count - i,
        {
            let k = self.slot_at(stack, begin as i64 + 2 * i)?;
            let v = self.slot_at(stack, begin as i64 + 1 + 2 * i)?;
            self.map_insert(p, m, k, v)?;
            i = i + 1;
        }
        Ok(())
    }

    fn literal_struct(&mut self, r: Region, stack: usize, begin: OpIndex, count: OpIndex) -> (res:
        Result<(), Trap>)
        ensures
            match literal_struct(old(self)@, r, stack, begin as int, count as int, 0) {
                Ok(w) => res == Ok::<(), Trap>(()) && final(self)@ == w,
                Err(e) => res == Err::<(), Trap>(e) && e == Trap::Fault,
            },
    {
        let mut i: i64 = 0;
        while i < count as i64
            invariant
                0 <= i,
                i <= count || i == 0,
                literal_struct(old(self)@, r, stack, begin as int, count as int, 0)
                    == literal_struct(self@, r, stack, begin as int, count as int, i as int),
            decreases count - i,
        {
            let x = self.slot_at(stack, begin as i64 + 2 * i)?;
            let v = self.slot_at(stack, begin as i64 + 1 + 2 * i)?;
            let n: i128 = match get_int(x, IntKind::Uint) {
                Some(n) => n,
                None => return Err(Trap::Fault),
            };
            if n < 0 || n > usize::MAX as i128 {
                return Err(Trap::Fault);
            }
            let a: usize = cell_of(r, n as usize)?;
            self.set_cell(a, v)?;
            i = i + 1;
        }
        Ok(())
    }

    fn literal_value(
        &mut self,
        p: &Bytecode,
        md: Meta,
        stack: usize,
        begin: OpIndex,
        count: OpIndex,
    ) -> (r: Result<Value, Trap>)
        ensures
            agrees(
                r,
                old(self)@,
                final(self)@,
                literal_value(p, old(self)@, md, stack, begin as int, count as int),
            ),
    {
        if md.key >= p.metas.len() {
            return Err(Trap::Fault);
        }
        match &p.metas[md.key] {
            MetadataType::Slice(m) => {
                let zero = self.zero(p, *m)?;
                let vals = self.literal_list(stack, begin, count, zero)?;
                Ok(self.slice_with_data(&vals))
            },
            MetadataType::Array(m, _) => {
                let zero = self.zero(p, *m)?;
                let vals = self.literal_list(stack, begin, count, zero)?;
                Ok(self.array_with_data(&vals))
            },
            MetadataType::GoMap(_, _) => {
                let m: usize = self.new_map();
                self.literal_map(p, m, stack, begin, count)?;
                Ok(Value::GoMap(m))
            },
            MetadataType::Struct(_) => {
                let v = self.zero(p, md)?;
                match v {
                    Value::Struct(r) => {
                        self.literal_struct(r, stack, begin, count)?;
                        Ok(v)
                    },
                    _ => Err(Trap::Fault),
                }
            },
            _ => Err(Trap::Fault),
        }
    }

    fn op_literal(&mut self, p: &Bytecode, c: Ctx, inst: &Instruction, ex: &Instruction) -> (r:
        Result<Effect, Trap>)
        ensures
            agrees(r, old(self)@, final(self)@, op_literal(p, old(self)@, c, *inst, *ex)),
    {
        let v = get_const(&p.consts, ex.s0)?;
        let begin: OpIndex = add_offset(c.sb, inst.s0)?;
        let md = get_metadata(v)?;
        let x = self.literal_value(p, md, c.stack, begin, inst.s1)?;
        self.put(c, inst.d, x)
    }

    fn op_new(&mut self, p: &Bytecode, c: Ctx, inst: &Instruction) -> (r: Result<Effect, Trap>)
        ensures
            agrees(r, old(self)@, final(self)@, op_new(p, old(self)@, c, *inst)),
    {
        let v = self.read(c, p, inst.s0)?;
        let md = get_metadata(v)?;
        let zero = self.zero(p, md.into_value_category())?;
        let id: usize = self.new_upval(UpValueState::Closed(zero));
        self.put(c, inst.d, Value::Pointer(PointerObj::UpVal(id)))
    }

    fn slice_size(&self, p: &Bytecode, c: Ctx, inst: &Instruction, next: Option<Instruction>) -> (r:
        Result<(usize, usize, OpIndex), Trap>)
        ensures
            r == slice_size(p, self@, c, *inst, next),
    {
        match inst.t0 {
            ValueType::FlagC => match next {
                Some(ex) => {
                    let cap: usize = get_as_count(self.read(c, p, inst.s1))?;
                    let len: usize = get_as_count(self.read(c, p, ex.s0))?;
                    Ok((len, cap, 1))
                },
                None => Err(Trap::Fault),
            },
            ValueType::FlagB => {
                let len: usize = get_as_count(self.read(c, p, inst.s1))?;
                Ok((len, len, 0))
            },
            _ => Err(Trap::Fault),
        }
    }

    fn chan_size(&self, p: &Bytecode, c: Ctx, inst: &Instruction) -> (r: Result<usize, Trap>)
        ensures
            r == chan_size(p, self@, c, *inst),
    {
        match inst.t0 {
            ValueType::FlagB => get_as_count(self.read(c, p, inst.s1)),
            ValueType::FlagA => Ok(0),
            _ => Err(Trap::Fault),
        }
    }

    fn new_chan(&mut self, cap: usize, recv_zero: Value) -> (r: usize)
        ensures
            r == old(self)@.chans.len(),
            final(self)@ == with_new_chan(old(self)@, cap, recv_zero),
    {
        let r: usize = self.chans.len();
        self.chans.push(ChannelObj { cap, recv_zero });
        r
    }

    fn op_make(
        &mut self,
        p: &Bytecode,
        c: Ctx,
        inst: &Instruction,
        next: Option<Instruction>,
        async_enabled: bool,
    ) -> (r: Result<Effect, Trap>)
        ensures
            agrees(
                r,
                old(self)@,
                final(self)@,
                op_make(p, old(self)@, c, *inst, next, async_enabled),
            ),
    {
        let v = self.read(c, p, inst.s0)?;
        let md = get_metadata(v)?;
        let key: MetadataKey = match mtype_unwraped(p, md) {
            Ok(key) => key,
            Err(_) => return Err(Trap::Fault),
        };
        match &p.metas[key] {
            MetadataType::Slice(m) => {
                let (len, cap, more) = self.slice_size(p, c, inst, next)?;
                let zero = self.zero(p, *m)?;
                let s = self.slice_with_size(len, cap, zero)?;
                self.write(c, inst.d, s)?;
                Ok(Effect::Next(more))
            },
            MetadataType::GoMap(_, _) => {
                let m: usize = self.new_map();
                self.put(c, inst.d, Value::GoMap(m))
            },
            MetadataType::Channel(_, m) => {
                if !async_enabled {
                    self.write(c, inst.d, Value::Nil(ValueType::Void))?;
                    return Ok(Effect::Raise(RuntimeError::AsyncDisabled));
                }
                let cap: usize = self.chan_size(p, c, inst)?;
                let zero = self.zero(p, *m)?;
                let k: usize = self.new_chan(cap, zero);
                self.put(c, inst.d, Value::Channel(k))
            },
            _ => Err(Trap::Fault),
        }
    }

    fn op_len(&mut self, p: &Bytecode, c: Ctx, inst: &Instruction) -> (r: Result<Effect, Trap>)
        ensures
            agrees(r, old(self)@, final(self)@, op_len(p, old(self)@, c, *inst)),
    {
        match self.read(c, p, inst.s0)? {
            Value::Channel(k) => {
                let place = get_result_place(c, inst.d)?;
                Ok(
                    Effect::Ask(
                        Query::ChanLen(k), Pending::Store { place, typ: ValueType::Int },
                    ),
                )
            },
            v => match self.length(v) {
                Ok(n) => self.put(c, inst.d, get_count_value(n)),
                Err(_) => Err(Trap::Fault),
            },
        }
    }

    fn op_append(&mut self, p: &Bytecode, c: Ctx, inst: &Instruction) -> (r: Result<Effect, Trap>)
        ensures
            agrees(r, old(self)@, final(self)@, op_append(p, old(self)@, c, *inst)),
    {
        let a = self.read(c, p, inst.s0)?;
        let b = self.read(c, p, inst.s1)?;
        let v = self.slice_append(inst.t0 == ValueType::String, a, b)?;
        self.put(c, inst.d, v)
    }

    fn op_copy(&mut self, p: &Bytecode, c: Ctx, inst: &Instruction) -> (r: Result<Effect, Trap>)
        ensures
            agrees(r, old(self)@, final(self)@, op_copy(p, old(self)@, c, *inst)),
    {
        let a = self.read(c, p, inst.s0)?;
        let b = self.read(c, p, inst.s1)?;
        let n: usize = self.slice_copy_from(inst.t0 == ValueType::String, a, b)?;
        self.put(c, inst.d, get_count_value(n))
    }

    fn op_delete(&mut self, p: &Bytecode, c: Ctx, inst: &Instruction) -> (r: Result<Effect, Trap>)
        ensures
            agrees(r, old(self)@, final(self)@, op_delete(p, old(self)@, c, *inst)),
    {
        let map = self.read(c, p, inst.s0)?;
        let key = self.read(c, p, inst.s1)?;
        match map {
            Value::GoMap(m) => {
                self.map_delete(p, m, key)?;
                Ok(Effect::Next(0))
            },
            Value::Nil(_) => Ok(Effect::Next(0)),
            _ => Err(Trap::Fault),
        }
    }

    /// Runs an instruction that makes a value or looks into one.
    pub fn run_make_inst(
        &mut self,
        p: &Bytecode,
        c: Ctx,
        inst: &Instruction,
        next: Option<Instruction>,
        async_enabled: bool,
    ) -> (r: Result<Effect, Trap>)
        ensures
            agrees(
                r,
                old(self)@,
                final(self)@,
                make_inst(p, old(self)@, c, *inst, next, async_enabled),
            ),
    {
        match inst.op0 {
            Opcode::SLICE => match next {
                Some(ex) => self.op_slice(p, c, inst, &ex),
                None => Err(Trap::Fault),
            },
            Opcode::LITERAL => match next {
                Some(ex) => self.op_literal(p, c, inst, &ex),
                None => Err(Trap::Fault),
            },
            Opcode::NEW => self.op_new(p, c, inst),
            Opcode::MAKE => self.op_make(p, c, inst, next, async_enabled),
            Opcode::COMPLEX => {
                let re = self.read(c, p, inst.s0)?;
                let im = self.read(c, p, inst.s1)?;
                let v = get_complex(inst.t0, re, im)?;
                self.put(c, inst.d, v)
            },
            Opcode::REAL | Opcode::IMAG => {
                let v = self.read(c, p, inst.s0)?;
                let x = get_complex_part(inst.op0 == Opcode::REAL, inst.t0, v)?;
                self.put(c, inst.d, x)
            },
            Opcode::LEN => self.op_len(p, c, inst),
            Opcode::CAP => {
                let v = self.read(c, p, inst.s0)?;
                match self.capacity(v) {
                    Ok(n) => self.put(c, inst.d, get_count_value(n)),
                    Err(_) => Err(Trap::Fault),
                }
            },
            Opcode::APPEND => self.op_append(p, c, inst),
            Opcode::COPY => self.op_copy(p, c, inst),
            Opcode::DELETE => self.op_delete(p, c, inst),
            _ => Err(Trap::Fault),
        }
    }
}

} // verus!

//! The instructions that jump, bind methods and deal with types.
use vstd::prelude::*;
use vstd::utf8::encode_scalar;
use crate::bytecode::{Bytecode, Instruction, Opcode};
use crate::closure::bound_func;
use crate::content::{
    claimed, copy_semantic, get_claimed, new_str, slice_seq, str_bytes, values_equal,
};
use crate::effect::{
    done, get_result_place, put, put_new, result_place, settle, Effect, Outcome, Pending, Query,
};
use crate::embed::{
    as_metadata, as_non_nil_interface, bind_iface_method, get_metadata, get_non_nil_interface,
    is_bindable, lemma_not_bindable, spec_bind_iface_method, spec_type_assert, type_assert,
};
use crate::machine::{add_offset, agrees, get_const, offset, spec_const, Ctx, Vm, VmView};
use crate::meta::{is_same_type, same_type};
use crate::num::{cast_copyable, get_int, int_in, relate_as, relation_as, word_cast, Calc};
use crate::ops_place::{as_package, get_package, pair};
use crate::place::{find_pointee, load, pointee};
use crate::slices::slice_with_data;
use crate::text::{
    char_from_u32, get_runes_bytes, get_str_runes, runes_bytes, scalar, scalar_bytes, str_runes,
};
use crate::trap::{or_fault, RuntimeError, Trap};
use crate::value::{
    FunctionKey, IntKind, InterfaceObj, Meta, OpIndex, PackageKey, UnsafePtr, Value, ValueType,
};

verus! {

/// A jump if the condition holds.
pub open spec fn jump(w: VmView, cond: Result<bool, Trap>, d: OpIndex) -> Outcome {
    match cond {
        Ok(b) => Ok((w, Effect::Next(if b { d } else { 0 }))),
        Err(e) => Err(e),
    }
}

/// The truth value of an operand.
pub open spec fn truth(p: &Bytecode, w: VmView, c: Ctx, s: OpIndex) -> Result<bool, Trap> {
    match w.read(c, p.consts@, s) {
        Ok(Value::Bool(b)) => Ok(b),
        Ok(_) => Err(Trap::Fault),
        Err(e) => Err(e),
    }
}

/// Whether a switch goes to the branch: for values whether they are equal, for
/// types whether they are the same. Plain words are both taken for words of the
/// type.
pub open spec fn matched(p: &Bytecode, w: VmView, t: ValueType, a: Value, b: Value) -> Result<
    bool,
    Trap,
> {
    if t.spec_copyable() {
        or_fault(relation_as(Opcode::EQL, t, a, b))
    } else if t != ValueType::Metadata {
        values_equal(p, w, a, b)
    } else {
        match pair(as_metadata(a), as_metadata(b)) {
            Ok((x, y)) => same_type(p, x, y),
            Err(e) => Err(e),
        }
    }
}

/// Whether a switch goes to the branch.
pub open spec fn switched(p: &Bytecode, w: VmView, c: Ctx, inst: Instruction) -> Result<bool, Trap> {
    match pair(w.read(c, p.consts@, inst.s0), w.read(c, p.consts@, inst.s1)) {
        Ok((a, b)) => matched(p, w, inst.t0, a, b),
        Err(e) => Err(e),
    }
}

/// Whether a package is ready.
pub open spec fn imported(p: &Bytecode, w: VmView, c: Ctx, s: OpIndex) -> Result<bool, Trap> {
    match w.read(c, p.consts@, s) {
        Ok(Value::Package(k)) => if k < w.inited.len() {
            Ok(w.inited[k as int])
        } else {
            Err(Trap::Fault)
        },
        Ok(_) => Err(Trap::Fault),
        Err(e) => Err(e),
    }
}

/// Arguments become a slice, and leave their slots.
pub open spec fn pack_variadic(w: VmView, c: Ctx, inst: Instruction) -> Outcome {
    match pair(offset(c.sb, inst.s0), offset(c.sb, inst.s1)) {
        Ok((b, e)) => match w.taken(c.stack, b, e) {
            Ok((w1, vals)) => {
                let (w2, v) = slice_with_data(w1, vals);
                done(w2.write(c, inst.d, v))
            },
            Err(e) => Err(e),
        },
        Err(e) => Err(e),
    }
}

/// The next initialiser of a package goes into its slot and is counted; when
/// there is none left, two instructions are left out.
pub open spec fn load_init_func(p: &Bytecode, w: VmView, c: Ctx, inst: Instruction) -> Outcome {
    match pair(w.read(c, p.consts@, inst.s0), w.read(c, p.consts@, inst.s1)) {
        Ok((src, x)) => match pair(as_package(src), or_fault(int_in(x, IntKind::Int32))) {
            Ok((k, n)) => if k >= p.packages@.len() {
                Err(Trap::Fault)
            } else if 0 <= n < p.packages@[k as int].init_funcs@.len() {
                if n == i32::MAX {
                    Err(Trap::Fault)
                } else {
                    match w.write(c, inst.d, p.packages@[k as int].init_funcs@[n as int]) {
                        Ok(w1) => done(
                            w1.write(c, inst.s1, Value::Int(IntKind::Int32, (n + 1) as i128)),
                        ),
                        Err(e) => Err(e),
                    }
                }
            } else {
                Ok((w, Effect::Next(2)))
            },
            Err(e) => Err(e),
        },
        Err(e) => Err(e),
    }
}

/// A function bound to a copy of its receiver.
pub open spec fn op_bind_method(p: &Bytecode, w: VmView, c: Ctx, inst: Instruction) -> Outcome {
    match pair(w.read(c, p.consts@, inst.s0), w.read(c, p.consts@, inst.s1)) {
        Ok((v, Value::Function(f))) => match copy_semantic(w, v) {
            Ok((w1, recv)) => put_new(c, inst.d, bound_func(p, w1, f, Some(recv))),
            Err(e) => Err(e),
        },
        Ok(_) => Err(Trap::Fault),
        Err(e) => Err(e),
    }
}

/// A method of an interface value, bound to what is in the interface.
pub open spec fn bind_i_method(p: &Bytecode, w: VmView, c: Ctx, inst: Instruction) -> Outcome {
    match w.read(c, p.consts@, inst.s0) {
        Ok(v) => match as_non_nil_interface(v) {
            Ok(iface) => if inst.s1 < 0 {
                Err(Trap::Fault)
            } else {
                put_new(c, inst.d, spec_bind_iface_method(p, w, iface, inst.s1 as usize))
            },
            Err(e) => Err(e),
        },
        Err(e) => Err(e),
    }
}

/// A value in an interface, with the methods that the program gives it.
pub open spec fn boxed(w: VmView, v: Value, binding: Option<usize>) -> (VmView, Value) {
    (
        w.with_cells(w.cells.push(v)),
        Value::Interface(InterfaceObj::Gos { under: w.cells.len() as usize, binding }),
    )
}

/// A copy of a value in an interface.
pub open spec fn to_interface(p: &Bytecode, w: VmView, v: Value, binding: OpIndex) -> Result<
    (VmView, Value),
    Trap,
> {
    if 0 <= binding < p.ifaces@.len() {
        match copy_semantic(w, v) {
            Ok((w1, x)) => Ok(boxed(w1, x, Some(binding as usize))),
            Err(e) => Err(e),
        }
    } else {
        Err(Trap::Fault)
    }
}

/// The string of the one character that has the number.
pub open spec fn char_text(w: VmView, v: Value) -> Result<(VmView, Value), Trap> {
    match v {
        Value::Int(IntKind::Uint32, n) => match scalar(n as int) {
            Ok(u) => Ok(new_str(w, encode_scalar(u))),
            Err(e) => Err(Trap::Fault),
        },
        _ => Err(Trap::Fault),
    }
}

/// A string out of its characters, out of its bytes (which are shared), or out
/// of the number of one character.
pub open spec fn to_string(w: VmView, from: ValueType, elem: ValueType, v: Value) -> Result<
    (VmView, Value),
    Trap,
> {
    match from {
        ValueType::Slice => match (elem, v) {
            (ValueType::Int32 | ValueType::Uint8, Value::Nil(_)) => Ok(new_str(w, seq![])),
            (ValueType::Int32, Value::Slice(s)) => match slice_seq(w.cells, s) {
                Ok(vals) => match runes_bytes(vals, 0, seq![]) {
                    Ok(b) => Ok(new_str(w, b)),
                    Err(e) => Err(Trap::Fault),
                },
                Err(e) => Err(Trap::Fault),
            },
            (ValueType::Uint8, Value::Slice(s)) => Ok((w, Value::Str(s))),
            _ => Err(Trap::Fault),
        },
        _ => match word_cast(from, ValueType::Uint32, v) {
            Some(Calc::Done(x)) => char_text(w, x),
            _ => Err(Trap::Fault),
        },
    }
}

/// The characters or the bytes of a string as a slice; the bytes are shared.
pub open spec fn to_slice(w: VmView, elem: ValueType, v: Value) -> Result<(VmView, Value), Trap> {
    match (elem, v) {
        (ValueType::Int32, Value::Str(s)) => match str_bytes(w.cells, s) {
            Ok(b) => match str_runes(b) {
                Ok(vals) => Ok(slice_with_data(w, vals)),
                Err(e) => Err(Trap::Fault),
            },
            Err(e) => Err(Trap::Fault),
        },
        (ValueType::Uint8, Value::Str(s)) => Ok((w, Value::Slice(s))),
        _ => Err(Trap::Fault),
    }
}

/// A pointer out of a pointer. One that was made untyped becomes a pointer
/// again only where it points to a value of the wanted type.
pub open spec fn to_pointer(p: &Bytecode, w: VmView, from: ValueType, elem: ValueType, v: Value) -> Result<
    Value,
    Trap,
> {
    match from {
        ValueType::Pointer => Ok(v),
        ValueType::UnsafePtr => match v {
            Value::Nil(_) => Ok(Value::Nil(ValueType::Pointer)),
            Value::UnsafePtr(UnsafePtr::Handle(ptr)) => match pointee(p, ptr) {
                Ok(pl) => match load(p, w, pl) {
                    Ok(x) => if x.spec_typ() == elem {
                        Ok(Value::Pointer(ptr))
                    } else {
                        Err(Trap::Panic(RuntimeError::PointerType))
                    },
                    Err(e) => Err(e),
                },
                Err(e) => Err(e),
            },
            Value::UnsafePtr(UnsafePtr::Foreign(_)) => Err(
                Trap::Panic(RuntimeError::ForeignPointer),
            ),
            _ => Err(Trap::Fault),
        },
        _ => Err(Trap::Fault),
    }
}

/// A pointer without its type.
pub open spec fn to_unsafe_ptr(from: ValueType, v: Value) -> Result<Value, Trap> {
    match (from, v) {
        (ValueType::Pointer, Value::Pointer(ptr)) => Ok(Value::UnsafePtr(UnsafePtr::Handle(ptr))),
        (ValueType::Pointer, Value::Nil(_)) => Ok(Value::Nil(ValueType::UnsafePtr)),
        _ => Err(Trap::Fault),
    }
}

/// A conversion to a string. The host makes the number of the character out of a
/// fraction.
pub open spec fn cast_text(
    w: VmView,
    c: Ctx,
    d: OpIndex,
    from: ValueType,
    elem: ValueType,
    v: Value,
) -> Outcome {
    match word_cast(from, ValueType::Uint32, v) {
        Some(Calc::Host(t)) => match result_place(c, d) {
            Ok(pl) => Ok((w, Effect::Ask(Query::Float(t), Pending::Text { place: pl }))),
            Err(e) => Err(e),
        },
        _ => put_new(c, d, to_string(w, from, elem, v)),
    }
}

/// The conversion of a value to another type.
pub open spec fn cast(p: &Bytecode, w: VmView, c: Ctx, inst: Instruction) -> Outcome {
    let from = inst.t1;
    let to = inst.t0;
    match w.read(c, p.consts@, inst.s0) {
        Err(e) => Err(e),
        Ok(v) => if to == ValueType::UintPtr && from == ValueType::UnsafePtr {
            match v {
                Value::Nil(_) => put(w, c, inst.d, Ok(Value::Int(IntKind::UintPtr, 0))),
                Value::UnsafePtr(u) => match result_place(c, inst.d) {
                    Ok(pl) => Ok(
                        (
                            w,
                            Effect::Ask(
                                Query::Address(u), Pending::Store { place: pl, typ: ValueType::UintPtr },
                            ),
                        ),
                    ),
                    Err(e) => Err(e),
                },
                _ => Err(Trap::Fault),
            }
        } else if to.spec_copyable() {
            match word_cast(from, to, v) {
                Some(x) => settle(p, result_place(c, inst.d), Ok((w, x))),
                None => Err(Trap::Fault),
            }
        } else {
            match to {
                ValueType::Interface => put_new(c, inst.d, to_interface(p, w, v, inst.s1)),
                ValueType::String => cast_text(w, c, inst.d, from, inst.op1_t, v),
                ValueType::Slice => put_new(c, inst.d, to_slice(w, inst.op1_t, v)),
                ValueType::Pointer => put(
                    w,
                    c,
                    inst.d,
                    to_pointer(p, w, from, inst.op1_t, v),
                ),
                ValueType::UnsafePtr => put(w, c, inst.d, to_unsafe_ptr(from, v)),
                _ => Err(Trap::Fault),
            }
        },
    }
}

/// What an interface value holds, if it is of the wanted type; else the zero
/// value of that type. If asked for, also which of the two it was: the
/// following word says where that goes.
pub open spec fn op_type_assert(
    p: &Bytecode,
    w: VmView,
    c: Ctx,
    inst: Instruction,
    next: Option<Instruction>,
) -> Outcome {
    match pair(w.read(c, p.consts@, inst.s0), spec_const(p.consts@, inst.s1)) {
        Ok((v, want)) => match spec_type_assert(p, w, v, want) {
            Ok((w1, (x, ok))) => match w1.write(c, inst.d, x) {
                Ok(w2) => if inst.t1 == ValueType::FlagB {
                    match next {
                        Some(ex) => match w2.write(c, ex.d, Value::Bool(ok)) {
                            Ok(w3) => Ok((w3, Effect::Next(1))),
                            Err(e) => Err(e),
                        },
                        None => Err(Trap::Fault),
                    }
                } else {
                    Ok((w2, Effect::Next(0)))
                },
                Err(e) => Err(e),
            },
            Err(e) => Err(e),
        },
        Err(e) => Err(e),
    }
}

/// The type that an interface value claims, and the cell of what it holds. An
/// object of the host and nil have no type of the program.
pub open spec fn dynamic_type(p: &Bytecode, v: Value) -> Result<(Option<usize>, Meta), Trap> {
    match v {
        Value::Interface(InterfaceObj::Gos { under, binding }) => match claimed(p, binding) {
            Ok(Some(m)) => Ok((Some(under), m)),
            _ => Err(Trap::Fault),
        },
        Value::Interface(InterfaceObj::Ffi { .. }) => Ok((None, p.none_meta)),
        Value::Nil(_) => Ok((None, p.none_meta)),
        _ => Err(Trap::Fault),
    }
}

/// The type of what an interface holds; if asked for, also a copy of it.
pub open spec fn op_type(p: &Bytecode, w: VmView, c: Ctx, inst: Instruction) -> Outcome {
    match w.read(c, p.consts@, inst.s0) {
        Err(e) => Err(e),
        Ok(v) => match dynamic_type(p, v) {
            Err(e) => Err(e),
            Ok((under, m)) => if inst.t0 != ValueType::FlagA {
                put(w, c, inst.d, Ok(Value::Metadata(m)))
            } else {
                let content = match under {
                    Some(a) => match w.cell(a as int) {
                        Ok(x) => copy_semantic(w, x),
                        Err(e) => Err(e),
                    },
                    None => Ok((w, v)),
                };
                match content {
                    Ok((w1, x)) => match w1.write(c, inst.d, Value::Metadata(m)) {
                        Ok(w2) => done(w2.write(c, inst.s1, x)),
                        Err(e) => Err(e),
                    },
                    Err(e) => Err(e),
                }
            },
        },
    }
}

/// What an instruction that jumps, binds a method or deals with types does.
pub open spec fn type_inst(
    p: &Bytecode,
    w: VmView,
    c: Ctx,
    inst: Instruction,
    next: Option<Instruction>,
) -> Outcome {
    match inst.op0 {
        Opcode::PACK_VARIADIC => pack_variadic(w, c, inst),
        Opcode::JUMP => Ok((w, Effect::Next(inst.d))),
        Opcode::JUMP_IF => jump(w, truth(p, w, c, inst.s0), inst.d),
        Opcode::JUMP_IF_NOT => match truth(p, w, c, inst.s0) {
            Ok(b) => jump(w, Ok(!b), inst.d),
            Err(e) => Err(e),
        },
        Opcode::SWITCH => jump(w, switched(p, w, c, inst), inst.d),
        Opcode::IMPORT => jump(w, imported(p, w, c, inst.s0), inst.d),
        Opcode::LOAD_INIT_FUNC => load_init_func(p, w, c, inst),
        Opcode::BIND_METHOD => op_bind_method(p, w, c, inst),
        Opcode::BIND_I_METHOD => bind_i_method(p, w, c, inst),
        Opcode::CAST => cast(p, w, c, inst),
        Opcode::TYPE_ASSERT => op_type_assert(p, w, c, inst, next),
        Opcode::TYPE => op_type(p, w, c, inst),
        Opcode::ASSERT => match truth(p, w, c, inst.s0) {
            Ok(b) => if b {
                Ok((w, Effect::Next(0)))
            } else {
                Err(Trap::Panic(RuntimeError::NotTrue))
            },
            Err(e) => Err(e),
        },
        _ => Err(Trap::Fault),
    }
}

fn get_unsafe_ptr(from: ValueType, v: Value) -> (r: Result<Value, Trap>)
    ensures
        r == to_unsafe_ptr(from, v),
{
    match (from, v) {
        (ValueType::Pointer, Value::Pointer(ptr)) => Ok(Value::UnsafePtr(UnsafePtr::Handle(ptr))),
        (ValueType::Pointer, Value::Nil(_)) => Ok(Value::Nil(ValueType::UnsafePtr)),
        _ => Err(Trap::Fault),
    }
}

fn get_dynamic_type(p: &Bytecode, v: Value) -> (r: Result<(Option<usize>, Meta), Trap>)
    ensures
        r == dynamic_type(p, v),
{
    match v {
        Value::Interface(InterfaceObj::Gos { under, binding }) => match get_claimed(p, binding) {
            Ok(Some(m)) => Ok((Some(under), m)),
            _ => Err(Trap::Fault),
        },
        Value::Interface(InterfaceObj::Ffi { .. }) => Ok((None, p.none_meta)),
        Value::Nil(_) => Ok((None, p.none_meta)),
        _ => Err(Trap::Fault),
    }
}

impl Vm {
    fn truth(&self, p: &Bytecode, c: Ctx, s: OpIndex) -> (r: Result<bool, Trap>)
        ensures
            r == truth(p, self@, c, s),
    {
        match self.read(c, p, s)? {
            Value::Bool(b) => Ok(b),
            _ => Err(Trap::Fault),
        }
    }

    fn switched(&self, p: &Bytecode, c: Ctx, inst: &Instruction) -> (r: Result<bool, Trap>)
        ensures
            r == switched(p, self@, c, *inst),
    {
        let a = self.read(c, p, inst.s0)?;
        let b = self.read(c, p, inst.s1)?;
        let t = inst.t0;
        if t.copyable() {
            match relate_as(Opcode::EQL, t, a, b) {
                Some(x) => Ok(x),
                None => Err(Trap::Fault),
            }
        } else if t != ValueType::Metadata {
            self.equal(p, a, b)
        } else {
            let x = get_metadata(a)?;
            let y = get_metadata(b)?;
            is_same_type(p, x, y)
        }
    }

    fn imported(&self, p: &Bytecode, c: Ctx, s: OpIndex) -> (r: Result<bool, Trap>)
        ensures
            r == imported(p, self@, c, s),
    {
        match self.read(c, p, s)? {
            Value::Package(k) => if k < self.inited.len() {
                Ok(self.inited[k])
            } else {
                Err(Trap::Fault)
            },
            _ => Err(Trap::Fault),
        }
    }

    fn op_pack_variadic(&mut self, c: Ctx, inst: &Instruction) -> (r: Result<Effect, Trap>)
        ensures
            agrees(r, old(self)@, final(self)@, pack_variadic(old(self)@, c, *inst)),
    {
        let b: OpIndex = add_offset(c.sb, inst.s0)?;
        let e: OpIndex = add_offset(c.sb, inst.s1)?;
        let vals = self.move_vec(c.stack, b, e)?;
        let v = self.slice_with_data(&vals);
        self.put(c, inst.d, v)
    }

    fn op_load_init_func(&mut self, p: &Bytecode, c: Ctx, inst: &Instruction) -> (r: Result<
        Effect,
        Trap,
    >)
        ensures
            agrees(r, old(self)@, final(self)@, load_init_func(p, old(self)@, c, *inst)),
    {
        let src = self.read(c, p, inst.s0)?;
        let x = self.read(c, p, inst.s1)?;
        let k: PackageKey = get_package(src)?;
        let n: i128 = match get_int(x, IntKind::Int32) {
            Some(n) => n,
            None => return Err(Trap::Fault),
        };
        if k >= p.packages.len() {
            return Err(Trap::Fault);
        }
        let count: usize = p.packages[k].init_funcs.len();
        if 0 <= n && n < count as i128 {
            if n == 0x7fff_ffff {
                return Err(Trap::Fault);
            }
            self.write(c, inst.d, p.packages[k].init_funcs[n as usize])?;
            self.put(c, inst.s1, Value::Int(IntKind::Int32, n + 1))
        } else {
            Ok(Effect::Next(2))
        }
    }

    fn op_bind_method(&mut self, p: &Bytecode, c: Ctx, inst: &Instruction) -> (r: Result<
        Effect,
        Trap,
    >)
        ensures
            agrees(r, old(self)@, final(self)@, op_bind_method(p, old(self)@, c, *inst)),
    {
        let v = self.read(c, p, inst.s0)?;
        let f: FunctionKey = match self.read(c, p, inst.s1)? {
            Value::Function(f) => f,
            _ => return Err(Trap::Fault),
        };
        let recv = self.copy_semantic(v)?;
        let cls = self.bind_func(p, f, Some(recv))?;
        self.put(c, inst.d, cls)
    }

    fn op_bind_i_method(&mut self, p: &Bytecode, c: Ctx, inst: &Instruction) -> (r: Result<
        Effect,
        Trap,
    >)
        ensures
            agrees(r, old(self)@, final(self)@, bind_i_method(p, old(self)@, c, *inst)),
    {
        let v = self.read(c, p, inst.s0)?;
        let iface = get_non_nil_interface(v)?;
        if inst.s1 < 0 {
            return Err(Trap::Fault);
        }
        if !is_bindable(iface, inst.s1 as usize, self, p) {
            proof {
                lemma_not_bindable(p, self@, iface, inst.s1 as usize);
            }
            return Err(Trap::Fault);
        }
        let cls = bind_iface_method(iface, inst.s1 as usize, self, p)?;
        self.put(c, inst.d, cls)
    }

    /// Puts a value into an interface.
    pub fn boxed(&mut self, v: Value, binding: Option<usize>) -> (r: Value)
        ensures
            (final(self)@, r) == boxed(old(self)@, v, binding),
    {
        let under: usize = self.new_cell(v);
        Value::Interface(InterfaceObj::Gos { under, binding })
    }

    fn to_interface(&mut self, p: &Bytecode, v: Value, binding: OpIndex) -> (r: Result<Value, Trap>)
        ensures
            agrees(r, old(self)@, final(self)@, to_interface(p, old(self)@, v, binding)),
    {
        if binding < 0 || binding as usize >= p.ifaces.len() {
            return Err(Trap::Fault);
        }
        let x = self.copy_semantic(v)?;
        Ok(self.boxed(x, Some(binding as usize)))
    }

    /// Makes the string of the one character that has the number.
    pub fn char_text(&mut self, v: Value) -> (r: Result<Value, Trap>)
        ensures
            agrees(r, old(self)@, final(self)@, char_text(old(self)@, v)),
    {
        match v {
            Value::Int(IntKind::Uint32, n) => {
                if n < 0 || n > 0xffff_ffff {
                    return Err(Trap::Fault);
                }
                let u: u32 = match char_from_u32(n as u32) {
                    Ok(u) => u,
                    Err(_) => return Err(Trap::Fault),
                };
                let b = scalar_bytes(u);
                Ok(self.add_str(b.as_slice()))
            },
            _ => Err(Trap::Fault),
        }
    }

    fn to_string(&mut self, from: ValueType, elem: ValueType, v: Value) -> (r: Result<Value, Trap>)
        ensures
            agrees(r, old(self)@, final(self)@, to_string(old(self)@, from, elem, v)),
    {
        match from {
            ValueType::Slice => match (elem, v) {
                (ValueType::Int32, Value::Nil(_)) | (ValueType::Uint8, Value::Nil(_)) => {
                    let none: Vec<u8> = Vec::new();
                    assert(none@ =~= seq![]);
                    Ok(self.add_str(none.as_slice()))
                },
                (ValueType::Int32, Value::Slice(s)) => {
                    let vals = match self.get_slice(s) {
                        Ok(vals) => vals,
                        Err(_) => return Err(Trap::Fault),
                    };
                    let b = match get_runes_bytes(&vals) {
                        Ok(b) => b,
                        Err(_) => return Err(Trap::Fault),
                    };
                    Ok(self.add_str(b.as_slice()))
                },
                (ValueType::Uint8, Value::Slice(s)) => Ok(Value::Str(s)),
                _ => Err(Trap::Fault),
            },
            _ => match cast_copyable(from, ValueType::Uint32, v) {
                Some(Calc::Done(x)) => self.char_text(x),
                _ => Err(Trap::Fault),
            },
        }
    }

    fn to_slice(&mut self, elem: ValueType, v: Value) -> (r: Result<Value, Trap>)
        ensures
            agrees(r, old(self)@, final(self)@, to_slice(old(self)@, elem, v)),
    {
        match (elem, v) {
            (ValueType::Int32, Value::Str(s)) => {
                let b = match self.get_bytes(s) {
                    Ok(b) => b,
                    Err(_) => return Err(Trap::Fault),
                };
                let vals = match get_str_runes(&b) {
                    Ok(vals) => vals,
                    Err(_) => return Err(Trap::Fault),
                };
                Ok(self.slice_with_data(&vals))
            },
            (ValueType::Uint8, Value::Str(s)) => Ok(Value::Slice(s)),
            _ => Err(Trap::Fault),
        }
    }

    fn to_pointer(&self, p: &Bytecode, from: ValueType, elem: ValueType, v: Value) -> (r: Result<
        Value,
        Trap,
    >)
        ensures
            r == to_pointer(p, self@, from, elem, v),
    {
        match from {
            ValueType::Pointer => Ok(v),
            ValueType::UnsafePtr => match v {
                Value::Nil(_) => Ok(Value::Nil(ValueType::Pointer)),
                Value::UnsafePtr(UnsafePtr::Handle(ptr)) => {
                    let place = find_pointee(p, ptr)?;
                    let x = self.load(p, place)?;
                    if x.typ() == elem {
                        Ok(Value::Pointer(ptr))
                    } else {
                        Err(Trap::Panic(RuntimeError::PointerType))
                    }
                },
                Value::UnsafePtr(UnsafePtr::Foreign(_)) => Err(
                    Trap::Panic(RuntimeError::ForeignPointer),
                ),
                _ => Err(Trap::Fault),
            },
            _ => Err(Trap::Fault),
        }
    }

    fn cast_text(&mut self, c: Ctx, d: OpIndex, from: ValueType, elem: ValueType, v: Value) -> (r:
        Result<Effect, Trap>)
        ensures
            agrees(r, old(self)@, final(self)@, cast_text(old(self)@, c, d, from, elem, v)),
    {
        match cast_copyable(from, ValueType::Uint32, v) {
            Some(Calc::Host(t)) => {
                let place = get_result_place(c, d)?;
                Ok(Effect::Ask(Query::Float(t), Pending::Text { place }))
            },
            _ => {
                let x = self.to_string(from, elem, v)?;
                self.put(c, d, x)
            },
        }
    }

    fn op_cast(&mut self, p: &Bytecode, c: Ctx, inst: &Instruction) -> (r: Result<Effect, Trap>)
        ensures
            agrees(r, old(self)@, final(self)@, cast(p, old(self)@, c, *inst)),
    {
        let from = inst.t1;
        let to = inst.t0;
        let v = self.read(c, p, inst.s0)?;
        if to == ValueType::UintPtr && from == ValueType::UnsafePtr {
            return match v {
                Value::Nil(_) => self.put(c, inst.d, Value::Int(IntKind::UintPtr, 0)),
                Value::UnsafePtr(u) => {
                    let place = get_result_place(c, inst.d)?;
                    Ok(
                        Effect::Ask(
                            Query::Address(u), Pending::Store { place, typ: ValueType::UintPtr },
                        ),
                    )
                },
                _ => Err(Trap::Fault),
            };
        }
        if to.copyable() {
            return match cast_copyable(from, to, v) {
                Some(x) => match get_result_place(c, inst.d) {
                    Ok(place) => self.settle(p, place, x),
                    Err(_) => Err(Trap::Fault),
                },
                None => Err(Trap::Fault),
            };
        }
        let x = match to {
            ValueType::Interface => self.to_interface(p, v, inst.s1)?,
            ValueType::String => return self.cast_text(c, inst.d, from, inst.op1_as_t(), v),
            ValueType::Slice => self.to_slice(inst.op1_as_t(), v)?,
            ValueType::Pointer => self.to_pointer(p, from, inst.op1_as_t(), v)?,
            ValueType::UnsafePtr => get_unsafe_ptr(from, v)?,
            _ => return Err(Trap::Fault),
        };
        self.put(c, inst.d, x)
    }

    fn op_type_assert(
        &mut self,
        p: &Bytecode,
        c: Ctx,
        inst: &Instruction,
        next: Option<Instruction>,
    ) -> (r: Result<Effect, Trap>)
        ensures
            agrees(
                r,
                old(self)@,
                final(self)@,
                op_type_assert(p, old(self)@, c, *inst, next),
            ),
    {
        let v = self.read(c, p, inst.s0)?;
        let want = get_const(&p.consts, inst.s1)?;
        let (x, ok) = type_assert(v, want, self, p)?;
        self.write(c, inst.d, x)?;
        if inst.t1 == ValueType::FlagB {
            match next {
                Some(ex) => {
                    self.write(c, ex.d, Value::Bool(ok))?;
                    Ok(Effect::Next(1))
                },
                None => Err(Trap::Fault),
            }
        } else {
            Ok(Effect::Next(0))
        }
    }

    fn op_type(&mut self, p: &Bytecode, c: Ctx, inst: &Instruction) -> (r: Result<Effect, Trap>)
        ensures
            agrees(r, old(self)@, final(self)@, op_type(p, old(self)@, c, *inst)),
    {
        let v = self.read(c, p, inst.s0)?;
        let (under, m) = get_dynamic_type(p, v)?;
        if inst.t0 != ValueType::FlagA {
            return self.put(c, inst.d, Value::Metadata(m));
        }
        let x = match under {
            Some(a) => {
                let y = self.get_cell(a)?;
                self.copy_semantic(y)?
            },
            None => v,
        };
        self.write(c, inst.d, Value::Metadata(m))?;
        self.put(c, inst.s1, x)
    }

    /// Runs an instruction that jumps, binds a method or deals with types.
    pub fn run_type_inst(
        &mut self,
        p: &Bytecode,
        c: Ctx,
        inst: &Instruction,
        next: Option<Instruction>,
    ) -> (r: Result<Effect, Trap>)
        ensures
            agrees(r, old(self)@, final(self)@, type_inst(p, old(self)@, c, *inst, next)),
    {
        match inst.op0 {
            Opcode::PACK_VARIADIC => self.op_pack_variadic(c, inst),
            Opcode::JUMP => Ok(Effect::Next(inst.d)),
            Opcode::JUMP_IF => {
                let b = self.truth(p, c, inst.s0)?;
                Ok(Effect::Next(if b { inst.d } else { 0 }))
            },
            Opcode::JUMP_IF_NOT => {
                let b = self.truth(p, c, inst.s0)?;
                Ok(Effect::Next(if !b { inst.d } else { 0 }))
            },
            Opcode::SWITCH => {
                let b = self.switched(p, c, inst)?;
                Ok(Effect::Next(if b { inst.d } else { 0 }))
            },
            Opcode::IMPORT => {
                let b = self.imported(p, c, inst.s0)?;
                Ok(Effect::Next(if b { inst.d } else { 0 }))
            },
            Opcode::LOAD_INIT_FUNC => self.op_load_init_func(p, c, inst),
            Opcode::BIND_METHOD => self.op_bind_method(p, c, inst),
            Opcode::BIND_I_METHOD => self.op_bind_i_method(p, c, inst),
            Opcode::CAST => self.op_cast(p, c, inst),
            Opcode::TYPE_ASSERT => self.op_type_assert(p, c, inst, next),
            Opcode::TYPE => self.op_type(p, c, inst),
            Opcode::ASSERT => {
                let b = self.truth(p, c, inst.s0)?;
                if b {
                    Ok(Effect::Next(0))
                } else {
                    Err(Trap::Panic(RuntimeError::NotTrue))
                }
            },
            _ => Err(Trap::Fault),
        }
    }
}

} // verus!

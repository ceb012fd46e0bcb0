//! The instructions that read and write places.
use vstd::prelude::*;
use crate::bytecode::{Bytecode, Instruction, Opcode};
use crate::content::{copy_semantic, slice_seq, whole, whole_slice};
use crate::dict::map_get;
use crate::effect::{done, put, put_new, settle, Effect, Outcome};
use crate::embed::{get_struct_and_index, spec_get_struct_and_index};
use crate::machine::{agrees, next_region, region_cell, Ctx, UpValueState, Vm, VmView};
use crate::num::{
    binary_op, lemma_wrap_in_range, step_word, word_op, word_step, wrap, wrap_to, Calc,
};
use crate::place::{
    array_place, as_index, as_non_nil_pointer, field_place, find_array_place, find_field_place,
    find_member_place, find_pointee, find_slice_place, get_index, get_non_nil_pointer, load,
    member_place, pointee, slice_place, store, Place,
};
use crate::slices::{get_slice_array, slice_array};
use crate::trap::{RuntimeError, Trap};
use crate::value::{IntKind, OpIndex, PackageKey, PointerObj, Value, ValueType};

verus! {

/// The package that a value is.
pub open spec fn as_package(v: Value) -> Result<PackageKey, Trap> {
    match v {
        Value::Package(k) => Ok(k),
        _ => Err(Trap::Fault),
    }
}

/// Takes a value as a package.
pub fn get_package(v: Value) -> (r: Result<PackageKey, Trap>)
    ensures
        r == as_package(v),
{
    match v {
        Value::Package(k) => Ok(k),
        _ => Err(Trap::Fault),
    }
}

/// Two strings joined in new cells.
pub open spec fn concat(w: VmView, a: Value, b: Value) -> Result<(VmView, Value), Trap> {
    match (a, b) {
        (Value::Str(x), Value::Str(y)) => match (slice_seq(w.cells, x), slice_seq(w.cells, y)) {
            (Ok(s), Ok(t)) => Ok(
                (
                    w.with_cells(w.cells + (s + t)),
                    Value::Str(whole(next_region(w.cells, s.len() + t.len()))),
                ),
            ),
            _ => Err(Trap::Fault),
        },
        _ => Err(Trap::Fault),
    }
}

/// A calculation with two operands of type `t`: the sum of strings is the two
/// joined, a step looks at the first operand only, and the rest is arithmetic
/// on words.
pub open spec fn calculate(w: VmView, op: Opcode, t: ValueType, a: Value, b: Value) -> Result<
    (VmView, Calc),
    Trap,
> {
    if t == ValueType::String && op == Opcode::ADD {
        match concat(w, a, b) {
            Ok((w1, v)) => Ok((w1, Calc::Done(v))),
            Err(e) => Err(e),
        }
    } else {
        let r = if op == Opcode::INC {
            word_step(true, t, a)
        } else if op == Opcode::DEC {
            word_step(false, t, a)
        } else {
            word_op(op, t, a, b)
        };
        match r {
            Some(x) => Ok((w, x)),
            None => Err(Trap::Fault),
        }
    }
}

/// Two values, or the first early end.
pub open spec fn pair<A, B>(a: Result<A, Trap>, b: Result<B, Trap>) -> Result<(A, B), Trap> {
    match a {
        Ok(x) => match b {
            Ok(y) => Ok((x, y)),
            Err(e) => Err(e),
        },
        Err(e) => Err(e),
    }
}

/// A copy of the operand `src` goes into a place; with an operation, what the
/// operation makes of the old content and the operand.
pub open spec fn assign(
    p: &Bytecode,
    w: VmView,
    c: Ctx,
    inst: Instruction,
    place: Place,
    old: Result<Value, Trap>,
    src: OpIndex,
) -> Outcome {
    match w.read(c, p.consts@, src) {
        Err(e) => Err(e),
        Ok(x) => if inst.op1 == Opcode::VOID {
            match copy_semantic(w, x) {
                Ok((w1, v)) => done(store(p, w1, place, v)),
                Err(e) => Err(e),
            }
        } else {
            match old {
                Ok(a) => settle(p, Ok(place), calculate(w, inst.op1, inst.t0, a, x)),
                Err(e) => Err(Trap::Fault),
            }
        },
    }
}

/// A copy of an operand goes into a place.
pub open spec fn store_at(
    p: &Bytecode,
    w: VmView,
    c: Ctx,
    inst: Instruction,
    place: Result<Place, Trap>,
    src: OpIndex,
) -> Outcome {
    match place {
        Ok(pl) => assign(p, w, c, inst, pl, load(p, w, pl), src),
        Err(e) => Err(e),
    }
}

/// The content of a place goes into the slot of the result.
pub open spec fn load_at(
    p: &Bytecode,
    w: VmView,
    c: Ctx,
    inst: Instruction,
    place: Result<Place, Trap>,
) -> Outcome {
    match place {
        Ok(pl) => put(w, c, inst.d, load(p, w, pl)),
        Err(e) => Err(e),
    }
}

impl Vm {
    fn concat(&mut self, a: Value, b: Value) -> (r: Result<Value, Trap>)
        ensures
            agrees(r, old(self)@, final(self)@, concat(old(self)@, a, b)),
    {
        match (a, b) {
            (Value::Str(x), Value::Str(y)) => {
                let (mut s, mut t) = match (self.get_slice(x), self.get_slice(y)) {
                    (Ok(s), Ok(t)) => (s, t),
                    _ => return Err(Trap::Fault),
                };
                let ghost all = s@ + t@;
                s.append(&mut t);
                assert(s@ =~= all);
                let r = self.new_cells(&s);
                Ok(Value::Str(whole_slice(r)))
            },
            _ => Err(Trap::Fault),
        }
    }

    /// Calculates with two operands of type `t`.
    pub fn calculate(&mut self, op: Opcode, t: ValueType, a: Value, b: Value) -> (r: Result<
        Calc,
        Trap,
    >)
        ensures
            agrees(r, old(self)@, final(self)@, calculate(old(self)@, op, t, a, b)),
            r matches Err(e) ==> e == Trap::Fault,
    {
        if t == ValueType::String && op == Opcode::ADD {
            match self.concat(a, b) {
                Ok(v) => Ok(Calc::Done(v)),
                Err(_) => Err(Trap::Fault),
            }
        } else {
            let r = if op == Opcode::INC {
                step_word(true, t, a)
            } else if op == Opcode::DEC {
                step_word(false, t, a)
            } else {
                binary_op(op, t, a, b)
            };
            match r {
                Some(x) => Ok(x),
                None => Err(Trap::Fault),
            }
        }
    }

    /// Stores an operand, or what an operation makes of it.
    pub fn assign(
        &mut self,
        p: &Bytecode,
        c: Ctx,
        inst: &Instruction,
        place: Place,
        old_value: Result<Value, Trap>,
        src: OpIndex,
    ) -> (r: Result<Effect, Trap>)
        ensures
            agrees(
                r,
                old(self)@,
                final(self)@,
                assign(p, old(self)@, c, *inst, place, old_value, src),
            ),
    {
        let x = self.read(c, p, src)?;
        if inst.op1 == Opcode::VOID {
            let v = self.copy_semantic(x)?;
            self.store(p, place, v)?;
            Ok(Effect::Next(0))
        } else {
            match old_value {
                Ok(a) => {
                    let r = self.calculate(inst.op1, inst.t0, a, x)?;
                    self.settle(p, place, r)
                },
                Err(_) => Err(Trap::Fault),
            }
        }
    }

    fn store_at(
        &mut self,
        p: &Bytecode,
        c: Ctx,
        inst: &Instruction,
        place: Result<Place, Trap>,
        src: OpIndex,
    ) -> (r: Result<Effect, Trap>)
        ensures
            agrees(
                r,
                old(self)@,
                final(self)@,
                store_at(p, old(self)@, c, *inst, place, src),
            ),
    {
        let pl = place?;
        let old_value = self.load(p, pl);
        self.assign(p, c, inst, pl, old_value, src)
    }

    fn load_at(&mut self, p: &Bytecode, c: Ctx, inst: &Instruction, place: Result<Place, Trap>) -> (r:
        Result<Effect, Trap>)
        ensures
            agrees(r, old(self)@, final(self)@, load_at(p, old(self)@, c, *inst, place)),
    {
        let pl = place?;
        let v = self.load(p, pl)?;
        self.put(c, inst.d, v)
    }
}

/// The element that a slice and an index stand for.
pub open spec fn slice_at(w: VmView, p: &Bytecode, c: Ctx, s: OpIndex, i: OpIndex) -> Result<
    Place,
    Trap,
> {
    match pair(w.read(c, p.consts@, s), w.read(c, p.consts@, i)) {
        Ok((v, x)) => match as_index(x) {
            Ok(n) => slice_place(v, n),
            Err(e) => Err(e),
        },
        Err(e) => Err(e),
    }
}

/// The element that an array and an index stand for.
pub open spec fn array_at(w: VmView, p: &Bytecode, c: Ctx, s: OpIndex, i: OpIndex) -> Result<
    Place,
    Trap,
> {
    match pair(w.read(c, p.consts@, s), w.read(c, p.consts@, i)) {
        Ok((v, x)) => match as_index(x) {
            Ok(n) => array_place(v, n),
            Err(e) => Err(e),
        },
        Err(e) => Err(e),
    }
}

/// The field that a struct and a number stand for.
pub open spec fn field_at(w: VmView, p: &Bytecode, c: Ctx, s: OpIndex, i: OpIndex) -> Result<
    Place,
    Trap,
> {
    match w.read(c, p.consts@, s) {
        Ok(v) => field_place(v, i),
        Err(e) => Err(e),
    }
}

/// The struct and the field that a path of embedded fields leads to.
pub open spec fn embedded_target(w: VmView, p: &Bytecode, c: Ctx, s: OpIndex, i: OpIndex) -> Result<
    (Value, OpIndex),
    Trap,
> {
    if 0 <= i < p.indices@.len() {
        match w.read(c, p.consts@, s) {
            Ok(v) => if p.indices@[i as int]@.len() == 0 {
                Err(Trap::Fault)
            } else {
                let (s, k) = spec_get_struct_and_index(p, w, v, p.indices@[i as int]@);
                match s {
                    Ok(x) => Ok((x, k)),
                    Err(e) => Err(e),
                }
            },
            Err(e) => Err(e),
        }
    } else {
        Err(Trap::Fault)
    }
}

/// The field that a path of embedded fields leads to.
pub open spec fn embedded_at(w: VmView, p: &Bytecode, c: Ctx, s: OpIndex, i: OpIndex) -> Result<
    Place,
    Trap,
> {
    match embedded_target(w, p, c, s, i) {
        Ok((v, k)) => field_place(v, k),
        Err(e) => Err(e),
    }
}

/// The member that a package and a number stand for.
pub open spec fn member_at(w: VmView, p: &Bytecode, c: Ctx, s: OpIndex, i: OpIndex) -> Result<
    Place,
    Trap,
> {
    match w.read(c, p.consts@, s) {
        Ok(v) => match as_package(v) {
            Ok(k) => member_place(p, k, i),
            Err(e) => Err(e),
        },
        Err(e) => Err(e),
    }
}

/// The place that a pointer operand points to.
pub open spec fn pointee_at(w: VmView, p: &Bytecode, c: Ctx, s: OpIndex) -> Result<Place, Trap> {
    match w.read(c, p.consts@, s) {
        Ok(v) => match as_non_nil_pointer(v) {
            Ok(ptr) => pointee(p, ptr),
            Err(e) => Err(e),
        },
        Err(e) => Err(e),
    }
}

/// The captured variable `i` of the running function.
pub open spec fn upvalue_id(w: VmView, c: Ctx, i: OpIndex) -> Result<usize, Trap> {
    match c.uvs {
        Some(r) => match region_cell(r, i as int) {
            Ok(a) => match w.cell(a as int) {
                Ok(Value::Pointer(PointerObj::UpVal(id))) => Ok(id),
                _ => Err(Trap::Fault),
            },
            Err(e) => Err(e),
        },
        None => Err(Trap::Fault),
    }
}

/// The captured variable `i` of the running function as a place.
pub open spec fn upvalue_at(w: VmView, c: Ctx, i: OpIndex) -> Result<Place, Trap> {
    match upvalue_id(w, c, i) {
        Ok(id) => Ok(Place::Up(id)),
        Err(e) => Err(e),
    }
}

impl Vm {
    fn slice_at(&self, p: &Bytecode, c: Ctx, s: OpIndex, i: OpIndex) -> (r: Result<Place, Trap>)
        ensures
            r == slice_at(self@, p, c, s, i),
    {
        let v = self.read(c, p, s)?;
        let x = self.read(c, p, i)?;
        find_slice_place(v, get_index(x)?)
    }

    fn array_at(&self, p: &Bytecode, c: Ctx, s: OpIndex, i: OpIndex) -> (r: Result<Place, Trap>)
        ensures
            r == array_at(self@, p, c, s, i),
    {
        let v = self.read(c, p, s)?;
        let x = self.read(c, p, i)?;
        find_array_place(v, get_index(x)?)
    }

    fn field_at(&self, p: &Bytecode, c: Ctx, s: OpIndex, i: OpIndex) -> (r: Result<Place, Trap>)
        ensures
            r == field_at(self@, p, c, s, i),
    {
        let v = self.read(c, p, s)?;
        find_field_place(v, i)
    }

    fn embedded_target(&self, p: &Bytecode, c: Ctx, s: OpIndex, i: OpIndex) -> (r: Result<
        (Value, OpIndex),
        Trap,
    >)
        ensures
            r == embedded_target(self@, p, c, s, i),
    {
        if i < 0 || i as usize >= p.indices.len() {
            return Err(Trap::Fault);
        }
        let v = self.read(c, p, s)?;
        let path = &p.indices[i as usize];
        if path.len() == 0 {
            return Err(Trap::Fault);
        }
        let (s, k) = get_struct_and_index(v, path, self, p);
        Ok((s?, k))
    }

    fn embedded_at(&self, p: &Bytecode, c: Ctx, s: OpIndex, i: OpIndex) -> (r: Result<Place, Trap>)
        ensures
            r == embedded_at(self@, p, c, s, i),
    {
        let (v, k) = self.embedded_target(p, c, s, i)?;
        find_field_place(v, k)
    }

    fn member_at(&self, p: &Bytecode, c: Ctx, s: OpIndex, i: OpIndex) -> (r: Result<Place, Trap>)
        ensures
            r == member_at(self@, p, c, s, i),
    {
        let v = self.read(c, p, s)?;
        let k: PackageKey = get_package(v)?;
        find_member_place(p, k, i)
    }

    fn pointee_at(&self, p: &Bytecode, c: Ctx, s: OpIndex) -> (r: Result<Place, Trap>)
        ensures
            r == pointee_at(self@, p, c, s),
    {
        let v = self.read(c, p, s)?;
        let ptr = get_non_nil_pointer(v)?;
        find_pointee(p, ptr)
    }

    fn upvalue_id(&self, c: Ctx, i: OpIndex) -> (r: Result<usize, Trap>)
        ensures
            r == upvalue_id(self@, c, i),
    {
        match c.uvs {
            Some(r) => {
                if i < 0 {
                    return Err(Trap::Fault);
                }
                let a: usize = crate::machine::cell_of(r, i as usize)?;
                match self.get_cell(a)? {
                    Value::Pointer(PointerObj::UpVal(id)) => Ok(id),
                    _ => Err(Trap::Fault),
                }
            },
            None => Err(Trap::Fault),
        }
    }

    fn upvalue_at(&self, c: Ctx, i: OpIndex) -> (r: Result<Place, Trap>)
        ensures
            r == upvalue_at(self@, c, i),
    {
        Ok(Place::Up(self.upvalue_id(c, i)?))
    }
}

/// A copy of the operand.
pub open spec fn duplicate(p: &Bytecode, w: VmView, c: Ctx, inst: Instruction) -> Outcome {
    match w.read(c, p.consts@, inst.s0) {
        Ok(v) => put_new(c, inst.d, copy_semantic(w, v)),
        Err(e) => Err(e),
    }
}

/// What a map operand holds for a key; a nil map holds nothing.
pub open spec fn lookup(p: &Bytecode, w: VmView, map: Value, key: Value) -> Result<
    Option<Value>,
    Trap,
> {
    match map {
        Value::GoMap(m) => map_get(p, w, m, key),
        Value::Nil(_) => Ok(None),
        _ => Err(Trap::Fault),
    }
}

/// The value that a map holds for a key, or else a copy of a zero value; if
/// asked for, also whether the map held one.
pub open spec fn load_map(
    p: &Bytecode,
    w: VmView,
    c: Ctx,
    inst: Instruction,
    ex: Instruction,
) -> Outcome {
    match pair(w.read(c, p.consts@, inst.s0), w.read(c, p.consts@, inst.s1)) {
        Err(e) => Err(e),
        Ok((map, key)) => {
            let found = match lookup(p, w, map, key) {
                Ok(Some(v)) => Ok((w, v)),
                Ok(None) => match w.read(c, p.consts@, ex.s0) {
                    Ok(z) => copy_semantic(w, z),
                    Err(e) => Err(e),
                },
                Err(e) => Err(e),
            };
            let ok = lookup(p, w, map, key) matches Ok(Some(_));
            match found {
                Ok((w1, v)) => match w1.write(c, inst.d, v) {
                    Ok(w2) => if inst.t1 == ValueType::FlagB {
                        done(w2.write(c, ex.d, Value::Bool(ok)))
                    } else {
                        done(Ok(w2))
                    },
                    Err(e) => Err(e),
                },
                Err(e) => Err(e),
            }
        },
    }
}

/// A copy of an operand becomes the value for a key.
pub open spec fn store_map(
    p: &Bytecode,
    w: VmView,
    c: Ctx,
    inst: Instruction,
    ex: Instruction,
) -> Outcome {
    match w.read(c, p.consts@, inst.d) {
        Err(e) => Err(e),
        Ok(Value::Nil(_)) => Err(Trap::Panic(RuntimeError::NilAccess)),
        Ok(Value::GoMap(m)) => match w.read(c, p.consts@, inst.s0) {
            Err(e) => Err(e),
            Ok(key) => {
                let old = match map_get(p, w, m, key) {
                    Ok(Some(v)) => Ok(v),
                    Ok(None) => w.read(c, p.consts@, ex.s0),
                    Err(e) => Err(e),
                };
                assign(p, w, c, inst, Place::Entry(m, key), old, inst.s1)
            },
        },
        Ok(_) => Err(Trap::Fault),
    }
}

/// A pointer to a new variable that holds the operand.
pub open spec fn ref_value(p: &Bytecode, w: VmView, c: Ctx, inst: Instruction) -> Outcome {
    match w.read(c, p.consts@, inst.s0) {
        Ok(v) => put(
            w.with_new_upval(UpValueState::Closed(v)),
            c,
            inst.d,
            Ok(Value::Pointer(PointerObj::UpVal(w.upvals.len() as usize))),
        ),
        Err(e) => Err(e),
    }
}

/// A pointer to a captured variable.
pub open spec fn ref_upvalue(w: VmView, c: Ctx, inst: Instruction) -> Outcome {
    match upvalue_id(w, c, inst.s0) {
        Ok(id) => put(w, c, inst.d, Ok(Value::Pointer(PointerObj::UpVal(id)))),
        Err(e) => Err(e),
    }
}

/// A pointer to an element of an array or of a slice. Whether there is such an
/// element shows when the pointer is used. The number of the element is kept in
/// 32 bits.
pub open spec fn member_pointer(v: Value, t: ValueType, n: int) -> Result<Value, Trap> {
    let s = match t {
        ValueType::Array => slice_array(v, 0, -1),
        ValueType::Slice => Ok(v),
        _ => Err(Trap::Fault),
    };
    match s {
        Ok(Value::Slice(r)) => Ok(
            Value::Pointer(PointerObj::SliceMember(r, wrap(IntKind::Int32, n) as i32)),
        ),
        Ok(Value::Nil(_)) => Err(Trap::Panic(RuntimeError::NilAccess)),
        Ok(_) => Err(Trap::Fault),
        Err(e) => Err(e),
    }
}

/// A pointer to an element.
pub open spec fn ref_slice_member(p: &Bytecode, w: VmView, c: Ctx, inst: Instruction) -> Outcome {
    match pair(w.read(c, p.consts@, inst.s0), w.read(c, p.consts@, inst.s1)) {
        Ok((v, x)) => match as_index(x) {
            Ok(n) => put(w, c, inst.d, member_pointer(v, inst.t0, n)),
            Err(e) => Err(e),
        },
        Err(e) => Err(e),
    }
}

/// A pointer to a field of a struct.
pub open spec fn field_pointer(v: Value, i: OpIndex) -> Result<Value, Trap> {
    match v {
        Value::Struct(r) => Ok(Value::Pointer(PointerObj::StructField(r, i))),
        _ => Err(Trap::Fault),
    }
}

/// A pointer to a field.
pub open spec fn ref_struct_field(p: &Bytecode, w: VmView, c: Ctx, inst: Instruction) -> Outcome {
    match w.read(c, p.consts@, inst.s0) {
        Ok(v) => put(w, c, inst.d, field_pointer(v, inst.s1)),
        Err(e) => Err(e),
    }
}

/// A pointer to an embedded field.
pub open spec fn ref_embedded(p: &Bytecode, w: VmView, c: Ctx, inst: Instruction) -> Outcome {
    match embedded_target(w, p, c, inst.s0, inst.s1) {
        Ok((v, k)) => put(w, c, inst.d, field_pointer(v, k)),
        Err(e) => Err(e),
    }
}

/// A pointer to a member of a package.
pub open spec fn ref_pkg_member(p: &Bytecode, w: VmView, c: Ctx, inst: Instruction) -> Outcome {
    match w.read(c, p.consts@, inst.s0) {
        Ok(v) => match as_package(v) {
            Ok(k) => put(w, c, inst.d, Ok(Value::Pointer(PointerObj::PkgMember(k, inst.s1)))),
            Err(e) => Err(e),
        },
        Err(e) => Err(e),
    }
}

/// What an instruction that reads or writes a place does.
pub open spec fn place_inst(
    p: &Bytecode,
    w: VmView,
    c: Ctx,
    inst: Instruction,
    ex: Instruction,
) -> Outcome {
    match inst.op0 {
        Opcode::DUPLICATE => duplicate(p, w, c, inst),
        Opcode::LOAD_SLICE => load_at(p, w, c, inst, slice_at(w, p, c, inst.s0, inst.s1)),
        Opcode::STORE_SLICE => store_at(
            p,
            w,
            c,
            inst,
            slice_at(w, p, c, inst.d, inst.s0),
            inst.s1,
        ),
        Opcode::LOAD_ARRAY => load_at(p, w, c, inst, array_at(w, p, c, inst.s0, inst.s1)),
        Opcode::STORE_ARRAY => store_at(
            p,
            w,
            c,
            inst,
            array_at(w, p, c, inst.d, inst.s0),
            inst.s1,
        ),
        Opcode::LOAD_MAP => load_map(p, w, c, inst, ex),
        Opcode::STORE_MAP => store_map(p, w, c, inst, ex),
        Opcode::LOAD_STRUCT => load_at(p, w, c, inst, field_at(w, p, c, inst.s0, inst.s1)),
        Opcode::STORE_STRUCT => store_at(
            p,
            w,
            c,
            inst,
            field_at(w, p, c, inst.d, inst.s0),
            inst.s1,
        ),
        Opcode::LOAD_EMBEDDED => load_at(p, w, c, inst, embedded_at(w, p, c, inst.s0, inst.s1)),
        Opcode::STORE_EMBEDDED => store_at(
            p,
            w,
            c,
            inst,
            embedded_at(w, p, c, inst.d, inst.s0),
            inst.s1,
        ),
        Opcode::LOAD_PKG => load_at(p, w, c, inst, member_at(w, p, c, inst.s0, inst.s1)),
        Opcode::STORE_PKG => store_at(
            p,
            w,
            c,
            inst,
            member_at(w, p, c, inst.d, inst.s0),
            inst.s1,
        ),
        Opcode::LOAD_POINTER => load_at(p, w, c, inst, pointee_at(w, p, c, inst.s0)),
        Opcode::STORE_POINTER => store_at(
            p,
            w,
            c,
            inst,
            pointee_at(w, p, c, inst.d),
            inst.s0,
        ),
        Opcode::LOAD_UP_VALUE => load_at(p, w, c, inst, upvalue_at(w, c, inst.s0)),
        Opcode::STORE_UP_VALUE => store_at(p, w, c, inst, upvalue_at(w, c, inst.d), inst.s0),
        Opcode::REF => ref_value(p, w, c, inst),
        Opcode::REF_UPVALUE => ref_upvalue(w, c, inst),
        Opcode::REF_SLICE_MEMBER => ref_slice_member(p, w, c, inst),
        Opcode::REF_STRUCT_FIELD => ref_struct_field(p, w, c, inst),
        Opcode::REF_EMBEDDED => ref_embedded(p, w, c, inst),
        Opcode::REF_PKG_MEMBER => ref_pkg_member(p, w, c, inst),
        _ => Err(Trap::Fault),
    }
}

fn get_member_pointer(v: Value, t: ValueType, n: i128) -> (r: Result<Value, Trap>)
    requires
        -0x8000_0000_0000_0000 <= n,
    ensures
        r == member_pointer(v, t, n as int),
{
    let s = match t {
        ValueType::Array => get_slice_array(v, 0, -1)?,
        ValueType::Slice => v,
        _ => return Err(Trap::Fault),
    };
    match s {
        Value::Slice(r) => {
            let k: i128 = wrap_to(IntKind::Int32, n);
            proof {
                lemma_wrap_in_range(IntKind::Int32, n as int);
            }
            Ok(Value::Pointer(PointerObj::SliceMember(r, k as i32)))
        },
        Value::Nil(_) => Err(Trap::Panic(RuntimeError::NilAccess)),
        _ => Err(Trap::Fault),
    }
}

fn get_field_pointer(v: Value, i: OpIndex) -> (r: Result<Value, Trap>)
    ensures
        r == field_pointer(v, i),
{
    match v {
        Value::Struct(a) => Ok(Value::Pointer(PointerObj::StructField(a, i))),
        _ => Err(Trap::Fault),
    }
}

impl Vm {
    fn op_duplicate(&mut self, p: &Bytecode, c: Ctx, inst: &Instruction) -> (r: Result<Effect, Trap>)
        ensures
            agrees(r, old(self)@, final(self)@, duplicate(p, old(self)@, c, *inst)),
    {
        let v = self.read(c, p, inst.s0)?;
        let x = self.copy_semantic(v)?;
        self.write(c, inst.d, x)?;
        Ok(Effect::Next(0))
    }

    fn lookup(&self, p: &Bytecode, map: Value, key: Value) -> (r: Result<Option<Value>, Trap>)
        ensures
            r == lookup(p, self@, map, key),
    {
        match map {
            Value::GoMap(m) => self.map_get(p, m, key),
            Value::Nil(_) => Ok(None),
            _ => Err(Trap::Fault),
        }
    }

    fn op_load_map(&mut self, p: &Bytecode, c: Ctx, inst: &Instruction, ex: &Instruction) -> (r:
        Result<Effect, Trap>)
        ensures
            agrees(r, old(self)@, final(self)@, load_map(p, old(self)@, c, *inst, *ex)),
    {
        let map = self.read(c, p, inst.s0)?;
        let key = self.read(c, p, inst.s1)?;
        let val = self.lookup(p, map, key)?;
        let (v, ok) = match val {
            Some(v) => (v, true),
            None => {
                let z = self.read(c, p, ex.s0)?;
                (self.copy_semantic(z)?, false)
            },
        };
        self.write(c, inst.d, v)?;
        if inst.t1 == ValueType::FlagB {
            self.write(c, ex.d, Value::Bool(ok))?;
        }
        Ok(Effect::Next(0))
    }

    fn op_store_map(&mut self, p: &Bytecode, c: Ctx, inst: &Instruction, ex: &Instruction) -> (r:
        Result<Effect, Trap>)
        ensures
            agrees(r, old(self)@, final(self)@, store_map(p, old(self)@, c, *inst, *ex)),
    {
        let dest = self.read(c, p, inst.d)?;
        match dest {
            Value::Nil(_) => Err(Trap::Panic(RuntimeError::NilAccess)),
            Value::GoMap(m) => {
                let key = self.read(c, p, inst.s0)?;
                let old_value = match self.map_get(p, m, key) {
                    Ok(Some(v)) => Ok(v),
                    Ok(None) => self.read(c, p, ex.s0),
                    Err(e) => Err(e),
                };
                self.assign(p, c, inst, Place::Entry(m, key), old_value, inst.s1)
            },
            _ => Err(Trap::Fault),
        }
    }

    fn op_ref(&mut self, p: &Bytecode, c: Ctx, inst: &Instruction) -> (r: Result<Effect, Trap>)
        ensures
            agrees(r, old(self)@, final(self)@, ref_value(p, old(self)@, c, *inst)),
    {
        let v = self.read(c, p, inst.s0)?;
        let id: usize = self.new_upval(UpValueState::Closed(v));
        self.put(c, inst.d, Value::Pointer(PointerObj::UpVal(id)))
    }

    fn op_ref_slice_member(&mut self, p: &Bytecode, c: Ctx, inst: &Instruction) -> (r: Result<
        Effect,
        Trap,
    >)
        ensures
            agrees(r, old(self)@, final(self)@, ref_slice_member(p, old(self)@, c, *inst)),
    {
        let v = self.read(c, p, inst.s0)?;
        let x = self.read(c, p, inst.s1)?;
        let n: i128 = get_index(x)?;
        let ptr = get_member_pointer(v, inst.t0, n)?;
        self.put(c, inst.d, ptr)
    }

    /// Runs an instruction that reads or writes a place.
    pub fn run_place_inst(&mut self, p: &Bytecode, c: Ctx, inst: &Instruction, ex: &Instruction) -> (r:
        Result<Effect, Trap>)
        ensures
            agrees(r, old(self)@, final(self)@, place_inst(p, old(self)@, c, *inst, *ex)),
    {
        match inst.op0 {
            Opcode::DUPLICATE => self.op_duplicate(p, c, inst),
            Opcode::LOAD_SLICE => {
                let place = self.slice_at(p, c, inst.s0, inst.s1);
                self.load_at(p, c, inst, place)
            },
            Opcode::STORE_SLICE => {
                let place = self.slice_at(p, c, inst.d, inst.s0);
                self.store_at(p, c, inst, place, inst.s1)
            },
            Opcode::LOAD_ARRAY => {
                let place = self.array_at(p, c, inst.s0, inst.s1);
                self.load_at(p, c, inst, place)
            },
            Opcode::STORE_ARRAY => {
                let place = self.array_at(p, c, inst.d, inst.s0);
                self.store_at(p, c, inst, place, inst.s1)
            },
            Opcode::LOAD_MAP => self.op_load_map(p, c, inst, ex),
            Opcode::STORE_MAP => self.op_store_map(p, c, inst, ex),
            Opcode::LOAD_STRUCT => {
                let place = self.field_at(p, c, inst.s0, inst.s1);
                self.load_at(p, c, inst, place)
            },
            Opcode::STORE_STRUCT => {
                let place = self.field_at(p, c, inst.d, inst.s0);
                self.store_at(p, c, inst, place, inst.s1)
            },
            Opcode::LOAD_EMBEDDED => {
                let place = self.embedded_at(p, c, inst.s0, inst.s1);
                self.load_at(p, c, inst, place)
            },
            Opcode::STORE_EMBEDDED => {
                let place = self.embedded_at(p, c, inst.d, inst.s0);
                self.store_at(p, c, inst, place, inst.s1)
            },
            Opcode::LOAD_PKG => {
                let place = self.member_at(p, c, inst.s0, inst.s1);
                self.load_at(p, c, inst, place)
            },
            Opcode::STORE_PKG => {
                let place = self.member_at(p, c, inst.d, inst.s0);
                self.store_at(p, c, inst, place, inst.s1)
            },
            Opcode::LOAD_POINTER => {
                let place = self.pointee_at(p, c, inst.s0);
                self.load_at(p, c, inst, place)
            },
            Opcode::STORE_POINTER => {
                let place = self.pointee_at(p, c, inst.d);
                self.store_at(p, c, inst, place, inst.s0)
            },
            Opcode::LOAD_UP_VALUE => {
                let place = self.upvalue_at(c, inst.s0);
                self.load_at(p, c, inst, place)
            },
            Opcode::STORE_UP_VALUE => {
                let place = self.upvalue_at(c, inst.d);
                self.store_at(p, c, inst, place, inst.s0)
            },
            Opcode::REF => self.op_ref(p, c, inst),
            Opcode::REF_UPVALUE => {
                let id: usize = self.upvalue_id(c, inst.s0)?;
                self.put(c, inst.d, Value::Pointer(PointerObj::UpVal(id)))
            },
            Opcode::REF_SLICE_MEMBER => self.op_ref_slice_member(p, c, inst),
            Opcode::REF_STRUCT_FIELD => {
                let v = self.read(c, p, inst.s0)?;
                let ptr = get_field_pointer(v, inst.s1)?;
                self.put(c, inst.d, ptr)
            },
            Opcode::REF_EMBEDDED => {
                let (v, k) = self.embedded_target(p, c, inst.s0, inst.s1)?;
                let ptr = get_field_pointer(v, k)?;
                self.put(c, inst.d, ptr)
            },
            Opcode::REF_PKG_MEMBER => {
                let v = self.read(c, p, inst.s0)?;
                let k: PackageKey = get_package(v)?;
                self.put(c, inst.d, Value::Pointer(PointerObj::PkgMember(k, inst.s1)))
            },
            _ => Err(Trap::Fault),
        }
    }
}

} // verus!

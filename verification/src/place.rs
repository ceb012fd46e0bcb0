//! The places that a program can read and write, and how operands lead to them.
use vstd::prelude::*;
use crate::bytecode::Bytecode;
use crate::dict::{map_get, map_insert};
use crate::machine::{cell_of, region_cell, Vm, VmView};
use crate::num::{fits, in_range};
use crate::trap::{RuntimeError, Trap};
use crate::value::{OpIndex, PackageKey, PointerObj, Region, SliceRef, Value};

verus! {

/// A place: a stack slot, a cell, an entry of a map, or a captured variable.
#[derive(Clone, Copy, PartialEq, Eq, Structural, Debug)]
pub enum Place {
    Slot(usize, OpIndex),
    Cell(usize),
    Entry(usize, Value),
    Up(usize),
}

/// What a place holds.
pub open spec fn load(p: &Bytecode, w: VmView, place: Place) -> Result<Value, Trap> {
    match place {
        Place::Slot(s, i) => w.slot(s, i),
        Place::Cell(a) => w.cell(a as int),
        Place::Entry(m, k) => match map_get(p, w, m, k) {
            Ok(Some(v)) => Ok(v),
            Ok(None) => Err(Trap::Fault),
            Err(e) => Err(e),
        },
        Place::Up(id) => w.upvalue(id),
    }
}

/// The tables with another content in a place.
pub open spec fn store(p: &Bytecode, w: VmView, place: Place, v: Value) -> Result<VmView, Trap> {
    match place {
        Place::Slot(s, i) => w.with_slot(s, i, v),
        Place::Cell(a) => w.with_cell(a as int, v),
        Place::Entry(m, k) => map_insert(p, w, m, k, v),
        Place::Up(id) => w.with_upvalue(id, v),
    }
}

/// An integer that counts elements.
pub open spec fn as_index(v: Value) -> Result<int, Trap> {
    match v {
        Value::Int(k, n) => if in_range(k, n as int) {
            Ok(n as int)
        } else {
            Err(Trap::Fault)
        },
        _ => Err(Trap::Fault),
    }
}

/// An integer that counts elements.
pub fn get_index(v: Value) -> (r: Result<i128, Trap>)
    ensures
        match as_index(v) {
            Ok(n) => r == Ok::<i128, Trap>(n as i128) && n as i128 == n
                && -0x8000_0000_0000_0000 <= n <= 0xffff_ffff_ffff_ffff,
            Err(e) => r == Err::<i128, Trap>(e),
        },
{
    match v {
        Value::Int(k, n) => if fits(k, n) {
            Ok(n)
        } else {
            Err(Trap::Fault)
        },
        _ => Err(Trap::Fault),
    }
}

/// The cell of element `i` of a slice.
pub open spec fn slice_elem(s: SliceRef, i: int) -> Result<Place, Trap> {
    if 0 <= i < s.end - s.begin {
        match region_cell(s.array, s.begin + i) {
            Ok(a) => Ok(Place::Cell(a)),
            Err(e) => Err(e),
        }
    } else {
        Err(Trap::Panic(RuntimeError::IndexOutOfRange))
    }
}

/// The cell of element `i` of a slice value, which may be nil.
pub open spec fn slice_place(v: Value, i: int) -> Result<Place, Trap> {
    match v {
        Value::Slice(s) => slice_elem(s, i),
        Value::Nil(_) => Err(Trap::Panic(RuntimeError::NilAccess)),
        _ => Err(Trap::Fault),
    }
}

/// The cell of element `i` of an array value.
pub open spec fn array_place(v: Value, i: int) -> Result<Place, Trap> {
    match v {
        Value::Array(r) => if 0 <= i < r.len {
            match region_cell(r, i) {
                Ok(a) => Ok(Place::Cell(a)),
                Err(e) => Err(e),
            }
        } else {
            Err(Trap::Panic(RuntimeError::IndexOutOfRange))
        },
        _ => Err(Trap::Fault),
    }
}

/// The cell of a field of a struct.
pub open spec fn field_place(v: Value, i: OpIndex) -> Result<Place, Trap> {
    match v {
        Value::Struct(r) => match region_cell(r, i as int) {
            Ok(a) => Ok(Place::Cell(a)),
            Err(e) => Err(e),
        },
        _ => Err(Trap::Fault),
    }
}

/// The cell of a member of a package.
pub open spec fn member_place(p: &Bytecode, k: PackageKey, i: OpIndex) -> Result<Place, Trap> {
    if k < p.packages@.len() {
        match region_cell(p.packages@[k as int].members, i as int) {
            Ok(a) => Ok(Place::Cell(a)),
            Err(e) => Err(e),
        }
    } else {
        Err(Trap::Fault)
    }
}

/// The place that a pointer points to.
pub open spec fn pointee(p: &Bytecode, ptr: PointerObj) -> Result<Place, Trap> {
    match ptr {
        PointerObj::UpVal(id) => Ok(Place::Up(id)),
        PointerObj::SliceMember(s, i) => slice_elem(s, i as int),
        PointerObj::StructField(r, i) => field_place(Value::Struct(r), i),
        PointerObj::PkgMember(k, i) => member_place(p, k, i),
    }
}

/// The pointer that a value is; nil is a mistake of the program.
pub open spec fn as_non_nil_pointer(v: Value) -> Result<PointerObj, Trap> {
    match v {
        Value::Pointer(ptr) => Ok(ptr),
        Value::Nil(_) => Err(Trap::Panic(RuntimeError::NilAccess)),
        _ => Err(Trap::Fault),
    }
}

/// What the place that a pointer points to holds.
pub open spec fn spec_deref_value(p: &Bytecode, w: VmView, v: Value) -> Result<Value, Trap> {
    match as_non_nil_pointer(v) {
        Ok(ptr) => match pointee(p, ptr) {
            Ok(place) => load(p, w, place),
            Err(e) => Err(e),
        },
        Err(e) => Err(e),
    }
}

fn region_place(r: Region, i: OpIndex) -> (res: Result<Place, Trap>)
    ensures
        res == field_place(Value::Struct(r), i),
{
    if i < 0 {
        return Err(Trap::Fault);
    }
    Ok(Place::Cell(cell_of(r, i as usize)?))
}

/// Finds an element of a slice.
pub fn find_slice_elem(s: SliceRef, i: i128) -> (r: Result<Place, Trap>)
    ensures
        r == slice_elem(s, i as int),
{
    if 0 <= i && i < s.end as i128 - s.begin as i128 {
        Ok(Place::Cell(cell_of(s.array, s.begin + i as usize)?))
    } else {
        Err(Trap::Panic(RuntimeError::IndexOutOfRange))
    }
}

/// Finds an element of a slice value.
pub fn find_slice_place(v: Value, i: i128) -> (r: Result<Place, Trap>)
    ensures
        r == slice_place(v, i as int),
{
    match v {
        Value::Slice(s) => find_slice_elem(s, i),
        Value::Nil(_) => Err(Trap::Panic(RuntimeError::NilAccess)),
        _ => Err(Trap::Fault),
    }
}

/// Finds an element of an array value.
pub fn find_array_place(v: Value, i: i128) -> (r: Result<Place, Trap>)
    ensures
        r == array_place(v, i as int),
{
    match v {
        Value::Array(a) => if 0 <= i && i < a.len as i128 {
            Ok(Place::Cell(cell_of(a, i as usize)?))
        } else {
            Err(Trap::Panic(RuntimeError::IndexOutOfRange))
        },
        _ => Err(Trap::Fault),
    }
}

/// Finds a field of a struct.
pub fn find_field_place(v: Value, i: OpIndex) -> (r: Result<Place, Trap>)
    ensures
        r == field_place(v, i),
{
    match v {
        Value::Struct(a) => region_place(a, i),
        _ => Err(Trap::Fault),
    }
}

/// Finds a member of a package.
pub fn find_member_place(p: &Bytecode, k: PackageKey, i: OpIndex) -> (r: Result<Place, Trap>)
    ensures
        r == member_place(p, k, i),
{
    if k < p.packages.len() {
        region_place(p.packages[k].members, i)
    } else {
        Err(Trap::Fault)
    }
}

/// Finds the place that a pointer points to.
pub fn find_pointee(p: &Bytecode, ptr: PointerObj) -> (r: Result<Place, Trap>)
    ensures
        r == pointee(p, ptr),
{
    match ptr {
        PointerObj::UpVal(id) => Ok(Place::Up(id)),
        PointerObj::SliceMember(s, i) => find_slice_elem(s, i as i128),
        PointerObj::StructField(r, i) => region_place(r, i),
        PointerObj::PkgMember(k, i) => find_member_place(p, k, i),
    }
}

/// Takes a value as a pointer that is not nil.
pub fn get_non_nil_pointer(v: Value) -> (r: Result<PointerObj, Trap>)
    ensures
        r == as_non_nil_pointer(v),
{
    match v {
        Value::Pointer(ptr) => Ok(ptr),
        Value::Nil(_) => Err(Trap::Panic(RuntimeError::NilAccess)),
        _ => Err(Trap::Fault),
    }
}

impl Vm {
    /// Reads a place.
    pub fn load(&self, p: &Bytecode, place: Place) -> (r: Result<Value, Trap>)
        ensures
            r == load(p, self@, place),
    {
        match place {
            Place::Slot(s, i) => self.get(s, i),
            Place::Cell(a) => self.get_cell(a),
            Place::Entry(m, k) => match self.map_get(p, m, k)? {
                Some(v) => Ok(v),
                None => Err(Trap::Fault),
            },
            Place::Up(id) => self.get_upvalue(id),
        }
    }

    /// Writes a place.
    pub fn store(&mut self, p: &Bytecode, place: Place, v: Value) -> (r: Result<(), Trap>)
        ensures
            match store(p, old(self)@, place, v) {
                Ok(w) => r == Ok::<(), Trap>(()) && final(self)@ == w,
                Err(e) => r == Err::<(), Trap>(e) && e == Trap::Fault && final(self)@ == old(self)@,
            },
    {
        match place {
            Place::Slot(s, i) => self.set(s, i, v),
            Place::Cell(a) => self.set_cell(a, v),
            Place::Entry(m, k) => self.map_insert(p, m, k, v),
            Place::Up(id) => self.set_upvalue(id, v),
        }
    }
}

/// Reads what a pointer points to.
pub fn deref_value(v: Value, vm: &Vm, p: &Bytecode) -> (r: Result<Value, Trap>)
    ensures
        r == spec_deref_value(p, vm@, v),
{
    let ptr = get_non_nil_pointer(v)?;
    let place = find_pointee(p, ptr)?;
    vm.load(p, place)
}

} // verus!

//! Function values.
use vstd::prelude::*;
use crate::bytecode::{Bytecode, ValueDesc};
use crate::machine::{agrees, next_region, ClosureObj, UpValueState, Vm, VmView};
use crate::trap::Trap;
use crate::value::{void, FunctionKey, PointerObj, Value, ValueType};

verus! {

/// The captured variables that a new function value starts with, from `i` on:
/// a new one for each variable of an enclosing function, and nothing for the
/// function's own, which every call makes anew.
pub open spec fn new_uvs(w: VmView, up_ptrs: Seq<ValueDesc>, i: nat, out: Seq<Value>) -> (
    VmView,
    Seq<Value>,
)
    decreases up_ptrs.len() - i,
{
    if i >= up_ptrs.len() {
        (w, out)
    } else if up_ptrs[i as int].is_local {
        new_uvs(w, up_ptrs, i + 1, out.push(void()))
    } else {
        new_uvs(
            w.with_new_upval(UpValueState::Open(up_ptrs[i as int])),
            up_ptrs,
            i + 1,
            out.push(Value::Pointer(PointerObj::UpVal(w.upvals.len() as usize))),
        )
    }
}

/// A function of the program as a function value, and the tables with its
/// captured variables.
pub open spec fn gos_from_func(
    p: &Bytecode,
    w: VmView,
    func: FunctionKey,
    recv: Option<Value>,
) -> Result<(VmView, ClosureObj), Trap> {
    if func < p.functions@.len() {
        let up_ptrs = p.functions@[func as int].up_ptrs@;
        if up_ptrs.len() > 0 {
            let (w1, vals) = new_uvs(w, up_ptrs, 0, seq![]);
            Ok(
                (
                    w1.with_cells(w1.cells + vals),
                    ClosureObj::Gos {
                        func,
                        uvs: Some(next_region(w1.cells, vals.len())),
                        recv,
                    },
                ),
            )
        } else {
            Ok((w, ClosureObj::Gos { func, uvs: None, recv }))
        }
    } else {
        Err(Trap::Fault)
    }
}

/// The tables with a function value added, and the value.
pub open spec fn new_closure(w: VmView, c: ClosureObj) -> (VmView, Value) {
    (
        VmView { closures: w.closures.push(c), ..w },
        Value::Closure(w.closures.len() as usize),
    )
}

/// A function of the program, bound to a receiver, as a value.
pub open spec fn bound_func(p: &Bytecode, w: VmView, func: FunctionKey, recv: Option<Value>) -> Result<
    (VmView, Value),
    Trap,
> {
    match gos_from_func(p, w, func, recv) {
        Ok((w1, c)) => Ok(new_closure(w1, c)),
        Err(e) => Err(e),
    }
}

impl Vm {
    fn new_uvs(&mut self, up_ptrs: &Vec<ValueDesc>) -> (out: Vec<Value>)
        ensures
            (final(self)@, out@) == new_uvs(old(self)@, up_ptrs@, 0, seq![]),
    {
        let mut out: Vec<Value> = Vec::new();
        let mut i: usize = 0;
        while i < up_ptrs.len()
            invariant
                i <= up_ptrs@.len(),
                new_uvs(old(self)@, up_ptrs@, 0, seq![]) == new_uvs(
                    self@,
                    up_ptrs@,
                    i as nat,
                    out@,
                ),
            decreases up_ptrs@.len() - i,
        {
            if up_ptrs[i].is_local {
                out.push(Value::Nil(ValueType::Void));
            } else {
                let id: usize = self.new_upval(UpValueState::Open(up_ptrs[i]));
                out.push(Value::Pointer(PointerObj::UpVal(id)));
            }
            i = i + 1;
        }
        out
    }

    /// Makes a function value of a function of the program.
    pub fn gos_from_func(&mut self, p: &Bytecode, func: FunctionKey, recv: Option<Value>) -> (r:
        Result<ClosureObj, Trap>)
        ensures
            agrees(r, old(self)@, final(self)@, gos_from_func(p, old(self)@, func, recv)),
    {
        if func >= p.functions.len() {
            return Err(Trap::Fault);
        }
        if p.functions[func].up_ptrs.len() > 0 {
            let vals = self.new_uvs(&p.functions[func].up_ptrs);
            let r = self.new_cells(&vals);
            Ok(ClosureObj::Gos { func, uvs: Some(r), recv })
        } else {
            Ok(ClosureObj::Gos { func, uvs: None, recv })
        }
    }

    /// Adds a function value.
    pub fn add_closure(&mut self, c: ClosureObj) -> (r: Value)
        ensures
            (final(self)@, r) == new_closure(old(self)@, c),
    {
        let id: usize = self.closures.len();
        self.closures.push(c);
        Value::Closure(id)
    }

    /// Binds a function of the program to a receiver.
    pub fn bind_func(&mut self, p: &Bytecode, func: FunctionKey, recv: Option<Value>) -> (r: Result<
        Value,
        Trap,
    >)
        ensures
            agrees(r, old(self)@, final(self)@, bound_func(p, old(self)@, func, recv)),
    {
        let c = self.gos_from_func(p, func, recv)?;
        Ok(self.add_closure(c))
    }

    /// Reads a function value.
    pub fn get_closure(&self, v: Value) -> (r: Result<ClosureObj, Trap>)
        ensures
            r == as_closure(self@, v),
    {
        match v {
            Value::Closure(id) => if id < self.closures.len() {
                Ok(self.closures[id])
            } else {
                Err(Trap::Fault)
            },
            _ => Err(Trap::Fault),
        }
    }
}

/// The function value that a value is.
pub open spec fn as_closure(w: VmView, v: Value) -> Result<ClosureObj, Trap> {
    match v {
        Value::Closure(id) => if id < w.closures.len() {
            Ok(w.closures[id as int])
        } else {
            Err(Trap::Fault)
        },
        _ => Err(Trap::Fault),
    }
}

} // verus!

//! What an instruction leads to, besides the change of the tables.
use vstd::prelude::*;
use crate::bytecode::{Bytecode, Instruction, Opcode};
use crate::machine::{add_offset, agrees, offset, Ctx, Vm, VmView};
use crate::num::{Calc, FloatTask};
use crate::place::{store, Place};
use crate::trap::{RuntimeError, Trap};
use crate::value::{MetadataKey, OpIndex, SliceRef, UnsafePtr, Value, ValueType};

verus! {

/// A value that the host has to come up with.
#[derive(Clone, Copy, PartialEq, Eq, Structural, Debug)]
pub enum Query {
    /// The result of a calculation with fractions.
    Float(FloatTask),
    /// The address that an untyped pointer stands for.
    Address(UnsafePtr),
    /// How many values wait in a channel.
    ChanLen(usize),
}

/// What the machine asks its host for.
#[derive(Clone, Copy, PartialEq, Eq, Structural, Debug)]
pub enum Ask {
    /// Come up with a value.
    Query(Query),
    /// Send a value.
    Send { chan: usize, val: Value },
    /// Receive a value.
    Recv { chan: usize },
    /// Wait forever.
    Block,
    /// Do one of the communications that the fiber lists. If none is ready and
    /// there is a default, do nothing.
    Select { has_default: bool },
    /// Close a channel.
    Close { chan: usize },
    /// Make an object of the host by its name.
    FfiCreate { name: SliceRef },
    /// Call a method of an object of the host with the fiber's arguments.
    FfiCall { ffi: usize, iface: MetadataKey, index: usize, is_async: bool },
}

/// What is to be done with the host's answer.
#[derive(Clone, Copy, PartialEq, Eq, Structural, Debug)]
pub enum Pending {
    /// Store a value of the type.
    Store { place: Place, typ: ValueType },
    /// Store the string of the character with the number.
    Text { place: Place },
    /// Store a word of the type, shifted by so many places.
    Shift { place: Place, op: Opcode, typ: ValueType, val: Value },
    /// There will be none.
    Forever,
    /// Go on if the value was sent.
    Send,
    /// Store what came from the channel.
    Recv { inst: Instruction, chan: usize },
    /// Go on with the communication that was done.
    Select { default_offset: Option<OpIndex> },
    /// Store the new object.
    FfiCreate { inst: Instruction },
    /// Put the results on the stack.
    FfiCall { begin: OpIndex },
}

/// What follows an instruction.
#[derive(Clone, Copy, PartialEq, Eq, Structural, Debug)]
pub enum Effect {
    /// Go on, that many instructions further than the next one.
    Next(OpIndex),
    /// Start a panic.
    Raise(RuntimeError),
    /// Have the host come up with a value, and wait for it.
    Ask(Query, Pending),
}

/// What an instruction does: the tables after it and what follows, or why it
/// could not finish.
pub type Outcome = Result<(VmView, Effect), Trap>;

/// The tables, and then the next instruction.
pub open spec fn done(r: Result<VmView, Trap>) -> Outcome {
    match r {
        Ok(w) => Ok((w, Effect::Next(0))),
        Err(e) => Err(e),
    }
}

/// A result goes into its slot.
pub open spec fn put(w: VmView, c: Ctx, d: OpIndex, r: Result<Value, Trap>) -> Outcome {
    match r {
        Ok(v) => done(w.write(c, d, v)),
        Err(e) => Err(e),
    }
}

/// A result that was made in new tables goes into its slot.
pub open spec fn put_new(c: Ctx, d: OpIndex, r: Result<(VmView, Value), Trap>) -> Outcome {
    match r {
        Ok((w, v)) => done(w.write(c, d, v)),
        Err(e) => Err(e),
    }
}

/// The slot of a result as a place.
pub open spec fn result_place(c: Ctx, d: OpIndex) -> Result<Place, Trap> {
    match offset(c.sb, d) {
        Ok(k) => Ok(Place::Slot(c.stack, k)),
        Err(e) => Err(e),
    }
}

/// The slot of a result as a place.
pub fn get_result_place(c: Ctx, d: OpIndex) -> (r: Result<Place, Trap>)
    ensures
        r == result_place(c, d),
{
    Ok(Place::Slot(c.stack, add_offset(c.sb, d)?))
}

/// The type of the value that the host calculates.
pub open spec fn task_type(t: FloatTask) -> ValueType {
    match t {
        FloatTask::Binary { t, .. } => t,
        FloatTask::Inc { t, .. } => t,
        FloatTask::Dec { t, .. } => t,
        FloatTask::Cast { to, .. } => to,
    }
}

fn get_task_type(t: FloatTask) -> (r: ValueType)
    ensures
        r == task_type(t),
{
    match t {
        FloatTask::Binary { t, .. } => t,
        FloatTask::Inc { t, .. } => t,
        FloatTask::Dec { t, .. } => t,
        FloatTask::Cast { to, .. } => to,
    }
}

/// The outcome of a calculation goes into a place: at once, or when the host
/// has calculated it.
pub open spec fn settle(
    p: &Bytecode,
    place: Result<Place, Trap>,
    r: Result<(VmView, Calc), Trap>,
) -> Outcome {
    match (place, r) {
        (Ok(pl), Ok((w, Calc::Done(v)))) => done(store(p, w, pl, v)),
        (Ok(pl), Ok((w, Calc::Host(t)))) => Ok(
            (
                w,
                Effect::Ask(
                    Query::Float(t),
                    Pending::Store { place: pl, typ: task_type(t) },
                ),
            ),
        ),
        _ => Err(Trap::Fault),
    }
}

impl Vm {
    /// Puts a result into its slot.
    pub fn put(&mut self, c: Ctx, d: OpIndex, v: Value) -> (r: Result<Effect, Trap>)
        ensures
            agrees(r, old(self)@, final(self)@, done(old(self)@.write(c, d, v))),
            r matches Err(e) ==> e == Trap::Fault,
    {
        self.write(c, d, v)?;
        Ok(Effect::Next(0))
    }

    /// Puts the outcome of a calculation into a place.
    pub fn settle(&mut self, p: &Bytecode, place: Place, calc: Calc) -> (r: Result<Effect, Trap>)
        ensures
            agrees(
                r,
                old(self)@,
                final(self)@,
                settle(p, Ok(place), Ok((old(self)@, calc))),
            ),
            r matches Err(e) ==> e == Trap::Fault,
    {
        match calc {
            Calc::Done(v) => {
                self.store(p, place, v)?;
                Ok(Effect::Next(0))
            },
            Calc::Host(t) => Ok(
                Effect::Ask(Query::Float(t), Pending::Store { place, typ: get_task_type(t) }),
            ),
        }
    }
}

} // verus!

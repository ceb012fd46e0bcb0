//! The instructions that calculate and compare.
use vstd::prelude::*;
use crate::bytecode::{Bytecode, Instruction, Opcode};
use crate::content::{bytes_less, is_bytes_less, str_bytes, values_equal};
use crate::effect::{get_result_place, put, result_place, settle, Effect, Outcome, Pending, Query};
use crate::machine::{agrees, Ctx, Vm, VmView};
use crate::num::{
    cast_copyable, is_shift, relate_as, relation_as, unary_op, word_cast, word_unary, Calc,
};
use crate::ops_place::{calculate, pair};
use crate::place::load;
use crate::trap::{or_fault, Trap};
use crate::value::{OpIndex, Value, ValueType};

verus! {

/// The operation of an instruction that changes its result slot.
pub open spec fn plain_op(op: Opcode) -> Opcode {
    match op {
        Opcode::ADD_ASSIGN => Opcode::ADD,
        Opcode::SUB_ASSIGN => Opcode::SUB,
        Opcode::MUL_ASSIGN => Opcode::MUL,
        Opcode::QUO_ASSIGN => Opcode::QUO,
        Opcode::REM_ASSIGN => Opcode::REM,
        Opcode::AND_ASSIGN => Opcode::AND,
        Opcode::OR_ASSIGN => Opcode::OR,
        Opcode::XOR_ASSIGN => Opcode::XOR,
        Opcode::AND_NOT_ASSIGN => Opcode::AND_NOT,
        Opcode::SHL_ASSIGN => Opcode::SHL,
        Opcode::SHR_ASSIGN => Opcode::SHR,
        _ => op,
    }
}

fn get_plain_op(op: Opcode) -> (r: Opcode)
    ensures
        r == plain_op(op),
{
    match op {
        Opcode::ADD_ASSIGN => Opcode::ADD,
        Opcode::SUB_ASSIGN => Opcode::SUB,
        Opcode::MUL_ASSIGN => Opcode::MUL,
        Opcode::QUO_ASSIGN => Opcode::QUO,
        Opcode::REM_ASSIGN => Opcode::REM,
        Opcode::AND_ASSIGN => Opcode::AND,
        Opcode::OR_ASSIGN => Opcode::OR,
        Opcode::XOR_ASSIGN => Opcode::XOR,
        Opcode::AND_NOT_ASSIGN => Opcode::AND_NOT,
        Opcode::SHL_ASSIGN => Opcode::SHL,
        Opcode::SHR_ASSIGN => Opcode::SHR,
        _ => op,
    }
}

/// A calculation whose result goes into the result slot. The number of places of a
/// shift is first made an unsigned one, by the host where it is a fraction.
pub open spec fn calculation(
    p: &Bytecode,
    w: VmView,
    c: Ctx,
    inst: Instruction,
    op: Opcode,
    a: Result<Value, Trap>,
    b: Result<Value, Trap>,
) -> Outcome {
    match pair(a, b) {
        Ok((x, y)) => if is_shift(op) {
            match word_cast(inst.t1, ValueType::Uint32, y) {
                Some(Calc::Done(n)) => settle(
                    p,
                    result_place(c, inst.d),
                    calculate(w, op, inst.t0, x, n),
                ),
                Some(Calc::Host(t)) => match result_place(c, inst.d) {
                    Ok(place) => Ok(
                        (
                            w,
                            Effect::Ask(
                                Query::Float(t),
                                Pending::Shift { place, op, typ: inst.t0, val: x },
                            ),
                        ),
                    ),
                    Err(e) => Err(e),
                },
                None => Err(Trap::Fault),
            }
        } else {
            settle(p, result_place(c, inst.d), calculate(w, op, inst.t0, x, y))
        },
        Err(e) => Err(e),
    }
}

/// What the result slot holds.
pub open spec fn result_value(p: &Bytecode, w: VmView, c: Ctx, d: OpIndex) -> Result<Value, Trap> {
    match result_place(c, d) {
        Ok(pl) => load(p, w, pl),
        Err(e) => Err(e),
    }
}

/// How two strings are ordered: byte by byte.
pub open spec fn text_relation(w: VmView, op: Opcode, a: Value, b: Value) -> Result<bool, Trap> {
    match (a, b) {
        (Value::Str(s), Value::Str(t)) => match (str_bytes(w.cells, s), str_bytes(w.cells, t)) {
            (Ok(x), Ok(y)) => match op {
                Opcode::LSS => Ok(bytes_less(x, y, 0)),
                Opcode::GTR => Ok(bytes_less(y, x, 0)),
                Opcode::LEQ => Ok(!bytes_less(y, x, 0)),
                Opcode::GEQ => Ok(!bytes_less(x, y, 0)),
                _ => Err(Trap::Fault),
            },
            _ => Err(Trap::Fault),
        },
        _ => Err(Trap::Fault),
    }
}

/// Whether two values differ.
pub open spec fn values_differ(p: &Bytecode, w: VmView, a: Value, b: Value) -> Result<bool, Trap> {
    match values_equal(p, w, a, b) {
        Ok(x) => Ok(!x),
        Err(e) => Err(e),
    }
}

/// What a comparison of two operands gives. Where the first type is one of plain
/// words, both operands are taken for words of that type; `EQL` does so only where
/// the second type is the same. Otherwise the values are compared. So two integers
/// of different types that have the same bits are not equal, and `NEQ` does not find
/// them different either. An operand of another type may have no bits to compare:
/// what stands for a handle is an address, and a narrower word has too few. `NEQ`
/// then compares the values, and the other comparisons fail.
pub open spec fn relation(p: &Bytecode, w: VmView, inst: Instruction, a: Value, b: Value) -> Result<
    bool,
    Trap,
> {
    let words = inst.t0.spec_copyable() && (inst.op0 == Opcode::EQL ==> inst.t0 == inst.t1);
    if words {
        match relation_as(inst.op0, inst.t0, a, b) {
            Some(x) => Ok(x),
            None => if inst.op0 == Opcode::NEQ && inst.t0 != inst.t1 {
                values_differ(p, w, a, b)
            } else {
                Err(Trap::Fault)
            },
        }
    } else {
        match inst.op0 {
            Opcode::EQL => values_equal(p, w, a, b),
            Opcode::NEQ => values_differ(p, w, a, b),
            _ => text_relation(w, inst.op0, a, b),
        }
    }
}

/// The truth of a comparison goes into the result slot.
pub open spec fn comparison(p: &Bytecode, w: VmView, c: Ctx, inst: Instruction) -> Outcome {
    match pair(w.read(c, p.consts@, inst.s0), w.read(c, p.consts@, inst.s1)) {
        Ok((a, b)) => match relation(p, w, inst, a, b) {
            Ok(x) => put(w, c, inst.d, Ok(Value::Bool(x))),
            Err(e) => Err(e),
        },
        Err(e) => Err(e),
    }
}

/// What an instruction that calculates or compares does.
pub open spec fn word_inst(p: &Bytecode, w: VmView, c: Ctx, inst: Instruction) -> Outcome {
    match inst.op0 {
        Opcode::ADD
        | Opcode::SUB
        | Opcode::MUL
        | Opcode::QUO
        | Opcode::REM
        | Opcode::AND
        | Opcode::OR
        | Opcode::XOR
        | Opcode::AND_NOT
        | Opcode::SHL
        | Opcode::SHR => calculation(
            p,
            w,
            c,
            inst,
            inst.op0,
            w.read(c, p.consts@, inst.s0),
            w.read(c, p.consts@, inst.s1),
        ),
        Opcode::ADD_ASSIGN
        | Opcode::SUB_ASSIGN
        | Opcode::MUL_ASSIGN
        | Opcode::QUO_ASSIGN
        | Opcode::REM_ASSIGN
        | Opcode::AND_ASSIGN
        | Opcode::OR_ASSIGN
        | Opcode::XOR_ASSIGN
        | Opcode::AND_NOT_ASSIGN
        | Opcode::SHL_ASSIGN
        | Opcode::SHR_ASSIGN => calculation(
            p,
            w,
            c,
            inst,
            plain_op(inst.op0),
            result_value(p, w, c, inst.d),
            w.read(c, p.consts@, inst.s0),
        ),
        Opcode::INC | Opcode::DEC => calculation(
            p,
            w,
            c,
            inst,
            inst.op0,
            result_value(p, w, c, inst.d),
            Ok(crate::value::void()),
        ),
        Opcode::UNARY_SUB | Opcode::UNARY_XOR | Opcode::NOT => match w.read(
            c,
            p.consts@,
            inst.s0,
        ) {
            Ok(a) => put(w, c, inst.d, or_fault(word_unary(inst.op0, inst.t0, a))),
            Err(e) => Err(e),
        },
        Opcode::EQL
        | Opcode::NEQ
        | Opcode::LSS
        | Opcode::GTR
        | Opcode::LEQ
        | Opcode::GEQ => comparison(p, w, c, inst),
        _ => Err(Trap::Fault),
    }
}

impl Vm {
    fn calculation(
        &mut self,
        p: &Bytecode,
        c: Ctx,
        inst: &Instruction,
        op: Opcode,
        a: Result<Value, Trap>,
        b: Result<Value, Trap>,
    ) -> (r: Result<Effect, Trap>)
        ensures
            agrees(
                r,
                old(self)@,
                final(self)@,
                calculation(p, old(self)@, c, *inst, op, a, b),
            ),
    {
        let x = a?;
        let y = b?;
        let mut right = y;
        let place = match get_result_place(c, inst.d) {
            Ok(pl) => pl,
            Err(_) => return Err(Trap::Fault),
        };
        if op == Opcode::SHL || op == Opcode::SHR {
            match cast_copyable(inst.t1, ValueType::Uint32, y) {
                Some(Calc::Done(n)) => {
                    right = n;
                },
                Some(Calc::Host(t)) => {
                    let pending = Pending::Shift { place, op, typ: inst.t0, val: x };
                    return Ok(Effect::Ask(Query::Float(t), pending));
                },
                None => return Err(Trap::Fault),
            }
        }
        let calc = self.calculate(op, inst.t0, x, right)?;
        self.settle(p, place, calc)
    }

    fn result_value(&self, p: &Bytecode, c: Ctx, d: OpIndex) -> (r: Result<Value, Trap>)
        ensures
            r == result_value(p, self@, c, d),
    {
        let place = get_result_place(c, d)?;
        self.load(p, place)
    }

    fn text_relation(&self, op: Opcode, a: Value, b: Value) -> (r: Result<bool, Trap>)
        ensures
            r == text_relation(self@, op, a, b),
    {
        match (a, b) {
            (Value::Str(s), Value::Str(t)) => {
                let (x, y) = match (self.get_bytes(s), self.get_bytes(t)) {
                    (Ok(x), Ok(y)) => (x, y),
                    _ => return Err(Trap::Fault),
                };
                match op {
                    Opcode::LSS => Ok(is_bytes_less(&x, &y)),
                    Opcode::GTR => Ok(is_bytes_less(&y, &x)),
                    Opcode::LEQ => Ok(!is_bytes_less(&y, &x)),
                    Opcode::GEQ => Ok(!is_bytes_less(&x, &y)),
                    _ => Err(Trap::Fault),
                }
            },
            _ => Err(Trap::Fault),
        }
    }

    fn relation(&self, p: &Bytecode, inst: &Instruction, a: Value, b: Value) -> (r: Result<bool, Trap>)
        ensures
            r == relation(p, self@, *inst, a, b),
    {
        let words = inst.t0.copyable() && (inst.op0 != Opcode::EQL || inst.t0 == inst.t1);
        if words {
            match relate_as(inst.op0, inst.t0, a, b) {
                Some(x) => Ok(x),
                None => if inst.op0 == Opcode::NEQ && inst.t0 != inst.t1 {
                    Ok(!self.equal(p, a, b)?)
                } else {
                    Err(Trap::Fault)
                },
            }
        } else {
            match inst.op0 {
                Opcode::EQL => self.equal(p, a, b),
                Opcode::NEQ => Ok(!self.equal(p, a, b)?),
                _ => self.text_relation(inst.op0, a, b),
            }
        }
    }

    fn comparison(&mut self, p: &Bytecode, c: Ctx, inst: &Instruction) -> (r: Result<Effect, Trap>)
        ensures
            agrees(r, old(self)@, final(self)@, comparison(p, old(self)@, c, *inst)),
    {
        let a = self.read(c, p, inst.s0)?;
        let b = self.read(c, p, inst.s1)?;
        let x = self.relation(p, inst, a, b)?;
        self.put(c, inst.d, Value::Bool(x))
    }

    /// Runs an instruction that calculates or compares.
    pub fn run_word_inst(&mut self, p: &Bytecode, c: Ctx, inst: &Instruction) -> (r: Result<
        Effect,
        Trap,
    >)
        ensures
            agrees(r, old(self)@, final(self)@, word_inst(p, old(self)@, c, *inst)),
    {
        match inst.op0 {
            Opcode::ADD
            | Opcode::SUB
            | Opcode::MUL
            | Opcode::QUO
            | Opcode::REM
            | Opcode::AND
            | Opcode::OR
            | Opcode::XOR
            | Opcode::AND_NOT
            | Opcode::SHL
            | Opcode::SHR => {
                let a = self.read(c, p, inst.s0);
                let b = self.read(c, p, inst.s1);
                self.calculation(p, c, inst, inst.op0, a, b)
            },
            Opcode::ADD_ASSIGN
            | Opcode::SUB_ASSIGN
            | Opcode::MUL_ASSIGN
            | Opcode::QUO_ASSIGN
            | Opcode::REM_ASSIGN
            | Opcode::AND_ASSIGN
            | Opcode::OR_ASSIGN
            | Opcode::XOR_ASSIGN
            | Opcode::AND_NOT_ASSIGN
            | Opcode::SHL_ASSIGN
            | Opcode::SHR_ASSIGN => {
                let a = self.result_value(p, c, inst.d);
                let b = self.read(c, p, inst.s0);
                self.calculation(p, c, inst, get_plain_op(inst.op0), a, b)
            },
            Opcode::INC | Opcode::DEC => {
                let a = self.result_value(p, c, inst.d);
                self.calculation(p, c, inst, inst.op0, a, Ok(Value::Nil(ValueType::Void)))
            },
            Opcode::UNARY_SUB | Opcode::UNARY_XOR | Opcode::NOT => {
                let a = self.read(c, p, inst.s0)?;
                match unary_op(inst.op0, inst.t0, a) {
                    Some(v) => self.put(c, inst.d, v),
                    None => Err(Trap::Fault),
                }
            },
            Opcode::EQL
            | Opcode::NEQ
            | Opcode::LSS
            | Opcode::GTR
            | Opcode::LEQ
            | Opcode::GEQ => self.comparison(p, c, inst),
            _ => Err(Trap::Fault),
        }
    }
}

} // verus!

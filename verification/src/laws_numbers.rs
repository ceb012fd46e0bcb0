//! What calculations with integers give.
use vstd::prelude::*;
use vstd::arithmetic::div_mod::{lemma_fundamental_div_mod, lemma_mod_multiples_vanish};
use vstd::arithmetic::power2::pow2;
use crate::bytecode::Opcode;
use crate::laws_values::law_division;
use crate::num::{
    lemma_wrap_in_range, quotient, remainder, shift, word_op, word_step, word_unary, wrap, Calc,
};
use crate::value::{IntKind, Value, ValueType};

verus! {

/// The smallest number of an integer type.
pub open spec fn least(k: IntKind) -> int {
    match k {
        IntKind::Int | IntKind::Int64 => -0x8000_0000_0000_0000,
        IntKind::Int8 => -0x80,
        IntKind::Int16 => -0x8000,
        IntKind::Int32 => -0x8000_0000,
        _ => 0,
    }
}

/// The greatest number of an integer type.
pub open spec fn most(k: IntKind) -> int {
    match k {
        IntKind::Int | IntKind::Int64 => 0x7fff_ffff_ffff_ffff,
        IntKind::Int8 => 0x7f,
        IntKind::Int16 => 0x7fff,
        IntKind::Int32 => 0x7fff_ffff,
        IntKind::Uint8 => 0xff,
        IntKind::Uint16 => 0xffff,
        IntKind::Uint32 => 0xffff_ffff,
        IntKind::Uint | IntKind::UintPtr | IntKind::Uint64 => 0xffff_ffff_ffff_ffff,
    }
}

/// Whether the type has the number.
pub open spec fn has_number(k: IntKind, n: int) -> bool {
    least(k) <= n <= most(k)
}

/// Whether `r` is what is left of `n` in the type: the number of the type that differs
/// from it by a multiple of how many numbers there are.
pub open spec fn left_of(k: IntKind, r: int, n: int) -> bool {
    has_number(k, r) && (n - r) % (most(k) - least(k) + 1) == 0
}

/// Whether division of `a` by `b` gives `q` and leaves `m` over: it goes towards zero.
pub open spec fn divides(a: int, b: int, q: int, m: int) -> bool {
    &&& a == b * q + m
    &&& if b < 0 {
        b < m < -b
    } else {
        -b < m < b
    }
    &&& a >= 0 ==> m >= 0
    &&& a <= 0 ==> m <= 0
}

/// Whether `r` is the result of an operation on two numbers of an integer type.
pub open spec fn gives(op: Opcode, k: IntKind, a: i128, b: i128, r: i128) -> bool {
    match op {
        Opcode::ADD => left_of(k, r as int, a + b),
        Opcode::SUB => left_of(k, r as int, a - b),
        Opcode::MUL => left_of(k, r as int, a * b),
        Opcode::QUO => exists|q: int, m: int| #[trigger]
            divides(a as int, b as int, q, m) && left_of(k, r as int, q),
        Opcode::REM => exists|q: int, m: int| #[trigger]
            divides(a as int, b as int, q, m) && r == m,
        Opcode::AND => left_of(k, r as int, (a & b) as int),
        Opcode::OR => left_of(k, r as int, (a | b) as int),
        Opcode::XOR => left_of(k, r as int, (a ^ b) as int),
        Opcode::AND_NOT => left_of(k, r as int, a - (a & b)),
        _ => false,
    }
}

/// Whether `r` is a number shifted by `n` places: each place to the left doubles, each
/// place to the right halves and drops the fraction downwards.
pub open spec fn shifts(op: Opcode, k: IntKind, a: i128, n: int, r: i128) -> bool {
    match op {
        Opcode::SHL => if n < 64 {
            left_of(k, r as int, a * pow2(n as nat))
        } else {
            r == 0
        },
        Opcode::SHR => if n < 64 {
            r * pow2(n as nat) <= a < (r + 1) * pow2(n as nat)
        } else {
            r == if a < 0 {
                -1int
            } else {
                0int
            }
        },
        _ => false,
    }
}

/// Whether an operation is one on two integers of one type.
pub open spec fn is_integer_op(op: Opcode) -> bool {
    op == Opcode::ADD || op == Opcode::SUB || op == Opcode::MUL || op == Opcode::QUO || op
        == Opcode::REM || op == Opcode::AND || op == Opcode::OR || op == Opcode::XOR || op
        == Opcode::AND_NOT
}

/// What is left of a number.
pub proof fn lemma_left(k: IntKind, n: int)
    ensures
        left_of(k, wrap(k, n), n),
        has_number(k, n) ==> wrap(k, n) == n,
{
    lemma_wrap_in_range(k, n);
    let m = most(k) - least(k) + 1;
    lemma_fundamental_div_mod(n, m);
    let q = n / m;
    assert(n - n % m == m * q);
    lemma_mod_multiples_vanish(q, 0, m);
    assert(m * q + 0 == m * q);
    assert((m * q) % m == 0) by {
        assert((m * q + 0) % m == 0int % m);
    }
    lemma_mod_multiples_vanish(1, n - n % m, m);
}

proof fn lemma_bits_clear(a: i128, b: i128)
    ensures
        a & (-b - 1) as i128 == a - (a & b),
{
    assert(a & !b == a - (a & b)) by (bit_vector);
    assert(!b == (-b - 1) as i128) by (bit_vector);
}

/// An operation on two integers of a type gives what it says, also past the ends of the
/// type. Only a division by zero gives nothing.
pub proof fn law_integers_calculate(op: Opcode, k: IntKind, a: i128, b: i128)
    requires
        is_integer_op(op),
        has_number(k, a as int),
        has_number(k, b as int),
    ensures
        (op == Opcode::QUO || op == Opcode::REM) && b == 0 ==> word_op(
            op,
            k.spec_value_type(),
            Value::Int(k, a),
            Value::Int(k, b),
        ) is None,
        !((op == Opcode::QUO || op == Opcode::REM) && b == 0) ==> (word_op(
            op,
            k.spec_value_type(),
            Value::Int(k, a),
            Value::Int(k, b),
        ) matches Some(Calc::Done(Value::Int(j, r))) && j == k && gives(op, k, a, b, r)),
{
    lemma_left(k, a + b);
    lemma_left(k, a - b);
    lemma_left(k, a * b);
    lemma_left(k, (a & b) as int);
    lemma_left(k, (a | b) as int);
    lemma_left(k, (a ^ b) as int);
    lemma_left(k, (a & (-b - 1) as i128) as int);
    lemma_bits_clear(a, b);
    if b != 0 {
        law_division(a as int, b as int);
        let q = quotient(a as int, b as int);
        let m = remainder(a as int, b as int);
        assert(divides(a as int, b as int, q, m));
        lemma_left(k, q);
        lemma_left(k, m);
    }
}

proof fn lemma_powers(n: nat)
    ensures
        crate::num::pow2(n) == pow2(n),
    decreases n,
{
    if n == 0 {
        vstd::arithmetic::power2::lemma2_to64();
    } else {
        lemma_powers((n - 1) as nat);
        vstd::arithmetic::power2::lemma_pow2_unfold(n);
    }
}

proof fn lemma_halved(k: IntKind, a: int, d: int)
    requires
        has_number(k, a),
        d >= 1,
    ensures
        has_number(k, a / d),
        (a / d) * d <= a < (a / d + 1) * d,
{
    lemma_fundamental_div_mod(a, d);
    let q = a / d;
    assert(d * q == q * d) by (nonlinear_arith);
    assert((q + 1) * d == q * d + d) by (nonlinear_arith);
    if a >= 0 {
        assert(0 <= q <= a) by (nonlinear_arith)
            requires
                0 <= a,
                q * d <= a < q * d + d,
                d >= 1,
        ;
    } else {
        assert(a <= q < 0) by (nonlinear_arith)
            requires
                a < 0,
                q * d <= a < q * d + d,
                d >= 1,
        ;
    }
}

/// A shift of an integer by a number of places gives what it says, whatever the
/// unsigned type of that number.
pub proof fn law_integers_shift(op: Opcode, k: IntKind, a: i128, j: IntKind, n: i128)
    requires
        op == Opcode::SHL || op == Opcode::SHR,
        has_number(k, a as int),
        has_number(j, n as int),
        0 <= n <= 0xffff_ffff,
    ensures
        word_op(op, k.spec_value_type(), Value::Int(k, a), Value::Int(j, n)) matches Some(
            Calc::Done(Value::Int(i, r)),
        ) && i == k && has_number(k, r as int) && shifts(op, k, a, n as int, r),
{
    lemma_left(IntKind::Uint32, n as int);
    let c = (if n < 64 {
        n as int
    } else {
        64
    }) as nat;
    lemma_powers(c);
    vstd::arithmetic::power2::lemma_pow2_pos(c);
    let d = pow2(c) as int;
    lemma_left(k, a * d);
    lemma_left(k, 0);
    lemma_halved(k, a as int, d);
    lemma_left(k, a as int / d);
    if n >= 64 {
        vstd::arithmetic::power2::lemma2_to64();
        assert(pow2(64) == 0x1_0000_0000_0000_0000);
    }
}

/// A step up adds one and a step down takes one away.
pub proof fn law_integers_step(k: IntKind, a: i128)
    requires
        has_number(k, a as int),
    ensures
        word_step(true, k.spec_value_type(), Value::Int(k, a)) matches Some(
            Calc::Done(Value::Int(i, r)),
        ) && i == k && left_of(k, r as int, a + 1),
        word_step(false, k.spec_value_type(), Value::Int(k, a)) matches Some(
            Calc::Done(Value::Int(i, r)),
        ) && i == k && left_of(k, r as int, a - 1),
{
    lemma_left(k, a + 1);
    lemma_left(k, a - 1);
}

/// The sign of an integer is turned, or all of its bits are; a truth is turned around.
pub proof fn law_words_turn(k: IntKind, a: i128, b: bool)
    requires
        has_number(k, a as int),
    ensures
        word_unary(Opcode::UNARY_SUB, k.spec_value_type(), Value::Int(k, a)) matches Some(
            Value::Int(i, r),
        ) && i == k && left_of(k, r as int, -a),
        word_unary(Opcode::UNARY_XOR, k.spec_value_type(), Value::Int(k, a)) matches Some(
            Value::Int(i, r),
        ) && i == k && left_of(k, r as int, (!a) as int),
        word_unary(Opcode::NOT, ValueType::Bool, Value::Bool(b)) == Some(Value::Bool(!b)),
{
    lemma_left(k, -a);
    lemma_left(k, -a - 1);
    assert(has_number(k, a as int) ==> -0x1_0000_0000_0000_0000 <= a <= 0x1_0000_0000_0000_0000);
    assert(!a == (-a - 1) as i128) by (bit_vector);
}

} // verus!

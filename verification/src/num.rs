//! Arithmetic and comparison of plain words.
use vstd::prelude::*;
use vstd::arithmetic::div_mod::lemma_mod_multiples_vanish;
use crate::bytecode::Opcode;
use crate::value::{IntKind, Value, ValueType};

verus! {

/// How many numbers the type tells apart.
pub open spec fn modulus(k: IntKind) -> int {
    match k {
        IntKind::Int8 | IntKind::Uint8 => 0x100,
        IntKind::Int16 | IntKind::Uint16 => 0x1_0000,
        IntKind::Int32 | IntKind::Uint32 => 0x1_0000_0000,
        _ => 0x1_0000_0000_0000_0000,
    }
}

/// Whether the type has negative numbers.
pub open spec fn signed(k: IntKind) -> bool {
    match k {
        IntKind::Int | IntKind::Int8 | IntKind::Int16 | IntKind::Int32 | IntKind::Int64 => true,
        _ => false,
    }
}

/// Whether the type has the number.
pub open spec fn in_range(k: IntKind, x: int) -> bool {
    if signed(k) {
        -(modulus(k) / 2) <= x < modulus(k) / 2
    } else {
        0 <= x < modulus(k)
    }
}

/// The number of the type that differs from `x` by a multiple of the modulus.
pub open spec fn wrap(k: IntKind, x: int) -> int {
    let r = x % modulus(k);
    if signed(k) && r >= modulus(k) / 2 {
        r - modulus(k)
    } else {
        r
    }
}

fn modulus_of(k: IntKind) -> (r: u128)
    ensures
        r == modulus(k),
{
    match k {
        IntKind::Int8 | IntKind::Uint8 => 0x100,
        IntKind::Int16 | IntKind::Uint16 => 0x1_0000,
        IntKind::Int32 | IntKind::Uint32 => 0x1_0000_0000,
        _ => 0x1_0000_0000_0000_0000,
    }
}

fn is_signed(k: IntKind) -> (r: bool)
    ensures
        r == signed(k),
{
    match k {
        IntKind::Int | IntKind::Int8 | IntKind::Int16 | IntKind::Int32 | IntKind::Int64 => true,
        _ => false,
    }
}

/// Whether the type has the number.
pub fn fits(k: IntKind, x: i128) -> (r: bool)
    ensures
        r == in_range(k, x as int),
{
    let m: i128 = modulus_of(k) as i128;
    if is_signed(k) {
        -(m / 2) <= x && x < m / 2
    } else {
        0 <= x && x < m
    }
}

fn wrap_unsigned(k: IntKind, x: u128) -> (r: i128)
    ensures
        r == wrap(k, x as int),
{
    let m: u128 = modulus_of(k);
    let r: u128 = x % m;
    if is_signed(k) && r >= m / 2 {
        r as i128 - m as i128
    } else {
        r as i128
    }
}

/// Brings a number into the range of a type.
pub fn wrap_to(k: IntKind, x: i128) -> (r: i128)
    requires
        x >= -0x4000_0000_0000_0000_0000_0000_0000_0000,
    ensures
        r == wrap(k, x as int),
{
    if x >= 0 {
        wrap_unsigned(k, x as u128)
    } else {
        let y: u128 = (x + 0x4000_0000_0000_0000_0000_0000_0000_0000) as u128;
        proof {
            let q: int = match k {
                IntKind::Int8 | IntKind::Uint8 => 0x40_0000_0000_0000_0000_0000_0000_0000int,
                IntKind::Int16 | IntKind::Uint16 => 0x4000_0000_0000_0000_0000_0000_0000int,
                IntKind::Int32 | IntKind::Uint32 => 0x4000_0000_0000_0000_0000_0000int,
                _ => 0x4000_0000_0000_0000int,
            };
            assert(q * modulus(k) == 0x4000_0000_0000_0000_0000_0000_0000_0000int);
            lemma_mod_multiples_vanish(q, x as int, modulus(k));
            assert(modulus(k) * q == q * modulus(k)) by (nonlinear_arith);
        }
        wrap_unsigned(k, y)
    }
}

/// A number that the type has is left alone.
pub proof fn lemma_wrap_in_range(k: IntKind, x: int)
    ensures
        in_range(k, wrap(k, x)),
        in_range(k, x) ==> wrap(k, x) == x,
{
    if in_range(k, x) && x < 0 {
        assert((x + modulus(k)) % modulus(k) == x % modulus(k)) by {
            lemma_mod_multiples_vanish(1, x, modulus(k));
        }
    }
}

/// Division that drops the fraction.
pub open spec fn quotient(a: int, b: int) -> int {
    let q = abs(a) / abs(b);
    if (a >= 0) == (b >= 0) {
        q
    } else {
        -q
    }
}

/// What division leaves over: it has the sign of `a`.
pub open spec fn remainder(a: int, b: int) -> int {
    let r = abs(a) % abs(b);
    if a >= 0 {
        r
    } else {
        -r
    }
}

/// The distance from zero.
pub open spec fn abs(a: int) -> int {
    if a >= 0 {
        a
    } else {
        -a
    }
}

/// Two multiplied with itself `n` times.
pub open spec fn pow2(n: nat) -> int
    decreases n,
{
    if n == 0 {
        1
    } else {
        2 * pow2((n - 1) as nat)
    }
}

/// What the integer operation gives; nothing for a division by zero and for an
/// operation that integers do not have. Shifts by at least the width of the
/// type give what a shift by any larger amount gives.
pub open spec fn int_op(op: Opcode, k: IntKind, a: i128, b: i128) -> Option<int> {
    match op {
        Opcode::ADD => Some(wrap(k, a + b)),
        Opcode::SUB => Some(wrap(k, a - b)),
        Opcode::MUL => Some(wrap(k, a * b)),
        Opcode::QUO => if b == 0 {
            None
        } else {
            Some(wrap(k, quotient(a as int, b as int)))
        },
        Opcode::REM => if b == 0 {
            None
        } else {
            Some(wrap(k, remainder(a as int, b as int)))
        },
        Opcode::AND => Some(wrap(k, (a & b) as int)),
        Opcode::OR => Some(wrap(k, (a | b) as int)),
        Opcode::XOR => Some(wrap(k, (a ^ b) as int)),
        Opcode::AND_NOT => Some(wrap(k, (a & (-b - 1) as i128) as int)),
        _ => None,
    }
}

/// A shift to the left or to the right by `n` places.
pub open spec fn shift(op: Opcode, k: IntKind, a: i128, n: int) -> Option<int> {
    let p = pow2((if n < 64 { n } else { 64 }) as nat);
    match op {
        Opcode::SHL => Some(if n >= 64 { 0 } else { wrap(k, a * p) }),
        Opcode::SHR => Some(wrap(k, a as int / p)),
        _ => None,
    }
}

proof fn lemma_mul_bound(a: int, b: int, m: int)
    requires
        -m <= a <= m,
        -m <= b <= m,
        m >= 0,
    ensures
        -(m * m) <= a * b <= m * m,
{
    assert(abs(a) * abs(b) <= m * m) by (nonlinear_arith)
        requires
            0 <= abs(a) <= m,
            0 <= abs(b) <= m,
    ;
    assert(a * b == abs(a) * abs(b) || a * b == -(abs(a) * abs(b))) by (nonlinear_arith)
        requires
            abs(a) == a || abs(a) == -a,
            abs(b) == b || abs(b) == -b,
    ;
    assert(abs(a) * abs(b) >= 0) by (nonlinear_arith)
        requires
            0 <= abs(a),
            0 <= abs(b),
    ;
}

fn multiply(k: IntKind, a: i128, b: i128) -> (r: i128)
    requires
        in_range(k, a as int),
        in_range(k, b as int),
    ensures
        r == wrap(k, a * b),
{
    if is_signed(k) {
        proof {
            lemma_mul_bound(a as int, b as int, 0x8000_0000_0000_0000);
        }
        wrap_to(k, a * b)
    } else {
        proof {
            lemma_mul_bound(a as int, b as int, 0xffff_ffff_ffff_ffff);
            assert(a * b >= 0) by (nonlinear_arith)
                requires
                    a >= 0,
                    b >= 0,
            ;
        }
        wrap_unsigned(k, (a as u128) * (b as u128))
    }
}

fn magnitude(a: i128) -> (r: u128)
    requires
        a > i128::MIN,
    ensures
        r == abs(a as int),
{
    if a >= 0 {
        a as u128
    } else {
        (-a) as u128
    }
}

proof fn lemma_bits_bounded(a: i128, b: i128)
    requires
        -0x1_0000_0000_0000_0000 <= a <= 0x1_0000_0000_0000_0000,
        -0x1_0000_0000_0000_0000 <= b <= 0x1_0000_0000_0000_0000,
    ensures
        (a & b) >= -0x4000_0000_0000_0000_0000_0000_0000_0000,
        (a | b) >= -0x4000_0000_0000_0000_0000_0000_0000_0000,
        (a ^ b) >= -0x4000_0000_0000_0000_0000_0000_0000_0000,
{
    assert((a & b) >= -0x4000_0000_0000_0000_0000_0000_0000_0000i128 && (a | b)
        >= -0x4000_0000_0000_0000_0000_0000_0000_0000i128 && (a ^ b)
        >= -0x4000_0000_0000_0000_0000_0000_0000_0000i128) by (bit_vector)
        requires
            -0x1_0000_0000_0000_0000i128 <= a <= 0x1_0000_0000_0000_0000i128,
            -0x1_0000_0000_0000_0000i128 <= b <= 0x1_0000_0000_0000_0000i128,
    ;
}

/// Performs an integer operation.
pub fn int_binary(op: Opcode, k: IntKind, a: i128, b: i128) -> (r: Option<i128>)
    requires
        in_range(k, a as int),
        in_range(k, b as int),
    ensures
        r matches Some(n) ==> int_op(op, k, a, b) == Some(n as int),
        r is None ==> int_op(op, k, a, b) is None,
{
    match op {
        Opcode::ADD => Some(wrap_to(k, a + b)),
        Opcode::SUB => Some(wrap_to(k, a - b)),
        Opcode::MUL => Some(multiply(k, a, b)),
        Opcode::QUO => {
            if b == 0 {
                None
            } else {
                let q: i128 = (magnitude(a) / magnitude(b)) as i128;
                proof {
                    vstd::arithmetic::div_mod::lemma_div_is_ordered_by_denominator(
                        abs(a as int),
                        1,
                        abs(b as int),
                    );
                }
                if (a >= 0) == (b >= 0) {
                    Some(wrap_to(k, q))
                } else {
                    Some(wrap_to(k, -q))
                }
            }
        },
        Opcode::REM => {
            if b == 0 {
                None
            } else {
                let m: i128 = (magnitude(a) % magnitude(b)) as i128;
                if a >= 0 {
                    Some(wrap_to(k, m))
                } else {
                    Some(wrap_to(k, -m))
                }
            }
        },
        Opcode::AND => {
            proof {
                lemma_bits_bounded(a, b);
            }
            Some(wrap_to(k, a & b))
        },
        Opcode::OR => {
            proof {
                lemma_bits_bounded(a, b);
            }
            Some(wrap_to(k, a | b))
        },
        Opcode::XOR => {
            proof {
                lemma_bits_bounded(a, b);
            }
            Some(wrap_to(k, a ^ b))
        },
        Opcode::AND_NOT => {
            let c: i128 = -b - 1;
            proof {
                lemma_bits_bounded(a, c);
            }
            Some(wrap_to(k, a & c))
        },
        _ => None,
    }
}

proof fn lemma_pow2_step(n: nat)
    ensures
        pow2(n) >= 1,
        pow2(n + 1) == 2 * pow2(n),
    decreases n,
{
    if n > 0 {
        lemma_pow2_step((n - 1) as nat);
    }
}

fn power_of_two(n: u32) -> (r: i128)
    requires
        n <= 64,
    ensures
        r == pow2(n as nat),
        1 <= r <= 0x1_0000_0000_0000_0000,
        n < 64 ==> r <= 0x8000_0000_0000_0000,
{
    let mut i: u32 = 0;
    let mut p: i128 = 1;
    proof {
        assert(pow2(0) == 1);
        reveal_with_fuel(pow2, 65);
        assert(pow2(64) == 0x1_0000_0000_0000_0000);
    }
    let ghost top = pow2(64);
    while i < n
        invariant
            i <= n <= 64,
            p == pow2(i as nat),
            1 <= p,
            p * pow2((64 - i) as nat) == 0x1_0000_0000_0000_0000,
        decreases n - i,
    {
        proof {
            lemma_pow2_step(i as nat);
            lemma_pow2_step((63 - i) as nat);
            lemma_pow2_step((64 - i) as nat);
            assert((2 * p) * pow2((63 - i) as nat) == p * (2 * pow2((63 - i) as nat)))
                by (nonlinear_arith);
            assert(p <= 0x1_0000_0000_0000_0000) by (nonlinear_arith)
                requires
                    p * pow2((64 - i) as nat) == 0x1_0000_0000_0000_0000,
                    pow2((64 - i) as nat) >= 1,
                    p >= 1,
            ;
        }
        p = 2 * p;
        i = i + 1;
    }
    proof {
        lemma_pow2_step((64 - n) as nat);
        assert(p <= 0x1_0000_0000_0000_0000) by (nonlinear_arith)
            requires
                p * pow2((64 - n) as nat) == 0x1_0000_0000_0000_0000,
                pow2((64 - n) as nat) >= 1,
                p >= 1,
        ;
        if n < 64 {
            lemma_pow2_step((63 - n) as nat);
            assert(p <= 0x8000_0000_0000_0000) by (nonlinear_arith)
                requires
                    p * pow2((64 - n) as nat) == 0x1_0000_0000_0000_0000,
                    pow2((64 - n) as nat) >= 2,
                    p >= 1,
            ;
        }
    }
    p
}

fn floor_divide(a: i128, p: i128) -> (r: i128)
    requires
        p >= 1,
        a > i128::MIN,
    ensures
        r == a as int / p as int,
        abs(r as int) <= abs(a as int),
{
    if a >= 0 {
        let q: u128 = (a as u128) / (p as u128);
        proof {
            vstd::arithmetic::div_mod::lemma_div_is_ordered_by_denominator(a as int, 1, p as int);
        }
        q as i128
    } else {
        let q: u128 = ((-a - 1) as u128) / (p as u128);
        proof {
            vstd::arithmetic::div_mod::lemma_div_is_ordered_by_denominator(
                (-a - 1) as int,
                1,
                p as int,
            );
            lemma_floor_of_negative(a as int, p as int);
        }
        -(q as i128) - 1
    }
}

proof fn lemma_floor_of_negative(a: int, p: int)
    requires
        a < 0,
        p >= 1,
    ensures
        a / p == -((-a - 1) / p) - 1,
{
    let q = (-a - 1) / p;
    let r = (-a - 1) % p;
    vstd::arithmetic::div_mod::lemma_fundamental_div_mod(-a - 1, p);
    assert(a == p * (-q - 1) + (p - 1 - r)) by (nonlinear_arith)
        requires
            -a - 1 == p * q + r,
    ;
    vstd::arithmetic::div_mod::lemma_fundamental_div_mod_converse(a, p, -q - 1, p - 1 - r);
}

/// Performs a shift by `n` places.
pub fn int_shift(op: Opcode, k: IntKind, a: i128, n: u32) -> (r: Option<i128>)
    requires
        in_range(k, a as int),
    ensures
        r matches Some(m) ==> shift(op, k, a, n as int) == Some(m as int),
        r is None ==> shift(op, k, a, n as int) is None,
{
    let m: u32 = if n < 64 {
        n
    } else {
        64
    };
    let p: i128 = power_of_two(m);
    match op {
        Opcode::SHL => {
            if n >= 64 {
                Some(0)
            } else {
                proof {
                    assert(-0x4000_0000_0000_0000_0000_0000_0000_0000 <= a * p
                        <= 0x7fff_ffff_ffff_ffff_8000_0000_0000_0000) by (nonlinear_arith)
                        requires
                            -0x8000_0000_0000_0000 <= a <= 0xffff_ffff_ffff_ffff,
                            1 <= p <= 0x8000_0000_0000_0000,
                    ;
                }
                Some(wrap_to(k, a * p))
            }
        },
        Opcode::SHR => Some(wrap_to(k, floor_divide(a, p))),
        _ => None,
    }
}

/// Work on fractions, which the machine leaves to its host.
#[derive(Clone, Copy, PartialEq, Eq, Structural, Debug)]
pub enum FloatTask {
    Binary { op: Opcode, t: ValueType, a: Value, b: Value },
    Inc { t: ValueType, a: Value },
    Dec { t: ValueType, a: Value },
    Cast { from: ValueType, to: ValueType, a: Value },
}

/// The outcome of an operation on words: a value, or a task for the host.
#[derive(Clone, Copy, PartialEq, Eq, Structural, Debug)]
pub enum Calc {
    Done(Value),
    Host(FloatTask),
}

/// An integer of the type that is in its range.
pub open spec fn int_in(v: Value, k: IntKind) -> Option<i128> {
    match v {
        Value::Int(j, n) => if j == k && in_range(k, n as int) {
            Some(n)
        } else {
            None
        },
        _ => None,
    }
}

/// An integer of the type that is in its range.
pub fn get_int(v: Value, k: IntKind) -> (r: Option<i128>)
    ensures
        r == int_in(v, k),
{
    match v {
        Value::Int(j, n) => if j == k && fits(k, n) {
            Some(n)
        } else {
            None
        },
        _ => None,
    }
}

/// An integer of any type as a number of places to shift by.
pub open spec fn shift_count(v: Value) -> Option<int> {
    match v {
        Value::Int(j, n) => if in_range(j, n as int) {
            Some(wrap(IntKind::Uint32, n as int))
        } else {
            None
        },
        _ => None,
    }
}

fn get_shift_count(v: Value) -> (r: Option<u32>)
    ensures
        match r {
            Some(n) => shift_count(v) == Some(n as int),
            None => shift_count(v) is None,
        },
{
    match v {
        Value::Int(j, n) => if fits(j, n) {
            proof {
                lemma_wrap_in_range(IntKind::Uint32, n as int);
            }
            Some(wrap_to(IntKind::Uint32, n) as u32)
        } else {
            None
        },
        _ => None,
    }
}

/// Whether the operation is a shift.
pub open spec fn is_shift(op: Opcode) -> bool {
    op == Opcode::SHL || op == Opcode::SHR
}

/// Whether fractions have the operation.
pub open spec fn is_field_op(op: Opcode) -> bool {
    op == Opcode::ADD || op == Opcode::SUB || op == Opcode::MUL || op == Opcode::QUO
}

/// A two-sided operation on words of type `t`.
pub open spec fn word_op(op: Opcode, t: ValueType, a: Value, b: Value) -> Option<Calc> {
    match t.spec_int_kind() {
        Some(k) => {
            let n = if is_shift(op) {
                match (int_in(a, k), shift_count(b)) {
                    (Some(x), Some(s)) => shift(op, k, x, s),
                    _ => None,
                }
            } else {
                match (int_in(a, k), int_in(b, k)) {
                    (Some(x), Some(y)) => int_op(op, k, x, y),
                    _ => None,
                }
            };
            match n {
                Some(m) => Some(Calc::Done(Value::Int(k, m as i128))),
                None => None,
            }
        },
        None => if t.spec_fractional() && is_field_op(op) && a.spec_typ() == t && b.spec_typ()
            == t {
            Some(Calc::Host(FloatTask::Binary { op, t, a, b }))
        } else {
            None
        },
    }
}

/// Performs a two-sided operation on words of type `t`.
pub fn binary_op(op: Opcode, t: ValueType, a: Value, b: Value) -> (r: Option<Calc>)
    ensures
        r == word_op(op, t, a, b),
{
    match t.int_kind() {
        Some(k) => {
            let x: i128 = match get_int(a, k) {
                Some(x) => x,
                None => return None,
            };
            let n: Option<i128> = if op == Opcode::SHL || op == Opcode::SHR {
                match get_shift_count(b) {
                    Some(s) => int_shift(op, k, x, s),
                    None => None,
                }
            } else {
                match get_int(b, k) {
                    Some(y) => int_binary(op, k, x, y),
                    None => None,
                }
            };
            match n {
                Some(m) => Some(Calc::Done(Value::Int(k, m))),
                None => None,
            }
        },
        None => {
            let field: bool = op == Opcode::ADD || op == Opcode::SUB || op == Opcode::MUL || op
                == Opcode::QUO;
            if t.fractional() && field && a.typ() == t && b.typ() == t {
                Some(Calc::Host(FloatTask::Binary { op, t, a, b }))
            } else {
                None
            }
        },
    }
}

/// A step up (`up`) or down of a word of type `t`.
pub open spec fn word_step(up: bool, t: ValueType, a: Value) -> Option<Calc> {
    match t.spec_int_kind() {
        Some(k) => match int_in(a, k) {
            Some(x) => Some(Calc::Done(Value::Int(k, wrap(k, if up { x + 1 } else { x - 1 }) as i128))),
            None => None,
        },
        None => if t.spec_fractional() && a.spec_typ() == t {
            Some(Calc::Host(if up { FloatTask::Inc { t, a } } else { FloatTask::Dec { t, a } }))
        } else {
            None
        },
    }
}

/// Moves a word of type `t` one step up or down.
pub fn step_word(up: bool, t: ValueType, a: Value) -> (r: Option<Calc>)
    ensures
        r == word_step(up, t, a),
{
    match t.int_kind() {
        Some(k) => match get_int(a, k) {
            Some(x) => {
                let y: i128 = if up {
                    x + 1
                } else {
                    x - 1
                };
                Some(Calc::Done(Value::Int(k, wrap_to(k, y))))
            },
            None => None,
        },
        None => if t.fractional() && a.typ() == t {
            if up {
                Some(Calc::Host(FloatTask::Inc { t, a }))
            } else {
                Some(Calc::Host(FloatTask::Dec { t, a }))
            }
        } else {
            None
        },
    }
}

/// The bits of a fraction with the sign turned.
pub open spec fn neg32(b: u32) -> u32 {
    (if b < 0x8000_0000 { b + 0x8000_0000 } else { b - 0x8000_0000 }) as u32
}

/// The bits of a fraction with the sign turned.
pub open spec fn neg64(b: u64) -> u64 {
    (if b < 0x8000_0000_0000_0000 { b + 0x8000_0000_0000_0000 } else { b - 0x8000_0000_0000_0000 }) as u64
}

fn turn32(b: u32) -> (r: u32)
    ensures
        r == neg32(b),
{
    if b < 0x8000_0000 {
        b + 0x8000_0000
    } else {
        b - 0x8000_0000
    }
}

fn turn64(b: u64) -> (r: u64)
    ensures
        r == neg64(b),
{
    if b < 0x8000_0000_0000_0000 {
        b + 0x8000_0000_0000_0000
    } else {
        b - 0x8000_0000_0000_0000
    }
}

/// A one-sided operation on a word of type `t`: the number with its sign
/// turned, the number with its bits turned, or the opposite truth.
pub open spec fn word_unary(op: Opcode, t: ValueType, a: Value) -> Option<Value> {
    match (op, a) {
        (Opcode::UNARY_SUB, Value::Int(k, n)) => if k.spec_value_type() == t && in_range(k, n as int) {
            Some(Value::Int(k, wrap(k, -n) as i128))
        } else {
            None
        },
        (Opcode::UNARY_XOR, Value::Int(k, n)) => if k.spec_value_type() == t && in_range(k, n as int) {
            Some(Value::Int(k, wrap(k, -n - 1) as i128))
        } else {
            None
        },
        (Opcode::UNARY_SUB, Value::Float32(b)) => if t == ValueType::Float32 {
            Some(Value::Float32(neg32(b)))
        } else {
            None
        },
        (Opcode::UNARY_SUB, Value::Float64(b)) => if t == ValueType::Float64 {
            Some(Value::Float64(neg64(b)))
        } else {
            None
        },
        (Opcode::UNARY_SUB, Value::Complex64(x, y)) => if t == ValueType::Complex64 {
            Some(Value::Complex64(neg32(x), neg32(y)))
        } else {
            None
        },
        (Opcode::UNARY_SUB, Value::Complex128(x, y)) => if t == ValueType::Complex128 {
            Some(Value::Complex128(neg64(x), neg64(y)))
        } else {
            None
        },
        (Opcode::NOT, Value::Bool(b)) => if t == ValueType::Bool {
            Some(Value::Bool(!b))
        } else {
            None
        },
        _ => None,
    }
}

/// Performs a one-sided operation on a word of type `t`.
pub fn unary_op(op: Opcode, t: ValueType, a: Value) -> (r: Option<Value>)
    ensures
        r == word_unary(op, t, a),
{
    if a.typ() != t {
        return None;
    }
    match op {
        Opcode::UNARY_SUB => match a {
            Value::Int(k, n) => if fits(k, n) {
                Some(Value::Int(k, wrap_to(k, -n)))
            } else {
                None
            },
            Value::Float32(b) => Some(Value::Float32(turn32(b))),
            Value::Float64(b) => Some(Value::Float64(turn64(b))),
            Value::Complex64(x, y) => Some(Value::Complex64(turn32(x), turn32(y))),
            Value::Complex128(x, y) => Some(Value::Complex128(turn64(x), turn64(y))),
            _ => None,
        },
        Opcode::UNARY_XOR => match a {
            Value::Int(k, n) => if fits(k, n) {
                Some(Value::Int(k, wrap_to(k, -n - 1)))
            } else {
                None
            },
            _ => None,
        },
        Opcode::NOT => match a {
            Value::Bool(b) => Some(Value::Bool(!b)),
            _ => None,
        },
        _ => None,
    }
}

/// Where a fraction stands in the order of all fractions; nothing for the bits
/// that stand for no number.
pub open spec fn rank32(b: u32) -> Option<int> {
    let m = b % 0x8000_0000;
    if m > 0x7f80_0000 {
        None
    } else {
        Some(if b < 0x8000_0000 { m as int } else { -(m as int) })
    }
}

/// Where a fraction stands in the order of all fractions; nothing for the bits
/// that stand for no number.
pub open spec fn rank64(b: u64) -> Option<int> {
    let m = b % 0x8000_0000_0000_0000;
    if m > 0x7ff0_0000_0000_0000 {
        None
    } else {
        Some(if b < 0x8000_0000_0000_0000 { m as int } else { -(m as int) })
    }
}

fn get_rank32(b: u32) -> (r: Option<i64>)
    ensures
        match r {
            Some(n) => rank32(b) == Some(n as int),
            None => rank32(b) is None,
        },
{
    let m: u32 = b % 0x8000_0000;
    if m > 0x7f80_0000 {
        None
    } else if b < 0x8000_0000 {
        Some(m as i64)
    } else {
        Some(-(m as i64))
    }
}

fn get_rank64(b: u64) -> (r: Option<i64>)
    ensures
        match r {
            Some(n) => rank64(b) == Some(n as int),
            None => rank64(b) is None,
        },
{
    let m: u64 = b % 0x8000_0000_0000_0000;
    if m > 0x7ff0_0000_0000_0000 {
        None
    } else if b < 0x8000_0000_0000_0000 {
        Some(m as i64)
    } else {
        Some(-(m as i64))
    }
}

/// Whether both are there and the same.
pub open spec fn both_equal(a: Option<int>, b: Option<int>) -> bool {
    match (a, b) {
        (Some(x), Some(y)) => x == y,
        _ => false,
    }
}

/// Whether both are there and the first comes before the second.
pub open spec fn both_less(a: Option<int>, b: Option<int>) -> bool {
    match (a, b) {
        (Some(x), Some(y)) => x < y,
        _ => false,
    }
}

fn ranks_equal(a: Option<i64>, b: Option<i64>) -> (r: bool)
    ensures
        r == (a is Some && b is Some && a == b),
{
    match (a, b) {
        (Some(x), Some(y)) => x == y,
        _ => false,
    }
}

fn ranks_less(a: Option<i64>, b: Option<i64>) -> (r: bool)
    ensures
        r == (a is Some && b is Some && a->0 < b->0),
{
    match (a, b) {
        (Some(x), Some(y)) => x < y,
        _ => false,
    }
}

/// Whether two words of the same type are equal. Fractions are equal when they
/// are the same number; what is no number equals nothing.
pub open spec fn word_equal(a: Value, b: Value) -> Option<bool> {
    match (a, b) {
        (Value::Bool(x), Value::Bool(y)) => Some(x == y),
        (Value::Int(j, x), Value::Int(k, y)) => if j == k {
            Some(x == y)
        } else {
            None
        },
        (Value::Float32(x), Value::Float32(y)) => Some(both_equal(rank32(x), rank32(y))),
        (Value::Float64(x), Value::Float64(y)) => Some(both_equal(rank64(x), rank64(y))),
        (Value::Complex64(x, i), Value::Complex64(y, j)) => Some(
            both_equal(rank32(x), rank32(y)) && both_equal(rank32(i), rank32(j)),
        ),
        (Value::Complex128(x, i), Value::Complex128(y, j)) => Some(
            both_equal(rank64(x), rank64(y)) && both_equal(rank64(i), rank64(j)),
        ),
        (Value::Function(x), Value::Function(y)) => Some(x == y),
        (Value::Package(x), Value::Package(y)) => Some(x == y),
        _ => None,
    }
}

/// Whether two words of the same type are equal.
pub fn words_equal(a: Value, b: Value) -> (r: Option<bool>)
    ensures
        r == word_equal(a, b),
{
    match (a, b) {
        (Value::Bool(x), Value::Bool(y)) => Some(x == y),
        (Value::Int(j, x), Value::Int(k, y)) => if j == k {
            Some(x == y)
        } else {
            None
        },
        (Value::Float32(x), Value::Float32(y)) => Some(ranks_equal(get_rank32(x), get_rank32(y))),
        (Value::Float64(x), Value::Float64(y)) => Some(ranks_equal(get_rank64(x), get_rank64(y))),
        (Value::Complex64(x, i), Value::Complex64(y, j)) => {
            let re: bool = ranks_equal(get_rank32(x), get_rank32(y));
            let im: bool = ranks_equal(get_rank32(i), get_rank32(j));
            Some(re && im)
        },
        (Value::Complex128(x, i), Value::Complex128(y, j)) => {
            let re: bool = ranks_equal(get_rank64(x), get_rank64(y));
            let im: bool = ranks_equal(get_rank64(i), get_rank64(j));
            Some(re && im)
        },
        (Value::Function(x), Value::Function(y)) => Some(x == y),
        (Value::Package(x), Value::Package(y)) => Some(x == y),
        _ => None,
    }
}

/// Whether the first of two numbers of the same type is the smaller one.
pub open spec fn word_less(a: Value, b: Value) -> Option<bool> {
    match (a, b) {
        (Value::Int(j, x), Value::Int(k, y)) => if j == k {
            Some(x < y)
        } else {
            None
        },
        (Value::Float32(x), Value::Float32(y)) => Some(both_less(rank32(x), rank32(y))),
        (Value::Float64(x), Value::Float64(y)) => Some(both_less(rank64(x), rank64(y))),
        _ => None,
    }
}

/// Whether the first of two numbers of the same type is the smaller one.
pub fn words_less(a: Value, b: Value) -> (r: Option<bool>)
    ensures
        r == word_less(a, b),
{
    match (a, b) {
        (Value::Int(j, x), Value::Int(k, y)) => if j == k {
            Some(x < y)
        } else {
            None
        },
        (Value::Float32(x), Value::Float32(y)) => Some(ranks_less(get_rank32(x), get_rank32(y))),
        (Value::Float64(x), Value::Float64(y)) => Some(ranks_less(get_rank64(x), get_rank64(y))),
        _ => None,
    }
}

/// What a comparison of two words of type `t` gives.
pub open spec fn word_relation(op: Opcode, t: ValueType, a: Value, b: Value) -> Option<bool> {
    if a.spec_typ() != t || b.spec_typ() != t {
        None
    } else {
        match op {
            Opcode::EQL => word_equal(a, b),
            Opcode::NEQ => match word_equal(a, b) {
                Some(e) => Some(!e),
                None => None,
            },
            Opcode::LSS => word_less(a, b),
            Opcode::GTR => word_less(b, a),
            Opcode::LEQ => match (word_less(a, b), word_equal(a, b)) {
                (Some(l), Some(e)) => Some(l || e),
                _ => None,
            },
            Opcode::GEQ => match (word_less(b, a), word_equal(a, b)) {
                (Some(g), Some(e)) => Some(g || e),
                _ => None,
            },
            _ => None,
        }
    }
}

/// Compares two words of type `t`.
pub fn relate_words(op: Opcode, t: ValueType, a: Value, b: Value) -> (r: Option<bool>)
    ensures
        r == word_relation(op, t, a, b),
{
    if a.typ() != t || b.typ() != t {
        return None;
    }
    match op {
        Opcode::EQL => words_equal(a, b),
        Opcode::NEQ => match words_equal(a, b) {
            Some(e) => Some(!e),
            None => None,
        },
        Opcode::LSS => words_less(a, b),
        Opcode::GTR => words_less(b, a),
        Opcode::LEQ => match (words_less(a, b), words_equal(a, b)) {
            (Some(l), Some(e)) => Some(l || e),
            _ => None,
        },
        Opcode::GEQ => match (words_less(b, a), words_equal(a, b)) {
            (Some(g), Some(e)) => Some(g || e),
            _ => None,
        },
        _ => None,
    }
}

/// The bits of a number, as a number that is not negative, and how many numbers
/// of that width there are.
pub open spec fn word_bits(v: Value) -> Option<(int, int)> {
    match v {
        Value::Int(k, n) => if in_range(k, n as int) {
            Some((if n < 0 { n + modulus(k) } else { n as int }, modulus(k)))
        } else {
            None
        },
        Value::Float32(b) => Some((b as int, 0x1_0000_0000)),
        Value::Float64(b) => Some((b as int, 0x1_0000_0000_0000_0000)),
        _ => None,
    }
}

fn get_word_bits(v: Value) -> (r: Option<(u128, u128)>)
    ensures
        match r {
            Some((b, m)) => word_bits(v) == Some((b as int, m as int)),
            None => word_bits(v) is None,
        },
{
    match v {
        Value::Int(k, n) => if fits(k, n) {
            let m: u128 = modulus_of(k);
            if n < 0 {
                Some(((n + m as i128) as u128, m))
            } else {
                Some((n as u128, m))
            }
        } else {
            None
        },
        Value::Float32(b) => Some((b as u128, 0x1_0000_0000)),
        Value::Float64(b) => Some((b as u128, 0x1_0000_0000_0000_0000)),
        _ => None,
    }
}

/// What a word is when it is taken for one of type `t`: itself where it is one,
/// else the number of type `t` that has its low bits. There is none where the
/// word is no number, and where it is narrower than `t`.
pub open spec fn word_as(t: ValueType, v: Value) -> Option<Value> {
    if v.spec_typ() == t {
        Some(v)
    } else {
        match (word_bits(v), t.spec_int_kind()) {
            (Some((b, m)), Some(k)) => if modulus(k) <= m {
                Some(Value::Int(k, wrap(k, b) as i128))
            } else {
                None
            },
            (Some((b, m)), None) => if t == ValueType::Float32 && 0x1_0000_0000 <= m {
                Some(Value::Float32((b % 0x1_0000_0000) as u32))
            } else if t == ValueType::Float64 && 0x1_0000_0000_0000_0000 <= m {
                Some(Value::Float64(b as u64))
            } else {
                None
            },
            _ => None,
        }
    }
}

/// Takes a word for one of type `t`.
pub fn take_word_as(t: ValueType, v: Value) -> (r: Option<Value>)
    ensures
        r == word_as(t, v),
{
    if v.typ() == t {
        return Some(v);
    }
    match (get_word_bits(v), t.int_kind()) {
        (Some((b, m)), Some(k)) => if modulus_of(k) <= m {
            Some(Value::Int(k, wrap_unsigned(k, b)))
        } else {
            None
        },
        (Some((b, m)), None) => if t == ValueType::Float32 && 0x1_0000_0000 <= m {
            Some(Value::Float32((b % 0x1_0000_0000) as u32))
        } else if t == ValueType::Float64 && 0x1_0000_0000_0000_0000 <= m {
            Some(Value::Float64(b as u64))
        } else {
            None
        },
        _ => None,
    }
}

/// What a comparison of two words gives when both are taken for words of type `t`.
pub open spec fn relation_as(op: Opcode, t: ValueType, a: Value, b: Value) -> Option<bool> {
    match (word_as(t, a), word_as(t, b)) {
        (Some(x), Some(y)) => word_relation(op, t, x, y),
        _ => None,
    }
}

/// Compares two words, each taken for one of type `t`.
pub fn relate_as(op: Opcode, t: ValueType, a: Value, b: Value) -> (r: Option<bool>)
    ensures
        r == relation_as(op, t, a, b),
{
    match (take_word_as(t, a), take_word_as(t, b)) {
        (Some(x), Some(y)) => relate_words(op, t, x, y),
        _ => None,
    }
}

/// The conversion of a word of type `from` into one of type `to`.
pub open spec fn word_cast(from: ValueType, to: ValueType, a: Value) -> Option<Calc> {
    if a.spec_typ() != from {
        None
    } else if from == to {
        Some(Calc::Done(a))
    } else {
        match (a, to.spec_int_kind()) {
            (Value::Int(k, n), Some(j)) => if in_range(k, n as int) {
                Some(Calc::Done(Value::Int(j, wrap(j, n as int) as i128)))
            } else {
                None
            },
            (_, j) => if (from.spec_fractional() || from.spec_int_kind() is Some) && (
            to.spec_fractional() || j is Some) {
                Some(Calc::Host(FloatTask::Cast { from, to, a }))
            } else {
                None
            },
        }
    }
}

/// Converts a word of type `from` into one of type `to`.
pub fn cast_copyable(from: ValueType, to: ValueType, a: Value) -> (r: Option<Calc>)
    ensures
        r == word_cast(from, to, a),
{
    if a.typ() != from {
        return None;
    }
    if from == to {
        return Some(Calc::Done(a));
    }
    match (a, to.int_kind()) {
        (Value::Int(k, n), Some(j)) => if fits(k, n) {
            Some(Calc::Done(Value::Int(j, wrap_to(j, n))))
        } else {
            None
        },
        (_, j) => if (from.fractional() || from.int_kind().is_some()) && (to.fractional()
            || j.is_some()) {
            Some(Calc::Host(FloatTask::Cast { from, to, a }))
        } else {
            None
        },
    }
}

} // verus!

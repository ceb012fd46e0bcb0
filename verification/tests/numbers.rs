//! Calculations, comparisons and conversions of words.
use go_vm::bytecode::Opcode;
use go_vm::num::{
    binary_op, cast_copyable, fits, int_binary, int_shift, relate_words, step_word, unary_op,
    words_equal, words_less, wrap_to, Calc, FloatTask,
};
use go_vm::value::{IntKind, Value, ValueType};

fn num(n: i128) -> Value {
    Value::Int(IntKind::Int, n)
}

fn small(n: i128) -> Value {
    Value::Int(IntKind::Int8, n)
}

fn done(v: Value) -> Option<Calc> {
    Some(Calc::Done(v))
}

fn calc(op: Opcode, a: i128, b: i128) -> Option<Calc> {
    binary_op(op, ValueType::Int, num(a), num(b))
}

#[test]
fn arithmetic_of_integers() {
    assert_eq!(calc(Opcode::ADD, 2, 3), done(num(5)));
    assert_eq!(calc(Opcode::SUB, 2, 3), done(num(-1)));
    assert_eq!(calc(Opcode::MUL, -4, 3), done(num(-12)));
    assert_eq!(calc(Opcode::QUO, -7, 2), done(num(-3)));
    assert_eq!(calc(Opcode::REM, -7, 2), done(num(-1)));
    assert_eq!(calc(Opcode::QUO, 7, -2), done(num(-3)));
    assert_eq!(calc(Opcode::REM, 7, -2), done(num(1)));
    assert_eq!(calc(Opcode::QUO, 1, 0), None);
    assert_eq!(calc(Opcode::REM, 1, 0), None);
}

#[test]
fn bits_of_integers() {
    assert_eq!(calc(Opcode::AND, 0b1100, 0b1010), done(num(0b1000)));
    assert_eq!(calc(Opcode::OR, 0b1100, 0b1010), done(num(0b1110)));
    assert_eq!(calc(Opcode::XOR, 0b1100, 0b1010), done(num(0b0110)));
    assert_eq!(calc(Opcode::AND_NOT, 0b1100, 0b1010), done(num(0b0100)));
    assert_eq!(calc(Opcode::SHL, 3, 4), done(num(48)));
    assert_eq!(calc(Opcode::SHR, -16, 2), done(num(-4)));
    assert_eq!(calc(Opcode::SHL, 3, 100), done(num(0)));
    assert_eq!(calc(Opcode::SHR, -1, 100), done(num(-1)));
}

#[test]
fn integers_wrap_around() {
    let add = |a, b| binary_op(Opcode::ADD, ValueType::Int8, small(a), small(b));
    assert_eq!(add(127, 1), done(small(-128)));
    assert_eq!(add(-128, -1), done(small(127)));
    let max = i64::MAX as i128;
    assert_eq!(calc(Opcode::ADD, max, 1), done(num(i64::MIN as i128)));
    assert_eq!(calc(Opcode::MUL, max, 2), done(num(-2)));
    assert_eq!(calc(Opcode::QUO, i64::MIN as i128, -1), done(num(i64::MIN as i128)));
    assert_eq!(int_binary(Opcode::SUB, IntKind::Uint8, 0, 1), Some(255));
    assert_eq!(int_shift(Opcode::SHL, IntKind::Uint8, 255, 4), Some(0xf0));
    assert_eq!(wrap_to(IntKind::Uint16, -1), 65535);
    assert_eq!(wrap_to(IntKind::Int16, 40000), -25536);
    assert!(fits(IntKind::Int8, -128) && !fits(IntKind::Int8, 128));
}

#[test]
fn division_leaves_a_remainder() {
    for a in [-9, -8, -1, 0, 1, 8, 9] {
        for b in [-4, -3, 3, 4] {
            let q = int_binary(Opcode::QUO, IntKind::Int, a, b).unwrap();
            let r = int_binary(Opcode::REM, IntKind::Int, a, b).unwrap();
            assert_eq!(q * b + r, a);
            assert!(r.abs() < b.abs());
        }
    }
}

#[test]
fn step_up_and_down_leads_back() {
    for n in [-128, -1, 0, 126, 127] {
        let up = match step_word(true, ValueType::Int8, small(n)) {
            Some(Calc::Done(v)) => v,
            r => panic!("not done: {:?}", r),
        };
        assert_eq!(step_word(false, ValueType::Int8, up), done(small(n)));
    }
    assert_eq!(step_word(true, ValueType::Int8, small(127)), done(small(-128)));
    assert_eq!(step_word(true, ValueType::Int16, small(1)), None);
}

#[test]
fn unary_operations() {
    assert_eq!(unary_op(Opcode::UNARY_SUB, ValueType::Int8, small(-128)), Some(small(-128)));
    assert_eq!(unary_op(Opcode::UNARY_SUB, ValueType::Int, num(5)), Some(num(-5)));
    assert_eq!(unary_op(Opcode::UNARY_XOR, ValueType::Int, num(5)), Some(num(-6)));
    let byte = Value::Int(IntKind::Uint8, 1);
    let inverse = Value::Int(IntKind::Uint8, 254);
    assert_eq!(unary_op(Opcode::UNARY_XOR, ValueType::Uint8, byte), Some(inverse));
    assert_eq!(
        unary_op(Opcode::NOT, ValueType::Bool, Value::Bool(true)),
        Some(Value::Bool(false))
    );
    let f = Value::Float64(1.5f64.to_bits());
    let g = Value::Float64((-1.5f64).to_bits());
    assert_eq!(unary_op(Opcode::UNARY_SUB, ValueType::Float64, f), Some(g));
    assert_eq!(unary_op(Opcode::NOT, ValueType::Int, num(1)), None);
}

#[test]
fn fractions_are_compared_as_numbers() {
    let f = |x: f64| Value::Float64(x.to_bits());
    let g = |x: f32| Value::Float32(x.to_bits());
    for (a, b) in [(1.0, 2.0), (-1.0, 1.0), (-2.0, -1.0), (0.0, -0.0), (f64::INFINITY, 1e300)] {
        assert_eq!(words_less(f(a), f(b)), Some(a < b));
        assert_eq!(words_less(f(b), f(a)), Some(b < a));
        assert_eq!(words_equal(f(a), f(b)), Some(a == b));
        assert_eq!(words_less(g(a as f32), g(b as f32)), Some((a as f32) < b as f32));
    }
    let nan = f(f64::NAN);
    assert_eq!(words_equal(nan, nan), Some(false));
    assert_eq!(relate_words(Opcode::NEQ, ValueType::Float64, nan, nan), Some(true));
    assert_eq!(relate_words(Opcode::LEQ, ValueType::Float64, nan, nan), Some(false));
    assert_eq!(relate_words(Opcode::GEQ, ValueType::Float64, nan, f(0.0)), Some(false));
}

#[test]
fn integers_are_smaller_equal_or_greater() {
    for (a, b) in [(1, 2), (2, 2), (3, 2), (-1, 1)] {
        let rel = |op| relate_words(op, ValueType::Int, num(a), num(b)).unwrap();
        assert_eq!(rel(Opcode::LSS), a < b);
        assert_eq!(rel(Opcode::EQL), a == b);
        assert_eq!(rel(Opcode::GTR), a > b);
        assert_eq!(rel(Opcode::LEQ), a <= b);
        assert_eq!(rel(Opcode::GEQ), a >= b);
        assert_eq!(rel(Opcode::NEQ), a != b);
    }
    assert_eq!(relate_words(Opcode::EQL, ValueType::Int, num(1), small(1)), None);
}

#[test]
fn conversions_of_integers() {
    let cast = |to, n| cast_copyable(ValueType::Int, to, num(n));
    assert_eq!(cast(ValueType::Uint8, 300), done(Value::Int(IntKind::Uint8, 44)));
    assert_eq!(cast(ValueType::Int8, 200), done(small(-56)));
    assert_eq!(cast(ValueType::Uint64, -1), done(Value::Int(IntKind::Uint64, u64::MAX as i128)));
    assert_eq!(cast(ValueType::Int, 7), done(num(7)));
    assert_eq!(cast_copyable(ValueType::Int8, ValueType::Int, num(1)), None);
}

#[test]
fn fractions_are_for_the_host() {
    let (a, b) = (Value::Float64(1.5f64.to_bits()), Value::Float64(2.5f64.to_bits()));
    let t = ValueType::Float64;
    let op = Opcode::ADD;
    assert_eq!(
        binary_op(op, t, a, b),
        Some(Calc::Host(FloatTask::Binary { op, t, a, b }))
    );
    assert_eq!(step_word(true, t, a), Some(Calc::Host(FloatTask::Inc { t, a })));
    assert_eq!(step_word(false, t, a), Some(Calc::Host(FloatTask::Dec { t, a })));
    let (from, to) = (ValueType::Int, ValueType::Float64);
    assert_eq!(
        cast_copyable(from, to, num(3)),
        Some(Calc::Host(FloatTask::Cast { from, to, a: num(3) }))
    );
    assert_eq!(binary_op(Opcode::REM, t, a, b), None);
    assert_eq!(binary_op(Opcode::ADD, t, a, num(1)), None);
}

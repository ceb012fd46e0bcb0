//! What the comparisons of fractions, strings and other values mean.
use vstd::prelude::*;
use crate::bytecode::{Bytecode, FieldInfo, MetadataType, Opcode};
use crate::content::{
    bytes_less, depth, equal_region, equal_rest, equal_value, lemma_equal_no_panic, str_bytes,
};
use crate::fiber::FiberView;
use crate::laws_basis::{
    comes_to, has_slot, holds, inst_at, lemma_goes_on, lemma_operand, lemma_result, lemma_spells,
    lemma_step, lemma_stops, spells, with_result,
};
use crate::laws_flow::{can_jump, lemma_jump, only_moves};
use crate::laws_memory::element;
use crate::laws_words::{compares, in_order, results_in};
use crate::machine::VmView;
use crate::meta::{field_metas, identical, identical_rest, same_names, same_type};
use crate::num::{both_equal, rank32, rank64, relation_as};
use crate::run::step;
use crate::value::{InterfaceObj, Meta, Region, Value, ValueType};

verus! {

/// The number that the bits of a fraction count from zero, up or down. Bits from `sign`
/// on are those of negative fractions.
pub open spec fn counted_from_zero(sign: int, b: int) -> int {
    if b < sign {
        b
    } else {
        sign - b
    }
}

/// Whether the bits of a fraction stand for a number: they count no further than those
/// of the infinities.
pub open spec fn is_number(sign: int, top: int, b: int) -> bool {
    -top <= counted_from_zero(sign, b) <= top
}

/// How two fractions compare. Bits that stand for no number are not equal to any, nor
/// less, nor greater.
pub open spec fn fractions_in_order(op: Opcode, sign: int, top: int, a: int, b: int) -> bool {
    let x = counted_from_zero(sign, a);
    let y = counted_from_zero(sign, b);
    let both = is_number(sign, top, a) && is_number(sign, top, b);
    in_order(op, both && x < y, both && x == y, both && x > y)
}

proof fn lemma_rank32(b: u32)
    ensures
        rank32(b) == if is_number(0x8000_0000, 0x7f80_0000, b as int) {
            Some(counted_from_zero(0x8000_0000, b as int))
        } else {
            None
        },
{
    if b < 0x8000_0000 {
        assert(b % 0x8000_0000 == b) by (nonlinear_arith)
            requires
                b < 0x8000_0000,
        ;
    } else {
        assert(b % 0x8000_0000 == b - 0x8000_0000) by (nonlinear_arith)
            requires
                0x8000_0000 <= b,
        ;
    }
}

proof fn lemma_relation32(op: Opcode, a: u32, b: u32)
    requires
        compares(op),
    ensures
        relation_as(op, ValueType::Float32, Value::Float32(a), Value::Float32(b)) == Some(
            fractions_in_order(op, 0x8000_0000, 0x7f80_0000, a as int, b as int),
        ),
        both_equal(rank32(a), rank32(b)) == same32(a, b),
{
    lemma_rank32(a);
    lemma_rank32(b);
}

/// Fractions of 32 bits are compared by the numbers that their bits stand for.
pub proof fn law_fractions32_compare(
    p: &Bytecode,
    w: VmView,
    f: FiberView,
    op: Opcode,
    a: u32,
    b: u32,
)
    requires
        comes_to(p, f, op, 0),
        compares(op),
        inst_at(p, f).t0 == ValueType::Float32 && inst_at(p, f).t1 == ValueType::Float32,
        holds(p, w, f, inst_at(p, f).s0, Value::Float32(a)),
        holds(p, w, f, inst_at(p, f).s1, Value::Float32(b)),
        has_slot(w, f, inst_at(p, f).d as int),
    ensures
        results_in(
            p,
            w,
            f,
            inst_at(p, f).d,
            Value::Bool(fractions_in_order(op, 0x8000_0000, 0x7f80_0000, a as int, b as int)),
        ),
{
    let inst = inst_at(p, f);
    let v = Value::Bool(fractions_in_order(op, 0x8000_0000, 0x7f80_0000, a as int, b as int));
    lemma_operand(p, w, f, inst.s0);
    lemma_operand(p, w, f, inst.s1);
    lemma_relation32(op, a, b);
    lemma_result(w, f, inst.d, v);
    lemma_goes_on(p, w, f, with_result(w, f, inst.d as int, v));
}

proof fn lemma_rank64(b: u64)
    ensures
        rank64(b) == if is_number(0x8000_0000_0000_0000, 0x7ff0_0000_0000_0000, b as int) {
            Some(counted_from_zero(0x8000_0000_0000_0000, b as int))
        } else {
            None
        },
{
    if b < 0x8000_0000_0000_0000 {
        assert(b % 0x8000_0000_0000_0000 == b) by (nonlinear_arith)
            requires
                b < 0x8000_0000_0000_0000,
        ;
    } else {
        assert(b % 0x8000_0000_0000_0000 == b - 0x8000_0000_0000_0000) by (nonlinear_arith)
            requires
                0x8000_0000_0000_0000 <= b,
        ;
    }
}

proof fn lemma_relation64(op: Opcode, a: u64, b: u64)
    requires
        compares(op),
    ensures
        relation_as(op, ValueType::Float64, Value::Float64(a), Value::Float64(b)) == Some(
            fractions_in_order(op, 0x8000_0000_0000_0000, 0x7ff0_0000_0000_0000, a as int, b as int),
        ),
        both_equal(rank64(a), rank64(b)) == same64(a, b),
{
    lemma_rank64(a);
    lemma_rank64(b);
}

/// Fractions of 64 bits are compared by the numbers that their bits stand for.
pub proof fn law_fractions64_compare(
    p: &Bytecode,
    w: VmView,
    f: FiberView,
    op: Opcode,
    a: u64,
    b: u64,
)
    requires
        comes_to(p, f, op, 0),
        compares(op),
        inst_at(p, f).t0 == ValueType::Float64 && inst_at(p, f).t1 == ValueType::Float64,
        holds(p, w, f, inst_at(p, f).s0, Value::Float64(a)),
        holds(p, w, f, inst_at(p, f).s1, Value::Float64(b)),
        has_slot(w, f, inst_at(p, f).d as int),
    ensures
        results_in(
            p,
            w,
            f,
            inst_at(p, f).d,
            Value::Bool(
                fractions_in_order(
                    op,
                    0x8000_0000_0000_0000,
                    0x7ff0_0000_0000_0000,
                    a as int,
                    b as int,
                ),
            ),
        ),
{
    let inst = inst_at(p, f);
    let v = Value::Bool(
        fractions_in_order(
            op,
            0x8000_0000_0000_0000,
            0x7ff0_0000_0000_0000,
            a as int,
            b as int,
        ),
    );
    lemma_operand(p, w, f, inst.s0);
    lemma_operand(p, w, f, inst.s1);
    lemma_relation64(op, a, b);
    lemma_result(w, f, inst.d, v);
    lemma_goes_on(p, w, f, with_result(w, f, inst.d as int, v));
}

/// Truth values are compared.
pub proof fn law_truth_values_compare(
    p: &Bytecode,
    w: VmView,
    f: FiberView,
    op: Opcode,
    a: bool,
    b: bool,
)
    requires
        comes_to(p, f, op, 0),
        op == Opcode::EQL || op == Opcode::NEQ,
        inst_at(p, f).t0 == ValueType::Bool && inst_at(p, f).t1 == ValueType::Bool,
        holds(p, w, f, inst_at(p, f).s0, Value::Bool(a)),
        holds(p, w, f, inst_at(p, f).s1, Value::Bool(b)),
        has_slot(w, f, inst_at(p, f).d as int),
    ensures
        results_in(p, w, f, inst_at(p, f).d, Value::Bool((a == b) == (op == Opcode::EQL))),
{
    let inst = inst_at(p, f);
    let v = Value::Bool((a == b) == (op == Opcode::EQL));
    lemma_operand(p, w, f, inst.s0);
    lemma_operand(p, w, f, inst.s1);
    lemma_result(w, f, inst.d, v);
    lemma_goes_on(p, w, f, with_result(w, f, inst.d as int, v));
}

/// Whether a string comes before another: they are the same up to a place where the
/// first ends or has the smaller byte.
pub open spec fn precedes(a: Seq<u8>, b: Seq<u8>) -> bool {
    exists|k: int| #[trigger] parts_at(a, b, k)
}

/// Whether two strings are the same up to a place where the first ends or has the
/// smaller byte.
pub open spec fn parts_at(a: Seq<u8>, b: Seq<u8>, k: int) -> bool {
    &&& 0 <= k <= a.len()
    &&& k < b.len()
    &&& a.subrange(0, k) == b.subrange(0, k)
    &&& k == a.len() || a[k] < b[k]
}

proof fn lemma_precedes(a: Seq<u8>, b: Seq<u8>, i: nat)
    requires
        i <= a.len() && i <= b.len(),
        a.subrange(0, i as int) == b.subrange(0, i as int),
    ensures
        bytes_less(a, b, i) <==> precedes(a, b),
    decreases b.len() - i,
{
    let n = i as int;
    if i < a.len() && i < b.len() && a[n] == b[n] {
        assert(a.subrange(0, n + 1) =~= a.subrange(0, n).push(a[n]));
        assert(b.subrange(0, n + 1) =~= b.subrange(0, n).push(b[n]));
        lemma_precedes(a, b, i + 1);
    } else {
        if bytes_less(a, b, i) {
            assert(parts_at(a, b, n));
        }
        if precedes(a, b) {
            let k = choose|k: int| #[trigger] parts_at(a, b, k);
            if k < n {
                assert(a.subrange(0, n)[k] == b.subrange(0, n)[k]);
            } else if k > n {
                assert(a.subrange(0, k)[n] == b.subrange(0, k)[n]);
            }
        }
    }
}

/// Strings are compared byte by byte.
pub proof fn law_strings_compare(
    p: &Bytecode,
    w: VmView,
    f: FiberView,
    op: Opcode,
    a: Value,
    b: Value,
    s: Seq<u8>,
    t: Seq<u8>,
)
    requires
        comes_to(p, f, op, 0),
        compares(op),
        inst_at(p, f).t0 == ValueType::String,
        holds(p, w, f, inst_at(p, f).s0, a),
        holds(p, w, f, inst_at(p, f).s1, b),
        a matches Value::Str(x) && spells(w.cells, x, s),
        b matches Value::Str(y) && spells(w.cells, y, t),
        has_slot(w, f, inst_at(p, f).d as int),
    ensures
        results_in(
            p,
            w,
            f,
            inst_at(p, f).d,
            Value::Bool(in_order(op, precedes(s, t), s == t, precedes(t, s))),
        ),
{
    let inst = inst_at(p, f);
    lemma_operand(p, w, f, inst.s0);
    lemma_operand(p, w, f, inst.s1);
    lemma_spells(w.cells, a->Str_0, s);
    lemma_spells(w.cells, b->Str_0, t);
    assert(s.subrange(0, 0) =~= t.subrange(0, 0));
    lemma_precedes(s, t, 0);
    lemma_precedes(t, s, 0);
    lemma_one_order(s, t);
    let v = Value::Bool(in_order(op, precedes(s, t), s == t, precedes(t, s)));
    lemma_result(w, f, inst.d, v);
    lemma_goes_on(p, w, f, with_result(w, f, inst.d as int, v));
}

/// Of two strings one comes before the other, or they are the same.
proof fn lemma_one_order(a: Seq<u8>, b: Seq<u8>)
    ensures
        !precedes(b, a) <==> precedes(a, b) || a == b,
        !precedes(a, b) <==> precedes(b, a) || a == b,
{
    assert(a.subrange(0, 0) =~= b.subrange(0, 0));
    lemma_precedes(a, b, 0);
    lemma_precedes(b, a, 0);
    lemma_orders(a, b, 0);
}

proof fn lemma_orders(a: Seq<u8>, b: Seq<u8>, i: nat)
    requires
        i <= a.len() && i <= b.len(),
        a.subrange(0, i as int) == b.subrange(0, i as int),
    ensures
        !bytes_less(b, a, i) <==> bytes_less(a, b, i) || a == b,
        !bytes_less(a, b, i) <==> bytes_less(b, a, i) || a == b,
    decreases b.len() - i,
{
    let n = i as int;
    if i < a.len() && i < b.len() {
        if a[n] == b[n] {
            assert(a.subrange(0, n + 1) =~= a.subrange(0, n).push(a[n]));
            assert(b.subrange(0, n + 1) =~= b.subrange(0, n).push(b[n]));
            lemma_orders(a, b, i + 1);
        }
    } else if a.len() == b.len() {
        assert(a =~= a.subrange(0, n));
        assert(b =~= b.subrange(0, n));
    }
}

/// Whether two fractions are equal.
pub open spec fn same_fraction(sign: int, top: int, a: int, b: int) -> bool {
    &&& is_number(sign, top, a) && is_number(sign, top, b)
    &&& counted_from_zero(sign, a) == counted_from_zero(sign, b)
}

/// Whether two fractions of 32 bits are equal.
pub open spec fn same32(a: u32, b: u32) -> bool {
    same_fraction(0x8000_0000, 0x7f80_0000, a as int, b as int)
}

/// Whether two fractions of 64 bits are equal.
pub open spec fn same64(a: u64, b: u64) -> bool {
    same_fraction(0x8000_0000_0000_0000, 0x7ff0_0000_0000_0000, a as int, b as int)
}

/// Whether two interface values say that they are of different types.
pub open spec fn types_differ(p: &Bytecode, a: Option<usize>, b: Option<usize>) -> bool {
    a is Some && b is Some && p.ifaces@[a->Some_0 as int].meta != p.ifaces@[b->Some_0 as int].meta
}

/// Whether two values are alike, looked at `n` levels deep: strings have the same
/// bytes, arrays and structs are alike in all their parts, an interface value is like
/// the value that it holds and like another that holds a value of the same type that
/// is alike, all nils are alike, and handles are alike if they are the same.
pub open spec fn alike(p: &Bytecode, cells: Seq<Value>, a: Value, b: Value, n: nat) -> bool
    decreases n, 1nat,
{
    match (a, b) {
        (Value::Nil(_), _) => b is Nil,
        (_, Value::Nil(_)) => false,
        (Value::Str(x), Value::Str(y)) => exists|s: Seq<u8>| #[trigger]
            spells(cells, x, s) && spells(cells, y, s),
        (Value::Array(x), Value::Array(y)) => parts_alike(p, cells, x, y, n),
        (Value::Struct(x), Value::Struct(y)) => parts_alike(p, cells, x, y, n),
        (
            Value::Interface(InterfaceObj::Gos { under: x, binding: c }),
            Value::Interface(InterfaceObj::Gos { under: y, binding: d }),
        ) => n > 0 && !types_differ(p, c, d) && alike(
            p,
            cells,
            cells[x as int],
            cells[y as int],
            (n - 1) as nat,
        ),
        (Value::Interface(x), Value::Interface(y)) => x == y,
        (Value::Interface(InterfaceObj::Gos { under: x, .. }), _) => n > 0 && alike(
            p,
            cells,
            cells[x as int],
            b,
            (n - 1) as nat,
        ),
        (_, Value::Interface(InterfaceObj::Gos { under: y, .. })) => n > 0 && alike(
            p,
            cells,
            a,
            cells[y as int],
            (n - 1) as nat,
        ),
        (Value::Float32(x), Value::Float32(y)) => same32(x, y),
        (Value::Float64(x), Value::Float64(y)) => same64(x, y),
        (Value::Complex64(x, i), Value::Complex64(y, j)) => same32(x, y) && same32(i, j),
        (Value::Complex128(x, i), Value::Complex128(y, j)) => same64(x, y) && same64(i, j),
        _ => a == b,
    }
}

/// Whether two arrays or structs are alike in all their parts.
pub open spec fn parts_alike(p: &Bytecode, cells: Seq<Value>, x: Region, y: Region, n: nat) -> bool
    decreases n, 0nat,
{
    &&& n > 0
    &&& x.len == y.len
    &&& forall|i: int|
        0 <= i < x.len ==> alike(
            p,
            cells,
            #[trigger] element(cells, x, i),
            element(cells, y, i),
            (n - 1) as nat,
        )
}

/// What equality means.
proof fn lemma_alike(p: &Bytecode, cells: Seq<Value>, a: Value, b: Value, n: nat)
    ensures
        equal_value(p, cells, a, b, n) matches Ok(e) ==> e == alike(p, cells, a, b, n),
    decreases n, 1nat, 0nat,
{
    match (a, b) {
        (Value::Nil(_), _) => {},
        (_, Value::Nil(_)) => {},
        (Value::Str(x), Value::Str(y)) => {
            match (str_bytes(cells, x), str_bytes(cells, y)) {
                (Ok(s), Ok(t)) => {
                    lemma_spells(cells, x, s);
                    lemma_spells(cells, y, t);
                    assert forall|u: Seq<u8>| #[trigger]
                        spells(cells, x, u) && spells(cells, y, u) implies s == t by {
                        lemma_spells(cells, x, u);
                        lemma_spells(cells, y, u);
                    }
                },
                _ => {},
            }
        },
        (Value::Array(x), Value::Array(y)) => {
            lemma_parts_alike(p, cells, x, y, n);
        },
        (Value::Struct(x), Value::Struct(y)) => {
            lemma_parts_alike(p, cells, x, y, n);
        },
        (
            Value::Interface(InterfaceObj::Gos { under: x, binding: _ }),
            Value::Interface(InterfaceObj::Gos { under: y, binding: _ }),
        ) => {
            if n > 0 {
                lemma_alike(p, cells, cells[x as int], cells[y as int], (n - 1) as nat);
            }
        },
        (Value::Interface(_), Value::Interface(_)) => {},
        (Value::Interface(InterfaceObj::Gos { under: x, binding: _ }), _) => {
            if n > 0 {
                lemma_alike(p, cells, cells[x as int], b, (n - 1) as nat);
            }
        },
        (_, Value::Interface(InterfaceObj::Gos { under: y, binding: _ })) => {
            if n > 0 {
                lemma_alike(p, cells, a, cells[y as int], (n - 1) as nat);
            }
        },
        (Value::Float32(x), Value::Float32(y)) => {
            lemma_relation32(Opcode::EQL, x, y);
        },
        (Value::Float64(x), Value::Float64(y)) => {
            lemma_relation64(Opcode::EQL, x, y);
        },
        (Value::Complex64(x, i), Value::Complex64(y, j)) => {
            lemma_relation32(Opcode::EQL, x, y);
            lemma_relation32(Opcode::EQL, i, j);
        },
        (Value::Complex128(x, i), Value::Complex128(y, j)) => {
            lemma_relation64(Opcode::EQL, x, y);
            lemma_relation64(Opcode::EQL, i, j);
        },
        _ => {},
    }
}

proof fn lemma_parts_alike(p: &Bytecode, cells: Seq<Value>, x: Region, y: Region, n: nat)
    ensures
        equal_region(p, cells, x, y, n) matches Ok(e) ==> e == parts_alike(p, cells, x, y, n),
    decreases n, 0nat, 0nat,
{
    if n > 0 && x.base + x.len <= cells.len() && y.base + y.len <= cells.len() && x.len == y.len {
        let s = cells.subrange(x.base as int, x.base + x.len);
        let t = cells.subrange(y.base as int, y.base + y.len);
        lemma_rest_alike(p, cells, s, t, 0, (n - 1) as nat);
        match equal_rest(p, cells, s, t, 0, (n - 1) as nat) {
            Ok(e) => {
                assert forall|i: int| 0 <= i < x.len implies #[trigger] element(cells, x, i) == s[i]
                    && element(cells, y, i) == t[i] by {}
                if e {
                    assert forall|i: int| 0 <= i < x.len implies alike(
                        p,
                        cells,
                        #[trigger] element(cells, x, i),
                        element(cells, y, i),
                        (n - 1) as nat,
                    ) by {
                        assert(alike(p, cells, s[i], t[i], (n - 1) as nat));
                    }
                } else {
                    let i = choose|i: int|
                        0 <= i < s.len() && !alike(
                            p,
                            cells,
                            #[trigger] s[i],
                            t[i],
                            (n - 1) as nat,
                        );
                    assert(element(cells, x, i) == s[i]);
                }
            },
            Err(_) => {},
        }
    }
}

proof fn lemma_rest_alike(
    p: &Bytecode,
    cells: Seq<Value>,
    s: Seq<Value>,
    t: Seq<Value>,
    i: nat,
    n: nat,
)
    ensures
        equal_rest(p, cells, s, t, i, n) matches Ok(e) ==> (e <==> forall|j: int|
            i <= j < s.len() ==> alike(p, cells, #[trigger] s[j], t[j], n)),
    decreases n, 2nat, s.len() - i,
{
    if i < s.len() {
        lemma_alike(p, cells, s[i as int], t[i as int], n);
        lemma_rest_alike(p, cells, s, t, i + 1, n);
        match equal_value(p, cells, s[i as int], t[i as int], n) {
            Ok(true) => {
                assert(alike(p, cells, s[i as int], t[i as int], n));
            },
            Ok(false) => {
                assert(!alike(p, cells, s[i as int], t[i as int], n));
            },
            Err(_) => {},
        }
    }
}

/// Whether two values are told apart without a look into the cells.
pub open spec fn are_handles(a: Value, b: Value) -> bool {
    ||| a is Nil || b is Nil
    ||| !(a is Interface) && !(b is Interface) && !(a is Str && b is Str) && !(a is Array
        && b is Array) && !(a is Struct && b is Struct)
}

/// Values that are not plain words are equal if they are alike.
pub proof fn law_values_compare(p: &Bytecode, w: VmView, f: FiberView, op: Opcode, a: Value, b: Value)
    requires
        comes_to(p, f, op, 0),
        op == Opcode::EQL || op == Opcode::NEQ,
        !inst_at(p, f).t0.spec_copyable() || op == Opcode::EQL && inst_at(p, f).t0 != inst_at(
            p,
            f,
        ).t1,
        holds(p, w, f, inst_at(p, f).s0, a),
        holds(p, w, f, inst_at(p, f).s1, b),
        has_slot(w, f, inst_at(p, f).d as int),
    ensures
        step(p, w, f) is Some ==> results_in(
            p,
            w,
            f,
            inst_at(p, f).d,
            Value::Bool(alike(p, w.cells, a, b, w.cells.len() + 1) == (op == Opcode::EQL)),
        ),
        are_handles(a, b) ==> step(p, w, f) is Some,
{
    let inst = inst_at(p, f);
    lemma_operand(p, w, f, inst.s0);
    lemma_operand(p, w, f, inst.s1);
    lemma_alike(p, w.cells, a, b, depth(w.cells));
    lemma_equal_no_panic(p, w.cells, a, b, depth(w.cells));
    let v = Value::Bool(alike(p, w.cells, a, b, w.cells.len() + 1) == (op == Opcode::EQL));
    lemma_result(w, f, inst.d, v);
    match equal_value(p, w.cells, a, b, depth(w.cells)) {
        Ok(_) => {
            lemma_goes_on(p, w, f, with_result(w, f, inst.d as int, v));
        },
        Err(_) => {
            lemma_stops(p, w, f);
        },
    }
}

/// Complex numbers, functions and packages are compared too.
pub proof fn law_words_compare(p: &Bytecode, w: VmView, f: FiberView, op: Opcode, a: Value, b: Value)
    requires
        comes_to(p, f, op, 0),
        op == Opcode::EQL || op == Opcode::NEQ,
        ({
            let t = inst_at(p, f).t0;
            &&& inst_at(p, f).t1 == t
            &&& ({
                ||| t == ValueType::Complex64 && a is Complex64 && b is Complex64
                ||| t == ValueType::Function && a is Function && b is Function
                ||| t == ValueType::Package && a is Package && b is Package
            })
        }),
        holds(p, w, f, inst_at(p, f).s0, a),
        holds(p, w, f, inst_at(p, f).s1, b),
        has_slot(w, f, inst_at(p, f).d as int),
    ensures
        results_in(
            p,
            w,
            f,
            inst_at(p, f).d,
            Value::Bool(alike(p, w.cells, a, b, 0) == (op == Opcode::EQL)),
        ),
{
    let inst = inst_at(p, f);
    let v = Value::Bool(alike(p, w.cells, a, b, 0) == (op == Opcode::EQL));
    lemma_operand(p, w, f, inst.s0);
    lemma_operand(p, w, f, inst.s1);
    lemma_alike(p, w.cells, a, b, 0);
    lemma_result(w, f, inst.d, v);
    lemma_goes_on(p, w, f, with_result(w, f, inst.d as int, v));
}

proof fn lemma_words_alike(p: &Bytecode, w: VmView, t: ValueType, a: Value, b: Value)
    requires
        t == ValueType::Bool && a is Bool && b is Bool || t == ValueType::Float32 && a is Float32
            && b is Float32 || t == ValueType::Float64 && a is Float64 && b is Float64,
    ensures
        relation_as(Opcode::EQL, t, a, b) == Some(alike(p, w.cells, a, b, 0)),
{
    match (a, b) {
        (Value::Float32(x), Value::Float32(y)) => {
            lemma_relation32(Opcode::EQL, x, y);
        },
        (Value::Float64(x), Value::Float64(y)) => {
            lemma_relation64(Opcode::EQL, x, y);
        },
        _ => {},
    }
}

/// A switch between truth values or fractions jumps where they are equal.
pub proof fn law_switch_of_words(p: &Bytecode, w: VmView, f: FiberView, a: Value, b: Value)
    requires
        comes_to(p, f, Opcode::SWITCH, 0),
        holds(p, w, f, inst_at(p, f).s0, a),
        holds(p, w, f, inst_at(p, f).s1, b),
        can_jump(f, inst_at(p, f).d),
        ({
            let t = inst_at(p, f).t0;
            t == ValueType::Bool && a is Bool && b is Bool || t == ValueType::Float32 && a is Float32
                && b is Float32 || t == ValueType::Float64 && a is Float64 && b is Float64
        }),
    ensures
        only_moves(
            p,
            w,
            f,
            if alike(p, w.cells, a, b, 0) {
                1 + inst_at(p, f).d
            } else {
                1
            },
        ),
{
    lemma_operand(p, w, f, inst_at(p, f).s0);
    lemma_operand(p, w, f, inst_at(p, f).s1);
    lemma_words_alike(p, w, inst_at(p, f).t0, a, b);
    lemma_step(p, w, f);
    lemma_jump(f, inst_at(p, f).d as int);
    lemma_jump(f, 0);
}

/// Whether two types are the same, looked at `n` levels deep: they have the same
/// description, or neither has a name and they are made of the same types in the same
/// way.
pub open spec fn types_alike(p: &Bytecode, a: Meta, b: Meta, n: nat) -> bool
    decreases n, 1nat,
{
    &&& a.category == b.category
    &&& a.ptr_depth == b.ptr_depth
    &&& a.key == b.key || n > 0 && match (p.metas@[a.key as int], p.metas@[b.key as int]) {
        (MetadataType::Basic(x), MetadataType::Basic(y)) => x == y,
        (MetadataType::Array(x, i), MetadataType::Array(y, j)) => i == j && types_alike(
            p,
            x,
            y,
            (n - 1) as nat,
        ),
        (MetadataType::Slice(x), MetadataType::Slice(y)) => types_alike(p, x, y, (n - 1) as nat),
        (MetadataType::GoMap(k, x), MetadataType::GoMap(l, y)) => types_alike(
            p,
            k,
            l,
            (n - 1) as nat,
        ) && types_alike(p, x, y, (n - 1) as nat),
        (MetadataType::Channel(d, x), MetadataType::Channel(e, y)) => d == e && types_alike(
            p,
            x,
            y,
            (n - 1) as nat,
        ),
        (MetadataType::Struct(f), MetadataType::Struct(g)) => fields_alike(
            p,
            f@,
            g@,
            (n - 1) as nat,
        ),
        (MetadataType::Interface(f), MetadataType::Interface(g)) => fields_alike(
            p,
            f@,
            g@,
            (n - 1) as nat,
        ),
        (
            MetadataType::Signature { params: x, results: r },
            MetadataType::Signature { params: y, results: s },
        ) => lists_alike(p, x@, y@, (n - 1) as nat) && lists_alike(p, r@, s@, (n - 1) as nat),
        _ => false,
    }
}

/// Whether two lists of types are the same.
pub open spec fn lists_alike(p: &Bytecode, a: Seq<Meta>, b: Seq<Meta>, n: nat) -> bool
    decreases n, 2nat,
{
    &&& a.len() == b.len()
    &&& forall|i: int| 0 <= i < a.len() ==> types_alike(p, #[trigger] a[i], b[i], n)
}

/// Whether two lists of fields or methods have the same names and types.
pub open spec fn fields_alike(p: &Bytecode, f: Seq<FieldInfo>, g: Seq<FieldInfo>, n: nat) -> bool
    decreases n, 2nat,
{
    &&& f.len() == g.len()
    &&& forall|i: int|
        0 <= i < f.len() ==> (#[trigger] f[i]).name@ == g[i].name@ && types_alike(
            p,
            f[i].meta,
            g[i].meta,
            n,
        )
}

proof fn lemma_types_alike(p: &Bytecode, a: Meta, b: Meta, n: nat)
    ensures
        identical(p, a, b, n) matches Ok(e) ==> e == types_alike(p, a, b, n),
    decreases n, 1nat, 0nat,
{
    if a.category == b.category && a.ptr_depth == b.ptr_depth && a.key != b.key && n > 0 && a.key
        < p.metas@.len() && b.key < p.metas@.len() {
        let k = (n - 1) as nat;
        match (p.metas@[a.key as int], p.metas@[b.key as int]) {
            (MetadataType::Array(x, _), MetadataType::Array(y, _)) => {
                lemma_types_alike(p, x, y, k);
            },
            (MetadataType::Slice(x), MetadataType::Slice(y)) => {
                lemma_types_alike(p, x, y, k);
            },
            (MetadataType::GoMap(m, x), MetadataType::GoMap(l, y)) => {
                let s = seq![m, x];
                let t = seq![l, y];
                lemma_lists_alike(p, s, t, 0, k);
                assert(lists_alike(p, s, t, k) <==> types_alike(p, m, l, k) && types_alike(
                    p,
                    x,
                    y,
                    k,
                )) by {
                    assert(s[0] == m && s[1] == x && t[0] == l && t[1] == y);
                }
            },
            (MetadataType::Channel(_, x), MetadataType::Channel(_, y)) => {
                lemma_types_alike(p, x, y, k);
            },
            (MetadataType::Struct(f), MetadataType::Struct(g)) => {
                lemma_fields_alike(p, f@, g@, k);
            },
            (MetadataType::Interface(f), MetadataType::Interface(g)) => {
                lemma_fields_alike(p, f@, g@, k);
            },
            (
                MetadataType::Signature { params: x, results: r },
                MetadataType::Signature { params: y, results: s },
            ) => {
                if x@.len() == y@.len() && r@.len() == s@.len() {
                    let c = x@ + r@;
                    let d = y@ + s@;
                    lemma_lists_alike(p, c, d, 0, k);
                    if lists_alike(p, c, d, k) {
                        assert forall|i: int| 0 <= i < x@.len() implies types_alike(
                            p,
                            #[trigger] x@[i],
                            y@[i],
                            k,
                        ) by {
                            assert(c[i] == x@[i] && d[i] == y@[i]);
                        }
                        assert(lists_alike(p, x@, y@, k));
                        assert forall|i: int| 0 <= i < r@.len() implies types_alike(
                            p,
                            #[trigger] r@[i],
                            s@[i],
                            k,
                        ) by {
                            assert(c[x@.len() + i] == r@[i] && d[x@.len() + i] == s@[i]);
                        }
                        assert(lists_alike(p, r@, s@, k));
                    } else {
                        let i = choose|i: int|
                            0 <= i < c.len() && !types_alike(p, #[trigger] c[i], d[i], k);
                        if i < x@.len() {
                            assert(!types_alike(p, x@[i], y@[i], k));
                            assert(!lists_alike(p, x@, y@, k));
                        } else {
                            assert(!types_alike(p, r@[i - x@.len()], s@[i - x@.len()], k));
                            assert(!lists_alike(p, r@, s@, k));
                        }
                    }
                } else {
                    assert(!lists_alike(p, x@, y@, k) || !lists_alike(p, r@, s@, k));
                }
            },
            _ => {},
        }
    }
}

proof fn lemma_fields_alike(p: &Bytecode, f: Seq<FieldInfo>, g: Seq<FieldInfo>, n: nat)
    ensures
        !same_names(f, g) ==> !fields_alike(p, f, g, n),
        same_names(f, g) ==> (identical_rest(p, field_metas(f), field_metas(g), 0, n) matches Ok(e)
            ==> e == fields_alike(p, f, g, n)),
    decreases n, 3nat, 0nat,
{
    if same_names(f, g) {
        let a = field_metas(f);
        let b = field_metas(g);
        lemma_lists_alike(p, a, b, 0, n);
        if lists_alike(p, a, b, n) {
            assert forall|i: int| 0 <= i < f.len() implies (#[trigger] f[i]).name@ == g[i].name@
                && types_alike(p, f[i].meta, g[i].meta, n) by {
                assert(a[i] == f[i].meta && b[i] == g[i].meta);
            }
        } else {
            let i = choose|i: int| 0 <= i < a.len() && !types_alike(p, #[trigger] a[i], b[i], n);
            assert(!types_alike(p, f[i].meta, g[i].meta, n));
        }
    }
}

proof fn lemma_lists_alike(p: &Bytecode, a: Seq<Meta>, b: Seq<Meta>, i: nat, n: nat)
    requires
        a.len() == b.len(),
    ensures
        identical_rest(p, a, b, i, n) matches Ok(e) ==> (e <==> forall|j: int|
            i <= j < a.len() ==> types_alike(p, #[trigger] a[j], b[j], n)),
    decreases n, 2nat, a.len() - i,
{
    if i < a.len() {
        lemma_types_alike(p, a[i as int], b[i as int], n);
        lemma_lists_alike(p, a, b, i + 1, n);
        match identical(p, a[i as int], b[i as int], n) {
            Ok(true) => {
                assert(types_alike(p, a[i as int], b[i as int], n));
            },
            Ok(false) => {
                assert(!types_alike(p, a[i as int], b[i as int], n));
            },
            Err(_) => {},
        }
    }
}

/// Types with a name are the same as themselves only; the others are the same if they
/// are made of the same types in the same way.
pub proof fn law_types_compare(p: &Bytecode, a: Meta, b: Meta)
    ensures
        same_type(p, a, b) matches Ok(e) ==> e == types_alike(p, a, b, p.metas@.len() + 1),
        a.key == b.key || a.ptr_depth != b.ptr_depth || a.category != b.category ==> same_type(
            p,
            a,
            b,
        ) is Ok,
{
    lemma_types_alike(p, a, b, p.metas@.len() + 1);
}

} // verus!

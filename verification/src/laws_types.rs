//! What holds of comparisons, shifts, casts, assertions and bindings.
use vstd::prelude::*;
use vstd::arithmetic::div_mod::lemma_mod_multiples_vanish;
use vstd::utf8::{decode_utf8, encode_scalar, is_scalar, valid_utf8};
use crate::bytecode::{Binding4Runtime, Bytecode, Instruction, Opcode};
use crate::content::{
    byte_values, bytes_of, copy_semantic, copy_value, depth, lemma_copy_shape, new_str, slice_seq,
    str_bytes,
};
use crate::effect::{result_place, settle, Effect, Query};
use crate::embed::{bindable, lemma_inner_method, spec_bind_iface_method, spec_type_assert, through};
use crate::fiber::{FiberView, StepView};
use crate::laws_values::law_characters_round_trip;
use crate::machine::{offset, Ctx, VmView};
use crate::num::{in_range, is_shift, lemma_wrap_in_range, modulus, wrap, FloatTask};
use crate::ops_place::calculate;
use crate::ops_type::cast;
use crate::ops_word::{relation, word_inst};
use crate::reply::{resume, Reply};
use crate::slices::slice_with_data;
use crate::text::rune_values;
use crate::trap::Trap;
use crate::value::{IntKind, InterfaceObj, SliceRef, Value, ValueType};

verus! {

/// Two values of one type, and any two of which the first is no plain word, are
/// different where they are not equal: each comparison succeeds where the other
/// does.
pub proof fn law_unequal_is_not_equal(
    p: &Bytecode,
    w: VmView,
    t: ValueType,
    u: ValueType,
    inst: Instruction,
    a: Value,
    b: Value,
)
    requires
        a.spec_typ() == t,
        b.spec_typ() == u,
        t == u || !t.spec_copyable(),
    ensures
        ({
            let eql = Instruction { op0: Opcode::EQL, t0: t, t1: u, ..inst };
            let neq = Instruction { op0: Opcode::NEQ, t0: t, t1: u, ..inst };
            relation(p, w, neq, a, b) == (match relation(p, w, eql, a, b) {
                Ok(e) => Ok(!e),
                Err(e) => Err(e),
            })
        }),
{
}

proof fn lemma_low_bits(j: IntKind, k: IntKind, n: int)
    requires
        modulus(j) <= modulus(k),
    ensures
        wrap(j, n + modulus(k)) == wrap(j, n),
{
    match j {
        IntKind::Int8 | IntKind::Uint8 => {
            lemma_mod_multiples_vanish(modulus(k) / 0x100, n, 0x100);
        },
        IntKind::Int16 | IntKind::Uint16 => {
            lemma_mod_multiples_vanish(modulus(k) / 0x1_0000, n, 0x1_0000);
        },
        IntKind::Int32 | IntKind::Uint32 => {
            lemma_mod_multiples_vanish(modulus(k) / 0x1_0000_0000, n, 0x1_0000_0000);
        },
        _ => {
            lemma_mod_multiples_vanish(1, n, 0x1_0000_0000_0000_0000);
        },
    }
}

/// Two integers of different types are never equal, and they are different where
/// the first does not have the low bits of the second.
pub proof fn law_integers_of_two_types(
    p: &Bytecode,
    w: VmView,
    inst: Instruction,
    j: IntKind,
    k: IntKind,
    m: i128,
    n: i128,
)
    requires
        j != k,
        modulus(j) <= modulus(k),
        in_range(j, m as int),
        in_range(k, n as int),
    ensures
        ({
            let (a, b) = (Value::Int(j, m), Value::Int(k, n));
            let (t, u) = (a.spec_typ(), b.spec_typ());
            let eql = Instruction { op0: Opcode::EQL, t0: t, t1: u, ..inst };
            let neq = Instruction { op0: Opcode::NEQ, t0: t, t1: u, ..inst };
            &&& relation(p, w, eql, a, b) == Ok::<bool, Trap>(false)
            &&& relation(p, w, neq, a, b) == Ok::<bool, Trap>(m != wrap(j, n as int))
        }),
{
    lemma_low_bits(j, k, n as int);
    lemma_wrap_in_range(j, n as int);
}

/// A string that is cast to a slice of its characters or of its bytes, and cast
/// back, has the same bytes. The slice of characters has one for each character, in
/// order.
pub proof fn law_text_casts_back(
    p: &Bytecode,
    w: VmView,
    c: Ctx,
    apart: Instruction,
    together: Instruction,
    s: SliceRef,
    b: Seq<u8>,
)
    requires
        apart.op0 == Opcode::CAST && apart.t0 == ValueType::Slice,
        together.op0 == Opcode::CAST && together.t0 == ValueType::String && together.t1
            == ValueType::Slice,
        apart.op1_t == ValueType::Int32 || apart.op1_t == ValueType::Uint8,
        together.op1_t == apart.op1_t,
        together.s0 == apart.d,
        w.read(c, p.consts@, apart.s0) == Ok::<Value, Trap>(Value::Str(s)),
        str_bytes(w.cells, s) == Ok::<Seq<u8>, Trap>(b),
        valid_utf8(b),
        0 <= apart.d && w.read(c, p.consts@, apart.d) is Ok,
        0 <= together.d && w.read(c, p.consts@, together.d) is Ok,
        w.cells.len() + decode_utf8(b).len() + b.len() <= usize::MAX,
    ensures
        cast(p, w, c, apart) matches Ok((w1, Effect::Next(0))) && {
            &&& w1.read(c, p.consts@, apart.d) matches Ok(Value::Slice(r))
            &&& apart.op1_t == ValueType::Int32 ==> slice_seq(w1.cells, r) == Ok::<
                Seq<Value>,
                Trap,
            >(rune_values(decode_utf8(b)))
            &&& cast(p, w1, c, together) matches Ok((w2, Effect::Next(0)))
            &&& w2.read(c, p.consts@, together.d) matches Ok(Value::Str(t))
            &&& str_bytes(w2.cells, t) == Ok::<Seq<u8>, Trap>(b)
        },
{
    let (w1, _) = cast(p, w, c, apart)->Ok_0;
    let (w2, _) = cast(p, w1, c, together)->Ok_0;
    let k = offset(c.sb, apart.d)->Ok_0;
    let l = offset(c.sb, together.d)->Ok_0;
    if apart.op1_t == ValueType::Uint8 {
        assert(w1.cells == w.cells);
        assert(w2.cells == w.cells);
    } else {
        law_characters_round_trip(b);
        let vals = rune_values(decode_utf8(b));
        let (x, v) = slice_with_data(w, vals);
        let r = v->Slice_0;
        assert(slice_seq(x.cells, r)->Ok_0 =~= vals);
        assert(w1.cells == x.cells);
        let (y, str) = new_str(w1, b);
        assert(w2.cells == y.cells);
        lemma_new_str_bytes(w1, b);
    }
}

proof fn lemma_new_str_bytes(w: VmView, b: Seq<u8>)
    requires
        w.cells.len() + b.len() <= usize::MAX,
    ensures
        new_str(w, b).1 matches Value::Str(s) && str_bytes(new_str(w, b).0.cells, s) == Ok::<
            Seq<u8>,
            Trap,
        >(b),
{
    let (x, v) = new_str(w, b);
    let s = v->Str_0;
    assert(slice_seq(x.cells, s)->Ok_0 =~= byte_values(b));
    assert(bytes_of(byte_values(b)) =~= b);
}

/// A nil slice that is cast to a string is the empty string.
pub proof fn law_nil_casts_to_empty(p: &Bytecode, w: VmView, c: Ctx, inst: Instruction, t: ValueType)
    requires
        inst.op0 == Opcode::CAST && inst.t0 == ValueType::String && inst.t1 == ValueType::Slice,
        inst.op1_t == ValueType::Int32 || inst.op1_t == ValueType::Uint8,
        w.read(c, p.consts@, inst.s0) == Ok::<Value, Trap>(Value::Nil(t)),
        0 <= inst.d && w.read(c, p.consts@, inst.d) is Ok,
        w.cells.len() <= usize::MAX,
    ensures
        cast(p, w, c, inst) matches Ok((w1, Effect::Next(0))) && {
            &&& w1.read(c, p.consts@, inst.d) matches Ok(Value::Str(s))
            &&& str_bytes(w1.cells, s) == Ok::<Seq<u8>, Trap>(seq![])
        },
{
    lemma_new_str_bytes(w, seq![]);
}

/// A fraction that is cast to a string is handed to the host, which makes a number
/// of it; the string is then the one character that has the number. A number that
/// no character has is refused.
pub proof fn law_fraction_casts_to_text(
    p: &Bytecode,
    w: VmView,
    f: FiberView,
    c: Ctx,
    inst: Instruction,
    v: Value,
    n: u32,
)
    requires
        inst.op0 == Opcode::CAST && inst.t0 == ValueType::String,
        inst.t1.spec_fractional() && v.spec_typ() == inst.t1,
        w.read(c, p.consts@, inst.s0) == Ok::<Value, Trap>(v),
        0 <= inst.d && w.read(c, p.consts@, inst.d) is Ok,
        w.cells.len() + encode_scalar(n).len() <= usize::MAX,
        f.frames.len() > 0,
    ensures
        cast(p, w, c, inst) matches Ok((w1, Effect::Ask(q, pending))) && {
            let reply = Reply::Value(Value::Int(IntKind::Uint32, n as i128));
            let next = resume(p, w, f.waiting(Some(pending)), reply);
            &&& w1 == w
            &&& q == Query::Float(FloatTask::Cast { from: inst.t1, to: ValueType::Uint32, a: v })
            &&& next is Some <==> is_scalar(n)
            &&& next matches Some((w2, g, s)) ==> {
                &&& g == f.waiting(None) && s == StepView::Next
                &&& w2.read(c, p.consts@, inst.d) matches Ok(Value::Str(text))
                &&& str_bytes(w2.cells, text) == Ok::<Seq<u8>, Trap>(encode_scalar(n))
            }
        },
{
    lemma_new_str_bytes(w, encode_scalar(n));
}

/// A shift by a fraction is the shift by the number that the host makes of it.
pub proof fn law_fraction_shifts(
    p: &Bytecode,
    w: VmView,
    f: FiberView,
    c: Ctx,
    inst: Instruction,
    a: Value,
    b: Value,
    n: u32,
)
    requires
        is_shift(inst.op0),
        inst.t0.spec_int_kind() is Some,
        inst.t1.spec_fractional() && b.spec_typ() == inst.t1,
        w.read(c, p.consts@, inst.s0) == Ok::<Value, Trap>(a),
        w.read(c, p.consts@, inst.s1) == Ok::<Value, Trap>(b),
        result_place(c, inst.d) is Ok,
        f.frames.len() > 0,
    ensures
        word_inst(p, w, c, inst) matches Ok((w1, Effect::Ask(q, pending))) && {
            let count = Value::Int(IntKind::Uint32, n as i128);
            let shifted = settle(
                p,
                result_place(c, inst.d),
                calculate(w, inst.op0, inst.t0, a, count),
            );
            &&& w1 == w
            &&& q == Query::Float(FloatTask::Cast { from: inst.t1, to: ValueType::Uint32, a: b })
            &&& resume(p, w, f.waiting(Some(pending)), Reply::Value(count)) == (match shifted {
                Ok((w2, _)) => Some((w2, f.waiting(None), StepView::Next)),
                Err(e) => None,
            })
        },
{
}

/// An interface value that is taken as the type that it has gives a copy of what it
/// holds, and goes on holding it.
pub proof fn law_assertion_gives_copy(p: &Bytecode, w: VmView, under: usize, b: usize)
    requires
        under < w.cells.len(),
        b < p.ifaces@.len(),
    ensures
        ({
            let val = Value::Interface(InterfaceObj::Gos { under, binding: Some(b) });
            let want = Value::Metadata(p.ifaces@[b as int].meta);
            &&& spec_type_assert(p, w, val, want) == (match copy_semantic(
                w,
                w.cells[under as int],
            ) {
                Ok((w1, x)) => Ok((w1, (x, true))),
                Err(e) => Err(e),
            })
            &&& spec_type_assert(p, w, val, want) matches Ok((w1, _)) ==> {
                &&& w1 == w.with_cells(w1.cells)
                &&& w.cells.len() <= w1.cells.len()
                &&& w1.cells.subrange(0, w.cells.len() as int) == w.cells
                &&& w1.cells[under as int] == w.cells[under as int]
            }
        }),
{
    let v = w.cells[under as int];
    lemma_copy_shape(w.cells, v, depth(w.cells));
    match copy_value(w.cells, v, depth(w.cells)) {
        Ok((cs, _)) => {
            assert(cs.subrange(0, w.cells.len() as int)[under as int] == cs[under as int]);
        },
        Err(_) => {},
    }
}

/// A method of an interface in the value below is the method of that interface:
/// through however many interfaces a method is reached, it is bound as it is there.
pub proof fn law_bind_through_interface(
    p: &Bytecode,
    w: VmView,
    under: usize,
    b: usize,
    index: usize,
    inner: InterfaceObj,
    i: usize,
)
    requires
        under < w.cells.len(),
        b < p.ifaces@.len(),
        index < p.ifaces@[b as int].methods@.len(),
        p.ifaces@[b as int].methods@[index as int] matches Binding4Runtime::Iface {
            index: j,
            indices,
        } && j == i && through(p, w, w.cells[under as int], indices) == Ok::<Value, Trap>(
            Value::Interface(inner),
        ),
    ensures
        spec_bind_iface_method(p, w, InterfaceObj::Gos { under, binding: Some(b) }, index)
            == spec_bind_iface_method(p, w, inner, i),
        bindable(p, w, InterfaceObj::Gos { under, binding: Some(b) }, index) == bindable(
            p,
            w,
            inner,
            i,
        ),
{
    lemma_inner_method(p, w, InterfaceObj::Gos { under, binding: Some(b) }, index);
}

} // verus!

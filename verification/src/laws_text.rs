//! What conversions between strings, characters and bytes give.
use vstd::prelude::*;
use vstd::utf8::{char_is_scalar, decode_utf8, encode_scalar, encode_utf8, valid_utf8};
use crate::bytecode::{Bytecode, Opcode};
use crate::content::{new_str, slice_seq};
use crate::fiber::{FiberView, StepView};
use crate::laws_basis::{
    comes_to, goes_on, has_slot, holds, inst_at, lemma_goes_on, lemma_new_str_spells, lemma_operand,
    lemma_result, lemma_spells, spells, with_result,
};
use crate::laws_lists::{in_place, items};
use crate::laws_numbers::lemma_left;
use crate::laws_values::{lemma_char_number, lemma_runes_bytes};
use crate::laws_words::results_in;
use crate::machine::VmView;
use crate::num::{word_cast, Calc};
use crate::ops_type::char_text;
use crate::run::step;
use crate::slices::slice_with_data;
use crate::text::rune_values;
use crate::trap::Trap;
use crate::value::{IntKind, SliceRef, Value, ValueType};

verus! {

/// Whether values are the numbers of characters.
pub open spec fn are_characters(vals: Seq<Value>, s: Seq<char>) -> bool {
    &&& vals.len() == s.len()
    &&& forall|i: int|
        0 <= i < s.len() ==> vals[i] == Value::Int(IntKind::Int32, (#[trigger] s[i] as u32) as i128)
}

/// Whether an instruction put a new string into its result slot, and did nothing else.
pub open spec fn results_in_text(p: &Bytecode, w: VmView, f: FiberView, b: Seq<u8>) -> bool {
    step(p, w, f) matches Some((w1, f1, n)) && n == StepView::Next && goes_on(f, f1, 1) && exists|
        y: VmView,
        t: SliceRef,
    |
        #![trigger spells(y.cells, t, b)]
        {
            &&& spells(y.cells, t, b)
            &&& w.cells.len() <= y.cells.len()
            &&& y == (VmView { cells: y.cells, ..w })
            &&& y.cells.subrange(0, w.cells.len() as int) == w.cells
            &&& t.array.base == w.cells.len() && t.cap_end == t.end
            &&& w1 == with_result(y, f, inst_at(p, f).d as int, Value::Str(t))
        }
}

proof fn lemma_results_in_text(p: &Bytecode, w: VmView, f: FiberView, b: Seq<u8>, w1: VmView)
    requires
        w.cells.len() + b.len() <= usize::MAX,
        step(p, w, f) matches Some((x, f1, n)) && x == w1 && n == StepView::Next && goes_on(
            f,
            f1,
            1,
        ),
        w1 == with_result(new_str(w, b).0, f, inst_at(p, f).d as int, new_str(w, b).1),
    ensures
        results_in_text(p, w, f, b),
{
    lemma_new_str_spells(w, b);
    let y = new_str(w, b).0;
    let t = new_str(w, b).1->Str_0;
    assert(spells(y.cells, t, b));
    assert(y.cells.subrange(0, w.cells.len() as int) =~= w.cells);
}

proof fn lemma_one_character(w: VmView, k: IntKind, c: char)
    requires
        k == IntKind::Int || k == IntKind::Int32 || k == IntKind::Int64 || k == IntKind::Uint32 || k
            == IntKind::Uint64 || k == IntKind::Uint,
    ensures
        ({
            let n = (c as u32) as i128;
            &&& word_cast(k.spec_value_type(), ValueType::Uint32, Value::Int(k, n)) == Some(
                Calc::Done(Value::Int(IntKind::Uint32, n)),
            )
            &&& char_text(w, Value::Int(IntKind::Uint32, n)) == Ok::<(VmView, Value), Trap>(
                new_str(w, encode_utf8(seq![c])),
            )
        }),
{
    let b = encode_utf8(seq![c]);
    lemma_char_number(c);
    lemma_left(IntKind::Uint32, c as int);
    char_is_scalar(c);
    let e = encode_scalar(c as u32);
    assert(seq![c][0] == c);
    assert(seq![c].drop_first() =~= seq![]);
    assert(encode_utf8(seq![c]) == e + encode_utf8(seq![c].drop_first()));
    assert(e + encode_utf8(Seq::<char>::empty()) =~= e);
}

/// The number of a character, converted to a string, gives the string of that
/// character.
pub proof fn law_number_to_text(
    p: &Bytecode,
    w: VmView,
    f: FiberView,
    k: IntKind,
    c: char,
)
    requires
        comes_to(p, f, Opcode::CAST, 0),
        inst_at(p, f).t0 == ValueType::String,
        inst_at(p, f).t1 == k.spec_value_type(),
        k == IntKind::Int || k == IntKind::Int32 || k == IntKind::Int64 || k == IntKind::Uint32 || k
            == IntKind::Uint64 || k == IntKind::Uint,
        holds(p, w, f, inst_at(p, f).s0, Value::Int(k, (c as u32) as i128)),
        has_slot(w, f, inst_at(p, f).d as int),
        w.cells.len() + encode_utf8(seq![c]).len() <= usize::MAX,
    ensures
        results_in_text(p, w, f, encode_utf8(seq![c])),
{
    let inst = inst_at(p, f);
    let b = encode_utf8(seq![c]);
    lemma_operand(p, w, f, inst.s0);
    lemma_one_character(w, k, c);
    let (y, v) = new_str(w, b);
    lemma_result(y, f, inst.d, v);
    lemma_goes_on(p, w, f, with_result(y, f, inst.d as int, v));
    lemma_results_in_text(p, w, f, b, with_result(y, f, inst.d as int, v));
}

/// A slice of characters, converted to a string, gives the string of them.
pub proof fn law_characters_to_text(
    p: &Bytecode,
    w: VmView,
    f: FiberView,
    s: SliceRef,
    cs: Seq<char>,
)
    requires
        comes_to(p, f, Opcode::CAST, 0),
        inst_at(p, f).t0 == ValueType::String && inst_at(p, f).t1 == ValueType::Slice,
        inst_at(p, f).op1_t == ValueType::Int32,
        holds(p, w, f, inst_at(p, f).s0, Value::Slice(s)),
        in_place(w.cells, s),
        are_characters(items(w.cells, s), cs),
        has_slot(w, f, inst_at(p, f).d as int),
        w.cells.len() + encode_utf8(cs).len() <= usize::MAX,
    ensures
        results_in_text(p, w, f, encode_utf8(cs)),
{
    let inst = inst_at(p, f);
    let b = encode_utf8(cs);
    lemma_operand(p, w, f, inst.s0);
    lemma_runes_bytes(cs, 0, seq![]);
    assert(cs.subrange(0, cs.len() as int) =~= cs);
    assert(Seq::<u8>::empty() + b =~= b);
    let vals = slice_seq(w.cells, s)->Ok_0;
    assert forall|i: int| 0 <= i < cs.len() implies vals[i] == rune_values(cs)[i] by {
        let ch: char = cs[i];
        lemma_char_number(ch);
        assert(items(w.cells, s)[i] == Value::Int(IntKind::Int32, (ch as u32) as i128));
    }
    assert(vals =~= rune_values(cs));
    let (y, v) = new_str(w, b);
    lemma_result(y, f, inst.d, v);
    lemma_goes_on(p, w, f, with_result(y, f, inst.d as int, v));
    lemma_results_in_text(p, w, f, b, with_result(y, f, inst.d as int, v));
}

/// A slice of bytes, converted to a string, gives the string of these bytes, which they
/// share; a nil slice gives an empty string.
pub proof fn law_bytes_to_text(p: &Bytecode, w: VmView, f: FiberView, v: Value)
    requires
        comes_to(p, f, Opcode::CAST, 0),
        inst_at(p, f).t0 == ValueType::String && inst_at(p, f).t1 == ValueType::Slice,
        inst_at(p, f).op1_t == ValueType::Uint8 || inst_at(p, f).op1_t == ValueType::Int32 && v is Nil,
        holds(p, w, f, inst_at(p, f).s0, v),
        has_slot(w, f, inst_at(p, f).d as int),
        w.cells.len() <= usize::MAX,
    ensures
        v matches Value::Slice(s) ==> results_in(p, w, f, inst_at(p, f).d, Value::Str(s)),
        v is Nil ==> results_in_text(p, w, f, seq![]),
{
    let inst = inst_at(p, f);
    lemma_operand(p, w, f, inst.s0);
    match v {
        Value::Slice(s) => {
            lemma_result(w, f, inst.d, Value::Str(s));
            lemma_goes_on(p, w, f, with_result(w, f, inst.d as int, Value::Str(s)));
        },
        Value::Nil(_) => {
            let b = Seq::<u8>::empty();
            let (y, x) = new_str(w, b);
            lemma_result(y, f, inst.d, x);
            lemma_goes_on(p, w, f, with_result(y, f, inst.d as int, x));
            lemma_results_in_text(p, w, f, b, with_result(y, f, inst.d as int, x));
        },
        _ => {},
    }
}

/// A string, converted to a slice of bytes, gives the slice of its bytes, which they
/// share.
pub proof fn law_text_to_bytes(p: &Bytecode, w: VmView, f: FiberView, s: SliceRef)
    requires
        comes_to(p, f, Opcode::CAST, 0),
        inst_at(p, f).t0 == ValueType::Slice && inst_at(p, f).op1_t == ValueType::Uint8,
        holds(p, w, f, inst_at(p, f).s0, Value::Str(s)),
        has_slot(w, f, inst_at(p, f).d as int),
    ensures
        results_in(p, w, f, inst_at(p, f).d, Value::Slice(s)),
{
    let inst = inst_at(p, f);
    lemma_operand(p, w, f, inst.s0);
    lemma_result(w, f, inst.d, Value::Slice(s));
    lemma_goes_on(p, w, f, with_result(w, f, inst.d as int, Value::Slice(s)));
}

/// Whether a new slice of characters was made.
#[verifier::opaque]
pub open spec fn new_characters(w: VmView, y: VmView, t: SliceRef, cs: Seq<char>) -> bool {
    &&& in_place(y.cells, t)
    &&& are_characters(items(y.cells, t), cs)
    &&& y == (VmView { cells: y.cells, ..w })
    &&& w.cells.len() <= y.cells.len()
    &&& y.cells.subrange(0, w.cells.len() as int) == w.cells
    &&& t.array.base == w.cells.len() && t.cap_end == t.end
}

proof fn lemma_new_characters(w: VmView, cs: Seq<char>)
    requires
        w.cells.len() + cs.len() <= usize::MAX,
    ensures
        slice_with_data(w, rune_values(cs)).1 matches Value::Slice(t) && new_characters(
            w,
            slice_with_data(w, rune_values(cs)).0,
            t,
            cs,
        ),
{
    reveal(new_characters);
    let vals = rune_values(cs);
    let (y, v) = slice_with_data(w, vals);
    let t = v->Slice_0;
    assert(items(y.cells, t) =~= vals);
    assert(y.cells.subrange(0, w.cells.len() as int) =~= w.cells);
    assert forall|i: int| 0 <= i < cs.len() implies vals[i] == Value::Int(
        IntKind::Int32,
        (#[trigger] cs[i] as u32) as i128,
    ) by {
        let ch: char = cs[i];
        lemma_char_number(ch);
    }
}

/// A string, converted to a slice of characters, gives a new slice of its characters.
pub proof fn law_text_to_characters(
    p: &Bytecode,
    w: VmView,
    f: FiberView,
    s: SliceRef,
    b: Seq<u8>,
)
    requires
        comes_to(p, f, Opcode::CAST, 0),
        inst_at(p, f).t0 == ValueType::Slice && inst_at(p, f).op1_t == ValueType::Int32,
        holds(p, w, f, inst_at(p, f).s0, Value::Str(s)),
        spells(w.cells, s, b),
        valid_utf8(b),
        has_slot(w, f, inst_at(p, f).d as int),
        w.cells.len() + decode_utf8(b).len() <= usize::MAX,
    ensures
        step(p, w, f) matches Some((w1, f1, n)) && n == StepView::Next && goes_on(f, f1, 1)
            && exists|y: VmView, t: SliceRef| #[trigger]
            new_characters(w, y, t, decode_utf8(b)) && w1 == with_result(
                y,
                f,
                inst_at(p, f).d as int,
                Value::Slice(t),
            ),
{
    let inst = inst_at(p, f);
    lemma_operand(p, w, f, inst.s0);
    lemma_spells(w.cells, s, b);
    lemma_new_characters(w, decode_utf8(b));
    let (y, v) = slice_with_data(w, rune_values(decode_utf8(b)));
    lemma_result(y, f, inst.d, v);
    lemma_goes_on(p, w, f, with_result(y, f, inst.d as int, v));
}

} // verus!

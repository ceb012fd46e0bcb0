//! What holds of numbers, strings, slices, maps and interfaces.
use vstd::arithmetic::div_mod::lemma_fundamental_div_mod;
use vstd::prelude::*;
use vstd::utf8::{
    char_is_scalar, decode_utf8, decode_utf8_encode_utf8, encode_scalar, encode_utf8, valid_utf8,
};
use crate::bytecode::{Bytecode, Opcode};
use crate::content::{bytes_less, copy_all, copy_semantic, slice_seq, str_bytes, values_equal};
use crate::dict::{find, map_delete, map_get, map_insert};
use crate::embed::spec_type_assert;
use crate::laws_memory::{lemma_find_first, lemma_find_means};
use crate::machine::VmView;
use crate::num::{
    abs, in_range, int_in, lemma_wrap_in_range, modulus, quotient, remainder, signed, word_cast,
    word_op, word_relation, word_step, word_unary, wrap, Calc,
};
use crate::ops_make::{complex_of, complex_part, literal_list, placed, slot_at};
use crate::ops_place::pair;
use crate::ops_type::{to_interface, to_slice, to_string};
use crate::ops_word::text_relation;
use crate::range::{range_next, RangeIter};
use crate::slices::{append_values, elements, in_order, part, slice_append, slice_slice};
use crate::text::{rune_values, runes_bytes, scalar, str_runes};
use crate::trap::Trap;
use crate::value::{int_of, IntKind, OpIndex, SliceRef, Value, ValueType};

verus! {

/// Whether a value is an integer in the range of its type, if it is an integer
/// at all.
pub open spec fn fits_type(v: Value) -> bool {
    v matches Value::Int(k, n) ==> in_range(k, n as int)
}

/// Whatever is calculated with integers is in the range of its type.
#[verifier::rlimit(40)]
pub proof fn law_integers_stay_in_range(
    op: Opcode,
    up: bool,
    t: ValueType,
    from: ValueType,
    a: Value,
    b: Value,
)
    requires
        fits_type(a),
    ensures
        word_op(op, t, a, b) matches Some(Calc::Done(v)) ==> fits_type(v) && v.spec_typ() == t,
        word_step(up, t, a) matches Some(Calc::Done(v)) ==> fits_type(v) && v.spec_typ() == t,
        word_unary(op, t, a) matches Some(v) ==> fits_type(v) && v.spec_typ() == t,
        word_cast(from, t, a) matches Some(Calc::Done(v)) ==> fits_type(v) && v.spec_typ() == t,
{
    match word_op(op, t, a, b) {
        Some(Calc::Done(Value::Int(k, n))) => {
            lemma_op_in_range(op, t, a, b);
        },
        _ => {},
    }
    match a {
        Value::Int(k, n) => {
            lemma_wrap_in_range(k, n + 1);
            lemma_wrap_in_range(k, n - 1);
            lemma_wrap_in_range(k, -n);
            lemma_wrap_in_range(k, -n - 1);
            match t.spec_int_kind() {
                Some(j) => {
                    lemma_wrap_in_range(j, n as int);
                },
                None => {},
            }
        },
        _ => {},
    }
}

proof fn lemma_op_in_range(op: Opcode, t: ValueType, a: Value, b: Value)
    ensures
        word_op(op, t, a, b) matches Some(Calc::Done(v)) ==> fits_type(v),
{
    match t.spec_int_kind() {
        Some(k) => {
            let x = int_in(a, k)->Some_0;
            let y = int_in(b, k)->Some_0;
            lemma_wrap_in_range(k, x + y);
            lemma_wrap_in_range(k, x - y);
            lemma_wrap_in_range(k, x * y);
            lemma_wrap_in_range(k, quotient(x as int, y as int));
            lemma_wrap_in_range(k, remainder(x as int, y as int));
            lemma_wrap_in_range(k, (x & y) as int);
            lemma_wrap_in_range(k, (x | y) as int);
            lemma_wrap_in_range(k, (x ^ y) as int);
            lemma_wrap_in_range(k, (x & (-y - 1) as i128) as int);
            match crate::num::shift_count(b) {
                Some(n) => {
                    let p = crate::num::pow2((if n < 64 { n } else { 64 }) as nat);
                    lemma_wrap_in_range(k, x * p);
                    lemma_wrap_in_range(k, x as int / p);
                },
                None => {},
            }
        },
        None => {},
    }
}

/// What division gives and what it leaves over make up the number again; what is
/// left over is smaller than the divisor and has the sign of the number.
pub proof fn law_division(a: int, b: int)
    requires
        b != 0,
    ensures
        quotient(a, b) * b + remainder(a, b) == a,
        abs(remainder(a, b)) < abs(b),
        remainder(a, b) != 0 ==> (remainder(a, b) > 0) == (a > 0),
{
    let q = abs(a) / abs(b);
    let r = abs(a) % abs(b);
    lemma_fundamental_div_mod(abs(a), abs(b));
    assert(abs(b) * q + r == abs(a));
    assert(q * b == b * q) by (nonlinear_arith);
    assert((-q) * b == -(b * q)) by (nonlinear_arith);
    assert((-b) * q == -(b * q)) by (nonlinear_arith);
}

/// A step up and a step down lead back, also past the end of a type.
pub proof fn law_step_up_and_down(t: ValueType, a: Value)
    requires
        a is Int,
        a.spec_typ() == t,
        fits_type(a),
    ensures
        word_step(true, t, a) matches Some(Calc::Done(b)) && word_step(false, t, b) == Some(
            Calc::Done(a),
        ),
{
    match a {
        Value::Int(k, n) => {
            assert(t.spec_int_kind() == Some(k)) by {
                match k {
                    _ => {},
                }
            }
            lemma_wrap_in_range(k, n + 1);
            lemma_wrap_in_range(k, n as int);
            if !in_range(k, n + 1) {
                assert(wrap(k, n + 1) == n + 1 - modulus(k)) by {
                    if signed(k) {
                    } else {
                    }
                }
                assert(wrap(k, n - modulus(k)) == n) by {
                    assert((n - modulus(k)) % modulus(k) == n as int % modulus(k)) by {
                        vstd::arithmetic::div_mod::lemma_mod_multiples_vanish(
                            1,
                            n - modulus(k),
                            modulus(k),
                        );
                    }
                }
            } else {
                lemma_wrap_in_range(k, n + 1);
            }
        },
        _ => {},
    }
}

/// Two words are different where they are not equal; the first is greater where
/// the second is smaller; and of two integers exactly one of smaller, equal and
/// greater is true.
pub proof fn law_comparisons_agree(t: ValueType, a: Value, b: Value)
    ensures
        word_relation(Opcode::EQL, t, a, b) matches Some(e) ==> word_relation(
            Opcode::NEQ,
            t,
            a,
            b,
        ) == Some(!e),
        word_relation(Opcode::GTR, t, a, b) == word_relation(Opcode::LSS, t, b, a),
        word_relation(Opcode::GEQ, t, a, b) == word_relation(Opcode::LEQ, t, b, a),
        a is Int && b is Int && a.spec_typ() == t && b.spec_typ() == t ==> {
            &&& word_relation(Opcode::LSS, t, a, b) matches Some(l)
            &&& word_relation(Opcode::EQL, t, a, b) matches Some(e)
            &&& word_relation(Opcode::GTR, t, a, b) matches Some(g)
            &&& (l || e || g)
            &&& !(l && e) && !(l && g) && !(e && g)
            &&& word_relation(Opcode::LEQ, t, a, b) == Some(!g)
        },
{
}

proof fn lemma_bytes_order(a: Seq<u8>, b: Seq<u8>, i: nat)
    requires
        i <= a.len(),
        i <= b.len(),
        forall|j: int| 0 <= j < i ==> a[j] == b[j],
    ensures
        bytes_less(a, b, i) || bytes_less(b, a, i) || a == b,
        !(bytes_less(a, b, i) && bytes_less(b, a, i)),
        a == b ==> !bytes_less(a, b, i),
    decreases a.len() + b.len() - 2 * i,
{
    if i < a.len() && i < b.len() && a[i as int] == b[i as int] {
        lemma_bytes_order(a, b, i + 1);
    } else if i == a.len() && i == b.len() {
        assert(a =~= b);
    }
}

proof fn lemma_bytes_trans(a: Seq<u8>, b: Seq<u8>, c: Seq<u8>, i: nat)
    requires
        bytes_less(a, b, i),
        bytes_less(b, c, i),
    ensures
        bytes_less(a, c, i),
    decreases c.len() - i,
{
    if i < a.len() && i < b.len() && i < c.len() && a[i as int] == b[i as int] && b[i as int]
        == c[i as int] {
        lemma_bytes_trans(a, b, c, i + 1);
    }
}

/// Strings are in one order: of two, exactly one of smaller, equal and greater
/// is true, and what is smaller than something smaller is smaller.
pub proof fn law_strings_are_ordered(
    p: &Bytecode,
    w: VmView,
    a: SliceRef,
    b: SliceRef,
    c: SliceRef,
)
    requires
        str_bytes(w.cells, a) is Ok,
        str_bytes(w.cells, b) is Ok,
        str_bytes(w.cells, c) is Ok,
    ensures
        ({
            let (x, y, z) = (Value::Str(a), Value::Str(b), Value::Str(c));
            &&& text_relation(w, Opcode::LSS, x, y) matches Ok(l)
            &&& values_equal(p, w, x, y) matches Ok(e)
            &&& text_relation(w, Opcode::GTR, x, y) matches Ok(g)
            &&& (l || e || g)
            &&& !(l && e) && !(l && g) && !(e && g)
            &&& text_relation(w, Opcode::LEQ, x, y) == Ok::<bool, Trap>(!g)
            &&& text_relation(w, Opcode::GEQ, x, y) == Ok::<bool, Trap>(!l)
            &&& l && text_relation(w, Opcode::LSS, y, z) == Ok::<bool, Trap>(true)
                ==> text_relation(w, Opcode::LSS, x, z) == Ok::<bool, Trap>(true)
        }),
{
    let s = str_bytes(w.cells, a)->Ok_0;
    let t = str_bytes(w.cells, b)->Ok_0;
    let u = str_bytes(w.cells, c)->Ok_0;
    lemma_bytes_order(s, t, 0);
    lemma_bytes_order(t, s, 0);
    if bytes_less(s, t, 0) && bytes_less(t, u, 0) {
        lemma_bytes_trans(s, t, u, 0);
    }
}

/// The number of a character.
pub proof fn lemma_char_number(c: char)
    ensures
        c as u32 as int == c as int,
        0 <= c as int <= 0x10ffff,
{
}

/// Characters are put together in order.
pub proof fn lemma_runes_bytes(cs: Seq<char>, i: nat, out: Seq<u8>)
    requires
        i <= cs.len(),
    ensures
        runes_bytes(rune_values(cs), i, out) == Ok::<Seq<u8>, Trap>(
            out + encode_utf8(cs.subrange(i as int, cs.len() as int)),
        ),
    decreases cs.len() - i,
{
    let rest = cs.subrange(i as int, cs.len() as int);
    if i < cs.len() {
        let ch: char = cs[i as int];
        let c = ch as u32;
        char_is_scalar(ch);
        lemma_char_number(ch);
        assert(rune_values(cs)[i as int] == Value::Int(IntKind::Int32, c as i128));
        assert(scalar(c as int) == Ok::<u32, Trap>(c));
        lemma_runes_bytes(cs, i + 1, out + encode_scalar(c));
        assert(rest[0] == ch);
        assert(encode_utf8(rest) == encode_scalar(c) + encode_utf8(rest.drop_first()));
        assert(rest.drop_first() =~= cs.subrange(i as int + 1, cs.len() as int));
        assert(out + encode_scalar(c) + encode_utf8(rest.drop_first()) =~= out + (encode_scalar(c)
            + encode_utf8(rest.drop_first())));
    } else {
        assert(rest =~= seq![]);
        assert(out + encode_utf8(rest) =~= out);
    }
}

/// A string that is taken apart into characters and put together again has the
/// same bytes.
pub proof fn law_characters_round_trip(b: Seq<u8>)
    ensures
        str_runes(b) matches Ok(vals) ==> runes_bytes(vals, 0, seq![]) == Ok::<Seq<u8>, Trap>(b),
{
    if valid_utf8(b) {
        let cs = decode_utf8(b);
        lemma_runes_bytes(cs, 0, seq![]);
        decode_utf8_encode_utf8(b);
        assert(cs.subrange(0, cs.len() as int) =~= cs);
        assert(seq![] + encode_utf8(cs) =~= b);
    }
}

/// A string and its bytes share what they are made of: taken as bytes and as a
/// string again it is the same string.
pub proof fn law_bytes_are_shared(w: VmView, s: SliceRef)
    ensures
        to_slice(w, ValueType::Uint8, Value::Str(s)) == Ok::<(VmView, Value), Trap>(
            (w, Value::Slice(s)),
        ),
        to_string(w, ValueType::Slice, ValueType::Uint8, Value::Slice(s)) == Ok::<
            (VmView, Value),
            Trap,
        >((w, Value::Str(s))),
{
}

/// The elements of a part of a slice are those of the slice from the beginning
/// of the part to its end, and they are the same cells.
pub proof fn law_part_shows_elements(w: VmView, s: SliceRef, begin: int, end: int, max: int)
    requires
        in_order(s),
        s.array.base + s.array.len <= w.cells.len(),
        0 <= begin <= end <= max <= s.cap_end - s.begin,
        end <= s.end - s.begin,
    ensures
        slice_slice(Value::Slice(s), begin, end, max) matches Ok(Value::Slice(t)) && {
            &&& t.array == s.array
            &&& t.cap_end - t.begin == max - begin
            &&& slice_seq(w.cells, t) == Ok::<Seq<Value>, Trap>(
                slice_seq(w.cells, s)->Ok_0.subrange(begin, end),
            )
        },
{
    let t = part(s, begin, end, max);
    assert(slice_seq(w.cells, t)->Ok_0 =~= slice_seq(w.cells, s)->Ok_0.subrange(begin, end));
}

/// An appended slice has the elements that there were and behind them copies of
/// those that were added, whether or not there was room for them.
pub proof fn law_append_adds(w: VmView, text: bool, a: Value, b: Value)
    requires
        w.cells.len() <= usize::MAX,
        a matches Value::Slice(s) ==> in_order(s) && s.array.base + s.array.len <= w.cells.len(),
    ensures
        slice_append(w, text, a, b) matches Ok((w1, v)) ==> w1.cells.len() <= usize::MAX ==> {
            &&& elements(w, false, a) matches Ok(old)
            &&& elements(w, text, b) matches Ok(src)
            &&& copy_all(w, src) matches Ok((_, vals))
            &&& elements(w1, false, v) == Ok::<Seq<Value>, Trap>(old + vals)
        },
{
    match slice_append(w, text, a, b) {
        Ok((w1, v)) => {
            let src = elements(w, text, b)->Ok_0;
            crate::content::lemma_copy_rest_shape(
                w.cells,
                src,
                0,
                seq![],
                crate::content::depth(w.cells),
            );
            let (x, vals) = copy_all(w, src)->Ok_0;
            if w1.cells.len() <= usize::MAX {
                match a {
                    Value::Slice(s) => {
                        lemma_append_values(w, x, s, vals);
                    },
                    Value::Nil(_) => {
                        if vals.len() > 0 {
                            assert(elements(w1, false, v)->Ok_0 =~= seq![] + vals);
                        } else {
                            assert(seq![] + vals =~= seq![]);
                        }
                    },
                    _ => {},
                }
            }
        },
        Err(_) => {},
    }
}

proof fn lemma_append_values(w: VmView, x: VmView, s: SliceRef, vals: Seq<Value>)
    requires
        in_order(s),
        w.cells.len() <= x.cells.len(),
        x.cells.subrange(0, w.cells.len() as int) == w.cells,
    ensures
        append_values(x, Value::Slice(s), vals) matches Ok((w1, v)) ==> w1.cells.len()
            <= usize::MAX ==> s.array.base + s.array.len <= w.cells.len() ==> elements(
            w1,
            false,
            v,
        ) == Ok::<Seq<Value>, Trap>(slice_seq(w.cells, s)->Ok_0 + vals),
{
    match append_values(x, Value::Slice(s), vals) {
        Ok((w1, v)) => {
            if w1.cells.len() <= usize::MAX && s.array.base + s.array.len <= w.cells.len() {
                let old = slice_seq(w.cells, s)->Ok_0;
                assert forall|i: int| 0 <= i < old.len() implies old[i] == x.cells[s.array.base
                    + s.begin + i] by {
                    assert(x.cells[s.array.base + s.begin + i] == x.cells.subrange(
                        0,
                        w.cells.len() as int,
                    )[s.array.base + s.begin + i]);
                }
                assert(elements(w1, false, v)->Ok_0 =~= old + vals);
            }
        },
        Err(_) => {},
    }
}

/// What a literal has on the stack for its element `j`: a position and the
/// element.
pub open spec fn pair_at(w: VmView, stack: usize, begin: int, j: int) -> Result<
    (Value, Value),
    Trap,
> {
    pair(slot_at(w, stack, begin + 2 * j), slot_at(w, stack, begin + 1 + 2 * j))
}

/// Whether an element of a literal has no position.
pub open spec fn unplaced(r: Result<(Value, Value), Trap>) -> bool {
    r matches Ok((x, _)) && int_in(x, IntKind::Int32) matches Some(n) && n < 0
}

/// The elements of a literal without positions come one after the other.
pub proof fn law_literal_without_positions(
    w: VmView,
    stack: usize,
    begin: int,
    count: int,
    zero: Value,
    i: int,
    vals: Seq<Value>,
)
    requires
        0 <= i <= count <= i32::MAX,
        vals.len() == i,
        forall|j: int|
            i <= j < count ==> unplaced(#[trigger] pair_at(w, stack, begin, j)),
    ensures
        literal_list(w, stack, begin, count, zero, i, i - 1, vals) matches Ok(all) && {
            &&& all.len() == count
            &&& forall|j: int| 0 <= j < i ==> #[trigger] all[j] == vals[j]
            &&& forall|j: int|
                i <= j < count ==> #[trigger] all[j] == pair_at(w, stack, begin, j)->Ok_0.1
        },
    decreases count - i,
{
    if i < count {
        assert(unplaced(pair_at(w, stack, begin, i)));
        let elem = pair_at(w, stack, begin, i)->Ok_0.1;
        let next = placed(vals, i, elem, zero);
        assert(next =~= vals.push(elem));
        law_literal_without_positions(w, stack, begin, count, zero, i + 1, next);
        let all = literal_list(w, stack, begin, count, zero, i + 1, i, next)->Ok_0;
        assert(all[i] == next[i]);
        assert forall|j: int| 0 <= j < i implies #[trigger] all[j] == vals[j] by {
            assert(all[j] == next[j]);
        }
    }
}

/// An element of a literal stands at its position, and no other element is
/// moved. Positions that were left out hold the zero value.
pub proof fn law_literal_position(vals: Seq<Value>, k: int, elem: Value, zero: Value)
    requires
        0 <= k,
    ensures
        placed(vals, k, elem, zero).len() == if k < vals.len() {
            vals.len() as int
        } else {
            k + 1
        },
        placed(vals, k, elem, zero)[k] == elem,
        forall|j: int|
            0 <= j < vals.len() && j != k ==> #[trigger] placed(vals, k, elem, zero)[j] == vals[j],
        forall|j: int| vals.len() <= j < k ==> #[trigger] placed(vals, k, elem, zero)[j] == zero,
{
}

/// A walk through a list gives the elements in order, each with its number, and
/// ends behind the last one.
pub proof fn law_walk_through_list(p: &Bytecode, w: VmView, s: SliceRef, next: usize)
    requires
        in_order(s),
        s.array.base + s.array.len <= w.cells.len() <= usize::MAX,
    ensures
        next < s.end - s.begin ==> range_next(p, w, RangeIter::List { s, next }) == Ok::<
            Option<(Value, Value, RangeIter)>,
            Trap,
        >(
            Some(
                (
                    int_of(next as int),
                    slice_seq(w.cells, s)->Ok_0[next as int],
                    RangeIter::List { s, next: (next + 1) as usize },
                ),
            ),
        ),
        next >= s.end - s.begin ==> range_next(p, w, RangeIter::List { s, next }) == Ok::<
            Option<(Value, Value, RangeIter)>,
            Trap,
        >(None),
{
}

/// A complex number that is put together has the parts that it was made of.
pub proof fn law_complex_parts(t: ValueType, u: ValueType, r: Value, i: Value)
    requires
        (t, u) == (ValueType::Float32, ValueType::Complex64) || (t, u) == (
            ValueType::Float64,
            ValueType::Complex128,
        ),
    ensures
        complex_of(t, r, i) matches Ok(c) ==> complex_part(true, u, c) == Ok::<Value, Trap>(r)
            && complex_part(false, u, c) == Ok::<Value, Trap>(i),
{
}

/// What is put into an interface of a type comes out again, as a copy, where the
/// interface is taken as that type.
pub proof fn law_interface_gives_back(p: &Bytecode, w: VmView, v: Value, binding: OpIndex)
    requires
        w.cells.len() < usize::MAX,
    ensures
        to_interface(p, w, v, binding) matches Ok((w1, i)) ==> w1.cells.len() <= usize::MAX ==> {
            let want = Value::Metadata(p.ifaces@[binding as int].meta);
            &&& copy_semantic(w, v) matches Ok((_, x))
            &&& spec_type_assert(p, w1, i, want) == (match copy_semantic(w1, x) {
                Ok((w2, y)) => Ok((w2, (y, true))),
                Err(e) => Err(e),
            })
        },
{
}

/// Whether no two entries of a map are for equal keys.
pub open spec fn keys_differ(p: &Bytecode, w: VmView, m: usize) -> bool {
    forall|i: int, j: int|
        #![trigger w.maps[m as int][i], w.maps[m as int][j]]
        0 <= i < j < w.maps[m as int].len() ==> values_equal(
            p,
            w,
            w.maps[m as int][i].0,
            w.maps[m as int][j].0,
        ) == Ok::<bool, Trap>(false)
}

/// A map never has two entries for equal keys: neither a value that is inserted
/// nor one that is deleted changes that.
pub proof fn law_map_keys_differ(p: &Bytecode, w: VmView, m: usize, key: Value, v: Value)
    requires
        m < w.maps.len(),
        keys_differ(p, w, m),
    ensures
        map_insert(p, w, m, key, v) matches Ok(w1) ==> keys_differ(p, w1, m),
        map_delete(p, w, m, key) matches Ok(w1) ==> keys_differ(p, w1, m),
{
    let entries = w.maps[m as int];
    lemma_find_means(p, w, entries, key, 0);
    match map_insert(p, w, m, key, v) {
        Ok(w1) => {
            let after = w1.maps[m as int];
            assert forall|i: int, j: int|
                #![trigger w1.maps[m as int][i], w1.maps[m as int][j]]
                0 <= i < j < w1.maps[m as int].len() implies values_equal(
                p,
                w1,
                w1.maps[m as int][i].0,
                w1.maps[m as int][j].0,
            ) == Ok::<bool, Trap>(false) by {
                assert(after[i].0 == entries[i].0);
                if j < entries.len() {
                    assert(after[j].0 == entries[j].0);
                    assert(values_equal(p, w, entries[i].0, entries[j].0) == Ok::<bool, Trap>(
                        false,
                    ));
                } else {
                    assert(values_equal(p, w, entries[i].0, key) == Ok::<bool, Trap>(false));
                }
            }
        },
        Err(_) => {},
    }
    match map_delete(p, w, m, key) {
        Ok(w1) => {
            let after = w1.maps[m as int];
            let at: int = match find(p, w, entries, key, 0) {
                Ok(Some(k)) => k as int,
                _ => entries.len() as int,
            };
            assert forall|i: int, j: int|
                #![trigger w1.maps[m as int][i], w1.maps[m as int][j]]
                0 <= i < j < w1.maps[m as int].len() implies values_equal(
                p,
                w1,
                w1.maps[m as int][i].0,
                w1.maps[m as int][j].0,
            ) == Ok::<bool, Trap>(false) by {
                let a = if i < at {
                    i
                } else {
                    i + 1
                };
                let b = if j < at {
                    j
                } else {
                    j + 1
                };
                assert(after[i] == entries[a]);
                assert(after[j] == entries[b]);
                assert(values_equal(p, w, entries[a].0, entries[b].0) == Ok::<bool, Trap>(false));
            }
        },
        Err(_) => {},
    }
}

proof fn lemma_find_none(
    p: &Bytecode,
    w: VmView,
    entries: Seq<(Value, Value)>,
    key: Value,
    i: nat,
)
    requires
        forall|j: int|
            i <= j < entries.len() ==> #[trigger] values_equal(p, w, entries[j].0, key) == Ok::<
                bool,
                Trap,
            >(false),
    ensures
        find(p, w, entries, key, i) == Ok::<Option<nat>, Trap>(None),
    decreases entries.len() - i,
{
    if i < entries.len() {
        assert(values_equal(p, w, entries[i as int].0, key) == Ok::<bool, Trap>(false));
        lemma_find_none(p, w, entries, key, i + 1);
    }
}

proof fn lemma_find_without(
    p: &Bytecode,
    w: VmView,
    w1: VmView,
    entries: Seq<(Value, Value)>,
    at: int,
    other: Value,
)
    requires
        w1.cells == w.cells,
        0 <= at <= entries.len(),
        at < entries.len() ==> values_equal(p, w, entries[at].0, other) == Ok::<bool, Trap>(false),
    ensures
        ({
            let after = if at < entries.len() {
                entries.remove(at)
            } else {
                entries
            };
            match find(p, w, entries, other, 0) {
                Ok(Some(k)) => k < entries.len() && (find(p, w1, after, other, 0) matches Ok(
                    Some(b),
                ) && b < after.len() && after[b as int] == entries[k as int]),
                Ok(None) => find(p, w1, after, other, 0) == Ok::<Option<nat>, Trap>(None),
                Err(_) => true,
            }
        }),
{
    let after = if at < entries.len() {
        entries.remove(at)
    } else {
        entries
    };
    lemma_find_means(p, w, entries, other, 0);
    match find(p, w, entries, other, 0) {
        Ok(Some(k)) => {
            let b: nat = if k < at {
                k
            } else {
                (k - 1) as nat
            };
            assert(after[b as int] == entries[k as int]);
            assert forall|j: int| 0 <= j < b implies #[trigger] values_equal(
                p,
                w1,
                after[j].0,
                other,
            ) == Ok::<bool, Trap>(false) by {
                let a = if j < at {
                    j
                } else {
                    j + 1
                };
                assert(after[j] == entries[a]);
                assert(values_equal(p, w, entries[a].0, other) == Ok::<bool, Trap>(false));
            }
            lemma_find_first(p, w1, after, other, 0, b);
        },
        Ok(None) => {
            assert forall|j: int| 0 <= j < after.len() implies #[trigger] values_equal(
                p,
                w1,
                after[j].0,
                other,
            ) == Ok::<bool, Trap>(false) by {
                let a = if j < at {
                    j
                } else {
                    j + 1
                };
                assert(after[j] == entries[a]);
                assert(values_equal(p, w, entries[a].0, other) == Ok::<bool, Trap>(false));
            }
            lemma_find_none(p, w1, after, other, 0);
        },
        Err(_) => {},
    }
}

/// A key that is deleted from a map is gone, provided that it stands there at
/// most once; what the map holds for keys that stand elsewhere stays.
pub proof fn law_map_delete(p: &Bytecode, w: VmView, m: usize, key: Value, other: Value)
    requires
        m < w.maps.len(),
        forall|j: int|
            0 <= j < w.maps[m as int].len() && find(p, w, w.maps[m as int], key, 0) != Ok::<
                Option<nat>,
                Trap,
            >(Some(j as nat)) ==> #[trigger] values_equal(p, w, w.maps[m as int][j].0, key) == Ok::<
                bool,
                Trap,
            >(false),
        find(p, w, w.maps[m as int], key, 0) matches Ok(Some(k)) ==> values_equal(
            p,
            w,
            w.maps[m as int][k as int].0,
            other,
        ) == Ok::<bool, Trap>(false),
    ensures
        map_delete(p, w, m, key) matches Ok(w1) ==> {
            &&& map_get(p, w1, m, key) == Ok::<Option<Value>, Trap>(None)
            &&& map_get(p, w, m, other) is Ok ==> map_get(p, w1, m, other) == map_get(
                p,
                w,
                m,
                other,
            )
        },
{
    let entries = w.maps[m as int];
    lemma_find_means(p, w, entries, key, 0);
    match map_delete(p, w, m, key) {
        Ok(w1) => {
            let after = w1.maps[m as int];
            let at: int = match find(p, w, entries, key, 0) {
                Ok(Some(k)) => k as int,
                _ => entries.len() as int,
            };
            assert forall|j: int| 0 <= j < after.len() implies #[trigger] values_equal(
                p,
                w1,
                after[j].0,
                key,
            ) == Ok::<bool, Trap>(false) by {
                let a = if j < at {
                    j
                } else {
                    j + 1
                };
                assert(after[j] == entries[a]);
                assert(values_equal(p, w, entries[a].0, key) == Ok::<bool, Trap>(false));
            }
            lemma_find_none(p, w1, after, key, 0);
            lemma_find_without(p, w, w1, entries, at, other);
        },
        Err(_) => {},
    }
}

/// What is inserted in a map for one key changes nothing for keys that stand
/// elsewhere or are not equal to it.
pub proof fn law_map_insert_elsewhere(
    p: &Bytecode,
    w: VmView,
    m: usize,
    key: Value,
    v: Value,
    other: Value,
)
    requires
        m < w.maps.len(),
        match find(p, w, w.maps[m as int], key, 0) {
            Ok(Some(k)) => find(p, w, w.maps[m as int], other, 0) != Ok::<Option<nat>, Trap>(
                Some(k),
            ),
            _ => values_equal(p, w, key, other) == Ok::<bool, Trap>(false),
        },
    ensures
        map_insert(p, w, m, key, v) matches Ok(w1) ==> (map_get(p, w, m, other) is Ok ==> map_get(
            p,
            w1,
            m,
            other,
        ) == map_get(p, w, m, other)),
{
    let entries = w.maps[m as int];
    lemma_find_means(p, w, entries, key, 0);
    lemma_find_means(p, w, entries, other, 0);
    match map_insert(p, w, m, key, v) {
        Ok(w1) => {
            let after = w1.maps[m as int];
            match find(p, w, entries, other, 0) {
                Ok(Some(k)) => {
                    assert forall|j: int| 0 <= j < k implies #[trigger] values_equal(
                        p,
                        w1,
                        after[j].0,
                        other,
                    ) == Ok::<bool, Trap>(false) by {
                        assert(after[j].0 == entries[j].0);
                        assert(values_equal(p, w, entries[j].0, other) == Ok::<bool, Trap>(false));
                    }
                    assert(after[k as int].0 == entries[k as int].0);
                    lemma_find_first(p, w1, after, other, 0, k);
                },
                Ok(None) => {
                    assert forall|j: int| 0 <= j < after.len() implies #[trigger] values_equal(
                        p,
                        w1,
                        after[j].0,
                        other,
                    ) == Ok::<bool, Trap>(false) by {
                        if j < entries.len() {
                            assert(after[j].0 == entries[j].0);
                            assert(values_equal(p, w, entries[j].0, other) == Ok::<bool, Trap>(
                                false,
                            ));
                        }
                    }
                    lemma_find_none(p, w1, after, other, 0);
                },
                Err(_) => {},
            }
        },
        Err(_) => {},
    }
}

} // verus!

//! What the instructions do with slices, arrays and strings as lists.
use vstd::prelude::*;
use crate::bytecode::{Bytecode, Opcode};
use crate::content::{copy_all, copy_rest, copy_value, depth, lemma_copy_rest_shape, slice_seq};
use crate::effect::{Ask, Query};
use crate::fiber::{FiberView, StepView};
use crate::laws_basis::{
    comes_to, goes_on, has_slot, holds, inst_at, lemma_goes_on, lemma_operand, lemma_raises,
    lemma_result, lemma_step, lemma_stops, raises, with_result, word_after,
};
use crate::laws_memory::{lemma_rest_mirrors, mirrors};
use crate::laws_numbers::{has_number, lemma_left};
use crate::laws_words::results_in;
use crate::machine::VmView;
use crate::ops_make::count_value;
use crate::reply::{resume, Reply};
use crate::run::step;
use crate::slices::{append_values, elements, slice_copy_from};
use crate::trap::Trap;
use crate::value::{IntKind, OpIndex, SliceRef, Value, ValueType};

verus! {

/// A number as the programs count.
pub open spec fn number(n: int) -> Value {
    Value::Int(IntKind::Int, n as i128)
}

/// Whether a slice is in order: it lies in its array, and the array in the cells.
pub open spec fn in_place(cells: Seq<Value>, s: SliceRef) -> bool {
    &&& s.begin <= s.end <= s.cap_end <= s.array.len
    &&& s.array.base + s.array.len <= cells.len()
}

/// The elements of a slice.
pub open spec fn items(cells: Seq<Value>, s: SliceRef) -> Seq<Value> {
    Seq::new((s.end - s.begin) as nat, |i: int| cells[s.array.base + s.begin + i])
}

/// A slice of a slice, an array or a string shows the elements from the first position
/// to the second, and may grow to the third. Minus one stands for the end of what there
/// is. Positions out of order are a mistake of the program.
pub proof fn law_slice_shows(
    p: &Bytecode,
    w: VmView,
    f: FiberView,
    v: Value,
    begin: i128,
    end: i128,
    max: i128,
)
    requires
        comes_to(p, f, Opcode::SLICE, 1),
        holds(p, w, f, inst_at(p, f).s0, v),
        holds(p, w, f, inst_at(p, f).s1, Value::Int(IntKind::Int, begin)),
        holds(p, w, f, word_after(p, f).s0, Value::Int(IntKind::Int, end)),
        holds(p, w, f, word_after(p, f).s1, Value::Int(IntKind::Int, max)),
        has_number(IntKind::Int, begin as int),
        has_number(IntKind::Int, end as int),
        has_number(IntKind::Int, max as int),
        has_slot(w, f, inst_at(p, f).d as int),
        match v {
            Value::Slice(s) => inst_at(p, f).t0 == ValueType::Slice && s.begin <= s.end <= s.cap_end
                <= s.array.len,
            Value::Str(s) => inst_at(p, f).t0 == ValueType::String && s.begin <= s.end <= s.cap_end
                <= s.array.len,
            Value::Array(r) => inst_at(p, f).t0 == ValueType::Array && max == -1,
            _ => false,
        },
    ensures
        ({
            let s = match v {
                Value::Slice(s) => s,
                Value::Str(s) => SliceRef { cap_end: s.end, ..s },
                Value::Array(r) => SliceRef { array: r, begin: 0, end: r.len, cap_end: r.len },
                _ => arbitrary(),
            };
            let e = if end == -1 {
                s.end - s.begin
            } else {
                end as int
            };
            let m = if max == -1 {
                s.cap_end - s.begin
            } else {
                max as int
            };
            if 0 <= begin <= e <= m <= s.cap_end - s.begin {
                let t = SliceRef {
                    array: s.array,
                    begin: (s.begin + begin) as usize,
                    end: (s.begin + e) as usize,
                    cap_end: (s.begin + m) as usize,
                };
                step(p, w, f) matches Some((w1, f1, n)) && n == StepView::Next && goes_on(f, f1, 2)
                    && w1 == with_result(
                    w,
                    f,
                    inst_at(p, f).d as int,
                    if v is Str {
                        Value::Str(t)
                    } else {
                        Value::Slice(t)
                    },
                )
            } else {
                raises(p, w, f, "slice bounds out of range"@)
            }
        }),
{
    let inst = inst_at(p, f);
    let ex = word_after(p, f);
    lemma_operand(p, w, f, inst.s0);
    lemma_operand(p, w, f, inst.s1);
    lemma_operand(p, w, f, ex.s0);
    lemma_operand(p, w, f, ex.s1);
    lemma_step(p, w, f);
    lemma_raises(p, w, f, 2, "slice bounds out of range"@);
    match crate::ops_make::part_of(inst.t0, v, begin as int, end as int, max as int) {
        Ok(x) => {
            lemma_result(w, f, inst.d, x);
            lemma_goes_on(p, w, f, with_result(w, f, inst.d as int, x));
        },
        Err(_) => {},
    }
}

/// How long something is, and how long it may grow.
pub proof fn law_length(p: &Bytecode, w: VmView, f: FiberView, v: Value)
    requires
        comes_to(p, f, inst_at(p, f).op0, 0),
        inst_at(p, f).op0 == Opcode::LEN || inst_at(p, f).op0 == Opcode::CAP,
        holds(p, w, f, inst_at(p, f).s0, v),
        has_slot(w, f, inst_at(p, f).d as int),
    ensures
        ({
            let d = inst_at(p, f).d;
            let len = inst_at(p, f).op0 == Opcode::LEN;
            &&& v is Nil ==> results_in(p, w, f, d, number(0))
            &&& v matches Value::Slice(s) ==> s.begin <= s.end <= s.cap_end <= s.array.len
                <= i64::MAX ==> results_in(
                p,
                w,
                f,
                d,
                number(
                    if len {
                        s.end - s.begin
                    } else {
                        s.cap_end - s.begin
                    },
                ),
            )
            &&& v matches Value::Str(s) ==> len && s.begin <= s.end <= s.cap_end <= s.array.len
                <= i64::MAX ==> results_in(p, w, f, d, number(s.end - s.begin))
            &&& v matches Value::Array(r) ==> r.len <= i64::MAX ==> results_in(
                p,
                w,
                f,
                d,
                number(r.len as int),
            )
            &&& v matches Value::GoMap(m) ==> len && m < w.maps.len() && w.maps[m as int].len()
                <= i64::MAX ==> results_in(p, w, f, d, number(w.maps[m as int].len() as int))
            &&& v matches Value::Channel(c) ==> !len && c < w.chans.len() && w.chans[c as int].cap
                <= i64::MAX ==> results_in(p, w, f, d, number(w.chans[c as int].cap as int))
        }),
{
    let inst = inst_at(p, f);
    lemma_operand(p, w, f, inst.s0);
    let r = if inst.op0 == Opcode::LEN {
        crate::slices::length(w, v)
    } else {
        crate::slices::capacity(w, v)
    };
    if r is Ok && !(inst.op0 == Opcode::LEN && v is Channel) {
        let n = r->Ok_0;
        lemma_left(IntKind::Int, n);
        lemma_result(w, f, inst.d, count_value(n));
        lemma_goes_on(p, w, f, with_result(w, f, inst.d as int, count_value(n)));
    }
}

/// The host knows how many values wait in a channel; its answer goes into the result
/// slot.
pub proof fn law_channel_length(p: &Bytecode, w: VmView, f: FiberView, c: usize, n: i128)
    requires
        comes_to(p, f, Opcode::LEN, 0),
        holds(p, w, f, inst_at(p, f).s0, Value::Channel(c)),
        has_slot(w, f, inst_at(p, f).d as int),
        has_number(IntKind::Int, n as int),
    ensures
        step(p, w, f) matches Some((w1, f1, s)) && {
            &&& w1 == w && s == StepView::Ask(Ask::Query(Query::ChanLen(c)))
            &&& goes_on(f, (FiberView { pending: f.pending, ..f1 }), 1)
            &&& resume(p, w, f1, Reply::Value(number(n as int))) == Some(
                (
                    with_result(w, f, inst_at(p, f).d as int, number(n as int)),
                    FiberView { pending: None, ..f1 },
                    StepView::Next,
                ),
            )
        },
{
    let inst = inst_at(p, f);
    lemma_operand(p, w, f, inst.s0);
    lemma_step(p, w, f);
    lemma_result(w, f, inst.d, number(n as int));
}

/// A complex number is put together out of its parts, and its parts are taken out of
/// it.
pub proof fn law_complex_numbers(p: &Bytecode, w: VmView, f: FiberView, a: Value, b: Value)
    requires
        comes_to(p, f, inst_at(p, f).op0, 0),
        holds(p, w, f, inst_at(p, f).s0, a),
        inst_at(p, f).op0 == Opcode::COMPLEX ==> holds(p, w, f, inst_at(p, f).s1, b),
        has_slot(w, f, inst_at(p, f).d as int),
    ensures
        ({
            let inst = inst_at(p, f);
            &&& inst.op0 == Opcode::COMPLEX ==> {
                &&& inst.t0 == ValueType::Float32 && a is Float32 && b is Float32 ==> results_in(
                    p,
                    w,
                    f,
                    inst.d,
                    Value::Complex64(a->Float32_0, b->Float32_0),
                )
                &&& inst.t0 == ValueType::Float64 && a is Float64 && b is Float64 ==> results_in(
                    p,
                    w,
                    f,
                    inst.d,
                    Value::Complex128(a->Float64_0, b->Float64_0),
                )
            }
            &&& inst.op0 == Opcode::REAL || inst.op0 == Opcode::IMAG ==> {
                &&& a matches Value::Complex64(x, y) ==> inst.t0 == ValueType::Complex64
                    ==> results_in(
                    p,
                    w,
                    f,
                    inst.d,
                    Value::Float32(
                        if inst.op0 == Opcode::REAL {
                            x
                        } else {
                            y
                        },
                    ),
                )
                &&& a matches Value::Complex128(x, y) ==> inst.t0 == ValueType::Complex128
                    ==> results_in(
                    p,
                    w,
                    f,
                    inst.d,
                    Value::Float64(
                        if inst.op0 == Opcode::REAL {
                            x
                        } else {
                            y
                        },
                    ),
                )
            }
        }),
{
    let inst = inst_at(p, f);
    lemma_operand(p, w, f, inst.s0);
    if inst.op0 == Opcode::COMPLEX {
        lemma_operand(p, w, f, inst.s1);
        match crate::ops_make::complex_of(inst.t0, a, b) {
            Ok(x) => {
                lemma_result(w, f, inst.d, x);
                lemma_goes_on(p, w, f, with_result(w, f, inst.d as int, x));
            },
            Err(_) => {},
        }
    } else if inst.op0 == Opcode::REAL || inst.op0 == Opcode::IMAG {
        match crate::ops_make::complex_part(inst.op0 == Opcode::REAL, inst.t0, a) {
            Ok(x) => {
                lemma_result(w, f, inst.d, x);
                lemma_goes_on(p, w, f, with_result(w, f, inst.d as int, x));
            },
            Err(_) => {},
        }
    }
}

/// Whether all values are words or handles, which are copied as they are.
pub open spec fn plain(vals: Seq<Value>) -> bool {
    forall|i: int| 0 <= i < vals.len() ==> !((#[trigger] vals[i]) is Array) && !(vals[i] is Struct)
}

proof fn lemma_plain(cells: Seq<Value>, src: Seq<Value>, i: nat, out: Seq<Value>, fuel: nat)
    requires
        plain(src),
        i <= src.len(),
        out == src.subrange(0, i as int),
    ensures
        copy_rest(cells, src, i, out, fuel) == Ok::<(Seq<Value>, Seq<Value>), Trap>((cells, src)),
    decreases src.len() - i,
{
    reveal_with_fuel(copy_rest, 2);
    reveal_with_fuel(copy_value, 2);
    if i < src.len() {
        assert(!(src[i as int] is Array) && !(src[i as int] is Struct));
        assert(out.push(src[i as int]) =~= src.subrange(0, (i + 1) as int));
        lemma_plain(cells, src, i + 1, out.push(src[i as int]), fuel);
    } else {
        assert(src.subrange(0, i as int) =~= src);
    }
}

/// Values that need no copies are appended as they are.
proof fn lemma_copy_plain(w: VmView, src: Seq<Value>)
    requires
        plain(src),
    ensures
        copy_all(w, src) == Ok::<(VmView, Seq<Value>), Trap>((w, src)),
{
    assert(src.subrange(0, 0) =~= Seq::<Value>::empty());
    lemma_plain(w.cells, src, 0, seq![], depth(w.cells));
}

/// Whether values were appended to a slice: the elements are those that there were and
/// then the new ones. Where there is room they go into it, behind the slice; otherwise
/// all elements are in new cells, with room for twice as many as before, or for as many
/// as there are. No other cells change.
#[verifier::opaque]
pub open spec fn appended(w: VmView, w1: VmView, s: SliceRef, vals: Seq<Value>, v: Value) -> bool {
    &&& w1 == (VmView { cells: w1.cells, ..w })
    &&& v matches Value::Slice(t) && in_place(w1.cells, t) && items(w1.cells, t) == items(
        w.cells,
        s,
    ) + vals && if s.end + vals.len() <= s.cap_end {
        &&& t.array == s.array && t.begin == s.begin && t.cap_end == s.cap_end
        &&& w1.cells.len() == w.cells.len()
        &&& forall|i: int|
            0 <= i < w.cells.len() && !(s.array.base + s.end <= i < s.array.base + s.end
                + vals.len()) ==> #[trigger] w1.cells[i] == w.cells[i]
    } else {
        let room = s.cap_end - s.begin;
        let need = s.end - s.begin + vals.len();
        &&& t.array.base >= w.cells.len()
        &&& t.begin == 0 && t.cap_end == t.array.len
        &&& t.cap_end == 2 * room || t.cap_end == need
        &&& t.cap_end >= 2 * room && t.cap_end >= need
        &&& forall|i: int| 0 <= i < w.cells.len() ==> #[trigger] w1.cells[i] == w.cells[i]
    }
}

proof fn lemma_append(w: VmView, s: SliceRef, vals: Seq<Value>)
    requires
        in_place(w.cells, s),
    ensures
        w.cells.len() + 2 * s.array.len + vals.len() <= usize::MAX ==> append_values(
            w,
            Value::Slice(s),
            vals,
        ) is Ok,
        w.cells.len() + 2 * s.array.len + vals.len() <= usize::MAX ==> append_values(
            w,
            Value::Slice(s),
            vals,
        )->Ok_0.0.cells.len() <= usize::MAX,
        append_values(w, Value::Slice(s), vals) matches Ok((w1, v)) ==> w1.cells.len()
            <= usize::MAX ==> appended(w, w1, s, vals, v),
{
    reveal(appended);
    if append_values(w, Value::Slice(s), vals) is Ok {
        let (w1, v) = append_values(w, Value::Slice(s), vals)->Ok_0;
        let t = v->Slice_0;
        if w1.cells.len() <= usize::MAX {
            assert(items(w1.cells, t) =~= items(w.cells, s) + vals);
        }
    }
}

/// Whether values are copies of others, made beside what there was.
#[verifier::opaque]
pub open spec fn are_copies(w: VmView, y: VmView, src: Seq<Value>, vals: Seq<Value>) -> bool {
    &&& vals.len() == src.len()
    &&& w.cells.len() <= y.cells.len()
    &&& y == (VmView { cells: y.cells, ..w })
    &&& forall|i: int| 0 <= i < w.cells.len() ==> #[trigger] y.cells[i] == w.cells[i]
    &&& y.cells.len() <= usize::MAX ==> forall|j: int|
        0 <= j < src.len() ==> mirrors(
            y.cells,
            #[trigger] src[j],
            vals[j],
            w.cells.len() as int,
            w.cells.len() + 1,
        )
}

/// What copies of several values are.
pub proof fn lemma_copy_all(w: VmView, src: Seq<Value>)
    ensures
        copy_all(w, src) matches Ok((y, vals)) ==> are_copies(w, y, src, vals) && y == (VmView {
            cells: y.cells,
            ..w
        }) && w.cells.len() <= y.cells.len(),
{
    reveal(are_copies);
    lemma_copy_rest_shape(w.cells, src, 0, seq![], depth(w.cells));
    lemma_rest_mirrors(w.cells, w.cells, src, 0, seq![], depth(w.cells));
    match copy_all(w, src) {
        Ok((y, vals)) => {
            assert forall|i: int| 0 <= i < w.cells.len() implies #[trigger] y.cells[i]
                == w.cells[i] by {
                assert(y.cells.subrange(0, w.cells.len() as int)[i] == w.cells[i]);
            }
        },
        Err(_) => {},
    }
}

/// What is appended are copies: arrays and structs among the new elements are made of
/// new cells all the way down.
pub proof fn law_append_copies(
    p: &Bytecode,
    w: VmView,
    f: FiberView,
    s: SliceRef,
    from: SliceRef,
)
    requires
        comes_to(p, f, Opcode::APPEND, 0),
        inst_at(p, f).t0 != ValueType::String,
        holds(p, w, f, inst_at(p, f).s0, Value::Slice(s)),
        holds(p, w, f, inst_at(p, f).s1, Value::Slice(from)),
        in_place(w.cells, s),
        in_place(w.cells, from),
        has_slot(w, f, inst_at(p, f).d as int),
    ensures
        step(p, w, f) matches Some((w1, f1, n)) ==> w1.cells.len() <= usize::MAX ==> n
            == StepView::Next && goes_on(f, f1, 1) && exists|
            x: VmView,
            vals: Seq<Value>,
            y: VmView,
            v: Value,
        |
            #![trigger are_copies(w, x, items(w.cells, from), vals), appended(x, y, s, vals, v)]
            are_copies(w, x, items(w.cells, from), vals) && appended(x, y, s, vals, v) && w1
                == with_result(y, f, inst_at(p, f).d as int, v),
{
    let inst = inst_at(p, f);
    let src = items(w.cells, from);
    lemma_operand(p, w, f, inst.s0);
    lemma_operand(p, w, f, inst.s1);
    assert(slice_seq(w.cells, from)->Ok_0 =~= src);
    lemma_copy_all(w, src);
    match copy_all(w, src) {
        Ok((x, vals)) => {
            lemma_append(x, s, vals);
            match append_values(x, Value::Slice(s), vals) {
                Ok((y, v)) => {
                    lemma_result(y, f, inst.d, v);
                    lemma_goes_on(p, w, f, with_result(y, f, inst.d as int, v));
                    if y.cells.len() <= usize::MAX {
                        assert(are_copies(w, x, src, vals) && appended(x, y, s, vals, v));
                    }
                },
                Err(_) => {
                    lemma_stops(p, w, f);
                },
            }
        },
        Err(_) => {
            lemma_stops(p, w, f);
        },
    }
}

/// The elements that are appended come behind those of the slice.
pub proof fn law_append(p: &Bytecode, w: VmView, f: FiberView, s: SliceRef, b: Value, from: SliceRef)
    requires
        comes_to(p, f, Opcode::APPEND, 0),
        holds(p, w, f, inst_at(p, f).s0, Value::Slice(s)),
        holds(p, w, f, inst_at(p, f).s1, b),
        b == if inst_at(p, f).t0 == ValueType::String {
            Value::Str(from)
        } else {
            Value::Slice(from)
        },
        in_place(w.cells, s),
        in_place(w.cells, from),
        plain(items(w.cells, from)),
        w.cells.len() + 2 * s.array.len + from.array.len <= usize::MAX,
        has_slot(w, f, inst_at(p, f).d as int),
    ensures
        step(p, w, f) matches Some((w1, f1, n)) && n == StepView::Next && goes_on(f, f1, 1)
            && exists|y: VmView, v: Value| #[trigger]
            appended(w, y, s, items(w.cells, from), v) && w1 == with_result(
                y,
                f,
                inst_at(p, f).d as int,
                v,
            ),
{
    let inst = inst_at(p, f);
    let vals = items(w.cells, from);
    lemma_operand(p, w, f, inst.s0);
    lemma_operand(p, w, f, inst.s1);
    assert(slice_seq(w.cells, from)->Ok_0 =~= vals);
    lemma_copy_plain(w, vals);
    lemma_append(w, s, vals);
    let (y, v) = append_values(w, Value::Slice(s), vals)->Ok_0;
    lemma_result(y, f, inst.d, v);
    lemma_goes_on(p, w, f, with_result(y, f, inst.d as int, v));
    assert(appended(w, y, s, vals, v));
}

/// What is appended to a nil slice is a new slice with these elements; nothing that is
/// appended to it leaves it nil.
pub proof fn law_append_to_nil(p: &Bytecode, w: VmView, f: FiberView, t: ValueType, from: SliceRef)
    requires
        comes_to(p, f, Opcode::APPEND, 0),
        inst_at(p, f).t0 != ValueType::String,
        holds(p, w, f, inst_at(p, f).s0, Value::Nil(t)),
        holds(p, w, f, inst_at(p, f).s1, Value::Slice(from)),
        in_place(w.cells, from),
        plain(items(w.cells, from)),
        w.cells.len() + from.array.len <= usize::MAX,
        has_slot(w, f, inst_at(p, f).d as int),
    ensures
        from.begin == from.end ==> results_in(p, w, f, inst_at(p, f).d, Value::Nil(t)),
        from.begin < from.end ==> (step(p, w, f) matches Some((w1, f1, n)) && n == StepView::Next
            && goes_on(f, f1, 1) && exists|y: VmView, u: SliceRef|
            #![trigger in_place(y.cells, u)]
            in_place(y.cells, u) && items(y.cells, u) == items(w.cells, from) && u.array.base
                >= w.cells.len() && w1 == with_result(
                y,
                f,
                inst_at(p, f).d as int,
                Value::Slice(u),
            ) && y == (VmView { cells: w.cells + items(w.cells, from), ..w })),
{
    let inst = inst_at(p, f);
    let vals = items(w.cells, from);
    lemma_operand(p, w, f, inst.s0);
    lemma_operand(p, w, f, inst.s1);
    assert(slice_seq(w.cells, from)->Ok_0 =~= vals);
    lemma_copy_plain(w, vals);
    let (y, v) = append_values(w, Value::Nil(t), vals)->Ok_0;
    lemma_result(y, f, inst.d, v);
    lemma_goes_on(p, w, f, with_result(y, f, inst.d as int, v));
    if vals.len() > 0 {
        let u = v->Slice_0;
        assert(items(y.cells, u) =~= vals);
        assert(in_place(y.cells, u));
    }
}

proof fn lemma_copied(w: VmView, text: bool, to: SliceRef, b: Value, from: SliceRef)
    requires
        b == if text {
            Value::Str(from)
        } else {
            Value::Slice(from)
        },
        in_place(w.cells, to),
        in_place(w.cells, from),
        plain(items(w.cells, from)),
    ensures
        slice_copy_from(w, text, Value::Slice(to), b) matches Ok((y, n)) && copied(
            w,
            y,
            to,
            from,
            n,
        ),
{
    let src = items(w.cells, from);
    let dst = items(w.cells, to);
    assert(slice_seq(w.cells, from)->Ok_0 =~= src);
    assert(slice_seq(w.cells, to)->Ok_0 =~= dst);
    let n = if dst.len() <= src.len() {
        dst.len() as int
    } else {
        src.len() as int
    };
    lemma_copy_plain(w, src.subrange(0, n));
    let (y, m) = slice_copy_from(w, text, Value::Slice(to), b)->Ok_0;
    let at = to.array.base + to.begin;
    assert forall|i: int| 0 <= i < n implies y.cells[at + i] == #[trigger] items(
        w.cells,
        from,
    )[i] by {
        assert(src.subrange(0, n)[i] == src[i]);
    }
}

/// Copying between slices, or from a string, puts the first elements of the second into
/// the first, as many as both have. They are those from before, also where the two
/// overlap. How many there were goes into the result slot.
pub proof fn law_copy(p: &Bytecode, w: VmView, f: FiberView, to: SliceRef, b: Value, from: SliceRef)
    requires
        comes_to(p, f, Opcode::COPY, 0),
        holds(p, w, f, inst_at(p, f).s0, Value::Slice(to)),
        holds(p, w, f, inst_at(p, f).s1, b),
        b == if inst_at(p, f).t0 == ValueType::String {
            Value::Str(from)
        } else {
            Value::Slice(from)
        },
        in_place(w.cells, to),
        in_place(w.cells, from),
        plain(items(w.cells, from)),
        to.array.len <= i64::MAX,
        has_slot(w, f, inst_at(p, f).d as int),
    ensures
        step(p, w, f) matches Some((w1, f1, s)) && s == StepView::Next && goes_on(f, f1, 1)
            && exists|y: VmView, n: int| #[trigger]
            copied(w, y, to, from, n) && w1 == with_result(
                y,
                f,
                inst_at(p, f).d as int,
                number(n),
            ),
{
    let inst = inst_at(p, f);
    let text = inst.t0 == ValueType::String;
    lemma_operand(p, w, f, inst.s0);
    lemma_operand(p, w, f, inst.s1);
    lemma_copied(w, text, to, b, from);
    let (y, n) = slice_copy_from(w, text, Value::Slice(to), b)->Ok_0;
    lemma_left(IntKind::Int, n);
    lemma_result(y, f, inst.d, number(n));
    lemma_goes_on(p, w, f, with_result(y, f, inst.d as int, number(n)));
}

/// Whether values went over the first elements of a slice.
#[verifier::opaque]
pub open spec fn put_over(x: VmView, y: VmView, to: SliceRef, vals: Seq<Value>) -> bool {
    let at = to.array.base + to.begin;
    &&& y == (VmView { cells: y.cells, ..x })
    &&& y.cells.len() == x.cells.len()
    &&& forall|i: int| 0 <= i < vals.len() ==> y.cells[at + i] == #[trigger] vals[i]
    &&& forall|i: int|
        0 <= i < x.cells.len() && !(at <= i < at + vals.len()) ==> #[trigger] y.cells[i]
            == x.cells[i]
}

proof fn lemma_put_over(w: VmView, to: SliceRef, from: SliceRef, n: int)
    requires
        in_place(w.cells, to),
        in_place(w.cells, from),
        n == if to.end - to.begin <= from.end - from.begin {
            to.end - to.begin
        } else {
            from.end - from.begin
        },
    ensures
        ({
            let src = items(w.cells, from).subrange(0, n);
            slice_copy_from(w, false, Value::Slice(to), Value::Slice(from)) matches Ok((y, m)) ==> m
                == n && (copy_all(w, src) matches Ok((x, vals)) && are_copies(w, x, src, vals)
                && put_over(x, y, to, vals)) && y == (VmView { cells: y.cells, ..w })
        }),
        copy_all(w, items(w.cells, from).subrange(0, n)) is Ok ==> slice_copy_from(
            w,
            false,
            Value::Slice(to),
            Value::Slice(from),
        ) is Ok,
{
    reveal(put_over);
    let src = items(w.cells, from);
    assert(slice_seq(w.cells, from)->Ok_0 =~= src);
    assert(slice_seq(w.cells, to)->Ok_0 =~= items(w.cells, to));
    lemma_copy_all(w, src.subrange(0, n));
    lemma_copy_rest_shape(w.cells, src.subrange(0, n), 0, seq![], depth(w.cells));
}

/// What is copied between slices are copies: arrays and structs among the elements are
/// made of new cells all the way down.
pub proof fn law_copy_copies(
    p: &Bytecode,
    w: VmView,
    f: FiberView,
    to: SliceRef,
    from: SliceRef,
    n: int,
)
    requires
        comes_to(p, f, Opcode::COPY, 0),
        inst_at(p, f).t0 != ValueType::String,
        holds(p, w, f, inst_at(p, f).s0, Value::Slice(to)),
        holds(p, w, f, inst_at(p, f).s1, Value::Slice(from)),
        in_place(w.cells, to),
        in_place(w.cells, from),
        to.array.len <= i64::MAX,
        n == if to.end - to.begin <= from.end - from.begin {
            to.end - to.begin
        } else {
            from.end - from.begin
        },
        has_slot(w, f, inst_at(p, f).d as int),
    ensures
        step(p, w, f) matches Some((w1, f1, s)) ==> s == StepView::Next && goes_on(f, f1, 1)
            && exists|x: VmView, vals: Seq<Value>, y: VmView|
            #![trigger are_copies(w, x, items(w.cells, from).subrange(0, n), vals), put_over(
                x,
                y,
                to,
                vals,
            )]
            are_copies(w, x, items(w.cells, from).subrange(0, n), vals) && put_over(x, y, to, vals)
                && w1 == with_result(y, f, inst_at(p, f).d as int, number(n)),
{
    let inst = inst_at(p, f);
    lemma_operand(p, w, f, inst.s0);
    lemma_operand(p, w, f, inst.s1);
    lemma_put_over(w, to, from, n);
    match slice_copy_from(w, false, Value::Slice(to), Value::Slice(from)) {
        Ok((y, _)) => {
            lemma_left(IntKind::Int, n);
            lemma_result(y, f, inst.d, number(n));
            lemma_goes_on(p, w, f, with_result(y, f, inst.d as int, number(n)));
        },
        Err(_) => {
            lemma_stops(p, w, f);
        },
    }
}

/// Whether `n` elements were copied from one slice to another.
pub open spec fn copied(w: VmView, y: VmView, to: SliceRef, from: SliceRef, n: int) -> bool {
    let at = to.array.base + to.begin;
    &&& n <= to.end - to.begin && n <= from.end - from.begin
    &&& n == to.end - to.begin || n == from.end - from.begin
    &&& y == (VmView { cells: y.cells, ..w })
    &&& y.cells.len() == w.cells.len()
    &&& forall|i: int|
        0 <= i < n ==> y.cells[at + i] == #[trigger] items(w.cells, from)[i]
    &&& forall|i: int|
        0 <= i < w.cells.len() && !(at <= i < at + n) ==> #[trigger] y.cells[i] == w.cells[i]
}

/// The arguments that a call gives as one are the elements of a new slice, in their
/// order, and leave their slots.
pub proof fn law_arguments_are_packed(p: &Bytecode, w: VmView, f: FiberView)
    requires
        comes_to(p, f, Opcode::PACK_VARIADIC, 0),
        ({
            let inst = inst_at(p, f);
            let base = f.frames.last().stack_base;
            &&& f.stack < w.stacks.len()
            &&& 0 <= base + inst.s0 <= base + inst.s1 <= w.stacks[f.stack as int].len()
            &&& base + inst.s1 <= i32::MAX
        }),
        has_slot(w, f, inst_at(p, f).d as int),
        w.cells.len() + w.stacks[f.stack as int].len() <= usize::MAX,
    ensures
        step(p, w, f) matches Some((w1, f1, n)) && n == StepView::Next && goes_on(f, f1, 1)
            && exists|y: VmView, u: SliceRef| #[trigger]
            packed(p, w, f, y, u) && w1 == with_result(
                y,
                f,
                inst_at(p, f).d as int,
                Value::Slice(u),
            ),
{
    let inst = inst_at(p, f);
    let base = f.frames.last().stack_base;
    let b = (base + inst.s0) as OpIndex;
    let e = (base + inst.s1) as OpIndex;
    let (x, vals) = w.taken(f.stack, b, e)->Ok_0;
    let (y, v) = crate::slices::slice_with_data(x, vals);
    let u = v->Slice_0;
    lemma_result(y, f, inst.d, v);
    lemma_goes_on(p, w, f, with_result(y, f, inst.d as int, v));
    assert(items(y.cells, u) =~= vals);
    assert(packed(p, w, f, y, u));
}

/// Whether arguments were packed into a slice.
pub open spec fn packed(p: &Bytecode, w: VmView, f: FiberView, y: VmView, u: SliceRef) -> bool {
    let old = w.stacks[f.stack as int];
    let new = y.stacks[f.stack as int];
    let b = f.frames.last().stack_base + inst_at(p, f).s0;
    let e = f.frames.last().stack_base + inst_at(p, f).s1;
    &&& in_place(y.cells, u) && items(y.cells, u) == old.subrange(b, e)
    &&& u.array.base >= w.cells.len()
    &&& y == (VmView { cells: y.cells, stacks: w.stacks.update(f.stack as int, new), ..w })
    &&& forall|i: int| 0 <= i < w.cells.len() ==> #[trigger] y.cells[i] == w.cells[i]
    &&& new.len() == old.len()
    &&& forall|i: int| 0 <= i < old.len() && !(b <= i < e) ==> #[trigger] new[i] == old[i]
}

} // verus!

//! What the instructions do with maps.
use vstd::prelude::*;
use crate::bytecode::{Bytecode, Opcode};
use crate::content::{copy_semantic, values_equal};
use crate::dict::{find, locate};
use crate::fiber::{FiberView, StepView};
use crate::laws_basis::{
    comes_to, goes_on, has_slot, holds, inst_at, is_copy, lemma_copies, lemma_goes_on,
    lemma_operand, lemma_raises, lemma_result, lemma_step, raises, with_result, word_after,
};
use crate::laws_memory::lemma_find_first;
use crate::laws_numbers::{gives, has_number, is_integer_op, law_integers_calculate};
use crate::machine::VmView;
use crate::run::step;
use crate::trap::Trap;
use crate::value::{IntKind, Value, ValueType};

verus! {

/// Whether entry `i` is the one that a map has for a key: the first whose key is equal
/// to it.
pub open spec fn is_entry(p: &Bytecode, w: VmView, m: usize, key: Value, i: int) -> bool {
    &&& m < w.maps.len()
    &&& 0 <= i < w.maps[m as int].len()
    &&& values_equal(p, w, w.maps[m as int][i].0, key) == Ok::<bool, Trap>(true)
    &&& forall|j: int|
        0 <= j < i ==> values_equal(p, w, (#[trigger] w.maps[m as int][j]).0, key) == Ok::<
            bool,
            Trap,
        >(false)
}

/// Whether a map has no entry for a key.
pub open spec fn has_no_entry(p: &Bytecode, w: VmView, m: usize, key: Value) -> bool {
    &&& m < w.maps.len()
    &&& forall|j: int|
        0 <= j < w.maps[m as int].len() ==> values_equal(
            p,
            w,
            (#[trigger] w.maps[m as int][j]).0,
            key,
        ) == Ok::<bool, Trap>(false)
}

proof fn lemma_absent(p: &Bytecode, w: VmView, entries: Seq<(Value, Value)>, key: Value, i: nat)
    requires
        i <= entries.len(),
        forall|j: int|
            i <= j < entries.len() ==> values_equal(p, w, (#[trigger] entries[j]).0, key) == Ok::<
                bool,
                Trap,
            >(false),
    ensures
        find(p, w, entries, key, i) == Ok::<Option<nat>, Trap>(None),
    decreases entries.len() - i,
{
    if i < entries.len() {
        assert(values_equal(p, w, entries[i as int].0, key) == Ok::<bool, Trap>(false));
        lemma_absent(p, w, entries, key, i + 1);
    }
}

/// How a key is found.
pub proof fn lemma_entry(p: &Bytecode, w: VmView, m: usize, key: Value, i: int)
    ensures
        is_entry(p, w, m, key, i) ==> locate(p, w, m, key) == Ok::<Option<nat>, Trap>(
            Some(i as nat),
        ),
        has_no_entry(p, w, m, key) ==> locate(p, w, m, key) == Ok::<Option<nat>, Trap>(None),
{
    if is_entry(p, w, m, key, i) {
        let entries = w.maps[m as int];
        assert forall|j: int| 0 <= j < i implies #[trigger] values_equal(p, w, entries[j].0, key)
            == Ok::<bool, Trap>(false) by {
            assert(entries[j] == w.maps[m as int][j]);
        }
        lemma_find_first(p, w, entries, key, 0, i as nat);
    }
    if has_no_entry(p, w, m, key) {
        lemma_absent(p, w, w.maps[m as int], key, 0);
    }
}

/// The tables with other entries in a map, and nothing else changed.
pub open spec fn with_entries(w: VmView, m: usize, e: Seq<(Value, Value)>) -> VmView {
    VmView { maps: w.maps.update(m as int, e), ..w }
}

/// What a map holds for a key goes into the result slot, and if asked for, that it was
/// there goes into the slot that the following word names.
pub proof fn law_map_gives(p: &Bytecode, w: VmView, f: FiberView, m: usize, key: Value, i: int)
    requires
        comes_to(p, f, Opcode::LOAD_MAP, 1),
        holds(p, w, f, inst_at(p, f).s0, Value::GoMap(m)),
        holds(p, w, f, inst_at(p, f).s1, key),
        is_entry(p, w, m, key, i),
        has_slot(w, f, inst_at(p, f).d as int),
        has_slot(w, f, word_after(p, f).d as int),
    ensures
        step(p, w, f) matches Some((w1, f1, s)) && {
            let x = with_result(w, f, inst_at(p, f).d as int, w.maps[m as int][i].1);
            &&& s == StepView::Next && goes_on(f, f1, 2)
            &&& w1 == if inst_at(p, f).t1 == ValueType::FlagB {
                with_result(x, f, word_after(p, f).d as int, Value::Bool(true))
            } else {
                x
            }
        },
{
    let inst = inst_at(p, f);
    let ex = word_after(p, f);
    lemma_operand(p, w, f, inst.s0);
    lemma_operand(p, w, f, inst.s1);
    lemma_entry(p, w, m, key, i);
    let v = w.maps[m as int][i].1;
    lemma_result(w, f, inst.d, v);
    let x = with_result(w, f, inst.d as int, v);
    lemma_result(x, f, ex.d, Value::Bool(true));
    lemma_goes_on(
        p,
        w,
        f,
        if inst.t1 == ValueType::FlagB {
            with_result(x, f, ex.d as int, Value::Bool(true))
        } else {
            x
        },
    );
}

/// For a key without an entry, and from a nil map, a copy of the zero value that the
/// following word names goes into the result slot, and if asked for, that there was no
/// entry.
pub proof fn law_map_misses(p: &Bytecode, w: VmView, f: FiberView, map: Value, key: Value, zero: Value)
    requires
        comes_to(p, f, Opcode::LOAD_MAP, 1),
        holds(p, w, f, inst_at(p, f).s0, map),
        holds(p, w, f, inst_at(p, f).s1, key),
        holds(p, w, f, word_after(p, f).s0, zero),
        match map {
            Value::GoMap(m) => has_no_entry(p, w, m, key),
            Value::Nil(_) => true,
            _ => false,
        },
        copy_semantic(w, zero) is Ok,
        has_slot(w, f, inst_at(p, f).d as int),
        has_slot(w, f, word_after(p, f).d as int),
    ensures
        step(p, w, f) matches Some((w1, f1, s)) && s == StepView::Next && goes_on(f, f1, 2)
            && exists|y: VmView, u: Value| #[trigger]
            is_copy(w, y, zero, u) && w1 == if inst_at(p, f).t1 == ValueType::FlagB {
                with_result(
                    with_result(y, f, inst_at(p, f).d as int, u),
                    f,
                    word_after(p, f).d as int,
                    Value::Bool(false),
                )
            } else {
                with_result(y, f, inst_at(p, f).d as int, u)
            },
{
    let inst = inst_at(p, f);
    let ex = word_after(p, f);
    lemma_operand(p, w, f, inst.s0);
    lemma_operand(p, w, f, inst.s1);
    lemma_operand(p, w, f, ex.s0);
    match map {
        Value::GoMap(m) => {
            lemma_entry(p, w, m, key, 0);
        },
        _ => {},
    }
    lemma_copies(w, zero);
    let (y, u) = copy_semantic(w, zero)->Ok_0;
    lemma_result(y, f, inst.d, u);
    let x = with_result(y, f, inst.d as int, u);
    lemma_result(x, f, ex.d, Value::Bool(false));
    lemma_goes_on(
        p,
        w,
        f,
        if inst.t1 == ValueType::FlagB {
            with_result(x, f, ex.d as int, Value::Bool(false))
        } else {
            x
        },
    );
    assert(is_copy(w, y, zero, u));
}

/// What is stored in a map for a key with an entry replaces the value of the entry; for
/// another key a new entry comes behind those that there are.
pub proof fn law_map_takes(p: &Bytecode, w: VmView, f: FiberView, m: usize, key: Value, v: Value, i: int)
    requires
        comes_to(p, f, Opcode::STORE_MAP, 1),
        inst_at(p, f).op1 == Opcode::VOID,
        holds(p, w, f, inst_at(p, f).d, Value::GoMap(m)),
        holds(p, w, f, inst_at(p, f).s0, key),
        holds(p, w, f, inst_at(p, f).s1, v),
        !(v is Array) && !(v is Struct),
    ensures
        ({
            let old = w.maps[m as int];
            &&& is_entry(p, w, m, key, i) ==> (step(p, w, f) matches Some((w1, f1, s)) && s
                == StepView::Next && goes_on(f, f1, 2) && w1 == with_entries(
                w,
                m,
                old.update(i, (old[i].0, v)),
            ))
            &&& has_no_entry(p, w, m, key) ==> (step(p, w, f) matches Some((w1, f1, s)) && s
                == StepView::Next && goes_on(f, f1, 2) && w1 == with_entries(
                w,
                m,
                old.push((key, v)),
            ))
        }),
{
    let inst = inst_at(p, f);
    let old = w.maps[m as int];
    lemma_operand(p, w, f, inst.d);
    lemma_operand(p, w, f, inst.s0);
    lemma_operand(p, w, f, inst.s1);
    lemma_copies(w, v);
    lemma_entry(p, w, m, key, i);
    if is_entry(p, w, m, key, i) {
        lemma_goes_on(p, w, f, with_entries(w, m, old.update(i, (old[i].0, v))));
    } else if has_no_entry(p, w, m, key) {
        lemma_goes_on(p, w, f, with_entries(w, m, old.push((key, v))));
    }
}

/// An operation that is combined with a store in a map gets what the map holds for the
/// key, or the zero value that the following word names, and then the operand.
pub proof fn law_map_calculates(
    p: &Bytecode,
    w: VmView,
    f: FiberView,
    m: usize,
    key: Value,
    k: IntKind,
    a: i128,
    b: i128,
    i: int,
)
    requires
        comes_to(p, f, Opcode::STORE_MAP, 1),
        is_integer_op(inst_at(p, f).op1),
        inst_at(p, f).t0 == k.spec_value_type(),
        holds(p, w, f, inst_at(p, f).d, Value::GoMap(m)),
        holds(p, w, f, inst_at(p, f).s0, key),
        holds(p, w, f, inst_at(p, f).s1, Value::Int(k, b)),
        (is_entry(p, w, m, key, i) && w.maps[m as int][i].1 == Value::Int(k, a)) || (has_no_entry(
            p,
            w,
            m,
            key,
        ) && holds(p, w, f, word_after(p, f).s0, Value::Int(k, a))),
        has_number(k, a as int),
        has_number(k, b as int),
        !((inst_at(p, f).op1 == Opcode::QUO || inst_at(p, f).op1 == Opcode::REM) && b == 0),
    ensures
        exists|r: i128| #[trigger]
            gives(inst_at(p, f).op1, k, a, b, r) && (step(p, w, f) matches Some((w1, f1, s)) && s
                == StepView::Next && goes_on(f, f1, 2) && w1 == with_entries(
                w,
                m,
                if is_entry(p, w, m, key, i) {
                    w.maps[m as int].update(i, (w.maps[m as int][i].0, Value::Int(k, r)))
                } else {
                    w.maps[m as int].push((key, Value::Int(k, r)))
                },
            )),
{
    let inst = inst_at(p, f);
    let old = w.maps[m as int];
    lemma_operand(p, w, f, inst.d);
    lemma_operand(p, w, f, inst.s0);
    lemma_operand(p, w, f, inst.s1);
    lemma_entry(p, w, m, key, i);
    law_integers_calculate(inst.op1, k, a, b);
    let r = crate::num::word_op(inst.op1, inst.t0, Value::Int(k, a), Value::Int(k, b))->Some_0->Done_0->Int_1;
    if is_entry(p, w, m, key, i) {
        lemma_goes_on(p, w, f, with_entries(w, m, old.update(i, (old[i].0, Value::Int(k, r)))));
    } else {
        lemma_operand(p, w, f, word_after(p, f).s0);
        lemma_goes_on(p, w, f, with_entries(w, m, old.push((key, Value::Int(k, r)))));
    }
    assert(gives(inst.op1, k, a, b, r));
}

/// To store in a nil map is a mistake of the program.
pub proof fn law_nil_map_is_refused(p: &Bytecode, w: VmView, f: FiberView, t: ValueType)
    requires
        comes_to(p, f, Opcode::STORE_MAP, 1),
        holds(p, w, f, inst_at(p, f).d, Value::Nil(t)),
    ensures
        raises(p, w, f, "access nil value"@),
{
    lemma_operand(p, w, f, inst_at(p, f).d);
    lemma_step(p, w, f);
    lemma_raises(p, w, f, 2, "access nil value"@);
}

/// The entry for a key that is deleted goes, and the others stay in their order. A key
/// without an entry, and a nil map, change nothing.
pub proof fn law_map_deletes(p: &Bytecode, w: VmView, f: FiberView, map: Value, key: Value, i: int)
    requires
        comes_to(p, f, Opcode::DELETE, 0),
        holds(p, w, f, inst_at(p, f).s0, map),
        holds(p, w, f, inst_at(p, f).s1, key),
    ensures
        map matches Value::GoMap(m) ==> is_entry(p, w, m, key, i) ==> (step(p, w, f) matches Some(
            (w1, f1, s),
        ) && s == StepView::Next && goes_on(f, f1, 1) && w1 == with_entries(
            w,
            m,
            w.maps[m as int].remove(i),
        )),
        map matches Value::GoMap(m) ==> has_no_entry(p, w, m, key) ==> (step(
            p,
            w,
            f,
        ) matches Some((w1, f1, s)) && s == StepView::Next && goes_on(f, f1, 1) && w1 == w),
        map is Nil ==> (step(p, w, f) matches Some((w1, f1, s)) && s == StepView::Next && goes_on(
            f,
            f1,
            1,
        ) && w1 == w),
{
    let inst = inst_at(p, f);
    lemma_operand(p, w, f, inst.s0);
    lemma_operand(p, w, f, inst.s1);
    match map {
        Value::GoMap(m) => {
            lemma_entry(p, w, m, key, i);
            if is_entry(p, w, m, key, i) {
                lemma_goes_on(p, w, f, with_entries(w, m, w.maps[m as int].remove(i)));
            } else if has_no_entry(p, w, m, key) {
                lemma_goes_on(p, w, f, w);
            }
        },
        Value::Nil(_) => {
            lemma_goes_on(p, w, f, w);
        },
        _ => {},
    }
}

} // verus!

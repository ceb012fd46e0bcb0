//! What walks over lists, strings and maps give.
use vstd::prelude::*;
use vstd::utf8::{encode_scalar, encode_utf8, encode_utf8_first_scalar};
use crate::bytecode::{Bytecode, Opcode};
use crate::fiber::{FiberView, StepView};
use crate::laws_basis::{
    comes_to, goes_on, has_slot, holds, inst_at, lemma_operand, lemma_raises, lemma_result,
    lemma_spells, lemma_step, moved, raises, spells, with_result,
};
use crate::laws_maps::{has_no_entry, is_entry, lemma_entry};
use crate::laws_memory::element;
use crate::machine::VmView;
use crate::range::{latest_walk, next_entry, range_next, RangeIter};
use crate::run::step;
use crate::trap::Trap;
use crate::value::{IntKind, Region, SliceRef, Value, ValueType};

verus! {

/// Whether an instruction only began a walk.
pub open spec fn begins_walk(p: &Bytecode, w: VmView, f: FiberView, it: RangeIter) -> bool {
    step(p, w, f) matches Some((w1, f1, s)) && s == StepView::Next && w1 == w && f1.rstack
        == f.rstack.push(it) && goes_on(f, (FiberView { rstack: f.rstack, ..f1 }), 1)
}

/// A walk over a slice, an array or a string begins with its first element.
pub proof fn law_walk_begins(p: &Bytecode, w: VmView, f: FiberView, v: Value)
    requires
        comes_to(p, f, Opcode::RANGE_INIT, 0),
        holds(p, w, f, inst_at(p, f).s0, v),
        v.spec_typ() == inst_at(p, f).t0,
    ensures
        v matches Value::Slice(s) ==> begins_walk(p, w, f, RangeIter::List { s, next: 0 }),
        v matches Value::Array(r) ==> begins_walk(
            p,
            w,
            f,
            RangeIter::List {
                s: SliceRef { array: r, begin: 0, end: r.len, cap_end: r.len },
                next: 0,
            },
        ),
        v matches Value::Str(s) ==> begins_walk(p, w, f, RangeIter::Text { s, next: 0 }),
        v matches Value::Nil(t) ==> t == ValueType::Slice || t == ValueType::GoMap ==> raises(
            p,
            w,
            f,
            "access nil value"@,
        ),
{
    lemma_operand(p, w, f, inst_at(p, f).s0);
    lemma_step(p, w, f);
    lemma_raises(p, w, f, 1, "access nil value"@);
}

/// A walk over a map goes over the keys that it has in this moment, in the order of its
/// entries.
pub proof fn law_map_walk_begins(p: &Bytecode, w: VmView, f: FiberView, m: usize)
    requires
        comes_to(p, f, Opcode::RANGE_INIT, 0),
        inst_at(p, f).t0 == ValueType::GoMap,
        holds(p, w, f, inst_at(p, f).s0, Value::GoMap(m)),
        m < w.maps.len(),
        w.cells.len() + w.maps[m as int].len() <= usize::MAX,
    ensures
        step(p, w, f) matches Some((w1, f1, s)) && {
            let entries = w.maps[m as int];
            &&& s == StepView::Next
            &&& w1 == (VmView { cells: w1.cells, ..w })
            &&& w1.cells.len() == w.cells.len() + entries.len()
            &&& forall|i: int| 0 <= i < w.cells.len() ==> #[trigger] w1.cells[i] == w.cells[i]
            &&& forall|i: int|
                0 <= i < entries.len() ==> w1.cells[w.cells.len() + i] == (
                #[trigger] entries[i]).0
            &&& f1.rstack == f.rstack.push(
                RangeIter::Dict {
                    map: m,
                    keys: Region { base: w.cells.len() as usize, len: entries.len() as usize },
                    next: 0,
                },
            )
            &&& goes_on(f, (FiberView { rstack: f.rstack, ..f1 }), 1)
        },
{
    lemma_operand(p, w, f, inst_at(p, f).s0);
    lemma_step(p, w, f);
}

/// Whether a walk goes over what the type says.
pub open spec fn goes_over(it: RangeIter, t: ValueType) -> bool {
    match t {
        ValueType::Slice | ValueType::Array => it is List,
        ValueType::String => it is Text,
        ValueType::GoMap => it is Dict,
        _ => false,
    }
}

/// Whether walk `i` is the latest one over what the type says.
pub open spec fn is_latest(f: FiberView, t: ValueType, i: int) -> bool {
    &&& 0 <= i < f.rstack.len()
    &&& goes_over(f.rstack[i], t)
    &&& forall|j: int| i < j < f.rstack.len() ==> !goes_over(#[trigger] f.rstack[j], t)
}

proof fn lemma_latest(f: FiberView, t: ValueType, i: int, n: int)
    requires
        is_latest(f, t, i),
        i < n <= f.rstack.len(),
    ensures
        latest_walk(f.rstack, t, n) == Some(i),
    decreases n,
{
    if n - 1 > i {
        assert(!goes_over(f.rstack[n - 1], t));
        lemma_latest(f, t, i, n - 1);
    }
}

/// Whether a walk gave a key and a value, which are now in their slots, and is at its
/// next element.
pub open spec fn walk_gives(
    p: &Bytecode,
    w: VmView,
    f: FiberView,
    i: int,
    key: Value,
    v: Value,
    it: RangeIter,
) -> bool {
    step(p, w, f) matches Some((w1, f1, s)) && s == StepView::Next && w1 == with_result(
        with_result(w, f, inst_at(p, f).d as int, key),
        f,
        inst_at(p, f).s1 as int,
        v,
    ) && f1.rstack == f.rstack.update(i, it) && goes_on(f, (FiberView { rstack: f.rstack, ..f1 }), 1)
}

/// Whether a walk is over: it is gone, and the fiber goes to what follows it.
pub open spec fn walk_ends(p: &Bytecode, w: VmView, f: FiberView, i: int) -> bool {
    step(p, w, f) matches Some((w1, f1, s)) && s == StepView::Next && w1 == w && f1.rstack
        == f.rstack.remove(i) && goes_on(
        f,
        (FiberView { rstack: f.rstack, ..f1 }),
        1 + inst_at(p, f).s0,
    )
}

/// Whether a fiber comes to the next element of the latest walk of a type.
pub open spec fn walks_on(p: &Bytecode, w: VmView, f: FiberView, i: int) -> bool {
    &&& comes_to(p, f, Opcode::RANGE, 0)
    &&& is_latest(f, inst_at(p, f).t0, i)
    &&& has_slot(w, f, inst_at(p, f).d as int)
    &&& has_slot(w, f, inst_at(p, f).s1 as int)
    &&& i32::MIN <= f.frames.last().pc + 1 + inst_at(p, f).s0 <= i32::MAX
}

proof fn lemma_walk(p: &Bytecode, w: VmView, f: FiberView, i: int)
    requires
        walks_on(p, w, f, i),
    ensures
        range_next(p, w, f.rstack[i]) matches Ok(Some((key, v, it))) ==> walk_gives(
            p,
            w,
            f,
            i,
            key,
            v,
            it,
        ),
        range_next(p, w, f.rstack[i]) == Ok::<Option<(Value, Value, RangeIter)>, Trap>(None)
            ==> walk_ends(p, w, f, i),
{
    let inst = inst_at(p, f);
    lemma_latest(f, inst.t0, i, f.rstack.len() as int);
    lemma_step(p, w, f);
    let g = moved(f, 1);
    assert(g.with_pc((g.top().pc + inst.s0) as i32).frames =~= moved(f, 1 + inst.s0).frames);
    match range_next(p, w, f.rstack[i]) {
        Ok(Some((key, v, _))) => {
            lemma_result(w, f, inst.d, key);
            lemma_result(with_result(w, f, inst.d as int, key), f, inst.s1, v);
        },
        _ => {},
    }
}

/// A walk over a list gives each number from zero on together with the element at it,
/// and is over behind the last one.
pub proof fn law_list_walk(p: &Bytecode, w: VmView, f: FiberView, i: int, s: SliceRef, next: usize)
    requires
        walks_on(p, w, f, i),
        f.rstack[i] == (RangeIter::List { s, next }),
        s.begin <= s.end <= s.array.len,
        s.array.base + s.array.len <= w.cells.len() <= usize::MAX,
    ensures
        next < s.end - s.begin ==> walk_gives(
            p,
            w,
            f,
            i,
            Value::Int(IntKind::Int, next as i128),
            w.cells[s.array.base + s.begin + next],
            RangeIter::List { s, next: (next + 1) as usize },
        ),
        next >= s.end - s.begin ==> walk_ends(p, w, f, i),
{
    lemma_walk(p, w, f, i);
}

proof fn lemma_text_walk(
    p: &Bytecode,
    w: VmView,
    s: SliceRef,
    next: usize,
    b: Seq<u8>,
    rest: Seq<char>,
) -> (after: usize)
    requires
        spells(w.cells, s, b),
        next <= b.len() <= usize::MAX,
        b.subrange(next as int, b.len() as int) == encode_utf8(rest),
        rest.len() > 0,
    ensures
        next < after <= b.len(),
        b.subrange(after as int, b.len() as int) == encode_utf8(rest.drop_first()),
        range_next(p, w, RangeIter::Text { s, next }) == Ok::<
            Option<(Value, Value, RangeIter)>,
            Trap,
        >(
            Some(
                (
                    Value::Int(IntKind::Int, next as i128),
                    Value::Int(IntKind::Int32, (rest[0] as u32) as i128),
                    RangeIter::Text { s, next: after },
                ),
            ),
        ),
{
    lemma_spells(w.cells, s, b);
    let bytes = encode_utf8(rest);
    encode_utf8_first_scalar(rest);
    let n = encode_scalar(rest[0] as u32).len();
    assert(bytes == encode_scalar(rest[0] as u32) + encode_utf8(rest.drop_first()));
    assert(bytes.len() == b.len() - next);
    let after = (next + n) as usize;
    assert(b.subrange(after as int, b.len() as int) =~= bytes.subrange(
        n as int,
        bytes.len() as int,
    ));
    assert(bytes.subrange(n as int, bytes.len() as int) =~= encode_utf8(rest.drop_first()));
    after
}

/// A walk over a string gives its characters in order, each with the number of the byte
/// that it begins at, and is over behind the last one.
pub proof fn law_text_walk(
    p: &Bytecode,
    w: VmView,
    f: FiberView,
    i: int,
    s: SliceRef,
    next: usize,
    b: Seq<u8>,
    rest: Seq<char>,
)
    requires
        walks_on(p, w, f, i),
        f.rstack[i] == (RangeIter::Text { s, next }),
        spells(w.cells, s, b),
        next <= b.len() <= usize::MAX,
        b.subrange(next as int, b.len() as int) == encode_utf8(rest),
    ensures
        rest.len() == 0 ==> walk_ends(p, w, f, i),
        rest.len() > 0 ==> exists|after: usize|
            next < after <= b.len() && b.subrange(after as int, b.len() as int) == encode_utf8(
                rest.drop_first(),
            ) && #[trigger] walk_gives(
                p,
                w,
                f,
                i,
                Value::Int(IntKind::Int, next as i128),
                Value::Int(IntKind::Int32, (rest[0] as u32) as i128),
                RangeIter::Text { s, next: after },
            ),
{
    lemma_walk(p, w, f, i);
    if rest.len() > 0 {
        let after = lemma_text_walk(p, w, s, next, b, rest);
        assert(walk_gives(
            p,
            w,
            f,
            i,
            Value::Int(IntKind::Int, next as i128),
            Value::Int(IntKind::Int32, (rest[0] as u32) as i128),
            RangeIter::Text { s, next: after },
        ));
    } else {
        lemma_spells(w.cells, s, b);
        assert(b.subrange(next as int, b.len() as int).len() == 0);
    }
}

/// A walk over a map gives the keys in their order, each with what the map holds for it
/// then; it leaves out those that are gone, and is over behind the last one.
pub proof fn law_map_walk(
    p: &Bytecode,
    w: VmView,
    f: FiberView,
    i: int,
    m: usize,
    keys: Region,
    next: usize,
    k: int,
    e: int,
)
    requires
        walks_on(p, w, f, i),
        f.rstack[i] == (RangeIter::Dict { map: m, keys, next }),
        keys.base + keys.len <= w.cells.len() <= usize::MAX,
        next <= k <= keys.len,
        forall|j: int|
            next <= j < k ==> has_no_entry(p, w, m, #[trigger] element(w.cells, keys, j)),
        k < keys.len ==> is_entry(p, w, m, element(w.cells, keys, k), e),
    ensures
        k < keys.len ==> walk_gives(
            p,
            w,
            f,
            i,
            element(w.cells, keys, k),
            w.maps[m as int][e].1,
            RangeIter::Dict { map: m, keys, next: (k + 1) as usize },
        ),
        k == keys.len ==> walk_ends(p, w, f, i),
{
    lemma_map_walk(p, w, m, keys, next, k, e);
    lemma_walk(p, w, f, i);
}

proof fn lemma_map_walk(p: &Bytecode, w: VmView, m: usize, keys: Region, next: usize, k: int, e: int)
    requires
        keys.base + keys.len <= w.cells.len() <= usize::MAX,
        next <= k <= keys.len,
        forall|j: int|
            next <= j < k ==> has_no_entry(p, w, m, #[trigger] element(w.cells, keys, j)),
        k < keys.len ==> is_entry(p, w, m, element(w.cells, keys, k), e),
    ensures
        range_next(p, w, RangeIter::Dict { map: m, keys, next }) == Ok::<
            Option<(Value, Value, RangeIter)>,
            Trap,
        >(
            if k < keys.len {
                Some(
                    (
                        element(w.cells, keys, k),
                        w.maps[m as int][e].1,
                        RangeIter::Dict { map: m, keys, next: (k + 1) as usize },
                    ),
                )
            } else {
                None
            },
        ),
{
    let ks = w.cells.subrange(keys.base as int, keys.base + keys.len);
    assert forall|j: int| next <= j < k implies has_no_entry(p, w, m, #[trigger] ks[j]) by {
        assert(ks[j] == element(w.cells, keys, j));
    }
    lemma_next(p, w, m, ks, next as nat, k, e);
}

proof fn lemma_next(p: &Bytecode, w: VmView, m: usize, ks: Seq<Value>, i: nat, k: int, e: int)
    requires
        i <= k <= ks.len(),
        forall|j: int| i <= j < k ==> has_no_entry(p, w, m, #[trigger] ks[j]),
        k < ks.len() ==> is_entry(p, w, m, ks[k], e),
    ensures
        next_entry(p, w, m, ks, i) == Ok::<Option<(nat, Value)>, Trap>(
            if k < ks.len() {
                Some((k as nat, w.maps[m as int][e].1))
            } else {
                None
            },
        ),
    decreases k - i,
{
    if i < k {
        assert(has_no_entry(p, w, m, ks[i as int]));
        lemma_entry(p, w, m, ks[i as int], 0);
        lemma_next(p, w, m, ks, i + 1, k, e);
    } else if k < ks.len() {
        lemma_entry(p, w, m, ks[k], e);
    }
}

} // verus!

//! What literals and closures are.
use vstd::prelude::*;
use crate::bytecode::{Bytecode, MetadataType, Opcode, ValueDesc};
use crate::closure::{gos_from_func, new_uvs};
use crate::content::values_equal;
use crate::dict::with_new_map;
use crate::fiber::{FiberView, StepView};
use crate::frame::{or_empty, with_referrer, FrameView};
use crate::laws_basis::{
    comes_to, goes_on, has_slot, inst_at, lemma_goes_on, lemma_result, lemma_step, moved, slot_of,
    with_result, word_after,
};
use crate::laws_closure::{
    all_open, all_typed, found, id_at, law_closure_finds_variables, lies, same_calls,
};
use crate::laws_maps::{has_no_entry, lemma_entry};
use crate::laws_numbers::has_number;
use crate::laws_zero::{is_type, is_zero, law_zero_values, made_zero};
use crate::machine::{ClosureObj, UpValueState, VmView};
use crate::meta::zero_value;
use crate::ops_call::{capture, owner};
use crate::ops_make::{literal_list, literal_map, literal_struct, literal_value, placed, slot_at};
use crate::run::step;
use crate::trap::Trap;
use crate::value::{FunctionKey, IntKind, Meta, OpIndex, Region, SliceRef, Value, ValueType};

verus! {

/// What stands first in pair `i` of a literal, whose pairs lie in the slots from `b` on.
pub open spec fn first_of(w: VmView, f: FiberView, b: int, i: int) -> Value {
    slot_of(w, f, b + 2 * i)
}

/// What stands second in pair `i` of a literal.
pub open spec fn second_of(w: VmView, f: FiberView, b: int, i: int) -> Value {
    slot_of(w, f, b + 2 * i + 1)
}

/// Whether the pairs of a literal are there.
pub open spec fn has_pairs(w: VmView, f: FiberView, b: int, n: int) -> bool {
    &&& 0 <= n
    &&& f.stack < w.stacks.len()
    &&& 0 <= f.frames.last().stack_base + b
    &&& f.frames.last().stack_base + b + 2 * n <= w.stacks[f.stack as int].len()
    &&& f.frames.last().stack_base + b + 2 * n <= i32::MAX
}

/// Whether a fiber comes to a literal of a type.
pub open spec fn comes_to_literal(p: &Bytecode, w: VmView, f: FiberView, m: Meta) -> bool {
    let inst = inst_at(p, f);
    let ex = word_after(p, f);
    &&& comes_to(p, f, Opcode::LITERAL, 1)
    &&& ex.s0 < 0
    &&& -1 - ex.s0 < p.consts@.len()
    &&& p.consts@[-1 - ex.s0] == Value::Metadata(m)
    &&& m.key < p.metas@.len()
    &&& has_pairs(w, f, inst.s0 as int, inst.s1 as int)
    &&& has_slot(w, f, inst.d as int)
}

proof fn lemma_pair(w: VmView, x: VmView, f: FiberView, b: int, n: int, i: int)
    requires
        has_pairs(w, f, b, n),
        0 <= i < n,
        x.stacks == w.stacks,
    ensures
        slot_at(x, f.stack, f.frames.last().stack_base + b + 2 * i) == Ok::<Value, Trap>(
            first_of(w, f, b, i),
        ),
        slot_at(x, f.stack, f.frames.last().stack_base + b + 1 + 2 * i) == Ok::<Value, Trap>(
            second_of(w, f, b, i),
        ),
{
}

proof fn lemma_literal(
    p: &Bytecode,
    w: VmView,
    f: FiberView,
    m: Meta,
    w1: VmView,
    v: Value,
)
    requires
        comes_to_literal(p, w, f, m),
        w1.stacks == w.stacks,
        ({
            let inst = inst_at(p, f);
            literal_value(
                p,
                w,
                m,
                f.stack,
                f.frames.last().stack_base + inst.s0,
                inst.s1 as int,
            ) == Ok::<(VmView, Value), Trap>((w1, v))
        }),
    ensures
        step(p, w, f) matches Some((x, f1, s)) && s == StepView::Next && goes_on(f, f1, 2) && x
            == with_result(w1, f, inst_at(p, f).d as int, v),
{
    let inst = inst_at(p, f);
    lemma_result(w1, f, inst.d, v);
    lemma_goes_on(p, w, f, with_result(w1, f, inst.d as int, v));
}

/// Whether the elements of a literal come to the positions `at`: each to the one that
/// is given for it, or else to the one behind that of the element before.
pub open spec fn come_to(w: VmView, f: FiberView, b: int, n: int, at: Seq<int>) -> bool {
    &&& at.len() == n
    &&& forall|i: int|
        0 <= i < n ==> 0 <= #[trigger] at[i] <= i32::MAX && (first_of(w, f, b, i) matches Value::Int(
            IntKind::Int32,
            g,
        ) && has_number(IntKind::Int32, g as int) && at[i] == if g >= 0 {
            g as int
        } else if i == 0 {
            0
        } else {
            at[i - 1] + 1
        })
}

/// Whether a list has elements at their positions, a later one over an earlier one, and
/// the zero value at the others. It ends with the last position.
pub open spec fn arranged(
    w: VmView,
    f: FiberView,
    b: int,
    at: Seq<int>,
    zero: Value,
    vals: Seq<Value>,
) -> bool {
    &&& forall|i: int| 0 <= i < at.len() ==> 0 <= #[trigger] at[i] < vals.len()
    &&& vals.len() > 0 ==> exists|i: int| 0 <= i < at.len() && #[trigger] at[i] == vals.len() - 1
    &&& forall|k: int|
        0 <= k < vals.len() && (forall|i: int| 0 <= i < at.len() ==> #[trigger] at[i] != k)
            ==> #[trigger] vals[k] == zero
    &&& forall|i: int|
        0 <= i < at.len() && (forall|j: int| i < j < at.len() ==> #[trigger] at[j] != at[i])
            ==> vals[#[trigger] at[i]] == second_of(w, f, b, i)
}

proof fn lemma_arranged(
    w: VmView,
    f: FiberView,
    b: int,
    at: Seq<int>,
    zero: Value,
    vals: Seq<Value>,
    i: int,
)
    requires
        0 <= i < at.len(),
        forall|j: int| 0 <= j < at.len() ==> 0 <= #[trigger] at[j],
        arranged(w, f, b, at.subrange(0, i), zero, vals),
    ensures
        arranged(
            w,
            f,
            b,
            at.subrange(0, i + 1),
            zero,
            placed(vals, at[i], second_of(w, f, b, i), zero),
        ),
{
    let old = at.subrange(0, i);
    let new = at.subrange(0, i + 1);
    let elem = second_of(w, f, b, i);
    let next = placed(vals, at[i], elem, zero);
    assert forall|j: int| 0 <= j < new.len() implies 0 <= #[trigger] new[j] < next.len() by {
        if j < i {
            assert(new[j] == old[j]);
        }
    }
    if next.len() == vals.len() {
        let j = choose|j: int| 0 <= j < old.len() && #[trigger] old[j] == vals.len() - 1;
        assert(new[j] == old[j]);
    } else {
        assert(new[i] == next.len() - 1);
    }
    assert forall|k: int|
        0 <= k < next.len() && (forall|j: int|
            0 <= j < new.len() ==> #[trigger] new[j] != k) implies #[trigger] next[k] == zero by {
        assert(new[i] != k);
        if k < vals.len() {
            assert forall|j: int| 0 <= j < old.len() implies #[trigger] old[j] != k by {
                assert(new[j] == old[j]);
            }
            assert(vals[k] == zero);
        }
    }
    assert forall|j: int|
        0 <= j < new.len() && (forall|l: int|
            j < l < new.len() ==> #[trigger] new[l] != new[j]) implies next[#[trigger] new[j]]
        == second_of(w, f, b, j) by {
        if j < i {
            assert(new[i] != new[j]);
            assert(new[j] == old[j]);
            assert forall|l: int| j < l < old.len() implies #[trigger] old[l] != old[j] by {
                assert(new[l] == old[l]);
            }
            assert(vals[old[j]] == second_of(w, f, b, j));
        }
    }
}

proof fn lemma_list(
    w: VmView,
    x: VmView,
    f: FiberView,
    b: int,
    n: int,
    at: Seq<int>,
    zero: Value,
    i: int,
    vals: Seq<Value>,
)
    requires
        has_pairs(w, f, b, n),
        x.stacks == w.stacks,
        come_to(w, f, b, n, at),
        0 <= i <= n,
        arranged(w, f, b, at.subrange(0, i), zero, vals),
    ensures
        literal_list(
            x,
            f.stack,
            f.frames.last().stack_base + b,
            n,
            zero,
            i,
            if i == 0 {
                -1
            } else {
                at[i - 1]
            },
            vals,
        ) matches Ok(all) && arranged(w, f, b, at, zero, all),
    decreases n - i,
{
    if i < n {
        assert(at[i] >= 0);
        lemma_pair(w, x, f, b, n, i);
        lemma_arranged(w, f, b, at, zero, vals, i);
        let next = placed(vals, at[i], second_of(w, f, b, i), zero);
        lemma_list(w, x, f, b, n, at, zero, i + 1, next);
    } else {
        assert(at.subrange(0, n) =~= at);
    }
}

/// The literal of a slice or an array has its elements at their positions, and the zero
/// value of the element type in between. It is made of new cells.
pub proof fn law_list_literal(p: &Bytecode, w: VmView, f: FiberView, m: Meta, e: Meta, at: Seq<int>)
    requires
        comes_to_literal(p, w, f, m),
        p.metas@[m.key as int] == MetadataType::Slice(e) || (p.metas@[m.key as int] matches MetadataType::Array(
            x,
            _,
        ) && x == e),
        come_to(w, f, inst_at(p, f).s0 as int, inst_at(p, f).s1 as int, at),
        is_type(p, e, p.metas@.len() + 1),
    ensures
        step(p, w, f) matches Some((w1, f1, s)) && s == StepView::Next && goes_on(f, f1, 2)
            && exists|y: VmView, zero: Value, vals: Seq<Value>|
            #![trigger made_zero(p, w, y, e, zero), arranged(
                w,
                f,
                inst_at(p, f).s0 as int,
                at,
                zero,
                vals,
            )]
            {
                let r = Region { base: y.cells.len() as usize, len: vals.len() as usize };
                &&& made_zero(p, w, y, e, zero)
                &&& arranged(w, f, inst_at(p, f).s0 as int, at, zero, vals)
                &&& w1 == with_result(
                    VmView { cells: y.cells + vals, ..w },
                    f,
                    inst_at(p, f).d as int,
                    if p.metas@[m.key as int] is Array {
                        Value::Array(r)
                    } else {
                        Value::Slice(
                            SliceRef { array: r, begin: 0, end: r.len, cap_end: r.len },
                        )
                    },
                )
            },
{
    let inst = inst_at(p, f);
    let b = inst.s0 as int;
    let n = inst.s1 as int;
    law_zero_values(p, w, e);
    let (y, zero) = zero_value(p, w, e)->Ok_0;
    assert(arranged(w, f, b, at.subrange(0, 0), zero, seq![]));
    lemma_list(w, y, f, b, n, at, zero, 0, seq![]);
    let vals = literal_list(
        y,
        f.stack,
        f.frames.last().stack_base + b,
        n,
        zero,
        0,
        -1,
        seq![],
    )->Ok_0;
    let r = Region { base: y.cells.len() as usize, len: vals.len() as usize };
    let v = if p.metas@[m.key as int] is Array {
        Value::Array(r)
    } else {
        Value::Slice(SliceRef { array: r, begin: 0, end: r.len, cap_end: r.len })
    };
    let w1 = VmView { cells: y.cells + vals, ..w };
    lemma_literal(p, w, f, m, w1, v);
    assert(made_zero(p, w, y, e, zero) && arranged(w, f, b, at, zero, vals));
}

proof fn lemma_map_literal(
    p: &Bytecode,
    w: VmView,
    x: VmView,
    f: FiberView,
    b: int,
    n: int,
    i: int,
)
    requires
        has_pairs(w, f, b, n),
        0 <= i <= n,
        keys_differ(p, w, f, b, n),
        w.maps.len() <= usize::MAX,
        x == (VmView { maps: w.maps.push(pairs(w, f, b, i)), ..w }),
    ensures
        literal_map(
            p,
            x,
            w.maps.len() as usize,
            f.stack,
            f.frames.last().stack_base + b,
            n,
            i,
        ) == Ok::<VmView, Trap>(VmView { maps: w.maps.push(pairs(w, f, b, n)), ..w }),
    decreases n - i,
{
    if i < n {
        let m = w.maps.len() as usize;
        lemma_pair(w, x, f, b, n, i);
        let key = first_of(w, f, b, i);
        assert forall|j: int| 0 <= j < x.maps[m as int].len() implies values_equal(
            p,
            x,
            (#[trigger] x.maps[m as int][j]).0,
            key,
        ) == Ok::<bool, Trap>(false) by {
            assert(x.maps[m as int][j] == pairs(w, f, b, i)[j]);
            assert(values_equal(p, w, first_of(w, f, b, j), first_of(w, f, b, i)) == Ok::<
                bool,
                Trap,
            >(false));
        }
        assert(has_no_entry(p, x, m, key));
        lemma_entry(p, x, m, key, 0);
        let y = VmView { maps: w.maps.push(pairs(w, f, b, i + 1)), ..w };
        assert(pairs(w, f, b, i).push((key, second_of(w, f, b, i))) =~= pairs(w, f, b, i + 1));
        assert(x.maps.update(m as int, pairs(w, f, b, i + 1)) =~= y.maps);
        lemma_map_literal(p, w, y, f, b, n, i + 1);
    }
}

/// The pairs of a literal.
pub open spec fn pairs(w: VmView, f: FiberView, b: int, n: int) -> Seq<(Value, Value)> {
    Seq::new(n as nat, |i: int| (first_of(w, f, b, i), second_of(w, f, b, i)))
}

/// Whether the keys of a literal differ.
pub open spec fn keys_differ(p: &Bytecode, w: VmView, f: FiberView, b: int, n: int) -> bool {
    forall|i: int, j: int|
        0 <= i < j < n ==> values_equal(
            p,
            w,
            #[trigger] first_of(w, f, b, i),
            #[trigger] first_of(w, f, b, j),
        ) == Ok::<bool, Trap>(false)
}

/// The literal of a map whose keys differ is a new map with its pairs for entries.
pub proof fn law_map_literal(p: &Bytecode, w: VmView, f: FiberView, m: Meta, k: Meta, e: Meta)
    requires
        comes_to_literal(p, w, f, m),
        p.metas@[m.key as int] == MetadataType::GoMap(k, e),
        keys_differ(p, w, f, inst_at(p, f).s0 as int, inst_at(p, f).s1 as int),
        w.maps.len() <= usize::MAX,
    ensures
        step(p, w, f) matches Some((w1, f1, s)) && s == StepView::Next && goes_on(f, f1, 2) && w1
            == with_result(
            VmView {
                maps: w.maps.push(
                    pairs(w, f, inst_at(p, f).s0 as int, inst_at(p, f).s1 as int),
                ),
                ..w
            },
            f,
            inst_at(p, f).d as int,
            Value::GoMap(w.maps.len() as usize),
        ),
{
    let inst = inst_at(p, f);
    let b = inst.s0 as int;
    let n = inst.s1 as int;
    assert(pairs(w, f, b, 0) =~= seq![]);
    lemma_map_literal(p, w, with_new_map(w), f, b, n, 0);
    let w1 = VmView { maps: w.maps.push(pairs(w, f, b, n)), ..w };
    lemma_literal(p, w, f, m, w1, Value::GoMap(w.maps.len() as usize));
}

/// Whether the fields that a literal names have its values, a later one over an earlier
/// one, and all other cells stay as they are.
pub open spec fn filled(
    w: VmView,
    f: FiberView,
    b: int,
    n: int,
    old: Seq<Value>,
    new: Seq<Value>,
    r: Region,
) -> bool {
    &&& new.len() == old.len()
    &&& forall|k: int|
        0 <= k < old.len() && (forall|i: int|
            0 <= i < n ==> #[trigger] first_of(w, f, b, i) != Value::Int(
                IntKind::Uint,
                (k - r.base) as i128,
            )) ==> #[trigger] new[k] == old[k]
    &&& forall|i: int, k: i128|
        #![trigger first_of(w, f, b, i), new[r.base + k]]
        0 <= i < n && first_of(w, f, b, i) == Value::Int(IntKind::Uint, k) && (forall|j: int|
            i < j < n ==> #[trigger] first_of(w, f, b, j) != first_of(w, f, b, i)) ==> new[r.base
            + k] == second_of(w, f, b, i)
}

/// Whether the pairs of a literal name fields of a struct.
pub open spec fn name_fields(w: VmView, f: FiberView, b: int, n: int, len: int) -> bool {
    forall|i: int|
        0 <= i < n ==> (#[trigger] first_of(w, f, b, i) matches Value::Int(IntKind::Uint, k) && 0
            <= k < len && has_number(IntKind::Uint, k as int))
}

proof fn lemma_struct_literal(
    w: VmView,
    y: VmView,
    x: VmView,
    f: FiberView,
    b: int,
    n: int,
    i: int,
    r: Region,
)
    requires
        has_pairs(w, f, b, n),
        name_fields(w, f, b, n, r.len as int),
        r.base + r.len <= y.cells.len() <= usize::MAX,
        y.stacks == w.stacks,
        x == (VmView { cells: x.cells, ..y }),
        0 <= i <= n,
        filled(w, f, b, i, y.cells, x.cells, r),
    ensures
        literal_struct(x, r, f.stack, f.frames.last().stack_base + b, n, i) matches Ok(z) && z
            == (VmView { cells: z.cells, ..y }) && filled(w, f, b, n, y.cells, z.cells, r),
    decreases n - i,
{
    if i < n {
        lemma_pair(w, x, f, b, n, i);
        let k = first_of(w, f, b, i)->Int_1;
        let v = second_of(w, f, b, i);
        let cells = x.cells.update(r.base + k, v);
        let z = VmView { cells, ..y };
        assert(x.with_cell(r.base + k, v) == Ok::<VmView, Trap>(z));
        assert(filled(w, f, b, i + 1, y.cells, cells, r)) by {
            assert forall|c: int|
                0 <= c < y.cells.len() && (forall|j: int|
                    0 <= j < i + 1 ==> #[trigger] first_of(w, f, b, j) != Value::Int(
                        IntKind::Uint,
                        (c - r.base) as i128,
                    )) implies #[trigger] cells[c] == y.cells[c] by {
                assert(first_of(w, f, b, i) != Value::Int(IntKind::Uint, (c - r.base) as i128));
                assert(x.cells[c] == y.cells[c]);
            }
            assert forall|j: int, c: i128|
                #![trigger first_of(w, f, b, j), cells[r.base + c]]
                0 <= j < i + 1 && first_of(w, f, b, j) == Value::Int(IntKind::Uint, c) && (forall|
                    l: int,
                |
                    j < l < i + 1 ==> #[trigger] first_of(w, f, b, l) != first_of(
                        w,
                        f,
                        b,
                        j,
                    )) implies cells[r.base + c] == second_of(w, f, b, j) by {
                if j < i {
                    assert(first_of(w, f, b, i) != first_of(w, f, b, j));
                    assert(x.cells[r.base + c] == second_of(w, f, b, j));
                }
            }
        }
        lemma_struct_literal(w, y, z, f, b, n, i + 1, r);
    }
}

/// The literal of a struct is a new one with the given fields; the others have the zero
/// values of their types.
pub proof fn law_struct_literal(p: &Bytecode, w: VmView, f: FiberView, m: Meta)
    requires
        comes_to_literal(p, w, f, m),
        m.ptr_depth == 0,
        p.metas@[m.key as int] matches MetadataType::Struct(fields) && name_fields(
            w,
            f,
            inst_at(p, f).s0 as int,
            inst_at(p, f).s1 as int,
            fields@.len() as int,
        ),
        is_type(p, m, p.metas@.len() + 1),
        zero_value(p, w, m)->Ok_0.0.cells.len() <= usize::MAX,
    ensures
        step(p, w, f) matches Some((w1, f1, s)) && s == StepView::Next && goes_on(f, f1, 2)
            && exists|y: VmView, r: Region, cells: Seq<Value>|
            #![trigger made_zero(p, w, y, m, Value::Struct(r)), filled(
                w,
                f,
                inst_at(p, f).s0 as int,
                inst_at(p, f).s1 as int,
                y.cells,
                cells,
                r,
            )]
            {
                &&& made_zero(p, w, y, m, Value::Struct(r))
                &&& filled(
                    w,
                    f,
                    inst_at(p, f).s0 as int,
                    inst_at(p, f).s1 as int,
                    y.cells,
                    cells,
                    r,
                )
                &&& w1 == with_result(
                    VmView { cells, ..w },
                    f,
                    inst_at(p, f).d as int,
                    Value::Struct(r),
                )
            },
{
    let inst = inst_at(p, f);
    let b = inst.s0 as int;
    let n = inst.s1 as int;
    law_zero_values(p, w, m);
    let (y, v) = zero_value(p, w, m)->Ok_0;
    assert(v matches Value::Struct(r) && r.base + r.len <= y.cells.len() && r.len
        == p.metas@[m.key as int]->Struct_0@.len()) by {
        reveal(made_zero);
        reveal_with_fuel(is_zero, 2);
        reveal_with_fuel(crate::laws_zero::parts_are_zero, 2);
    }
    let r = v->Struct_0;
    assert(filled(w, f, b, 0, y.cells, y.cells, r));
    lemma_struct_literal(w, y, y, f, b, n, 0, r);
    let z = literal_struct(y, r, f.stack, f.frames.last().stack_base + b, n, 0)->Ok_0;
    lemma_literal(p, w, f, m, z, v);
    assert(made_zero(p, w, y, m, Value::Struct(r)) && filled(w, f, b, n, y.cells, z.cells, r));
}

/// Whether frame `o` is the latest of a function, the first frame left aside.
pub open spec fn is_latest_of(frames: Seq<FrameView>, func: FunctionKey, o: int) -> bool {
    &&& 0 < o < frames.len()
    &&& frames[o].func == func
    &&& forall|k: int| o < k < frames.len() ==> (#[trigger] frames[k]).func != func
}

/// The latest frame of a function is found.
pub proof fn lemma_latest(frames: Seq<FrameView>, func: FunctionKey, k: int, o: int)
    requires
        o <= k < frames.len(),
        is_latest_of(frames, func, o),
    ensures
        owner(frames, func, k) == Some(o),
    decreases k,
{
    if k > o {
        lemma_latest(frames, func, k - 1, o);
    }
}

/// Whether a closure leads to the variables of the calls that it was made in: each
/// variable of an enclosing function is the slot of the latest call of that function.
pub open spec fn leads_to_variables(
    p: &Bytecode,
    f: FiberView,
    w: VmView,
    func: FunctionKey,
    r: Region,
) -> bool {
    let descs = p.functions@[func as int].up_ptrs@;
    &&& r.len == descs.len()
    &&& forall|a: int, o: int|
        #![trigger descs[a], is_latest_of(f.frames, descs[a].func, o)]
        0 <= a < descs.len() && !descs[a].is_local && is_latest_of(f.frames, descs[a].func, o)
            ==> lies(w, f.stack, f.frames[o].stack_base, descs[a].index, id_at(w, r, a))
}

proof fn lemma_leads(
    p: &Bytecode,
    f: FiberView,
    w: VmView,
    func: FunctionKey,
    r: Region,
)
    requires
        r.len == p.functions@[func as int].up_ptrs@.len(),
        forall|a: int|
            0 <= a < r.len && !(#[trigger] p.functions@[func as int].up_ptrs@[a]).is_local
                ==> found(
                w,
                f.frames,
                f.stack,
                p.functions@[func as int].up_ptrs@[a],
                id_at(w, r, a),
            ),
    ensures
        leads_to_variables(p, f, w, func, r),
{
    let descs = p.functions@[func as int].up_ptrs@;
    assert forall|a: int, o: int|
        #![trigger descs[a], is_latest_of(f.frames, descs[a].func, o)]
        0 <= a < descs.len() && !descs[a].is_local && is_latest_of(
            f.frames,
            descs[a].func,
            o,
        ) implies lies(w, f.stack, f.frames[o].stack_base, descs[a].index, id_at(w, r, a)) by {
        lemma_latest(f.frames, descs[a].func, f.frames.len() - 1, o);
    }
}

/// A closure is a new function value of its function, without a receiver, and leads to
/// the variables that it captures.
pub proof fn law_closure_is_made(
    p: &Bytecode,
    w: VmView,
    f: FiberView,
    func: FunctionKey,
    slot_type: spec_fn(FunctionKey, OpIndex) -> ValueType,
)
    requires
        comes_to(p, f, Opcode::CLOSURE, 0),
        inst_at(p, f).s0 < 0 && -1 - inst_at(p, f).s0 < p.consts@.len(),
        p.consts@[-1 - inst_at(p, f).s0] == Value::Function(func),
        func < p.functions@.len(),
        has_slot(w, f, inst_at(p, f).d as int),
        all_open(w, f.stack, f.frames),
        all_typed(f.frames, slot_type),
        forall|a: int|
            0 <= a < p.functions@[func as int].up_ptrs@.len() ==> (
            #[trigger] p.functions@[func as int].up_ptrs@[a]).typ == slot_type(
                p.functions@[func as int].up_ptrs@[a].func,
                p.functions@[func as int].up_ptrs@[a].index,
            ),
        w.upvals.len() + p.functions@[func as int].up_ptrs@.len() <= usize::MAX,
        w.cells.len() + p.functions@[func as int].up_ptrs@.len() <= usize::MAX,
    ensures
        step(p, w, f) matches Some((w1, f1, s)) && s == StepView::Next && {
            let v = Value::Closure(w.closures.len() as usize);
            &&& same_calls(moved(f, 1).frames, f1.frames)
            &&& w1.closures.len() == w.closures.len() + 1
            &&& w1.closures.drop_last() == w.closures
            &&& w1.stacks == with_result(w, f, inst_at(p, f).d as int, v).stacks
            &&& w1.closures.last() matches ClosureObj::Gos { func: g, uvs, recv } && {
                &&& g == func
                &&& recv is None
                &&& uvs is None <==> p.functions@[func as int].up_ptrs@.len() == 0
                &&& uvs matches Some(r) ==> leads_to_variables(p, f, w1, func, r)
            }
        },
{
    let inst = inst_at(p, f);
    let g = moved(f, 1);
    let v = Value::Closure(w.closures.len() as usize);
    lemma_step(p, w, f);
    assert forall|k: int| 0 <= k < f.frames.len() implies #[trigger] g.frames[k] == (FrameView {
        pc: g.frames[k].pc,
        ..f.frames[k]
    }) by {}
    assert(all_open(w, f.stack, g.frames));
    assert(all_typed(g.frames, slot_type));
    law_closure_finds_variables(p, w, func, g.frames, f.stack, slot_type);
    let (w1, cls) = gos_from_func(p, w, func, None)->Ok_0;
    lemma_keeps(p, w, func);
    let (w2, frames) = match cls {
        ClosureObj::Gos { uvs: Some(r), .. } => capture(w1, g.frames, f.stack, r, 0)->Some_0,
        _ => (w1, g.frames),
    };
    assert(w2.stacks == w.stacks && w2.closures == w.closures && w2.cells == w1.cells) by {
        match cls {
            ClosureObj::Gos { uvs: Some(r), .. } => {
                lemma_capture_keeps(w1, g.frames, f.stack, r, 0);
            },
            _ => {},
        }
    }
    let w3 = VmView { closures: w.closures.push(cls), ..w2 };
    lemma_result(w3, f, inst.d, v);
    let w4 = with_result(w3, f, inst.d as int, v);
    assert(w4.closures.drop_last() =~= w.closures);
    match cls {
        ClosureObj::Gos { uvs: Some(r), .. } => {
            let descs = p.functions@[func as int].up_ptrs@;
            assert forall|a: int| 0 <= a < r.len && !(#[trigger] descs[a]).is_local implies found(
                w4,
                f.frames,
                f.stack,
                descs[a],
                id_at(w4, r, a),
            ) by {
                assert(found(w2, g.frames, f.stack, descs[a], id_at(w2, r, a)));
                lemma_same_owner(f.frames, g.frames, descs[a].func, f.frames.len() - 1);
            }
            lemma_leads(p, f, w4, func, r);
        },
        _ => {},
    }
}

proof fn lemma_same_owner(f: Seq<FrameView>, g: Seq<FrameView>, func: FunctionKey, k: int)
    requires
        f.len() == g.len(),
        k < f.len(),
        forall|i: int| 0 <= i < f.len() ==> (#[trigger] g[i]) == (FrameView { pc: g[i].pc, ..f[i] }),
    ensures
        owner(f, func, k) == owner(g, func, k),
        owner(f, func, k) matches Some(o) ==> 0 < o <= k && g[o].stack_base == f[o].stack_base
            && g[o].func == f[o].func,
    decreases k,
{
    if k > 0 {
        assert(g[k] == (FrameView { pc: g[k].pc, ..f[k] }));
        lemma_same_owner(f, g, func, k - 1);
    }
}

/// A new function value changes no stacks.
pub proof fn lemma_keeps(p: &Bytecode, w: VmView, func: FunctionKey)
    ensures
        gos_from_func(p, w, func, None) matches Ok((x, cls)) ==> x.stacks == w.stacks && x.closures
            == w.closures && (cls matches ClosureObj::Gos { func: g, uvs, recv } && g == func
            && recv is None && (uvs is None <==> p.functions@[func as int].up_ptrs@.len() == 0)),
{
    if func < p.functions@.len() {
        lemma_uvs_keep(w, p.functions@[func as int].up_ptrs@, 0, seq![]);
    }
}

/// New captured variables change nothing else.
pub proof fn lemma_uvs_keep(w: VmView, descs: Seq<ValueDesc>, i: nat, out: Seq<Value>)
    ensures
        new_uvs(w, descs, i, out).0 == (VmView { upvals: new_uvs(w, descs, i, out).0.upvals, ..w }),
    decreases descs.len() - i,
{
    if i < descs.len() {
        if descs[i as int].is_local {
            lemma_uvs_keep(w, descs, i + 1, out.push(crate::value::void()));
        } else {
            lemma_uvs_keep(
                w.with_new_upval(UpValueState::Open(descs[i as int])),
                descs,
                i + 1,
                out.push(
                    Value::Pointer(crate::value::PointerObj::UpVal(w.upvals.len() as usize)),
                ),
            );
        }
    }
}

/// Capturing changes nothing but captured variables.
pub proof fn lemma_capture_keeps(
    w: VmView,
    frames: Seq<FrameView>,
    stack: usize,
    uvs: Region,
    i: nat,
)
    ensures
        capture(w, frames, stack, uvs, i) matches Some((x, _)) ==> x == (VmView {
            upvals: x.upvals,
            ..w
        }),
    decreases uvs.len - i,
{
    if i < uvs.len && capture(w, frames, stack, uvs, i) is Some {
        let a = uvs.base + i;
        match w.cells[a] {
            Value::Pointer(crate::value::PointerObj::UpVal(id)) => match w.upvals[id as int] {
                UpValueState::Open(d) => match owner(frames, d.func, frames.len() - 1) {
                    Some(k) => {
                        let x = VmView {
                            upvals: w.upvals.update(
                                id as int,
                                UpValueState::Open(
                                    ValueDesc {
                                        stack: Some(stack),
                                        stack_base: frames[k].stack_base,
                                        ..d
                                    },
                                ),
                            ),
                            ..w
                        };
                        let next = frames.update(
                            k,
                            FrameView {
                                referred_by: Some(
                                    with_referrer(
                                        or_empty(frames[k].referred_by),
                                        d.index,
                                        d.typ,
                                        id,
                                    ),
                                ),
                                ..frames[k]
                            },
                        );
                        lemma_capture_keeps(x, next, stack, uvs, i + 1);
                    },
                    None => {
                        lemma_capture_keeps(w, frames, stack, uvs, i + 1);
                    },
                },
                UpValueState::Closed(_) => {
                    lemma_capture_keeps(w, frames, stack, uvs, i + 1);
                },
            },
            _ => {
                lemma_capture_keeps(w, frames, stack, uvs, i + 1);
            },
        }
    }
}

} // verus!

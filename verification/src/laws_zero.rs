//! What the zero value of a type is, and where the instructions give it.
use vstd::prelude::*;
use crate::bytecode::{Bytecode, MetadataType, Opcode};
use crate::fiber::{FiberView, StepView};
use crate::laws_basis::{
    comes_to, goes_on, has_slot, holds, inst_at, lemma_goes_on, lemma_operand, lemma_result,
    with_result,
};
use crate::laws_memory::element;
use crate::machine::{next_region, UpValueState, VmView};
use crate::meta::{field_metas, meta_depth, zero, zero_rest, zero_value};
use crate::run::step;
use crate::value::{IntKind, Meta, PointerObj, Region, Value, ValueType};

verus! {

/// The zero value of a type that is made of no other: zero, false, the empty string or
/// nil.
pub open spec fn is_plain_zero(t: ValueType, v: Value) -> bool {
    match t {
        ValueType::Bool => v == Value::Bool(false),
        ValueType::Int => v == Value::Int(IntKind::Int, 0),
        ValueType::Int8 => v == Value::Int(IntKind::Int8, 0),
        ValueType::Int16 => v == Value::Int(IntKind::Int16, 0),
        ValueType::Int32 => v == Value::Int(IntKind::Int32, 0),
        ValueType::Int64 => v == Value::Int(IntKind::Int64, 0),
        ValueType::Uint => v == Value::Int(IntKind::Uint, 0),
        ValueType::UintPtr => v == Value::Int(IntKind::UintPtr, 0),
        ValueType::Uint8 => v == Value::Int(IntKind::Uint8, 0),
        ValueType::Uint16 => v == Value::Int(IntKind::Uint16, 0),
        ValueType::Uint32 => v == Value::Int(IntKind::Uint32, 0),
        ValueType::Uint64 => v == Value::Int(IntKind::Uint64, 0),
        ValueType::Float32 => v == Value::Float32(0),
        ValueType::Float64 => v == Value::Float64(0),
        ValueType::Complex64 => v == Value::Complex64(0, 0),
        ValueType::Complex128 => v == Value::Complex128(0, 0),
        ValueType::String => v matches Value::Str(s) && s.begin == s.end,
        _ => v == Value::Nil(t),
    }
}

/// Where the cells of an array or a struct end.
pub open spec fn end_of(v: Value) -> int {
    match v {
        Value::Array(r) => r.base + r.len,
        Value::Struct(r) => r.base + r.len,
        _ => 0,
    }
}

/// Whether a value is the zero value of a type. Arrays and structs have zero values in
/// all their parts; they and their parts are made of cells behind `from`, and no two
/// of them share any.
pub open spec fn is_zero(
    p: &Bytecode,
    cells: Seq<Value>,
    m: Meta,
    v: Value,
    from: int,
    fuel: nat,
) -> bool
    decreases fuel, 1nat,
{
    if m.ptr_depth > 0 {
        v == Value::Nil(ValueType::Pointer)
    } else if fuel == 0 || m.key >= p.metas@.len() {
        false
    } else {
        match p.metas@[m.key as int] {
            MetadataType::Basic(t) => is_plain_zero(t, v),
            MetadataType::Array(e, n) => v matches Value::Array(r) && parts_are_zero(
                p,
                cells,
                Seq::new(n as nat, |i: int| e),
                r,
                from,
                fuel,
            ),
            MetadataType::Struct(f) => v matches Value::Struct(r) && parts_are_zero(
                p,
                cells,
                Seq::new(f@.len(), |i: int| f@[i].meta),
                r,
                from,
                fuel,
            ),
            MetadataType::Slice(_) => v == Value::Nil(ValueType::Slice),
            MetadataType::GoMap(_, _) => v == Value::Nil(ValueType::GoMap),
            MetadataType::Channel(_, _) => v == Value::Nil(ValueType::Channel),
            MetadataType::Interface(_) => v == Value::Nil(ValueType::Interface),
            MetadataType::Signature { .. } => v == Value::Nil(ValueType::Closure),
            MetadataType::Named(u) => is_zero(p, cells, u, v, from, (fuel - 1) as nat),
        }
    }
}

/// Whether the parts of an array or a struct are zero values of their types.
pub open spec fn parts_are_zero(
    p: &Bytecode,
    cells: Seq<Value>,
    types: Seq<Meta>,
    r: Region,
    from: int,
    fuel: nat,
) -> bool
    decreases fuel, 0nat,
{
    &&& fuel > 0
    &&& r.len == types.len()
    &&& from <= r.base
    &&& r.base + r.len <= cells.len()
    &&& forall|i: int|
        0 <= i < r.len ==> is_zero(
            p,
            cells,
            types[i],
            #[trigger] element(cells, r, i),
            from,
            (fuel - 1) as nat,
        ) && end_of(element(cells, r, i)) <= r.base
    &&& forall|i: int, j: int|
        0 <= i < j < r.len ==> is_zero(
            p,
            cells,
            types[j],
            #[trigger] element(cells, r, j),
            end_of(#[trigger] element(cells, r, i)),
            (fuel - 1) as nat,
        )
}

/// Whether a type is one of which there is a zero value: its description is there, and
/// those of what it is made of.
pub open spec fn is_type(p: &Bytecode, m: Meta, fuel: nat) -> bool
    decreases fuel,
{
    m.ptr_depth > 0 || {
        &&& fuel > 0 && m.key < p.metas@.len()
        &&& match p.metas@[m.key as int] {
            MetadataType::Array(e, n) => n > 0 ==> is_type(p, e, (fuel - 1) as nat),
            MetadataType::Struct(f) => forall|i: int|
                0 <= i < f@.len() ==> is_type(p, (#[trigger] f@[i]).meta, (fuel - 1) as nat),
            MetadataType::Named(u) => is_type(p, u, (fuel - 1) as nat),
            _ => true,
        }
    }
}

/// A zero value stays one when cells are added.
pub proof fn lemma_zero_grows(
    p: &Bytecode,
    cells: Seq<Value>,
    more: Seq<Value>,
    m: Meta,
    v: Value,
    from: int,
    low: int,
    fuel: nat,
)
    requires
        is_zero(p, cells, m, v, from, fuel),
        low <= from,
        cells.len() <= more.len(),
        more.subrange(0, cells.len() as int) == cells,
    ensures
        is_zero(p, more, m, v, low, fuel),
        end_of(v) <= cells.len(),
    decreases fuel, 1nat,
{
    if m.ptr_depth == 0 {
        match p.metas@[m.key as int] {
            MetadataType::Array(e, n) => {
                let types = Seq::new(n as nat, |i: int| e);
                lemma_parts_grow(p, cells, more, types, v->Array_0, from, low, fuel);
            },
            MetadataType::Struct(f) => {
                let types = Seq::new(f@.len(), |i: int| f@[i].meta);
                lemma_parts_grow(p, cells, more, types, v->Struct_0, from, low, fuel);
            },
            MetadataType::Named(u) => {
                lemma_zero_grows(p, cells, more, u, v, from, low, (fuel - 1) as nat);
            },
            _ => {},
        }
    }
}

proof fn lemma_parts_grow(
    p: &Bytecode,
    cells: Seq<Value>,
    more: Seq<Value>,
    types: Seq<Meta>,
    r: Region,
    from: int,
    low: int,
    fuel: nat,
)
    requires
        parts_are_zero(p, cells, types, r, from, fuel),
        low <= from,
        cells.len() <= more.len(),
        more.subrange(0, cells.len() as int) == cells,
    ensures
        parts_are_zero(p, more, types, r, low, fuel),
        r.base + r.len <= cells.len(),
    decreases fuel, 0nat,
{
    let n = (fuel - 1) as nat;
    assert forall|i: int| 0 <= i < r.len implies #[trigger] element(more, r, i) == element(
        cells,
        r,
        i,
    ) by {
        assert(more.subrange(0, cells.len() as int)[r.base + i] == more[r.base + i]);
    }
    assert forall|i: int| 0 <= i < r.len implies is_zero(
        p,
        more,
        types[i],
        #[trigger] element(more, r, i),
        low,
        n,
    ) && end_of(element(more, r, i)) <= r.base by {
        let x = element(cells, r, i);
        lemma_zero_grows(p, cells, more, types[i], x, from, low, n);
    }
    assert forall|i: int, j: int| 0 <= i < j < r.len implies is_zero(
        p,
        more,
        types[j],
        #[trigger] element(more, r, j),
        end_of(#[trigger] element(more, r, i)),
        n,
    ) by {
        let e = end_of(element(cells, r, i));
        lemma_zero_grows(p, cells, more, types[j], element(cells, r, j), e, e, n);
    }
}

proof fn lemma_zero(p: &Bytecode, cells: Seq<Value>, m: Meta, fuel: nat)
    ensures
        is_type(p, m, fuel) ==> zero(p, cells, m, fuel) is Ok,
        zero(p, cells, m, fuel) matches Ok((cs, v)) ==> {
            &&& cells.len() <= cs.len()
            &&& cs.subrange(0, cells.len() as int) == cells
            &&& cs.len() <= usize::MAX ==> is_zero(p, cs, m, v, cells.len() as int, fuel)
        },
    decreases fuel, 1nat, 0nat,
{
    assert(cells.subrange(0, cells.len() as int) =~= cells);
    if m.ptr_depth == 0 && fuel > 0 && m.key < p.metas@.len() {
        let n = (fuel - 1) as nat;
        match p.metas@[m.key as int] {
            MetadataType::Array(e, k) => {
                lemma_parts(p, cells, Seq::new(k as nat, |i: int| e), fuel);
            },
            MetadataType::Struct(f) => {
                assert(field_metas(f@) =~= Seq::new(f@.len(), |i: int| f@[i].meta));
                lemma_parts(p, cells, field_metas(f@), fuel);
            },
            MetadataType::Named(u) => {
                lemma_zero(p, cells, u, n);
            },
            _ => {},
        }
    }
}

proof fn lemma_parts(p: &Bytecode, cells: Seq<Value>, types: Seq<Meta>, fuel: nat)
    requires
        fuel > 0,
    ensures
        (forall|i: int|
            0 <= i < types.len() ==> is_type(p, #[trigger] types[i], (fuel - 1) as nat))
            ==> zero_rest(p, cells, types, 0, seq![], (fuel - 1) as nat) is Ok,
        zero_rest(p, cells, types, 0, seq![], (fuel - 1) as nat) matches Ok((cs, vals)) ==> {
            &&& cells.len() <= (cs + vals).len()
            &&& (cs + vals).subrange(0, cells.len() as int) == cells
            &&& (cs + vals).len() <= usize::MAX ==> parts_are_zero(
                p,
                cs + vals,
                types,
                next_region(cs, vals.len()),
                cells.len() as int,
                fuel,
            )
        },
    decreases fuel, 0nat, 0nat,
{
    let n = (fuel - 1) as nat;
    assert(cells.subrange(0, cells.len() as int) =~= cells);
    lemma_zeros(p, cells, cells, types, 0, seq![], n);
    match zero_rest(p, cells, types, 0, seq![], n) {
        Ok((cs, vals)) => {
            let all = cs + vals;
            let r = next_region(cs, vals.len());
            assert(all.subrange(0, cs.len() as int) =~= cs);
            assert(all.subrange(0, cells.len() as int) =~= cs.subrange(0, cells.len() as int));
            if all.len() <= usize::MAX {
                assert forall|i: int| 0 <= i < r.len implies #[trigger] element(all, r, i)
                    == vals[i] by {}
                assert forall|i: int| 0 <= i < r.len implies is_zero(
                    p,
                    all,
                    types[i],
                    #[trigger] element(all, r, i),
                    cells.len() as int,
                    n,
                ) && end_of(element(all, r, i)) <= r.base by {
                    let from = cells.len() as int;
                    assert(is_zero(p, cs, types[i], vals[i], from, n));
                    lemma_zero_grows(p, cs, all, types[i], vals[i], from, from, n);
                }
                assert forall|i: int, j: int| 0 <= i < j < r.len implies is_zero(
                    p,
                    all,
                    types[j],
                    #[trigger] element(all, r, j),
                    end_of(#[trigger] element(all, r, i)),
                    n,
                ) by {
                    let e = end_of(vals[i]);
                    assert(is_zero(p, cs, types[j], vals[j], e, n));
                    lemma_zero_grows(p, cs, all, types[j], vals[j], e, e, n);
                }
            }
        },
        Err(_) => {},
    }
}

proof fn lemma_zeros(
    p: &Bytecode,
    start: Seq<Value>,
    cells: Seq<Value>,
    types: Seq<Meta>,
    k: nat,
    out: Seq<Value>,
    fuel: nat,
)
    requires
        k <= types.len(),
        out.len() == k,
        start.len() <= cells.len(),
        cells.subrange(0, start.len() as int) == start,
        cells.len() <= usize::MAX ==> forall|i: int|
            0 <= i < k ==> is_zero(
                p,
                cells,
                types[i],
                #[trigger] out[i],
                start.len() as int,
                fuel,
            ),
        cells.len() <= usize::MAX ==> forall|i: int, j: int|
            0 <= i < j < k ==> is_zero(
                p,
                cells,
                types[j],
                #[trigger] out[j],
                end_of(#[trigger] out[i]),
                fuel,
            ),
    ensures
        (forall|i: int| k <= i < types.len() ==> is_type(p, #[trigger] types[i], fuel))
            ==> zero_rest(p, cells, types, k, out, fuel) is Ok,
        zero_rest(p, cells, types, k, out, fuel) matches Ok((cs, vals)) ==> {
            &&& vals.len() == types.len()
            &&& start.len() <= cs.len()
            &&& cs.subrange(0, start.len() as int) == start
            &&& cs.len() <= usize::MAX ==> forall|i: int|
                0 <= i < types.len() ==> is_zero(
                    p,
                    cs,
                    types[i],
                    #[trigger] vals[i],
                    start.len() as int,
                    fuel,
                )
            &&& cs.len() <= usize::MAX ==> forall|i: int, j: int|
                0 <= i < j < types.len() ==> is_zero(
                    p,
                    cs,
                    types[j],
                    #[trigger] vals[j],
                    end_of(#[trigger] vals[i]),
                    fuel,
                )
        },
    decreases fuel, 2nat, types.len() - k,
{
    if k < types.len() {
        let m = types[k as int];
        lemma_zero(p, cells, m, fuel);
        match zero(p, cells, m, fuel) {
            Ok((cs, v)) => {
                let next = out.push(v);
                let from = start.len() as int;
                assert(cs.subrange(0, from) =~= cs.subrange(0, cells.len() as int).subrange(
                    0,
                    from,
                ));
                assert(cs.subrange(0, cs.len() as int) =~= cs);
                if cs.len() <= usize::MAX {
                    assert forall|i: int| 0 <= i < k + 1 implies is_zero(
                        p,
                        cs,
                        types[i],
                        #[trigger] next[i],
                        from,
                        fuel,
                    ) by {
                        if i < k {
                            assert(next[i] == out[i]);
                            lemma_zero_grows(p, cells, cs, types[i], out[i], from, from, fuel);
                        } else {
                            let low = cells.len() as int;
                            lemma_zero_grows(p, cs, cs, m, v, low, from, fuel);
                        }
                    }
                    assert forall|i: int, j: int| 0 <= i < j < k + 1 implies is_zero(
                        p,
                        cs,
                        types[j],
                        #[trigger] next[j],
                        end_of(#[trigger] next[i]),
                        fuel,
                    ) by {
                        assert(next[i] == out[i]);
                        let e = end_of(out[i]);
                        lemma_zero_grows(p, cells, cs, types[i], out[i], from, from, fuel);
                        if j < k {
                            assert(next[j] == out[j]);
                            lemma_zero_grows(p, cells, cs, types[j], out[j], e, e, fuel);
                        } else {
                            let low = cells.len() as int;
                            lemma_zero_grows(p, cs, cs, m, v, low, e, fuel);
                        }
                    }
                }
                lemma_zeros(p, start, cs, types, k + 1, next, fuel);
            },
            Err(_) => {
                assert(!is_type(p, types[k as int], fuel));
            },
        }
    }
}

/// Whether a zero value of a type was made beside what there was.
#[verifier::opaque]
pub open spec fn made_zero(p: &Bytecode, w: VmView, y: VmView, m: Meta, v: Value) -> bool {
    &&& w.cells.len() <= y.cells.len()
    &&& y == (VmView { cells: y.cells, ..w })
    &&& forall|i: int| 0 <= i < w.cells.len() ==> #[trigger] y.cells[i] == w.cells[i]
    &&& y.cells.len() <= usize::MAX ==> is_zero(
        p,
        y.cells,
        m,
        v,
        w.cells.len() as int,
        p.metas@.len() + 1,
    )
}

/// Every type has a zero value.
pub proof fn law_zero_values(p: &Bytecode, w: VmView, m: Meta)
    ensures
        is_type(p, m, p.metas@.len() + 1) ==> zero_value(p, w, m) is Ok,
        zero_value(p, w, m) matches Ok((y, v)) ==> made_zero(p, w, y, m, v) && y == (VmView {
            cells: y.cells,
            ..w
        }) && w.cells.len() <= y.cells.len(),
{
    reveal(made_zero);
    lemma_zero(p, w.cells, m, meta_depth(p));
    match zero_value(p, w, m) {
        Ok((y, _)) => {
            assert forall|i: int| 0 <= i < w.cells.len() implies #[trigger] y.cells[i]
                == w.cells[i] by {
                assert(y.cells.subrange(0, w.cells.len() as int)[i] == w.cells[i]);
            }
        },
        Err(_) => {},
    }
}

/// A new variable starts with the zero value of its type, and the result is a pointer
/// to it.
pub proof fn law_new_variable(p: &Bytecode, w: VmView, f: FiberView, m: Meta)
    requires
        comes_to(p, f, Opcode::NEW, 0),
        holds(p, w, f, inst_at(p, f).s0, Value::Metadata(m)),
        has_slot(w, f, inst_at(p, f).d as int),
        is_type(p, m, p.metas@.len() + 1),
    ensures
        step(p, w, f) matches Some((w1, f1, n)) && n == StepView::Next && goes_on(f, f1, 1)
            && exists|y: VmView, v: Value| #[trigger]
            made_zero(p, w, y, m, v) && w1 == with_result(
                VmView { upvals: w.upvals.push(UpValueState::Closed(v)), ..y },
                f,
                inst_at(p, f).d as int,
                Value::Pointer(PointerObj::UpVal(w.upvals.len() as usize)),
            ),
{
    let inst = inst_at(p, f);
    lemma_operand(p, w, f, inst.s0);
    law_zero_values(p, w, m);
    lemma_category(p, w, m);
    let (y, v) = zero_value(p, w, m)->Ok_0;
    let x = VmView { upvals: w.upvals.push(UpValueState::Closed(v)), ..y };
    let ptr = Value::Pointer(PointerObj::UpVal(w.upvals.len() as usize));
    lemma_result(x, f, inst.d, ptr);
    lemma_goes_on(p, w, f, with_result(x, f, inst.d as int, ptr));
    assert(made_zero(p, w, y, m, v));
}

/// How a type is taken does not matter to its zero value.
proof fn lemma_category(p: &Bytecode, w: VmView, m: Meta)
    ensures
        zero_value(p, w, m.spec_into_value_category()) == zero_value(p, w, m),
{
}

} // verus!

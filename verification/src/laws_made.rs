//! What the instructions make: slices, maps, channels, literals and closures.
use vstd::prelude::*;
use crate::bytecode::{Bytecode, Instruction, MetadataType, Opcode};
use crate::content::{
    copy_all, copy_region, copy_rest, copy_value, depth, lemma_copy_rest_shape, lemma_copy_shape,
};
use crate::effect::Effect;
use crate::fiber::{FiberView, StepView};
use crate::laws_basis::{
    code_of, comes_to, goes_on, has_slot, holds, inst_at, lemma_goes_on, lemma_operand,
    lemma_raises, lemma_result, lemma_step, moved, says, with_result, word_after,
};
use crate::laws_lists::{are_copies, lemma_copy_all, number};
use crate::laws_memory::element;
use crate::laws_zero::{end_of, is_type, is_zero, law_zero_values, made_zero};
use crate::machine::{ChannelObj, Ctx, VmView};
use crate::meta::{meta_depth, unwrap_named, zero_value};
use crate::ops_make::op_make;
use crate::run::{context_of, step};
use crate::slices::{repeated, slice_with_size};
use crate::trap::Trap;
use crate::value::{void, Meta, MetadataKey, Region, SliceRef, Value, ValueType};

verus! {

/// Whether a type is described by description `k`, through `n` names at most.
pub open spec fn described(p: &Bytecode, key: MetadataKey, k: MetadataKey, n: nat) -> bool
    decreases n,
{
    key < p.metas@.len() && match p.metas@[key as int] {
        MetadataType::Named(u) => n > 0 && described(p, u.key, k, (n - 1) as nat),
        _ => key == k,
    }
}

proof fn lemma_described(p: &Bytecode, key: MetadataKey, k: MetadataKey, n: nat)
    requires
        described(p, key, k, n),
    ensures
        unwrap_named(p, key, n + 1) == Ok::<MetadataKey, Trap>(k),
        k < p.metas@.len(),
    decreases n,
{
    match p.metas@[key as int] {
        MetadataType::Named(u) => {
            lemma_described(p, u.key, k, (n - 1) as nat);
        },
        _ => {},
    }
}

/// The word behind an instruction, if there is one.
spec fn next_word(p: &Bytecode, f: FiberView) -> Option<Instruction> {
    if f.frames.last().pc + 1 < code_of(p, f).len() {
        Some(word_after(p, f))
    } else {
        None
    }
}

/// A map that is made is new and has no entries.
pub proof fn law_make_map(
    p: &Bytecode,
    w: VmView,
    f: FiberView,
    m: Meta,
    k: MetadataKey,
    key: Meta,
    e: Meta,
)
    requires
        comes_to(p, f, Opcode::MAKE, 0),
        holds(p, w, f, inst_at(p, f).s0, Value::Metadata(m)),
        described(p, m.key, k, p.metas@.len()),
        p.metas@[k as int] == MetadataType::GoMap(key, e),
        has_slot(w, f, inst_at(p, f).d as int),
    ensures
        step(p, w, f) matches Some((w1, f1, n)) && n == StepView::Next && goes_on(f, f1, 1) && w1
            == with_result(
            VmView { maps: w.maps.push(seq![]), ..w },
            f,
            inst_at(p, f).d as int,
            Value::GoMap(w.maps.len() as usize),
        ),
{
    let inst = inst_at(p, f);
    lemma_operand(p, w, f, inst.s0);
    lemma_described(p, m.key, k, p.metas@.len());
    let x = VmView { maps: w.maps.push(seq![]), ..w };
    let v = Value::GoMap(w.maps.len() as usize);
    lemma_result(x, f, inst.d, v);
    lemma_goes_on(p, w, f, with_result(x, f, inst.d as int, v));
}

proof fn lemma_make_channel(
    p: &Bytecode,
    w: VmView,
    c: Ctx,
    inst: Instruction,
    next: Option<Instruction>,
    m: Meta,
    k: MetadataKey,
    way: u8,
    e: Meta,
    cap: usize,
    w1: VmView,
)
    requires
        w.read(c, p.consts@, inst.s0) == Ok::<Value, Trap>(Value::Metadata(m)),
        unwrap_named(p, m.key, meta_depth(p)) == Ok::<MetadataKey, Trap>(k),
        p.metas@[k as int] == MetadataType::Channel(way, e),
        cap <= i64::MAX,
        inst.t0 == ValueType::FlagB && w.read(c, p.consts@, inst.s1) == Ok::<Value, Trap>(
            number(cap as int),
        ) || inst.t0 == ValueType::FlagA && cap == 0,
        ({
            &&& zero_value(p, w, e) matches Ok((y, z))
            &&& VmView { chans: y.chans.push(ChannelObj { cap, recv_zero: z }), ..y }.write(
                c,
                inst.d,
                Value::Channel(y.chans.len() as usize),
            ) == Ok::<VmView, Trap>(w1)
        }),
    ensures
        op_make(p, w, c, inst, next, true) == Ok::<(VmView, Effect), Trap>((w1, Effect::Next(0))),
{
}

proof fn lemma_make_slice(
    p: &Bytecode,
    w: VmView,
    c: Ctx,
    inst: Instruction,
    next: Option<Instruction>,
    m: Meta,
    k: MetadataKey,
    e: Meta,
    len: usize,
    cap: usize,
    on: bool,
    w1: VmView,
)
    requires
        w.read(c, p.consts@, inst.s0) == Ok::<Value, Trap>(Value::Metadata(m)),
        unwrap_named(p, m.key, meta_depth(p)) == Ok::<MetadataKey, Trap>(k),
        p.metas@[k as int] == MetadataType::Slice(e),
        len <= cap <= i64::MAX,
        inst.t0 == ValueType::FlagB && len == cap && w.read(c, p.consts@, inst.s1) == Ok::<
            Value,
            Trap,
        >(number(len as int)) || inst.t0 == ValueType::FlagC && w.read(c, p.consts@, inst.s1)
            == Ok::<Value, Trap>(number(cap as int)) && next is Some && w.read(
            c,
            p.consts@,
            next->Some_0.s0,
        ) == Ok::<Value, Trap>(number(len as int)),
        ({
            &&& zero_value(p, w, e) matches Ok((a, z))
            &&& slice_with_size(a, len, cap, z) matches Ok((y, v))
            &&& y.write(c, inst.d, v) == Ok::<VmView, Trap>(w1)
        }),
    ensures
        op_make(p, w, c, inst, next, on) == Ok::<(VmView, Effect), Trap>(
            (
                w1,
                Effect::Next(
                    if inst.t0 == ValueType::FlagC {
                        1
                    } else {
                        0
                    },
                ),
            ),
        ),
{
}

/// A channel that is made is new, holds as many values as asked for, and gives the zero
/// value of its elements once it is closed.
pub proof fn law_make_channel(
    p: &Bytecode,
    w: VmView,
    f: FiberView,
    m: Meta,
    k: MetadataKey,
    way: u8,
    e: Meta,
    cap: usize,
)
    requires
        comes_to(p, f, Opcode::MAKE, 0),
        holds(p, w, f, inst_at(p, f).s0, Value::Metadata(m)),
        described(p, m.key, k, p.metas@.len()),
        p.metas@[k as int] == MetadataType::Channel(way, e),
        f.context.async_enabled,
        cap <= i64::MAX,
        inst_at(p, f).t0 == ValueType::FlagB && holds(
            p,
            w,
            f,
            inst_at(p, f).s1,
            number(cap as int),
        ) || inst_at(p, f).t0 == ValueType::FlagA && cap == 0,
        is_type(p, e, p.metas@.len() + 1),
        has_slot(w, f, inst_at(p, f).d as int),
    ensures
        step(p, w, f) matches Some((w1, f1, n)) && n == StepView::Next && goes_on(f, f1, 1)
            && exists|y: VmView, z: Value| #[trigger]
            made_zero(p, w, y, e, z) && w1 == with_result(
                VmView { chans: w.chans.push(ChannelObj { cap, recv_zero: z }), ..y },
                f,
                inst_at(p, f).d as int,
                Value::Channel(w.chans.len() as usize),
            ),
{
    let inst = inst_at(p, f);
    lemma_operand(p, w, f, inst.s0);
    if inst.t0 == ValueType::FlagB {
        lemma_operand(p, w, f, inst.s1);
    }
    lemma_described(p, m.key, k, p.metas@.len());
    law_zero_values(p, w, e);
    let (y, z) = zero_value(p, w, e)->Ok_0;
    let x = VmView { chans: w.chans.push(ChannelObj { cap, recv_zero: z }), ..y };
    let v = Value::Channel(w.chans.len() as usize);
    lemma_result(x, f, inst.d, v);
    let w1 = with_result(x, f, inst.d as int, v);
    lemma_make_channel(p, w, context_of(f), inst, next_word(p, f), m, k, way, e, cap, w1);
    lemma_goes_on(p, w, f, w1);
    assert(made_zero(p, w, y, e, z));
}

/// Without a scheduler no channel is made: the program panics.
pub proof fn law_channel_needs_scheduler(
    p: &Bytecode,
    w: VmView,
    f: FiberView,
    m: Meta,
    k: MetadataKey,
    way: u8,
    e: Meta,
)
    requires
        comes_to(p, f, Opcode::MAKE, 0),
        holds(p, w, f, inst_at(p, f).s0, Value::Metadata(m)),
        described(p, m.key, k, p.metas@.len()),
        p.metas@[k as int] == MetadataType::Channel(way, e),
        !f.context.async_enabled,
        has_slot(w, f, inst_at(p, f).d as int),
    ensures
        step(p, w, f) matches Some((w1, f1, s)) && s == StepView::Next && says(
            p,
            with_result(w, f, inst_at(p, f).d as int, void()),
            f,
            1,
            "Async features disabled"@,
            w1,
            f1,
        ),
{
    let inst = inst_at(p, f);
    lemma_operand(p, w, f, inst.s0);
    lemma_described(p, m.key, k, p.metas@.len());
    lemma_result(w, f, inst.d, void());
    lemma_step(p, w, f);
    lemma_raises(
        p,
        with_result(w, f, inst.d as int, void()),
        f,
        1,
        "Async features disabled"@,
    );
}

/// A zero value can be copied.
proof fn lemma_zero_copies(
    p: &Bytecode,
    cells: Seq<Value>,
    more: Seq<Value>,
    m: Meta,
    v: Value,
    from: int,
    n: nat,
    fuel: nat,
)
    requires
        is_zero(p, cells, m, v, from, n),
        cells.len() <= more.len(),
        more.subrange(0, cells.len() as int) == cells,
        fuel > end_of(v),
    ensures
        copy_value(more, v, fuel) is Ok,
    decreases fuel, 1nat, n,
{
    reveal_with_fuel(is_zero, 2);
    reveal_with_fuel(crate::laws_zero::parts_are_zero, 2);
    if m.ptr_depth == 0 {
        match p.metas@[m.key as int] {
            MetadataType::Array(e, k) => {
                let types = Seq::new(k as nat, |i: int| e);
                lemma_parts_copy(p, cells, more, types, v->Array_0, from, n, fuel);
            },
            MetadataType::Struct(f) => {
                let types = Seq::new(f@.len(), |i: int| f@[i].meta);
                lemma_parts_copy(p, cells, more, types, v->Struct_0, from, n, fuel);
            },
            MetadataType::Named(u) => {
                lemma_zero_copies(p, cells, more, u, v, from, (n - 1) as nat, fuel);
            },
            _ => {},
        }
    }
}

proof fn lemma_parts_copy(
    p: &Bytecode,
    cells: Seq<Value>,
    more: Seq<Value>,
    types: Seq<Meta>,
    r: Region,
    from: int,
    n: nat,
    fuel: nat,
)
    requires
        crate::laws_zero::parts_are_zero(p, cells, types, r, from, n),
        cells.len() <= more.len(),
        more.subrange(0, cells.len() as int) == cells,
        fuel > r.base + r.len,
    ensures
        copy_region(more, r, fuel) is Ok,
    decreases fuel, 0nat, n,
{
    let src = more.subrange(r.base as int, r.base + r.len);
    assert forall|i: int| 0 <= i < src.len() implies #[trigger] src[i] == element(cells, r, i) by {
        assert(more.subrange(0, cells.len() as int)[r.base + i] == more[r.base + i]);
    }
    lemma_rest_copies(p, cells, more, types, src, r, 0, seq![], from, n, (fuel - 1) as nat);
}

proof fn lemma_rest_copies(
    p: &Bytecode,
    cells: Seq<Value>,
    more: Seq<Value>,
    types: Seq<Meta>,
    src: Seq<Value>,
    r: Region,
    i: nat,
    out: Seq<Value>,
    from: int,
    n: nat,
    fuel: nat,
)
    requires
        crate::laws_zero::parts_are_zero(p, cells, types, r, from, n),
        cells.len() <= more.len(),
        more.subrange(0, cells.len() as int) == cells,
        fuel >= r.base + r.len,
        src.len() == r.len,
        forall|i: int| 0 <= i < src.len() ==> #[trigger] src[i] == element(cells, r, i),
    ensures
        copy_rest(more, src, i, out, fuel) is Ok,
    decreases fuel, 2nat, src.len() - i,
{
    if i < src.len() {
        let x = src[i as int];
        assert(x == element(cells, r, i as int));
        lemma_zero_copies(p, cells, more, types[i as int], x, from, (n - 1) as nat, fuel);
        lemma_copy_shape(more, x, fuel);
        let (cs, v) = copy_value(more, x, fuel)->Ok_0;
        assert(cs.subrange(0, cells.len() as int) =~= cs.subrange(
            0,
            more.len() as int,
        ).subrange(0, cells.len() as int));
        lemma_rest_copies(p, cells, cs, types, src, r, i + 1, out.push(v), from, n, fuel);
    }
}

proof fn lemma_repeated_copies(
    p: &Bytecode,
    cells: Seq<Value>,
    more: Seq<Value>,
    m: Meta,
    v: Value,
    n: nat,
    count: nat,
    i: nat,
    out: Seq<Value>,
    fuel: nat,
    low: int,
)
    requires
        is_zero(p, cells, m, v, low, n),
        cells.len() <= more.len(),
        more.subrange(0, cells.len() as int) == cells,
        fuel > end_of(v),
    ensures
        copy_rest(more, repeated(v, count), i, out, fuel) is Ok,
    decreases count - i,
{
    if i < count {
        lemma_zero_copies(p, cells, more, m, v, low, n, fuel);
        lemma_copy_shape(more, v, fuel);
        let (cs, x) = copy_value(more, v, fuel)->Ok_0;
        assert(cs.subrange(0, cells.len() as int) =~= cs.subrange(
            0,
            more.len() as int,
        ).subrange(0, cells.len() as int));
        lemma_repeated_copies(
            p,
            cells,
            cs,
            m,
            v,
            n,
            count,
            i + 1,
            out.push(x),
            fuel,
            low,
        );
    }
}

/// Whether a new slice was made: its elements, and those that it has room for, are
/// copies of a zero value in new cells.
pub open spec fn made_slice(
    p: &Bytecode,
    w: VmView,
    y: VmView,
    e: Meta,
    len: usize,
    cap: usize,
    s: SliceRef,
) -> bool {
    &&& s.begin == 0 && s.end == len && s.cap_end == cap && s.array.len == cap
    &&& exists|a: VmView, z: Value, b: VmView, vals: Seq<Value>|
        #![trigger made_zero(p, w, a, e, z), are_copies(a, b, repeated(z, cap as nat), vals)]
        {
            &&& made_zero(p, w, a, e, z)
            &&& are_copies(a, b, repeated(z, cap as nat), vals)
            &&& y == (VmView { cells: b.cells + vals, ..w })
            &&& s.array.base == b.cells.len() as usize
        }
}

proof fn lemma_made_slice(p: &Bytecode, w: VmView, e: Meta, len: usize, cap: usize)
    requires
        is_type(p, e, p.metas@.len() + 1),
        len <= cap,
    ensures
        zero_value(p, w, e) matches Ok((a, z)) ==> a.cells.len() <= usize::MAX ==> (
        slice_with_size(a, len, cap, z) matches Ok((y, Value::Slice(s))) && made_slice(
            p,
            w,
            y,
            e,
            len,
            cap,
            s,
        )),
        zero_value(p, w, e) is Ok,
{
    law_zero_values(p, w, e);
    let (a, z) = zero_value(p, w, e)->Ok_0;
    if a.cells.len() <= usize::MAX {
        let n = p.metas@.len() + 1;
        let low = w.cells.len() as int;
        assert(is_zero(p, a.cells, e, z, low, n)) by {
            reveal(made_zero);
        }
        assert(a.cells.subrange(0, a.cells.len() as int) =~= a.cells);
        crate::laws_zero::lemma_zero_grows(p, a.cells, a.cells, e, z, low, low, n);
        lemma_repeated_copies(
            p,
            a.cells,
            a.cells,
            e,
            z,
            n,
            cap as nat,
            0,
            seq![],
            depth(a.cells),
            low,
        );
        lemma_copy_all(a, repeated(z, cap as nat));
        lemma_copy_rest_shape(a.cells, repeated(z, cap as nat), 0, seq![], depth(a.cells));
        let (b, vals) = copy_all(a, repeated(z, cap as nat))->Ok_0;
        assert(made_zero(p, w, a, e, z) && are_copies(a, b, repeated(z, cap as nat), vals));
    }
}

/// A slice that is made has as many elements as asked for, and room for as many more;
/// all of them are zero values of the element type.
pub proof fn law_make_slice(
    p: &Bytecode,
    w: VmView,
    f: FiberView,
    m: Meta,
    k: MetadataKey,
    e: Meta,
    len: usize,
    cap: usize,
)
    requires
        comes_to(
            p,
            f,
            Opcode::MAKE,
            if inst_at(p, f).t0 == ValueType::FlagC {
                1
            } else {
                0
            },
        ),
        holds(p, w, f, inst_at(p, f).s0, Value::Metadata(m)),
        described(p, m.key, k, p.metas@.len()),
        p.metas@[k as int] == MetadataType::Slice(e),
        inst_at(p, f).t0 == ValueType::FlagB && len == cap && holds(
            p,
            w,
            f,
            inst_at(p, f).s1,
            number(len as int),
        ) || inst_at(p, f).t0 == ValueType::FlagC && holds(
            p,
            w,
            f,
            inst_at(p, f).s1,
            number(cap as int),
        ) && holds(p, w, f, word_after(p, f).s0, number(len as int)),
        len <= cap <= i64::MAX,
        is_type(p, e, p.metas@.len() + 1),
        has_slot(w, f, inst_at(p, f).d as int),
    ensures
        zero_value(p, w, e)->Ok_0.0.cells.len() <= usize::MAX ==> (step(p, w, f) matches Some(
            (w1, f1, n),
        ) && n == StepView::Next && goes_on(
            f,
            f1,
            if inst_at(p, f).t0 == ValueType::FlagC {
                2
            } else {
                1
            },
        ) && exists|y: VmView, s: SliceRef| #[trigger]
            made_slice(p, w, y, e, len, cap, s) && w1 == with_result(
                y,
                f,
                inst_at(p, f).d as int,
                Value::Slice(s),
            )),
{
    let inst = inst_at(p, f);
    lemma_operand(p, w, f, inst.s0);
    lemma_operand(p, w, f, inst.s1);
    if inst.t0 == ValueType::FlagC {
        lemma_operand(p, w, f, word_after(p, f).s0);
    }
    lemma_described(p, m.key, k, p.metas@.len());
    lemma_made_slice(p, w, e, len, cap);
    let (a, z) = zero_value(p, w, e)->Ok_0;
    if a.cells.len() <= usize::MAX {
        law_zero_values(p, w, e);
        let (y, v) = slice_with_size(a, len, cap, z)->Ok_0;
        let s = v->Slice_0;
        assert(made_slice(p, w, y, e, len, cap, s));
        lemma_copy_all(a, repeated(z, cap as nat));
        lemma_result(y, f, inst.d, v);
        let w1 = with_result(y, f, inst.d as int, v);
        let on = f.context.async_enabled;
        lemma_make_slice(
            p,
            w,
            context_of(f),
            inst,
            next_word(p, f),
            m,
            k,
            e,
            len,
            cap,
            on,
            w1,
        );
        if inst.t0 == ValueType::FlagC {
            lemma_step(p, w, f);
            let g = moved(f, 1);
            assert(crate::fiber::index_of(g.top().pc + 1) == Some((f.frames.last().pc + 2) as i32));
            assert(g.with_pc((f.frames.last().pc + 2) as i32).frames =~= moved(f, 2).frames);
        } else {
            lemma_goes_on(p, w, f, w1);
        }
    }
}

} // verus!

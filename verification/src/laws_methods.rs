//! What function values, bound methods and assertions of types are.
use vstd::prelude::*;
use crate::bytecode::{Binding4Runtime, Bytecode, MetadataType, Opcode, ValueDesc};
use crate::closure::{bound_func, new_uvs};
use crate::content::copy_semantic;
use crate::embed::{
    bind_method, inner_method, innermost, lemma_inner_method, spec_bind_iface_method,
    spec_cast_receiver, through,
};
use crate::fiber::{FiberView, StepView};
use crate::laws_basis::{
    comes_to, goes_on, has_slot, holds, inst_at, is_copy, lemma_copies, lemma_goes_on,
    lemma_operand, lemma_raises, lemma_result, lemma_step, lemma_stops, raises, with_result,
};
use crate::laws_places::{content, is_there, lemma_struct_on, lemma_target, struct_on, target_of};
use crate::machine::{ClosureObj, UpValueState, VmView};
use crate::run::step;
use crate::trap::Trap;
use crate::value::{FunctionKey, InterfaceObj, Meta, OpIndex, PointerObj, Value, ValueType};

verus! {

/// Whether a new function value was made of a function and a receiver, beside what
/// there was: it is the last of all function values.
pub open spec fn made(
    p: &Bytecode,
    w: VmView,
    w1: VmView,
    func: FunctionKey,
    recv: Option<Value>,
    v: Value,
) -> bool {
    &&& w1 == (VmView { cells: w1.cells, upvals: w1.upvals, closures: w1.closures, ..w })
    &&& w1.closures.len() == w.closures.len() + 1
    &&& w1.closures.drop_last() == w.closures
    &&& v matches Value::Closure(id) && (w.closures.len() <= usize::MAX ==> id
        == w.closures.len())
    &&& w1.closures.last() matches ClosureObj::Gos { func: g, uvs, recv: r } && g == func && r
        == recv && func < p.functions@.len() && (uvs is None <==> p.functions@[func as int].up_ptrs@.len()
        == 0)
    &&& w.upvals.len() <= w1.upvals.len()
    &&& w1.upvals.subrange(0, w.upvals.len() as int) == w.upvals
    &&& w.cells.len() <= w1.cells.len()
    &&& w1.cells.subrange(0, w.cells.len() as int) == w.cells
}

proof fn lemma_uvs(w: VmView, descs: Seq<ValueDesc>, i: nat, out: Seq<Value>)
    ensures
        ({
            let x = new_uvs(w, descs, i, out).0;
            &&& x == (VmView { upvals: x.upvals, ..w })
            &&& w.upvals.len() <= x.upvals.len()
            &&& x.upvals.subrange(0, w.upvals.len() as int) == w.upvals
        }),
    decreases descs.len() - i,
{
    assert(w.upvals.subrange(0, w.upvals.len() as int) =~= w.upvals);
    if i < descs.len() {
        if descs[i as int].is_local {
            lemma_uvs(w, descs, i + 1, out.push(crate::value::void()));
        } else {
            let x = w.with_new_upval(UpValueState::Open(descs[i as int]));
            let next = out.push(Value::Pointer(PointerObj::UpVal(w.upvals.len() as usize)));
            lemma_uvs(x, descs, i + 1, next);
            let y = new_uvs(x, descs, i + 1, next).0;
            assert(y.upvals.subrange(0, w.upvals.len() as int) =~= w.upvals) by {
                assert forall|j: int| 0 <= j < w.upvals.len() implies y.upvals[j] == w.upvals[j] by {
                    assert(y.upvals.subrange(0, x.upvals.len() as int)[j] == x.upvals[j]);
                }
            }
        }
    }
}

/// A function value is made.
proof fn lemma_made(p: &Bytecode, w: VmView, func: FunctionKey, recv: Option<Value>)
    ensures
        func < p.functions@.len() ==> bound_func(p, w, func, recv) is Ok,
        bound_func(p, w, func, recv) matches Ok((w1, v)) ==> made(p, w, w1, func, recv, v),
{
    if func < p.functions@.len() {
        let descs = p.functions@[func as int].up_ptrs@;
        lemma_uvs(w, descs, 0, seq![]);
        let (w1, v) = bound_func(p, w, func, recv)->Ok_0;
        assert(w1.closures.drop_last() =~= w.closures);
        assert(w1.cells.subrange(0, w.cells.len() as int) =~= w.cells);
        assert(w1.upvals.subrange(0, w.upvals.len() as int) =~= w.upvals);
    }
}

/// A method is bound to a copy of its receiver: the function value in the result slot
/// has the function and the copy.
pub proof fn law_method_is_bound(p: &Bytecode, w: VmView, f: FiberView, v: Value, func: FunctionKey)
    requires
        comes_to(p, f, Opcode::BIND_METHOD, 0),
        holds(p, w, f, inst_at(p, f).s0, v),
        holds(p, w, f, inst_at(p, f).s1, Value::Function(func)),
        func < p.functions@.len(),
        has_slot(w, f, inst_at(p, f).d as int),
    ensures
        copy_semantic(w, v) is Ok ==> step(p, w, f) is Some,
        step(p, w, f) matches Some((w1, f1, s)) ==> s == StepView::Next && goes_on(f, f1, 1)
            && exists|x: VmView, recv: Value, y: VmView, c: Value|
            #![trigger is_copy(w, x, v, recv), made(p, x, y, func, Some(recv), c)]
            is_copy(w, x, v, recv) && made(p, x, y, func, Some(recv), c) && w1 == with_result(
                y,
                f,
                inst_at(p, f).d as int,
                c,
            ),
{
    let inst = inst_at(p, f);
    lemma_operand(p, w, f, inst.s0);
    lemma_operand(p, w, f, inst.s1);
    lemma_copies(w, v);
    match copy_semantic(w, v) {
        Ok((x, recv)) => {
            lemma_made(p, x, func, Some(recv));
            let (y, c) = bound_func(p, x, func, Some(recv))->Ok_0;
            lemma_result(y, f, inst.d, c);
            lemma_goes_on(p, w, f, with_result(y, f, inst.d as int, c));
            assert(is_copy(w, x, v, recv) && made(p, x, y, func, Some(recv), c));
        },
        Err(_) => {
            lemma_stops(p, w, f);
        },
    }
}

/// What an interface over a value has for a method: the value itself, or what its path
/// leads to.
pub open spec fn reached(p: &Bytecode, w: VmView, v: Value, path: Option<Vec<OpIndex>>) -> Option<Value> {
    match path {
        None => Some(v),
        Some(inds) => struct_on(p, w, v, inds@),
    }
}

/// Whether a method gets a receiver of the form that it wants: the copy of a value, a
/// pointer to such a copy, a pointer as it is, or what a pointer points to.
pub open spec fn received_as(
    p: &Bytecode,
    w: VmView,
    x: Value,
    ptr_recv: bool,
    y: VmView,
    recv: Value,
) -> bool {
    match x {
        Value::Pointer(ptr) => if ptr_recv {
            y == w && recv == x
        } else {
            &&& y == w
            &&& target_of(p, w, ptr) matches Some(t) && is_there(w, t) && recv == content(w, t)
        },
        _ => exists|z: VmView, u: Value| #[trigger]
            is_copy(w, z, x, u) && if ptr_recv {
                &&& y == (VmView { upvals: z.upvals.push(UpValueState::Closed(u)), ..z })
                &&& recv matches Value::Pointer(PointerObj::UpVal(id)) && (z.upvals.len()
                    <= usize::MAX ==> id == z.upvals.len())
            } else {
                y == z && recv == u
            },
    }
}

proof fn lemma_innermost(p: &Bytecode, w: VmView, iface: InterfaceObj, index: usize)
    requires
        inner_method(p, w, iface, index) is None,
    ensures
        spec_bind_iface_method(p, w, iface, index) == bind_method(p, w, iface, index),
{
    assert(innermost(p, w, iface, index, 0));
    let n = choose|n: nat| innermost(p, w, iface, index, n);
    assert(innermost(p, w, iface, index, n));
    assert(n == 0);
}

/// Whether an interface value has a method that is one of the value below.
pub open spec fn has_own_method(
    p: &Bytecode,
    w: VmView,
    iface: InterfaceObj,
    index: int,
    func: FunctionKey,
    ptr_recv: bool,
    x: Value,
) -> bool {
    iface matches InterfaceObj::Gos { under, binding: Some(b) } && {
        &&& b < p.ifaces@.len() && 0 <= index < p.ifaces@[b as int].methods@.len()
        &&& under < w.cells.len()
        &&& p.ifaces@[b as int].methods@[index] matches Binding4Runtime::Struct {
            func: g,
            ptr_recv: r,
            indices,
        } && g == func && r == ptr_recv && reached(p, w, w.cells[under as int], indices) == Some(x)
    }
}

proof fn lemma_bind(
    p: &Bytecode,
    w: VmView,
    iface: InterfaceObj,
    index: usize,
    func: FunctionKey,
    ptr_recv: bool,
    x: Value,
)
    requires
        has_own_method(p, w, iface, index as int, func, ptr_recv, x),
        !(x is Nil),
        func < p.functions@.len(),
        x matches Value::Pointer(ptr) ==> !ptr_recv ==> (target_of(p, w, ptr) matches Some(t)
            && is_there(w, t)),
    ensures
        copy_semantic(w, x) is Ok ==> spec_bind_iface_method(p, w, iface, index) is Ok,
        spec_bind_iface_method(p, w, iface, index) matches Err(e) ==> e == Trap::Fault,
        spec_bind_iface_method(p, w, iface, index) matches Ok((w1, v)) ==> exists|
            y: VmView,
            recv: Value,
        |
            #![trigger received_as(p, w, x, ptr_recv, y, recv)]
            received_as(p, w, x, ptr_recv, y, recv) && made(p, y, w1, func, Some(recv), v),
{
    lemma_innermost(p, w, iface, index);
    let under = iface->under;
    let b = iface->binding->Some_0;
    let v = w.cells[under as int];
    match p.ifaces@[b as int].methods@[index as int] {
        Binding4Runtime::Struct { indices, .. } => {
            match indices {
                Some(inds) => {
                    lemma_struct_on(p, w, v, inds@);
                },
                None => {},
            }
            assert(through(p, w, v, indices) == Ok::<Value, Trap>(x));
        },
        _ => {},
    }
    lemma_copies(w, x);
    match copy_semantic(w, x) {
        Ok((z, u)) => {
            match x {
                Value::Pointer(ptr) => {
                    if !ptr_recv {
                        lemma_target(p, w, ptr);
                    }
                },
                _ => {
                    assert(u.spec_typ() != ValueType::Pointer) by {
                        reveal(is_copy);
                        lemma_copy_type(w, x);
                    }
                },
            }
            match spec_cast_receiver(p, z, u, ptr_recv) {
                Ok((y, recv)) => {
                    assert(is_copy(w, z, x, u));
                    assert(received_as(p, w, x, ptr_recv, y, recv));
                    lemma_made(p, y, func, Some(recv));
                },
                Err(_) => {},
            }
        },
        Err(_) => {},
    }
}

proof fn lemma_copy_type(w: VmView, x: Value)
    requires
        !(x is Nil),
        !(x is Pointer),
    ensures
        copy_semantic(w, x) matches Ok((_, u)) ==> u.spec_typ() != ValueType::Pointer,
{
    match x {
        Value::Int(k, _) => {
            match k {
                _ => {},
            }
        },
        _ => {},
    }
}

/// A method of an interface value is bound to the value below, or to the field that its
/// path leads to: the function value in the result slot has the function of the method
/// and that receiver.
pub proof fn law_interface_method_is_bound(
    p: &Bytecode,
    w: VmView,
    f: FiberView,
    iface: InterfaceObj,
    func: FunctionKey,
    ptr_recv: bool,
    x: Value,
)
    requires
        comes_to(p, f, Opcode::BIND_I_METHOD, 0),
        holds(p, w, f, inst_at(p, f).s0, Value::Interface(iface)),
        has_own_method(p, w, iface, inst_at(p, f).s1 as int, func, ptr_recv, x),
        !(x is Nil),
        func < p.functions@.len(),
        x matches Value::Pointer(ptr) ==> !ptr_recv ==> (target_of(p, w, ptr) matches Some(t)
            && is_there(w, t)),
        has_slot(w, f, inst_at(p, f).d as int),
    ensures
        copy_semantic(w, x) is Ok ==> step(p, w, f) is Some,
        step(p, w, f) matches Some((w1, f1, s)) ==> s == StepView::Next && goes_on(f, f1, 1)
            && exists|y: VmView, recv: Value, z: VmView, c: Value|
            #![trigger received_as(p, w, x, ptr_recv, y, recv), made(p, y, z, func, Some(recv), c)]
            received_as(p, w, x, ptr_recv, y, recv) && made(p, y, z, func, Some(recv), c) && w1
                == with_result(z, f, inst_at(p, f).d as int, c),
{
    let inst = inst_at(p, f);
    let index = inst.s1 as usize;
    lemma_operand(p, w, f, inst.s0);
    lemma_bind(p, w, iface, index, func, ptr_recv, x);
    match spec_bind_iface_method(p, w, iface, index) {
        Ok((z, c)) => {
            let (y, recv) = choose|y: VmView, recv: Value|
                #![trigger received_as(p, w, x, ptr_recv, y, recv)]
                received_as(p, w, x, ptr_recv, y, recv) && made(p, y, z, func, Some(recv), c);
            lemma_tables(p, w, x, ptr_recv, y, recv);
            lemma_result(z, f, inst.d, c);
            lemma_goes_on(p, w, f, with_result(z, f, inst.d as int, c));
            assert(received_as(p, w, x, ptr_recv, y, recv) && made(p, y, z, func, Some(recv), c));
        },
        Err(_) => {
            lemma_stops(p, w, f);
        },
    }
}

proof fn lemma_tables(p: &Bytecode, w: VmView, x: Value, ptr_recv: bool, y: VmView, recv: Value)
    requires
        received_as(p, w, x, ptr_recv, y, recv),
    ensures
        y.stacks == w.stacks,
{
    reveal(is_copy);
}

/// A method of an interface that lies in the value below is bound as it is there.
pub proof fn law_inner_interface_binds(
    p: &Bytecode,
    w: VmView,
    under: usize,
    b: usize,
    index: usize,
    inner: InterfaceObj,
    i: usize,
)
    requires
        under < w.cells.len(),
        b < p.ifaces@.len(),
        index < p.ifaces@[b as int].methods@.len(),
        p.ifaces@[b as int].methods@[index as int] matches Binding4Runtime::Iface {
            index: j,
            indices,
        } && j == i && reached(p, w, w.cells[under as int], indices) == Some(
            Value::Interface(inner),
        ),
    ensures
        spec_bind_iface_method(p, w, InterfaceObj::Gos { under, binding: Some(b) }, index)
            == spec_bind_iface_method(p, w, inner, i),
{
    let v = w.cells[under as int];
    match p.ifaces@[b as int].methods@[index as int] {
        Binding4Runtime::Iface { indices, .. } => {
            match indices {
                Some(inds) => {
                    lemma_struct_on(p, w, v, inds@);
                },
                None => {},
            }
        },
        _ => {},
    }
    lemma_inner_method(p, w, InterfaceObj::Gos { under, binding: Some(b) }, index);
}

/// Whether a new function value is a method of an object of the host.
pub open spec fn host_made(
    p: &Bytecode,
    w: VmView,
    w1: VmView,
    ffi: usize,
    meta: Meta,
    i: int,
) -> bool {
    let info = p.metas@[meta.key as int]->Interface_0@[i];
    let name = info.name@;
    &&& w1 == (VmView { closures: w1.closures, ..w })
    &&& w1.closures.len() == w.closures.len() + 1
    &&& w1.closures.drop_last() == w.closures
    &&& w1.closures.last() matches ClosureObj::Ffi { ffi: o, iface, index, meta: m, is_async } && o
        == ffi && iface == meta.key && index == i && m == info.meta && is_async == (name.len() >= 5
        && name[0] == 97 && name[1] == 115 && name[2] == 121 && name[3] == 110 && name[4] == 99)
}

proof fn lemma_host_made(p: &Bytecode, w: VmView, ffi: usize, meta: Meta, i: usize)
    requires
        meta.key < p.metas@.len(),
        p.metas@[meta.key as int] matches MetadataType::Interface(infos) && i < infos@.len(),
    ensures
        spec_bind_iface_method(p, w, InterfaceObj::Ffi { ffi, meta }, i) matches Ok((x, c))
            && host_made(p, w, x, ffi, meta, i as int) && c == Value::Closure(
            w.closures.len() as usize,
        ),
{
    let iface = InterfaceObj::Ffi { ffi, meta };
    lemma_innermost(p, w, iface, i);
    let (x, c) = bind_method(p, w, iface, i)->Ok_0;
    let name = p.metas@[meta.key as int]->Interface_0@[i as int].name@;
    assert(x.closures.drop_last() =~= w.closures);
    if name.len() >= 5 {
        let s = name.subrange(0, 5);
        let t = seq![97u8, 115u8, 121u8, 110u8, 99u8];
        if s[0] == t[0] && s[1] == t[1] && s[2] == t[2] && s[3] == t[3] && s[4] == t[4] {
            assert(s =~= t);
        }
        assert(s[0] == name[0] && s[1] == name[1] && s[2] == name[2] && s[3] == name[3] && s[4]
            == name[4]);
    }
}

/// A method of an object of the host is bound to the object, with the number and the
/// type of the method. It is asynchronous where its name begins so.
pub proof fn law_host_method_is_bound(
    p: &Bytecode,
    w: VmView,
    f: FiberView,
    ffi: usize,
    meta: Meta,
)
    requires
        comes_to(p, f, Opcode::BIND_I_METHOD, 0),
        holds(p, w, f, inst_at(p, f).s0, Value::Interface(InterfaceObj::Ffi { ffi, meta })),
        meta.key < p.metas@.len(),
        p.metas@[meta.key as int] matches MetadataType::Interface(infos) && 0 <= inst_at(p, f).s1
            < infos@.len(),
        has_slot(w, f, inst_at(p, f).d as int),
        w.closures.len() <= usize::MAX,
    ensures
        step(p, w, f) matches Some((w1, f1, s)) && s == StepView::Next && goes_on(f, f1, 1)
            && exists|x: VmView| #[trigger]
            host_made(p, w, x, ffi, meta, inst_at(p, f).s1 as int) && w1 == with_result(
                x,
                f,
                inst_at(p, f).d as int,
                Value::Closure(w.closures.len() as usize),
            ),
{
    let inst = inst_at(p, f);
    let iface = InterfaceObj::Ffi { ffi, meta };
    lemma_operand(p, w, f, inst.s0);
    lemma_host_made(p, w, ffi, meta, inst.s1 as usize);
    let (x, c) = spec_bind_iface_method(p, w, iface, inst.s1 as usize)->Ok_0;
    lemma_result(x, f, inst.d, c);
    lemma_goes_on(p, w, f, with_result(x, f, inst.d as int, c));
    assert(host_made(p, w, x, ffi, meta, inst.s1 as int));
}

/// A method of a nil interface cannot be bound, and nothing can be asserted of one.
pub proof fn law_nil_interface_is_refused(p: &Bytecode, w: VmView, f: FiberView, t: ValueType)
    requires
        ({
            let op = inst_at(p, f).op0;
            &&& comes_to(p, f, op, 0)
            &&& op == Opcode::BIND_I_METHOD || op == Opcode::TYPE_ASSERT
            &&& op == Opcode::TYPE_ASSERT ==> inst_at(p, f).s1 < 0 && -1 - inst_at(p, f).s1
                < p.consts@.len()
        }),
        holds(p, w, f, inst_at(p, f).s0, Value::Nil(t)),
    ensures
        raises(p, w, f, "access nil value"@),
{
    lemma_operand(p, w, f, inst_at(p, f).s0);
    lemma_step(p, w, f);
    lemma_raises(p, w, f, 1, "access nil value"@);
}

} // verus!

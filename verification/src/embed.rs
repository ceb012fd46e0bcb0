//! Embedded fields, interfaces and their methods.
use vstd::prelude::*;
use vstd::set_lib::{lemma_int_range, lemma_len_subset, set_int_range};
use crate::bytecode::{Binding4Runtime, Bytecode, MetadataType};
use crate::closure::{bound_func, new_closure};
use crate::content::{claimed, copy_semantic, get_claimed};
use crate::machine::{agrees, ClosureObj, UpValueState, Vm, VmView};
use crate::meta::{is_same_type, same_type, zero_value};
use crate::place::{deref_value, field_place, find_field_place, load, spec_deref_value};
use crate::trap::{RuntimeError, Trap};
use crate::value::{InterfaceObj, Meta, OpIndex, PointerObj, Value, ValueType};

verus! {

/// The field that the path leads to from a struct, from step `i` on.
pub open spec fn walk(p: &Bytecode, w: VmView, v: Value, path: Seq<OpIndex>, i: nat) -> Result<
    Value,
    Trap,
>
    decreases path.len() - i,
{
    if i >= path.len() {
        Ok(v)
    } else {
        match field_place(v, path[i as int]) {
            Ok(place) => match load(p, w, place) {
                Ok(x) => walk(p, w, x, path, i + 1),
                Err(e) => Err(e),
            },
            Err(e) => Err(e),
        }
    }
}

/// The embedded field that the path leads to from a struct or from a pointer
/// to one.
pub open spec fn spec_get_embeded(p: &Bytecode, w: VmView, v: Value, path: Seq<OpIndex>) -> Result<
    Value,
    Trap,
> {
    if v.spec_typ() == ValueType::Pointer {
        match spec_deref_value(p, w, v) {
            Ok(s) => walk(p, w, s, path, 0),
            Err(e) => Err(e),
        }
    } else {
        walk(p, w, v, path, 0)
    }
}

/// Follows a path of embedded fields.
pub fn get_embeded(v: Value, path: &Vec<OpIndex>, vm: &Vm, p: &Bytecode) -> (r: Result<Value, Trap>)
    ensures
        r == spec_get_embeded(p, vm@, v, path@),
{
    let n: usize = path.len();
    assert(path@.subrange(0, n as int) =~= path@);
    get_embeded_upto(v, path, n, vm, p)
}

/// Follows the first `n` steps of a path of embedded fields.
fn get_embeded_upto(v: Value, path: &Vec<OpIndex>, n: usize, vm: &Vm, p: &Bytecode) -> (r: Result<
    Value,
    Trap,
>)
    requires
        n <= path@.len(),
    ensures
        r == spec_get_embeded(p, vm@, v, path@.subrange(0, n as int)),
{
    let mut cur: Value = v;
    if v.typ() == ValueType::Pointer {
        cur = deref_value(v, vm, p)?;
    }
    let ghost steps = path@.subrange(0, n as int);
    let ghost start = cur;
    let mut i: usize = 0;
    while i < n
        invariant
            n <= path@.len(),
            steps == path@.subrange(0, n as int),
            i <= n,
            walk(p, vm@, start, steps, 0) == walk(p, vm@, cur, steps, i as nat),
            spec_get_embeded(p, vm@, v, steps) == walk(p, vm@, start, steps, 0),
        decreases n - i,
    {
        let place = find_field_place(cur, path[i])?;
        cur = vm.load(p, place)?;
        i = i + 1;
    }
    Ok(cur)
}

/// The struct that holds the last field of the path, and which field that is. The
/// field is known even where there is no struct.
pub open spec fn spec_get_struct_and_index(
    p: &Bytecode,
    w: VmView,
    v: Value,
    path: Seq<OpIndex>,
) -> (Result<Value, Trap>, OpIndex) {
    (
        match spec_get_embeded(p, w, v, path.drop_last()) {
            Ok(s) => if s.spec_typ() == ValueType::Pointer {
                spec_deref_value(p, w, s)
            } else {
                Ok(s)
            },
            Err(e) => Err(e),
        },
        path.last(),
    )
}

/// Finds the struct that holds the last field of a path.
pub fn get_struct_and_index(v: Value, path: &Vec<OpIndex>, vm: &Vm, p: &Bytecode) -> (r: (
    Result<Value, Trap>,
    OpIndex,
))
    requires
        path@.len() > 0,
    ensures
        r.1 == path@.last(),
        r.0 == (match spec_get_embeded(p, vm@, v, path@.drop_last()) {
            Ok(s) => if s.spec_typ() == ValueType::Pointer {
                spec_deref_value(p, vm@, s)
            } else {
                Ok(s)
            },
            Err(e) => Err(e),
        }),
{
    let n: usize = path.len();
    assert(path@.subrange(0, n - 1) =~= path@.drop_last());
    let target = match get_embeded_upto(v, path, n - 1, vm, p) {
        Ok(s) => match s.typ() {
            ValueType::Pointer => deref_value(s, vm, p),
            _ => Ok(s),
        },
        Err(e) => Err(e),
    };
    (target, path[n - 1])
}

/// The value as a receiver: a pointer when `b1` asks for one, and no pointer
/// otherwise. A value that is turned into a pointer lives on in a new variable.
pub open spec fn spec_cast_receiver(p: &Bytecode, w: VmView, receiver: Value, b1: bool) -> Result<
    (VmView, Value),
    Trap,
> {
    if (receiver.spec_typ() == ValueType::Pointer) == b1 {
        Ok((w, receiver))
    } else if b1 {
        Ok(
            (
                w.with_new_upval(UpValueState::Closed(receiver)),
                Value::Pointer(PointerObj::UpVal(w.upvals.len() as usize)),
            ),
        )
    } else {
        match spec_deref_value(p, w, receiver) {
            Ok(v) => Ok((w, v)),
            Err(e) => Err(e),
        }
    }
}

/// Turns a value into a receiver.
pub fn cast_receiver(receiver: Value, b1: bool, vm: &mut Vm, p: &Bytecode) -> (r: Result<Value, Trap>)
    ensures
        agrees(r, old(vm)@, final(vm)@, spec_cast_receiver(p, old(vm)@, receiver, b1)),
{
    let b0: bool = receiver.typ() == ValueType::Pointer;
    if b0 == b1 {
        Ok(receiver)
    } else if b1 {
        let id: usize = vm.new_upval(UpValueState::Closed(receiver));
        Ok(Value::Pointer(PointerObj::UpVal(id)))
    } else {
        deref_value(receiver, vm, p)
    }
}

/// The interface value that a value is; nil is a mistake of the program.
pub open spec fn as_non_nil_interface(v: Value) -> Result<InterfaceObj, Trap> {
    match v {
        Value::Interface(i) => Ok(i),
        Value::Nil(_) => Err(Trap::Panic(RuntimeError::NilAccess)),
        _ => Err(Trap::Fault),
    }
}

/// Takes a value as an interface value that is not nil.
pub fn get_non_nil_interface(v: Value) -> (r: Result<InterfaceObj, Trap>)
    ensures
        r == as_non_nil_interface(v),
{
    match v {
        Value::Interface(i) => Ok(i),
        Value::Nil(_) => Err(Trap::Panic(RuntimeError::NilAccess)),
        _ => Err(Trap::Fault),
    }
}

/// The type that a value is.
pub open spec fn as_metadata(v: Value) -> Result<Meta, Trap> {
    match v {
        Value::Metadata(m) => Ok(m),
        _ => Err(Trap::Fault),
    }
}

/// Takes a value as a type.
pub fn get_metadata(v: Value) -> (r: Result<Meta, Trap>)
    ensures
        r == as_metadata(v),
{
    match v {
        Value::Metadata(m) => Ok(m),
        _ => Err(Trap::Fault),
    }
}

/// What is left of an interface value when it is said to be of a type: a copy
/// of the value below if it is, the zero value of the type if it is not, and
/// whether it is. A value that claims no type is of every type.
pub open spec fn spec_type_assert(p: &Bytecode, w: VmView, val: Value, want: Value) -> Result<
    (VmView, (Value, bool)),
    Trap,
> {
    match as_non_nil_interface(val) {
        Err(e) => Err(e),
        Ok(InterfaceObj::Ffi { .. }) => Err(Trap::Panic(RuntimeError::FfiAssertion)),
        Ok(InterfaceObj::Gos { under, binding }) => match (
            as_metadata(want),
            claimed(p, binding),
            w.cell(under as int),
        ) {
            (Ok(m), Ok(c), Ok(v)) => {
                let have = match c {
                    Some(h) => h,
                    None => m,
                };
                match same_type(p, m, have) {
                    Ok(true) => match copy_semantic(w, v) {
                        Ok((w1, x)) => Ok((w1, (x, true))),
                        Err(e) => Err(e),
                    },
                    Ok(false) => match zero_value(p, w, m) {
                        Ok((w1, x)) => Ok((w1, (x, false))),
                        Err(e) => Err(e),
                    },
                    Err(e) => Err(Trap::Fault),
                }
            },
            _ => Err(Trap::Fault),
        },
    }
}

/// Asks whether an interface value is of a type.
pub fn type_assert(val: Value, want_meta: Value, vm: &mut Vm, p: &Bytecode) -> (r: Result<
    (Value, bool),
    Trap,
>)
    ensures
        agrees(r, old(vm)@, final(vm)@, spec_type_assert(p, old(vm)@, val, want_meta)),
{
    match get_non_nil_interface(val)? {
        InterfaceObj::Ffi { .. } => Err(Trap::Panic(RuntimeError::FfiAssertion)),
        InterfaceObj::Gos { under, binding } => {
            let (m, c, v) = match (
                get_metadata(want_meta),
                get_claimed(p, binding),
                vm.get_cell(under),
            ) {
                (Ok(m), Ok(c), Ok(v)) => (m, c, v),
                _ => return Err(Trap::Fault),
            };
            let have = match c {
                Some(h) => h,
                None => m,
            };
            match is_same_type(p, m, have) {
                Ok(true) => {
                    let x = vm.copy_semantic(v)?;
                    Ok((x, true))
                },
                Ok(false) => {
                    let x = vm.zero(p, m)?;
                    Ok((x, false))
                },
                Err(_) => Err(Trap::Fault),
            }
        },
    }
}

/// Whether a method of the host may wait: its name says so.
pub open spec fn is_async_name(name: Seq<u8>) -> bool {
    name.len() >= 5 && name.subrange(0, 5) == seq![97u8, 115u8, 121u8, 110u8, 99u8]
}

fn has_async_name(name: &Vec<u8>) -> (r: bool)
    ensures
        r == is_async_name(name@),
{
    if name.len() < 5 {
        return false;
    }
    let r: bool = name[0] == 97 && name[1] == 115 && name[2] == 121 && name[3] == 110 && name[4]
        == 99;
    proof {
        let want = seq![97u8, 115u8, 121u8, 110u8, 99u8];
        let have = name@.subrange(0, 5);
        if r {
            assert(have =~= want);
        } else {
            assert(have[0] != want[0] || have[1] != want[1] || have[2] != want[2] || have[3]
                != want[3] || have[4] != want[4]);
        }
    }
    r
}

/// What the path leads to, or the value itself if there is no path.
pub open spec fn through(p: &Bytecode, w: VmView, v: Value, path: Option<Vec<OpIndex>>) -> Result<
    Value,
    Trap,
> {
    match path {
        None => Ok(v),
        Some(inds) => spec_get_embeded(p, w, v, inds@),
    }
}

fn go_through(v: Value, path: &Option<Vec<OpIndex>>, vm: &Vm, p: &Bytecode) -> (r: Result<
    Value,
    Trap,
>)
    ensures
        r == through(p, vm@, v, *path),
{
    match path {
        None => Ok(v),
        Some(inds) => get_embeded(v, inds, vm, p),
    }
}

/// The interface in the value below that has the method, and the number of the
/// method there, if the method of an interface value is one of such an interface.
pub open spec fn inner_method(p: &Bytecode, w: VmView, iface: InterfaceObj, index: usize) -> Option<
    (InterfaceObj, usize),
> {
    match iface {
        InterfaceObj::Gos { under, binding: Some(b) } => if b < p.ifaces@.len() && index
            < p.ifaces@[b as int].methods@.len() && under < w.cells.len() {
            match p.ifaces@[b as int].methods@[index as int] {
                Binding4Runtime::Iface { index: i, indices } => match through(
                    p,
                    w,
                    w.cells[under as int],
                    indices,
                ) {
                    Ok(Value::Interface(inner)) => Some((inner, i)),
                    _ => None,
                },
                Binding4Runtime::Struct { .. } => None,
            }
        } else {
            None
        },
        _ => None,
    }
}

/// The interface and the number of the method there, `n` interfaces further in.
pub open spec fn method_within(
    p: &Bytecode,
    w: VmView,
    iface: InterfaceObj,
    index: usize,
    n: nat,
) -> Option<(InterfaceObj, usize)>
    decreases n,
{
    if n == 0 {
        Some((iface, index))
    } else {
        match inner_method(p, w, iface, index) {
            Some((inner, i)) => method_within(p, w, inner, i, (n - 1) as nat),
            None => None,
        }
    }
}

/// Whether `n` interfaces further in the method is one of no further interface.
pub open spec fn innermost(p: &Bytecode, w: VmView, iface: InterfaceObj, index: usize, n: nat) -> bool {
    match method_within(p, w, iface, index, n) {
        Some((inner, i)) => inner_method(p, w, inner, i) is None,
        None => false,
    }
}

/// Whether there is an innermost interface: interfaces that hold each other in a
/// circle have none.
pub open spec fn has_innermost(p: &Bytecode, w: VmView, iface: InterfaceObj, index: usize) -> bool {
    exists|n: nat| innermost(p, w, iface, index, n)
}

/// The innermost interface that has the method, and the number of the method
/// there.
pub open spec fn innermost_method(p: &Bytecode, w: VmView, iface: InterfaceObj, index: usize) -> (
    InterfaceObj,
    usize,
) {
    method_within(p, w, iface, index, choose|n: nat| innermost(p, w, iface, index, n))->Some_0
}

/// The function value that a method of an interface value is, if it is one of no
/// further interface: a method of the value below, bound to a copy of it, or a
/// method of an object of the host.
pub open spec fn bind_method(p: &Bytecode, w: VmView, iface: InterfaceObj, index: usize) -> Result<
    (VmView, Value),
    Trap,
> {
    match iface {
        InterfaceObj::Gos { under, binding: Some(b) } => if b < p.ifaces@.len() && index
            < p.ifaces@[b as int].methods@.len() && under < w.cells.len() {
            match p.ifaces@[b as int].methods@[index as int] {
                Binding4Runtime::Struct { func, ptr_recv, indices } => match through(
                    p,
                    w,
                    w.cells[under as int],
                    indices,
                ) {
                    Ok(obj) => match copy_semantic(w, obj) {
                        Ok((w1, x)) => match spec_cast_receiver(p, w1, x, ptr_recv) {
                            Ok((w2, recv)) => bound_func(p, w2, func, Some(recv)),
                            Err(e) => Err(e),
                        },
                        Err(e) => Err(e),
                    },
                    Err(e) => Err(e),
                },
                Binding4Runtime::Iface { index: _, indices } => match through(
                    p,
                    w,
                    w.cells[under as int],
                    indices,
                ) {
                    Ok(_) => Err(Trap::Fault),
                    Err(e) => Err(e),
                },
            }
        } else {
            Err(Trap::Fault)
        },
        InterfaceObj::Gos { .. } => Err(Trap::Fault),
        InterfaceObj::Ffi { ffi, meta } => if meta.key < p.metas@.len() {
            match p.metas@[meta.key as int] {
                MetadataType::Interface(infos) => if index < infos@.len() {
                    Ok(
                        new_closure(
                            w,
                            ClosureObj::Ffi {
                                ffi,
                                iface: meta.key,
                                index,
                                meta: infos@[index as int].meta,
                                is_async: is_async_name(infos@[index as int].name@),
                            },
                        ),
                    )
                } else {
                    Err(Trap::Fault)
                },
                _ => Err(Trap::Fault),
            }
        } else {
            Err(Trap::Fault)
        },
    }
}

/// The function value that a method of an interface value is: what it is in the
/// innermost interface that has it.
pub open spec fn spec_bind_iface_method(p: &Bytecode, w: VmView, iface: InterfaceObj, index: usize) -> Result<
    (VmView, Value),
    Trap,
> {
    if has_innermost(p, w, iface, index) {
        let (inner, i) = innermost_method(p, w, iface, index);
        bind_method(p, w, inner, i)
    } else {
        Err(Trap::Fault)
    }
}

/// Whether an interface value has the method, and what the method leads to is an
/// interface where it has to be one.
pub open spec fn has_method(p: &Bytecode, w: VmView, iface: InterfaceObj, index: usize) -> bool {
    match iface {
        InterfaceObj::Gos { under, binding: Some(b) } => {
            &&& b < p.ifaces@.len()
            &&& index < p.ifaces@[b as int].methods@.len()
            &&& under < w.cells.len()
            &&& p.ifaces@[b as int].methods@[index as int] matches Binding4Runtime::Iface {
                indices,
                ..
            } ==> (through(p, w, w.cells[under as int], indices) matches Ok(v) ==> v is Interface)
        },
        InterfaceObj::Gos { .. } => false,
        InterfaceObj::Ffi { meta, .. } => {
            &&& meta.key < p.metas@.len()
            &&& p.metas@[meta.key as int] matches MetadataType::Interface(infos) && index
                < infos@.len()
        },
    }
}

/// Whether a method can be bound: there is an innermost interface, and it has the
/// method. The interfaces on the way then have it too.
pub open spec fn bindable(p: &Bytecode, w: VmView, iface: InterfaceObj, index: usize) -> bool {
    has_innermost(p, w, iface, index) && {
        let (inner, i) = innermost_method(p, w, iface, index);
        has_method(p, w, inner, i)
    }
}

/// There is one innermost interface only.
proof fn lemma_innermost_once(
    p: &Bytecode,
    w: VmView,
    iface: InterfaceObj,
    index: usize,
    m: nat,
    n: nat,
)
    requires
        innermost(p, w, iface, index, m),
        innermost(p, w, iface, index, n),
    ensures
        m == n,
    decreases m,
{
    match inner_method(p, w, iface, index) {
        Some((inner, i)) => {
            lemma_innermost_once(p, w, inner, i, (m - 1) as nat, (n - 1) as nat);
        },
        None => {},
    }
}

/// A method of an interface in the value below is the method of that interface.
pub proof fn lemma_inner_method(p: &Bytecode, w: VmView, iface: InterfaceObj, index: usize)
    requires
        inner_method(p, w, iface, index) is Some,
    ensures
        inner_method(p, w, iface, index) matches Some((inner, i)) && {
            &&& has_innermost(p, w, iface, index) == has_innermost(p, w, inner, i)
            &&& has_innermost(p, w, inner, i) ==> innermost_method(p, w, iface, index)
                == innermost_method(p, w, inner, i)
            &&& spec_bind_iface_method(p, w, iface, index) == spec_bind_iface_method(
                p,
                w,
                inner,
                i,
            )
            &&& bindable(p, w, iface, index) == bindable(p, w, inner, i)
        },
{
    let (inner, i) = inner_method(p, w, iface, index)->Some_0;
    if has_innermost(p, w, inner, i) {
        let n = choose|n: nat| innermost(p, w, inner, i, n);
        assert(innermost(p, w, iface, index, n + 1));
    }
    if has_innermost(p, w, iface, index) {
        let m = choose|m: nat| innermost(p, w, iface, index, m);
        assert(innermost(p, w, inner, i, (m - 1) as nat));
        let n = choose|n: nat| innermost(p, w, inner, i, n);
        lemma_innermost_once(p, w, inner, i, (m - 1) as nat, n);
    }
}

/// A method of no further interface is bound as it stands.
proof fn lemma_own_method(p: &Bytecode, w: VmView, iface: InterfaceObj, index: usize)
    requires
        inner_method(p, w, iface, index) is None,
    ensures
        has_innermost(p, w, iface, index),
        innermost_method(p, w, iface, index) == (iface, index),
        spec_bind_iface_method(p, w, iface, index) == bind_method(p, w, iface, index),
        bindable(p, w, iface, index) == has_method(p, w, iface, index),
{
    assert(innermost(p, w, iface, index, 0));
    let n = choose|n: nat| innermost(p, w, iface, index, n);
    lemma_innermost_once(p, w, iface, index, 0, n);
}

/// A method that cannot be bound is a fault.
pub proof fn lemma_not_bindable(p: &Bytecode, w: VmView, iface: InterfaceObj, index: usize)
    requires
        !bindable(p, w, iface, index),
    ensures
        spec_bind_iface_method(p, w, iface, index) == Err::<(VmView, Value), Trap>(Trap::Fault),
{
    if has_innermost(p, w, iface, index) {
        let n = choose|n: nat| innermost(p, w, iface, index, n);
        assert(innermost(p, w, iface, index, n));
        let (inner, i) = innermost_method(p, w, iface, index);
        assert(inner_method(p, w, inner, i) is None);
    }
}

/// Finds the interface in the value below that has the method.
fn find_inner_method(iface: InterfaceObj, index: usize, vm: &Vm, p: &Bytecode) -> (r: Option<
    (InterfaceObj, usize),
>)
    ensures
        r == inner_method(p, vm@, iface, index),
{
    match iface {
        InterfaceObj::Gos { under, binding: Some(b) } => {
            if b >= p.ifaces.len() || index >= p.ifaces[b].methods.len() || under
                >= vm.cells.len() {
                return None;
            }
            match &p.ifaces[b].methods[index] {
                Binding4Runtime::Iface { index: i, indices } => match go_through(
                    vm.cells[under],
                    indices,
                    vm,
                    p,
                ) {
                    Ok(Value::Interface(inner)) => Some((inner, *i)),
                    _ => None,
                },
                Binding4Runtime::Struct { .. } => None,
            }
        },
        _ => None,
    }
}

/// Tests whether an interface value has the method.
fn test_has_method(iface: InterfaceObj, index: usize, vm: &Vm, p: &Bytecode) -> (r: bool)
    ensures
        r == has_method(p, vm@, iface, index),
{
    match iface {
        InterfaceObj::Gos { under, binding: Some(b) } => {
            if b >= p.ifaces.len() || index >= p.ifaces[b].methods.len() || under
                >= vm.cells.len() {
                return false;
            }
            match &p.ifaces[b].methods[index] {
                Binding4Runtime::Iface { index: _, indices } => match go_through(
                    vm.cells[under],
                    indices,
                    vm,
                    p,
                ) {
                    Ok(Value::Interface(_)) => true,
                    Ok(_) => false,
                    Err(_) => true,
                },
                Binding4Runtime::Struct { .. } => true,
            }
        },
        InterfaceObj::Gos { .. } => false,
        InterfaceObj::Ffi { meta, .. } => {
            if meta.key >= p.metas.len() {
                return false;
            }
            match &p.metas[meta.key] {
                MetadataType::Interface(infos) => index < infos.len(),
                _ => false,
            }
        },
    }
}

/// The number of methods of the first `n` lists.
spec fn methods_before(p: &Bytecode, n: nat) -> int
    decreases n,
{
    if n == 0 {
        0
    } else {
        methods_before(p, (n - 1) as nat) + p.ifaces@[n - 1].methods@.len()
    }
}

/// The number of an interface over a cell and a method of it.
spec fn state_number(p: &Bytecode, w: VmView, s: (InterfaceObj, usize)) -> int {
    match s.0 {
        InterfaceObj::Gos { under, binding: Some(b) } => (methods_before(p, b as nat) + s.1)
            * w.cells.len() + under,
        _ => 0,
    }
}

/// How many such numbers there are.
spec fn state_count(p: &Bytecode, w: VmView) -> int {
    methods_before(p, p.ifaces@.len()) * w.cells.len()
}

proof fn lemma_methods_before(p: &Bytecode, a: nat, b: nat)
    requires
        a <= b,
    ensures
        0 <= methods_before(p, a) <= methods_before(p, b),
        a < b ==> methods_before(p, a) + p.ifaces@[a as int].methods@.len() <= methods_before(
            p,
            b,
        ),
    decreases b,
{
    if a < b {
        lemma_methods_before(p, a, (b - 1) as nat);
    } else if a > 0 {
        lemma_methods_before(p, (a - 1) as nat, (a - 1) as nat);
    }
}

proof fn lemma_state_in_range(p: &Bytecode, w: VmView, s: (InterfaceObj, usize))
    requires
        inner_method(p, w, s.0, s.1) is Some,
    ensures
        0 <= state_number(p, w, s) < state_count(p, w),
{
    match s.0 {
        InterfaceObj::Gos { under, binding: Some(b) } => {
            lemma_methods_before(p, b as nat, p.ifaces@.len());
            let k = methods_before(p, b as nat) + s.1;
            let all = methods_before(p, p.ifaces@.len());
            let n = w.cells.len() as int;
            let u = under as int;
            assert(0 <= k * n + u < all * n) by (nonlinear_arith)
                requires
                    0 <= k < all,
                    0 <= u < n,
            ;
        },
        _ => {},
    }
}

proof fn lemma_state_number_differs(
    p: &Bytecode,
    w: VmView,
    s: (InterfaceObj, usize),
    t: (InterfaceObj, usize),
)
    requires
        inner_method(p, w, s.0, s.1) is Some,
        inner_method(p, w, t.0, t.1) is Some,
        state_number(p, w, s) == state_number(p, w, t),
    ensures
        s == t,
{
    match (s.0, t.0) {
        (
            InterfaceObj::Gos { under: u, binding: Some(b) },
            InterfaceObj::Gos { under: v, binding: Some(c) },
        ) => {
            let j = methods_before(p, b as nat) + s.1;
            let k = methods_before(p, c as nat) + t.1;
            let n = w.cells.len() as int;
            let x = u as int;
            let y = v as int;
            assert(j == k && x == y) by (nonlinear_arith)
                requires
                    j * n + x == k * n + y,
                    0 <= x < n,
                    0 <= y < n,
            ;
            if b < c {
                lemma_methods_before(p, b as nat, c as nat);
            } else if c < b {
                lemma_methods_before(p, c as nat, b as nat);
            }
        },
        _ => {},
    }
}

/// Different numbers below a bound are no more than the bound.
proof fn lemma_few_numbers(s: Seq<int>, bound: int)
    requires
        s.no_duplicates(),
        0 <= bound,
        forall|i: int| 0 <= i < s.len() ==> 0 <= #[trigger] s[i] < bound,
    ensures
        s.len() <= bound,
{
    s.unique_seq_to_set();
    lemma_int_range(0, bound);
    assert(s.to_set().subset_of(set_int_range(0, bound)));
    lemma_len_subset(s.to_set(), set_int_range(0, bound));
}

/// Where a way comes back to a place it goes round forever.
proof fn lemma_circle(
    p: &Bytecode,
    w: VmView,
    iface: InterfaceObj,
    index: usize,
    i: nat,
    j: nat,
    n: nat,
)
    requires
        i < j,
        method_within(p, w, iface, index, j) is Some,
        method_within(p, w, iface, index, i) == method_within(p, w, iface, index, j),
    ensures
        !innermost(p, w, iface, index, n),
    decreases n,
{
    if innermost(p, w, iface, index, n) {
        if n < j {
            lemma_within_add(p, w, iface, index, n, (j - n) as nat);
        } else {
            let back = (n - (j - i)) as nat;
            lemma_within_add(p, w, iface, index, j, (n - j) as nat);
            lemma_within_add(p, w, iface, index, i, (n - j) as nat);
            assert(innermost(p, w, iface, index, back));
            lemma_circle(p, w, iface, index, i, j, back);
        }
    }
}

/// A way in two parts.
proof fn lemma_within_add(
    p: &Bytecode,
    w: VmView,
    iface: InterfaceObj,
    index: usize,
    m: nat,
    n: nat,
)
    ensures
        method_within(p, w, iface, index, m + n) == match method_within(p, w, iface, index, m) {
            Some((inner, i)) => method_within(p, w, inner, i, n),
            None => None,
        },
    decreases m,
{
    if m > 0 {
        match inner_method(p, w, iface, index) {
            Some((inner, i)) => {
                lemma_within_add(p, w, inner, i, (m - 1) as nat, n);
            },
            None => {},
        }
    }
}

/// Whether a place was met before.
fn met_before(seen: &Vec<(InterfaceObj, usize)>, s: (InterfaceObj, usize)) -> (r: bool)
    ensures
        r == seen@.contains(s),
{
    let mut i: usize = 0;
    while i < seen.len()
        invariant
            i <= seen@.len(),
            forall|j: int| 0 <= j < i ==> #[trigger] seen@[j] != s,
        decreases seen@.len() - i,
    {
        if seen[i].0 == s.0 && seen[i].1 == s.1 {
            assert(seen@[i as int] == s);
            return true;
        }
        i = i + 1;
    }
    false
}

/// Tests whether a method can be bound.
pub fn is_bindable(iface: InterfaceObj, index: usize, vm: &Vm, p: &Bytecode) -> (r: bool)
    ensures
        r == bindable(p, vm@, iface, index),
{
    let mut seen: Vec<(InterfaceObj, usize)> = Vec::new();
    let mut cur: InterfaceObj = iface;
    let mut k: usize = index;
    let ghost mut numbers: Seq<int> = seq![];
    proof {
        lemma_methods_before(p, 0, p.ifaces@.len());
        let all = methods_before(p, p.ifaces@.len());
        let n = vm@.cells.len() as int;
        assert(0 <= all * n) by (nonlinear_arith)
            requires
                0 <= all,
                0 <= n,
        ;
    }
    loop
        invariant
            bindable(p, vm@, iface, index) == bindable(p, vm@, cur, k),
            method_within(p, vm@, iface, index, seen@.len()) == Some((cur, k)),
            forall|i: int|
                0 <= i < seen@.len() ==> method_within(p, vm@, iface, index, i as nat) == Some(
                    #[trigger] seen@[i],
                ),
            forall|i: int|
                0 <= i < seen@.len() ==> inner_method(
                    p,
                    vm@,
                    (#[trigger] seen@[i]).0,
                    seen@[i].1,
                ) is Some,
            seen@.no_duplicates(),
            numbers.len() == seen@.len(),
            forall|i: int|
                0 <= i < seen@.len() ==> #[trigger] numbers[i] == state_number(p, vm@, seen@[i]),
            numbers.no_duplicates(),
            0 <= state_count(p, vm@),
            numbers.len() <= state_count(p, vm@),
        decreases state_count(p, vm@) - seen@.len(),
    {
        match find_inner_method(cur, k, vm, p) {
            Some((inner, i)) => {
                if met_before(&seen, (cur, k)) {
                    proof {
                        let at = choose|at: int| 0 <= at < seen@.len() && seen@[at] == (cur, k);
                        assert forall|n: nat| !innermost(p, vm@, iface, index, n) by {
                            lemma_circle(p, vm@, iface, index, at as nat, seen@.len(), n);
                        }
                    }
                    return false;
                }
                proof {
                    lemma_inner_method(p, vm@, cur, k);
                    lemma_within_add(p, vm@, iface, index, seen@.len(), 1);
                    assert(method_within(p, vm@, cur, k, 1) == method_within(p, vm@, inner, i, 0));
                    let number = state_number(p, vm@, (cur, k));
                    let more = numbers.push(number);
                    assert(more.no_duplicates()) by {
                        assert forall|a: int, b: int|
                            0 <= a < more.len() && 0 <= b < more.len() && a != b implies more[a]
                            != more[b] by {
                            if a == numbers.len() && more[a] == more[b] {
                                lemma_state_number_differs(p, vm@, seen@[b], (cur, k));
                                assert(seen@.contains((cur, k)));
                            } else if b == numbers.len() && more[a] == more[b] {
                                lemma_state_number_differs(p, vm@, seen@[a], (cur, k));
                                assert(seen@.contains((cur, k)));
                            }
                        }
                    }
                    assert forall|a: int| 0 <= a < more.len() implies 0 <= #[trigger] more[a]
                        < state_count(p, vm@) by {
                        if a < numbers.len() {
                            lemma_state_in_range(p, vm@, seen@[a]);
                        } else {
                            lemma_state_in_range(p, vm@, (cur, k));
                        }
                    }
                    lemma_few_numbers(more, state_count(p, vm@));
                    numbers = more;
                }
                seen.push((cur, k));
                cur = inner;
                k = i;
            },
            None => {
                proof {
                    lemma_own_method(p, vm@, cur, k);
                }
                return test_has_method(cur, k, vm, p);
            },
        }
    }
}

/// Makes a function value of a method of no further interface.
fn bind_own_method(iface: InterfaceObj, index: usize, vm: &mut Vm, p: &Bytecode) -> (r: Result<
    Value,
    Trap,
>)
    ensures
        agrees(r, old(vm)@, final(vm)@, bind_method(p, old(vm)@, iface, index)),
{
    match iface {
        InterfaceObj::Gos { under, binding } => {
            let b: usize = match binding {
                Some(b) => b,
                None => return Err(Trap::Fault),
            };
            if b >= p.ifaces.len() || index >= p.ifaces[b].methods.len() || under
                >= vm.cells.len() {
                return Err(Trap::Fault);
            }
            match &p.ifaces[b].methods[index] {
                Binding4Runtime::Struct { func, ptr_recv, indices } => {
                    let obj = go_through(vm.cells[under], indices, vm, p)?;
                    let x = vm.copy_semantic(obj)?;
                    proof {
                        if x.spec_typ() == ValueType::Pointer {
                            assert(vm@ == old(vm)@);
                        }
                    }
                    let recv = cast_receiver(x, *ptr_recv, vm, p)?;
                    vm.bind_func(p, *func, Some(recv))
                },
                Binding4Runtime::Iface { index: _, indices } => {
                    go_through(vm.cells[under], indices, vm, p)?;
                    Err(Trap::Fault)
                },
            }
        },
        InterfaceObj::Ffi { ffi, meta } => {
            if meta.key >= p.metas.len() {
                return Err(Trap::Fault);
            }
            match &p.metas[meta.key] {
                MetadataType::Interface(infos) => {
                    if index >= infos.len() {
                        return Err(Trap::Fault);
                    }
                    let c = ClosureObj::Ffi {
                        ffi,
                        iface: meta.key,
                        index,
                        meta: infos[index].meta,
                        is_async: has_async_name(&infos[index].name),
                    };
                    Ok(vm.add_closure(c))
                },
                _ => Err(Trap::Fault),
            }
        },
    }
}

/// Makes a function value of a method of an interface value.
pub fn bind_iface_method(iface: InterfaceObj, index: usize, vm: &mut Vm, p: &Bytecode) -> (r: Result<
    Value,
    Trap,
>)
    requires
        bindable(p, old(vm)@, iface, index),
    ensures
        agrees(r, old(vm)@, final(vm)@, spec_bind_iface_method(p, old(vm)@, iface, index)),
{
    let mut cur: InterfaceObj = iface;
    let mut k: usize = index;
    let ghost mut left: nat = choose|n: nat| innermost(p, vm@, iface, index, n);
    loop
        invariant
            *vm == *old(vm),
            innermost(p, vm@, cur, k, left),
            spec_bind_iface_method(p, vm@, iface, index) == spec_bind_iface_method(
                p,
                vm@,
                cur,
                k,
            ),
        decreases left,
    {
        match find_inner_method(cur, k, vm, p) {
            Some((inner, i)) => {
                proof {
                    lemma_inner_method(p, vm@, cur, k);
                    left = (left - 1) as nat;
                }
                cur = inner;
                k = i;
            },
            None => {
                proof {
                    lemma_own_method(p, vm@, cur, k);
                }
                return bind_own_method(cur, k, vm, p);
            },
        }
    }
}

} // verus!

//! What holds of every value: what it refers to is there.
use vstd::prelude::*;
use crate::bytecode::{Bytecode, FunctionObj, MetadataType, PackageObj};
use crate::content::{copy_all, copy_rest, copy_semantic, copy_value, depth, lemma_copy_rest_shape};
use crate::dict::{find, lemma_find_no_panic, map_get, with_map, with_new_map};
use crate::laws_growth::{
    grows, lemma_added_grows, lemma_grows_self, lemma_grows_trans, lemma_zero_rest_longer,
};
use crate::machine::{
    next_region, offset, overlay, region_seq, spec_const, vacate, widen, ChannelObj, ClosureObj,
    Ctx, UpValueState, VmView,
};
use crate::meta::{field_metas, meta_depth, zero, zero_rest, zero_value};
use crate::num::in_range;
use crate::panic::PanicView;
use crate::place::{load, store, Place};
use crate::slices::in_order;
use crate::trap::Trap;
use crate::value::{InterfaceObj, Meta, OpIndex, PointerObj, Region, SliceRef, UnsafePtr, Value};

verus! {

/// Whether a region lies within the cells.
pub open spec fn valid_region(w: VmView, r: Region) -> bool {
    r.base + r.len <= w.cells.len()
}

/// Whether a slice lies within its array, and the array within the cells.
pub open spec fn valid_slice(w: VmView, s: SliceRef) -> bool {
    in_order(s) && valid_region(w, s.array)
}

/// Whether what a pointer points into is there.
pub open spec fn valid_pointer(w: VmView, ptr: PointerObj) -> bool {
    match ptr {
        PointerObj::UpVal(id) => id < w.upvals.len(),
        PointerObj::SliceMember(s, _) => valid_slice(w, s),
        PointerObj::StructField(r, _) => valid_region(w, r),
        PointerObj::PkgMember(_, _) => true,
    }
}

/// Whether what a value refers to is there; and an integer is in the range of its
/// type.
pub open spec fn valid_value(p: &Bytecode, w: VmView, v: Value) -> bool {
    match v {
        Value::Int(k, n) => in_range(k, n as int),
        Value::Str(s) => valid_slice(w, s),
        Value::Slice(s) => valid_slice(w, s),
        Value::Array(r) => valid_region(w, r),
        Value::Struct(r) => valid_region(w, r),
        Value::Pointer(ptr) => valid_pointer(w, ptr),
        Value::UnsafePtr(UnsafePtr::Handle(ptr)) => valid_pointer(w, ptr),
        Value::Closure(id) => id < w.closures.len(),
        Value::GoMap(m) => m < w.maps.len(),
        Value::Channel(c) => c < w.chans.len(),
        Value::Interface(InterfaceObj::Gos { under, binding }) => under < w.cells.len() && (
        binding matches Some(b) ==> b < p.ifaces@.len()),
        _ => true,
    }
}

/// Whether all of several values are valid.
pub open spec fn valid_all(p: &Bytecode, w: VmView, s: Seq<Value>) -> bool {
    forall|i: int| 0 <= i < s.len() ==> valid_value(p, w, #[trigger] s[i])
}

/// Whether what a function value refers to is there.
pub open spec fn valid_closure(p: &Bytecode, w: VmView, c: ClosureObj) -> bool {
    match c {
        ClosureObj::Gos { uvs, recv, .. } => {
            &&& uvs matches Some(r) ==> valid_region(w, r)
            &&& recv matches Some(v) ==> valid_value(p, w, v)
        },
        ClosureObj::Ffi { .. } => true,
    }
}

/// Whether both sides of all entries of a map are valid.
pub open spec fn valid_entries(p: &Bytecode, w: VmView, e: Seq<(Value, Value)>) -> bool {
    forall|i: int|
        0 <= i < e.len() ==> valid_value(p, w, (#[trigger] e[i]).0) && valid_value(p, w, e[i].1)
}

/// Whether what a captured variable holds by itself is valid.
pub open spec fn valid_upval(p: &Bytecode, w: VmView, u: UpValueState) -> bool {
    u matches UpValueState::Closed(v) ==> valid_value(p, w, v)
}

/// Whether the values that a function starts with are valid.
pub open spec fn valid_function(p: &Bytecode, w: VmView, f: FunctionObj) -> bool {
    valid_all(p, w, f.ret_zeros@) && valid_all(p, w, f.local_zeros@)
}

/// Whether what a package refers to is there.
pub open spec fn valid_package(p: &Bytecode, w: VmView, k: PackageObj) -> bool {
    valid_region(w, k.members) && valid_all(p, w, k.init_funcs@)
}

/// Whether everything that a program and the tables refer to is there.
#[verifier::opaque]
pub open spec fn good(p: &Bytecode, w: VmView) -> bool {
    &&& valid_all(p, w, p.consts@)
    &&& forall|i: int|
        0 <= i < p.functions@.len() ==> valid_function(p, w, #[trigger] p.functions@[i])
    &&& forall|i: int|
        0 <= i < p.packages@.len() ==> valid_package(p, w, #[trigger] p.packages@[i])
    &&& valid_all(p, w, w.cells)
    &&& forall|i: int| 0 <= i < w.upvals.len() ==> valid_upval(p, w, #[trigger] w.upvals[i])
    &&& forall|i: int| 0 <= i < w.closures.len() ==> valid_closure(p, w, #[trigger] w.closures[i])
    &&& forall|i: int|
        0 <= i < w.chans.len() ==> valid_value(p, w, (#[trigger] w.chans[i]).recv_zero)
    &&& forall|i: int| 0 <= i < w.maps.len() ==> valid_entries(p, w, #[trigger] w.maps[i])
    &&& forall|i: int| 0 <= i < w.stacks.len() ==> valid_all(p, w, #[trigger] w.stacks[i])
    &&& w.panic_data matches Some(d) ==> valid_value(p, w, d.msg)
}

/// Whether the tables are no longer than a machine can count.
pub open spec fn fits(w: VmView) -> bool {
    &&& w.cells.len() <= isize::MAX
    &&& w.upvals.len() <= usize::MAX
    &&& w.closures.len() <= usize::MAX
    &&& w.chans.len() <= usize::MAX
    &&& w.maps.len() <= usize::MAX
    &&& w.stacks.len() <= usize::MAX
}

/// Tables that others grew from are no longer than those.
pub proof fn lemma_fits_before(w: VmView, x: VmView)
    requires
        grows(w, x),
        fits(x),
    ensures
        fits(w),
{
    reveal(grows);
}

/// What is there stays there.
pub proof fn lemma_value_stays(p: &Bytecode, w: VmView, x: VmView, v: Value)
    requires
        grows(w, x),
        valid_value(p, w, v),
    ensures
        valid_value(p, x, v),
{
    reveal(grows);
}

pub proof fn lemma_all_stay(p: &Bytecode, w: VmView, x: VmView, s: Seq<Value>)
    requires
        grows(w, x),
        valid_all(p, w, s),
    ensures
        valid_all(p, x, s),
{
    assert forall|i: int| 0 <= i < s.len() implies valid_value(p, x, #[trigger] s[i]) by {
        lemma_value_stays(p, w, x, s[i]);
    }
}

/// Tables that grew, where every table but some is as it was, or holds valid
/// values.
proof fn lemma_good_grown(p: &Bytecode, w: VmView, x: VmView)
    requires
        good(p, w),
        grows(w, x),
        x.cells == w.cells || valid_all(p, x, x.cells),
        forall|i: int|
            0 <= i < x.upvals.len() ==> (i < w.upvals.len() && x.upvals[i] == w.upvals[i])
                || valid_upval(p, x, #[trigger] x.upvals[i]),
        forall|i: int|
            0 <= i < x.closures.len() ==> (i < w.closures.len() && x.closures[i] == w.closures[i])
                || valid_closure(p, x, #[trigger] x.closures[i]),
        forall|i: int|
            0 <= i < x.chans.len() ==> (i < w.chans.len() && x.chans[i] == w.chans[i])
                || valid_value(p, x, (#[trigger] x.chans[i]).recv_zero),
        forall|i: int|
            0 <= i < x.maps.len() ==> (i < w.maps.len() && x.maps[i] == w.maps[i])
                || valid_entries(p, x, #[trigger] x.maps[i]),
        forall|i: int|
            0 <= i < x.stacks.len() ==> (i < w.stacks.len() && x.stacks[i] == w.stacks[i])
                || valid_all(p, x, #[trigger] x.stacks[i]),
        x.panic_data == w.panic_data || (x.panic_data matches Some(d) ==> valid_value(
            p,
            x,
            d.msg,
        )),
    ensures
        good(p, x),
{
    reveal(good);
    lemma_all_stay(p, w, x, p.consts@);
    assert forall|i: int| 0 <= i < p.functions@.len() implies valid_function(
        p,
        x,
        #[trigger] p.functions@[i],
    ) by {
        assert(valid_function(p, w, p.functions@[i]));
        lemma_all_stay(p, w, x, p.functions@[i].ret_zeros@);
        lemma_all_stay(p, w, x, p.functions@[i].local_zeros@);
    }
    assert forall|i: int| 0 <= i < p.packages@.len() implies valid_package(
        p,
        x,
        #[trigger] p.packages@[i],
    ) by {
        assert(valid_package(p, w, p.packages@[i]));
        lemma_all_stay(p, w, x, p.packages@[i].init_funcs@);
        reveal(grows);
    }
    if x.cells == w.cells {
        lemma_all_stay(p, w, x, w.cells);
    }
    assert forall|i: int| 0 <= i < x.upvals.len() implies valid_upval(
        p,
        x,
        #[trigger] x.upvals[i],
    ) by {
        if i < w.upvals.len() && x.upvals[i] == w.upvals[i] {
            assert(valid_upval(p, w, w.upvals[i]));
            match w.upvals[i] {
                UpValueState::Closed(v) => {
                    lemma_value_stays(p, w, x, v);
                },
                UpValueState::Open(_) => {},
            }
        }
    }
    assert forall|i: int| 0 <= i < x.closures.len() implies valid_closure(
        p,
        x,
        #[trigger] x.closures[i],
    ) by {
        if i < w.closures.len() && x.closures[i] == w.closures[i] {
            assert(valid_closure(p, w, w.closures[i]));
            lemma_closure_stays(p, w, x, w.closures[i]);
        }
    }
    assert forall|i: int| 0 <= i < x.chans.len() implies valid_value(
        p,
        x,
        (#[trigger] x.chans[i]).recv_zero,
    ) by {
        if i < w.chans.len() && x.chans[i] == w.chans[i] {
            assert(valid_value(p, w, w.chans[i].recv_zero));
            lemma_value_stays(p, w, x, w.chans[i].recv_zero);
        }
    }
    assert forall|i: int| 0 <= i < x.maps.len() implies valid_entries(
        p,
        x,
        #[trigger] x.maps[i],
    ) by {
        if i < w.maps.len() && x.maps[i] == w.maps[i] {
            assert(valid_entries(p, w, w.maps[i]));
            lemma_entries_stay(p, w, x, w.maps[i]);
        }
    }
    assert forall|i: int| 0 <= i < x.stacks.len() implies valid_all(
        p,
        x,
        #[trigger] x.stacks[i],
    ) by {
        if i < w.stacks.len() && x.stacks[i] == w.stacks[i] {
            assert(valid_all(p, w, w.stacks[i]));
            lemma_all_stay(p, w, x, w.stacks[i]);
        }
    }
    if x.panic_data == w.panic_data {
        match w.panic_data {
            Some(d) => {
                lemma_value_stays(p, w, x, d.msg);
            },
            None => {},
        }
    }
}

pub proof fn lemma_closure_stays(p: &Bytecode, w: VmView, x: VmView, c: ClosureObj)
    requires
        grows(w, x),
        valid_closure(p, w, c),
    ensures
        valid_closure(p, x, c),
{
    match c {
        ClosureObj::Gos { recv: Some(v), .. } => {
            lemma_value_stays(p, w, x, v);
        },
        _ => {},
    }
    reveal(grows);
}

proof fn lemma_entries_stay(p: &Bytecode, w: VmView, x: VmView, e: Seq<(Value, Value)>)
    requires
        grows(w, x),
        valid_entries(p, w, e),
    ensures
        valid_entries(p, x, e),
{
    assert forall|i: int| 0 <= i < e.len() implies valid_value(p, x, (#[trigger] e[i]).0)
        && valid_value(p, x, e[i].1) by {
        lemma_value_stays(p, w, x, e[i].0);
        lemma_value_stays(p, w, x, e[i].1);
    }
}

/// Other cells, no fewer.
pub proof fn lemma_good_cells(p: &Bytecode, w: VmView, cells: Seq<Value>)
    requires
        good(p, w),
        w.cells.len() <= cells.len(),
        valid_all(p, w.with_cells(cells), cells),
    ensures
        good(p, w.with_cells(cells)),
        grows(w, w.with_cells(cells)),
{
    let x = w.with_cells(cells);
    lemma_added_grows(w, x);
    lemma_good_grown(p, w, x);
}

/// More cells.
pub proof fn lemma_good_more_cells(p: &Bytecode, w: VmView, vals: Seq<Value>)
    requires
        good(p, w),
        valid_all(p, w, vals),
    ensures
        good(p, w.with_cells(w.cells + vals)),
        grows(w, w.with_cells(w.cells + vals)),
{
    let x = w.with_cells(w.cells + vals);
    lemma_added_grows(w, x);
    lemma_all_stay(p, w, x, vals);
    lemma_good_parts(p, w);
    lemma_all_stay(p, w, x, w.cells);
    assert forall|i: int| 0 <= i < x.cells.len() implies valid_value(
        p,
        x,
        #[trigger] x.cells[i],
    ) by {
        if i < w.cells.len() {
            assert(x.cells[i] == w.cells[i]);
        } else {
            assert(x.cells[i] == vals[i - w.cells.len()]);
        }
    }
    lemma_good_grown(p, w, x);
}

/// What good tables hold.
pub proof fn lemma_good_parts(p: &Bytecode, w: VmView)
    requires
        good(p, w),
    ensures
        valid_all(p, w, p.consts@),
        valid_all(p, w, w.cells),
        forall|i: int|
            0 <= i < p.functions@.len() ==> valid_function(p, w, #[trigger] p.functions@[i]),
        forall|i: int|
            0 <= i < p.packages@.len() ==> valid_package(p, w, #[trigger] p.packages@[i]),
        forall|i: int| 0 <= i < w.upvals.len() ==> valid_upval(p, w, #[trigger] w.upvals[i]),
        forall|i: int|
            0 <= i < w.closures.len() ==> valid_closure(p, w, #[trigger] w.closures[i]),
        forall|i: int|
            0 <= i < w.chans.len() ==> valid_value(p, w, (#[trigger] w.chans[i]).recv_zero),
        forall|i: int| 0 <= i < w.maps.len() ==> valid_entries(p, w, #[trigger] w.maps[i]),
        forall|i: int| 0 <= i < w.stacks.len() ==> valid_all(p, w, #[trigger] w.stacks[i]),
{
    reveal(good);
}

/// Another stack in place of a stack.
pub proof fn lemma_good_stack(p: &Bytecode, w: VmView, stack: usize, s: Seq<Value>)
    requires
        good(p, w),
        stack < w.stacks.len(),
        valid_all(p, w, s),
    ensures
        good(p, w.with_stack(stack, s)),
        grows(w, w.with_stack(stack, s)),
{
    let x = w.with_stack(stack, s);
    lemma_added_grows(w, x);
    lemma_all_stay(p, w, x, s);
    lemma_good_grown(p, w, x);
}

/// One more captured variable.
pub proof fn lemma_good_upval(p: &Bytecode, w: VmView, u: UpValueState)
    requires
        good(p, w),
        valid_upval(p, w, u),
    ensures
        good(p, w.with_new_upval(u)),
        grows(w, w.with_new_upval(u)),
{
    let x = w.with_new_upval(u);
    lemma_added_grows(w, x);
    match u {
        UpValueState::Closed(v) => {
            lemma_value_stays(p, w, x, v);
        },
        UpValueState::Open(_) => {},
    }
    lemma_good_grown(p, w, x);
}

/// Another state of a captured variable.
pub proof fn lemma_good_set_upval(p: &Bytecode, w: VmView, id: usize, u: UpValueState)
    requires
        good(p, w),
        id < w.upvals.len(),
        valid_upval(p, w, u),
        w.upvals[id as int] is Closed ==> u is Closed,
    ensures
        good(p, (VmView { upvals: w.upvals.update(id as int, u), ..w })),
        grows(w, (VmView { upvals: w.upvals.update(id as int, u), ..w })),
{
    let x = VmView { upvals: w.upvals.update(id as int, u), ..w };
    assert(grows(w, x)) by {
        reveal(grows);
    }
    match u {
        UpValueState::Closed(v) => {
            lemma_value_stays(p, w, x, v);
        },
        UpValueState::Open(_) => {},
    }
    lemma_good_grown(p, w, x);
}

/// One more function value.
pub proof fn lemma_good_closure(p: &Bytecode, w: VmView, c: ClosureObj)
    requires
        good(p, w),
        valid_closure(p, w, c),
    ensures
        good(p, (VmView { closures: w.closures.push(c), ..w })),
        grows(w, (VmView { closures: w.closures.push(c), ..w })),
{
    let x = VmView { closures: w.closures.push(c), ..w };
    lemma_added_grows(w, x);
    lemma_closure_stays(p, w, x, c);
    lemma_good_grown(p, w, x);
}

/// One more channel.
pub proof fn lemma_good_chan(p: &Bytecode, w: VmView, c: ChannelObj)
    requires
        good(p, w),
        valid_value(p, w, c.recv_zero),
    ensures
        good(p, (VmView { chans: w.chans.push(c), ..w })),
        grows(w, (VmView { chans: w.chans.push(c), ..w })),
{
    let x = VmView { chans: w.chans.push(c), ..w };
    lemma_added_grows(w, x);
    lemma_value_stays(p, w, x, c.recv_zero);
    lemma_good_grown(p, w, x);
}

/// Other entries in a map.
pub proof fn lemma_good_map(p: &Bytecode, w: VmView, m: usize, e: Seq<(Value, Value)>)
    requires
        good(p, w),
        m < w.maps.len(),
        valid_entries(p, w, e),
    ensures
        good(p, with_map(w, m, e)),
        grows(w, with_map(w, m, e)),
{
    let x = with_map(w, m, e);
    lemma_added_grows(w, x);
    lemma_entries_stay(p, w, x, e);
    lemma_good_grown(p, w, x);
}

/// One more map.
pub proof fn lemma_good_new_map(p: &Bytecode, w: VmView)
    requires
        good(p, w),
    ensures
        good(p, with_new_map(w)),
        grows(w, with_new_map(w)),
{
    let x = with_new_map(w);
    lemma_added_grows(w, x);
    lemma_good_grown(p, w, x);
}

/// Another message left behind, and other packages ready.
pub proof fn lemma_good_other(
    p: &Bytecode,
    w: VmView,
    inited: Seq<bool>,
    panic_data: Option<PanicView>,
)
    requires
        good(p, w),
        panic_data == w.panic_data || (panic_data matches Some(d) ==> valid_value(p, w, d.msg)),
    ensures
        good(p, (VmView { inited, panic_data, ..w })),
{
    let x = VmView { panic_data, ..w };
    lemma_added_grows(w, x);
    match panic_data {
        Some(d) => {
            if panic_data != w.panic_data {
                lemma_value_stays(p, w, x, d.msg);
            }
        },
        None => {},
    }
    lemma_good_grown(p, w, x);
    reveal(good);
    let y = VmView { inited, panic_data, ..w };
    assert(forall|v: Value| valid_value(p, x, v) == valid_value(p, y, v));
}

/// One more stack.
pub proof fn lemma_good_new_stack(p: &Bytecode, w: VmView, s: Seq<Value>)
    requires
        good(p, w),
        valid_all(p, w, s),
    ensures
        good(p, (VmView { stacks: w.stacks.push(s), ..w })),
        grows(w, (VmView { stacks: w.stacks.push(s), ..w })),
{
    let x = VmView { stacks: w.stacks.push(s), ..w };
    lemma_added_grows(w, x);
    lemma_all_stay(p, w, x, s);
    lemma_good_grown(p, w, x);
}

/// What an operand leads to is valid.
pub proof fn lemma_read_valid(p: &Bytecode, w: VmView, c: Ctx, i: OpIndex)
    requires
        good(p, w),
    ensures
        w.read(c, p.consts@, i) matches Ok(v) ==> valid_value(p, w, v),
        spec_const(p.consts@, i) matches Ok(v) ==> valid_value(p, w, v),
{
    lemma_good_parts(p, w);
}

/// Whether a place can be written without a key that leads nowhere.
pub open spec fn valid_place(p: &Bytecode, w: VmView, place: Place) -> bool {
    place matches Place::Entry(_, k) ==> valid_value(p, w, k)
}

/// What a place holds is valid.
pub proof fn lemma_load_valid(p: &Bytecode, w: VmView, place: Place)
    requires
        good(p, w),
    ensures
        load(p, w, place) matches Ok(v) ==> valid_value(p, w, v),
{
    lemma_good_parts(p, w);
    match place {
        Place::Entry(m, k) => {
            lemma_get_valid(p, w, m, k);
        },
        Place::Up(id) => {
            if id < w.upvals.len() {
                assert(valid_upval(p, w, w.upvals[id as int]));
                match w.upvals[id as int] {
                    UpValueState::Open(d) => match (d.stack, offset(d.stack_base, d.index)) {
                        (Some(s), Ok(k)) => {
                            if s < w.stacks.len() {
                                assert(valid_all(p, w, w.stacks[s as int]));
                            }
                        },
                        _ => {},
                    },
                    UpValueState::Closed(_) => {},
                }
            }
        },
        Place::Slot(s, _) => {
            if s < w.stacks.len() {
                assert(valid_all(p, w, w.stacks[s as int]));
            }
        },
        Place::Cell(_) => {},
    }
}

/// What a map holds is valid.
pub proof fn lemma_get_valid(p: &Bytecode, w: VmView, m: usize, k: Value)
    requires
        good(p, w),
    ensures
        map_get(p, w, m, k) matches Ok(Some(v)) ==> valid_value(p, w, v),
{
    lemma_good_parts(p, w);
    if m < w.maps.len() {
        assert(valid_entries(p, w, w.maps[m as int]));
        lemma_find_no_panic(p, w, w.maps[m as int], k, 0);
    }
}

/// Valid values can be written anywhere.
pub proof fn lemma_store_valid(p: &Bytecode, w: VmView, place: Place, v: Value)
    requires
        good(p, w),
        valid_value(p, w, v),
        valid_place(p, w, place),
    ensures
        store(p, w, place, v) matches Ok(x) ==> good(p, x),
{
    lemma_good_parts(p, w);
    match place {
        Place::Slot(s, i) => {
            lemma_slot_valid(p, w, s, i, v);
        },
        Place::Cell(a) => {
            lemma_cell_valid(p, w, a as int, v);
        },
        Place::Entry(m, k) => {
            if m < w.maps.len() {
                let e = w.maps[m as int];
                assert(valid_entries(p, w, e));
                lemma_find_no_panic(p, w, e, k, 0);
                match find(p, w, e, k, 0) {
                    Ok(Some(i)) => {
                        lemma_good_map(p, w, m, e.update(i as int, (e[i as int].0, v)));
                    },
                    Ok(None) => {
                        lemma_good_map(p, w, m, e.push((k, v)));
                    },
                    Err(_) => {},
                }
            }
        },
        Place::Up(id) => {
            if id < w.upvals.len() {
                match w.upvals[id as int] {
                    UpValueState::Open(d) => match (d.stack, offset(d.stack_base, d.index)) {
                        (Some(s), Ok(k)) => {
                            lemma_slot_valid(p, w, s, k, v);
                        },
                        _ => {},
                    },
                    UpValueState::Closed(_) => {
                        lemma_good_set_upval(p, w, id, UpValueState::Closed(v));
                    },
                }
            }
        },
    }
}

proof fn lemma_slot_valid(p: &Bytecode, w: VmView, s: usize, i: OpIndex, v: Value)
    requires
        good(p, w),
        valid_value(p, w, v),
    ensures
        w.with_slot(s, i, v) matches Ok(x) ==> good(p, x),
{
    lemma_good_parts(p, w);
    if s < w.stacks.len() && 0 <= i < w.stacks[s as int].len() {
        assert(valid_all(p, w, w.stacks[s as int]));
        lemma_good_stack(p, w, s, w.stacks[s as int].update(i as int, v));
    }
}

pub proof fn lemma_cell_valid(p: &Bytecode, w: VmView, a: int, v: Value)
    requires
        good(p, w),
        valid_value(p, w, v),
    ensures
        w.with_cell(a, v) matches Ok(x) ==> good(p, x),
{
    lemma_good_parts(p, w);
    if 0 <= a < w.cells.len() {
        let cells = w.cells.update(a, v);
        let x = w.with_cells(cells);
        lemma_added_grows(w, x);
        lemma_all_stay(p, w, x, w.cells);
        lemma_value_stays(p, w, x, v);
        lemma_good_cells(p, w, cells);
    }
}

/// A valid value can be written to a slot.
pub proof fn lemma_write_valid(p: &Bytecode, w: VmView, c: Ctx, d: OpIndex, v: Value)
    requires
        good(p, w),
        valid_value(p, w, v),
    ensures
        w.write(c, d, v) matches Ok(x) ==> good(p, x),
{
    match offset(c.sb, d) {
        Ok(k) => {
            lemma_slot_valid(p, w, c.stack, k, v);
        },
        Err(_) => {},
    }
}

/// Valid values can be written behind each other.
pub proof fn lemma_vec_valid(p: &Bytecode, w: VmView, s: usize, begin: OpIndex, vals: Seq<Value>)
    requires
        good(p, w),
        valid_all(p, w, vals),
    ensures
        w.with_vec(s, begin, vals) matches Ok(x) ==> good(p, x) && grows(w, x),
        w.with_min_size(s, begin) matches Ok(x) ==> good(p, x) && grows(w, x),
{
    lemma_good_parts(p, w);
    if s < w.stacks.len() && 0 <= begin {
        assert(valid_all(p, w, w.stacks[s as int]));
        lemma_good_stack(p, w, s, overlay(w.stacks[s as int], begin as int, vals));
        lemma_good_stack(p, w, s, widen(w.stacks[s as int], begin as int));
    }
}

/// What is taken from a stack is valid, and so is what is left.
pub proof fn lemma_taken_valid(p: &Bytecode, w: VmView, s: usize, begin: OpIndex, end: OpIndex)
    requires
        good(p, w),
    ensures
        w.taken(s, begin, end) matches Ok((x, vals)) ==> good(p, x) && grows(w, x) && valid_all(
            p,
            x,
            vals,
        ),
{
    lemma_good_parts(p, w);
    if s < w.stacks.len() && 0 <= begin <= end <= w.stacks[s as int].len() {
        let st = w.stacks[s as int];
        assert(valid_all(p, w, st));
        lemma_good_stack(p, w, s, vacate(st, begin as int, end as int));
        let vals = st.subrange(begin as int, end as int);
        lemma_all_stay(p, w, w.with_stack(s, vacate(st, begin as int, end as int)), vals);
    }
}

/// A copy of a valid value is valid.
proof fn lemma_copy_value_valid(p: &Bytecode, w: VmView, v: Value, fuel: nat, cs: Seq<Value>, y: Value)
    requires
        good(p, w),
        valid_value(p, w, v),
        copy_value(w.cells, v, fuel) == Ok::<(Seq<Value>, Value), Trap>((cs, y)),
        cs.len() <= isize::MAX,
    ensures
        good(p, w.with_cells(cs)),
        grows(w, w.with_cells(cs)),
        valid_value(p, w.with_cells(cs), y),
    decreases fuel, 1nat,
{
    match v {
        Value::Array(r) | Value::Struct(r) => {
            lemma_good_parts(p, w);
            let src = region_seq(w.cells, r)->Ok_0;
            let (ds, vals) = copy_rest(w.cells, src, 0, seq![], (fuel - 1) as nat)->Ok_0;
            assert(ds.len() <= cs.len());
            lemma_copy_rest_valid(p, w, src, 0, seq![], (fuel - 1) as nat, ds, vals);
            let x = w.with_cells(ds);
            lemma_good_more_cells(p, x, vals);
            assert(x.with_cells(x.cells + vals) == w.with_cells(cs));
            lemma_grows_trans(w, x, w.with_cells(cs));
        },
        _ => {
            assert(w.with_cells(cs) == w);
            lemma_grows_self(w);
        },
    }
}

proof fn lemma_copy_rest_valid(
    p: &Bytecode,
    w: VmView,
    src: Seq<Value>,
    i: nat,
    out: Seq<Value>,
    fuel: nat,
    cs: Seq<Value>,
    vals: Seq<Value>,
)
    requires
        good(p, w),
        valid_all(p, w, src),
        valid_all(p, w, out),
        i <= src.len(),
        copy_rest(w.cells, src, i, out, fuel) == Ok::<(Seq<Value>, Seq<Value>), Trap>((cs, vals)),
        cs.len() <= isize::MAX,
    ensures
        good(p, w.with_cells(cs)),
        grows(w, w.with_cells(cs)),
        valid_all(p, w.with_cells(cs), vals),
    decreases fuel, 2 + src.len() - i,
{
    if i < src.len() {
        let (ds, y) = copy_value(w.cells, src[i as int], fuel)->Ok_0;
        lemma_copy_rest_shape(ds, src, i + 1, out.push(y), fuel);
        lemma_copy_value_valid(p, w, src[i as int], fuel, ds, y);
        let x = w.with_cells(ds);
        lemma_all_stay(p, w, x, src);
        lemma_all_stay(p, w, x, out);
        lemma_copy_rest_valid(p, x, src, i + 1, out.push(y), fuel, cs, vals);
        assert(x.with_cells(cs) == w.with_cells(cs));
        lemma_grows_trans(w, x, w.with_cells(cs));
    } else {
        assert(w.with_cells(cs) == w);
        lemma_grows_self(w);
    }
}

/// Whether new tables and a new value are valid.
pub open spec fn sound(p: &Bytecode, r: Result<(VmView, Value), Trap>) -> bool {
    match r {
        Ok((x, v)) => fits(x) ==> good(p, x) && valid_value(p, x, v),
        Err(_) => true,
    }
}

pub proof fn lemma_copy_valid(p: &Bytecode, w: VmView, v: Value)
    requires
        good(p, w),
        valid_value(p, w, v),
    ensures
        sound(p, copy_semantic(w, v)),
{
    match copy_semantic(w, v) {
        Ok((x, y)) => {
            if fits(x) {
                lemma_copy_value_valid(p, w, v, depth(w.cells), x.cells, y);
            }
        },
        Err(_) => {},
    }
}

pub proof fn lemma_copy_all_valid(p: &Bytecode, w: VmView, src: Seq<Value>)
    requires
        good(p, w),
        valid_all(p, w, src),
    ensures
        copy_all(w, src) matches Ok((x, vals)) ==> fits(x) ==> good(p, x) && valid_all(p, x, vals),
{
    match copy_all(w, src) {
        Ok((x, vals)) => {
            if fits(x) {
                lemma_copy_rest_valid(p, w, src, 0, seq![], depth(w.cells), x.cells, vals);
            }
        },
        Err(_) => {},
    }
}

/// A zero value is valid.
proof fn lemma_zero_cells_valid(p: &Bytecode, w: VmView, m: Meta, fuel: nat, cs: Seq<Value>, y: Value)
    requires
        good(p, w),
        zero(p, w.cells, m, fuel) == Ok::<(Seq<Value>, Value), Trap>((cs, y)),
        cs.len() <= isize::MAX,
    ensures
        good(p, w.with_cells(cs)),
        grows(w, w.with_cells(cs)),
        valid_value(p, w.with_cells(cs), y),
    decreases fuel, 0nat,
{
    lemma_grows_self(w);
    if m.ptr_depth > 0 {
        assert(w.with_cells(cs) == w);
    } else {
        match p.metas@[m.key as int] {
            MetadataType::Array(e, n) => {
                lemma_zero_region_valid(
                    p,
                    w,
                    Seq::new(n as nat, |i: int| e),
                    (fuel - 1) as nat,
                    cs,
                );
            },
            MetadataType::Struct(f) => {
                lemma_zero_region_valid(p, w, field_metas(f@), (fuel - 1) as nat, cs);
            },
            MetadataType::Named(u) => {
                lemma_zero_cells_valid(p, w, u, (fuel - 1) as nat, cs, y);
            },
            _ => {
                assert(w.with_cells(cs) == w);
            },
        }
    }
}

proof fn lemma_zero_region_valid(p: &Bytecode, w: VmView, metas: Seq<Meta>, fuel: nat, cs: Seq<Value>)
    requires
        good(p, w),
        zero_rest(p, w.cells, metas, 0, seq![], fuel) matches Ok((ds, vals)) && cs == ds + vals,
        cs.len() <= isize::MAX,
    ensures
        good(p, w.with_cells(cs)),
        grows(w, w.with_cells(cs)),
        zero_rest(p, w.cells, metas, 0, seq![], fuel) matches Ok((ds, vals)) && valid_region(
            w.with_cells(cs),
            next_region(ds, vals.len()),
        ),
    decreases fuel, 2 + metas.len(),
{
    let (ds, vals) = zero_rest(p, w.cells, metas, 0, seq![], fuel)->Ok_0;
    lemma_zero_rest_valid(p, w, metas, 0, seq![], fuel, ds, vals);
    let x = w.with_cells(ds);
    lemma_good_more_cells(p, x, vals);
    assert(x.with_cells(x.cells + vals) == w.with_cells(cs));
    lemma_grows_trans(w, x, w.with_cells(cs));
}

proof fn lemma_zero_rest_valid(
    p: &Bytecode,
    w: VmView,
    metas: Seq<Meta>,
    i: nat,
    out: Seq<Value>,
    fuel: nat,
    cs: Seq<Value>,
    vals: Seq<Value>,
)
    requires
        good(p, w),
        valid_all(p, w, out),
        zero_rest(p, w.cells, metas, i, out, fuel) == Ok::<(Seq<Value>, Seq<Value>), Trap>(
            (cs, vals),
        ),
        cs.len() <= isize::MAX,
    ensures
        good(p, w.with_cells(cs)),
        grows(w, w.with_cells(cs)),
        valid_all(p, w.with_cells(cs), vals),
    decreases fuel, 1 + metas.len() - i,
{
    if i < metas.len() {
        let (ds, y) = zero(p, w.cells, metas[i as int], fuel)->Ok_0;
        lemma_zero_rest_longer(p, ds, metas, i + 1, out.push(y), fuel);
        lemma_zero_cells_valid(p, w, metas[i as int], fuel, ds, y);
        let x = w.with_cells(ds);
        lemma_all_stay(p, w, x, out);
        lemma_zero_rest_valid(p, x, metas, i + 1, out.push(y), fuel, cs, vals);
        assert(x.with_cells(cs) == w.with_cells(cs));
        lemma_grows_trans(w, x, w.with_cells(cs));
    } else {
        assert(w.with_cells(cs) == w);
        lemma_grows_self(w);
    }
}

pub proof fn lemma_zero_valid(p: &Bytecode, w: VmView, m: Meta)
    requires
        good(p, w),
    ensures
        sound(p, zero_value(p, w, m)),
{
    match zero_value(p, w, m) {
        Ok((x, y)) => {
            if fits(x) {
                lemma_zero_cells_valid(p, w, m, meta_depth(p), x.cells, y);
            }
        },
        Err(_) => {},
    }
}

} // verus!

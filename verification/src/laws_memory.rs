//! What holds of places, copies and captured variables.
use vstd::prelude::*;
use crate::bytecode::{Bytecode, Instruction};
use crate::content::{
    copy_region, copy_rest, copy_semantic, copy_value, depth, lemma_copy_rest_shape,
    lemma_copy_shape, values_equal,
};
use crate::dict::find;
use crate::effect::result_place;
use crate::frame::{close_all, close_slots, Referred};
use crate::machine::{next_region, offset, Ctx, UpValueState, VmView};
use crate::ops_place::ref_value;
use crate::place::{load, pointee, store, Place};
use crate::trap::Trap;
use crate::value::{OpIndex, Region, Value};

verus! {

/// Looking for a key gives the first entry that is equal to it.
pub proof fn lemma_find_first(
    p: &Bytecode,
    w: VmView,
    entries: Seq<(Value, Value)>,
    key: Value,
    i: nat,
    k: nat,
)
    requires
        i <= k < entries.len(),
        forall|j: int|
            i <= j < k ==> #[trigger] values_equal(p, w, entries[j].0, key) == Ok::<bool, Trap>(
                false,
            ),
        values_equal(p, w, entries[k as int].0, key) == Ok::<bool, Trap>(true),
    ensures
        find(p, w, entries, key, i) == Ok::<Option<nat>, Trap>(Some(k)),
    decreases k - i,
{
    if i < k {
        assert(values_equal(p, w, entries[i as int].0, key) == Ok::<bool, Trap>(false));
        lemma_find_first(p, w, entries, key, i + 1, k);
    }
}

/// What the answer to a search says of the entries.
pub proof fn lemma_find_means(
    p: &Bytecode,
    w: VmView,
    entries: Seq<(Value, Value)>,
    key: Value,
    i: nat,
)
    ensures
        match find(p, w, entries, key, i) {
            Ok(Some(k)) => {
                &&& i <= k < entries.len()
                &&& values_equal(p, w, entries[k as int].0, key) == Ok::<bool, Trap>(true)
                &&& forall|j: int|
                    i <= j < k ==> #[trigger] values_equal(p, w, entries[j].0, key) == Ok::<
                        bool,
                        Trap,
                    >(false)
            },
            Ok(None) => forall|j: int|
                i <= j < entries.len() ==> #[trigger] values_equal(p, w, entries[j].0, key) == Ok::<
                    bool,
                    Trap,
                >(false),
            Err(_) => true,
        },
    decreases entries.len() - i,
{
    if i < entries.len() {
        match values_equal(p, w, entries[i as int].0, key) {
            Ok(false) => {
                lemma_find_means(p, w, entries, key, i + 1);
            },
            _ => {},
        }
    }
}

/// Searches depend on the cells and the entries alone.
proof fn lemma_find_same(
    p: &Bytecode,
    w: VmView,
    x: VmView,
    entries: Seq<(Value, Value)>,
    key: Value,
    i: nat,
)
    requires
        w.cells == x.cells,
    ensures
        find(p, w, entries, key, i) == find(p, x, entries, key, i),
    decreases entries.len() - i,
{
    if i < entries.len() {
        lemma_find_same(p, w, x, entries, key, i + 1);
    }
}

/// What is stored in a place is what the place then holds. A key that is not
/// equal to itself has no entry that could be found again.
pub proof fn law_store_then_load(p: &Bytecode, w: VmView, place: Place, v: Value)
    requires
        place matches Place::Entry(_, k) ==> values_equal(p, w, k, k) == Ok::<bool, Trap>(true),
    ensures
        store(p, w, place, v) matches Ok(w1) ==> load(p, w1, place) == Ok::<Value, Trap>(v),
{
    match place {
        Place::Entry(m, k) => {
            if m < w.maps.len() {
                let entries = w.maps[m as int];
                lemma_find_means(p, w, entries, k, 0);
                match store(p, w, place, v) {
                    Ok(w1) => {
                        let after = w1.maps[m as int];
                        let at: nat = match find(p, w, entries, k, 0) {
                            Ok(Some(i)) => i,
                            _ => entries.len(),
                        };
                        assert forall|j: int| 0 <= j < at implies #[trigger] values_equal(
                            p,
                            w1,
                            after[j].0,
                            k,
                        ) == Ok::<bool, Trap>(false) by {
                            assert(after[j].0 == entries[j].0);
                            assert(values_equal(p, w, entries[j].0, k) == Ok::<bool, Trap>(false));
                        }
                        lemma_find_first(p, w1, after, k, 0, at);
                    },
                    Err(_) => {},
                }
            }
        },
        _ => {},
    }
}

/// Where a place really is: a captured variable that still lies in a frame is
/// the slot that it lies in.
pub open spec fn root(w: VmView, place: Place) -> Place {
    match place {
        Place::Up(id) => if id < w.upvals.len() {
            match w.upvals[id as int] {
                UpValueState::Open(d) => match (d.stack, offset(d.stack_base, d.index)) {
                    (Some(s), Ok(k)) => Place::Slot(s, k),
                    _ => place,
                },
                UpValueState::Closed(_) => place,
            }
        } else {
            place
        },
        _ => place,
    }
}

/// Whether nothing that is stored in one place can be seen in another. Keys can
/// be made of cells, and entries of one map can be for equal keys.
pub open spec fn separate(w: VmView, a: Place, b: Place) -> bool {
    match (root(w, a), root(w, b)) {
        (Place::Cell(_), Place::Entry(_, _)) => false,
        (Place::Entry(m, _), Place::Entry(n, _)) => m != n,
        (x, y) => x != y,
    }
}

/// What is stored in one place is not seen in others.
pub proof fn law_store_elsewhere(p: &Bytecode, w: VmView, a: Place, b: Place, v: Value)
    requires
        separate(w, a, b),
    ensures
        store(p, w, a, v) matches Ok(w1) ==> load(p, w1, b) == load(p, w, b),
{
    match store(p, w, a, v) {
        Ok(w1) => {
            match b {
                Place::Entry(m, k) => {
                    if m < w.maps.len() {
                        lemma_find_same(p, w, w1, w.maps[m as int], k, 0);
                    }
                },
                _ => {},
            }
        },
        Err(_) => {},
    }
}

/// While a captured variable lies in a frame, it and the slot are one and the
/// same: what is stored in one is what the other holds.
pub proof fn law_open_variable_is_its_slot(p: &Bytecode, w: VmView, id: usize, v: Value)
    requires
        root(w, Place::Up(id)) is Slot,
    ensures
        load(p, w, Place::Up(id)) == load(p, w, root(w, Place::Up(id))),
        store(p, w, Place::Up(id), v) == store(p, w, root(w, Place::Up(id)), v),
{
}

/// A reference to a value leads to a variable that holds the value.
pub proof fn law_reference_leads_to_value(p: &Bytecode, w: VmView, c: Ctx, inst: Instruction)
    requires
        w.upvals.len() < usize::MAX,
    ensures
        ref_value(p, w, c, inst) matches Ok((w1, _)) ==> {
            &&& result_place(c, inst.d) matches Ok(pl)
            &&& load(p, w1, pl) matches Ok(Value::Pointer(ptr))
            &&& pointee(p, ptr) matches Ok(var)
            &&& load(p, w1, var) == w.read(c, p.consts@, inst.s0)
        },
{
}

/// Element `i` of a region.
pub open spec fn element(cells: Seq<Value>, r: Region, i: int) -> Value {
    cells[r.base + i]
}

/// Whether two values look the same and, where they are arrays or structs, are
/// made of different cells all the way down. Those of the second lie behind
/// `from`.
pub open spec fn mirrors(cells: Seq<Value>, a: Value, b: Value, from: int, fuel: nat) -> bool
    decreases fuel, 1nat,
{
    match (a, b) {
        (Value::Array(x), Value::Array(y)) => region_mirrors(cells, x, y, from, fuel),
        (Value::Struct(x), Value::Struct(y)) => region_mirrors(cells, x, y, from, fuel),
        _ => a == b && !(a is Array) && !(a is Struct),
    }
}

/// Whether the elements of two regions look the same and are made of different
/// cells.
pub open spec fn region_mirrors(cells: Seq<Value>, x: Region, y: Region, from: int, fuel: nat) -> bool
    decreases fuel, 0nat,
{
    &&& fuel > 0
    &&& x.len == y.len
    &&& x.base + x.len <= cells.len()
    &&& from <= y.base
    &&& y.base + y.len <= cells.len()
    &&& forall|i: int|
        0 <= i < x.len ==> mirrors(
            cells,
            #[trigger] element(cells, x, i),
            element(cells, y, i),
            from,
            (fuel - 1) as nat,
        )
}

proof fn lemma_mirrors_grow(
    cells: Seq<Value>,
    more: Seq<Value>,
    a: Value,
    b: Value,
    from: int,
    low: int,
    fuel: nat,
)
    requires
        cells.len() <= more.len(),
        more.subrange(0, cells.len() as int) == cells,
        low <= from,
        mirrors(cells, a, b, from, fuel),
    ensures
        mirrors(more, a, b, low, fuel),
    decreases fuel, 1nat,
{
    match (a, b) {
        (Value::Array(x), Value::Array(y)) => {
            lemma_regions_grow(cells, more, x, y, from, low, fuel);
        },
        (Value::Struct(x), Value::Struct(y)) => {
            lemma_regions_grow(cells, more, x, y, from, low, fuel);
        },
        _ => {},
    }
}

proof fn lemma_regions_grow(
    cells: Seq<Value>,
    more: Seq<Value>,
    x: Region,
    y: Region,
    from: int,
    low: int,
    fuel: nat,
)
    requires
        cells.len() <= more.len(),
        more.subrange(0, cells.len() as int) == cells,
        low <= from,
        region_mirrors(cells, x, y, from, fuel),
    ensures
        region_mirrors(more, x, y, low, fuel),
    decreases fuel, 0nat,
{
    assert forall|i: int| 0 <= i < x.len implies mirrors(
        more,
        #[trigger] element(more, x, i),
        element(more, y, i),
        low,
        (fuel - 1) as nat,
    ) by {
        let same = more.subrange(0, cells.len() as int);
        assert(element(more, x, i) == element(same, x, i));
        assert(element(more, y, i) == element(same, y, i));
        assert(mirrors(
            cells,
            element(cells, x, i),
            element(cells, y, i),
            from,
            (fuel - 1) as nat,
        ));
        lemma_mirrors_grow(
            cells,
            more,
            element(cells, x, i),
            element(cells, y, i),
            from,
            low,
            (fuel - 1) as nat,
        );
    }
}

proof fn lemma_copy_mirrors(cells: Seq<Value>, v: Value, fuel: nat)
    ensures
        copy_value(cells, v, fuel) matches Ok((cs, x)) ==> cs.len() <= usize::MAX ==> mirrors(
            cs,
            v,
            x,
            cells.len() as int,
            fuel,
        ),
    decreases fuel, 1nat,
{
    match v {
        Value::Array(r) => {
            lemma_region_mirrors(cells, r, fuel);
        },
        Value::Struct(r) => {
            lemma_region_mirrors(cells, r, fuel);
        },
        _ => {},
    }
}

proof fn lemma_region_mirrors(cells: Seq<Value>, r: Region, fuel: nat)
    ensures
        copy_region(cells, r, fuel) matches Ok((cs, n)) ==> cs.len() <= usize::MAX
            ==> region_mirrors(cs, r, n, cells.len() as int, fuel),
    decreases fuel, 0nat,
{
    if fuel > 0 && r.base + r.len <= cells.len() {
        let src = cells.subrange(r.base as int, r.base + r.len);
        lemma_copy_rest_shape(cells, src, 0, seq![], (fuel - 1) as nat);
        lemma_rest_mirrors(cells, cells, src, 0, seq![], (fuel - 1) as nat);
        match copy_rest(cells, src, 0, seq![], (fuel - 1) as nat) {
            Ok((cs, vals)) => {
                let all = cs + vals;
                if all.len() <= usize::MAX {
                    let n = next_region(cs, vals.len());
                    assert(all.subrange(0, cs.len() as int) =~= cs);
                    assert forall|i: int| 0 <= i < r.len implies mirrors(
                        all,
                        #[trigger] element(all, r, i),
                        element(all, n, i),
                        cells.len() as int,
                        (fuel - 1) as nat,
                    ) by {
                        let same = cs.subrange(0, cells.len() as int);
                        assert(element(all, r, i) == element(same, r, i));
                        assert(element(all, r, i) == src[i]);
                        assert(element(all, n, i) == vals[i]);
                        assert(mirrors(
                            cs,
                            src[i],
                            vals[i],
                            cells.len() as int,
                            (fuel - 1) as nat,
                        ));
                        lemma_mirrors_grow(
                            cs,
                            all,
                            src[i],
                            vals[i],
                            cells.len() as int,
                            cells.len() as int,
                            (fuel - 1) as nat,
                        );
                    }
                }
            },
            Err(_) => {},
        }
    }
}

/// Copies of several values are like them.
pub proof fn lemma_rest_mirrors(
    start: Seq<Value>,
    cells: Seq<Value>,
    src: Seq<Value>,
    i: nat,
    out: Seq<Value>,
    fuel: nat,
)
    requires
        i <= src.len(),
        out.len() == i,
        start.len() <= cells.len(),
        forall|j: int|
            0 <= j < i && cells.len() <= usize::MAX ==> mirrors(
                cells,
                #[trigger] src[j],
                out[j],
                start.len() as int,
                fuel,
            ),
    ensures
        copy_rest(cells, src, i, out, fuel) matches Ok((cs, vals)) ==> cs.len() <= usize::MAX
            ==> forall|j: int|
            0 <= j < src.len() ==> mirrors(
                cs,
                #[trigger] src[j],
                vals[j],
                start.len() as int,
                fuel,
            ),
    decreases fuel, 2 + src.len() - i,
{
    if i < src.len() {
        lemma_copy_shape(cells, src[i as int], fuel);
        lemma_copy_mirrors(cells, src[i as int], fuel);
        match copy_value(cells, src[i as int], fuel) {
            Ok((cs, v)) => {
                let next = out.push(v);
                assert forall|j: int| 0 <= j < i + 1 && cs.len() <= usize::MAX implies mirrors(
                    cs,
                    #[trigger] src[j],
                    next[j],
                    start.len() as int,
                    fuel,
                ) by {
                    if j < i {
                        assert(next[j] == out[j]);
                        lemma_mirrors_grow(
                            cells,
                            cs,
                            src[j],
                            out[j],
                            start.len() as int,
                            start.len() as int,
                            fuel,
                        );
                    } else {
                        assert(cs.subrange(0, cs.len() as int) =~= cs);
                        lemma_mirrors_grow(
                            cs,
                            cs,
                            src[j],
                            v,
                            cells.len() as int,
                            start.len() as int,
                            fuel,
                        );
                    }
                }
                lemma_rest_mirrors(start, cs, src, i + 1, next, fuel);
            },
            Err(_) => {},
        }
    }
}

/// An assignment copies: the copy looks like the value, its arrays and structs
/// are made of new cells all the way down, and the cells that were there stay as
/// they are. So what is later stored in one is not seen in the other.
pub proof fn law_copy_is_separate(w: VmView, v: Value)
    ensures
        copy_semantic(w, v) matches Ok((w1, x)) ==> {
            &&& w.cells.len() <= w1.cells.len()
            &&& w1.cells.subrange(0, w.cells.len() as int) == w.cells
            &&& w1 == w.with_cells(w1.cells)
            &&& w1.cells.len() <= usize::MAX ==> mirrors(
                w1.cells,
                v,
                x,
                w.cells.len() as int,
                depth(w.cells),
            )
        },
{
    lemma_copy_shape(w.cells, v, depth(w.cells));
    lemma_copy_mirrors(w.cells, v, depth(w.cells));
}

/// Whether a frame's notes are right: every captured variable that is noted for
/// a slot lies in that slot, or has a life of its own already.
pub open spec fn notes_right(w: VmView, stack: usize, base: OpIndex, refs: Referred) -> bool {
    forall|i: int, j: int|
        #![trigger refs[i].1.weaks[j]]
        0 <= i < refs.len() && 0 <= j < refs[i].1.weaks.len() ==> noted(
            w,
            stack,
            base,
            refs[i].0,
            refs[i].1.weaks[j],
        )
}

/// Whether a captured variable lies in a slot, or has a life of its own already
/// and holds what the slot holds.
pub open spec fn noted(w: VmView, stack: usize, base: OpIndex, index: OpIndex, id: usize) -> bool {
    &&& id < w.upvals.len()
    &&& match w.upvals[id as int] {
        UpValueState::Open(d) => d.stack == Some(stack) && d.stack_base == base && d.index == index,
        UpValueState::Closed(v) => offset(base, index) matches Ok(k) && w.slot(stack, k) == Ok::<
            Value,
            Trap,
        >(v),
    }
}

proof fn lemma_close_all(
    w: VmView,
    stack: usize,
    base: OpIndex,
    index: OpIndex,
    weaks: Seq<usize>,
    i: nat,
    val: Value,
)
    requires
        i <= weaks.len(),
        offset(base, index) matches Ok(k) && w.slot(stack, k) == Ok::<Value, Trap>(val),
        forall|j: int|
            0 <= j < weaks.len() ==> noted(w, stack, base, index, #[trigger] weaks[j]),
    ensures
        close_all(w, weaks, i, val) matches Ok(w1) ==> {
            &&& w1 == (VmView { upvals: w1.upvals, ..w })
            &&& w1.upvals.len() == w.upvals.len()
            &&& forall|id: usize|
                id < w.upvals.len() ==> #[trigger] w1.upvalue(id) == w.upvalue(id)
            &&& forall|id: int|
                0 <= id < w.upvals.len() ==> #[trigger] w1.upvals[id] == w.upvals[id]
                    || w1.upvals[id] == UpValueState::Closed(val)
            &&& forall|j: int|
                i <= j < weaks.len() ==> w1.upvals[#[trigger] weaks[j] as int]
                    == UpValueState::Closed(val)
            &&& forall|id: usize|
                id < w.upvals.len() && w.upvals[id as int] is Closed ==> #[trigger] w1.upvals[id as int]
                    is Closed
        },
    decreases weaks.len() - i,
{
    if i < weaks.len() {
        let id = weaks[i as int];
        assert(noted(w, stack, base, index, id));
        let w1 = VmView { upvals: w.upvals.update(id as int, UpValueState::Closed(val)), ..w };
        assert forall|x: usize| x < w.upvals.len() implies #[trigger] w1.upvalue(x) == w.upvalue(
            x,
        ) by {}
        assert forall|j: int| 0 <= j < weaks.len() implies noted(
            w1,
            stack,
            base,
            index,
            #[trigger] weaks[j],
        ) by {
            assert(noted(w, stack, base, index, weaks[j]));
        }
        lemma_close_all(w1, stack, base, index, weaks, i + 1, val);
        match close_all(w1, weaks, i + 1, val) {
            Ok(w2) => {
                assert forall|x: usize| x < w.upvals.len() implies #[trigger] w2.upvalue(x)
                    == w.upvalue(x) by {
                    assert(w2.upvalue(x) == w1.upvalue(x));
                    assert(w1.upvalue(x) == w.upvalue(x));
                }
                assert(w2.upvals[id as int] == w1.upvals[id as int] || w2.upvals[id as int]
                    == UpValueState::Closed(val));
            },
            Err(_) => {},
        }
    }
}

proof fn lemma_close_slots(w: VmView, stack: usize, base: OpIndex, refs: Referred, i: nat)
    requires
        i <= refs.len(),
        notes_right(w, stack, base, refs),
    ensures
        close_slots(w, stack, base, refs, i) matches Ok(w1) ==> {
            &&& w1 == (VmView { upvals: w1.upvals, ..w })
            &&& w1.upvals.len() == w.upvals.len()
            &&& forall|id: usize|
                id < w.upvals.len() ==> #[trigger] w1.upvalue(id) == w.upvalue(id)
            &&& forall|id: usize|
                id < w.upvals.len() && w.upvals[id as int] is Closed ==> #[trigger] w1.upvals[id as int]
                    is Closed
            &&& forall|k: int, j: int|
                #![trigger refs[k].1.weaks[j]]
                i <= k < refs.len() && 0 <= j < refs[k].1.weaks.len()
                    ==> w1.upvals[refs[k].1.weaks[j] as int] is Closed
        },
    decreases refs.len() - i,
{
    if i < refs.len() {
        let weaks = refs[i as int].1.weaks;
        let index = refs[i as int].0;
        if weaks.len() == 0 {
            lemma_close_slots(w, stack, base, refs, i + 1);
        } else {
            match offset(base, index) {
                Ok(k) => match w.slot(stack, k) {
                    Ok(val) => {
                        assert forall|j: int| 0 <= j < weaks.len() implies noted(
                            w,
                            stack,
                            base,
                            index,
                            #[trigger] weaks[j],
                        ) by {
                            assert(weaks[j] == refs[i as int].1.weaks[j]);
                        }
                        lemma_close_all(w, stack, base, index, weaks, 0, val);
                        match close_all(w, weaks, 0, val) {
                            Ok(w1) => {
                                assert forall|a: int, j: int|
                                    #![trigger refs[a].1.weaks[j]]
                                    0 <= a < refs.len() && 0 <= j < refs[a].1.weaks.len() implies noted(
                                    w1,
                                    stack,
                                    base,
                                    refs[a].0,
                                    refs[a].1.weaks[j],
                                ) by {
                                    let id = refs[a].1.weaks[j];
                                    assert(noted(w, stack, base, refs[a].0, id));
                                    assert(w1.upvalue(id) == w.upvalue(id));
                                }
                                lemma_close_slots(w1, stack, base, refs, i + 1);
                                match close_slots(w1, stack, base, refs, i + 1) {
                                    Ok(w2) => {
                                        assert forall|id: usize| id < w.upvals.len() implies #[trigger] w2.upvalue(
                                        id) == w.upvalue(id) by {
                                            assert(w2.upvalue(id) == w1.upvalue(id));
                                            assert(w1.upvalue(id) == w.upvalue(id));
                                        }
                                        assert forall|a: int, j: int|
                                            #![trigger refs[a].1.weaks[j]]
                                            i <= a < refs.len() && 0 <= j
                                                < refs[a].1.weaks.len() implies w2.upvals[refs[a].1.weaks[j] as int]
                                            is Closed by {
                                            let id = refs[a].1.weaks[j];
                                            assert(noted(w, stack, base, refs[a].0, id));
                                            if a == i {
                                                assert(id == weaks[j]);
                                                assert(w1.upvals[id as int] is Closed);
                                                assert(w2.upvals[id as int] is Closed);
                                            }
                                        }
                                    },
                                    Err(_) => {},
                                }
                            },
                            Err(_) => {},
                        }
                    },
                    Err(_) => {},
                },
                Err(_) => {},
            }
        }
    }
}

/// When a function returns, the variables that were captured in its frame get a
/// life of their own and keep what they hold. All other variables hold what they
/// held.
pub proof fn law_return_keeps_captured(w: VmView, stack: usize, base: OpIndex, refs: Referred)
    requires
        notes_right(w, stack, base, refs),
    ensures
        close_slots(w, stack, base, refs, 0) matches Ok(w1) ==> {
            &&& w1 == (VmView { upvals: w1.upvals, ..w })
            &&& w1.upvals.len() == w.upvals.len()
            &&& forall|id: usize|
                id < w.upvals.len() ==> #[trigger] w1.upvalue(id) == w.upvalue(id)
            &&& forall|k: int, j: int|
                #![trigger refs[k].1.weaks[j]]
                0 <= k < refs.len() && 0 <= j < refs[k].1.weaks.len()
                    ==> w1.upvals[refs[k].1.weaks[j] as int] is Closed
        },
{
    lemma_close_slots(w, stack, base, refs, 0);
}

} // verus!

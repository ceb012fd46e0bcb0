//! What values are made of: copies of aggregates, equality, and strings.
use vstd::prelude::*;
use vstd::utf8::encode_utf8;
use crate::bytecode::Bytecode;
use crate::machine::{agrees, next_region, region_seq, Vm, VmView};
use crate::num::{word_equal, words_equal};
use crate::trap::Trap;
use crate::value::{byte_of, IntKind, InterfaceObj, Meta, Region, SliceRef, Value};

verus! {

/// How deep aggregates can be nested: every level but the last takes a cell.
pub open spec fn depth(cells: Seq<Value>) -> nat {
    cells.len() + 1
}

/// A copy of a region, element by element, and the cells with the new ones
/// added.
pub open spec fn copy_region(cells: Seq<Value>, r: Region, fuel: nat) -> Result<
    (Seq<Value>, Region),
    Trap,
>
    decreases fuel, 0nat,
{
    if fuel == 0 {
        Err(Trap::Fault)
    } else {
        match region_seq(cells, r) {
            Ok(src) => match copy_rest(cells, src, 0, seq![], (fuel - 1) as nat) {
                Ok((cs, vals)) => Ok((cs + vals, next_region(cs, vals.len()))),
                Err(e) => Err(e),
            },
            Err(e) => Err(e),
        }
    }
}

/// A copy of a value, in which arrays and structs are new all the way down,
/// and the cells with the new ones added. Nothing else is copied.
pub open spec fn copy_value(cells: Seq<Value>, v: Value, fuel: nat) -> Result<
    (Seq<Value>, Value),
    Trap,
>
    decreases fuel, 1nat,
{
    match v {
        Value::Array(r) => match copy_region(cells, r, fuel) {
            Ok((cs, n)) => Ok((cs, Value::Array(n))),
            Err(e) => Err(e),
        },
        Value::Struct(r) => match copy_region(cells, r, fuel) {
            Ok((cs, n)) => Ok((cs, Value::Struct(n))),
            Err(e) => Err(e),
        },
        _ => Ok((cells, v)),
    }
}

/// Copies of the elements of `src` from `i` on, after those in `out`.
pub open spec fn copy_rest(
    cells: Seq<Value>,
    src: Seq<Value>,
    i: nat,
    out: Seq<Value>,
    fuel: nat,
) -> Result<(Seq<Value>, Seq<Value>), Trap>
    decreases fuel, 2 + src.len() - i,
{
    if i >= src.len() {
        Ok((cells, out))
    } else {
        match copy_value(cells, src[i as int], fuel) {
            Ok((cs, v)) => copy_rest(cs, src, i + 1, out.push(v), fuel),
            Err(e) => Err(e),
        }
    }
}

/// The tables after a value was copied, and the copy.
pub open spec fn copy_semantic(w: VmView, v: Value) -> Result<(VmView, Value), Trap> {
    match copy_value(w.cells, v, depth(w.cells)) {
        Ok((cs, x)) => Ok((w.with_cells(cs), x)),
        Err(e) => Err(e),
    }
}

/// The tables after all the values were copied, and the copies.
pub open spec fn copy_all(w: VmView, src: Seq<Value>) -> Result<(VmView, Seq<Value>), Trap> {
    match copy_rest(w.cells, src, 0, seq![], depth(w.cells)) {
        Ok((cs, out)) => Ok((w.with_cells(cs), out)),
        Err(e) => Err(e),
    }
}

impl Vm {
    fn copy_region(&mut self, r: Region, fuel: u128) -> (res: Result<Region, Trap>)
        ensures
            match copy_region(old(self)@.cells, r, fuel as nat) {
                Ok((cs, n)) => res == Ok::<Region, Trap>(n) && final(self)@
                    == old(self)@.with_cells(cs),
                Err(e) => res == Err::<Region, Trap>(e),
            },
        decreases fuel, 0nat,
    {
        if fuel == 0 {
            return Err(Trap::Fault);
        }
        let src = self.get_region(r)?;
        let vals = self.copy_rest(&src, fuel - 1)?;
        Ok(self.new_cells(&vals))
    }

    fn copy_value(&mut self, v: Value, fuel: u128) -> (res: Result<Value, Trap>)
        ensures
            match copy_value(old(self)@.cells, v, fuel as nat) {
                Ok((cs, x)) => res == Ok::<Value, Trap>(x) && final(self)@
                    == old(self)@.with_cells(cs),
                Err(e) => res == Err::<Value, Trap>(e),
            },
        decreases fuel, 1nat,
    {
        match v {
            Value::Array(r) => {
                let n = self.copy_region(r, fuel)?;
                Ok(Value::Array(n))
            },
            Value::Struct(r) => {
                let n = self.copy_region(r, fuel)?;
                Ok(Value::Struct(n))
            },
            _ => Ok(v),
        }
    }

    fn copy_rest(&mut self, src: &Vec<Value>, fuel: u128) -> (res: Result<Vec<Value>, Trap>)
        ensures
            match copy_rest(old(self)@.cells, src@, 0, seq![], fuel as nat) {
                Ok((cs, out)) => res is Ok && res->Ok_0@ == out && final(self)@
                    == old(self)@.with_cells(cs),
                Err(e) => res == Err::<Vec<Value>, Trap>(e),
            },
        decreases fuel, 2 + src@.len(),
    {
        let mut out: Vec<Value> = Vec::new();
        let mut i: usize = 0;
        while i < src.len()
            invariant
                i <= src@.len(),
                self@ == old(self)@.with_cells(self@.cells),
                copy_rest(old(self)@.cells, src@, 0, seq![], fuel as nat) == copy_rest(
                    self@.cells,
                    src@,
                    i as nat,
                    out@,
                    fuel as nat,
                ),
            decreases src@.len() - i,
        {
            let v = self.copy_value(src[i], fuel)?;
            out.push(v);
            i = i + 1;
        }
        Ok(out)
    }

    /// Copies a value the way an assignment does.
    pub fn copy_semantic(&mut self, v: Value) -> (res: Result<Value, Trap>)
        ensures
            agrees(res, old(self)@, final(self)@, copy_semantic(old(self)@, v)),
    {
        let fuel: u128 = self.cells.len() as u128 + 1;
        proof {
            lemma_copy_no_panic(self@.cells, v, fuel as nat);
        }
        self.copy_value(v, fuel)
    }

    /// Copies values the way assignments do.
    pub fn copy_all(&mut self, src: &Vec<Value>) -> (res: Result<Vec<Value>, Trap>)
        ensures
            match copy_all(old(self)@, src@) {
                Ok((w, out)) => res is Ok && res->Ok_0@ == out && final(self)@ == w,
                Err(e) => res == Err::<Vec<Value>, Trap>(Trap::Fault) && e == Trap::Fault,
            },
    {
        let fuel: u128 = self.cells.len() as u128 + 1;
        proof {
            lemma_copy_rest_no_panic(self@.cells, src@, 0, seq![], fuel as nat);
        }
        self.copy_rest(src, fuel)
    }
}

/// A copy fails only where the cells are broken.
pub proof fn lemma_copy_no_panic(cells: Seq<Value>, v: Value, fuel: nat)
    ensures
        copy_value(cells, v, fuel) matches Err(e) ==> e == Trap::Fault,
    decreases fuel, 1nat,
{
    match v {
        Value::Array(r) | Value::Struct(r) => {
            if fuel > 0 {
                match region_seq(cells, r) {
                    Ok(src) => {
                        lemma_copy_rest_no_panic(cells, src, 0, seq![], (fuel - 1) as nat);
                    },
                    Err(_) => {},
                }
            }
        },
        _ => {},
    }
}

proof fn lemma_copy_rest_no_panic(
    cells: Seq<Value>,
    src: Seq<Value>,
    i: nat,
    out: Seq<Value>,
    fuel: nat,
)
    ensures
        copy_rest(cells, src, i, out, fuel) matches Err(e) ==> e == Trap::Fault,
    decreases fuel, 2 + src.len() - i,
{
    if i < src.len() {
        lemma_copy_no_panic(cells, src[i as int], fuel);
        match copy_value(cells, src[i as int], fuel) {
            Ok((cs, v)) => {
                lemma_copy_rest_no_panic(cs, src, i + 1, out.push(v), fuel);
            },
            Err(_) => {},
        }
    }
}

/// Copies are added behind the cells that were there, which stay as they are.
pub proof fn lemma_copy_shape(cells: Seq<Value>, v: Value, fuel: nat)
    ensures
        copy_value(cells, v, fuel) matches Ok((cs, _)) ==> cells.len() <= cs.len() && cs.subrange(
            0,
            cells.len() as int,
        ) == cells,
    decreases fuel, 1nat,
{
    match v {
        Value::Array(r) | Value::Struct(r) => {
            if fuel > 0 {
                match region_seq(cells, r) {
                    Ok(src) => {
                        lemma_copy_rest_shape(cells, src, 0, seq![], (fuel - 1) as nat);
                        match copy_rest(cells, src, 0, seq![], (fuel - 1) as nat) {
                            Ok((cs, vals)) => {
                                assert((cs + vals).subrange(0, cells.len() as int) =~= cs.subrange(
                                    0,
                                    cells.len() as int,
                                ));
                            },
                            Err(_) => {},
                        }
                    },
                    Err(_) => {},
                }
            }
        },
        _ => {
            assert(cells.subrange(0, cells.len() as int) =~= cells);
        },
    }
}

/// Copies of several values are as many, and are added behind the cells that
/// were there, which stay as they are.
pub proof fn lemma_copy_rest_shape(
    cells: Seq<Value>,
    src: Seq<Value>,
    i: nat,
    out: Seq<Value>,
    fuel: nat,
)
    requires
        i <= src.len(),
    ensures
        copy_rest(cells, src, i, out, fuel) matches Ok((cs, vals)) ==> cells.len() <= cs.len()
            && cs.subrange(0, cells.len() as int) == cells && vals.len() == out.len() + src.len()
            - i,
    decreases fuel, 2 + src.len() - i,
{
    if i < src.len() {
        lemma_copy_shape(cells, src[i as int], fuel);
        match copy_value(cells, src[i as int], fuel) {
            Ok((cs, v)) => {
                lemma_copy_rest_shape(cs, src, i + 1, out.push(v), fuel);
                match copy_rest(cs, src, i + 1, out.push(v), fuel) {
                    Ok((ds, _)) => {
                        assert(ds.subrange(0, cells.len() as int) =~= ds.subrange(
                            0,
                            cs.len() as int,
                        ).subrange(0, cells.len() as int));
                    },
                    Err(_) => {},
                }
            },
            Err(_) => {},
        }
    } else {
        assert(cells.subrange(0, cells.len() as int) =~= cells);
    }
}

/// The elements of a slice.
pub open spec fn slice_seq(cells: Seq<Value>, s: SliceRef) -> Result<Seq<Value>, Trap> {
    if s.begin <= s.end <= s.array.len && s.array.base + s.array.len <= cells.len() {
        Ok(cells.subrange(s.array.base + s.begin, s.array.base + s.end))
    } else {
        Err(Trap::Fault)
    }
}

/// Whether the value is a byte.
pub open spec fn is_byte(v: Value) -> bool {
    match v {
        Value::Int(k, n) => k == IntKind::Uint8 && 0 <= n < 256,
        _ => false,
    }
}

/// The bytes of values that are bytes.
pub open spec fn bytes_of(s: Seq<Value>) -> Seq<u8> {
    Seq::new(
        s.len(),
        |i: int|
            match s[i] {
                Value::Int(_, n) => n as u8,
                _ => 0u8,
            },
    )
}

/// The bytes of a string.
pub open spec fn str_bytes(cells: Seq<Value>, s: SliceRef) -> Result<Seq<u8>, Trap> {
    match slice_seq(cells, s) {
        Ok(vals) => if forall|i: int| 0 <= i < vals.len() ==> is_byte(#[trigger] vals[i]) {
            Ok(bytes_of(vals))
        } else {
            Err(Trap::Fault)
        },
        Err(e) => Err(e),
    }
}

/// Bytes as values.
pub open spec fn byte_values(b: Seq<u8>) -> Seq<Value> {
    Seq::new(b.len(), |i: int| byte_of(b[i]))
}

/// The slice of all elements of a region.
pub open spec fn whole(r: Region) -> SliceRef {
    SliceRef { array: r, begin: 0, end: r.len, cap_end: r.len }
}

/// The slice of all elements of a region.
pub fn whole_slice(r: Region) -> (s: SliceRef)
    ensures
        s == whole(r),
{
    SliceRef { array: r, begin: 0, end: r.len, cap_end: r.len }
}

/// The tables with the bytes of a new string, and the string.
pub open spec fn new_str(w: VmView, b: Seq<u8>) -> (VmView, Value) {
    (
        w.with_cells(w.cells + byte_values(b)),
        Value::Str(whole(next_region(w.cells, b.len()))),
    )
}

/// The tables with the text of a new string, and the string.
pub open spec fn new_text(w: VmView, s: Seq<char>) -> (VmView, Value) {
    new_str(w, encode_utf8(s))
}

impl Vm {
    /// Reads the elements of a slice.
    pub fn get_slice(&self, s: SliceRef) -> (v: Result<Vec<Value>, Trap>)
        ensures
            match slice_seq(self@.cells, s) {
                Ok(x) => v is Ok && v->Ok_0@ == x,
                Err(e) => v == Err::<Vec<Value>, Trap>(e),
            },
    {
        let n: usize = self.cells.len();
        if s.begin > s.end || s.end > s.array.len || s.array.base > n || s.array.len > n
            - s.array.base {
            return Err(Trap::Fault);
        }
        self.get_region(Region { base: s.array.base + s.begin, len: s.end - s.begin })
    }

    /// Reads the bytes of a string.
    pub fn get_bytes(&self, s: SliceRef) -> (v: Result<Vec<u8>, Trap>)
        ensures
            match str_bytes(self@.cells, s) {
                Ok(x) => v is Ok && v->Ok_0@ == x,
                Err(e) => v == Err::<Vec<u8>, Trap>(e),
            },
    {
        let vals = self.get_slice(s)?;
        let mut b: Vec<u8> = Vec::new();
        let mut i: usize = 0;
        while i < vals.len()
            invariant
                slice_seq(self@.cells, s) == Ok::<Seq<Value>, Trap>(vals@),
                i <= vals@.len(),
                b@ == bytes_of(vals@.subrange(0, i as int)),
                forall|j: int| 0 <= j < i ==> is_byte(#[trigger] vals@[j]),
            decreases vals@.len() - i,
        {
            match vals[i] {
                Value::Int(k, n) => {
                    if k == IntKind::Uint8 && 0 <= n && n < 256 {
                        b.push(n as u8);
                    } else {
                        assert(!is_byte(vals@[i as int]));
                        return Err(Trap::Fault);
                    }
                },
                _ => {
                    assert(!is_byte(vals@[i as int]));
                    return Err(Trap::Fault);
                },
            }
            assert(b@ =~= bytes_of(vals@.subrange(0, i + 1)));
            i = i + 1;
        }
        assert(vals@.subrange(0, vals@.len() as int) =~= vals@);
        Ok(b)
    }

    /// Adds a string.
    pub fn add_str(&mut self, b: &[u8]) -> (r: Value)
        ensures
            (final(self)@, r) == new_str(old(self)@, b@),
    {
        let mut vals: Vec<Value> = Vec::new();
        let mut i: usize = 0;
        while i < b.len()
            invariant
                i <= b@.len(),
                vals@ == byte_values(b@.subrange(0, i as int)),
            decreases b@.len() - i,
        {
            vals.push(Value::Int(IntKind::Uint8, b[i] as i128));
            assert(vals@ =~= byte_values(b@.subrange(0, i + 1)));
            i = i + 1;
        }
        assert(b@.subrange(0, b@.len() as int) =~= b@);
        let r = self.new_cells(&vals);
        Value::Str(whole_slice(r))
    }

    /// Adds a string that holds a text.
    pub fn add_text(&mut self, s: &str) -> (r: Value)
        ensures
            (final(self)@, r) == new_text(old(self)@, s@),
    {
        self.add_str(s.as_bytes())
    }
}

/// Whether the first string comes before the second, both read from `i` on.
pub open spec fn bytes_less(a: Seq<u8>, b: Seq<u8>, i: nat) -> bool
    decreases b.len() - i,
{
    if i >= b.len() {
        false
    } else if i >= a.len() {
        true
    } else if a[i as int] == b[i as int] {
        bytes_less(a, b, i + 1)
    } else {
        a[i as int] < b[i as int]
    }
}

/// Whether the first string comes before the second.
pub fn is_bytes_less(a: &Vec<u8>, b: &Vec<u8>) -> (r: bool)
    ensures
        r == bytes_less(a@, b@, 0),
{
    let mut i: usize = 0;
    while i < b.len()
        invariant
            i <= b@.len(),
            bytes_less(a@, b@, 0) == bytes_less(a@, b@, i as nat),
        decreases b@.len() - i,
    {
        if i >= a.len() {
            return true;
        }
        if a[i] != b[i] {
            return a[i] < b[i];
        }
        i = i + 1;
    }
    false
}

/// Whether two lists of bytes are the same.
pub fn is_bytes_equal(a: &Vec<u8>, b: &Vec<u8>) -> (r: bool)
    ensures
        r == (a@ == b@),
{
    if a.len() != b.len() {
        return false;
    }
    let mut i: usize = 0;
    while i < a.len()
        invariant
            a@.len() == b@.len(),
            i <= a@.len(),
            forall|j: int| 0 <= j < i ==> a@[j] == b@[j],
        decreases a@.len() - i,
    {
        if a[i] != b[i] {
            return false;
        }
        i = i + 1;
    }
    assert(a@ =~= b@);
    true
}

/// The type that an interface value claims to have, if it claims one.
pub open spec fn claimed(p: &Bytecode, binding: Option<usize>) -> Result<Option<Meta>, Trap> {
    match binding {
        None => Ok(None),
        Some(b) => if b < p.ifaces@.len() {
            Ok(Some(p.ifaces@[b as int].meta))
        } else {
            Err(Trap::Fault)
        },
    }
}

/// The type that an interface value claims to have, if it claims one.
pub fn get_claimed(p: &Bytecode, binding: Option<usize>) -> (r: Result<Option<Meta>, Trap>)
    ensures
        r == claimed(p, binding),
{
    match binding {
        None => Ok(None),
        Some(b) => if b < p.ifaces.len() {
            Ok(Some(p.ifaces[b].meta))
        } else {
            Err(Trap::Fault)
        },
    }
}

/// Whether two claims contradict each other.
pub open spec fn contradict(a: Option<Meta>, b: Option<Meta>) -> bool {
    a is Some && b is Some && a != b
}

/// Whether two values are equal: words by their number, strings by their
/// bytes, arrays and structs element by element, interfaces by their type and
/// the value below, and everything else by what it refers to.
pub open spec fn equal_value(p: &Bytecode, cells: Seq<Value>, a: Value, b: Value, fuel: nat) -> Result<
    bool,
    Trap,
>
    decreases fuel, 1nat,
{
    match (a, b) {
        (Value::Nil(_), Value::Nil(_)) => Ok(true),
        (Value::Nil(_), _) => Ok(false),
        (_, Value::Nil(_)) => Ok(false),
        (Value::Str(x), Value::Str(y)) => match (str_bytes(cells, x), str_bytes(cells, y)) {
            (Ok(s), Ok(t)) => Ok(s == t),
            _ => Err(Trap::Fault),
        },
        (Value::Array(x), Value::Array(y)) => equal_region(p, cells, x, y, fuel),
        (Value::Struct(x), Value::Struct(y)) => equal_region(p, cells, x, y, fuel),
        (
            Value::Interface(InterfaceObj::Gos { under: x, binding: c }),
            Value::Interface(InterfaceObj::Gos { under: y, binding: d }),
        ) => if fuel > 0 && x < cells.len() && y < cells.len() {
            match (claimed(p, c), claimed(p, d)) {
                (Ok(m), Ok(n)) => if contradict(m, n) {
                    Ok(false)
                } else {
                    equal_value(p, cells, cells[x as int], cells[y as int], (fuel - 1) as nat)
                },
                _ => Err(Trap::Fault),
            }
        } else {
            Err(Trap::Fault)
        },
        (Value::Interface(x), Value::Interface(y)) => Ok(x == y),
        (Value::Interface(InterfaceObj::Gos { under: x, binding: _ }), _) => if fuel > 0 && x
            < cells.len() {
            equal_value(p, cells, cells[x as int], b, (fuel - 1) as nat)
        } else {
            Err(Trap::Fault)
        },
        (_, Value::Interface(InterfaceObj::Gos { under: y, binding: _ })) => if fuel > 0 && y
            < cells.len() {
            equal_value(p, cells, a, cells[y as int], (fuel - 1) as nat)
        } else {
            Err(Trap::Fault)
        },
        _ => match word_equal(a, b) {
            Some(e) => Ok(e),
            None => Ok(a == b),
        },
    }
}

/// Whether two regions hold equal elements.
pub open spec fn equal_region(p: &Bytecode, cells: Seq<Value>, x: Region, y: Region, fuel: nat) -> Result<
    bool,
    Trap,
>
    decreases fuel, 0nat,
{
    if fuel == 0 {
        Err(Trap::Fault)
    } else {
        match (region_seq(cells, x), region_seq(cells, y)) {
            (Ok(s), Ok(t)) => if s.len() != t.len() {
                Ok(false)
            } else {
                equal_rest(p, cells, s, t, 0, (fuel - 1) as nat)
            },
            _ => Err(Trap::Fault),
        }
    }
}

/// Whether the elements are equal from `i` on.
pub open spec fn equal_rest(
    p: &Bytecode,
    cells: Seq<Value>,
    s: Seq<Value>,
    t: Seq<Value>,
    i: nat,
    fuel: nat,
) -> Result<bool, Trap>
    decreases fuel, 2 + s.len() - i,
{
    if i >= s.len() {
        Ok(true)
    } else {
        match equal_value(p, cells, s[i as int], t[i as int], fuel) {
            Ok(true) => equal_rest(p, cells, s, t, i + 1, fuel),
            r => r,
        }
    }
}

/// A comparison fails only where the cells are broken.
pub proof fn lemma_equal_no_panic(
    p: &Bytecode,
    cells: Seq<Value>,
    a: Value,
    b: Value,
    fuel: nat,
)
    ensures
        equal_value(p, cells, a, b, fuel) matches Err(e) ==> e == Trap::Fault,
    decreases fuel, 1nat,
{
    match (a, b) {
        (Value::Array(x), Value::Array(y)) => {
            lemma_equal_region_no_panic(p, cells, x, y, fuel);
        },
        (Value::Struct(x), Value::Struct(y)) => {
            lemma_equal_region_no_panic(p, cells, x, y, fuel);
        },
        (
            Value::Interface(InterfaceObj::Gos { under: x, binding: _ }),
            Value::Interface(InterfaceObj::Gos { under: y, binding: _ }),
        ) => {
            if fuel > 0 && x < cells.len() && y < cells.len() {
                lemma_equal_no_panic(p, cells, cells[x as int], cells[y as int], (fuel - 1) as nat);
            }
        },
        (Value::Interface(InterfaceObj::Gos { under: x, binding: _ }), _) => {
            if fuel > 0 && x < cells.len() {
                lemma_equal_no_panic(p, cells, cells[x as int], b, (fuel - 1) as nat);
            }
        },
        (_, Value::Interface(InterfaceObj::Gos { under: y, binding: _ })) => {
            if fuel > 0 && y < cells.len() {
                lemma_equal_no_panic(p, cells, a, cells[y as int], (fuel - 1) as nat);
            }
        },
        _ => {},
    }
}

proof fn lemma_equal_region_no_panic(
    p: &Bytecode,
    cells: Seq<Value>,
    x: Region,
    y: Region,
    fuel: nat,
)
    ensures
        equal_region(p, cells, x, y, fuel) matches Err(e) ==> e == Trap::Fault,
    decreases fuel, 0nat,
{
    if fuel > 0 {
        match (region_seq(cells, x), region_seq(cells, y)) {
            (Ok(s), Ok(t)) => {
                lemma_equal_rest_no_panic(p, cells, s, t, 0, (fuel - 1) as nat);
            },
            _ => {},
        }
    }
}

proof fn lemma_equal_rest_no_panic(
    p: &Bytecode,
    cells: Seq<Value>,
    s: Seq<Value>,
    t: Seq<Value>,
    i: nat,
    fuel: nat,
)
    ensures
        equal_rest(p, cells, s, t, i, fuel) matches Err(e) ==> e == Trap::Fault,
    decreases fuel, 2 + s.len() - i,
{
    if i < s.len() {
        lemma_equal_no_panic(p, cells, s[i as int], t[i as int], fuel);
        lemma_equal_rest_no_panic(p, cells, s, t, i + 1, fuel);
    }
}

/// Whether two values are equal.
pub open spec fn values_equal(p: &Bytecode, w: VmView, a: Value, b: Value) -> Result<bool, Trap> {
    equal_value(p, w.cells, a, b, depth(w.cells))
}

impl Vm {
    fn equal_value(&self, p: &Bytecode, a: Value, b: Value, fuel: u128) -> (r: Result<bool, Trap>)
        ensures
            r == equal_value(p, self@.cells, a, b, fuel as nat),
        decreases fuel, 1nat,
    {
        match (a, b) {
            (Value::Nil(_), Value::Nil(_)) => Ok(true),
            (Value::Nil(_), _) => Ok(false),
            (_, Value::Nil(_)) => Ok(false),
            (Value::Str(x), Value::Str(y)) => match (self.get_bytes(x), self.get_bytes(y)) {
                (Ok(s), Ok(t)) => Ok(is_bytes_equal(&s, &t)),
                _ => Err(Trap::Fault),
            },
            (Value::Array(x), Value::Array(y)) => self.equal_region(p, x, y, fuel),
            (Value::Struct(x), Value::Struct(y)) => self.equal_region(p, x, y, fuel),
            (
                Value::Interface(InterfaceObj::Gos { under: x, binding: c }),
                Value::Interface(InterfaceObj::Gos { under: y, binding: d }),
            ) => if fuel > 0 && x < self.cells.len() && y < self.cells.len() {
                match (get_claimed(p, c), get_claimed(p, d)) {
                    (Ok(m), Ok(n)) => if m.is_some() && n.is_some() && m != n {
                        Ok(false)
                    } else {
                        self.equal_value(p, self.cells[x], self.cells[y], fuel - 1)
                    },
                    _ => Err(Trap::Fault),
                }
            } else {
                Err(Trap::Fault)
            },
            (Value::Interface(x), Value::Interface(y)) => Ok(x == y),
            (Value::Interface(InterfaceObj::Gos { under: x, binding: _ }), _) => if fuel > 0 && x
                < self.cells.len() {
                self.equal_value(p, self.cells[x], b, fuel - 1)
            } else {
                Err(Trap::Fault)
            },
            (_, Value::Interface(InterfaceObj::Gos { under: y, binding: _ })) => if fuel > 0 && y
                < self.cells.len() {
                self.equal_value(p, a, self.cells[y], fuel - 1)
            } else {
                Err(Trap::Fault)
            },
            _ => match words_equal(a, b) {
                Some(e) => Ok(e),
                None => Ok(a == b),
            },
        }
    }

    fn equal_region(&self, p: &Bytecode, x: Region, y: Region, fuel: u128) -> (r: Result<bool, Trap>)
        ensures
            r == equal_region(p, self@.cells, x, y, fuel as nat),
        decreases fuel, 0nat,
    {
        if fuel == 0 {
            return Err(Trap::Fault);
        }
        let (s, t) = match (self.get_region(x), self.get_region(y)) {
            (Ok(s), Ok(t)) => (s, t),
            _ => return Err(Trap::Fault),
        };
        if s.len() != t.len() {
            return Ok(false);
        }
        let mut i: usize = 0;
        while i < s.len()
            invariant
                fuel > 0,
                s@.len() == t@.len(),
                i <= s@.len(),
                equal_rest(p, self@.cells, s@, t@, 0, (fuel - 1) as nat) == equal_rest(
                    p,
                    self@.cells,
                    s@,
                    t@,
                    i as nat,
                    (fuel - 1) as nat,
                ),
                equal_region(p, self@.cells, x, y, fuel as nat) == equal_rest(
                    p,
                    self@.cells,
                    s@,
                    t@,
                    0,
                    (fuel - 1) as nat,
                ),
            decreases s@.len() - i,
        {
            let r = self.equal_value(p, s[i], t[i], fuel - 1);
            match r {
                Ok(true) => {},
                _ => return r,
            }
            i = i + 1;
        }
        Ok(true)
    }

    /// Compares two values.
    pub fn equal(&self, p: &Bytecode, a: Value, b: Value) -> (r: Result<bool, Trap>)
        ensures
            r == values_equal(p, self@, a, b),
    {
        self.equal_value(p, a, b, self.cells.len() as u128 + 1)
    }
}

} // verus!

//! What the descriptions of types say: zero values and identity.
use vstd::prelude::*;
use crate::bytecode::{Bytecode, FieldInfo, MetadataType};
use crate::content::{is_bytes_equal, whole, whole_slice};
use crate::machine::{agrees, next_region, Vm, VmView};
use crate::trap::Trap;
use crate::value::{Meta, MetadataKey, Region, Value, ValueType};

verus! {

/// How deep descriptions can be nested.
pub open spec fn meta_depth(p: &Bytecode) -> nat {
    p.metas@.len() + 1
}

/// The types of the fields.
pub open spec fn field_metas(f: Seq<FieldInfo>) -> Seq<Meta> {
    Seq::new(f.len(), |i: int| f[i].meta)
}

/// Whether the fields have the same names.
pub open spec fn same_names(f: Seq<FieldInfo>, g: Seq<FieldInfo>) -> bool {
    f.len() == g.len() && forall|i: int| 0 <= i < f.len() ==> (#[trigger] f[i]).name@ == g[i].name@
}

fn get_field_metas(f: &Vec<FieldInfo>) -> (r: Vec<Meta>)
    ensures
        r@ == field_metas(f@),
{
    let mut r: Vec<Meta> = Vec::new();
    let mut i: usize = 0;
    while i < f.len()
        invariant
            i <= f@.len(),
            r@ == field_metas(f@.subrange(0, i as int)),
        decreases f@.len() - i,
    {
        r.push(f[i].meta);
        assert(r@ =~= field_metas(f@.subrange(0, i + 1)));
        i = i + 1;
    }
    assert(f@.subrange(0, f@.len() as int) =~= f@);
    r
}

fn have_same_names(f: &Vec<FieldInfo>, g: &Vec<FieldInfo>) -> (r: bool)
    ensures
        r == same_names(f@, g@),
{
    if f.len() != g.len() {
        return false;
    }
    let mut i: usize = 0;
    while i < f.len()
        invariant
            f@.len() == g@.len(),
            i <= f@.len(),
            forall|j: int| 0 <= j < i ==> (#[trigger] f@[j]).name@ == g@[j].name@,
        decreases f@.len() - i,
    {
        if !is_bytes_equal(&f[i].name, &g[i].name) {
            assert(f@[i as int].name@ != g@[i as int].name@);
            return false;
        }
        i = i + 1;
    }
    true
}

/// The zero value of a type that is made of no other.
pub open spec fn basic_zero(cells: Seq<Value>, t: ValueType) -> Value {
    match t.spec_int_kind() {
        Some(k) => Value::Int(k, 0),
        None => match t {
            ValueType::Bool => Value::Bool(false),
            ValueType::Float32 => Value::Float32(0),
            ValueType::Float64 => Value::Float64(0),
            ValueType::Complex64 => Value::Complex64(0, 0),
            ValueType::Complex128 => Value::Complex128(0, 0),
            ValueType::String => Value::Str(whole(next_region(cells, 0))),
            _ => Value::Nil(t),
        },
    }
}

/// The zero value of a type, and the cells with those that it is made of.
pub open spec fn zero(p: &Bytecode, cells: Seq<Value>, m: Meta, fuel: nat) -> Result<
    (Seq<Value>, Value),
    Trap,
>
    decreases fuel, 0nat,
{
    if m.ptr_depth > 0 {
        Ok((cells, Value::Nil(ValueType::Pointer)))
    } else if fuel == 0 || m.key >= p.metas@.len() {
        Err(Trap::Fault)
    } else {
        match p.metas@[m.key as int] {
            MetadataType::Basic(t) => Ok((cells, basic_zero(cells, t))),
            MetadataType::Array(e, n) => match zero_rest(
                p,
                cells,
                Seq::new(n as nat, |i: int| e),
                0,
                seq![],
                (fuel - 1) as nat,
            ) {
                Ok((cs, vals)) => Ok((cs + vals, Value::Array(next_region(cs, vals.len())))),
                Err(e) => Err(e),
            },
            MetadataType::Struct(f) => match zero_rest(
                p,
                cells,
                field_metas(f@),
                0,
                seq![],
                (fuel - 1) as nat,
            ) {
                Ok((cs, vals)) => Ok((cs + vals, Value::Struct(next_region(cs, vals.len())))),
                Err(e) => Err(e),
            },
            MetadataType::Slice(_) => Ok((cells, Value::Nil(ValueType::Slice))),
            MetadataType::GoMap(_, _) => Ok((cells, Value::Nil(ValueType::GoMap))),
            MetadataType::Channel(_, _) => Ok((cells, Value::Nil(ValueType::Channel))),
            MetadataType::Interface(_) => Ok((cells, Value::Nil(ValueType::Interface))),
            MetadataType::Signature { .. } => Ok((cells, Value::Nil(ValueType::Closure))),
            MetadataType::Named(u) => zero(p, cells, u, (fuel - 1) as nat),
        }
    }
}

/// The zero values of the types from `i` on, after those in `out`.
pub open spec fn zero_rest(
    p: &Bytecode,
    cells: Seq<Value>,
    metas: Seq<Meta>,
    i: nat,
    out: Seq<Value>,
    fuel: nat,
) -> Result<(Seq<Value>, Seq<Value>), Trap>
    decreases fuel, 1 + metas.len() - i,
{
    if i >= metas.len() {
        Ok((cells, out))
    } else {
        match zero(p, cells, metas[i as int], fuel) {
            Ok((cs, v)) => zero_rest(p, cs, metas, i + 1, out.push(v), fuel),
            Err(e) => Err(e),
        }
    }
}

/// The tables once a zero value was made, and the value.
pub open spec fn zero_value(p: &Bytecode, w: VmView, m: Meta) -> Result<(VmView, Value), Trap> {
    match zero(p, w.cells, m, meta_depth(p)) {
        Ok((cs, v)) => Ok((w.with_cells(cs), v)),
        Err(e) => Err(e),
    }
}

/// Making a zero value never makes the program panic.
proof fn lemma_zero_no_panic(p: &Bytecode, cells: Seq<Value>, m: Meta, fuel: nat)
    ensures
        zero(p, cells, m, fuel) matches Err(e) ==> e == Trap::Fault,
    decreases fuel, 0nat,
{
    if m.ptr_depth == 0 && fuel > 0 && m.key < p.metas@.len() {
        match p.metas@[m.key as int] {
            MetadataType::Array(e, n) => {
                lemma_zero_rest_no_panic(
                    p,
                    cells,
                    Seq::new(n as nat, |i: int| e),
                    0,
                    seq![],
                    (fuel - 1) as nat,
                );
            },
            MetadataType::Struct(f) => {
                lemma_zero_rest_no_panic(
                    p,
                    cells,
                    field_metas(f@),
                    0,
                    seq![],
                    (fuel - 1) as nat,
                );
            },
            MetadataType::Named(u) => {
                lemma_zero_no_panic(p, cells, u, (fuel - 1) as nat);
            },
            _ => {},
        }
    }
}

proof fn lemma_zero_rest_no_panic(
    p: &Bytecode,
    cells: Seq<Value>,
    metas: Seq<Meta>,
    i: nat,
    out: Seq<Value>,
    fuel: nat,
)
    ensures
        zero_rest(p, cells, metas, i, out, fuel) matches Err(e) ==> e == Trap::Fault,
    decreases fuel, 1 + metas.len() - i,
{
    if i < metas.len() {
        lemma_zero_no_panic(p, cells, metas[i as int], fuel);
        match zero(p, cells, metas[i as int], fuel) {
            Ok((cs, v)) => {
                lemma_zero_rest_no_panic(p, cs, metas, i + 1, out.push(v), fuel);
            },
            Err(_) => {},
        }
    }
}

impl Vm {
    fn basic_zero(&self, t: ValueType) -> (r: Value)
        ensures
            r == basic_zero(self@.cells, t),
    {
        match t.int_kind() {
            Some(k) => Value::Int(k, 0),
            None => match t {
                ValueType::Bool => Value::Bool(false),
                ValueType::Float32 => Value::Float32(0),
                ValueType::Float64 => Value::Float64(0),
                ValueType::Complex64 => Value::Complex64(0, 0),
                ValueType::Complex128 => Value::Complex128(0, 0),
                ValueType::String => Value::Str(
                    whole_slice(Region { base: self.cells.len(), len: 0 }),
                ),
                _ => Value::Nil(t),
            },
        }
    }

    fn zero_fuel(&mut self, p: &Bytecode, m: Meta, fuel: u128) -> (r: Result<Value, Trap>)
        ensures
            match zero(p, old(self)@.cells, m, fuel as nat) {
                Ok((cs, v)) => r == Ok::<Value, Trap>(v) && final(self)@ == old(self)@.with_cells(cs),
                Err(e) => r == Err::<Value, Trap>(e),
            },
        decreases fuel, 0nat,
    {
        if m.ptr_depth > 0 {
            return Ok(Value::Nil(ValueType::Pointer));
        }
        if fuel == 0 || m.key >= p.metas.len() {
            return Err(Trap::Fault);
        }
        match &p.metas[m.key] {
            MetadataType::Basic(t) => Ok(self.basic_zero(*t)),
            MetadataType::Array(e, n) => {
                let metas = repeat_meta(*e, *n);
                let vals = self.zero_rest(p, &metas, fuel - 1)?;
                Ok(Value::Array(self.new_cells(&vals)))
            },
            MetadataType::Struct(f) => {
                let metas = get_field_metas(f);
                let vals = self.zero_rest(p, &metas, fuel - 1)?;
                Ok(Value::Struct(self.new_cells(&vals)))
            },
            MetadataType::Slice(_) => Ok(Value::Nil(ValueType::Slice)),
            MetadataType::GoMap(_, _) => Ok(Value::Nil(ValueType::GoMap)),
            MetadataType::Channel(_, _) => Ok(Value::Nil(ValueType::Channel)),
            MetadataType::Interface(_) => Ok(Value::Nil(ValueType::Interface)),
            MetadataType::Signature { .. } => Ok(Value::Nil(ValueType::Closure)),
            MetadataType::Named(u) => self.zero_fuel(p, *u, fuel - 1),
        }
    }

    fn zero_rest(&mut self, p: &Bytecode, metas: &Vec<Meta>, fuel: u128) -> (r: Result<
        Vec<Value>,
        Trap,
    >)
        ensures
            match zero_rest(p, old(self)@.cells, metas@, 0, seq![], fuel as nat) {
                Ok((cs, out)) => r is Ok && r->Ok_0@ == out && final(self)@ == old(self)@.with_cells(cs),
                Err(e) => r == Err::<Vec<Value>, Trap>(e),
            },
        decreases fuel, 1 + metas@.len(),
    {
        let mut out: Vec<Value> = Vec::new();
        let mut i: usize = 0;
        while i < metas.len()
            invariant
                i <= metas@.len(),
                self@ == old(self)@.with_cells(self@.cells),
                zero_rest(p, old(self)@.cells, metas@, 0, seq![], fuel as nat) == zero_rest(
                    p,
                    self@.cells,
                    metas@,
                    i as nat,
                    out@,
                    fuel as nat,
                ),
            decreases metas@.len() - i,
        {
            let v = self.zero_fuel(p, metas[i], fuel)?;
            out.push(v);
            i = i + 1;
        }
        Ok(out)
    }

    /// Makes the zero value of a type.
    pub fn zero(&mut self, p: &Bytecode, m: Meta) -> (r: Result<Value, Trap>)
        ensures
            agrees(r, old(self)@, final(self)@, zero_value(p, old(self)@, m)),
    {
        proof {
            lemma_zero_no_panic(p, self@.cells, m, meta_depth(p));
        }
        self.zero_fuel(p, m, p.metas.len() as u128 + 1)
    }
}

fn repeat_meta(m: Meta, n: usize) -> (r: Vec<Meta>)
    ensures
        r@ == Seq::new(n as nat, |i: int| m),
{
    let mut r: Vec<Meta> = Vec::new();
    let mut i: usize = 0;
    while i < n
        invariant
            i <= n,
            r@ == Seq::new(i as nat, |j: int| m),
        decreases n - i,
    {
        r.push(m);
        assert(r@ =~= Seq::new((i + 1) as nat, |j: int| m));
        i = i + 1;
    }
    r
}

/// Whether two types are the same. A type with a name is the same as itself
/// only; other types are the same when they are made of the same types in the
/// same way.
pub open spec fn identical(p: &Bytecode, a: Meta, b: Meta, fuel: nat) -> Result<bool, Trap>
    decreases fuel, 0nat,
{
    if a.category != b.category || a.ptr_depth != b.ptr_depth {
        Ok(false)
    } else if a.key == b.key {
        Ok(true)
    } else if fuel == 0 || a.key >= p.metas@.len() || b.key >= p.metas@.len() {
        Err(Trap::Fault)
    } else {
        let n = (fuel - 1) as nat;
        match (p.metas@[a.key as int], p.metas@[b.key as int]) {
            (MetadataType::Basic(x), MetadataType::Basic(y)) => Ok(x == y),
            (MetadataType::Array(x, i), MetadataType::Array(y, j)) => if i == j {
                identical(p, x, y, n)
            } else {
                Ok(false)
            },
            (MetadataType::Slice(x), MetadataType::Slice(y)) => identical(p, x, y, n),
            (MetadataType::GoMap(k, x), MetadataType::GoMap(l, y)) => identical_rest(
                p,
                seq![k, x],
                seq![l, y],
                0,
                n,
            ),
            (MetadataType::Channel(d, x), MetadataType::Channel(e, y)) => if d == e {
                identical(p, x, y, n)
            } else {
                Ok(false)
            },
            (MetadataType::Struct(f), MetadataType::Struct(g)) => if same_names(f@, g@) {
                identical_rest(p, field_metas(f@), field_metas(g@), 0, n)
            } else {
                Ok(false)
            },
            (MetadataType::Interface(f), MetadataType::Interface(g)) => if same_names(f@, g@) {
                identical_rest(p, field_metas(f@), field_metas(g@), 0, n)
            } else {
                Ok(false)
            },
            (
                MetadataType::Signature { params: x, results: r },
                MetadataType::Signature { params: y, results: s },
            ) => if x@.len() == y@.len() && r@.len() == s@.len() {
                identical_rest(p, x@ + r@, y@ + s@, 0, n)
            } else {
                Ok(false)
            },
            _ => Ok(false),
        }
    }
}

/// Whether the types are the same from `i` on.
pub open spec fn identical_rest(
    p: &Bytecode,
    a: Seq<Meta>,
    b: Seq<Meta>,
    i: nat,
    fuel: nat,
) -> Result<bool, Trap>
    decreases fuel, 1 + a.len() - i,
{
    if i >= a.len() {
        Ok(true)
    } else {
        match identical(p, a[i as int], b[i as int], fuel) {
            Ok(true) => identical_rest(p, a, b, i + 1, fuel),
            r => r,
        }
    }
}

/// Whether two types are the same.
pub open spec fn same_type(p: &Bytecode, a: Meta, b: Meta) -> Result<bool, Trap> {
    identical(p, a, b, meta_depth(p))
}

fn is_identical_rest(p: &Bytecode, a: &Vec<Meta>, b: &Vec<Meta>, fuel: u128) -> (r: Result<
    bool,
    Trap,
>)
    requires
        a@.len() == b@.len(),
    ensures
        r == identical_rest(p, a@, b@, 0, fuel as nat),
    decreases fuel, 1 + a@.len(),
{
    let mut i: usize = 0;
    while i < a.len()
        invariant
            a@.len() == b@.len(),
            i <= a@.len(),
            identical_rest(p, a@, b@, 0, fuel as nat) == identical_rest(
                p,
                a@,
                b@,
                i as nat,
                fuel as nat,
            ),
        decreases a@.len() - i,
    {
        let r = is_identical(p, a[i], b[i], fuel);
        match r {
            Ok(true) => {},
            _ => return r,
        }
        i = i + 1;
    }
    Ok(true)
}

fn join_metas(a: &Vec<Meta>, b: &Vec<Meta>) -> (r: Vec<Meta>)
    ensures
        r@ == a@ + b@,
{
    let mut r: Vec<Meta> = Vec::new();
    let mut i: usize = 0;
    while i < a.len()
        invariant
            i <= a@.len(),
            r@ == a@.subrange(0, i as int),
        decreases a@.len() - i,
    {
        r.push(a[i]);
        i = i + 1;
    }
    let mut j: usize = 0;
    assert(a@ + b@.subrange(0, 0) =~= a@);
    while j < b.len()
        invariant
            j <= b@.len(),
            r@ == a@ + b@.subrange(0, j as int),
        decreases b@.len() - j,
    {
        r.push(b[j]);
        assert(r@ =~= a@ + b@.subrange(0, j + 1));
        j = j + 1;
    }
    assert(b@.subrange(0, b@.len() as int) =~= b@);
    r
}

fn is_identical(p: &Bytecode, a: Meta, b: Meta, fuel: u128) -> (r: Result<bool, Trap>)
    ensures
        r == identical(p, a, b, fuel as nat),
    decreases fuel, 0nat,
{
    if a.category != b.category || a.ptr_depth != b.ptr_depth {
        return Ok(false);
    }
    if a.key == b.key {
        return Ok(true);
    }
    if fuel == 0 || a.key >= p.metas.len() || b.key >= p.metas.len() {
        return Err(Trap::Fault);
    }
    match (&p.metas[a.key], &p.metas[b.key]) {
        (MetadataType::Basic(x), MetadataType::Basic(y)) => Ok(*x == *y),
        (MetadataType::Array(x, i), MetadataType::Array(y, j)) => if *i == *j {
            is_identical(p, *x, *y, fuel - 1)
        } else {
            Ok(false)
        },
        (MetadataType::Slice(x), MetadataType::Slice(y)) => is_identical(p, *x, *y, fuel - 1),
        (MetadataType::GoMap(k, x), MetadataType::GoMap(l, y)) => {
            let s = vec![*k, *x];
            let t = vec![*l, *y];
            assert(s@ =~= seq![*k, *x]);
            assert(t@ =~= seq![*l, *y]);
            is_identical_rest(p, &s, &t, fuel - 1)
        },
        (MetadataType::Channel(d, x), MetadataType::Channel(e, y)) => if *d == *e {
            is_identical(p, *x, *y, fuel - 1)
        } else {
            Ok(false)
        },
        (MetadataType::Struct(f), MetadataType::Struct(g)) => if have_same_names(f, g) {
            let s = get_field_metas(f);
            let t = get_field_metas(g);
            is_identical_rest(p, &s, &t, fuel - 1)
        } else {
            Ok(false)
        },
        (MetadataType::Interface(f), MetadataType::Interface(g)) => if have_same_names(f, g) {
            let s = get_field_metas(f);
            let t = get_field_metas(g);
            is_identical_rest(p, &s, &t, fuel - 1)
        } else {
            Ok(false)
        },
        (
            MetadataType::Signature { params: x, results: r },
            MetadataType::Signature { params: y, results: s },
        ) => if x.len() == y.len() && r.len() == s.len() {
            let a = join_metas(x, r);
            let b = join_metas(y, s);
            is_identical_rest(p, &a, &b, fuel - 1)
        } else {
            Ok(false)
        },
        _ => Ok(false),
    }
}

/// Compares two types.
pub fn is_same_type(p: &Bytecode, a: Meta, b: Meta) -> (r: Result<bool, Trap>)
    ensures
        r == same_type(p, a, b),
{
    is_identical(p, a, b, p.metas.len() as u128 + 1)
}

/// The description that a name stands for.
pub open spec fn unwrap_named(p: &Bytecode, key: MetadataKey, fuel: nat) -> Result<
    MetadataKey,
    Trap,
>
    decreases fuel,
{
    if fuel == 0 || key >= p.metas@.len() {
        Err(Trap::Fault)
    } else {
        match p.metas@[key as int] {
            MetadataType::Named(u) => unwrap_named(p, u.key, (fuel - 1) as nat),
            _ => Ok(key),
        }
    }
}

/// Finds the description that a name stands for.
pub fn mtype_unwraped(p: &Bytecode, m: Meta) -> (r: Result<MetadataKey, Trap>)
    ensures
        r == unwrap_named(p, m.key, meta_depth(p)),
        r matches Ok(k) ==> k < p.metas@.len(),
{
    let mut key: MetadataKey = m.key;
    let mut fuel: u128 = p.metas.len() as u128 + 1;
    while fuel > 0 && key < p.metas.len()
        invariant
            unwrap_named(p, m.key, meta_depth(p)) == unwrap_named(p, key, fuel as nat),
        decreases fuel,
    {
        match &p.metas[key] {
            MetadataType::Named(u) => {
                key = u.key;
                fuel = fuel - 1;
            },
            _ => return Ok(key),
        }
    }
    Err(Trap::Fault)
}

/// The type that a name stands for, one step down.
pub open spec fn underlying(p: &Bytecode, m: Meta) -> Result<Meta, Trap> {
    if m.key < p.metas@.len() {
        match p.metas@[m.key as int] {
            MetadataType::Named(u) => Ok(u),
            _ => Ok(m),
        }
    } else {
        Err(Trap::Fault)
    }
}

/// Finds the type that a name stands for, one step down.
pub fn get_underlying(p: &Bytecode, m: Meta) -> (r: Result<Meta, Trap>)
    ensures
        r == underlying(p, m),
{
    if m.key < p.metas.len() {
        match &p.metas[m.key] {
            MetadataType::Named(u) => Ok(*u),
            _ => Ok(m),
        }
    } else {
        Err(Trap::Fault)
    }
}

} // verus!

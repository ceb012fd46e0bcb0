//! The tables that all running fibers share, and the basic ways to read and
//! change them.
use vstd::prelude::*;
use crate::bytecode::{Bytecode, ValueDesc};
use crate::panic::{PanicData, PanicView};
use crate::trap::Trap;
use crate::value::{void, FunctionKey, Meta, MetadataKey, OpIndex, Region, Value, ValueType};

verus! {

/// A captured variable: still in its stack slot, or on its own once the frame
/// that owned the slot is gone.
#[derive(Clone, Copy, PartialEq, Eq, Structural, Debug)]
pub enum UpValueState {
    Open(ValueDesc),
    Closed(Value),
}

/// A function value: a function of the program with its captured variables (a
/// run of cells that hold pointers) and its receiver, or a method of an object
/// of the host.
#[derive(Clone, Copy, PartialEq, Eq, Structural, Debug)]
pub enum ClosureObj {
    Gos { func: FunctionKey, uvs: Option<Region>, recv: Option<Value> },
    Ffi { ffi: usize, iface: MetadataKey, index: usize, meta: Meta, is_async: bool },
}

/// A channel: how much it holds, and what a closed channel gives.
#[derive(Clone, Copy, PartialEq, Eq, Structural, Debug)]
pub struct ChannelObj {
    pub cap: usize,
    pub recv_zero: Value,
}

/// The shared tables.
pub struct Vm {
    pub cells: Vec<Value>,
    pub upvals: Vec<UpValueState>,
    pub closures: Vec<ClosureObj>,
    pub chans: Vec<ChannelObj>,
    pub maps: Vec<Vec<(Value, Value)>>,
    pub inited: Vec<bool>,
    pub stacks: Vec<Vec<Value>>,
    pub panic_data: Option<PanicData>,
}

/// What the shared tables hold.
pub struct VmView {
    pub cells: Seq<Value>,
    pub upvals: Seq<UpValueState>,
    pub closures: Seq<ClosureObj>,
    pub chans: Seq<ChannelObj>,
    pub maps: Seq<Seq<(Value, Value)>>,
    pub inited: Seq<bool>,
    pub stacks: Seq<Seq<Value>>,
    pub panic_data: Option<PanicView>,
}

/// Where the operands of an instruction are found: the stack, the base that
/// slots are counted from, and the captured variables of the running function.
#[derive(Clone, Copy, PartialEq, Eq, Structural, Debug)]
pub struct Ctx {
    pub stack: usize,
    pub sb: OpIndex,
    pub uvs: Option<Region>,
}

/// How many slots a new stack has.
pub const STACK_SIZE: usize = 128;

/// Whether work that should have turned `pre` into what `want` says did so, and
/// returned what `want` says. Work that ends in a panic leaves no trace; after
/// a fault nothing is promised.
pub open spec fn agrees<T>(
    r: Result<T, Trap>,
    pre: VmView,
    post: VmView,
    want: Result<(VmView, T), Trap>,
) -> bool {
    match want {
        Ok((w, t)) => r == Ok::<T, Trap>(t) && post == w,
        Err(Trap::Panic(e)) => r == Err::<T, Trap>(Trap::Panic(e)) && post == pre,
        Err(Trap::Fault) => r == Err::<T, Trap>(Trap::Fault),
    }
}

/// The sum of two positions.
pub open spec fn offset(a: OpIndex, b: OpIndex) -> Result<OpIndex, Trap> {
    if i32::MIN <= a + b <= i32::MAX {
        Ok((a + b) as i32)
    } else {
        Err(Trap::Fault)
    }
}

/// The sum of two positions.
pub fn add_offset(a: OpIndex, b: OpIndex) -> (r: Result<OpIndex, Trap>)
    ensures
        r == offset(a, b),
{
    match a.checked_add(b) {
        Some(c) => Ok(c),
        None => Err(Trap::Fault),
    }
}

/// The elements `vals` laid over `s` from `begin` on; gaps hold nothing.
pub open spec fn overlay(s: Seq<Value>, begin: int, vals: Seq<Value>) -> Seq<Value> {
    let n = if s.len() >= begin + vals.len() {
        s.len()
    } else {
        (begin + vals.len()) as nat
    };
    Seq::new(
        n,
        |i: int|
            if begin <= i < begin + vals.len() {
                vals[i - begin]
            } else if i < s.len() {
                s[i]
            } else {
                void()
            },
    )
}

/// `s` with nothing in the slots from `begin` to `end`.
pub open spec fn vacate(s: Seq<Value>, begin: int, end: int) -> Seq<Value> {
    Seq::new(
        s.len(),
        |i: int|
            if begin <= i < end {
                void()
            } else {
                s[i]
            },
    )
}

/// `s`, with empty slots added until there are `n`.
pub open spec fn widen(s: Seq<Value>, n: int) -> Seq<Value> {
    overlay(s, if n > s.len() { n } else { s.len() as int }, seq![])
}

impl VmView {
    /// The content of a cell.
    pub open spec fn cell(self, a: int) -> Result<Value, Trap> {
        if 0 <= a < self.cells.len() {
            Ok(self.cells[a])
        } else {
            Err(Trap::Fault)
        }
    }

    /// The tables with another content in a cell.
    pub open spec fn with_cell(self, a: int, v: Value) -> Result<VmView, Trap> {
        if 0 <= a < self.cells.len() {
            Ok(VmView { cells: self.cells.update(a, v), ..self })
        } else {
            Err(Trap::Fault)
        }
    }

    /// The tables with other cells.
    pub open spec fn with_cells(self, cells: Seq<Value>) -> VmView {
        VmView { cells, ..self }
    }

    /// The content of a stack slot.
    pub open spec fn slot(self, stack: usize, i: OpIndex) -> Result<Value, Trap> {
        if stack < self.stacks.len() && 0 <= i < self.stacks[stack as int].len() {
            Ok(self.stacks[stack as int][i as int])
        } else {
            Err(Trap::Fault)
        }
    }

    /// The tables with another stack in place of a stack.
    pub open spec fn with_stack(self, stack: usize, s: Seq<Value>) -> VmView {
        VmView { stacks: self.stacks.update(stack as int, s), ..self }
    }

    /// The tables with another content in a stack slot.
    pub open spec fn with_slot(self, stack: usize, i: OpIndex, v: Value) -> Result<VmView, Trap> {
        if stack < self.stacks.len() && 0 <= i < self.stacks[stack as int].len() {
            Ok(self.with_stack(stack, self.stacks[stack as int].update(i as int, v)))
        } else {
            Err(Trap::Fault)
        }
    }

    /// The tables with values laid over a stack.
    pub open spec fn with_vec(self, stack: usize, begin: OpIndex, vals: Seq<Value>) -> Result<
        VmView,
        Trap,
    > {
        if stack < self.stacks.len() && 0 <= begin {
            Ok(self.with_stack(stack, overlay(self.stacks[stack as int], begin as int, vals)))
        } else {
            Err(Trap::Fault)
        }
    }

    /// What a stack holds from `begin` to `end`, and the tables without it.
    pub open spec fn taken(self, stack: usize, begin: OpIndex, end: OpIndex) -> Result<
        (VmView, Seq<Value>),
        Trap,
    > {
        if stack < self.stacks.len() && 0 <= begin <= end <= self.stacks[stack as int].len() {
            Ok(
                (
                    self.with_stack(
                        stack,
                        vacate(self.stacks[stack as int], begin as int, end as int),
                    ),
                    self.stacks[stack as int].subrange(begin as int, end as int),
                ),
            )
        } else {
            Err(Trap::Fault)
        }
    }

    /// The tables with a stack of at least `n` slots.
    pub open spec fn with_min_size(self, stack: usize, n: OpIndex) -> Result<VmView, Trap> {
        if stack < self.stacks.len() && 0 <= n {
            Ok(self.with_stack(stack, widen(self.stacks[stack as int], n as int)))
        } else {
            Err(Trap::Fault)
        }
    }

    /// The tables with a captured variable added, which is the last one.
    pub open spec fn with_new_upval(self, u: UpValueState) -> VmView {
        VmView { upvals: self.upvals.push(u), ..self }
    }

    /// The operand `i` of an instruction.
    pub open spec fn read(self, c: Ctx, consts: Seq<Value>, i: OpIndex) -> Result<Value, Trap> {
        if i < 0 {
            if -i - 1 < consts.len() {
                Ok(consts[-i - 1])
            } else {
                Err(Trap::Fault)
            }
        } else {
            match offset(c.sb, i) {
                Ok(k) => self.slot(c.stack, k),
                Err(e) => Err(e),
            }
        }
    }

    /// The tables once the result of an instruction is in its slot.
    pub open spec fn write(self, c: Ctx, d: OpIndex, v: Value) -> Result<VmView, Trap> {
        match offset(c.sb, d) {
            Ok(k) => self.with_slot(c.stack, k, v),
            Err(e) => Err(e),
        }
    }

    /// What a captured variable holds.
    pub open spec fn upvalue(self, id: usize) -> Result<Value, Trap> {
        if id < self.upvals.len() {
            match self.upvals[id as int] {
                UpValueState::Closed(v) => Ok(v),
                UpValueState::Open(d) => match (d.stack, offset(d.stack_base, d.index)) {
                    (Some(s), Ok(k)) => self.slot(s, k),
                    _ => Err(Trap::Fault),
                },
            }
        } else {
            Err(Trap::Fault)
        }
    }

    /// The tables with another content in a captured variable.
    pub open spec fn with_upvalue(self, id: usize, v: Value) -> Result<VmView, Trap> {
        if id < self.upvals.len() {
            match self.upvals[id as int] {
                UpValueState::Closed(_) => Ok(
                    VmView {
                        upvals: self.upvals.update(id as int, UpValueState::Closed(v)),
                        ..self
                    },
                ),
                UpValueState::Open(d) => match (d.stack, offset(d.stack_base, d.index)) {
                    (Some(s), Ok(k)) => self.with_slot(s, k, v),
                    _ => Err(Trap::Fault),
                },
            }
        } else {
            Err(Trap::Fault)
        }
    }
}

/// The cells of a region, if it lies within the cells.
pub open spec fn region_seq(cells: Seq<Value>, r: Region) -> Result<Seq<Value>, Trap> {
    if r.base + r.len <= cells.len() {
        Ok(cells.subrange(r.base as int, r.base + r.len))
    } else {
        Err(Trap::Fault)
    }
}

/// The cell of element `i` of a region.
pub open spec fn region_cell(r: Region, i: int) -> Result<usize, Trap> {
    if 0 <= i < r.len && r.base + i <= usize::MAX {
        Ok((r.base + i) as usize)
    } else {
        Err(Trap::Fault)
    }
}

/// The region that the next `n` new cells form.
pub open spec fn next_region(cells: Seq<Value>, n: nat) -> Region {
    Region { base: cells.len() as usize, len: n as usize }
}

/// The cell of element `i` of a region.
pub fn cell_of(r: Region, i: usize) -> (a: Result<usize, Trap>)
    ensures
        a == region_cell(r, i as int),
{
    if i < r.len {
        match r.base.checked_add(i) {
            Some(a) => Ok(a),
            None => Err(Trap::Fault),
        }
    } else {
        Err(Trap::Fault)
    }
}

/// The constant that a negative operand stands for.
pub fn cst(consts: &Vec<Value>, i: OpIndex) -> (r: &Value)
    requires
        i < 0,
        -i - 1 < consts@.len(),
    ensures
        *r == consts@[-i - 1],
{
    &consts[(-(i + 1)) as usize]
}

/// The constant that an operand stands for, if there is one.
pub open spec fn spec_const(consts: Seq<Value>, i: OpIndex) -> Result<Value, Trap> {
    if i < 0 && -i - 1 < consts.len() {
        Ok(consts[-i - 1])
    } else {
        Err(Trap::Fault)
    }
}

/// The constant that an operand stands for, if there is one.
pub fn get_const(consts: &Vec<Value>, i: OpIndex) -> (r: Result<Value, Trap>)
    ensures
        r == spec_const(consts@, i),
{
    if i < 0 && ((-(i + 1)) as usize) < consts.len() {
        Ok(*cst(consts, i))
    } else {
        Err(Trap::Fault)
    }
}

/// The elements as the view of the maps.
pub open spec fn views<T>(s: Seq<Vec<T>>) -> Seq<Seq<T>> {
    Seq::new(s.len(), |i: int| s[i]@)
}

/// A copy of a list of values.
pub fn copy_values(v: &Vec<Value>) -> (r: Vec<Value>)
    ensures
        r@ == v@,
{
    let mut r: Vec<Value> = Vec::new();
    let mut i: usize = 0;
    while i < v.len()
        invariant
            i <= v@.len(),
            r@ == v@.subrange(0, i as int),
        decreases v@.len() - i,
    {
        r.push(v[i]);
        i = i + 1;
    }
    r
}

impl Vm {
    /// What the tables hold.
    pub open spec fn view(&self) -> VmView {
        VmView {
            cells: self.cells@,
            upvals: self.upvals@,
            closures: self.closures@,
            chans: self.chans@,
            maps: views(self.maps@),
            inited: self.inited@,
            stacks: views(self.stacks@),
            panic_data: match self.panic_data {
                Some(p) => Some(p@),
                None => None,
            },
        }
    }

    /// Empty tables for a program with that many packages.
    pub fn new(packages: usize) -> (r: Vm)
        ensures
            r@ == (VmView {
                cells: seq![],
                upvals: seq![],
                closures: seq![],
                chans: seq![],
                maps: seq![],
                inited: Seq::new(packages as nat, |i: int| false),
                stacks: seq![],
                panic_data: None,
            }),
    {
        let mut inited: Vec<bool> = Vec::new();
        let mut i: usize = 0;
        while i < packages
            invariant
                i <= packages,
                inited@ == Seq::new(i as nat, |j: int| false),
            decreases packages - i,
        {
            inited.push(false);
            i = i + 1;
        }
        let vm = Vm {
            cells: Vec::new(),
            upvals: Vec::new(),
            closures: Vec::new(),
            chans: Vec::new(),
            maps: Vec::new(),
            inited,
            stacks: Vec::new(),
            panic_data: None,
        };
        assert(vm@.maps =~= seq![]);
        assert(vm@.stacks =~= seq![]);
        vm
    }

    /// Reads a cell.
    pub fn get_cell(&self, a: usize) -> (r: Result<Value, Trap>)
        ensures
            r == self@.cell(a as int),
    {
        if a < self.cells.len() {
            Ok(self.cells[a])
        } else {
            Err(Trap::Fault)
        }
    }

    /// Writes a cell.
    pub fn set_cell(&mut self, a: usize, v: Value) -> (r: Result<(), Trap>)
        ensures
            match old(self)@.with_cell(a as int, v) {
                Ok(w) => r == Ok::<(), Trap>(()) && final(self)@ == w,
                Err(e) => r == Err::<(), Trap>(e) && final(self)@ == old(self)@,
            },
    {
        if a < self.cells.len() {
            self.cells[a] = v;
            Ok(())
        } else {
            Err(Trap::Fault)
        }
    }

    /// Adds a cell.
    pub fn new_cell(&mut self, v: Value) -> (r: usize)
        ensures
            r == old(self)@.cells.len(),
            final(self)@ == old(self)@.with_cells(old(self)@.cells.push(v)),
    {
        let r: usize = self.cells.len();
        self.cells.push(v);
        r
    }

    /// Adds cells.
    pub fn new_cells(&mut self, vals: &Vec<Value>) -> (r: Region)
        ensures
            r == next_region(old(self)@.cells, vals@.len()),
            final(self)@ == old(self)@.with_cells(old(self)@.cells + vals@),
    {
        let r = Region { base: self.cells.len(), len: vals.len() };
        let mut i: usize = 0;
        while i < vals.len()
            invariant
                i <= vals@.len(),
                self@ == old(self)@.with_cells(old(self)@.cells + vals@.subrange(0, i as int)),
            decreases vals@.len() - i,
        {
            self.cells.push(vals[i]);
            proof {
                assert(old(self)@.cells + vals@.subrange(0, i + 1) =~= (old(self)@.cells
                    + vals@.subrange(0, i as int)).push(vals@[i as int]));
            }
            i = i + 1;
        }
        proof {
            assert(vals@.subrange(0, vals@.len() as int) =~= vals@);
        }
        r
    }

    /// Reads the cells of a region.
    pub fn get_region(&self, r: Region) -> (v: Result<Vec<Value>, Trap>)
        ensures
            match region_seq(self@.cells, r) {
                Ok(s) => v is Ok && v->Ok_0@ == s,
                Err(e) => v == Err::<Vec<Value>, Trap>(e),
            },
    {
        if r.base > self.cells.len() || r.len > self.cells.len() - r.base {
            return Err(Trap::Fault);
        }
        let mut v: Vec<Value> = Vec::new();
        let mut i: usize = 0;
        while i < r.len
            invariant
                r.base + r.len <= self.cells.len(),
                i <= r.len,
                v@ == self.cells@.subrange(r.base as int, r.base + i),
            decreases r.len - i,
        {
            v.push(self.cells[r.base + i]);
            i = i + 1;
        }
        Ok(v)
    }

    /// Reads a stack slot.
    pub fn get(&self, stack: usize, i: OpIndex) -> (r: Result<Value, Trap>)
        ensures
            r == self@.slot(stack, i),
    {
        if stack < self.stacks.len() && 0 <= i && (i as usize) < self.stacks[stack].len() {
            Ok(self.stacks[stack][i as usize])
        } else {
            Err(Trap::Fault)
        }
    }

    /// Writes a stack slot.
    pub fn set(&mut self, stack: usize, i: OpIndex, v: Value) -> (r: Result<(), Trap>)
        ensures
            match old(self)@.with_slot(stack, i, v) {
                Ok(w) => r == Ok::<(), Trap>(()) && final(self)@ == w,
                Err(e) => r == Err::<(), Trap>(e) && final(self)@ == old(self)@,
            },
    {
        if stack < self.stacks.len() && 0 <= i && (i as usize) < self.stacks[stack].len() {
            let s = &mut self.stacks[stack];
            s[i as usize] = v;
            assert(self@.stacks =~= old(self)@.stacks.update(
                stack as int,
                old(self)@.stacks[stack as int].update(i as int, v),
            ));
            Ok(())
        } else {
            Err(Trap::Fault)
        }
    }

    /// Lays values over a stack, which grows as needed.
    pub fn set_vec(&mut self, stack: usize, begin: OpIndex, vals: &Vec<Value>) -> (r: Result<
        (),
        Trap,
    >)
        ensures
            match old(self)@.with_vec(stack, begin, vals@) {
                Ok(w) => r == Ok::<(), Trap>(()) && final(self)@ == w,
                Err(e) => r == Err::<(), Trap>(e) && final(self)@ == old(self)@,
            },
    {
        if stack >= self.stacks.len() || begin < 0 {
            return Err(Trap::Fault);
        }
        let ghost want = overlay(old(self)@.stacks[stack as int], begin as int, vals@);
        let s = &mut self.stacks[stack];
        overlay_vec(s, begin as usize, vals);
        assert(self@.stacks =~= old(self)@.stacks.update(stack as int, want));
        Ok(())
    }

    /// Takes the content of some slots.
    pub fn move_vec(&mut self, stack: usize, begin: OpIndex, end: OpIndex) -> (r: Result<
        Vec<Value>,
        Trap,
    >)
        ensures
            match old(self)@.taken(stack, begin, end) {
                Ok((w, s)) => r is Ok && r->Ok_0@ == s && final(self)@ == w,
                Err(e) => r == Err::<Vec<Value>, Trap>(e) && final(self)@ == old(self)@,
            },
    {
        if stack >= self.stacks.len() || begin < 0 || end < begin || end as usize
            > self.stacks[stack].len() {
            return Err(Trap::Fault);
        }
        let s = &mut self.stacks[stack];
        let v = vacate_vec(s, begin as usize, end as usize);
        assert(self@.stacks =~= old(self)@.stacks.update(
            stack as int,
            vacate(old(self)@.stacks[stack as int], begin as int, end as int),
        ));
        Ok(v)
    }

    /// Makes sure that a stack has that many slots.
    pub fn set_min_size(&mut self, stack: usize, n: OpIndex) -> (r: Result<(), Trap>)
        ensures
            match old(self)@.with_min_size(stack, n) {
                Ok(w) => r == Ok::<(), Trap>(()) && final(self)@ == w,
                Err(e) => r == Err::<(), Trap>(e) && final(self)@ == old(self)@,
            },
    {
        if stack >= self.stacks.len() || n < 0 {
            return Err(Trap::Fault);
        }
        let none: Vec<Value> = Vec::new();
        let have: usize = self.stacks[stack].len();
        let begin: usize = if n as usize > have {
            n as usize
        } else {
            have
        };
        let ghost want = widen(old(self)@.stacks[stack as int], n as int);
        let s = &mut self.stacks[stack];
        overlay_vec(s, begin, &none);
        assert(self@.stacks =~= old(self)@.stacks.update(stack as int, want));
        Ok(())
    }

    /// Adds a stack that starts with the given values.
    pub fn new_stack(&mut self, vals: &Vec<Value>) -> (r: usize)
        ensures
            r == old(self)@.stacks.len(),
            final(self)@ == (VmView {
                stacks: old(self)@.stacks.push(fresh_stack(vals@)),
                ..old(self)@
            }),
    {
        let r: usize = self.stacks.len();
        let mut s: Vec<Value> = Vec::new();
        let none: Vec<Value> = Vec::new();
        overlay_vec(&mut s, STACK_SIZE, &none);
        overlay_vec(&mut s, 0, vals);
        assert(s@ =~= fresh_stack(vals@));
        self.stacks.push(s);
        assert(self@.stacks =~= old(self)@.stacks.push(fresh_stack(vals@)));
        r
    }

    /// Gives up the content of a stack.
    pub fn drop_stack(&mut self, stack: usize)
        ensures
            final(self)@ == (if stack < old(self)@.stacks.len() {
                old(self)@.with_stack(stack, seq![])
            } else {
                old(self)@
            }),
    {
        if stack < self.stacks.len() {
            let s = &mut self.stacks[stack];
            s.clear();
            assert(self@.stacks =~= old(self)@.stacks.update(stack as int, seq![]));
        }
    }

    /// Reads an operand.
    pub fn read(&self, c: Ctx, p: &Bytecode, i: OpIndex) -> (r: Result<Value, Trap>)
        ensures
            r == self@.read(c, p.consts@, i),
    {
        if i < 0 {
            get_const(&p.consts, i)
        } else {
            let k: OpIndex = add_offset(c.sb, i)?;
            self.get(c.stack, k)
        }
    }

    /// Writes a result.
    pub fn write(&mut self, c: Ctx, d: OpIndex, v: Value) -> (r: Result<(), Trap>)
        ensures
            match old(self)@.write(c, d, v) {
                Ok(w) => r == Ok::<(), Trap>(()) && final(self)@ == w,
                Err(e) => r == Err::<(), Trap>(e) && final(self)@ == old(self)@,
            },
    {
        let k: OpIndex = add_offset(c.sb, d)?;
        self.set(c.stack, k, v)
    }

    /// Adds a captured variable.
    pub fn new_upval(&mut self, u: UpValueState) -> (r: usize)
        ensures
            r == old(self)@.upvals.len(),
            final(self)@ == old(self)@.with_new_upval(u),
    {
        let r: usize = self.upvals.len();
        self.upvals.push(u);
        r
    }

    /// Reads a captured variable.
    pub fn get_upvalue(&self, id: usize) -> (r: Result<Value, Trap>)
        ensures
            r == self@.upvalue(id),
    {
        if id >= self.upvals.len() {
            return Err(Trap::Fault);
        }
        match self.upvals[id] {
            UpValueState::Closed(v) => Ok(v),
            UpValueState::Open(d) => match d.stack {
                Some(s) => {
                    let k: OpIndex = add_offset(d.stack_base, d.index)?;
                    self.get(s, k)
                },
                None => Err(Trap::Fault),
            },
        }
    }

    /// Writes a captured variable.
    pub fn set_upvalue(&mut self, id: usize, v: Value) -> (r: Result<(), Trap>)
        ensures
            match old(self)@.with_upvalue(id, v) {
                Ok(w) => r == Ok::<(), Trap>(()) && final(self)@ == w,
                Err(e) => r == Err::<(), Trap>(e) && final(self)@ == old(self)@,
            },
    {
        if id >= self.upvals.len() {
            return Err(Trap::Fault);
        }
        match self.upvals[id] {
            UpValueState::Closed(_) => {
                self.upvals[id] = UpValueState::Closed(v);
                Ok(())
            },
            UpValueState::Open(d) => match d.stack {
                Some(s) => {
                    let k: OpIndex = add_offset(d.stack_base, d.index)?;
                    self.set(s, k, v)
                },
                None => Err(Trap::Fault),
            },
        }
    }
}

/// A stack that starts with the given values.
pub open spec fn fresh_stack(vals: Seq<Value>) -> Seq<Value> {
    overlay(widen(seq![], STACK_SIZE as int), 0, vals)
}

fn overlay_vec(s: &mut Vec<Value>, begin: usize, vals: &Vec<Value>)
    ensures
        final(s)@ == overlay(old(s)@, begin as int, vals@),
{
    while s.len() < begin
        invariant
            s@.len() <= begin || s@.len() == old(s)@.len(),
            s@.len() >= old(s)@.len(),
            forall|i: int| 0 <= i < old(s)@.len() ==> s@[i] == old(s)@[i],
            forall|i: int| old(s)@.len() <= i < s@.len() ==> s@[i] == void(),
        decreases begin - s@.len(),
    {
        s.push(Value::Nil(ValueType::Void));
    }
    let ghost mid = s@;
    let mut i: usize = 0;
    while i < vals.len()
        invariant
            i <= vals@.len(),
            begin <= mid.len(),
            s@.len() == (if mid.len() >= begin + i { mid.len() as int } else { begin + i }),
            forall|j: int|
                0 <= j < s@.len() ==> s@[j] == (if begin <= j < begin + i {
                    vals@[j - begin]
                } else {
                    mid[j]
                }),
        decreases vals@.len() - i,
    {
        let l: usize = s.len();
        if l - begin > i {
            s[begin + i] = vals[i];
        } else {
            s.push(vals[i]);
        }
        i = i + 1;
    }
    assert(s@ =~= overlay(old(s)@, begin as int, vals@));
}

fn vacate_vec(s: &mut Vec<Value>, begin: usize, end: usize) -> (r: Vec<Value>)
    requires
        begin <= end <= old(s)@.len(),
    ensures
        r@ == old(s)@.subrange(begin as int, end as int),
        final(s)@ == vacate(old(s)@, begin as int, end as int),
{
    let mut r: Vec<Value> = Vec::new();
    let mut i: usize = begin;
    while i < end
        invariant
            begin <= i <= end <= old(s)@.len(),
            s@ == vacate(old(s)@, begin as int, i as int),
            r@ == old(s)@.subrange(begin as int, i as int),
        decreases end - i,
    {
        r.push(s[i]);
        s[i] = Value::Nil(ValueType::Void);
        i = i + 1;
    }
    r
}

} // verus!

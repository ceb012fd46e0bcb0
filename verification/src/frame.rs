//! The frames of the functions that are being called.
use vstd::prelude::*;
use crate::bytecode::{Bytecode, FunctionObj};
use crate::machine::{add_offset, offset, UpValueState, Vm, VmView};
use crate::trap::Trap;
use crate::value::{FunctionKey, OpIndex, Region, Value, ValueType};

verus! {

/// The captured variables that lie in one slot of a frame.
#[derive(Clone, Debug)]
pub struct Referers {
    pub typ: ValueType,
    pub weaks: Vec<usize>,
}

/// The captured variables that lie in one slot of a frame.
pub struct ReferersView {
    pub typ: ValueType,
    pub weaks: Seq<usize>,
}

/// The captured variables that lie in a frame, by slot.
pub type Referred = Seq<(OpIndex, ReferersView)>;

/// A call that waits for its function to return: the frame it will run in and
/// what goes on the stack first.
#[derive(Clone, Debug)]
pub struct DeferredCall {
    pub func: FunctionKey,
    pub var_ptrs: Option<Region>,
    pub referred_by: Option<Vec<(OpIndex, Referers)>>,
    pub vec: Vec<Value>,
}

/// A call that waits for its function to return.
pub struct DeferredView {
    pub func: FunctionKey,
    pub var_ptrs: Option<Region>,
    pub referred_by: Option<Referred>,
    pub vec: Seq<Value>,
}

/// The frame of a function that is being called: the function, the position of
/// the next instruction, the base of its slots, its captured variables, the
/// variables that others captured in this frame, and the calls to make before
/// it returns.
#[derive(Clone, Debug)]
pub struct CallFrame {
    pub func: FunctionKey,
    pub pc: OpIndex,
    pub stack_base: OpIndex,
    pub var_ptrs: Option<Region>,
    pub referred_by: Option<Vec<(OpIndex, Referers)>>,
    pub defer_stack: Option<Vec<DeferredCall>>,
}

/// The frame of a function that is being called.
pub struct FrameView {
    pub func: FunctionKey,
    pub pc: OpIndex,
    pub stack_base: OpIndex,
    pub var_ptrs: Option<Region>,
    pub referred_by: Option<Referred>,
    pub defer_stack: Option<Seq<DeferredView>>,
}

impl Referers {
    /// The captured variables.
    pub open spec fn view(&self) -> ReferersView {
        ReferersView { typ: self.typ, weaks: self.weaks@ }
    }
}

/// The captured variables that lie in a frame.
pub open spec fn referred_view(v: Seq<(OpIndex, Referers)>) -> Referred {
    Seq::new(v.len(), |i: int| (v[i].0, v[i].1@))
}

/// The captured variables that lie in a frame, if there are any.
pub open spec fn opt_referred_view(v: Option<Vec<(OpIndex, Referers)>>) -> Option<Referred> {
    match v {
        Some(r) => Some(referred_view(r@)),
        None => None,
    }
}

impl DeferredCall {
    /// What the call needs.
    pub open spec fn view(&self) -> DeferredView {
        DeferredView {
            func: self.func,
            var_ptrs: self.var_ptrs,
            referred_by: opt_referred_view(self.referred_by),
            vec: self.vec@,
        }
    }
}

/// The calls that wait.
pub open spec fn deferred_view(v: Seq<DeferredCall>) -> Seq<DeferredView> {
    Seq::new(v.len(), |i: int| v[i]@)
}

/// The place in the list where a slot stands, from `i` on.
pub open spec fn slot_pos(refs: Referred, index: OpIndex, i: nat) -> Option<nat>
    decreases refs.len() - i,
{
    if i >= refs.len() {
        None
    } else if refs[i as int].0 == index {
        Some(i)
    } else {
        slot_pos(refs, index, i + 1)
    }
}

/// Whether a slot is noted with no other type than this.
pub open spec fn noted_as(refs: Referred, index: OpIndex, typ: ValueType) -> bool {
    slot_pos(refs, index, 0) matches Some(k) ==> refs[k as int].1.typ == typ
}

/// The list with a captured variable of a slot added.
pub open spec fn with_referrer(refs: Referred, index: OpIndex, typ: ValueType, uv: usize) -> Referred {
    match slot_pos(refs, index, 0) {
        Some(k) => refs.update(
            k as int,
            (
                index,
                ReferersView {
                    typ: refs[k as int].1.typ,
                    weaks: refs[k as int].1.weaks.push(uv),
                },
            ),
        ),
        None => refs.push((index, ReferersView { typ, weaks: seq![uv] })),
    }
}

/// The list behind an option.
pub open spec fn or_empty(refs: Option<Referred>) -> Referred {
    match refs {
        Some(r) => r,
        None => seq![],
    }
}

/// The tables once captured variables, from `i` on, hold a value of their own.
pub open spec fn close_all(w: VmView, weaks: Seq<usize>, i: nat, val: Value) -> Result<VmView, Trap>
    decreases weaks.len() - i,
{
    if i >= weaks.len() {
        Ok(w)
    } else if weaks[i as int] < w.upvals.len() {
        close_all(
            VmView {
                upvals: w.upvals.update(weaks[i as int] as int, UpValueState::Closed(val)),
                ..w
            },
            weaks,
            i + 1,
            val,
        )
    } else {
        Err(Trap::Fault)
    }
}

/// The tables once the captured variables of all slots, from `i` on, hold what
/// their slot holds.
pub open spec fn close_slots(w: VmView, stack: usize, base: OpIndex, refs: Referred, i: nat) -> Result<
    VmView,
    Trap,
>
    decreases refs.len() - i,
{
    if i >= refs.len() {
        Ok(w)
    } else if refs[i as int].1.weaks.len() == 0 {
        close_slots(w, stack, base, refs, i + 1)
    } else {
        match offset(base, refs[i as int].0) {
            Ok(k) => match w.slot(stack, k) {
                Ok(val) => match close_all(w, refs[i as int].1.weaks, 0, val) {
                    Ok(w1) => close_slots(w1, stack, base, refs, i + 1),
                    Err(e) => Err(e),
                },
                Err(e) => Err(e),
            },
            Err(e) => Err(e),
        }
    }
}

impl CallFrame {
    /// What the frame holds.
    pub open spec fn view(&self) -> FrameView {
        FrameView {
            func: self.func,
            pc: self.pc,
            stack_base: self.stack_base,
            var_ptrs: self.var_ptrs,
            referred_by: opt_referred_view(self.referred_by),
            defer_stack: match self.defer_stack {
                Some(d) => Some(deferred_view(d@)),
                None => None,
            },
        }
    }

    /// The frame of a call that starts.
    pub open spec fn started(func: FunctionKey, sbase: OpIndex) -> FrameView {
        FrameView {
            func,
            pc: 0,
            stack_base: sbase,
            var_ptrs: None,
            referred_by: None,
            defer_stack: None,
        }
    }

    /// Makes the frame of a call that starts.
    pub fn with_closure(func: FunctionKey, sbase: OpIndex) -> (r: CallFrame)
        ensures
            r@ == Self::started(func, sbase),
    {
        CallFrame {
            func,
            pc: 0,
            stack_base: sbase,
            var_ptrs: None,
            referred_by: None,
            defer_stack: None,
        }
    }

    /// Tests whether a slot of the frame is noted with no other type than this.
    pub fn is_noted_as(&self, index: OpIndex, typ: ValueType) -> (r: bool)
        ensures
            r == noted_as(or_empty(self@.referred_by), index, typ),
    {
        let map = match &self.referred_by {
            Some(map) => map,
            None => return true,
        };
        let ghost refs = or_empty(self@.referred_by);
        let mut i: usize = 0;
        while i < map.len()
            invariant
                refs == or_empty(self@.referred_by),
                refs == referred_view(map@),
                i <= map@.len(),
                slot_pos(refs, index, 0) == slot_pos(refs, index, i as nat),
            decreases map@.len() - i,
        {
            assert(refs[i as int] == (map@[i as int].0, map@[i as int].1@));
            if map[i].0 == index {
                return map[i].1.typ == typ;
            }
            i = i + 1;
        }
        true
    }

    /// Notes that a captured variable lies in a slot of the frame. A slot has one
    /// type.
    pub fn add_referred_by(&mut self, index: OpIndex, typ: ValueType, uv: usize)
        requires
            noted_as(or_empty(old(self)@.referred_by), index, typ),
        ensures
            final(self)@ == (FrameView {
                referred_by: Some(
                    with_referrer(or_empty(old(self)@.referred_by), index, typ, uv),
                ),
                ..old(self)@
            }),
    {
        if self.referred_by.is_none() {
            self.referred_by = Some(Vec::new());
        }
        let ghost refs = or_empty(old(self)@.referred_by);
        match &mut self.referred_by {
            Some(map) => {
                assert(referred_view(map@) =~= refs);
                add_referrer(map, index, typ, uv);
            },
            None => {},
        }
    }

    /// Which function the frame belongs to.
    pub fn func(&self) -> (r: FunctionKey)
        ensures
            r == self@.func,
    {
        self.func
    }

    /// The function that the frame belongs to.
    pub fn func_obj<'a>(&self, p: &'a Bytecode) -> (r: &'a FunctionObj)
        requires
            self@.func < p.functions@.len(),
        ensures
            *r == p.functions@[self@.func as int],
    {
        &p.functions[self.func]
    }

    /// Gives every variable that was captured in the frame a life of its own.
    pub fn on_drop(&self, vm: &mut Vm, stack: usize) -> (r: Result<(), Trap>)
        ensures
            match close_slots(old(vm)@, stack, self@.stack_base, or_empty(self@.referred_by), 0) {
                Ok(w) => r == Ok::<(), Trap>(()) && final(vm)@ == w,
                Err(e) => r == Err::<(), Trap>(e) && e == Trap::Fault,
            },
    {
        match &self.referred_by {
            Some(referred) => close_frame(vm, stack, self.stack_base, referred),
            None => Ok(()),
        }
    }
}

fn add_referrer(map: &mut Vec<(OpIndex, Referers)>, index: OpIndex, typ: ValueType, uv: usize)
    ensures
        referred_view(final(map)@) == with_referrer(referred_view(old(map)@), index, typ, uv),
{
    let n: usize = map.len();
    let mut i: usize = 0;
    while i < n
        invariant
            *map == *old(map),
            n == map@.len(),
            i <= n,
            slot_pos(referred_view(map@), index, 0) == slot_pos(
                referred_view(map@),
                index,
                i as nat,
            ),
        decreases n - i,
    {
        if map[i].0 == index {
            let v = &mut map[i];
            v.1.weaks.push(uv);
            assert(referred_view(map@) =~= with_referrer(
                referred_view(old(map)@),
                index,
                typ,
                uv,
            ));
            return;
        }
        i = i + 1;
    }
    let mut weaks: Vec<usize> = Vec::new();
    weaks.push(uv);
    assert(weaks@ =~= seq![uv]);
    map.push((index, Referers { typ, weaks }));
    assert(referred_view(map@) =~= with_referrer(referred_view(old(map)@), index, typ, uv));
}

fn close_list(vm: &mut Vm, weaks: &Vec<usize>, val: Value) -> (r: Result<(), Trap>)
    ensures
        match close_all(old(vm)@, weaks@, 0, val) {
            Ok(w) => r == Ok::<(), Trap>(()) && final(vm)@ == w,
            Err(e) => r == Err::<(), Trap>(e) && e == Trap::Fault,
        },
{
    let mut i: usize = 0;
    while i < weaks.len()
        invariant
            i <= weaks@.len(),
            close_all(old(vm)@, weaks@, 0, val) == close_all(vm@, weaks@, i as nat, val),
        decreases weaks@.len() - i,
    {
        if weaks[i] >= vm.upvals.len() {
            return Err(Trap::Fault);
        }
        vm.upvals[weaks[i]] = UpValueState::Closed(val);
        i = i + 1;
    }
    Ok(())
}

fn close_frame(vm: &mut Vm, stack: usize, base: OpIndex, referred: &Vec<(OpIndex, Referers)>) -> (r:
    Result<(), Trap>)
    ensures
        match close_slots(old(vm)@, stack, base, referred_view(referred@), 0) {
            Ok(w) => r == Ok::<(), Trap>(()) && final(vm)@ == w,
            Err(e) => r == Err::<(), Trap>(e) && e == Trap::Fault,
        },
{
    let ghost refs = referred_view(referred@);
    let mut i: usize = 0;
    while i < referred.len()
        invariant
            refs == referred_view(referred@),
            i <= referred@.len(),
            close_slots(old(vm)@, stack, base, refs, 0) == close_slots(
                vm@,
                stack,
                base,
                refs,
                i as nat,
            ),
        decreases referred@.len() - i,
    {
        let e = &referred[i];
        assert(refs[i as int] == (e.0, e.1@));
        if e.1.weaks.len() > 0 {
            let k: OpIndex = add_offset(base, e.0)?;
            let val = vm.get(stack, k)?;
            close_list(vm, &e.1.weaks, val)?;
        }
        i = i + 1;
    }
    Ok(())
}

} // verus!

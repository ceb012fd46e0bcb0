//! Walks through the elements of a value.
use vstd::prelude::*;
use crate::bytecode::Bytecode;
use crate::content::{str_bytes, whole, whole_slice};
use crate::dict::map_get;
use crate::machine::{agrees, cell_of, next_region, region_cell, region_seq, Vm, VmView};
use crate::text::{char_at, get_char_at};
use crate::trap::{RuntimeError, Trap};
use crate::value::{int_of, rune_of, IntKind, Region, SliceRef, Value, ValueType};

verus! {

/// How far a walk has come: through the elements of a slice, the characters of
/// a string, or the keys that a map had when the walk began.
#[derive(Clone, Copy, PartialEq, Eq, Structural, Debug)]
pub enum RangeIter {
    List { s: SliceRef, next: usize },
    Text { s: SliceRef, next: usize },
    Dict { map: usize, keys: Region, next: usize },
}

/// Whether a walk is one through a value of type `t`.
pub open spec fn walks(it: RangeIter, t: ValueType) -> bool {
    match it {
        RangeIter::List { .. } => t == ValueType::Slice || t == ValueType::Array,
        RangeIter::Text { .. } => t == ValueType::String,
        RangeIter::Dict { .. } => t == ValueType::GoMap,
    }
}

/// The latest of the first `n` walks that is one through a value of type `t`.
pub open spec fn latest_walk(s: Seq<RangeIter>, t: ValueType, n: int) -> Option<int>
    decreases n,
{
    if n <= 0 {
        None
    } else if walks(s[n - 1], t) {
        Some(n - 1)
    } else {
        latest_walk(s, t, n - 1)
    }
}

/// Finds the latest walk through a value of type `t`.
pub fn find_walk(s: &Vec<RangeIter>, t: ValueType) -> (r: Option<usize>)
    ensures
        match latest_walk(s@, t, s@.len() as int) {
            Some(k) => r matches Some(i) && i == k && k < s@.len(),
            None => r is None,
        },
{
    let mut n: usize = s.len();
    while n > 0
        invariant
            n <= s@.len(),
            latest_walk(s@, t, s@.len() as int) == latest_walk(s@, t, n as int),
        decreases n,
    {
        let found = match s[n - 1] {
            RangeIter::List { .. } => t == ValueType::Slice || t == ValueType::Array,
            RangeIter::Text { .. } => t == ValueType::String,
            RangeIter::Dict { .. } => t == ValueType::GoMap,
        };
        if found {
            return Some(n - 1);
        }
        n = n - 1;
    }
    None
}

/// The keys of the entries.
pub open spec fn entry_keys(e: Seq<(Value, Value)>) -> Seq<Value> {
    Seq::new(e.len(), |i: int| e[i].0)
}

/// The walk that begins at a value of type `t`, which must not be nil. For a map
/// the keys are noted down in new cells.
pub open spec fn range_init(w: VmView, target: Value, t: ValueType) -> Result<
    (VmView, RangeIter),
    Trap,
> {
    match (t, target) {
        (ValueType::Slice | ValueType::GoMap, Value::Nil(_)) => Err(
            Trap::Panic(RuntimeError::NilAccess),
        ),
        (ValueType::Slice, Value::Slice(s)) => Ok((w, RangeIter::List { s, next: 0 })),
        (ValueType::Array, Value::Array(r)) => Ok((w, RangeIter::List { s: whole(r), next: 0 })),
        (ValueType::String, Value::Str(s)) => Ok((w, RangeIter::Text { s, next: 0 })),
        (ValueType::GoMap, Value::GoMap(m)) => if m < w.maps.len() {
            let keys = entry_keys(w.maps[m as int]);
            Ok(
                (
                    w.with_cells(w.cells + keys),
                    RangeIter::Dict { map: m, keys: next_region(w.cells, keys.len()), next: 0 },
                ),
            )
        } else {
            Err(Trap::Fault)
        },
        _ => Err(Trap::Fault),
    }
}

/// The next of the keys that the map still has, from `i` on, and its value.
pub open spec fn next_entry(p: &Bytecode, w: VmView, m: usize, keys: Seq<Value>, i: nat) -> Result<
    Option<(nat, Value)>,
    Trap,
>
    decreases keys.len() - i,
{
    if i >= keys.len() {
        Ok(None)
    } else {
        match map_get(p, w, m, keys[i as int]) {
            Ok(Some(v)) => Ok(Some((i, v))),
            Ok(None) => next_entry(p, w, m, keys, i + 1),
            Err(e) => Err(e),
        }
    }
}

/// The next pair of a walk, and the rest of the walk; nothing at its end.
pub open spec fn range_next(p: &Bytecode, w: VmView, it: RangeIter) -> Result<
    Option<(Value, Value, RangeIter)>,
    Trap,
> {
    match it {
        RangeIter::List { s, next } => if next < s.end - s.begin {
            match region_cell(s.array, s.begin + next) {
                Ok(a) => match w.cell(a as int) {
                    Ok(v) => Ok(
                        Some(
                            (
                                int_of(next as int),
                                v,
                                RangeIter::List { s, next: (next + 1) as usize },
                            ),
                        ),
                    ),
                    Err(e) => Err(e),
                },
                Err(e) => Err(e),
            }
        } else {
            Ok(None)
        },
        RangeIter::Text { s, next } => match str_bytes(w.cells, s) {
            Ok(b) => if next < b.len() {
                match char_at(b, next as int) {
                    Ok((c, n)) => Ok(
                        Some(
                            (
                                int_of(next as int),
                                rune_of(c as int),
                                RangeIter::Text { s, next: (next + n) as usize },
                            ),
                        ),
                    ),
                    Err(e) => Err(e),
                }
            } else {
                Ok(None)
            },
            Err(e) => Err(e),
        },
        RangeIter::Dict { map, keys, next } => match region_seq(w.cells, keys) {
            Ok(ks) => match next_entry(p, w, map, ks, next as nat) {
                Ok(Some((i, v))) => Ok(
                    Some(
                        (
                            ks[i as int],
                            v,
                            RangeIter::Dict { map, keys, next: (i + 1) as usize },
                        ),
                    ),
                ),
                Ok(None) => Ok(None),
                Err(e) => Err(e),
            },
            Err(e) => Err(e),
        },
    }
}

/// Where a key stands is behind where the search began.
proof fn lemma_next_entry(p: &Bytecode, w: VmView, m: usize, keys: Seq<Value>, i: nat)
    ensures
        next_entry(p, w, m, keys, i) matches Ok(Some((j, _))) ==> i <= j < keys.len(),
    decreases keys.len() - i,
{
    if i < keys.len() {
        lemma_next_entry(p, w, m, keys, i + 1);
    }
}

fn get_entry_keys(e: &Vec<(Value, Value)>) -> (r: Vec<Value>)
    ensures
        r@ == entry_keys(e@),
{
    let mut r: Vec<Value> = Vec::new();
    let mut i: usize = 0;
    while i < e.len()
        invariant
            i <= e@.len(),
            r@ == entry_keys(e@.subrange(0, i as int)),
        decreases e@.len() - i,
    {
        r.push(e[i].0);
        assert(r@ =~= entry_keys(e@.subrange(0, i + 1)));
        i = i + 1;
    }
    assert(e@.subrange(0, e@.len() as int) =~= e@);
    r
}

impl Vm {
    /// Begins a walk.
    pub fn range_init(&mut self, target: Value, t: ValueType) -> (r: Result<RangeIter, Trap>)
        ensures
            agrees(r, old(self)@, final(self)@, range_init(old(self)@, target, t)),
    {
        match (t, target) {
            (ValueType::Slice | ValueType::GoMap, Value::Nil(_)) => Err(
                Trap::Panic(RuntimeError::NilAccess),
            ),
            (ValueType::Slice, Value::Slice(s)) => Ok(RangeIter::List { s, next: 0 }),
            (ValueType::Array, Value::Array(a)) => Ok(
                RangeIter::List { s: whole_slice(a), next: 0 },
            ),
            (ValueType::String, Value::Str(s)) => Ok(RangeIter::Text { s, next: 0 }),
            (ValueType::GoMap, Value::GoMap(m)) => {
                if m >= self.maps.len() {
                    return Err(Trap::Fault);
                }
                let ks = get_entry_keys(&self.maps[m]);
                let keys = self.new_cells(&ks);
                Ok(RangeIter::Dict { map: m, keys, next: 0 })
            },
            _ => Err(Trap::Fault),
        }
    }

    /// Takes the next pair of a walk.
    pub fn range_next(&self, p: &Bytecode, it: RangeIter) -> (r: Result<
        Option<(Value, Value, RangeIter)>,
        Trap,
    >)
        ensures
            r == range_next(p, self@, it),
    {
        match it {
                RangeIter::List { s, next } => {
                if (next as i128) < s.end as i128 - s.begin as i128 {
                    let a: usize = cell_of(s.array, s.begin + next)?;
                    let v = self.get_cell(a)?;
                    Ok(
                        Some(
                            (
                                Value::Int(IntKind::Int, next as i128),
                                v,
                                RangeIter::List { s, next: next + 1 },
                            ),
                        ),
                    )
                } else {
                    Ok(None)
                }
            },
            RangeIter::Text { s, next } => {
                let b = self.get_bytes(s)?;
                if next < b.len() {
                    let (c, n) = get_char_at(&b, next)?;
                    Ok(
                        Some(
                            (
                                Value::Int(IntKind::Int, next as i128),
                                Value::Int(IntKind::Int32, c as i128),
                                RangeIter::Text { s, next: next + n },
                            ),
                        ),
                    )
                } else {
                    Ok(None)
                }
            },
            RangeIter::Dict { map, keys, next } => {
                let ks = self.get_region(keys)?;
                let mut i: usize = next;
                proof {
                    lemma_next_entry(p, self@, map, ks@, next as nat);
                }
                while i < ks.len()
                    invariant
                        region_seq(self@.cells, keys) == Ok::<Seq<Value>, Trap>(ks@),
                        next_entry(p, self@, map, ks@, next as nat) == next_entry(
                            p,
                            self@,
                            map,
                            ks@,
                            i as nat,
                        ),
                        it == (RangeIter::Dict { map, keys, next }),
                    decreases ks@.len() - i,
                {
                    match self.map_get(p, map, ks[i])? {
                        Some(v) => {
                            return Ok(
                                Some((ks[i], v, RangeIter::Dict { map, keys, next: i + 1 })),
                            );
                        },
                        None => {},
                    }
                    i = i + 1;
                }
                Ok(None)
            },
        }
    }
}

} // verus!

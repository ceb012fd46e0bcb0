//! The maps of the running program. The entries of a map are kept in the order
//! in which their keys came in.
use vstd::prelude::*;
use crate::bytecode::Bytecode;
use crate::content::values_equal;
use crate::machine::{Vm, VmView};
use crate::trap::Trap;
use crate::value::Value;

verus! {

/// Where the key stands among the entries from `i` on.
pub open spec fn find(
    p: &Bytecode,
    w: VmView,
    entries: Seq<(Value, Value)>,
    key: Value,
    i: nat,
) -> Result<Option<nat>, Trap>
    decreases entries.len() - i,
{
    if i >= entries.len() {
        Ok(None)
    } else {
        match values_equal(p, w, entries[i as int].0, key) {
            Ok(true) => Ok(Some(i)),
            Ok(false) => find(p, w, entries, key, i + 1),
            Err(e) => Err(e),
        }
    }
}

/// Where the key stands in a map.
pub open spec fn locate(p: &Bytecode, w: VmView, m: usize, key: Value) -> Result<
    Option<nat>,
    Trap,
> {
    if m < w.maps.len() {
        find(p, w, w.maps[m as int], key, 0)
    } else {
        Err(Trap::Fault)
    }
}

/// What a map holds for a key.
pub open spec fn map_get(p: &Bytecode, w: VmView, m: usize, key: Value) -> Result<
    Option<Value>,
    Trap,
> {
    match locate(p, w, m, key) {
        Ok(Some(i)) => Ok(Some(w.maps[m as int][i as int].1)),
        Ok(None) => Ok(None),
        Err(e) => Err(e),
    }
}

/// The tables with other entries in a map.
pub open spec fn with_map(w: VmView, m: usize, entries: Seq<(Value, Value)>) -> VmView {
    VmView { maps: w.maps.update(m as int, entries), ..w }
}

/// The tables once a map holds a value for a key.
pub open spec fn map_insert(p: &Bytecode, w: VmView, m: usize, key: Value, v: Value) -> Result<
    VmView,
    Trap,
> {
    match locate(p, w, m, key) {
        Ok(Some(i)) => Ok(
            with_map(w, m, w.maps[m as int].update(i as int, (w.maps[m as int][i as int].0, v))),
        ),
        Ok(None) => Ok(with_map(w, m, w.maps[m as int].push((key, v)))),
        Err(e) => Err(e),
    }
}

/// The tables once a map holds nothing for a key.
pub open spec fn map_delete(p: &Bytecode, w: VmView, m: usize, key: Value) -> Result<
    VmView,
    Trap,
> {
    match locate(p, w, m, key) {
        Ok(Some(i)) => Ok(with_map(w, m, w.maps[m as int].remove(i as int))),
        Ok(None) => Ok(w),
        Err(e) => Err(e),
    }
}

/// The tables with a map added, which is the last one.
pub open spec fn with_new_map(w: VmView) -> VmView {
    VmView { maps: w.maps.push(seq![]), ..w }
}

/// Looking for a key never makes the program panic.
pub proof fn lemma_find_no_panic(
    p: &Bytecode,
    w: VmView,
    entries: Seq<(Value, Value)>,
    key: Value,
    i: nat,
)
    ensures
        find(p, w, entries, key, i) matches Err(e) ==> e == Trap::Fault,
        find(p, w, entries, key, i) matches Ok(Some(n)) ==> i <= n < entries.len(),
    decreases entries.len() - i,
{
    if i < entries.len() {
        crate::content::lemma_equal_no_panic(
            p,
            w.cells,
            entries[i as int].0,
            key,
            crate::content::depth(w.cells),
        );
        lemma_find_no_panic(p, w, entries, key, i + 1);
    }
}

impl Vm {
    fn locate(&self, p: &Bytecode, m: usize, key: Value) -> (r: Result<Option<usize>, Trap>)
        ensures
            match locate(p, self@, m, key) {
                Ok(Some(i)) => r == Ok::<Option<usize>, Trap>(Some(i as usize)) && i
                    < self@.maps[m as int].len() && m < self@.maps.len() && i as usize == i,
                Ok(None) => r == Ok::<Option<usize>, Trap>(None) && m < self@.maps.len(),
                Err(e) => r == Err::<Option<usize>, Trap>(e) && e == Trap::Fault,
            },
    {
        if m >= self.maps.len() {
            return Err(Trap::Fault);
        }
        let n: usize = self.maps[m].len();
        let mut i: usize = 0;
        proof {
            lemma_find_no_panic(p, self@, self@.maps[m as int], key, 0);
        }
        while i < n
            invariant
                m < self.maps@.len(),
                n == self@.maps[m as int].len(),
                i <= n,
                locate(p, self@, m, key) == find(p, self@, self@.maps[m as int], key, i as nat),
                locate(p, self@, m, key) matches Err(e) ==> e == Trap::Fault,
            decreases n - i,
        {
            match self.equal(p, self.maps[m][i].0, key) {
                Ok(true) => return Ok(Some(i)),
                Ok(false) => {},
                Err(e) => return Err(e),
            }
            i = i + 1;
        }
        Ok(None)
    }

    /// Reads the value for a key.
    pub fn map_get(&self, p: &Bytecode, m: usize, key: Value) -> (r: Result<Option<Value>, Trap>)
        ensures
            r == map_get(p, self@, m, key),
    {
        match self.locate(p, m, key)? {
            Some(i) => Ok(Some(self.maps[m][i].1)),
            None => Ok(None),
        }
    }

    /// Writes the value for a key.
    pub fn map_insert(&mut self, p: &Bytecode, m: usize, key: Value, v: Value) -> (r: Result<
        (),
        Trap,
    >)
        ensures
            match map_insert(p, old(self)@, m, key, v) {
                Ok(w) => r == Ok::<(), Trap>(()) && final(self)@ == w,
                Err(e) => r == Err::<(), Trap>(e) && final(self)@ == old(self)@ && e
                    == Trap::Fault,
            },
    {
        match self.locate(p, m, key)? {
            Some(i) => {
                let k = self.maps[m][i].0;
                let entries = &mut self.maps[m];
                entries[i] = (k, v);
                assert(self@.maps =~= old(self)@.maps.update(
                    m as int,
                    old(self)@.maps[m as int].update(i as int, (k, v)),
                ));
            },
            None => {
                let entries = &mut self.maps[m];
                entries.push((key, v));
                assert(self@.maps =~= old(self)@.maps.update(
                    m as int,
                    old(self)@.maps[m as int].push((key, v)),
                ));
            },
        }
        Ok(())
    }

    /// Drops the value for a key.
    pub fn map_delete(&mut self, p: &Bytecode, m: usize, key: Value) -> (r: Result<(), Trap>)
        ensures
            match map_delete(p, old(self)@, m, key) {
                Ok(w) => r == Ok::<(), Trap>(()) && final(self)@ == w,
                Err(e) => r == Err::<(), Trap>(e) && final(self)@ == old(self)@ && e
                    == Trap::Fault,
            },
    {
        match self.locate(p, m, key)? {
            Some(i) => {
                let entries = &mut self.maps[m];
                entries.remove(i);
                assert(self@.maps =~= old(self)@.maps.update(
                    m as int,
                    old(self)@.maps[m as int].remove(i as int),
                ));
            },
            None => {},
        }
        Ok(())
    }

    /// Adds an empty map.
    pub fn new_map(&mut self) -> (r: usize)
        ensures
            r == old(self)@.maps.len(),
            final(self)@ == with_new_map(old(self)@),
    {
        let r: usize = self.maps.len();
        self.maps.push(Vec::new());
        assert(self@.maps =~= old(self)@.maps.push(seq![]));
        r
    }
}

} // verus!

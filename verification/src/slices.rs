//! Slices, arrays and strings as sequences of elements.
use vstd::prelude::*;
use crate::content::{copy_all, slice_seq, whole, whole_slice};
use crate::machine::{next_region, overlay, Vm, VmView};
use crate::trap::{RuntimeError, Trap};
use crate::value::{void, SliceRef, Value, ValueType};

verus! {

/// The bounds that a part of a sequence gets: an `end` or `max` of -1 means as
/// far as possible. Nothing if they are out of order or reach too far.
pub open spec fn bounds(begin: int, end: int, max: int, len: int, cap: int) -> Option<
    (int, int, int),
> {
    let e = if end == -1 {
        len
    } else {
        end
    };
    let m = if max == -1 {
        cap
    } else {
        max
    };
    if 0 <= begin <= e <= m <= cap {
        Some((begin, e, m))
    } else {
        None
    }
}

fn get_bounds(begin: i128, end: i128, max: i128, len: usize, cap: usize) -> (r: Option<
    (usize, usize, usize),
>)
    ensures
        match bounds(begin as int, end as int, max as int, len as int, cap as int) {
            Some((b, e, m)) => r == Some((b as usize, e as usize, m as usize)) && 0 <= b <= e <= m
                <= cap,
            None => r is None,
        },
{
    let e: i128 = if end == -1 {
        len as i128
    } else {
        end
    };
    let m: i128 = if max == -1 {
        cap as i128
    } else {
        max
    };
    if 0 <= begin && begin <= e && e <= m && m <= cap as i128 {
        Some((begin as usize, e as usize, m as usize))
    } else {
        None
    }
}

/// Whether a slice lies within its array.
pub open spec fn in_order(s: SliceRef) -> bool {
    s.begin <= s.end <= s.cap_end <= s.array.len
}

/// A part of a slice.
pub open spec fn part(s: SliceRef, b: int, e: int, m: int) -> SliceRef {
    SliceRef {
        array: s.array,
        begin: (s.begin + b) as usize,
        end: (s.begin + e) as usize,
        cap_end: (s.begin + m) as usize,
    }
}

/// A part of a slice; a nil slice has no elements.
pub open spec fn slice_slice(v: Value, begin: int, end: int, max: int) -> Result<Value, Trap> {
    match v {
        Value::Nil(_) => match bounds(begin, end, max, 0, 0) {
            Some(_) => Ok(v),
            None => Err(Trap::Panic(RuntimeError::SliceOutOfRange)),
        },
        Value::Slice(s) => if in_order(s) {
            match bounds(begin, end, max, s.end - s.begin, s.cap_end - s.begin) {
                Some((b, e, m)) => Ok(Value::Slice(part(s, b, e, m))),
                None => Err(Trap::Panic(RuntimeError::SliceOutOfRange)),
            }
        } else {
            Err(Trap::Fault)
        },
        _ => Err(Trap::Fault),
    }
}

/// A part of a string.
pub open spec fn slice_string(v: Value, begin: int, end: int, max: int) -> Result<Value, Trap> {
    match v {
        Value::Str(s) => if in_order(s) {
            match bounds(begin, end, max, s.end - s.begin, s.end - s.begin) {
                Some((b, e, m)) => Ok(Value::Str(part(s, b, e, m))),
                None => Err(Trap::Panic(RuntimeError::SliceOutOfRange)),
            }
        } else {
            Err(Trap::Fault)
        },
        _ => Err(Trap::Fault),
    }
}

/// A slice of a part of an array.
pub open spec fn slice_array(v: Value, begin: int, end: int) -> Result<Value, Trap> {
    match v {
        Value::Array(r) => match bounds(begin, end, -1, r.len as int, r.len as int) {
            Some((b, e, m)) => Ok(Value::Slice(part(whole(r), b, e, m))),
            None => Err(Trap::Panic(RuntimeError::SliceOutOfRange)),
        },
        _ => Err(Trap::Fault),
    }
}

fn get_part(s: SliceRef, b: usize, e: usize, m: usize) -> (r: SliceRef)
    requires
        b <= e <= m,
        s.begin + m <= usize::MAX,
    ensures
        r == part(s, b as int, e as int, m as int),
{
    SliceRef { array: s.array, begin: s.begin + b, end: s.begin + e, cap_end: s.begin + m }
}

fn is_in_order(s: SliceRef) -> (r: bool)
    ensures
        r == in_order(s),
{
    s.begin <= s.end && s.end <= s.cap_end && s.cap_end <= s.array.len
}

/// Takes a part of a slice.
pub fn get_slice_slice(v: Value, begin: i128, end: i128, max: i128) -> (r: Result<Value, Trap>)
    ensures
        r == slice_slice(v, begin as int, end as int, max as int),
{
    match v {
        Value::Nil(_) => match get_bounds(begin, end, max, 0, 0) {
            Some(_) => Ok(v),
            None => Err(Trap::Panic(RuntimeError::SliceOutOfRange)),
        },
        Value::Slice(s) => if is_in_order(s) {
            match get_bounds(begin, end, max, s.end - s.begin, s.cap_end - s.begin) {
                Some((b, e, m)) => Ok(Value::Slice(get_part(s, b, e, m))),
                None => Err(Trap::Panic(RuntimeError::SliceOutOfRange)),
            }
        } else {
            Err(Trap::Fault)
        },
        _ => Err(Trap::Fault),
    }
}

/// Takes a part of a string.
pub fn get_slice_string(v: Value, begin: i128, end: i128, max: i128) -> (r: Result<Value, Trap>)
    ensures
        r == slice_string(v, begin as int, end as int, max as int),
{
    match v {
        Value::Str(s) => if is_in_order(s) {
            match get_bounds(begin, end, max, s.end - s.begin, s.end - s.begin) {
                Some((b, e, m)) => Ok(Value::Str(get_part(s, b, e, m))),
                None => Err(Trap::Panic(RuntimeError::SliceOutOfRange)),
            }
        } else {
            Err(Trap::Fault)
        },
        _ => Err(Trap::Fault),
    }
}

/// Takes a slice of a part of an array.
pub fn get_slice_array(v: Value, begin: i128, end: i128) -> (r: Result<Value, Trap>)
    ensures
        r == slice_array(v, begin as int, end as int),
{
    match v {
        Value::Array(a) => match get_bounds(begin, end, -1, a.len, a.len) {
            Some((b, e, m)) => Ok(Value::Slice(get_part(whole_slice(a), b, e, m))),
            None => Err(Trap::Panic(RuntimeError::SliceOutOfRange)),
        },
        _ => Err(Trap::Fault),
    }
}

/// The elements of a slice (of a string if `text`); nil has none.
pub open spec fn elements(w: VmView, text: bool, v: Value) -> Result<Seq<Value>, Trap> {
    match v {
        Value::Nil(_) => if text {
            Err(Trap::Fault)
        } else {
            Ok(seq![])
        },
        Value::Slice(s) => if text {
            Err(Trap::Fault)
        } else {
            slice_seq(w.cells, s)
        },
        Value::Str(s) => if text {
            slice_seq(w.cells, s)
        } else {
            Err(Trap::Fault)
        },
        _ => Err(Trap::Fault),
    }
}

/// The tables with the given elements in a new array, and a slice of them.
pub open spec fn slice_with_data(w: VmView, vals: Seq<Value>) -> (VmView, Value) {
    (w.with_cells(w.cells + vals), Value::Slice(whole(next_region(w.cells, vals.len()))))
}

/// The tables with the given elements in a new array, and the array.
pub open spec fn array_with_data(w: VmView, vals: Seq<Value>) -> (VmView, Value) {
    (w.with_cells(w.cells + vals), Value::Array(next_region(w.cells, vals.len())))
}

/// `n` times the same value.
pub open spec fn repeated(v: Value, n: nat) -> Seq<Value> {
    Seq::new(n, |i: int| v)
}

/// The tables with a new array of `cap` copies of a value, and a slice of the
/// first `len` of them.
pub open spec fn slice_with_size(w: VmView, len: usize, cap: usize, zero: Value) -> Result<
    (VmView, Value),
    Trap,
> {
    if len > cap {
        Err(Trap::Fault)
    } else {
        match copy_all(w, repeated(zero, cap as nat)) {
            Ok((w1, vals)) => Ok(
                (
                    w1.with_cells(w1.cells + vals),
                    Value::Slice(
                        SliceRef {
                            array: next_region(w1.cells, vals.len()),
                            begin: 0,
                            end: len,
                            cap_end: cap,
                        },
                    ),
                ),
            ),
            Err(e) => Err(e),
        }
    }
}

/// The room that a slice gets when it outgrows its array.
pub open spec fn grown(cap: int, need: int) -> int {
    if need >= 2 * cap {
        need
    } else {
        2 * cap
    }
}

/// The tables after values were added to a slice, and the slice with them. The
/// values go behind the slice if there is room in its array, and into a new
/// array with the old elements otherwise.
pub open spec fn append_values(w: VmView, a: Value, vals: Seq<Value>) -> Result<
    (VmView, Value),
    Trap,
> {
    match a {
        Value::Nil(_) => if vals.len() == 0 {
            Ok((w, a))
        } else {
            Ok(slice_with_data(w, vals))
        },
        Value::Slice(s) => if in_order(s) && s.array.base + s.array.len <= w.cells.len() {
            let len = s.end - s.begin;
            let cap = s.cap_end - s.begin;
            let need = len + vals.len();
            if need <= cap {
                Ok(
                    (
                        w.with_cells(overlay(w.cells, s.array.base + s.end, vals)),
                        Value::Slice(SliceRef { end: (s.end + vals.len()) as usize, ..s }),
                    ),
                )
            } else {
                let old = w.cells.subrange(s.array.base + s.begin, s.array.base + s.end);
                let room = grown(cap, need);
                let all = old + vals + repeated(void(), (room - need) as nat);
                if room <= usize::MAX {
                    Ok(
                        (
                            w.with_cells(w.cells + all),
                            Value::Slice(
                                SliceRef {
                                    array: next_region(w.cells, all.len()),
                                    begin: 0,
                                    end: need as usize,
                                    cap_end: room as usize,
                                },
                            ),
                        ),
                    )
                } else {
                    Err(Trap::Fault)
                }
            }
        } else {
            Err(Trap::Fault)
        },
        _ => Err(Trap::Fault),
    }
}

/// The tables after copies of the elements of `b` were added to `a`.
pub open spec fn slice_append(w: VmView, text: bool, a: Value, b: Value) -> Result<
    (VmView, Value),
    Trap,
> {
    match elements(w, text, b) {
        Ok(src) => match copy_all(w, src) {
            Ok((w1, vals)) => append_values(w1, a, vals),
            Err(e) => Err(e),
        },
        Err(e) => Err(e),
    }
}

/// The tables after the first elements of `a` were replaced with copies of
/// those of `b`, and how many there were.
pub open spec fn slice_copy_from(w: VmView, text: bool, a: Value, b: Value) -> Result<
    (VmView, int),
    Trap,
> {
    match (elements(w, false, a), elements(w, text, b)) {
        (Ok(dst), Ok(src)) => {
            let n = if dst.len() <= src.len() {
                dst.len() as int
            } else {
                src.len() as int
            };
            match copy_all(w, src.subrange(0, n)) {
                Ok((w1, vals)) => match a {
                    Value::Slice(s) => Ok(
                        (w1.with_cells(overlay(w1.cells, s.array.base + s.begin, vals)), n),
                    ),
                    _ => Ok((w1, n)),
                },
                Err(e) => Err(e),
            }
        },
        _ => Err(Trap::Fault),
    }
}

/// How many elements a value has; a channel is not counted here.
pub open spec fn length(w: VmView, v: Value) -> Result<int, Trap> {
    match v {
        Value::Nil(_) => Ok(0),
        Value::Str(s) => if in_order(s) {
            Ok(s.end - s.begin)
        } else {
            Err(Trap::Fault)
        },
        Value::Slice(s) => if in_order(s) {
            Ok(s.end - s.begin)
        } else {
            Err(Trap::Fault)
        },
        Value::Array(r) => Ok(r.len as int),
        Value::GoMap(m) => if m < w.maps.len() {
            Ok(w.maps[m as int].len() as int)
        } else {
            Err(Trap::Fault)
        },
        _ => Err(Trap::Fault),
    }
}

/// How many elements a value has room for.
pub open spec fn capacity(w: VmView, v: Value) -> Result<int, Trap> {
    match v {
        Value::Nil(_) => Ok(0),
        Value::Slice(s) => if in_order(s) {
            Ok(s.cap_end - s.begin)
        } else {
            Err(Trap::Fault)
        },
        Value::Array(r) => Ok(r.len as int),
        Value::Channel(c) => if c < w.chans.len() {
            Ok(w.chans[c as int].cap as int)
        } else {
            Err(Trap::Fault)
        },
        _ => Err(Trap::Fault),
    }
}

fn repeat_value(v: Value, n: usize) -> (r: Vec<Value>)
    ensures
        r@ == repeated(v, n as nat),
{
    let mut r: Vec<Value> = Vec::new();
    let mut i: usize = 0;
    while i < n
        invariant
            i <= n,
            r@ == repeated(v, i as nat),
        decreases n - i,
    {
        r.push(v);
        assert(r@ =~= repeated(v, (i + 1) as nat));
        i = i + 1;
    }
    r
}

fn extend_values(a: &mut Vec<Value>, b: &Vec<Value>)
    ensures
        final(a)@ == old(a)@ + b@,
{
    let mut i: usize = 0;
    while i < b.len()
        invariant
            i <= b@.len(),
            a@ == old(a)@ + b@.subrange(0, i as int),
        decreases b@.len() - i,
    {
        a.push(b[i]);
        assert(a@ =~= old(a)@ + b@.subrange(0, i + 1));
        i = i + 1;
    }
    assert(b@.subrange(0, b@.len() as int) =~= b@);
}

fn take_values(a: &Vec<Value>, n: usize) -> (r: Vec<Value>)
    requires
        n <= a@.len(),
    ensures
        r@ == a@.subrange(0, n as int),
{
    let mut r: Vec<Value> = Vec::new();
    let mut i: usize = 0;
    while i < n
        invariant
            i <= n <= a@.len(),
            r@ == a@.subrange(0, i as int),
        decreases n - i,
    {
        r.push(a[i]);
        i = i + 1;
    }
    r
}

impl Vm {
    /// Reads the elements of a slice or a string.
    pub fn get_elements(&self, text: bool, v: Value) -> (r: Result<Vec<Value>, Trap>)
        ensures
            match elements(self@, text, v) {
                Ok(s) => r is Ok && r->Ok_0@ == s,
                Err(e) => r == Err::<Vec<Value>, Trap>(e) && e == Trap::Fault,
            },
    {
        match v {
            Value::Nil(_) => if text {
                Err(Trap::Fault)
            } else {
                Ok(Vec::new())
            },
            Value::Slice(s) => if text {
                Err(Trap::Fault)
            } else {
                self.get_slice(s)
            },
            Value::Str(s) => if text {
                self.get_slice(s)
            } else {
                Err(Trap::Fault)
            },
            _ => Err(Trap::Fault),
        }
    }

    /// Makes a slice of the given elements.
    pub fn slice_with_data(&mut self, vals: &Vec<Value>) -> (r: Value)
        ensures
            (final(self)@, r) == slice_with_data(old(self)@, vals@),
    {
        let r = self.new_cells(vals);
        Value::Slice(whole_slice(r))
    }

    /// Makes an array of the given elements.
    pub fn array_with_data(&mut self, vals: &Vec<Value>) -> (r: Value)
        ensures
            (final(self)@, r) == array_with_data(old(self)@, vals@),
    {
        let r = self.new_cells(vals);
        Value::Array(r)
    }

    /// Makes a slice of copies of a value.
    pub fn slice_with_size(&mut self, len: usize, cap: usize, zero: Value) -> (r: Result<
        Value,
        Trap,
    >)
        ensures
            match slice_with_size(old(self)@, len, cap, zero) {
                Ok((w, v)) => r == Ok::<Value, Trap>(v) && final(self)@ == w,
                Err(e) => r == Err::<Value, Trap>(e) && e == Trap::Fault,
            },
    {
        if len > cap {
            return Err(Trap::Fault);
        }
        let zeros = repeat_value(zero, cap);
        let vals = self.copy_all(&zeros)?;
        let array = self.new_cells(&vals);
        Ok(Value::Slice(SliceRef { array, begin: 0, end: len, cap_end: cap }))
    }

    fn write_cells(&mut self, at: usize, vals: &Vec<Value>)
        requires
            at + vals@.len() <= old(self)@.cells.len(),
        ensures
            final(self)@ == old(self)@.with_cells(overlay(old(self)@.cells, at as int, vals@)),
    {
        let mut i: usize = 0;
        while i < vals.len()
            invariant
                i <= vals@.len(),
                at + vals@.len() <= self.cells@.len(),
                at + vals@.len() <= self.cells.len(),
                self.cells@.len() == old(self)@.cells.len(),
                self@ == old(self)@.with_cells(self@.cells),
                forall|j: int|
                    0 <= j < self.cells@.len() ==> self.cells@[j] == (if at <= j < at + i {
                        vals@[j - at]
                    } else {
                        old(self)@.cells[j]
                    }),
            decreases vals@.len() - i,
        {
            self.cells[at + i] = vals[i];
            i = i + 1;
        }
        assert(self.cells@ =~= overlay(old(self)@.cells, at as int, vals@));
    }

    fn append_values(&mut self, a: Value, vals: &Vec<Value>) -> (r: Result<Value, Trap>)
        ensures
            match append_values(old(self)@, a, vals@) {
                Ok((w, v)) => r == Ok::<Value, Trap>(v) && final(self)@ == w,
                Err(e) => r == Err::<Value, Trap>(e) && e == Trap::Fault,
            },
    {
        match a {
            Value::Nil(_) => if vals.len() == 0 {
                Ok(a)
            } else {
                Ok(self.slice_with_data(vals))
            },
            Value::Slice(s) => {
                let n: usize = self.cells.len();
                if !is_in_order(s) || s.array.base > n || s.array.len > n - s.array.base {
                    return Err(Trap::Fault);
                }
                let len: usize = s.end - s.begin;
                let cap: usize = s.cap_end - s.begin;
                if vals.len() <= cap - len {
                    self.write_cells(s.array.base + s.end, vals);
                    Ok(
                        Value::Slice(
                            SliceRef {
                                array: s.array,
                                begin: s.begin,
                                end: s.end + vals.len(),
                                cap_end: s.cap_end,
                            },
                        ),
                    )
                } else {
                    let need: u128 = len as u128 + vals.len() as u128;
                    let room: u128 = if need >= 2 * (cap as u128) {
                        need
                    } else {
                        2 * (cap as u128)
                    };
                    if room > usize::MAX as u128 {
                        return Err(Trap::Fault);
                    }
                    let mut all = self.get_slice(s)?;
                    extend_values(&mut all, vals);
                    let spare = repeat_value(Value::Nil(ValueType::Void), (room - need) as usize);
                    extend_values(&mut all, &spare);
                    let array = self.new_cells(&all);
                    Ok(
                        Value::Slice(
                            SliceRef {
                                array,
                                begin: 0,
                                end: need as usize,
                                cap_end: room as usize,
                            },
                        ),
                    )
                }
            },
            _ => Err(Trap::Fault),
        }
    }

    /// Adds copies of elements to a slice.
    pub fn slice_append(&mut self, text: bool, a: Value, b: Value) -> (r: Result<Value, Trap>)
        ensures
            match slice_append(old(self)@, text, a, b) {
                Ok((w, v)) => r == Ok::<Value, Trap>(v) && final(self)@ == w,
                Err(e) => r == Err::<Value, Trap>(e) && e == Trap::Fault,
            },
    {
        let src = self.get_elements(text, b)?;
        let vals = self.copy_all(&src)?;
        self.append_values(a, &vals)
    }

    /// Replaces elements of a slice with copies of others.
    pub fn slice_copy_from(&mut self, text: bool, a: Value, b: Value) -> (r: Result<usize, Trap>)
        ensures
            match slice_copy_from(old(self)@, text, a, b) {
                Ok((w, n)) => r == Ok::<usize, Trap>(n as usize) && n as usize == n && final(self)@ == w,
                Err(e) => r == Err::<usize, Trap>(e) && e == Trap::Fault,
            },
    {
        let (dst, src) = match (self.get_elements(false, a), self.get_elements(text, b)) {
            (Ok(dst), Ok(src)) => (dst, src),
            _ => return Err(Trap::Fault),
        };
        let n: usize = if dst.len() <= src.len() {
            dst.len()
        } else {
            src.len()
        };
        let part = take_values(&src, n);
        proof {
            crate::content::lemma_copy_rest_shape(
                self@.cells,
                part@,
                0,
                seq![],
                crate::content::depth(self@.cells),
            );
        }
        let vals = self.copy_all(&part)?;
        match a {
            Value::Slice(s) => {
                assert(s.array.base + s.array.len <= old(self)@.cells.len());
                assert(s.begin + vals@.len() <= s.array.len);
                let total: usize = self.cells.len();
                self.write_cells(s.array.base + s.begin, &vals);
            },
            _ => {},
        }
        Ok(n)
    }

    /// Counts the elements of a value.
    pub fn length(&self, v: Value) -> (r: Result<usize, Trap>)
        ensures
            match length(self@, v) {
                Ok(n) => r == Ok::<usize, Trap>(n as usize) && n as usize == n,
                Err(e) => r == Err::<usize, Trap>(e) && e == Trap::Fault,
            },
    {
        match v {
            Value::Nil(_) => Ok(0),
            Value::Str(s) => if is_in_order(s) {
                Ok(s.end - s.begin)
            } else {
                Err(Trap::Fault)
            },
            Value::Slice(s) => if is_in_order(s) {
                Ok(s.end - s.begin)
            } else {
                Err(Trap::Fault)
            },
            Value::Array(r) => Ok(r.len),
            Value::GoMap(m) => if m < self.maps.len() {
                Ok(self.maps[m].len())
            } else {
                Err(Trap::Fault)
            },
            _ => Err(Trap::Fault),
        }
    }

    /// Counts how many elements a value has room for.
    pub fn capacity(&self, v: Value) -> (r: Result<usize, Trap>)
        ensures
            match capacity(self@, v) {
                Ok(n) => r == Ok::<usize, Trap>(n as usize) && n as usize == n,
                Err(e) => r == Err::<usize, Trap>(e) && e == Trap::Fault,
            },
    {
        match v {
            Value::Nil(_) => Ok(0),
            Value::Slice(s) => if is_in_order(s) {
                Ok(s.cap_end - s.begin)
            } else {
                Err(Trap::Fault)
            },
            Value::Array(r) => Ok(r.len),
            Value::Channel(c) => if c < self.chans.len() {
                Ok(self.chans[c].cap)
            } else {
                Err(Trap::Fault)
            },
            _ => Err(Trap::Fault),
        }
    }
}

} // verus!

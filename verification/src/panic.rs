//! A panic on its way through the frames.
use vstd::prelude::*;
use crate::value::{FunctionKey, OpIndex, Value};

verus! {

/// A panic: what it says, and the places it has passed.
#[derive(Debug)]
pub struct PanicData {
    pub msg: Value,
    pub call_stack: Vec<(FunctionKey, OpIndex)>,
}

/// What a panic says, and the places it has passed.
pub struct PanicView {
    pub msg: Value,
    pub call_stack: Seq<(FunctionKey, OpIndex)>,
}

impl PanicData {
    /// What the panic says, and the places it has passed.
    pub open spec fn view(&self) -> PanicView {
        PanicView { msg: self.msg, call_stack: self.call_stack@ }
    }

    /// A panic that has not passed any place.
    pub fn new(m: Value) -> (r: PanicData)
        ensures
            r@ == (PanicView { msg: m, call_stack: seq![] }),
    {
        PanicData { msg: m, call_stack: Vec::new() }
    }
}

} // verus!

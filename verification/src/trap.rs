//! How the work of an instruction can end early.
use vstd::prelude::*;

verus! {

/// A mistake of the running program. It starts a panic that the program can
/// recover from.
#[derive(Clone, Copy, PartialEq, Eq, Structural, Debug)]
pub enum RuntimeError {
    NilAccess,
    IndexOutOfRange,
    SliceOutOfRange,
    AsyncDisabled,
    ForeignPointer,
    PointerType,
    FfiAssertion,
    NotTrue,
}

/// Why an instruction could not finish.
#[derive(Clone, Copy, PartialEq, Eq, Structural, Debug)]
pub enum Trap {
    /// The running program made a mistake.
    Panic(RuntimeError),
    /// The code itself is broken: an operand of a wrong type, a position
    /// outside of a table, an instruction that does not exist. Nothing sensible
    /// can follow.
    Fault,
}

impl RuntimeError {
    /// The text that the panic carries.
    pub open spec fn spec_message(self) -> Seq<char> {
        match self {
            RuntimeError::NilAccess => "access nil value"@,
            RuntimeError::IndexOutOfRange => "index out of range"@,
            RuntimeError::SliceOutOfRange => "slice bounds out of range"@,
            RuntimeError::AsyncDisabled => "Async features disabled"@,
            RuntimeError::ForeignPointer => "only a unsafe-pointer cast from a pointer can be cast back to a pointer"@,
            RuntimeError::PointerType => "the pointer does not point to a value of the wanted type"@,
            RuntimeError::FfiAssertion => "FFI interface do not support type assertion"@,
            RuntimeError::NotTrue => "Opcode::ASSERT: not true!"@,
        }
    }

    /// The text that the panic carries.
    pub fn message(self) -> (r: &'static str)
        ensures
            r@ == self.spec_message(),
    {
        match self {
            RuntimeError::NilAccess => "access nil value",
            RuntimeError::IndexOutOfRange => "index out of range",
            RuntimeError::SliceOutOfRange => "slice bounds out of range",
            RuntimeError::AsyncDisabled => "Async features disabled",
            RuntimeError::ForeignPointer => "only a unsafe-pointer cast from a pointer can be cast back to a pointer",
            RuntimeError::PointerType => "the pointer does not point to a value of the wanted type",
            RuntimeError::FfiAssertion => "FFI interface do not support type assertion",
            RuntimeError::NotTrue => "Opcode::ASSERT: not true!",
        }
    }
}

/// What an instruction makes of a missing piece: a fault.
pub open spec fn or_fault<T>(o: Option<T>) -> Result<T, Trap> {
    match o {
        Some(t) => Ok(t),
        None => Err(Trap::Fault),
    }
}

} // verus!

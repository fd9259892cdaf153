use vstd::prelude::*;

verus! {

/// Errors raised while executing an instruction.
#[derive(Debug, Clone, Copy, PartialEq, Eq, Structural)]
pub enum VmError {
    StackUnderflow(usize),
    StackOverflow,
    IntegerOverflow,
    RangeCheckError,
    InvalidOpcode,
    TypeCheckError,
    CellOverflow,
    CellUnderflow,
    DictError,
    Unknown,
    Fatal,
    OutOfGas,
}

/// The stable exception code of each error kind.
pub open spec fn exception_code_of(e: VmError) -> i32 {
    match e {
        VmError::StackUnderflow(_) => 2,
        VmError::StackOverflow => 3,
        VmError::IntegerOverflow => 4,
        VmError::RangeCheckError => 5,
        VmError::InvalidOpcode => 6,
        VmError::TypeCheckError => 7,
        VmError::CellOverflow => 8,
        VmError::CellUnderflow => 9,
        VmError::DictError => 10,
        VmError::Unknown => 11,
        VmError::Fatal => 12,
        VmError::OutOfGas => 13,
    }
}

impl VmError {
    /// Exception code under which this error is thrown inside the machine.
    pub fn exception_code(&self) -> (r: i32)
        ensures
            r == exception_code_of(*self),
    {
        match self {
            VmError::StackUnderflow(_) => 2,
            VmError::StackOverflow => 3,
            VmError::IntegerOverflow => 4,
            VmError::RangeCheckError => 5,
            VmError::InvalidOpcode => 6,
            VmError::TypeCheckError => 7,
            VmError::CellOverflow => 8,
            VmError::CellUnderflow => 9,
            VmError::DictError => 10,
            VmError::Unknown => 11,
            VmError::Fatal => 12,
            VmError::OutOfGas => 13,
        }
    }
}

} // verus!

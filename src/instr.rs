use vstd::prelude::*;

verus! {

/// Instructions that take no argument from the opcode word.
#[derive(Debug, Clone, Copy, PartialEq, Eq, Structural)]
pub enum SimpleInstr {
    PushNan,
    Add { quiet: bool },
    Sub { quiet: bool },
    Subr { quiet: bool },
    Negate { quiet: bool },
    Inc { quiet: bool },
    Dec { quiet: bool },
    Mul { quiet: bool },
}

/// Instructions that take an argument encoded in the opcode word.
#[derive(Debug, Clone, Copy, PartialEq, Eq, Structural)]
pub enum ArgInstr {
    PushTinyInt4,
    PushInt8,
    PushInt16,
    PushPow2,
    PushPow2Dec,
    PushNegPow2,
    AddInt { quiet: bool },
    MulInt { quiet: bool },
}

/// Instructions that advance the code cursor themselves.
#[derive(Debug, Clone, Copy, PartialEq, Eq, Structural)]
pub enum ExtInstr {
    PushIntLong,
}

} // verus!

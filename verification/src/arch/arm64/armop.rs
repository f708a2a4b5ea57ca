//! Registers and instructions of the 64-bit ARM target.

use vstd::prelude::*;

verus! {

/// A register operand. `W` and `X` name a 32-bit and a 64-bit general
/// register.
#[derive(Debug, PartialEq, Eq)]
pub enum Register {
    W(String),
    WZR,
    X(String),
    XZR,
    SP,
    LR,
}

/// An arithmetic instruction on three registers.
#[derive(Debug, PartialEq, Eq)]
pub enum Instruction {
    Add(Register, Register, Register),
    Sub(Register, Register, Register),
    Mul(Register, Register, Register),
    Div(Register, Register, Register),
}

} // verus!

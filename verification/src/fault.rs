//! Fault reporting: every engine-observable failure is a record pairing a
//! fault kind (from a closed taxonomy) with the program-counter address at
//! which it occurred.  A fault is produced once and never mutated; it is
//! unrecoverable at the instruction level.

use vstd::prelude::*;
use vstd::string::StringExecFns;

use crate::text::{hex_str, hex_string};

verus! {

/// The closed taxonomy of engine faults: control faults (program counter out
/// of bounds, unknown opcode), stack faults (pop or index on a too-shallow
/// stack), memory faults (address out of bounds on a load or store),
/// the arithmetic fault (division by zero), interrupt faults (unknown code,
/// and one kind per missing argument so the report identifies it), and the
/// call-discipline fault (return with an empty call stack).
#[derive(Clone, Copy, Debug, PartialEq, Eq, Structural)]
pub enum FaultKind {
    PcOutOfBounds,
    InvalidInstruction,
    StackUnderflow,
    StackIndexOutOfRange,
    MemoryOutOfBounds,
    DivisionByZero,
    UnknownInterrupt,
    MissingColor,
    MissingPixelIndex,
    MissingX,
    MissingY,
    EmptyCallStack,
}

/// A fault record: an immutable value pairing a fault kind with the
/// program-counter address at which the fault occurred.
#[derive(Clone, Copy, Debug, PartialEq, Eq, Structural)]
pub struct VMError {
    pub kind: FaultKind,
    pub address: u64,
}

impl FaultKind {
    /// The human-readable message for this fault kind.
    pub open spec fn message_spec(self) -> Seq<char> {
        match self {
            FaultKind::PcOutOfBounds => "PC out of bounds"@,
            FaultKind::InvalidInstruction => "Invalid instruction"@,
            FaultKind::StackUnderflow => "Stack underflow"@,
            FaultKind::StackIndexOutOfRange => "Stack index out of range"@,
            FaultKind::MemoryOutOfBounds => "Memory out of bounds"@,
            FaultKind::DivisionByZero => "Division by zero"@,
            FaultKind::UnknownInterrupt => "Unknown interrupt"@,
            FaultKind::MissingColor => "Color not on stack"@,
            FaultKind::MissingPixelIndex => "Pixel index not on stack"@,
            FaultKind::MissingX => "X position not on stack"@,
            FaultKind::MissingY => "Y position not on stack"@,
            FaultKind::EmptyCallStack => "Cannot return when call stack is empty"@,
        }
    }

    /// Executable form of [`Self::message_spec`].
    pub fn message(self) -> (r: &'static str)
        ensures
            r@ == self.message_spec(),
    {
        match self {
            FaultKind::PcOutOfBounds => "PC out of bounds",
            FaultKind::InvalidInstruction => "Invalid instruction",
            FaultKind::StackUnderflow => "Stack underflow",
            FaultKind::StackIndexOutOfRange => "Stack index out of range",
            FaultKind::MemoryOutOfBounds => "Memory out of bounds",
            FaultKind::DivisionByZero => "Division by zero",
            FaultKind::UnknownInterrupt => "Unknown interrupt",
            FaultKind::MissingColor => "Color not on stack",
            FaultKind::MissingPixelIndex => "Pixel index not on stack",
            FaultKind::MissingX => "X position not on stack",
            FaultKind::MissingY => "Y position not on stack",
            FaultKind::EmptyCallStack => "Cannot return when call stack is empty",
        }
    }
}

impl VMError {
    /// The textual rendering of a fault record: its message, then the
    /// program-counter address in hexadecimal, zero-padded to at least four
    /// digits.
    pub open spec fn render_spec(self) -> Seq<char> {
        self.kind.message_spec() + " at "@ + hex_str(self.address as nat, 4)
    }

    /// The short name a fault record reports for itself.
    pub fn description(&self) -> (r: &'static str)
        ensures
            r@ == "VMError"@,
    {
        "VMError"
    }

    /// Executable form of [`Self::render_spec`].
    pub fn render(&self) -> (r: String)
        ensures
            r@ == self.render_spec(),
    {
        let mut s = String::from_str(self.kind.message());
        s.append(" at ");
        let h = hex_string(self.address, 4);
        s.append(h.as_str());
        proof {
            assert(s@ =~= self.render_spec());
        }
        s
    }
}

} // verus!

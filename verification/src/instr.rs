//! The instruction set: a closed enumeration of opcodes, each encoded as a
//! single byte in the contiguous range `0x00..=0x10`, together with the exact
//! decode function (byte to opcode) and encode function (opcode to byte).

use vstd::prelude::*;

verus! {

/// One opcode of the engine.  `Push` and `DupeAt` are followed in the
/// instruction stream by an 8-byte little-endian signed immediate;
/// `Interrupt` by a 1-byte unsigned immediate; every other opcode stands
/// alone.
#[derive(Clone, Copy, Debug, PartialEq, Eq, Structural)]
pub enum Instruction {
    Nop,
    Halt,
    Push,
    Pop,
    Add,
    Mul,
    Sub,
    Div,
    Jump,
    LoadU8,
    StoreU8,
    Swap,
    Dupe,
    DupeAt,
    Interrupt,
    Call,
    Ret,
}

impl Instruction {
    /// The byte that encodes this opcode.
    pub open spec fn opcode_spec(self) -> u8 {
        match self {
            Instruction::Nop => 0x00u8,
            Instruction::Halt => 0x01u8,
            Instruction::Push => 0x02u8,
            Instruction::Pop => 0x03u8,
            Instruction::Add => 0x04u8,
            Instruction::Mul => 0x05u8,
            Instruction::Sub => 0x06u8,
            Instruction::Div => 0x07u8,
            Instruction::Jump => 0x08u8,
            Instruction::LoadU8 => 0x09u8,
            Instruction::StoreU8 => 0x0au8,
            Instruction::Swap => 0x0bu8,
            Instruction::Dupe => 0x0cu8,
            Instruction::DupeAt => 0x0du8,
            Instruction::Interrupt => 0x0eu8,
            Instruction::Call => 0x0fu8,
            Instruction::Ret => 0x10u8,
        }
    }

    /// Encode this opcode as its byte.
    pub fn opcode(self) -> (b: u8)
        ensures
            b == self.opcode_spec(),
    {
        match self {
            Instruction::Nop => 0x00,
            Instruction::Halt => 0x01,
            Instruction::Push => 0x02,
            Instruction::Pop => 0x03,
            Instruction::Add => 0x04,
            Instruction::Mul => 0x05,
            Instruction::Sub => 0x06,
            Instruction::Div => 0x07,
            Instruction::Jump => 0x08,
            Instruction::LoadU8 => 0x09,
            Instruction::StoreU8 => 0x0a,
            Instruction::Swap => 0x0b,
            Instruction::Dupe => 0x0c,
            Instruction::DupeAt => 0x0d,
            Instruction::Interrupt => 0x0e,
            Instruction::Call => 0x0f,
            Instruction::Ret => 0x10,
        }
    }

    /// The mnemonic the disassembly view prints for this opcode.
    pub open spec fn name_spec(self) -> Seq<char> {
        match self {
            Instruction::Nop => "Nop"@,
            Instruction::Halt => "Halt"@,
            Instruction::Push => "Push"@,
            Instruction::Pop => "Pop"@,
            Instruction::Add => "Add"@,
            Instruction::Mul => "Mul"@,
            Instruction::Sub => "Sub"@,
            Instruction::Div => "Div"@,
            Instruction::Jump => "Jump"@,
            Instruction::LoadU8 => "LoadU8"@,
            Instruction::StoreU8 => "StoreU8"@,
            Instruction::Swap => "Swap"@,
            Instruction::Dupe => "Dupe"@,
            Instruction::DupeAt => "DupeAt"@,
            Instruction::Interrupt => "Interrupt"@,
            Instruction::Call => "Call"@,
            Instruction::Ret => "Ret"@,
        }
    }

    /// Executable form of [`Self::name_spec`].
    pub fn name(self) -> (r: &'static str)
        ensures
            r@ == self.name_spec(),
    {
        match self {
            Instruction::Nop => "Nop",
            Instruction::Halt => "Halt",
            Instruction::Push => "Push",
            Instruction::Pop => "Pop",
            Instruction::Add => "Add",
            Instruction::Mul => "Mul",
            Instruction::Sub => "Sub",
            Instruction::Div => "Div",
            Instruction::Jump => "Jump",
            Instruction::LoadU8 => "LoadU8",
            Instruction::StoreU8 => "StoreU8",
            Instruction::Swap => "Swap",
            Instruction::Dupe => "Dupe",
            Instruction::DupeAt => "DupeAt",
            Instruction::Interrupt => "Interrupt",
            Instruction::Call => "Call",
            Instruction::Ret => "Ret",
        }
    }

    /// How many bytes of immediate operand follow the opcode byte.
    pub open spec fn operand_len_spec(self) -> nat {
        match self {
            Instruction::Push => 8nat,
            Instruction::DupeAt => 8nat,
            Instruction::Interrupt => 1nat,
            _ => 0nat,
        }
    }

    /// The total encoded length of an instruction with this opcode:
    /// the opcode byte plus its immediate operand, so 1, 2 or 9 bytes,
    /// derivable from the opcode alone.
    pub open spec fn encoded_len_spec(self) -> nat {
        self.operand_len_spec() + 1
    }

    /// Executable form of [`Self::operand_len_spec`].
    pub fn operand_len(self) -> (n: usize)
        ensures
            n == self.operand_len_spec(),
    {
        match self {
            Instruction::Push => 8,
            Instruction::DupeAt => 8,
            Instruction::Interrupt => 1,
            _ => 0,
        }
    }
}

/// Decode a byte: every byte in `0x00..=0x10` names exactly one opcode and
/// every other byte decodes to `None`.
pub open spec fn decode_spec(b: u8) -> Option<Instruction> {
    if b == 0x00 {
        Some(Instruction::Nop)
    } else if b == 0x01 {
        Some(Instruction::Halt)
    } else if b == 0x02 {
        Some(Instruction::Push)
    } else if b == 0x03 {
        Some(Instruction::Pop)
    } else if b == 0x04 {
        Some(Instruction::Add)
    } else if b == 0x05 {
        Some(Instruction::Mul)
    } else if b == 0x06 {
        Some(Instruction::Sub)
    } else if b == 0x07 {
        Some(Instruction::Div)
    } else if b == 0x08 {
        Some(Instruction::Jump)
    } else if b == 0x09 {
        Some(Instruction::LoadU8)
    } else if b == 0x0a {
        Some(Instruction::StoreU8)
    } else if b == 0x0b {
        Some(Instruction::Swap)
    } else if b == 0x0c {
        Some(Instruction::Dupe)
    } else if b == 0x0d {
        Some(Instruction::DupeAt)
    } else if b == 0x0e {
        Some(Instruction::Interrupt)
    } else if b == 0x0f {
        Some(Instruction::Call)
    } else if b == 0x10 {
        Some(Instruction::Ret)
    } else {
        None
    }
}

/// Decode a byte into an opcode, total over all byte values.
pub fn decode(b: u8) -> (r: Option<Instruction>)
    ensures
        r == decode_spec(b),
{
    match b {
        0x00 => Some(Instruction::Nop),
        0x01 => Some(Instruction::Halt),
        0x02 => Some(Instruction::Push),
        0x03 => Some(Instruction::Pop),
        0x04 => Some(Instruction::Add),
        0x05 => Some(Instruction::Mul),
        0x06 => Some(Instruction::Sub),
        0x07 => Some(Instruction::Div),
        0x08 => Some(Instruction::Jump),
        0x09 => Some(Instruction::LoadU8),
        0x0a => Some(Instruction::StoreU8),
        0x0b => Some(Instruction::Swap),
        0x0c => Some(Instruction::Dupe),
        0x0d => Some(Instruction::DupeAt),
        0x0e => Some(Instruction::Interrupt),
        0x0f => Some(Instruction::Call),
        0x10 => Some(Instruction::Ret),
        _ => None,
    }
}

/// Law: decoding and encoding are mutually inverse.  Every opcode's byte
/// decodes back to that opcode, and every byte that decodes at all re-encodes
/// to the identical byte, so a decoded instruction round-trips byte for byte.
pub proof fn lemma_instruction_codec_round_trip()
    ensures
        forall|i: Instruction| #[trigger] decode_spec(i.opcode_spec()) == Some(i),
        forall|b: u8| #[trigger] decode_spec(b) is Some ==> decode_spec(b)->Some_0.opcode_spec() == b,
{
}

} // verus!

//! The byte-code emitter: walks a program node into bytes, then appends a
//! trailing `Push 1` so the produced image always ends by pushing a
//! constant.

use vstd::prelude::*;

use crate::instr::Instruction;
use crate::parser::{node_bytes, ASTNode};
use crate::vm::{le_bytes_of_i64, push_le_bytes};

verus! {

/// The bytes appended after every emitted program: `Push 1`.
pub open spec fn trailer_bytes() -> Seq<u8> {
    seq![Instruction::Push.opcode_spec()] + le_bytes_of_i64(1)
}

/// Emit the byte image of a program node: the node's own bytes, then the
/// trailing `Push 1`.
pub fn emit(root_node: ASTNode) -> (r: Vec<u8>)
    ensures
        r@ == node_bytes(root_node) + trailer_bytes(),
{
    let mut instrs: Vec<u8> = Vec::new();
    root_node.emit(&mut instrs);
    instrs.push(Instruction::Push.opcode());
    push_le_bytes(&mut instrs, 1);
    proof {
        assert(instrs@ =~= node_bytes(root_node) + trailer_bytes());
    }
    instrs
}

} // verus!

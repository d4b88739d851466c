//! The execution engine: a linear byte memory, an operand stack of 64-bit
//! signed integers, a call stack of return frames, and a program counter.
//! A driver repeatedly invokes [`VM::step`]; each step fetches one
//! instruction at the current program counter, mutates stack, memory and
//! program counter exactly as [`step_spec`] says, and returns either success
//! or a terminal fault record.  Addresses `0x8000..0x9000` are aliased to a
//! pixel display: a single-byte store there broadcasts the stored byte into
//! all four color channels of one display cell.

use vstd::prelude::*;
use vstd::pervasive::VecAdditionalExecFns;

use crate::fault::{FaultKind, VMError};
use crate::instr::{decode, decode_spec, Instruction};
use crate::text::{dec_str, dec_str_i64, dec_string, hex_str, hex_string, i64_string};
use vstd::string::StringExecFns;

verus! {

broadcast use vstd::std_specs::vec::axiom_spec_len;

/// First address of the memory-mapped display window.
pub const DISPLAY_BASE: usize = 0x8000;

/// First address past the memory-mapped display window.
pub const DISPLAY_END: usize = 0x9000;

/// The mathematical state of the engine: what every contract in this module
/// speaks about.  `call_stack` holds, innermost last, the addresses of the
/// `Call` opcodes whose subroutines are in progress.
#[verifier::ext_equal]
pub ghost struct VMState {
    pub memory: Seq<u8>,
    pub framebuffer: Seq<u32>,
    pub stack: Seq<i64>,
    pub paused: bool,
    pub width: nat,
    pub height: nat,
    pub call_stack: Seq<nat>,
    pub pc: nat,
}

/// What one step of the engine does: either it fully succeeds, stepping to a
/// new state, or it fully fails with a fault kind at a program-counter
/// address and the state is unchanged.
pub ghost enum StepResult {
    Stepped(VMState),
    Faulted(FaultKind, nat),
}

/// The unsigned 64-bit little-endian integer stored at `a..a + 8`.
pub open spec fn le_u64_at(mem: Seq<u8>, a: int) -> u64 {
    (mem[a] + mem[a + 1] * 0x100 + mem[a + 2] * 0x1_0000 + mem[a + 3] * 0x100_0000 + mem[a + 4]
        * 0x1_0000_0000 + mem[a + 5] * 0x100_0000_0000 + mem[a + 6] * 0x1_0000_0000_0000 + mem[a
        + 7] * 0x100_0000_0000_0000) as u64
}

/// The two's-complement reinterpretation of a 64-bit unsigned value.
pub open spec fn i64_from_u64(x: u64) -> i64 {
    if x < 0x8000_0000_0000_0000 {
        x as i64
    } else {
        (x - 0x1_0000_0000_0000_0000) as i64
    }
}

/// The two's-complement reinterpretation of a 64-bit signed value.
pub open spec fn u64_from_i64(v: i64) -> u64 {
    if v >= 0 {
        v as u64
    } else {
        (v + 0x1_0000_0000_0000_0000) as u64
    }
}

/// The low byte of a 64-bit signed value.
pub open spec fn lo8(v: i64) -> u8 {
    (u64_from_i64(v) % 0x100) as u8
}

/// The low 32 bits of a 64-bit signed value.
pub open spec fn lo32(v: i64) -> u32 {
    (u64_from_i64(v) % 0x1_0000_0000) as u32
}

/// One stored byte broadcast into all four color channels of a pixel.
pub open spec fn byte_to_pixel(b: u8) -> u32 {
    (b + b * 0x100 + b * 0x1_0000 + b * 0x100_0000) as u32
}

/// The signed immediate of an instruction whose opcode byte is at `pc`:
/// 8 little-endian bytes starting right after the opcode.
pub open spec fn imm64_at(mem: Seq<u8>, pc: nat) -> i64 {
    i64_from_u64(le_u64_at(mem, pc + 1int))
}

impl VMState {
    /// Machine limits on a state the engine can actually hold: the memory
    /// fits in the address space, and every saved call site has an address
    /// after it.  Every [`VM`] built by [`VM::new`] satisfies this, and
    /// stepping preserves it.
    pub open spec fn wf(self) -> bool {
        &&& self.memory.len() <= usize::MAX
        &&& forall|i: int|
            0 <= i < self.call_stack.len() ==> #[trigger] self.call_stack[i] < usize::MAX
    }
}

/// The semantics of one instruction, decoded at `s.pc`, given the checks of
/// [`step_spec`] already passed.  The stack top is popped first: in the
/// comments below, the first value named is the first one popped.
pub open spec fn instr_step_spec(s: VMState, i: Instruction) -> StepResult {
    let n = s.stack.len() as int;
    match i {
        // No effect.
        Instruction::Nop => StepResult::Stepped(VMState { pc: s.pc + 1, ..s }),
        // Set the paused flag; the driver must stop stepping.
        Instruction::Halt => StepResult::Stepped(VMState { paused: true, pc: s.pc + 1, ..s }),
        // Push the 8-byte little-endian immediate.
        Instruction::Push => if s.pc + 9 > s.memory.len() {
            StepResult::Faulted(FaultKind::PcOutOfBounds, s.pc)
        } else {
            StepResult::Stepped(
                VMState { stack: s.stack.push(imm64_at(s.memory, s.pc)), pc: s.pc + 9, ..s },
            )
        },
        // Discard the top of the stack.
        Instruction::Pop => if n < 1 {
            StepResult::Faulted(FaultKind::StackUnderflow, s.pc)
        } else {
            StepResult::Stepped(VMState { stack: s.stack.drop_last(), pc: s.pc + 1, ..s })
        },
        // Pop two, push their wrapping sum.
        Instruction::Add => if n < 2 {
            StepResult::Faulted(FaultKind::StackUnderflow, s.pc)
        } else {
            StepResult::Stepped(
                VMState {
                    stack: s.stack.take(n - 2).push(s.stack[n - 1].wrapping_add(s.stack[n - 2])),
                    pc: s.pc + 1,
                    ..s
                },
            )
        },
        // Pop two, push their wrapping product.
        Instruction::Mul => if n < 2 {
            StepResult::Faulted(FaultKind::StackUnderflow, s.pc)
        } else {
            StepResult::Stepped(
                VMState {
                    stack: s.stack.take(n - 2).push(s.stack[n - 1].wrapping_mul(s.stack[n - 2])),
                    pc: s.pc + 1,
                    ..s
                },
            )
        },
        // Pop two, push first popped minus second popped (wrapping).
        Instruction::Sub => if n < 2 {
            StepResult::Faulted(FaultKind::StackUnderflow, s.pc)
        } else {
            StepResult::Stepped(
                VMState {
                    stack: s.stack.take(n - 2).push(s.stack[n - 1].wrapping_sub(s.stack[n - 2])),
                    pc: s.pc + 1,
                    ..s
                },
            )
        },
        // Pop two, push first popped divided by second popped, truncating.
        // A zero divisor is a fault; the one overflowing case wraps.
        Instruction::Div => if n < 2 {
            StepResult::Faulted(FaultKind::StackUnderflow, s.pc)
        } else if s.stack[n - 2] == 0 {
            StepResult::Faulted(FaultKind::DivisionByZero, s.pc)
        } else {
            let q = match s.stack[n - 1].checked_div(s.stack[n - 2]) {
                Some(q) => q,
                None => i64::MIN,
            };
            StepResult::Stepped(
                VMState { stack: s.stack.take(n - 2).push(q), pc: s.pc + 1, ..s },
            )
        },
        // Pop the destination; the counter becomes max(destination - 1, 0)
        // and is not advanced afterwards.
        Instruction::Jump => if n < 1 {
            StepResult::Faulted(FaultKind::StackUnderflow, s.pc)
        } else {
            let dest = s.stack[n - 1];
            StepResult::Stepped(
                VMState {
                    stack: s.stack.drop_last(),
                    pc: if dest <= 0 {
                        0nat
                    } else {
                        (dest - 1) as nat
                    },
                    ..s
                },
            )
        },
        // Pop an address, push the unsigned byte stored there.  The
        // display window is read as plain memory, so it obeys the same
        // bound as every other address.
        Instruction::LoadU8 => if n < 1 {
            StepResult::Faulted(FaultKind::StackUnderflow, s.pc)
        } else {
            let addr = s.stack[n - 1];
            if 0 <= addr < s.memory.len() {
                StepResult::Stepped(
                    VMState {
                        stack: s.stack.drop_last().push(s.memory[addr as int] as i64),
                        pc: s.pc + 1,
                        ..s
                    },
                )
            } else {
                StepResult::Faulted(FaultKind::MemoryOutOfBounds, s.pc)
            }
        },
        // Pop an address, pop a value, store the value's low byte there,
        // honoring the display-window alias.
        Instruction::StoreU8 => if n < 2 {
            StepResult::Faulted(FaultKind::StackUnderflow, s.pc)
        } else {
            let addr = s.stack[n - 1];
            let value = s.stack[n - 2];
            let rest = s.stack.take(n - 2);
            if DISPLAY_BASE <= addr < DISPLAY_END {
                let cell = addr - DISPLAY_BASE;
                if cell < s.framebuffer.len() {
                    StepResult::Stepped(
                        VMState {
                            stack: rest,
                            framebuffer: s.framebuffer.update(
                                cell as int,
                                byte_to_pixel(lo8(value)),
                            ),
                            pc: s.pc + 1,
                            ..s
                        },
                    )
                } else {
                    StepResult::Faulted(FaultKind::MemoryOutOfBounds, s.pc)
                }
            } else if 0 <= addr < s.memory.len() {
                StepResult::Stepped(
                    VMState {
                        stack: rest,
                        memory: s.memory.update(addr as int, lo8(value)),
                        pc: s.pc + 1,
                        ..s
                    },
                )
            } else {
                StepResult::Faulted(FaultKind::MemoryOutOfBounds, s.pc)
            }
        },
        // Pop two, push them back in reversed order.
        Instruction::Swap => if n < 2 {
            StepResult::Faulted(FaultKind::StackUnderflow, s.pc)
        } else {
            StepResult::Stepped(
                VMState {
                    stack: s.stack.take(n - 2).push(s.stack[n - 1]).push(s.stack[n - 2]),
                    pc: s.pc + 1,
                    ..s
                },
            )
        },
        // Push a copy of the current top without popping.
        Instruction::Dupe => if n < 1 {
            StepResult::Faulted(FaultKind::StackUnderflow, s.pc)
        } else {
            StepResult::Stepped(
                VMState { stack: s.stack.push(s.stack[n - 1]), pc: s.pc + 1, ..s },
            )
        },
        // Push a copy of the element at depth `imm` counted from the current
        // length (index = length - imm); an out-of-range depth is a fault.
        Instruction::DupeAt => if s.pc + 9 > s.memory.len() {
            StepResult::Faulted(FaultKind::PcOutOfBounds, s.pc)
        } else {
            let depth = imm64_at(s.memory, s.pc);
            if 1 <= depth <= n {
                StepResult::Stepped(
                    VMState { stack: s.stack.push(s.stack[n - depth]), pc: s.pc + 9, ..s },
                )
            } else {
                StepResult::Faulted(FaultKind::StackIndexOutOfRange, s.pc)
            }
        },
        // Dispatch on the 1-byte interrupt code; the dispatcher reports its
        // faults at the operand's address, one byte past the opcode.
        Instruction::Interrupt => if s.pc + 2 > s.memory.len() {
            StepResult::Faulted(FaultKind::PcOutOfBounds, s.pc)
        } else {
            interrupt_spec(s, s.memory[s.pc + 1int])
        },
        // Pop the destination, save the address of this `Call` opcode as a
        // frame, then jump to max(destination, 0) with no further advance.
        Instruction::Call => if n < 1 {
            StepResult::Faulted(FaultKind::StackUnderflow, s.pc)
        } else {
            let dest = s.stack[n - 1];
            StepResult::Stepped(
                VMState {
                    stack: s.stack.drop_last(),
                    call_stack: s.call_stack.push(s.pc),
                    pc: if dest <= 0 {
                        0nat
                    } else {
                        dest as nat
                    },
                    ..s
                },
            )
        },
        // Pop the innermost frame and resume one byte past the saved
        // `Call` opcode, which is the instruction right after it.
        Instruction::Ret => if s.call_stack.len() < 1 {
            StepResult::Faulted(FaultKind::EmptyCallStack, s.pc)
        } else {
            StepResult::Stepped(
                VMState {
                    call_stack: s.call_stack.drop_last(),
                    pc: s.call_stack.last() + 1,
                    ..s
                },
            )
        },
    }
}

/// The host-service table, keyed by the 1-byte code after the `Interrupt`
/// opcode.  Code 0 pops a color then a linear pixel index; code 1 pops a
/// color, a y position, then an x position, addressing cell
/// `y * width + x`; any other code is a fault.
pub open spec fn interrupt_spec(s: VMState, code: u8) -> StepResult {
    let n = s.stack.len() as int;
    let fa = s.pc + 1;
    if code == 0 {
        if n < 1 {
            StepResult::Faulted(FaultKind::MissingColor, fa)
        } else if n < 2 {
            StepResult::Faulted(FaultKind::MissingPixelIndex, fa)
        } else {
            let color = s.stack[n - 1];
            let idx = s.stack[n - 2];
            if 0 <= idx < s.framebuffer.len() {
                StepResult::Stepped(
                    VMState {
                        stack: s.stack.take(n - 2),
                        framebuffer: s.framebuffer.update(idx as int, lo32(color)),
                        pc: s.pc + 2,
                        ..s
                    },
                )
            } else {
                StepResult::Faulted(FaultKind::MemoryOutOfBounds, fa)
            }
        }
    } else if code == 1 {
        if n < 1 {
            StepResult::Faulted(FaultKind::MissingColor, fa)
        } else if n < 2 {
            StepResult::Faulted(FaultKind::MissingY, fa)
        } else if n < 3 {
            StepResult::Faulted(FaultKind::MissingX, fa)
        } else {
            let color = s.stack[n - 1];
            let y = s.stack[n - 2];
            let x = s.stack[n - 3];
            if 0 <= y && 0 <= x && y * s.width + x < s.framebuffer.len() {
                StepResult::Stepped(
                    VMState {
                        stack: s.stack.take(n - 3),
                        framebuffer: s.framebuffer.update((y * s.width + x) as int, lo32(color)),
                        pc: s.pc + 2,
                        ..s
                    },
                )
            } else {
                StepResult::Faulted(FaultKind::MemoryOutOfBounds, fa)
            }
        }
    } else {
        StepResult::Faulted(FaultKind::UnknownInterrupt, fa)
    }
}

/// One step of the engine, mathematically.  The program counter must name a
/// byte of the memory buffer, that byte must decode to an opcode, and the
/// opcode's semantics are [`instr_step_spec`]; every opcode except `Jump`
/// and `Call` advances the counter by exactly its encoded length.
pub open spec fn step_spec(s: VMState) -> StepResult {
    if s.pc >= s.memory.len() {
        StepResult::Faulted(FaultKind::PcOutOfBounds, s.pc)
    } else {
        match decode_spec(s.memory[s.pc as int]) {
            Some(i) => instr_step_spec(s, i),
            None => StepResult::Faulted(FaultKind::InvalidInstruction, s.pc),
        }
    }
}

/// The 8 little-endian bytes of a 64-bit unsigned value.
pub open spec fn le_bytes_of_u64(x: u64) -> Seq<u8> {
    seq![
        (x % 0x100) as u8,
        ((x / 0x100) % 0x100) as u8,
        ((x / 0x1_0000) % 0x100) as u8,
        ((x / 0x100_0000) % 0x100) as u8,
        ((x / 0x1_0000_0000) % 0x100) as u8,
        ((x / 0x100_0000_0000) % 0x100) as u8,
        ((x / 0x1_0000_0000_0000) % 0x100) as u8,
        ((x / 0x100_0000_0000_0000) % 0x100) as u8,
    ]
}

/// The 8 little-endian bytes of a 64-bit signed immediate, two's complement.
pub open spec fn le_bytes_of_i64(v: i64) -> Seq<u8> {
    le_bytes_of_u64(u64_from_i64(v))
}

/// Law: the engine reads back exactly the value whose little-endian bytes
/// were written, wherever they sit in memory.  This ties the byte images the
/// assembler and the emitter produce to the immediates the engine decodes.
pub proof fn lemma_le_bytes_round_trip(mem: Seq<u8>, a: int, v: i64)
    requires
        0 <= a,
        a + 8 <= mem.len(),
        mem.subrange(a, a + 8) == le_bytes_of_i64(v),
    ensures
        i64_from_u64(le_u64_at(mem, a)) == v,
{
    let x = u64_from_i64(v);
    let b = le_bytes_of_u64(x);
    assert(mem[a] == b[0] && mem[a + 1] == b[1] && mem[a + 2] == b[2] && mem[a + 3] == b[3]
        && mem[a + 4] == b[4] && mem[a + 5] == b[5] && mem[a + 6] == b[6] && mem[a + 7] == b[7])
        by {
        assert(mem.subrange(a, a + 8)[0] == mem[a]);
        assert(mem.subrange(a, a + 8)[1] == mem[a + 1]);
        assert(mem.subrange(a, a + 8)[2] == mem[a + 2]);
        assert(mem.subrange(a, a + 8)[3] == mem[a + 3]);
        assert(mem.subrange(a, a + 8)[4] == mem[a + 4]);
        assert(mem.subrange(a, a + 8)[5] == mem[a + 5]);
        assert(mem.subrange(a, a + 8)[6] == mem[a + 6]);
        assert(mem.subrange(a, a + 8)[7] == mem[a + 7]);
    }
    assert(le_u64_at(mem, a) == x) by {
        assert(x % 0x100 + (x / 0x100 % 0x100) * 0x100 + (x / 0x1_0000 % 0x100) * 0x1_0000 + (x
            / 0x100_0000 % 0x100) * 0x100_0000 + (x / 0x1_0000_0000 % 0x100) * 0x1_0000_0000 + (x
            / 0x100_0000_0000 % 0x100) * 0x100_0000_0000 + (x / 0x1_0000_0000_0000 % 0x100)
            * 0x1_0000_0000_0000 + (x / 0x100_0000_0000_0000 % 0x100) * 0x100_0000_0000_0000
            == x) by (bit_vector);
    }
    assert(i64_from_u64(u64_from_i64(v)) == v);
}

/// Append the 8 little-endian bytes of a signed immediate.
pub fn push_le_bytes(out: &mut Vec<u8>, v: i64)
    ensures
        final(out)@ == old(out)@ + le_bytes_of_i64(v),
{
    let x = u64_cast(v);
    out.push((x % 0x100) as u8);
    out.push(((x / 0x100) % 0x100) as u8);
    out.push(((x / 0x1_0000) % 0x100) as u8);
    out.push(((x / 0x100_0000) % 0x100) as u8);
    out.push(((x / 0x1_0000_0000) % 0x100) as u8);
    out.push(((x / 0x100_0000_0000) % 0x100) as u8);
    out.push(((x / 0x1_0000_0000_0000) % 0x100) as u8);
    out.push(((x / 0x100_0000_0000_0000) % 0x100) as u8);
    proof {
        assert(final(out)@ =~= old(out)@ + le_bytes_of_i64(v));
    }
}



/// Law: executing a `Push` whose eight operand bytes encode an immediate
/// pushes exactly that immediate and advances past the whole 9-byte
/// instruction, so an image a producer encodes is decoded value for value.
pub proof fn lemma_push_immediate_round_trip(s: VMState, v: i64)
    requires
        s.pc + 9 <= s.memory.len(),
        decode_spec(s.memory[s.pc as int]) == Some(Instruction::Push),
        s.memory.subrange(s.pc + 1int, s.pc + 9int) == le_bytes_of_i64(v),
    ensures
        step_spec(s) matches StepResult::Stepped(t) && t.stack == s.stack.push(v) && t.pc == s.pc
            + 9,
{
    lemma_le_bytes_round_trip(s.memory, s.pc + 1int, v);
}


/// Law: for every opcode except `Jump` and `Call` (which transfer control)
/// and `Ret` (which restores a saved site before its one-byte advance), a
/// successful step advances the program counter by exactly the
/// instruction's encoded length — 1, 2 or 9 bytes, derivable from the
/// opcode alone — so the engine never scans forward speculatively.
pub proof fn lemma_step_advances_by_encoded_length(s: VMState, i: Instruction)
    requires
        s.pc < s.memory.len(),
        decode_spec(s.memory[s.pc as int]) == Some(i),
        !(i is Jump),
        !(i is Call),
        !(i is Ret),
    ensures
        step_spec(s) matches StepResult::Stepped(t) ==> t.pc == s.pc + i.encoded_len_spec(),
{
}

/// Law: a successful step never resizes the memory buffer or the display
/// buffer, and never changes the display dimensions: both are fixed at
/// construction, and only their contents change.
pub proof fn lemma_step_preserves_geometry(s: VMState)
    ensures
        step_spec(s) matches StepResult::Stepped(t) ==> t.memory.len() == s.memory.len()
            && t.framebuffer.len() == s.framebuffer.len() && t.width == s.width && t.height
            == s.height,
{
}

/// Law: stepping with the program counter at or past the end of the memory
/// buffer always faults with the program-counter bound fault at that
/// counter; no byte of memory is touched, because no other outcome is
/// possible.
pub proof fn lemma_pc_out_of_bounds_faults(s: VMState)
    requires
        s.pc >= s.memory.len(),
    ensures
        step_spec(s) == StepResult::Faulted(FaultKind::PcOutOfBounds, s.pc),
{
}

/// Law: executing `Call` pops the destination and saves the address of the
/// `Call` opcode itself as the innermost frame, landing on
/// `max(destination, 0)`.
pub proof fn lemma_call_saves_call_site(s: VMState)
    requires
        s.pc < s.memory.len(),
        decode_spec(s.memory[s.pc as int]) == Some(Instruction::Call),
        s.stack.len() >= 1,
    ensures
        step_spec(s) matches StepResult::Stepped(t) && t.call_stack == s.call_stack.push(s.pc)
            && t.stack == s.stack.drop_last() && t.pc == (if s.stack.last() <= 0 {
            0nat
        } else {
            s.stack.last() as nat
        }),
{
}

/// Law: executing `Ret` pops the innermost frame and resumes exactly one
/// byte past the saved call site.  A `Call` opcode is one byte long, so
/// together with [`lemma_call_saves_call_site`] this says a call/return
/// pair resumes at the instruction immediately following the original
/// `Call`, whatever ran in between, as long as it left that frame innermost.
pub proof fn lemma_ret_resumes_after_call_site(s: VMState)
    requires
        s.pc < s.memory.len(),
        decode_spec(s.memory[s.pc as int]) == Some(Instruction::Ret),
        s.call_stack.len() >= 1,
    ensures
        step_spec(s) matches StepResult::Stepped(t) && t.pc == s.call_stack.last() + 1
            && t.call_stack == s.call_stack.drop_last() && t.stack == s.stack,
{
}

/// Law: `DupeAt` with a depth immediate outside `1..=stack.len()` raises
/// the stack-index fault at the opcode's address, rather than reading
/// anything; in particular every depth exceeding the current stack length
/// faults.
pub proof fn lemma_dupe_at_depth_out_of_range_faults(s: VMState)
    requires
        s.pc + 9 <= s.memory.len(),
        decode_spec(s.memory[s.pc as int]) == Some(Instruction::DupeAt),
        !(1 <= imm64_at(s.memory, s.pc) <= s.stack.len()),
    ensures
        step_spec(s) == StepResult::Faulted(FaultKind::StackIndexOutOfRange, s.pc),
{
}


/// The short semantic comment the disassembly view prints beside a
/// documented subset of opcodes.
pub open spec fn instr_comment_spec(instr: Instruction) -> Seq<char> {
    match instr {
        Instruction::Push => "Push constant onto stack"@,
        Instruction::Add => "Add two numbers popped off the stack"@,
        Instruction::Mul => "Multiply two numbers popped off the stack"@,
        Instruction::Sub => "Subtract two numbers popped off the stack"@,
        Instruction::Div => "Divide two numbers popped off the stack"@,
        Instruction::Halt => "Halt execution"@,
        _ => "No comment"@,
    }
}

/// Executable form of [`instr_comment_spec`].
pub fn get_instr_comment(instr: &Instruction) -> (r: String)
    ensures
        r@ == instr_comment_spec(*instr),
{
    String::from_str(
        match instr {
            Instruction::Push => "Push constant onto stack",
            Instruction::Add => "Add two numbers popped off the stack",
            Instruction::Mul => "Multiply two numbers popped off the stack",
            Instruction::Sub => "Subtract two numbers popped off the stack",
            Instruction::Div => "Divide two numbers popped off the stack",
            Instruction::Halt => "Halt execution",
            _ => "No comment",
        },
    )
}

/// One line of the disassembly view, for the byte at address `i`: the
/// address in hex, a marker when the program counter is here, then either
/// the decoded mnemonic with its comment or the raw hex byte (it may be a
/// data byte or an operand, not always a real instruction).
pub open spec fn render_line_spec(s: VMState, i: int) -> Seq<char> {
    "0x"@ + hex_str(i as nat, 4) + (if s.pc == i {
        "  ->  "@
    } else {
        "     "@
    }) + (match decode_spec(s.memory[i]) {
        Some(instr) => instr.name_spec() + " # "@ + instr_comment_spec(instr),
        None => hex_str(s.memory[i] as nat, 2),
    }) + "\n"@
}

/// The first `k` lines of the disassembly view, one per memory byte.
pub open spec fn render_lines_spec(s: VMState, k: int) -> Seq<char>
    decreases k,
{
    if k <= 0 {
        Seq::empty()
    } else {
        render_lines_spec(s, k - 1) + render_line_spec(s, k - 1)
    }
}

/// The first `k` stack values, rendered in decimal and comma-separated.
pub open spec fn stack_items_spec(st: Seq<i64>, k: int) -> Seq<char>
    decreases k,
{
    if k <= 0 {
        Seq::empty()
    } else if k == 1 {
        dec_str_i64(st[0])
    } else {
        stack_items_spec(st, k - 1) + ", "@ + dec_str_i64(st[k - 1])
    }
}

/// The operand stack rendered as a bracketed list, bottom first.
pub open spec fn render_stack_spec(st: Seq<i64>) -> Seq<char> {
    "["@ + stack_items_spec(st, st.len() as int) + "]"@
}

/// The header of the introspection view: counter, stack and paused flag.
pub open spec fn render_header_spec(s: VMState) -> Seq<char> {
    "VM\n  pc: "@ + dec_str(s.pc) + "\n  stack: "@ + render_stack_spec(s.stack)
        + "\n  paused: "@ + (if s.paused {
        "true"@
    } else {
        "false"@
    }) + "\nDebugger\n"@
}

/// The whole introspection view: the header, then one annotated line per
/// byte of the memory buffer.
pub open spec fn render_spec(s: VMState) -> Seq<char> {
    render_header_spec(s) + render_lines_spec(s, s.memory.len() as int)
}

/// Render the operand stack as a bracketed, comma-separated decimal list.
fn render_stack(st: &Vec<i64>) -> (r: String)
    ensures
        r@ == render_stack_spec(st@),
{
    let mut out = String::from_str("[");
    proof {
        assert(out@ =~= "["@ + stack_items_spec(st@, 0));
    }
    let mut i: usize = 0;
    while i < st.len()
        invariant
            i <= st.len(),
            out@ == "["@ + stack_items_spec(st@, i as int),
        decreases st.len() - i,
    {
        if i > 0 {
            out.append(", ");
        }
        let t = i64_string(st[i]);
        out.append(t.as_str());
        i += 1;
        proof {
            assert(out@ =~= "["@ + stack_items_spec(st@, i as int));
        }
    }
    out.append("]");
    proof {
        assert(out@ =~= render_stack_spec(st@));
    }
    out
}

/// One stack frame of the call stack, holding the address of the `Call`
/// opcode that created it; `Ret` resumes one byte past it.
pub struct StackFrame {
    pub return_addr: usize,
}

impl StackFrame {
    /// Build a frame around a saved call-site address.
    pub fn new(return_addr: usize) -> (r: StackFrame)
        ensures
            r.return_addr == return_addr,
    {
        StackFrame { return_addr }
    }
}

/// The width and height, in cells, of the display the engine writes.
pub struct DisplayInfo {
    pub width: usize,
    pub height: usize,
}

/// The execution engine.
pub struct VM {
    pub memory: Vec<u8>,
    pub framebuffer: Vec<u32>,
    pub stack: Vec<i64>,
    pub paused: bool,
    pub display: DisplayInfo,
    pub call_stack: Vec<StackFrame>,
    pub pc: u64,
}

impl View for VM {
    type V = VMState;

    open spec fn view(&self) -> VMState {
        VMState {
            memory: self.memory@,
            framebuffer: self.framebuffer@,
            stack: self.stack@,
            paused: self.paused,
            width: self.display.width as nat,
            height: self.display.height as nat,
            call_stack: self.call_stack@.map_values(|f: StackFrame| f.return_addr as nat),
            pc: self.pc as nat,
        }
    }
}

/// Read the unsigned 64-bit little-endian integer at `a..a + 8`.
fn read_le_u64(mem: &Vec<u8>, a: usize) -> (x: u64)
    requires
        a + 8 <= mem.len(),
    ensures
        x == le_u64_at(mem@, a as int),
{
    (mem[a] as u64) + (mem[a + 1] as u64) * 0x100 + (mem[a + 2] as u64) * 0x1_0000 + (mem[a + 3]
        as u64) * 0x100_0000 + (mem[a + 4] as u64) * 0x1_0000_0000 + (mem[a + 5] as u64)
        * 0x100_0000_0000 + (mem[a + 6] as u64) * 0x1_0000_0000_0000 + (mem[a + 7] as u64)
        * 0x100_0000_0000_0000
}

/// Reinterpret a 64-bit unsigned value as signed, two's complement.
pub fn i64_cast(x: u64) -> (v: i64)
    ensures
        v == i64_from_u64(x),
{
    if x < 0x8000_0000_0000_0000 {
        x as i64
    } else {
        (x - 0x8000_0000_0000_0000) as i64 + i64::MIN
    }
}

/// Reinterpret a 64-bit signed value as unsigned, two's complement.
pub fn u64_cast(v: i64) -> (x: u64)
    ensures
        x == u64_from_i64(v),
{
    if v >= 0 {
        v as u64
    } else {
        (v - i64::MIN) as u64 + 0x8000_0000_0000_0000
    }
}

impl VM {
    /// Build an engine around a program image loaded verbatim at address 0,
    /// an initial display buffer, and its dimensions.  The memory buffer is
    /// created once here and never resized; the stacks start empty, the
    /// counter at 0.
    pub fn new(code: Vec<u8>, framebuffer: Vec<u32>, display: DisplayInfo) -> (r: VM)
        ensures
            r@ == (VMState {
                memory: code@,
                framebuffer: framebuffer@,
                stack: Seq::empty(),
                paused: false,
                width: display.width as nat,
                height: display.height as nat,
                call_stack: Seq::empty(),
                pc: 0nat,
            }),
            r@.wf(),
    {
        let r = VM {
            memory: code,
            framebuffer,
            stack: Vec::new(),
            paused: false,
            display,
            call_stack: Vec::new(),
            pc: 0,
        };
        proof {
            assert(r.memory.len() == r.memory@.len());
            assert(r@.call_stack =~= Seq::<nat>::empty());
            assert(r@ =~= (VMState {
                memory: r.memory@,
                framebuffer: r.framebuffer@,
                stack: Seq::empty(),
                paused: false,
                width: r.display.width as nat,
                height: r.display.height as nat,
                call_stack: Seq::empty(),
                pc: 0nat,
            }));
        }
        r
    }

    /// Set the paused flag; the driving loop observes it between steps.
    pub fn stop(&mut self)
        ensures
            final(self)@ == (VMState { paused: true, ..old(self)@ }),
    {
        self.paused = true;
    }

    /// Write one byte through the memory model.  An address inside the
    /// display window `0x8000..0x9000` sets the corresponding display cell,
    /// broadcasting the byte into all four color channels; any other address
    /// writes the byte to memory.  The address must be in bounds for
    /// whichever of the two it names.
    pub fn set_memory(&mut self, addr: usize, val: u8)
        requires
            DISPLAY_BASE <= addr < DISPLAY_END ==> addr - DISPLAY_BASE < old(
                self,
            ).framebuffer.len(),
            !(DISPLAY_BASE <= addr < DISPLAY_END) ==> addr < old(self).memory.len(),
        ensures
            DISPLAY_BASE <= addr < DISPLAY_END ==> final(self)@ == (VMState {
                framebuffer: old(self)@.framebuffer.update(
                    addr - DISPLAY_BASE,
                    byte_to_pixel(val),
                ),
                ..old(self)@
            }),
            !(DISPLAY_BASE <= addr < DISPLAY_END) ==> final(self)@ == (VMState {
                memory: old(self)@.memory.update(addr as int, val),
                ..old(self)@
            }),
    {
        if addr >= DISPLAY_BASE && addr < DISPLAY_END {
            let pixel: u32 = (val as u32) + (val as u32) * 0x100 + (val as u32) * 0x1_0000 + (val
                as u32) * 0x100_0000;
            self.framebuffer.set(addr - DISPLAY_BASE, pixel);
        } else {
            self.memory.set(addr, val);
        }
    }


    /// The non-destructive introspection view: the engine's counter, stack
    /// and paused flag, then the full memory buffer as an annotated
    /// disassembly, one line per byte, marking the current program counter.
    /// This view never itself faults: a byte that does not decode renders
    /// as plain hex data.
    #[verifier::rlimit(100)]
    pub fn render(&self) -> (r: String)
        ensures
            r@ == render_spec(self@),
    {
        let mut out = String::from_str("VM\n  pc: ");
        let t = dec_string(self.pc);
        out.append(t.as_str());
        out.append("\n  stack: ");
        let t = render_stack(&self.stack);
        out.append(t.as_str());
        out.append("\n  paused: ");
        out.append(
            if self.paused {
                "true"
            } else {
                "false"
            },
        );
        out.append("\nDebugger\n");
        proof {
            assert(out@ =~= render_header_spec(self@));
        }
        let mut i: usize = 0;
        while i < self.memory.len()
            invariant
                i <= self.memory.len(),
                out@ == render_header_spec(self@) + render_lines_spec(self@, i as int),
            decreases self.memory.len() - i,
        {
            out.append("0x");
            let t = hex_string(i as u64, 4);
            out.append(t.as_str());
            if (i as u64) == self.pc {
                out.append("  ->  ");
            } else {
                out.append("     ");
            }
            match decode(self.memory[i]) {
                Some(instr) => {
                    out.append(instr.name());
                    out.append(" # ");
                    let c = get_instr_comment(&instr);
                    out.append(c.as_str());
                },
                None => {
                    let t = hex_string(self.memory[i] as u64, 2);
                    out.append(t.as_str());
                },
            }
            out.append("\n");
            i += 1;
            proof {
                assert(out@ =~= render_header_spec(self@) + render_lines_spec(
                    self@,
                    i as int,
                ));
            }
        }
        out
    }

    /// Perform exactly one instruction, as [`step_spec`] says: on success the
    /// state steps, on a fault the returned record carries the fault's kind
    /// and address and the state is unchanged.
    pub fn step(&mut self) -> (r: Result<(), VMError>)
        requires
            old(self)@.wf(),
        ensures
            final(self)@.wf(),
            match step_spec(old(self)@) {
                StepResult::Stepped(s2) => r is Ok && final(self)@ == s2,
                StepResult::Faulted(kind, address) => {
                    &&& r matches Err(e) && e.kind == kind && e.address as nat == address
                    &&& final(self)@ == old(self)@
                },
            },
    {
        self.execute()
    }

    /// The fetch-decode-execute cycle behind [`VM::step`].
    fn execute(&mut self) -> (r: Result<(), VMError>)
        requires
            old(self)@.wf(),
        ensures
            final(self)@.wf(),
            match step_spec(old(self)@) {
                StepResult::Stepped(s2) => r is Ok && final(self)@ == s2,
                StepResult::Faulted(kind, address) => {
                    &&& r matches Err(e) && e.kind == kind && e.address as nat == address
                    &&& final(self)@ == old(self)@
                },
            },
    {
        if self.pc >= self.memory.len() as u64 {
            return Err(VMError { kind: FaultKind::PcOutOfBounds, address: self.pc });
        }
        let instr = match decode(self.memory[self.pc as usize]) {
            Some(instr) => instr,
            None => {
                return Err(VMError { kind: FaultKind::InvalidInstruction, address: self.pc });
            },
        };
        let n = self.stack.len();
        match instr {
            Instruction::Nop => {},
            Instruction::Halt => {
                self.paused = true;
            },
            Instruction::Push => {
                if self.memory.len() as u64 - self.pc < 9 {
                    return Err(VMError { kind: FaultKind::PcOutOfBounds, address: self.pc });
                }
                let imm = i64_cast(read_le_u64(&self.memory, (self.pc + 1) as usize));
                self.stack.push(imm);
                self.pc += 8;
            },
            Instruction::Pop => {
                if n < 1 {
                    return Err(VMError { kind: FaultKind::StackUnderflow, address: self.pc });
                }
                self.stack.pop().unwrap();
            },
            Instruction::Add => {
                if n < 2 {
                    return Err(VMError { kind: FaultKind::StackUnderflow, address: self.pc });
                }
                let val1 = self.stack.pop().unwrap();
                let val2 = self.stack.pop().unwrap();
                self.stack.push(val1.wrapping_add(val2));
            },
            Instruction::Mul => {
                if n < 2 {
                    return Err(VMError { kind: FaultKind::StackUnderflow, address: self.pc });
                }
                let val2 = self.stack.pop().unwrap();
                let val1 = self.stack.pop().unwrap();
                self.stack.push(val2.wrapping_mul(val1));
            },
            Instruction::Sub => {
                if n < 2 {
                    return Err(VMError { kind: FaultKind::StackUnderflow, address: self.pc });
                }
                let val2 = self.stack.pop().unwrap();
                let val1 = self.stack.pop().unwrap();
                self.stack.push(val2.wrapping_sub(val1));
            },
            Instruction::Div => {
                if n < 2 {
                    return Err(VMError { kind: FaultKind::StackUnderflow, address: self.pc });
                }
                if self.stack[n - 2] == 0 {
                    return Err(VMError { kind: FaultKind::DivisionByZero, address: self.pc });
                }
                let val2 = self.stack.pop().unwrap();
                let val1 = self.stack.pop().unwrap();
                let q = match val2.checked_div(val1) {
                    Some(q) => q,
                    None => i64::MIN,
                };
                self.stack.push(q);
            },
            Instruction::Jump => {
                if n < 1 {
                    return Err(VMError { kind: FaultKind::StackUnderflow, address: self.pc });
                }
                let dest = self.stack.pop().unwrap();
                self.pc = if dest <= 0 {
                    0
                } else {
                    (dest - 1) as u64
                };
            },
            Instruction::LoadU8 => {
                if n < 1 {
                    return Err(VMError { kind: FaultKind::StackUnderflow, address: self.pc });
                }
                let addr = self.stack[n - 1];
                if !(0 <= addr && (addr as u64) < (self.memory.len() as u64)) {
                    return Err(VMError { kind: FaultKind::MemoryOutOfBounds, address: self.pc });
                }
                let val = self.memory[addr as usize];
                self.stack.pop().unwrap();
                self.stack.push(val as i64);
            },
            Instruction::StoreU8 => {
                if n < 2 {
                    return Err(VMError { kind: FaultKind::StackUnderflow, address: self.pc });
                }
                let addr = self.stack[n - 1];
                let value = self.stack[n - 2];
                let in_display = addr >= DISPLAY_BASE as i64 && addr < DISPLAY_END as i64;
                if in_display {
                    if !((addr as usize) - DISPLAY_BASE < self.framebuffer.len()) {
                        return Err(
                            VMError { kind: FaultKind::MemoryOutOfBounds, address: self.pc },
                        );
                    }
                } else {
                    if !(0 <= addr && (addr as u64) < (self.memory.len() as u64)) {
                        return Err(
                            VMError { kind: FaultKind::MemoryOutOfBounds, address: self.pc },
                        );
                    }
                }
                self.stack.truncate(n - 2);
                let b = (u64_cast(value) % 0x100) as u8;
                self.set_memory(addr as usize, b);
            },
            Instruction::Swap => {
                if n < 2 {
                    return Err(VMError { kind: FaultKind::StackUnderflow, address: self.pc });
                }
                let val2 = self.stack.pop().unwrap();
                let val1 = self.stack.pop().unwrap();
                self.stack.push(val2);
                self.stack.push(val1);
            },
            Instruction::Dupe => {
                if n < 1 {
                    return Err(VMError { kind: FaultKind::StackUnderflow, address: self.pc });
                }
                let top = self.stack[n - 1];
                self.stack.push(top);
            },
            Instruction::DupeAt => {
                if self.memory.len() as u64 - self.pc < 9 {
                    return Err(VMError { kind: FaultKind::PcOutOfBounds, address: self.pc });
                }
                let depth = i64_cast(read_le_u64(&self.memory, (self.pc + 1) as usize));
                if !(1 <= depth && (depth as u64) <= (n as u64)) {
                    return Err(VMError { kind: FaultKind::StackIndexOutOfRange, address: self.pc });
                }
                let val = self.stack[n - (depth as usize)];
                self.stack.push(val);
                self.pc += 8;
            },
            Instruction::Interrupt => {
                if self.memory.len() as u64 - self.pc < 2 {
                    return Err(VMError { kind: FaultKind::PcOutOfBounds, address: self.pc });
                }
                let code = self.memory[(self.pc + 1) as usize];
                let fa = self.pc + 1;
                match code {
                    0x0 => {
                        if n < 1 {
                            return Err(VMError { kind: FaultKind::MissingColor, address: fa });
                        }
                        if n < 2 {
                            return Err(
                                VMError { kind: FaultKind::MissingPixelIndex, address: fa },
                            );
                        }
                        let color = self.stack[n - 1];
                        let idx = self.stack[n - 2];
                        if !(0 <= idx && (idx as u64) < (self.framebuffer.len() as u64)) {
                            return Err(
                                VMError { kind: FaultKind::MemoryOutOfBounds, address: fa },
                            );
                        }
                        self.stack.truncate(n - 2);
                        let pixel = (u64_cast(color) % 0x1_0000_0000) as u32;
                        self.framebuffer.set(idx as usize, pixel);
                    },
                    0x1 => {
                        if n < 1 {
                            return Err(VMError { kind: FaultKind::MissingColor, address: fa });
                        }
                        if n < 2 {
                            return Err(VMError { kind: FaultKind::MissingY, address: fa });
                        }
                        if n < 3 {
                            return Err(VMError { kind: FaultKind::MissingX, address: fa });
                        }
                        let color = self.stack[n - 1];
                        let y = self.stack[n - 2];
                        let x = self.stack[n - 3];
                        if y < 0 || x < 0 {
                            return Err(
                                VMError { kind: FaultKind::MemoryOutOfBounds, address: fa },
                            );
                        }
                                proof {
                            assert(self.framebuffer.len() == self.framebuffer@.len());
                        }
                                let prod = match (y as u64).checked_mul(self.display.width as u64) {
                            Some(p) => p.checked_add(x as u64),
                            None => None,
                        };
                        let idx = match prod {
                            Some(idx) => idx,
                            None => {
                                return Err(
                                    VMError { kind: FaultKind::MemoryOutOfBounds, address: fa },
                                );
                            },
                        };
                        if !(idx < self.framebuffer.len() as u64) {
                            return Err(
                                VMError { kind: FaultKind::MemoryOutOfBounds, address: fa },
                            );
                        }
                        self.stack.truncate(n - 3);
                        let pixel = (u64_cast(color) % 0x1_0000_0000) as u32;
                        self.framebuffer.set(idx as usize, pixel);
                    },
                    _ => {
                        return Err(VMError { kind: FaultKind::UnknownInterrupt, address: fa });
                    },
                }
                self.pc += 1;
            },
            Instruction::Call => {
                if n < 1 {
                    return Err(VMError { kind: FaultKind::StackUnderflow, address: self.pc });
                }
                let dest = self.stack.pop().unwrap();
                self.call_stack.push(StackFrame::new(self.pc as usize));
                proof {
                    assert(self.call_stack@.map_values(|f: StackFrame| f.return_addr as nat) =~= old(
                        self,
                    ).call_stack@.map_values(|f: StackFrame| f.return_addr as nat).push(
                        old(self).pc as nat,
                    ));
                }
                self.pc = if dest <= 0 {
                    0
                } else {
                    dest as u64
                };
            },
            Instruction::Ret => {
                if self.call_stack.len() < 1 {
                    return Err(VMError { kind: FaultKind::EmptyCallStack, address: self.pc });
                }
                let frame = self.call_stack.pop().unwrap();
                proof {
                    assert(self.call_stack@.map_values(|f: StackFrame| f.return_addr as nat) =~= old(
                        self,
                    ).call_stack@.map_values(|f: StackFrame| f.return_addr as nat).drop_last());
                }
                self.pc = frame.return_addr as u64;
            },
        }
        match instr {
            Instruction::Jump | Instruction::Call => {},
            _ => {
                self.pc += 1;
            },
        }
        Ok(())
    }
}

} // verus!

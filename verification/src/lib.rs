//! A small byte-code virtual machine: a linear-memory, stack-based interpreter
//! for a closed instruction set, with a memory-mapped pixel display window,
//! subroutine calls, host interrupts for pixel output, and structured fault
//! reporting.  The crate also carries the surrounding tool chain: a textual
//! assembler and a minimal source-language front end (lexer, parser, byte-code
//! emitter) that produce the flat byte images the engine executes.

pub mod assembler;
pub mod compiler;
pub mod emitter;
pub mod fault;
pub mod instr;
pub mod lexer;
pub mod parser;
pub mod text;
pub mod vm;

pub use assembler::assemble;
pub use compiler::compile;
pub use emitter::emit;
pub use fault::FaultKind;
pub use fault::VMError;
pub use instr::Instruction;
pub use lexer::lex;
pub use lexer::Token;
pub use parser::parse;
pub use parser::ASTNode;
pub use parser::Expression;
pub use parser::InstrValuePair;
pub use parser::Statement;
pub use vm::DisplayInfo;
pub use vm::StackFrame;
pub use vm::VM;

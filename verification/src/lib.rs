//! Core of a bytecode-interpreted scripting language: a lexical scanner, a
//! bytecode chunk with its disassembler, and the decision logic of a stack
//! machine that executes it.

pub mod ascii;
pub mod chunk;
pub mod compiler;
pub mod disassembler;
pub mod error;
pub mod grammar;
pub mod opcode;
pub mod scanner;
pub mod text;
pub mod token;
pub mod vm;

pub use ascii::to_ascii_chars;
pub use token::{Token, TokenType};
pub use scanner::Scanner;
pub use chunk::Chunk;
pub use error::InterpretError;
pub use opcode::OpCode;
pub use compiler::interpret;

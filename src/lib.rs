pub mod brainfuck;
pub mod codegen;
pub mod laws;
pub mod text;

pub use brainfuck::{BrainfuckCode, BrainfuckInstruction};
pub use codegen::{codegen_assembly, codegen_c, AssemblyStyle};

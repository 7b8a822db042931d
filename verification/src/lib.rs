//! Bytecode chunks for a stack-based virtual machine, a disassembler that
//! renders them as text, and a small tester that looks for expected lines in
//! the text a command wrote.
pub mod disasm;
pub mod lit;
pub mod matching;
pub mod text;
pub mod value;
pub mod vm;

//! Normalizes the text that a disassembler prints into an address-free listing
//! grouped by section and symbol, sorted by name, with contracts checked by
//! Verus.

pub mod disasm;
pub mod error;
pub mod grammar;
pub mod instruction;
pub mod laws;
pub mod order;
pub mod section;
pub mod symbol;
pub mod text;

pub use disasm::{canonical_text, Disasm};
pub use instruction::Instruction;
pub use section::Section;
pub use symbol::Symbol;

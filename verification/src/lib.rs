//! SemCode toolchain core: runtime quotas and symbol tables, parser
//! profiles, the SemCode byte format, IR cleanup passes and the bytecode
//! virtual machine pieces, with their contracts proved by Verus.
pub mod runtime_core;
pub mod text;
pub mod lexer;
pub mod alias_table;
pub mod profile;
pub mod semcode_format;
pub mod quad;
pub mod ir;
pub mod bytecode;
pub mod vm;
pub mod passes;
pub mod disasm;
pub mod verify_report;
pub mod emit;
pub mod static_check;
pub mod logos;
pub mod order;
pub mod borrow;

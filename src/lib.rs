pub mod assembler;
pub mod instruction;
pub mod parser;
pub mod scanlines;
pub mod scanner;
pub mod symbol_table;
pub mod text;
pub mod token;

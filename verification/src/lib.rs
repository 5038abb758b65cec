//! Compiler for the Butter language: tokenizer, parser and x86-64 assembly generator.
pub mod text;
pub mod chars;
pub mod tokenizer;
pub mod parser;
pub mod generator;
pub mod print_streams;
pub mod asm_laws;
pub mod semantics_laws;
pub mod driver;


//! An assembler for the Hack machine language.
//!
//! [`parse`] reads a source text into [`Item`]s, [`scan_symbols`] resolves
//! their labels and variables into a symbol table, and [`assemble`] renders
//! every instruction as a line of sixteen binary digits. [`assemble_source`]
//! does all three, and [`render`] joins the lines into the text of the
//! output.
//!
//! Each of these functions computes a function on mathematical values that
//! its module or the one beside it defines: [`grammar::parse_source`],
//! [`symbols::symbol_table`], [`assembler::assembly`] and
//! [`assembler::source_assembly`]. The modules [`grammar_laws`],
//! [`symbol_laws`] and [`output_laws`] prove what holds of those functions
//! on every input: when they have a result, and what the items, the
//! addresses and the lines then are.

pub mod assembler;
pub mod encoding;
pub mod error;
pub mod grammar;
pub mod grammar_laws;
pub mod item;
pub mod output_laws;
pub mod parser;
pub mod search;
pub mod sink;
pub mod symbol_laws;
pub mod symbols;
pub mod text;

pub use assembler::{assemble, assemble_source, render};
pub use error::{AssembleError, AssembleErrorView, Expected};
pub use item::{Item, ItemView, Operand, OperandView};
pub use parser::parse;
pub use sink::{choose_sink, Sink};
pub use symbols::{scan_symbols, SymbolData, SymbolTable};

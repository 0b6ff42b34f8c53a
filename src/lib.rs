//! Front end of a line-oriented markup reader: a lookahead line scanner, an
//! attribute-list scanner, a block-fence recognizer, a header-line tokenizer
//! and a pull-based block event generator, each with a checked contract.

pub mod ast;
pub mod delimiter;
pub mod doc_attr;
pub mod element_attr;
pub mod event;
pub mod generator;
pub mod header;
pub mod line_scanner;
pub mod multiparse;
pub mod nesting;
pub mod parser;
pub mod round_trip;
pub mod section;
pub mod text;

//! A scanner that cuts stylesheet source text into tokens.
//!
//! [`input::Input`] holds a text, [`tokenizer::Tokenizer`] hands out its
//! tokens one by one. What a scan yields is defined in [`scan`] as a function
//! of the text; [`scanner`] computes it, and [`laws`] states what follows for
//! every text. Every offset counts characters.

pub mod chars;
pub mod input;
pub mod laws;
pub mod scan;
pub mod scanner;
pub mod stop;
pub mod token;
pub mod tokenizer;
pub mod trusted;

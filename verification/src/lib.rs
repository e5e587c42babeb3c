//! Front end of the rss compiler: characters to tokens, tokens to statements,
//! statements to the table of declared names.
//!
//! - [`scanner`] turns a source text into tokens,
//! - [`grammar`] says which statements a sequence of tokens writes,
//! - [`parser`] reads them,
//! - [`resolver`] collects the names that the statements declare,
//! - [`compiler`] runs the three one after the other,
//! - [`diagnostics`] writes the line that reports an error,
//! - [`util`] holds the cursor that scanner and parser walk with.

pub mod compiler;
pub mod diagnostics;
pub mod grammar;
pub mod parser;
pub mod resolver;
pub mod scanner;
pub mod util;

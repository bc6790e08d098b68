//! A tree-walking interpreter for a small expression-and-statement language.
//!
//! Source text is scanned into tokens, the tokens are parsed into statements,
//! and the statements are executed against a single flat store of variables.
//! No stage ever aborts: each records its diagnostics and goes on with a
//! placeholder, so every stage hands a well-formed value to the next.

pub mod ast;
pub mod diagnostic;
pub mod driver;
pub mod environment;
pub mod interpreter;
pub mod scanner;
pub mod text;
pub mod token;

//! A macro-expansion engine: a table of named text templates and the
//! expansion of references to them inside strings.
//!
//! Text is handled as sequences of `char`. Every executable function is
//! specified against a mathematical model of the table, of the token
//! grammar and of expansion, and proved to follow it.

pub mod convert;
pub mod definition;
pub mod error;
pub mod expand;
pub mod expr;
pub mod laws;
pub mod macro_context;
pub mod table;
pub mod text;
pub mod token;

pub use definition::{ContextId, MacroDefinition};
pub use error::{ConfigFault, Error, ParseFault};
pub use macro_context::{expand, MacroContext, DEFAULT_MAX_DEPTH, DEFAULT_SCOPE};
pub use table::MacroTable;
pub use token::{tokenize, Directive, DirectiveKind, Token, Tokenizer};

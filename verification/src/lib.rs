//! A text-template compiler, verified end to end: documents hold literal
//! text, `{name}` variable placeholders, and `{%...}` commands (conditional
//! blocks, repeatable pattern blocks, file includes, and include-wrapping),
//! and render to a flat string once variables and pattern instances are
//! bound.
//!
//! ### Syntax
//!
//! - Variable: `{name}` — any run of non-whitespace, non-`}` characters.
//! - Command: `{%command argument}` — everything between `%` and the next
//!   `}` is trimmed and split on the first space.
//! - Escape: `\{` gives a literal `{`; a backslash before anything else
//!   passes through unchanged, backslash included.
//! - Commands: `set NAME VALUE`, `if-set NAME` ... `else` ... `end`,
//!   `pattern NAME` ... `end`, `include PATH`, `wrap-include PATH` ...
//!   `end`, and `wrapped-content` (the splice point inside a wrap-included
//!   file).
//!
//! Files referenced by `include` and `wrap-include` are looked up in a
//! [`FileSet`], a table of path/content pairs the caller supplies; nothing
//! here touches a file system. Every lex, structure and render step is
//! specified against a mathematical model of the grammar and proved to
//! match it.

pub mod document;
pub mod elements;
pub mod err;
pub mod error;
pub mod laws;
pub mod lexer;
pub mod maps;
pub mod node;
pub mod options;
pub mod pass_through;
pub mod path;
pub mod render;
pub mod structure;
pub mod strutil;

pub use elements::Element;
pub use err::ParseError;
pub use error::Error;
pub use maps::FileSet;
pub use node::Document;
pub use node::Pattern;
pub use node::Token;
pub use options::ErrorLevel;
pub use options::IncludeMethod;
pub use options::Options;

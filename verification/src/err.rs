//! Errors raised while parsing and structuring a template.

use vstd::prelude::*;

verus! {

/// Why a parse failed. Every variant is terminal: a failing include aborts
/// the entire enclosing parse.
#[derive(Debug)]
pub enum ParseError {
    /// A referenced file is not present in the file set, or could not be
    /// read. Carries the resolved path and a description of the cause.
    ReadError { file: String, inner: String },
    /// A candidate path could not be normalized by the file system.
    CanonicalizationError { path: String, inner: String },
    /// A `{%...}` placeholder named a command that does not exist.
    UnknownCommand { command: String },
    /// A command was given an empty or missing argument.
    CommandArgumentInvalid { command: String, argument: String },
    /// An include was attempted under the template-relative method, but the
    /// document was parsed from an in-memory buffer and has no directory.
    UnresolvableInclude { included_file: String, include_path: String, from_buffer_template: bool },
    /// Input ended while a composite command was still open.
    UnclosedCommand,
    /// Includes nested deeper than the file set is large; such a chain can
    /// only arise from a file that includes itself, directly or through
    /// other files.
    DepthExceeded,
}

/// Mathematical image of `ParseError`.
pub enum ErrV {
    ReadError { file: Seq<char>, inner: Seq<char> },
    CanonicalizationError { path: Seq<char>, inner: Seq<char> },
    UnknownCommand { command: Seq<char> },
    CommandArgumentInvalid { command: Seq<char>, argument: Seq<char> },
    UnresolvableInclude {
        included_file: Seq<char>,
        include_path: Seq<char>,
        from_buffer_template: bool,
    },
    UnclosedCommand,
    DepthExceeded,
}

impl View for ParseError {
    type V = ErrV;

    open spec fn view(&self) -> ErrV {
        match self {
            ParseError::ReadError { file, inner } => ErrV::ReadError {
                file: file@,
                inner: inner@,
            },
            ParseError::CanonicalizationError { path, inner } => ErrV::CanonicalizationError {
                path: path@,
                inner: inner@,
            },
            ParseError::UnknownCommand { command } => ErrV::UnknownCommand { command: command@ },
            ParseError::CommandArgumentInvalid { command, argument } => {
                ErrV::CommandArgumentInvalid { command: command@, argument: argument@ }
            },
            ParseError::UnresolvableInclude {
                included_file,
                include_path,
                from_buffer_template,
            } => ErrV::UnresolvableInclude {
                included_file: included_file@,
                include_path: include_path@,
                from_buffer_template: *from_buffer_template,
            },
            ParseError::UnclosedCommand => ErrV::UnclosedCommand,
            ParseError::DepthExceeded => ErrV::DepthExceeded,
        }
    }
}

} // verus!

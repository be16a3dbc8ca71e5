//! Configuration for parsing: how include paths are resolved and how strictly
//! unresolved includes and unset variables are treated.

use vstd::prelude::*;

verus! {

/// The root from which relative include paths are resolved.
///
/// `CurrentDirectory` leaves the path as written, so the process's working
/// directory decides where it points. `Template` resolves from the directory
/// holding the file currently being lexed: the template file itself at the
/// top, or the included file within which a nested include appears; a
/// document parsed from an in-memory buffer has no such directory, and every
/// include is then unresolvable. `Path` resolves from the given fixed
/// directory.
#[derive(Clone, Debug, PartialEq)]
pub enum IncludeMethod {
    CurrentDirectory,
    Template,
    Path(String),
}

/// How severe a condition is taken to be.
#[derive(Clone, Copy, Debug, PartialEq)]
pub enum ErrorLevel {
    Error,
    Warning,
    NoError,
}

/// Parsing options: strictness levels and the include-resolution method.
#[derive(Clone, Debug, PartialEq)]
pub struct Options {
    pub unknown_include: ErrorLevel,
    pub unset_varaible: ErrorLevel,
    pub include_method: IncludeMethod,
}

/// Mathematical image of `IncludeMethod`.
pub enum MethodV {
    CurrentDirectory,
    Template,
    Path(Seq<char>),
}

/// Mathematical image of `Options`.
pub struct OptionsV {
    pub unknown_include: ErrorLevel,
    pub unset_varaible: ErrorLevel,
    pub include_method: MethodV,
}

impl View for IncludeMethod {
    type V = MethodV;

    open spec fn view(&self) -> MethodV {
        match self {
            IncludeMethod::CurrentDirectory => MethodV::CurrentDirectory,
            IncludeMethod::Template => MethodV::Template,
            IncludeMethod::Path(p) => MethodV::Path(p@),
        }
    }
}

impl View for Options {
    type V = OptionsV;

    open spec fn view(&self) -> OptionsV {
        OptionsV {
            unknown_include: self.unknown_include,
            unset_varaible: self.unset_varaible,
            include_method: self.include_method@,
        }
    }
}

/// The options a freshly made `Options` carries.
pub open spec fn default_options() -> OptionsV {
    OptionsV {
        unknown_include: ErrorLevel::Error,
        unset_varaible: ErrorLevel::NoError,
        include_method: MethodV::Template,
    }
}

impl Options {
    /// The default configuration: unresolvable includes fail the parse, unset
    /// variables pass through, and paths resolve from the template file.
    pub fn new() -> (r: Self)
        ensures
            r@ == default_options(),
    {
        Self {
            unknown_include: ErrorLevel::Error,
            unset_varaible: ErrorLevel::NoError,
            include_method: IncludeMethod::Template,
        }
    }

    /// An exact copy of the options.
    pub fn dup(&self) -> (r: Self)
        ensures
            r@ == self@,
    {
        Self {
            unknown_include: self.unknown_include,
            unset_varaible: self.unset_varaible,
            include_method: match &self.include_method {
                IncludeMethod::CurrentDirectory => IncludeMethod::CurrentDirectory,
                IncludeMethod::Template => IncludeMethod::Template,
                IncludeMethod::Path(p) => IncludeMethod::Path(p.clone()),
            },
        }
    }

    /// Sets how an unresolvable include is treated.
    pub fn unknown_includer(self, error_level: ErrorLevel) -> (r: Self)
        ensures
            r@ == (OptionsV { unknown_include: error_level, ..self@ }),
    {
        Self { unknown_include: error_level, ..self }
    }

    /// Sets how an unfilled variable is treated.
    pub fn unset_varaible(self, error_level: ErrorLevel) -> (r: Self)
        ensures
            r@ == (OptionsV { unset_varaible: error_level, ..self@ }),
    {
        Self { unset_varaible: error_level, ..self }
    }

    /// Sets where included templates are searched for.
    pub fn include_path(self, method: IncludeMethod) -> (r: Self)
        ensures
            r@ == (OptionsV { include_method: method@, ..self@ }),
    {
        Self { include_method: method, ..self }
    }
}

impl Default for Options {
    fn default() -> (r: Self)
        ensures
            r@ == default_options(),
    {
        Self::new()
    }
}

impl From<bool> for ErrorLevel {
    fn from(b: bool) -> (r: Self) {
        if b {
            ErrorLevel::Error
        } else {
            ErrorLevel::NoError
        }
    }
}

impl vstd::std_specs::convert::FromSpecImpl<bool> for ErrorLevel {
    open spec fn obeys_from_spec() -> bool {
        true
    }

    open spec fn from_spec(b: bool) -> Self {
        if b {
            ErrorLevel::Error
        } else {
            ErrorLevel::NoError
        }
    }
}

} // verus!

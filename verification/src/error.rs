//! The errors that defining, removing and expanding macros can give.

use vstd::prelude::*;

verus! {

/// Why a definition string was refused.
#[derive(Debug, Clone, Copy, PartialEq, Eq, Hash)]
pub enum ConfigFault {
    /// The string does not start with a name character.
    EmptyName,
    /// The name starts with a digit, or is followed by something other than
    /// a blank or a parameter list.
    MalformedName,
    /// A parameter list is opened and never closed.
    UnbalancedParameters,
    /// A parameter is not a name.
    MalformedParameter,
    /// The parameter list is followed by something other than a blank.
    MissingSeparator,
}

/// Why a directive could not be read or evaluated.
#[derive(Debug, Clone, Copy, PartialEq, Eq, Hash)]
pub enum ParseFault {
    /// A `%` is followed by nothing that starts a directive, or a braced
    /// directive holds no name.
    EmptyName,
    /// A `%{` has no matching `}`.
    UnterminatedBrace,
    /// An argument list is opened and never closed.
    UnterminatedArguments,
    /// A braced directive holds something other than its name, its
    /// arguments and its alternative.
    MalformedDirective,
    /// A `%{-` is not followed by one option letter and at most a `*`.
    MalformedFlag,
    /// A `%[` has no matching `]`.
    UnterminatedExpression,
    /// The text of a `%[..]` is not an arithmetic expression.
    MalformedExpression,
    /// A value of a `%[..]` does not fit in 64 bits.
    ArithmeticOverflow,
    /// A `%[..]` divides by zero.
    DivisionByZero,
}

/// An error of the macro engine.
#[derive(Debug, Clone, PartialEq, Eq)]
pub enum Error {
    /// A definition string is malformed.
    Config(ConfigFault),
    /// A directive is malformed; the number is the byte offset of its `%`
    /// in the text that holds it.
    Parse(usize, ParseFault),
    /// Under the strict policy, a reference names no macro.
    Undefined(String),
    /// Macros are nested deeper than the allowed depth.
    RecursionLimit,
    /// There is no definition of this name to remove.
    NotFound(String),
}

/// The mathematical value of an [`Error`].
pub enum ErrorView {
    Config(ConfigFault),
    Parse(int, ParseFault),
    Undefined(Seq<char>),
    RecursionLimit,
    NotFound(Seq<char>),
}

impl View for Error {
    type V = ErrorView;

    open spec fn view(&self) -> ErrorView {
        match self {
            Error::Config(f) => ErrorView::Config(*f),
            Error::Parse(o, f) => ErrorView::Parse(*o as int, *f),
            Error::Undefined(n) => ErrorView::Undefined(n@),
            Error::RecursionLimit => ErrorView::RecursionLimit,
            Error::NotFound(n) => ErrorView::NotFound(n@),
        }
    }
}

/// What [`ConfigFault::describe`] says of each fault.
pub open spec fn config_fault_text(f: ConfigFault) -> Seq<char> {
    match f {
        ConfigFault::EmptyName => "macro name is empty"@,
        ConfigFault::MalformedName => "macro name is malformed"@,
        ConfigFault::UnbalancedParameters => "parameter list is not closed"@,
        ConfigFault::MalformedParameter => "parameter is not a name"@,
        ConfigFault::MissingSeparator => "no blank between parameter list and body"@,
    }
}

/// What [`ParseFault::describe`] says of each fault.
pub open spec fn parse_fault_text(f: ParseFault) -> Seq<char> {
    match f {
        ParseFault::EmptyName => "directive has no name"@,
        ParseFault::UnterminatedBrace => "brace is not closed"@,
        ParseFault::UnterminatedArguments => "argument list is not closed"@,
        ParseFault::MalformedDirective => "directive is malformed"@,
        ParseFault::MalformedFlag => "option query is malformed"@,
        ParseFault::UnterminatedExpression => "bracket is not closed"@,
        ParseFault::MalformedExpression => "expression is malformed"@,
        ParseFault::ArithmeticOverflow => "arithmetic overflow"@,
        ParseFault::DivisionByZero => "division by zero"@,
    }
}

/// What [`Error::describe`] says of each error.
pub open spec fn error_text(e: ErrorView) -> Seq<char> {
    match e {
        ErrorView::Config(f) => config_fault_text(f),
        ErrorView::Parse(_, f) => parse_fault_text(f),
        ErrorView::Undefined(_) => "macro is not defined"@,
        ErrorView::RecursionLimit => "macros are nested too deeply"@,
        ErrorView::NotFound(_) => "no definition to remove"@,
    }
}

impl ConfigFault {
    /// A short description of the fault.
    pub fn describe(&self) -> (r: &'static str)
        ensures
            r@ == config_fault_text(*self),
    {
        match self {
            ConfigFault::EmptyName => "macro name is empty",
            ConfigFault::MalformedName => "macro name is malformed",
            ConfigFault::UnbalancedParameters => "parameter list is not closed",
            ConfigFault::MalformedParameter => "parameter is not a name",
            ConfigFault::MissingSeparator => "no blank between parameter list and body",
        }
    }
}

impl ParseFault {
    /// A short description of the fault.
    pub fn describe(&self) -> (r: &'static str)
        ensures
            r@ == parse_fault_text(*self),
    {
        match self {
            ParseFault::EmptyName => "directive has no name",
            ParseFault::UnterminatedBrace => "brace is not closed",
            ParseFault::UnterminatedArguments => "argument list is not closed",
            ParseFault::MalformedDirective => "directive is malformed",
            ParseFault::MalformedFlag => "option query is malformed",
            ParseFault::UnterminatedExpression => "bracket is not closed",
            ParseFault::MalformedExpression => "expression is malformed",
            ParseFault::ArithmeticOverflow => "arithmetic overflow",
            ParseFault::DivisionByZero => "division by zero",
        }
    }
}

impl Error {
    /// A short description of the error. The offset and the name, where
    /// there is one, are the variant's own fields.
    pub fn describe(&self) -> (r: &'static str)
        ensures
            r@ == error_text(self@),
    {
        match self {
            Error::Config(f) => f.describe(),
            Error::Parse(_, f) => f.describe(),
            Error::Undefined(_) => "macro is not defined",
            Error::RecursionLimit => "macros are nested too deeply",
            Error::NotFound(_) => "no definition to remove",
        }
    }
}

} // verus!

//! The errors of a compilation, and their texts.

use vstd::prelude::*;

verus! {

/// Errors that can occur when using this library.
#[derive(Clone, Debug, Eq, PartialEq)]
#[non_exhaustive]
pub enum Error {
    /// The recursion while compiling has exhausted the limit.
    RecursionTooDeep,
    /// After compiling, the resulting compiled regex pattern is empty.
    CompiledPatternIsEmpty(String),
    /// A corresponding pattern definition could not be found for the given name.
    DefinitionNotFound(String),
    /// If the compilation for a specific regex in the underlying engine failed.
    RegexCompilationFailed(String),
    /// Something is messed up during the compilation phase.
    GenericCompilationFailure(String),
}

/// An error as a plain value: the texts in place of the strings.
pub enum Failure {
    RecursionTooDeep,
    CompiledPatternIsEmpty(Seq<char>),
    DefinitionNotFound(Seq<char>),
    RegexCompilationFailed(Seq<char>),
    GenericCompilationFailure(Seq<char>),
}

impl View for Error {
    type V = Failure;

    open spec fn view(&self) -> Failure {
        match self {
            Error::RecursionTooDeep => Failure::RecursionTooDeep,
            Error::CompiledPatternIsEmpty(p) => Failure::CompiledPatternIsEmpty(p@),
            Error::DefinitionNotFound(d) => Failure::DefinitionNotFound(d@),
            Error::RegexCompilationFailed(r) => Failure::RegexCompilationFailed(r@),
            Error::GenericCompilationFailure(d) => Failure::GenericCompilationFailure(d@),
        }
    }
}

impl Failure {
    /// What kind of error this is, in a few words.
    pub open spec fn description(self) -> Seq<char> {
        match self {
            Failure::RecursionTooDeep => "compilation recursion reached the limit"@,
            Failure::CompiledPatternIsEmpty(_) => "compiled pattern is empty"@,
            Failure::DefinitionNotFound(_) => "pattern definition not found while compiling"@,
            Failure::RegexCompilationFailed(_) => "regex compilation in the engine failed"@,
            Failure::GenericCompilationFailure(_) => "something happened during the compilation phase"@,
        }
    }

    /// The sentence that reports the error, with what it carries in quotes.
    pub open spec fn message(self) -> Seq<char> {
        match self {
            Failure::RecursionTooDeep => "Recursion while compiling reached the limit of 1024"@,
            Failure::CompiledPatternIsEmpty(p) => "The given pattern \""@ + p
                + "\" ended up compiling into an empty regex"@,
            Failure::DefinitionNotFound(d) => "The given pattern definition name \""@ + d
                + "\" could not be found in the definition map"@,
            Failure::RegexCompilationFailed(r) => "The given regex \""@ + r
                + "\" failed compilation in the underlying engine"@,
            Failure::GenericCompilationFailure(d) =>
                "Something unexpected happened during the compilation phase: \""@ + d + "\""@,
        }
    }
}

/// A sentence made of a text between two others.
fn framed(head: &str, middle: &str, tail: &str) -> (r: String)
    ensures
        r@ == head@ + middle@ + tail@,
{
    let mut r = String::from_str(head);
    r.append(middle);
    r.append(tail);
    r
}

impl Error {
    /// What kind of error this is, in a few words.
    pub fn description(&self) -> (r: &'static str)
        ensures
            r@ == self@.description(),
    {
        match self {
            Error::RecursionTooDeep => "compilation recursion reached the limit",
            Error::CompiledPatternIsEmpty(_) => "compiled pattern is empty",
            Error::DefinitionNotFound(_) => "pattern definition not found while compiling",
            Error::RegexCompilationFailed(_) => "regex compilation in the engine failed",
            Error::GenericCompilationFailure(_) => "something happened during the compilation phase",
        }
    }

    /// The sentence that reports the error, with what it carries in quotes.
    pub fn message(&self) -> (r: String)
        ensures
            r@ == self@.message(),
    {
        match self {
            Error::RecursionTooDeep => String::from_str(
                "Recursion while compiling reached the limit of 1024",
            ),
            Error::CompiledPatternIsEmpty(p) => framed(
                "The given pattern \"",
                p.as_str(),
                "\" ended up compiling into an empty regex",
            ),
            Error::DefinitionNotFound(d) => framed(
                "The given pattern definition name \"",
                d.as_str(),
                "\" could not be found in the definition map",
            ),
            Error::RegexCompilationFailed(r) => framed(
                "The given regex \"",
                r.as_str(),
                "\" failed compilation in the underlying engine",
            ),
            Error::GenericCompilationFailure(d) => framed(
                "Something unexpected happened during the compilation phase: \"",
                d.as_str(),
                "\"",
            ),
        }
    }
}

/// The detail of a failed compilation: the error of the engine, then the
/// text that it refused.
pub open spec fn refusal(error: Seq<char>, regex: Seq<char>) -> Seq<char> {
    "Regex compilation failed: "@ + error + ":\n"@ + regex
}

/// Writes the detail of a failed compilation.
pub fn refusal_text(error: &str, regex: &str) -> (r: String)
    ensures
        r@ == refusal(error@, regex@),
{
    let mut r = String::from_str("Regex compilation failed: ");
    r.append(error);
    r.append(":\n");
    r.append(regex);
    r
}

} // verus!

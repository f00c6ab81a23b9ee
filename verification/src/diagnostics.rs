//! Recoverable errors, recorded with their place in the source.

use vstd::prelude::*;
use crate::scan::LexError;

verus! {

/// How much a diagnostic weighs for whoever renders it.
#[derive(Clone, Copy, Debug, PartialEq, Eq, Structural, Hash)]
pub enum Severity {
    Error,
    Warning,
}

/// What went wrong.
#[derive(Clone, Copy, Debug, PartialEq, Eq, Structural, Hash)]
pub enum Problem {
    /// A malformed lexical form.
    Lexical(LexError),
    /// A token that the grammar does not allow where it stands.
    UnexpectedToken,
    /// A closing `)` was expected.
    ExpectedRParen,
    /// A closing `]` was expected.
    ExpectedRBrack,
    /// A closing `}` was expected.
    ExpectedRCurly,
    /// A `;` or a line break was expected at the end of a statement.
    ExpectedSemicolon,
    /// A binding name was expected after `let`, `const` or `var`.
    ExpectedBindingName,
    /// The rest of a template literal was expected after a substitution.
    ExpectedTemplateContinuation,
    /// Expressions are nested deeper than the parser follows.
    NestingTooDeep,
}

/// One recoverable error: what it is and the half-open byte span it covers.
#[derive(Clone, Copy, Debug, PartialEq, Eq, Structural, Hash)]
pub struct Diagnostic {
    pub problem: Problem,
    pub start: u32,
    pub end: u32,
    pub severity: Severity,
}

impl Diagnostic {
    /// An error-severity diagnostic over `[start, end)`.
    pub open spec fn spec_error(problem: Problem, start: u32, end: u32) -> Diagnostic {
        Diagnostic { problem, start, end, severity: Severity::Error }
    }

    #[verifier::when_used_as_spec(spec_error)]
    pub fn error(problem: Problem, start: u32, end: u32) -> (d: Diagnostic)
        ensures
            d == Self::spec_error(problem, start, end),
    {
        Diagnostic { problem, start, end, severity: Severity::Error }
    }

    /// The span lies in a text of `len` bytes.
    pub open spec fn in_bounds(self, len: int) -> bool {
        self.start <= self.end <= len
    }

    /// The text a renderer shows for the diagnostic.
    pub fn message(&self) -> (s: String)
        ensures
            s@ == Self::message_text(self.problem),
    {
        match self.problem {
            Problem::Lexical(LexError::UnterminatedString) => "Unterminated string".to_owned(),
            Problem::Lexical(LexError::UnterminatedRegex) => "Unterminated regular expression".to_owned(),
            Problem::Lexical(LexError::UnterminatedTemplate) => "Unterminated template literal".to_owned(),
            Problem::Lexical(LexError::UnterminatedComment) => "Unterminated multi-line comment".to_owned(),
            Problem::Lexical(LexError::InvalidEscape) => "Invalid escape sequence".to_owned(),
            Problem::Lexical(LexError::InvalidNumber) => "Invalid numeric literal".to_owned(),
            Problem::Lexical(LexError::UnexpectedCharacter) => "Invalid character".to_owned(),
            Problem::UnexpectedToken => "Unexpected token".to_owned(),
            Problem::ExpectedRParen => "Expected `)`".to_owned(),
            Problem::ExpectedRBrack => "Expected `]`".to_owned(),
            Problem::ExpectedRCurly => "Expected `}`".to_owned(),
            Problem::ExpectedSemicolon => "Expected a semicolon or a line break".to_owned(),
            Problem::ExpectedBindingName => "Expected a binding name".to_owned(),
            Problem::ExpectedTemplateContinuation => "Expected the template to continue".to_owned(),
            Problem::NestingTooDeep => "Expression nested too deeply".to_owned(),
        }
    }

    /// The message of each problem.
    pub open spec fn message_text(problem: Problem) -> Seq<char> {
        match problem {
            Problem::Lexical(LexError::UnterminatedString) => "Unterminated string"@,
            Problem::Lexical(LexError::UnterminatedRegex) => "Unterminated regular expression"@,
            Problem::Lexical(LexError::UnterminatedTemplate) => "Unterminated template literal"@,
            Problem::Lexical(LexError::UnterminatedComment) => "Unterminated multi-line comment"@,
            Problem::Lexical(LexError::InvalidEscape) => "Invalid escape sequence"@,
            Problem::Lexical(LexError::InvalidNumber) => "Invalid numeric literal"@,
            Problem::Lexical(LexError::UnexpectedCharacter) => "Invalid character"@,
            Problem::UnexpectedToken => "Unexpected token"@,
            Problem::ExpectedRParen => "Expected `)`"@,
            Problem::ExpectedRBrack => "Expected `]`"@,
            Problem::ExpectedRCurly => "Expected `}`"@,
            Problem::ExpectedSemicolon => "Expected a semicolon or a line break"@,
            Problem::ExpectedBindingName => "Expected a binding name"@,
            Problem::ExpectedTemplateContinuation => "Expected the template to continue"@,
            Problem::NestingTooDeep => "Expression nested too deeply"@,
        }
    }
}

/// Every diagnostic of `list` lies in a text of `len` bytes.
pub open spec fn all_in_bounds(list: Seq<Diagnostic>, len: int) -> bool {
    forall|i: int| 0 <= i < list.len() ==> (#[trigger] list[i]).in_bounds(len)
}

} // verus!

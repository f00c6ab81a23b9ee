//! Token kinds and the token value that the lexer hands out.

use vstd::prelude::*;

verus! {

/// Every lexical class the lexer can emit. The set is closed: a byte that
/// starts no known form is reported as `Unknown`.
#[derive(Clone, Copy, Debug, PartialEq, Eq, Structural, Hash)]
pub enum Kind {
    Eof,
    Unknown,
    WhiteSpace,
    NewLine,
    Comment,
    MultiLineComment,
    Ident,
    Return,
    Let,
    Const,
    Var,
    True,
    False,
    Null,
    Number,
    Str,
    Regex,
    NoSubstitutionTemplate,
    TemplateHead,
    TemplateMiddle,
    TemplateTail,
    LParen,
    RParen,
    LBrack,
    RBrack,
    LCurly,
    RCurly,
    Semicolon,
    Comma,
    Colon,
    Dot,
    Dot3,
    Tilde,
    At,
    Hash,
    Question,
    Question2,
    Question2Eq,
    QuestionDot,
    LAngle,
    LtEq,
    ShiftLeft,
    ShiftLeftEq,
    RAngle,
    GtEq,
    ShiftRight,
    ShiftRightEq,
    ShiftRight3,
    ShiftRight3Eq,
    Eq,
    Eq2,
    Eq3,
    Arrow,
    Bang,
    Neq,
    Neq2,
    Plus,
    Plus2,
    PlusEq,
    Minus,
    Minus2,
    MinusEq,
    Star,
    Star2,
    StarEq,
    Star2Eq,
    Slash,
    SlashEq,
    Percent,
    PercentEq,
    Amp,
    Amp2,
    AmpEq,
    Amp2Eq,
    Pipe,
    Pipe2,
    PipeEq,
    Pipe2Eq,
    Caret,
    CaretEq,
}

impl Kind {
    /// Trivia separates tokens and never reaches the parser.
    pub open spec fn spec_is_trivia(self) -> bool {
        self == Kind::WhiteSpace || self == Kind::NewLine || self == Kind::Comment
            || self == Kind::MultiLineComment
    }

    #[verifier::when_used_as_spec(spec_is_trivia)]
    pub fn is_trivia(self) -> (r: bool)
        ensures
            r == self.spec_is_trivia(),
    {
        match self {
            Kind::WhiteSpace | Kind::NewLine | Kind::Comment | Kind::MultiLineComment => true,
            _ => false,
        }
    }

    /// The four kinds a template literal is cut into.
    pub open spec fn spec_is_template(self) -> bool {
        self == Kind::NoSubstitutionTemplate || self == Kind::TemplateHead
            || self == Kind::TemplateMiddle || self == Kind::TemplateTail
    }

    #[verifier::when_used_as_spec(spec_is_template)]
    pub fn is_template(self) -> (r: bool)
        ensures
            r == self.spec_is_template(),
    {
        match self {
            Kind::NoSubstitutionTemplate | Kind::TemplateHead | Kind::TemplateMiddle
            | Kind::TemplateTail => true,
            _ => false,
        }
    }
}

/// A lexical unit: its kind, its half-open byte span in the source, and what
/// the lexer noticed while scanning it.
#[derive(Clone, Copy, Debug, PartialEq, Eq, Structural, Hash)]
pub struct Token {
    pub kind: Kind,
    pub start: u32,
    pub end: u32,
    /// A line terminator stands between the previous token and this one.
    pub is_on_new_line: bool,
    /// The token text holds a backslash escape.
    pub escaped: bool,
    /// The form was malformed and a diagnostic was recorded for it.
    pub malformed: bool,
}

impl Token {
    /// A span is in order when it lies in a text of `len` bytes and is empty
    /// only for the end-of-file token, which sits at `len`.
    pub open spec fn span_ok(self, len: int) -> bool {
        &&& self.start <= self.end <= len
        &&& (self.kind == Kind::Eof ==> self.start == len && self.end == len)
        &&& (self.kind != Kind::Eof ==> self.start < self.end)
    }

    /// The end-of-file token of a text of `len` bytes.
    pub fn eof(len: u32, is_on_new_line: bool) -> (t: Token)
        ensures
            t == (Token {
                kind: Kind::Eof,
                start: len,
                end: len,
                is_on_new_line,
                escaped: false,
                malformed: false,
            }),
            t.span_ok(len as int),
    {
        Token {
            kind: Kind::Eof,
            start: len,
            end: len,
            is_on_new_line,
            escaped: false,
            malformed: false,
        }
    }

    /// Number of bytes the token covers.
    pub fn len(&self) -> (n: u32)
        requires
            self.start <= self.end,
        ensures
            n == self.end - self.start,
    {
        self.end - self.start
    }
}

} // verus!

//! One step of the lexer: the lexical form that starts at a position, read
//! under a context hint.

use vstd::prelude::*;
use crate::chars::{
    is_digit, is_ident_start, is_line_terminator, is_whitespace, spec_is_digit,
    spec_is_ident_start, spec_is_line_terminator, spec_is_whitespace,
};
use crate::numbers::{lemma_number_literal, number_literal, scan_number};
use crate::punct::{lemma_punct_at, punct_at, punct_len, scan_punct};
use crate::regex::{
    block_comment_body, lemma_block_comment_body, lemma_regex_body, regex_body, regex_literal,
    scan_block_comment, scan_regex, SLASH, STAR,
};
use crate::runs::{lemma_run_end, run_end, scan_run, ByteClass};
use crate::strings::{
    lemma_string_body, lemma_template_body, scan_string, scan_template, string_body,
    template_body, Ending, Quoted, QuotedScan, BACKTICK,
};
use crate::token::Kind;
use crate::words::{classify_word, word_kind};

verus! {

pub const RCURLY: u8 = 0x7D;

pub const DOT: u8 = 0x2E;

pub const DOUBLE_QUOTE: u8 = 0x22;

pub const SINGLE_QUOTE: u8 = 0x27;

/// What the parser knows about the position that the lexer cannot see.
#[derive(Clone, Copy, Debug, PartialEq, Eq, Structural, Hash)]
pub enum LexContext {
    /// An operator may stand here: `/` divides and `}` closes a block.
    Normal,
    /// An expression is expected: `/` opens a regular expression.
    Regex,
    /// A template substitution ends here: `}` resumes the template.
    TemplateContinuation,
}

/// The recoverable errors of the lexical grammar.
#[derive(Clone, Copy, Debug, PartialEq, Eq, Structural, Hash)]
pub enum LexError {
    UnterminatedString,
    UnterminatedRegex,
    UnterminatedTemplate,
    UnterminatedComment,
    InvalidEscape,
    InvalidNumber,
    UnexpectedCharacter,
}

/// The lexical form found at a position.
pub struct Lexeme {
    pub kind: Kind,
    pub end: int,
    pub error: Option<LexError>,
    pub escaped: bool,
    /// The form is trivia that holds a line terminator.
    pub newline: bool,
}

/// Outcome of `scan_token`.
#[derive(Clone, Copy, Debug, PartialEq, Eq, Structural)]
pub struct Scanned {
    pub kind: Kind,
    pub end: usize,
    pub error: Option<LexError>,
    pub escaped: bool,
    pub newline: bool,
}

impl View for Scanned {
    type V = Lexeme;

    open spec fn view(&self) -> Lexeme {
        Lexeme {
            kind: self.kind,
            end: self.end as int,
            error: self.error,
            escaped: self.escaped,
            newline: self.newline,
        }
    }
}

pub open spec fn plain(kind: Kind, end: int) -> Lexeme {
    Lexeme { kind, end, error: None, escaped: false, newline: false }
}

/// The lexeme of a string whose body scanned as `q`. An unterminated string
/// is reported before a bad escape in it.
pub open spec fn string_lexeme(q: Quoted) -> Lexeme {
    Lexeme {
        kind: Kind::Str,
        end: q.end,
        error: if q.ending != Ending::Closed {
            Some(LexError::UnterminatedString)
        } else if q.bad_escape {
            Some(LexError::InvalidEscape)
        } else {
            None
        },
        escaped: q.escaped,
        newline: false,
    }
}

/// The lexeme of a template piece whose body scanned as `q`; `resumed` tells
/// a piece that follows a substitution from one that opens the template.
pub open spec fn template_lexeme(q: Quoted, resumed: bool) -> Lexeme {
    Lexeme {
        kind: if q.ending == Ending::Substitution {
            if resumed {
                Kind::TemplateMiddle
            } else {
                Kind::TemplateHead
            }
        } else if resumed {
            Kind::TemplateTail
        } else {
            Kind::NoSubstitutionTemplate
        },
        end: q.end,
        error: if q.ending == Ending::Unterminated {
            Some(LexError::UnterminatedTemplate)
        } else if q.bad_escape {
            Some(LexError::InvalidEscape)
        } else {
            None
        },
        escaped: q.escaped,
        newline: false,
    }
}

/// End of the line terminator at `pos`: CR LF counts as one.
pub open spec fn newline_end(text: Seq<u8>, pos: int) -> int {
    if text[pos] == 0x0D && pos + 1 < text.len() && text[pos + 1] == 0x0A {
        pos + 2
    } else {
        pos + 1
    }
}

/// `pos` holds a digit, or a `.` before a digit.
pub open spec fn starts_number(text: Seq<u8>, pos: int) -> bool {
    spec_is_digit(text[pos]) || (text[pos] == DOT && pos + 1 < text.len() && spec_is_digit(
        text[pos + 1],
    ))
}

/// The lexical form that starts at `pos`, for `0 <= pos < text.len()`, read
/// under `ctx`. Trivia is a form like any other. Bytes that start no form
/// make a one-byte `Unknown`.
#[verifier::opaque]
pub open spec fn lex_at(text: Seq<u8>, pos: int, ctx: LexContext) -> Lexeme {
    let b = text[pos];
    let next_is = |c: u8| pos + 1 < text.len() && text[pos + 1] == c;
    if ctx == LexContext::TemplateContinuation && b == RCURLY {
        template_lexeme(template_body(text, pos + 1), true)
    } else if spec_is_whitespace(b) {
        plain(Kind::WhiteSpace, run_end(text, pos, ByteClass::WhiteSpace))
    } else if spec_is_line_terminator(b) {
        Lexeme {
            kind: Kind::NewLine,
            end: newline_end(text, pos),
            error: None,
            escaped: false,
            newline: true,
        }
    } else if b == SLASH && next_is(SLASH) {
        plain(Kind::Comment, run_end(text, pos + 2, ByteClass::LineBody))
    } else if b == SLASH && next_is(STAR) {
        let c = block_comment_body(text, pos + 2);
        Lexeme {
            kind: Kind::MultiLineComment,
            end: c.end,
            error: if c.closed {
                None
            } else {
                Some(LexError::UnterminatedComment)
            },
            escaped: false,
            newline: c.newline,
        }
    } else if b == SLASH && ctx == LexContext::Regex {
        let r = regex_literal(text, pos);
        Lexeme {
            kind: Kind::Regex,
            end: r.end,
            error: if r.closed {
                None
            } else {
                Some(LexError::UnterminatedRegex)
            },
            escaped: false,
            newline: false,
        }
    } else if spec_is_ident_start(b) {
        let end = run_end(text, pos, ByteClass::IdentPart);
        plain(word_kind(text, pos, end), end)
    } else if starts_number(text, pos) {
        let n = number_literal(text, pos);
        Lexeme {
            kind: Kind::Number,
            end: n.end,
            error: if n.valid {
                None
            } else {
                Some(LexError::InvalidNumber)
            },
            escaped: false,
            newline: false,
        }
    } else if b == DOUBLE_QUOTE || b == SINGLE_QUOTE {
        string_lexeme(string_body(text, pos + 1, b))
    } else if b == BACKTICK {
        template_lexeme(template_body(text, pos + 1), false)
    } else {
        match punct_at(text, pos) {
            Some(k) => plain(k, pos + punct_len(text, pos)),
            None => Lexeme {
                kind: Kind::Unknown,
                end: pos + 1,
                error: Some(LexError::UnexpectedCharacter),
                escaped: false,
                newline: false,
            },
        }
    }
}

/// Every lexical form is non-empty and lies in the text; none is the
/// end-of-file token; only trivia carries the line-terminator mark.
pub proof fn lemma_lex_at(text: Seq<u8>, pos: int, ctx: LexContext)
    requires
        0 <= pos < text.len(),
    ensures
        pos < lex_at(text, pos, ctx).end <= text.len(),
        lex_at(text, pos, ctx).kind != Kind::Eof,
        lex_at(text, pos, ctx).newline ==> lex_at(text, pos, ctx).kind.spec_is_trivia(),
{
    reveal(lex_at);
    lemma_template_body(text, pos + 1);
    lemma_run_end(text, pos, ByteClass::WhiteSpace);
    lemma_run_end(text, pos, ByteClass::IdentPart);
    if pos + 2 <= text.len() {
        lemma_run_end(text, pos + 2, ByteClass::LineBody);
        lemma_block_comment_body(text, pos + 2);
    }
    lemma_regex_body(text, pos + 1, false);
    if regex_body(text, pos + 1, false).closed {
        lemma_run_end(text, regex_body(text, pos + 1, false).end, ByteClass::IdentPart);
    }
    if starts_number(text, pos) {
        lemma_number_literal(text, pos);
    }
    lemma_string_body(text, pos + 1, text[pos]);
    lemma_punct_at(text, pos);
}

fn quoted_string(q: QuotedScan) -> (r: Scanned)
    ensures
        r@ == string_lexeme(q@),
{
    let error = match q.ending {
        Ending::Closed => if q.bad_escape {
            Some(LexError::InvalidEscape)
        } else {
            None
        },
        _ => Some(LexError::UnterminatedString),
    };
    Scanned { kind: Kind::Str, end: q.end, error, escaped: q.escaped, newline: false }
}

fn quoted_template(q: QuotedScan, resumed: bool) -> (r: Scanned)
    ensures
        r@ == template_lexeme(q@, resumed),
{
    let kind = match q.ending {
        Ending::Substitution => if resumed {
            Kind::TemplateMiddle
        } else {
            Kind::TemplateHead
        },
        _ => if resumed {
            Kind::TemplateTail
        } else {
            Kind::NoSubstitutionTemplate
        },
    };
    let error = match q.ending {
        Ending::Unterminated => Some(LexError::UnterminatedTemplate),
        _ => if q.bad_escape {
            Some(LexError::InvalidEscape)
        } else {
            None
        },
    };
    Scanned { kind, end: q.end, error, escaped: q.escaped, newline: false }
}

/// Scans the lexical form that starts at `pos` under `ctx`.
pub fn scan_token(text: &[u8], pos: usize, ctx: LexContext) -> (r: Scanned)
    requires
        pos < text@.len(),
    ensures
        r@ == lex_at(text@, pos as int, ctx),
        pos < r.end <= text@.len(),
{
    proof {
        reveal(lex_at);
        lemma_lex_at(text@, pos as int, ctx);
    }
    let n: usize = text.len();
    let b = text[pos];
    let has_next = n - pos > 1;
    let plain = |kind: Kind, end: usize| -> (s: Scanned)
        ensures
            s == (Scanned { kind, end, error: None, escaped: false, newline: false }),
        { Scanned { kind, end, error: None, escaped: false, newline: false } };
    if ctx == LexContext::TemplateContinuation && b == RCURLY {
        quoted_template(scan_template(text, pos + 1), true)
    } else if is_whitespace(b) {
        plain(Kind::WhiteSpace, scan_run(text, pos, ByteClass::WhiteSpace))
    } else if is_line_terminator(b) {
        let end: usize = if b == 0x0D && has_next && text[pos + 1] == 0x0A {
            pos + 2
        } else {
            pos + 1
        };
        Scanned { kind: Kind::NewLine, end, error: None, escaped: false, newline: true }
    } else if b == SLASH && has_next && text[pos + 1] == SLASH {
        plain(Kind::Comment, scan_run(text, pos + 2, ByteClass::LineBody))
    } else if b == SLASH && has_next && text[pos + 1] == STAR {
        let c = scan_block_comment(text, pos + 2);
        Scanned {
            kind: Kind::MultiLineComment,
            end: c.end,
            error: if c.closed {
                None
            } else {
                Some(LexError::UnterminatedComment)
            },
            escaped: false,
            newline: c.newline,
        }
    } else if b == SLASH && ctx == LexContext::Regex {
        let r = scan_regex(text, pos);
        Scanned {
            kind: Kind::Regex,
            end: r.end,
            error: if r.closed {
                None
            } else {
                Some(LexError::UnterminatedRegex)
            },
            escaped: false,
            newline: false,
        }
    } else if is_ident_start(b) {
        let end = scan_run(text, pos, ByteClass::IdentPart);
        plain(classify_word(text, pos, end), end)
    } else if is_digit(b) || (b == DOT && has_next && is_digit(text[pos + 1])) {
        let num = scan_number(text, pos);
        Scanned {
            kind: Kind::Number,
            end: num.end,
            error: if num.valid {
                None
            } else {
                Some(LexError::InvalidNumber)
            },
            escaped: false,
            newline: false,
        }
    } else if b == DOUBLE_QUOTE || b == SINGLE_QUOTE {
        quoted_string(scan_string(text, pos + 1, b))
    } else if b == BACKTICK {
        quoted_template(scan_template(text, pos + 1), false)
    } else {
        match scan_punct(text, pos) {
            Some((k, len)) => plain(k, pos + len),
            None => Scanned {
                kind: Kind::Unknown,
                end: pos + 1,
                error: Some(LexError::UnexpectedCharacter),
                escaped: false,
                newline: false,
            },
        }
    }
}

} // verus!

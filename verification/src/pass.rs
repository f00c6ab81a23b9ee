//! A full lex pass: every lexical form of a text in order, trivia included,
//! with the context of each form worked out from the forms before it.

use vstd::prelude::*;
use vstd::string::StringSliceAdditionalSpecFns;
use crate::diagnostics::{all_in_bounds, Diagnostic, Problem};
use crate::lexer::{appended, diagnostic_of, token_of};
use crate::scan::{lemma_lex_at, lex_at, scan_token, LexContext, RCURLY};
use crate::token::{Kind, Token};

verus! {

/// Whether a `/` that follows a token of kind `prev` opens a regular
/// expression: it does unless `prev` ends an operand. `Eof` stands for "no
/// token yet".
pub open spec fn spec_regex_allowed_after(prev: Kind) -> bool {
    !(prev == Kind::Ident || prev == Kind::Number || prev == Kind::Str || prev == Kind::Regex
        || prev == Kind::NoSubstitutionTemplate || prev == Kind::TemplateTail || prev
        == Kind::RParen || prev == Kind::RBrack || prev == Kind::RCurly || prev == Kind::True
        || prev == Kind::False || prev == Kind::Null || prev == Kind::Plus2 || prev
        == Kind::Minus2)
}

#[verifier::when_used_as_spec(spec_regex_allowed_after)]
pub fn regex_allowed_after(prev: Kind) -> (r: bool)
    ensures
        r == spec_regex_allowed_after(prev),
{
    match prev {
        Kind::Ident | Kind::Number | Kind::Str | Kind::Regex | Kind::NoSubstitutionTemplate
        | Kind::TemplateTail | Kind::RParen | Kind::RBrack | Kind::RCurly | Kind::True
        | Kind::False | Kind::Null | Kind::Plus2 | Kind::Minus2 => false,
        _ => true,
    }
}

/// The hint under which the form at `pos` is read. `braces` holds one mark
/// for each brace that is open, innermost last; a mark is `true` for the `${`
/// of a template. A `}` that closes such a brace resumes the template.
pub open spec fn pass_context(text: Seq<u8>, pos: int, prev: Kind, braces: Seq<bool>) -> LexContext {
    if text[pos] == RCURLY && braces.len() > 0 && braces.last() {
        LexContext::TemplateContinuation
    } else if spec_regex_allowed_after(prev) {
        LexContext::Regex
    } else {
        LexContext::Normal
    }
}

/// The open braces behind a token of kind `kind`.
pub open spec fn braces_after(braces: Seq<bool>, kind: Kind) -> Seq<bool> {
    match kind {
        Kind::LCurly => braces.push(false),
        Kind::TemplateHead => braces.push(true),
        Kind::RCurly | Kind::TemplateTail => if braces.len() > 0 {
            braces.drop_last()
        } else {
            braces
        },
        _ => braces,
    }
}

/// The outcome of a lex pass.
pub struct Pass {
    pub tokens: Seq<Token>,
    pub diagnostics: Seq<Diagnostic>,
}

/// The end-of-file token of `text`.
pub open spec fn eof_token(text: Seq<u8>, is_on_new_line: bool) -> Token
    recommends
        text.len() <= u32::MAX,
{
    Token {
        kind: Kind::Eof,
        start: text.len() as u32,
        end: text.len() as u32,
        is_on_new_line,
        escaped: false,
        malformed: false,
    }
}

/// The forms of `text` from `pos` on, closed by the end-of-file token, and
/// their diagnostics. `prev` is the kind of the last token that was no
/// trivia, `seen_newline` tells whether a line terminator was passed since.
pub open spec fn lex_from(
    text: Seq<u8>,
    pos: int,
    prev: Kind,
    braces: Seq<bool>,
    seen_newline: bool,
) -> Pass
    recommends
        text.len() <= u32::MAX,
    decreases text.len() - pos,
{
    if pos < 0 || pos >= text.len() {
        Pass { tokens: seq![eof_token(text, seen_newline)], diagnostics: Seq::empty() }
    } else {
        let l = lex_at(text, pos, pass_context(text, pos, prev, braces));
        let trivia = l.kind.spec_is_trivia();
        let token = token_of(l, pos, !trivia && seen_newline);
        let here = appended(Seq::empty(), diagnostic_of(l, pos));
        if pos < l.end <= text.len() {
            let rest = lex_from(
                text,
                l.end,
                if trivia {
                    prev
                } else {
                    l.kind
                },
                if trivia {
                    braces
                } else {
                    braces_after(braces, l.kind)
                },
                trivia && (seen_newline || l.newline),
            );
            Pass { tokens: seq![token] + rest.tokens, diagnostics: here + rest.diagnostics }
        } else {
            Pass { tokens: seq![token], diagnostics: here }
        }
    }
}

/// The full lex pass over `text`.
pub open spec fn lex_pass(text: Seq<u8>) -> Pass
    recommends
        text.len() <= u32::MAX,
{
    lex_from(text, 0, Kind::Eof, Seq::empty(), false)
}

/// The spans of `tokens` tile `[from, len)`: the first starts at `from`, each
/// is non-empty and ends where the next starts, and the last is the empty
/// end-of-file token at `len`.
pub open spec fn tiles(tokens: Seq<Token>, from: int, len: int) -> bool {
    &&& tokens.len() >= 1
    &&& tokens[0].start == from
    &&& tokens.last().kind == Kind::Eof
    &&& tokens.last().start == len
    &&& tokens.last().end == len
    &&& forall|i: int, j: int|
        0 <= i && j == i + 1 && j < tokens.len() ==> (#[trigger] tokens[i]).kind != Kind::Eof
            && tokens[i].start < tokens[i].end && tokens[i].end == (#[trigger] tokens[j]).start
}

/// The diagnostics of `list` come in source order.
pub open spec fn in_source_order(list: Seq<Diagnostic>) -> bool {
    forall|i: int, j: int| 0 <= i < j < list.len() ==> list[i].start <= list[j].start
}

/// The forms found from `pos` on tile the rest of the text, and their
/// diagnostics lie in it, at or after `pos`, in source order.
pub proof fn lemma_lex_from(text: Seq<u8>, pos: int, prev: Kind, braces: Seq<bool>, seen: bool)
    requires
        0 <= pos <= text.len(),
        text.len() <= u32::MAX,
    ensures
        tiles(lex_from(text, pos, prev, braces, seen).tokens, pos, text.len() as int),
        all_in_bounds(lex_from(text, pos, prev, braces, seen).diagnostics, text.len() as int),
        in_source_order(lex_from(text, pos, prev, braces, seen).diagnostics),
        forall|i: int|
            0 <= i < lex_from(text, pos, prev, braces, seen).diagnostics.len() ==> pos <= (
            #[trigger] lex_from(text, pos, prev, braces, seen).diagnostics[i]).start,
    decreases text.len() - pos,
{
    if pos < text.len() {
        let ctx = pass_context(text, pos, prev, braces);
        let l = lex_at(text, pos, ctx);
        lemma_lex_at(text, pos, ctx);
        let trivia = l.kind.spec_is_trivia();
        let prev2 = if trivia {
            prev
        } else {
            l.kind
        };
        let braces2 = if trivia {
            braces
        } else {
            braces_after(braces, l.kind)
        };
        let seen2 = trivia && (seen || l.newline);
        lemma_lex_from(text, l.end, prev2, braces2, seen2);
        let rest = lex_from(text, l.end, prev2, braces2, seen2);
        let all = lex_from(text, pos, prev, braces, seen);
        assert forall|i: int, j: int| 0 <= i && j == i + 1 && j < all.tokens.len() implies (
        #[trigger] all.tokens[i]).kind != Kind::Eof && all.tokens[i].start < all.tokens[i].end
            && all.tokens[i].end == (#[trigger] all.tokens[j]).start by {
            assert(all.tokens[j] == rest.tokens[j - 1]);
            if i > 0 {
                assert(all.tokens[i] == rest.tokens[i - 1]);
            }
        }
        let here = appended(Seq::empty(), diagnostic_of(l, pos));
        assert forall|i: int| 0 <= i < all.diagnostics.len() implies (
        #[trigger] all.diagnostics[i]).in_bounds(text.len() as int) && pos
            <= all.diagnostics[i].start by {
            if i >= here.len() {
                assert(all.diagnostics[i] == rest.diagnostics[i - here.len()]);
            }
        }
        assert forall|i: int, j: int| 0 <= i < j < all.diagnostics.len() implies all.diagnostics[i].start
            <= all.diagnostics[j].start by {
            assert(all.diagnostics[j] == rest.diagnostics[j - here.len()]);
            if i >= here.len() {
                assert(all.diagnostics[i] == rest.diagnostics[i - here.len()]);
            }
        }
    }
}

/// What `tokenize` returns.
pub struct LexPass {
    pub tokens: Vec<Token>,
    pub diagnostics: Vec<Diagnostic>,
}

impl View for LexPass {
    type V = Pass;

    open spec fn view(&self) -> Pass {
        Pass { tokens: self.tokens@, diagnostics: self.diagnostics@ }
    }
}

/// Runs the full lex pass over `source`. The tokens returned are those of
/// `lex_pass`; their spans tile the text without gap or overlap, and the
/// diagnostics lie in the text, in source order.
pub fn tokenize(source: &str) -> (pass: LexPass)
    requires
        source.spec_bytes().len() <= u32::MAX,
    ensures
        pass@ == lex_pass(source.spec_bytes()),
        tiles(pass.tokens@, 0, source.spec_bytes().len() as int),
        all_in_bounds(pass.diagnostics@, source.spec_bytes().len() as int),
        in_source_order(pass.diagnostics@),
{
    let text = source.as_bytes();
    let n: usize = text.len();
    let mut tokens: Vec<Token> = Vec::new();
    let mut diagnostics: Vec<Diagnostic> = Vec::new();
    let mut braces: Vec<bool> = Vec::new();
    let mut prev = Kind::Eof;
    let mut seen = false;
    let mut pos: usize = 0;
    proof {
        lemma_lex_from(text@, 0, Kind::Eof, Seq::empty(), false);
    }
    while pos < n
        invariant
            pos <= n,
            n == text@.len(),
            n <= u32::MAX,
            lex_pass(text@).tokens == tokens@ + lex_from(text@, pos as int, prev, braces@, seen).tokens,
            lex_pass(text@).diagnostics == diagnostics@ + lex_from(
                text@,
                pos as int,
                prev,
                braces@,
                seen,
            ).diagnostics,
        decreases n - pos,
    {
        let ctx = if text[pos] == RCURLY && braces.len() > 0 && braces[braces.len() - 1] {
            LexContext::TemplateContinuation
        } else if regex_allowed_after(prev) {
            LexContext::Regex
        } else {
            LexContext::Normal
        };
        proof {
            lemma_lex_at(text@, pos as int, ctx);
        }
        let ghost before = lex_from(text@, pos as int, prev, braces@, seen);
        let ghost tokens0 = tokens@;
        let ghost diagnostics0 = diagnostics@;
        let s = scan_token(text, pos, ctx);
        let trivia = s.kind.is_trivia();
        let token = Token {
            kind: s.kind,
            start: pos as u32,
            end: s.end as u32,
            is_on_new_line: !trivia && seen,
            escaped: s.escaped,
            malformed: s.error.is_some(),
        };
        tokens.push(token);
        if let Some(e) = s.error {
            diagnostics.push(Diagnostic::error(Problem::Lexical(e), pos as u32, s.end as u32));
        }
        if trivia {
            seen = seen || s.newline;
        } else {
            seen = false;
            prev = s.kind;
            match s.kind {
                Kind::LCurly => {
                    braces.push(false);
                },
                Kind::TemplateHead => {
                    braces.push(true);
                },
                Kind::RCurly | Kind::TemplateTail => {
                    if braces.len() > 0 {
                        braces.pop();
                    }
                },
                _ => {},
            }
        }
        pos = s.end;
        proof {
            let rest = lex_from(text@, pos as int, prev, braces@, seen);
            let here = appended(Seq::empty(), diagnostic_of(s@, token.start as int));
            assert(before.tokens == seq![token] + rest.tokens);
            assert(before.diagnostics == here + rest.diagnostics);
            assert(tokens@ + rest.tokens =~= tokens0 + (seq![token] + rest.tokens));
            assert(diagnostics@ + rest.diagnostics =~= diagnostics0 + (here + rest.diagnostics));
        }
    }
    tokens.push(Token::eof(n as u32, seen));
    proof {
        assert(tokens@ =~= lex_pass(text@).tokens);
        assert(diagnostics@ =~= lex_pass(text@).diagnostics);
    }
    LexPass { tokens, diagnostics }
}

} // verus!

//! The lexer: tokens on demand, a lookahead buffer, and the re-lex protocol.

use vstd::prelude::*;
use vstd::string::StringSliceAdditionalSpecFns;
use vstd::utf8::{is_char_boundary, valid_utf8};
use crate::cursor::{ascii_adjacent, lemma_ascii_adjacent_is_boundary, Cursor};
use crate::diagnostics::{all_in_bounds, Diagnostic, Problem};
use crate::numbers::lemma_number_literal;
use crate::punct::{lemma_punct_at, punct_of, spec_punct_width};
use crate::regex::{lemma_block_comment_body, lemma_regex_body, regex_body};
use crate::runs::{lemma_run_end, ByteClass};
use crate::scan::{lemma_lex_at, lex_at, scan_token, starts_number, LexContext, Lexeme};
use crate::strings::{lemma_string_body, lemma_template_body};
use crate::token::{Kind, Token};

verus! {

/// The end of every lexical form touches an ASCII byte or the end of the
/// text, so in well-formed text it is a code-point boundary.
pub proof fn lemma_lex_at_boundary(text: Seq<u8>, pos: int, ctx: LexContext)
    requires
        0 <= pos < text.len(),
    ensures
        ascii_adjacent(text, lex_at(text, pos, ctx).end),
{
    reveal(lex_at);
    lemma_lex_at(text, pos, ctx);
    lemma_template_body(text, pos + 1);
    lemma_run_end(text, pos, ByteClass::WhiteSpace);
    lemma_run_end(text, pos, ByteClass::IdentPart);
    if pos + 2 <= text.len() {
        lemma_run_end(text, pos + 2, ByteClass::LineBody);
        lemma_block_comment_body(text, pos + 2);
    }
    lemma_regex_body(text, pos + 1, false);
    if regex_body(text, pos + 1, false).closed {
        lemma_run_end(text, regex_body(text, pos + 1, false).end, ByteClass::IdentPart);
    }
    if starts_number(text, pos) {
        lemma_number_literal(text, pos);
        let core = crate::numbers::number_core(text, pos);
        lemma_run_end(text, core.end, ByteClass::IdentPart);
    }
    lemma_string_body(text, pos + 1, text[pos]);
    lemma_punct_at(text, pos);
}

/// The token that a lexeme found at `start` makes.
pub open spec fn token_of(l: Lexeme, start: int, is_on_new_line: bool) -> Token
    recommends
        0 <= start <= l.end <= u32::MAX,
{
    Token {
        kind: l.kind,
        start: start as u32,
        end: l.end as u32,
        is_on_new_line,
        escaped: l.escaped,
        malformed: l.error is Some,
    }
}

/// The diagnostic that a lexeme found at `start` calls for, if any.
pub open spec fn diagnostic_of(l: Lexeme, start: int) -> Option<Diagnostic>
    recommends
        0 <= start <= l.end <= u32::MAX,
{
    match l.error {
        Some(e) => Some(Diagnostic::spec_error(Problem::Lexical(e), start as u32, l.end as u32)),
        None => None,
    }
}

/// The next token that is not trivia, and what was met on the way to it.
pub struct Found {
    pub token: Token,
    /// The first diagnostic raised by the trivia or by the token.
    pub diagnostic: Option<Diagnostic>,
}

/// The first significant token at or after `pos`. Trivia before it is
/// skipped; the token is marked when a line terminator was skipped. At the
/// end of the text this is the end-of-file token. The hint `ctx` bears on the
/// token alone: trivia reads the same under every hint.
pub open spec fn next_significant(
    text: Seq<u8>,
    pos: int,
    ctx: LexContext,
    seen_newline: bool,
) -> Found
    recommends
        text.len() <= u32::MAX,
    decreases text.len() - pos,
{
    if pos < 0 || pos >= text.len() {
        Found {
            token: Token {
                kind: Kind::Eof,
                start: text.len() as u32,
                end: text.len() as u32,
                is_on_new_line: seen_newline,
                escaped: false,
                malformed: false,
            },
            diagnostic: None,
        }
    } else {
        let l = lex_at(text, pos, ctx);
        if l.kind.spec_is_trivia() && pos < l.end <= text.len() {
            let rest = next_significant(text, l.end, ctx, seen_newline || l.newline);
            Found {
                token: rest.token,
                diagnostic: if l.error is Some {
                    diagnostic_of(l, pos)
                } else {
                    rest.diagnostic
                },
            }
        } else {
            Found { token: token_of(l, pos, seen_newline), diagnostic: diagnostic_of(l, pos) }
        }
    }
}

/// The token found by `next_significant` lies at or after `pos`, is in order,
/// is no trivia, and ends on a code-point boundary; its diagnostic lies in
/// the text.
pub proof fn lemma_next_significant(text: Seq<u8>, pos: int, ctx: LexContext, seen: bool)
    requires
        0 <= pos <= text.len(),
        text.len() <= u32::MAX,
    ensures
        ({
            let f = next_significant(text, pos, ctx, seen);
            &&& pos <= f.token.start
            &&& f.token.span_ok(text.len() as int)
            &&& !f.token.kind.spec_is_trivia()
            &&& ascii_adjacent(text, f.token.end as int)
            &&& (f.token.kind != Kind::Eof ==> ascii_adjacent(text, f.token.start as int) || f.token.start == pos)
            &&& (f.diagnostic matches Some(d) ==> pos <= d.start < d.end <= text.len() && d.start
                <= f.token.start)
            &&& (f.token.malformed ==> f.diagnostic is Some)
        }),
    decreases text.len() - pos,
{
    if pos < text.len() {
        let l = lex_at(text, pos, ctx);
        lemma_lex_at(text, pos, ctx);
        lemma_lex_at_boundary(text, pos, ctx);
        if l.kind.spec_is_trivia() {
            lemma_next_significant(text, l.end, ctx, seen || l.newline);
        }
    }
}

/// Whether `tok` is a token of `text`: the end-of-file token, a form that
/// the scanner finds at its start under some hint, or a single angle bracket
/// split off a longer operator.
pub open spec fn token_fits(text: Seq<u8>, tok: Token) -> bool {
    let fits = |ctx: LexContext|
        {
            let l = lex_at(text, tok.start as int, ctx);
            tok.start < text.len() && l.kind == tok.kind && l.end == tok.end
                && !l.kind.spec_is_trivia()
        };
    ||| tok.kind == Kind::Eof && tok.start == text.len() && tok.end == text.len()
    ||| fits(LexContext::Normal)
    ||| fits(LexContext::Regex)
    ||| fits(LexContext::TemplateContinuation)
    ||| (tok.kind == Kind::LAngle || tok.kind == Kind::RAngle) && tok.end == tok.start + 1
        && punct_of(text, tok.start as int, 1) == Some(tok.kind)
}

/// A token scanned ahead of the parser, with the cursor position behind it
/// and the diagnostic that becomes due when the parser reaches it.
#[derive(Clone, Copy, Debug, PartialEq, Eq, Structural)]
pub struct Lookahead {
    pub token: Token,
    pub position: u32,
    pub diagnostic: Option<Diagnostic>,
}

/// `more` is `base` with the diagnostic `d` appended, if there is one.
pub open spec fn appended(base: Seq<Diagnostic>, d: Option<Diagnostic>) -> Seq<Diagnostic> {
    match d {
        Some(d) => base.push(d),
        None => base,
    }
}

/// The lexer of one source text.
pub struct Lexer<'a> {
    cursor: Cursor<'a>,
    current: Token,
    lookahead: Vec<Lookahead>,
    diagnostics: Vec<Diagnostic>,
}

impl<'a> Lexer<'a> {
    /// The bytes of the source text.
    pub closed spec fn text(&self) -> Seq<u8> {
        self.cursor.text()
    }

    /// The byte offset of the cursor.
    pub closed spec fn position(&self) -> int {
        self.cursor.offset()
    }

    /// The token the parser is looking at.
    pub closed spec fn current(&self) -> Token {
        self.current
    }

    /// The tokens scanned ahead, nearest first.
    pub closed spec fn buffered(&self) -> Seq<Lookahead> {
        self.lookahead@
    }

    /// The diagnostics recorded so far, in the order they were raised.
    pub closed spec fn recorded(&self) -> Seq<Diagnostic> {
        self.diagnostics@
    }

    /// Where the scan for the `i`-th buffered token started: behind the
    /// token before it.
    pub open spec fn scan_start(&self, i: int) -> int {
        if i == 0 {
            self.current().end as int
        } else {
            self.buffered()[i - 1].token.end as int
        }
    }

    /// The `i`-th buffered token is what an ordinary scan finds behind the
    /// token before it.
    pub open spec fn buffered_ok(&self, i: int) -> bool {
        let f = next_significant(self.text(), self.scan_start(i), LexContext::Normal, false);
        let l = self.buffered()[i];
        l.token == f.token && l.diagnostic == f.diagnostic && l.position == l.token.end
    }

    /// The state is in order: the text is well-formed and short enough for
    /// 32-bit offsets, the current token is one of the text, the buffer
    /// continues it without a gap in scanning, and the cursor rests behind
    /// the last token scanned.
    pub open spec fn wf(&self) -> bool {
        &&& valid_utf8(self.text())
        &&& self.text().len() <= u32::MAX
        &&& self.current().span_ok(self.text().len() as int)
        &&& token_fits(self.text(), self.current())
        &&& forall|i: int| 0 <= i < self.buffered().len() ==> self.buffered_ok(i)
        &&& self.position() == self.scan_start(self.buffered().len() as int)
        &&& is_char_boundary(self.text(), self.position())
        &&& all_in_bounds(self.recorded(), self.text().len() as int)
    }
}

/// The kinds of hint that `Lexer::re_lex` takes.
#[derive(Clone, Copy, Debug, PartialEq, Eq, Structural, Hash)]
pub enum DisambiguationHint {
    /// The current `<<`, `<=` or `<<=` starts with the `<` of a type
    /// argument list.
    TypeScriptLAngle,
    /// The current `>>`, `>>>`, `>=`, `>>=` or `>>>=` starts with the `>`
    /// that closes a type argument list.
    TypeScriptRAngle,
    /// The current `/` or `/=` opens a regular expression.
    Regex,
    /// The current `}` ends a template substitution.
    TemplateContinuation,
}

impl DisambiguationHint {
    /// Whether the hint can be applied to a current token of kind `kind`.
    pub open spec fn spec_applies_to(self, kind: Kind) -> bool {
        match self {
            DisambiguationHint::TypeScriptLAngle => kind == Kind::ShiftLeft || kind == Kind::LtEq
                || kind == Kind::ShiftLeftEq,
            DisambiguationHint::TypeScriptRAngle => kind == Kind::ShiftRight || kind
                == Kind::ShiftRight3 || kind == Kind::GtEq || kind == Kind::ShiftRightEq || kind
                == Kind::ShiftRight3Eq,
            DisambiguationHint::Regex => kind == Kind::Slash || kind == Kind::SlashEq,
            DisambiguationHint::TemplateContinuation => kind == Kind::RCurly,
        }
    }

    #[verifier::when_used_as_spec(spec_applies_to)]
    pub fn applies_to(self, kind: Kind) -> (r: bool)
        ensures
            r == self.spec_applies_to(kind),
    {
        match self {
            DisambiguationHint::TypeScriptLAngle => match kind {
                Kind::ShiftLeft | Kind::LtEq | Kind::ShiftLeftEq => true,
                _ => false,
            },
            DisambiguationHint::TypeScriptRAngle => match kind {
                Kind::ShiftRight | Kind::ShiftRight3 | Kind::GtEq | Kind::ShiftRightEq
                | Kind::ShiftRight3Eq => true,
                _ => false,
            },
            DisambiguationHint::Regex => match kind {
                Kind::Slash | Kind::SlashEq => true,
                _ => false,
            },
            DisambiguationHint::TemplateContinuation => match kind {
                Kind::RCurly => true,
                _ => false,
            },
        }
    }
}

/// The token that re-lexing `current` under `hint` yields, with its
/// diagnostic. Splitting an operator keeps its first byte as a single angle
/// bracket; the other hints scan again from the start of the token. The mark
/// of a preceding line terminator stays.
pub open spec fn relexed(text: Seq<u8>, current: Token, hint: DisambiguationHint) -> Found
    recommends
        text.len() <= u32::MAX,
        current.start < text.len(),
{
    let single = |kind: Kind|
        Found {
            token: Token {
                kind,
                start: current.start,
                end: (current.start + 1) as u32,
                is_on_new_line: current.is_on_new_line,
                escaped: false,
                malformed: false,
            },
            diagnostic: None,
        };
    let again = |ctx: LexContext|
        {
            let l = lex_at(text, current.start as int, ctx);
            Found {
                token: token_of(l, current.start as int, current.is_on_new_line),
                diagnostic: diagnostic_of(l, current.start as int),
            }
        };
    match hint {
        DisambiguationHint::TypeScriptLAngle => single(Kind::LAngle),
        DisambiguationHint::TypeScriptRAngle => single(Kind::RAngle),
        DisambiguationHint::Regex => again(LexContext::Regex),
        DisambiguationHint::TemplateContinuation => again(LexContext::TemplateContinuation),
    }
}

/// A re-lexed token starts where the token it replaces started, is a token
/// of the text, and ends on a code-point boundary.
pub proof fn lemma_relexed(text: Seq<u8>, current: Token, hint: DisambiguationHint)
    requires
        text.len() <= u32::MAX,
        current.span_ok(text.len() as int),
        token_fits(text, current),
        hint.spec_applies_to(current.kind),
    ensures
        ({
            let f = relexed(text, current, hint);
            &&& f.token.start == current.start
            &&& f.token.span_ok(text.len() as int)
            &&& token_fits(text, f.token)
            &&& ascii_adjacent(text, f.token.end as int)
            &&& (f.diagnostic matches Some(d) ==> d.in_bounds(text.len() as int) && d.start
                == current.start)
            &&& (hint == DisambiguationHint::TypeScriptLAngle || hint
                == DisambiguationHint::TypeScriptRAngle ==> f.token.end < current.end)
        }),
{
    reveal(lex_at);
    let start = current.start as int;
    lemma_lex_at(text, start, LexContext::Normal);
    lemma_lex_at(text, start, LexContext::Regex);
    lemma_lex_at(text, start, LexContext::TemplateContinuation);
    lemma_lex_at_boundary(text, start, LexContext::Regex);
    lemma_lex_at_boundary(text, start, LexContext::TemplateContinuation);
    lemma_punct_at(text, start);
}

/// Scans from `pos` to the first significant token.
fn find_significant(text: &[u8], pos: usize, ctx: LexContext) -> (r: (Token, Option<Diagnostic>))
    requires
        pos <= text@.len(),
        text@.len() <= u32::MAX,
    ensures
        r.0 == next_significant(text@, pos as int, ctx, false).token,
        r.1 == next_significant(text@, pos as int, ctx, false).diagnostic,
{
    let n: usize = text.len();
    let mut at: usize = pos;
    let mut seen = false;
    let mut first: Option<Diagnostic> = None;
    loop
        invariant
            pos <= at <= n,
            n == text@.len(),
            n <= u32::MAX,
            next_significant(text@, pos as int, ctx, false).token == next_significant(
                text@,
                at as int,
                ctx,
                seen,
            ).token,
            next_significant(text@, pos as int, ctx, false).diagnostic == (if first is Some {
                first
            } else {
                next_significant(text@, at as int, ctx, seen).diagnostic
            }),
        decreases n - at,
    {
        if at >= n {
            return (Token::eof(n as u32, seen), first);
        }
        proof {
            lemma_lex_at(text@, at as int, ctx);
        }
        let s = scan_token(text, at, ctx);
        let diagnostic = match s.error {
            Some(e) => Some(Diagnostic::error(Problem::Lexical(e), at as u32, s.end as u32)),
            None => None,
        };
        if s.kind.is_trivia() {
            if first.is_none() {
                first = diagnostic;
            }
            seen = seen || s.newline;
            at = s.end;
        } else {
            let token = Token {
                kind: s.kind,
                start: at as u32,
                end: s.end as u32,
                is_on_new_line: seen,
                escaped: s.escaped,
                malformed: s.error.is_some(),
            };
            return (token, if first.is_some() {
                first
            } else {
                diagnostic
            });
        }
    }
}

impl<'a> Lexer<'a> {
    /// A lexer over `source` whose current token is the first token of the
    /// text.
    pub fn new(source: &'a str) -> (lexer: Lexer<'a>)
        requires
            source.spec_bytes().len() <= u32::MAX,
        ensures
            lexer.wf(),
            lexer.text() == source.spec_bytes(),
            lexer.current() == next_significant(lexer.text(), 0, LexContext::Normal, false).token,
            lexer.position() == lexer.current().end,
            lexer.buffered().len() == 0,
            lexer.recorded() == appended(
                Seq::empty(),
                next_significant(lexer.text(), 0, LexContext::Normal, false).diagnostic,
            ),
    {
        let mut cursor = Cursor::new(source);
        let (token, diagnostic) = find_significant(cursor.bytes(), 0, LexContext::Normal);
        proof {
            lemma_next_significant(cursor.text(), 0, LexContext::Normal, false);
            lemma_ascii_adjacent_is_boundary(cursor.text(), token.end as int);
            if token.kind != Kind::Eof {
                lemma_found_fits(cursor.text(), 0, LexContext::Normal, false);
            }
        }
        cursor.seek(token.end as usize);
        let mut diagnostics: Vec<Diagnostic> = Vec::new();
        if let Some(d) = diagnostic {
            diagnostics.push(d);
        }
        Lexer { cursor, current: token, lookahead: Vec::new(), diagnostics }
    }

    /// The token the parser is looking at.
    pub fn current_token(&self) -> (t: Token)
        ensures
            t == self.current(),
    {
        self.current
    }

    /// The byte offset of the cursor.
    pub fn offset(&self) -> (p: u32)
        requires
            self.wf(),
        ensures
            p == self.position(),
    {
        self.cursor.position() as u32
    }

    /// The bytes of the source text.
    pub fn source(&self) -> (b: &'a [u8])
        ensures
            b@ == self.text(),
    {
        self.cursor.bytes()
    }

    /// The diagnostics recorded so far, in the order they were raised.
    pub fn diagnostics(&self) -> (d: &Vec<Diagnostic>)
        ensures
            d@ == self.recorded(),
    {
        &self.diagnostics
    }

    /// Number of tokens scanned ahead.
    pub fn buffered_len(&self) -> (n: usize)
        ensures
            n == self.buffered().len(),
    {
        self.lookahead.len()
    }
}

/// A significant token found by scanning is a token of the text.
pub proof fn lemma_found_fits(text: Seq<u8>, pos: int, ctx: LexContext, seen: bool)
    requires
        0 <= pos <= text.len(),
        text.len() <= u32::MAX,
    ensures
        token_fits(text, next_significant(text, pos, ctx, seen).token),
    decreases text.len() - pos,
{
    if pos < text.len() {
        let l = lex_at(text, pos, ctx);
        lemma_lex_at(text, pos, ctx);
        if l.kind.spec_is_trivia() {
            lemma_found_fits(text, l.end, ctx, seen || l.newline);
        }
    }
}

impl<'a> Lexer<'a> {
    /// Moves to the next token and returns it. A token scanned ahead is
    /// handed out first; otherwise the text is scanned from the cursor on,
    /// trivia is skipped, and the cursor comes to rest behind the token. The
    /// token's diagnostic, if it has one, is recorded.
    pub fn next_token(&mut self) -> (t: Token)
        requires
            old(self).wf(),
        ensures
            final(self).wf(),
            final(self).text() == old(self).text(),
            t == final(self).current(),
            t == old(self).upcoming(),
            old(self).buffered().len() > 0 ==> {
                &&& t == old(self).buffered()[0].token
                &&& final(self).buffered() == old(self).buffered().drop_first()
                &&& final(self).position() == old(self).position()
                &&& final(self).recorded() == appended(
                    old(self).recorded(),
                    old(self).buffered()[0].diagnostic,
                )
            },
            old(self).buffered().len() == 0 ==> {
                let f = next_significant(
                    old(self).text(),
                    old(self).position(),
                    LexContext::Normal,
                    false,
                );
                &&& t == f.token
                &&& final(self).buffered().len() == 0
                &&& final(self).position() == t.end
                &&& final(self).recorded() == appended(old(self).recorded(), f.diagnostic)
            },
            old(self).current().end <= t.start,
    {
        let ghost before = *self;
        proof {
            lemma_next_significant(
                self.text(),
                self.scan_start(0),
                LexContext::Normal,
                false,
            );
            lemma_found_fits(self.text(), self.scan_start(0), LexContext::Normal, false);
        }
        if self.lookahead.len() > 0 {
            assert(before.buffered_ok(0));
            let first = self.lookahead.remove(0);
            self.current = first.token;
            if let Some(d) = first.diagnostic {
                self.diagnostics.push(d);
            }
            proof {
                assert forall|i: int| 0 <= i < self.buffered().len() implies self.buffered_ok(
                    i,
                ) by {
                    assert(before.buffered_ok(i + 1));
                }
            }
            first.token
        } else {
            let (token, diagnostic) = find_significant(
                self.cursor.bytes(),
                self.cursor.position(),
                LexContext::Normal,
            );
            proof {
                lemma_ascii_adjacent_is_boundary(self.text(), token.end as int);
            }
            self.cursor.seek(token.end as usize);
            self.current = token;
            if let Some(d) = diagnostic {
                self.diagnostics.push(d);
            }
            token
        }
    }

    /// Looks `n` tokens ahead of the current one without moving to them:
    /// the buffer is filled up to `n` tokens by ordinary scans and its
    /// `n`-th token is returned. Behind the end of the text every token is
    /// the end-of-file token.
    pub fn lookahead(&mut self, n: u8) -> (t: Token)
        requires
            old(self).wf(),
            n >= 1,
        ensures
            final(self).wf(),
            final(self).text() == old(self).text(),
            final(self).current() == old(self).current(),
            final(self).recorded() == old(self).recorded(),
            final(self).buffered().len() == if old(self).buffered().len() >= n {
                old(self).buffered().len()
            } else {
                n as nat
            },
            final(self).buffered().subrange(0, old(self).buffered().len() as int) == old(
                self,
            ).buffered(),
            t == final(self).buffered()[n - 1].token,
    {
        let ghost before = *self;
        while self.lookahead.len() < n as usize
            invariant
                self.wf(),
                self.text() == before.text(),
                self.current() == before.current(),
                self.recorded() == before.recorded(),
                before.buffered().len() <= self.buffered().len(),
                self.buffered().len() <= n || self.buffered().len() == before.buffered().len(),
                self.buffered().subrange(0, before.buffered().len() as int)
                    == before.buffered(),
            decreases n - self.lookahead.len(),
        {
            let ghost prev = *self;
            let (token, diagnostic) = find_significant(
                self.cursor.bytes(),
                self.cursor.position(),
                LexContext::Normal,
            );
            proof {
                lemma_next_significant(
                    self.text(),
                    self.position(),
                    LexContext::Normal,
                    false,
                );
                lemma_ascii_adjacent_is_boundary(self.text(), token.end as int);
            }
            self.cursor.seek(token.end as usize);
            self.lookahead.push(Lookahead { token, position: token.end, diagnostic });
            proof {
                let k = prev.buffered().len() as int;
                assert(self.buffered() == prev.buffered().push(self.buffered()[k]));
                assert forall|i: int| 0 <= i < self.buffered().len() implies self.buffered_ok(
                    i,
                ) by {
                    if i < k {
                        assert(prev.buffered_ok(i));
                    }
                }
                assert(self.buffered().subrange(0, before.buffered().len() as int)
                    =~= prev.buffered().subrange(0, before.buffered().len() as int));
            }
        }
        self.lookahead[n as usize - 1].token
    }

    /// What `re_lex` does: `after` is the lexer behind the call and `r` what
    /// the call returns.
    pub open spec fn re_lexes_to(&self, hint: DisambiguationHint, after: &Lexer<'a>, r: Option<Token>) -> bool {
        &&& after.wf()
        &&& after.text() == self.text()
        &&& !hint.spec_applies_to(self.current().kind) ==> r is None && *after == *self
        &&& hint.spec_applies_to(self.current().kind) ==> {
            let f = relexed(self.text(), self.current(), hint);
            &&& r == Some(f.token)
            &&& after.current() == f.token
            &&& after.position() == f.token.end
            &&& after.buffered().len() == 0
            &&& after.recorded() == appended(self.recorded(), f.diagnostic)
        }
    }

    /// The token that the next call of `next_token` hands out.
    pub open spec fn upcoming(&self) -> Token {
        if self.buffered().len() > 0 {
            self.buffered()[0].token
        } else {
            next_significant(self.text(), self.position(), LexContext::Normal, false).token
        }
    }

    /// Re-lexing is a function of the text, the state of the lexer and the
    /// hint: from two lexers in the same state the same hint yields the same
    /// token, the same diagnostics and the same state, so that the same
    /// tokens follow.
    pub proof fn lemma_re_lex_deterministic(
        a: Lexer<'a>,
        b: Lexer<'a>,
        hint: DisambiguationHint,
        a_after: Lexer<'a>,
        b_after: Lexer<'a>,
        a_token: Option<Token>,
        b_token: Option<Token>,
    )
        requires
            a.wf(),
            b.wf(),
            a.text() == b.text(),
            a.current() == b.current(),
            a.position() == b.position(),
            a.buffered() == b.buffered(),
            a.recorded() == b.recorded(),
            a.re_lexes_to(hint, &a_after, a_token),
            b.re_lexes_to(hint, &b_after, b_token),
        ensures
            a_token == b_token,
            a_after.current() == b_after.current(),
            a_after.position() == b_after.position(),
            a_after.buffered() == b_after.buffered(),
            a_after.recorded() == b_after.recorded(),
            a_after.upcoming() == b_after.upcoming(),
    {
        if hint.spec_applies_to(a.current().kind) {
            assert(a_after.buffered() =~= b_after.buffered());
        }
    }

    /// Re-lexes the current token under `hint`. Where the hint applies to
    /// the token, the tokens scanned ahead are dropped as stale, the token is
    /// replaced by what `relexed` describes, the cursor is set behind the new
    /// token, its diagnostic is recorded, and the new token is returned.
    /// Where the hint does not apply, nothing changes and `None` comes back.
    pub fn re_lex(&mut self, hint: DisambiguationHint) -> (r: Option<Token>)
        requires
            old(self).wf(),
        ensures
            old(self).re_lexes_to(hint, final(self), r),
    {
        let current = self.current;
        if !hint.applies_to(current.kind) {
            return None;
        }
        proof {
            lemma_relexed(self.text(), current, hint);
            lemma_ascii_adjacent_is_boundary(
                self.text(),
                relexed(self.text(), current, hint).token.end as int,
            );
        }
        let text = self.cursor.bytes();
        let start: usize = current.start as usize;
        let (token, diagnostic) = match hint {
            DisambiguationHint::TypeScriptLAngle => (Self::single(current, Kind::LAngle), None),
            DisambiguationHint::TypeScriptRAngle => (Self::single(current, Kind::RAngle), None),
            DisambiguationHint::Regex => Self::again(text, current, LexContext::Regex),
            DisambiguationHint::TemplateContinuation => Self::again(
                text,
                current,
                LexContext::TemplateContinuation,
            ),
        };
        self.cursor.seek(token.end as usize);
        self.lookahead.clear();
        self.current = token;
        if let Some(d) = diagnostic {
            self.diagnostics.push(d);
        }
        Some(token)
    }

    fn single(current: Token, kind: Kind) -> (t: Token)
        requires
            current.start < current.end,
        ensures
            t == (Token {
                kind,
                start: current.start,
                end: (current.start + 1) as u32,
                is_on_new_line: current.is_on_new_line,
                escaped: false,
                malformed: false,
            }),
    {
        Token {
            kind,
            start: current.start,
            end: current.start + 1,
            is_on_new_line: current.is_on_new_line,
            escaped: false,
            malformed: false,
        }
    }

    fn again(text: &[u8], current: Token, ctx: LexContext) -> (r: (Token, Option<Diagnostic>))
        requires
            current.start < text@.len(),
            text@.len() <= u32::MAX,
        ensures
            r.0 == token_of(
                lex_at(text@, current.start as int, ctx),
                current.start as int,
                current.is_on_new_line,
            ),
            r.1 == diagnostic_of(lex_at(text@, current.start as int, ctx), current.start as int),
    {
        let s = scan_token(text, current.start as usize, ctx);
        let token = Token {
            kind: s.kind,
            start: current.start,
            end: s.end as u32,
            is_on_new_line: current.is_on_new_line,
            escaped: s.escaped,
            malformed: s.error.is_some(),
        };
        let diagnostic = match s.error {
            Some(e) => Some(Diagnostic::error(Problem::Lexical(e), current.start, s.end as u32)),
            None => None,
        };
        (token, diagnostic)
    }

    /// Re-tokenizes the current `<<`, `<=` or `<<=`, whose kind is `kind`,
    /// as the single `<` it starts with. The tokens scanned ahead are
    /// dropped, and the cursor is set behind the `<`, so that the rest of the
    /// operator is scanned by the next call of `next_token`.
    pub fn re_lex_as_typescript_l_angle(&mut self, kind: Kind) -> (t: Token)
        requires
            old(self).wf(),
            kind == old(self).current().kind,
            kind == Kind::ShiftLeft || kind == Kind::LtEq || kind == Kind::ShiftLeftEq,
        ensures
            final(self).wf(),
            final(self).text() == old(self).text(),
            t == (Token {
                kind: Kind::LAngle,
                start: old(self).current().start,
                end: (old(self).current().start + 1) as u32,
                is_on_new_line: old(self).current().is_on_new_line,
                escaped: false,
                malformed: false,
            }),
            final(self).current() == t,
            final(self).position() == t.end,
            t.end == old(self).current().end - spec_punct_width(kind) + 1,
            final(self).buffered().len() == 0,
            final(self).recorded() == old(self).recorded(),
    {
        proof {
            reveal(lex_at);
            lemma_relexed(self.text(), self.current, DisambiguationHint::TypeScriptLAngle);
            lemma_ascii_adjacent_is_boundary(self.text(), self.current.start + 1);
            lemma_lex_at(self.text(), self.current.start as int, LexContext::Normal);
            lemma_lex_at(self.text(), self.current.start as int, LexContext::Regex);
            lemma_lex_at(self.text(), self.current.start as int, LexContext::TemplateContinuation);
            lemma_punct_at(self.text(), self.current.start as int);
        }
        let token = Self::single(self.current, Kind::LAngle);
        self.cursor.seek(token.end as usize);
        self.lookahead.clear();
        self.current = token;
        token
    }
}

/// A point in the token stream to which the lexer can be taken back.
#[derive(Clone, Copy, Debug, PartialEq, Eq, Structural)]
pub struct LexerCheckpoint {
    pub position: u32,
    pub current: Token,
    pub diagnostics_len: usize,
}

impl LexerCheckpoint {
    /// The checkpoint names a state of a lexer over `text` with nothing
    /// scanned ahead.
    pub open spec fn valid_for(self, text: Seq<u8>) -> bool {
        &&& self.position == self.current.end
        &&& self.current.span_ok(text.len() as int)
        &&& token_fits(text, self.current)
        &&& is_char_boundary(text, self.position as int)
    }
}

impl<'a> Lexer<'a> {
    /// Records a diagnostic raised by the parser.
    pub fn record(&mut self, diagnostic: Diagnostic)
        requires
            old(self).wf(),
            diagnostic.in_bounds(old(self).text().len() as int),
        ensures
            final(self).wf(),
            final(self).text() == old(self).text(),
            final(self).current() == old(self).current(),
            final(self).position() == old(self).position(),
            final(self).buffered() == old(self).buffered(),
            final(self).recorded() == old(self).recorded().push(diagnostic),
    {
        self.diagnostics.push(diagnostic);
        proof {
            assert forall|i: int| 0 <= i < self.buffered().len() implies self.buffered_ok(i) by {
                assert(old(self).buffered_ok(i));
            }
            assert forall|i: int| 0 <= i < self.recorded().len() implies (
            #[trigger] self.recorded()[i]).in_bounds(self.text().len() as int) by {
                if i < old(self).recorded().len() {
                    assert(self.recorded()[i] == old(self).recorded()[i]);
                }
            }
        }
    }

    /// Notes the state to come back to. Nothing may be scanned ahead.
    pub(crate) fn checkpoint(&self) -> (cp: LexerCheckpoint)
        requires
            self.wf(),
            self.buffered().len() == 0,
        ensures
            cp.valid_for(self.text()),
            cp.position == self.position(),
            cp.current == self.current(),
            cp.diagnostics_len == self.recorded().len(),
    {
        LexerCheckpoint {
            position: self.cursor.position() as u32,
            current: self.current,
            diagnostics_len: self.diagnostics.len(),
        }
    }

    /// Takes the lexer back to a checkpoint: the cursor and the current
    /// token are restored, the tokens scanned ahead are dropped, and the
    /// diagnostics recorded since are forgotten.
    pub(crate) fn rewind(&mut self, cp: LexerCheckpoint)
        requires
            old(self).wf(),
            cp.valid_for(old(self).text()),
            cp.diagnostics_len <= old(self).recorded().len(),
        ensures
            final(self).wf(),
            final(self).text() == old(self).text(),
            final(self).current() == cp.current,
            final(self).position() == cp.position,
            final(self).buffered().len() == 0,
            final(self).recorded() == old(self).recorded().take(cp.diagnostics_len as int),
    {
        self.cursor.seek(cp.position as usize);
        self.current = cp.current;
        self.lookahead.clear();
        self.diagnostics.truncate(cp.diagnostics_len);
    }

    /// Hands the diagnostics over and ends the lexer.
    pub fn into_diagnostics(self) -> (d: Vec<Diagnostic>)
        ensures
            d@ == self.recorded(),
    {
        self.diagnostics
    }
}

} // verus!

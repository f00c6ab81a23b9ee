//! The state a parse runs on, as a value, and the steps that change it.
//!
//! The grammar is stated over this value: each rule maps a state to the
//! state behind what it read. The parser proper carries the same state in
//! its fields and takes the same steps.

use vstd::prelude::*;
use vstd::string::StringSliceAdditionalSpecFns;
use crate::ast::{arena_ok, node_ok, spans_ok, Node, NodeId, NodeKind};
use crate::diagnostics::{all_in_bounds, Diagnostic, Problem};
use crate::pass::in_source_order;
use crate::lexer::{
    appended, lemma_next_significant, lemma_relexed, next_significant, relexed, DisambiguationHint, Lexer,
    LexerCheckpoint,
};
use crate::scan::LexContext;
use crate::source::SourceType;
use crate::token::{Kind, Token};

verus! {

/// What the caller settles before a parse.
#[derive(Clone, Copy, Debug, PartialEq, Eq, Structural)]
pub struct Config {
    /// Type syntax is read: `<` behind an expression may open type arguments.
    pub typescript: bool,
    /// Parentheses around an expression get a node of their own.
    pub preserve_parens: bool,
}

/// A construct the parser is inside of. Frames are pushed on entering a
/// construct and popped on leaving it, in strict nesting.
#[derive(Clone, Copy, Debug, PartialEq, Eq, Structural, Hash)]
pub enum Frame {
    Block,
    Paren,
    TypeArguments,
    TemplateSubstitution,
}

/// Whether `hint` may be given to the lexer while `top` is the innermost
/// frame. Closing angle brackets are split only inside type arguments, and a
/// `}` resumes a template only inside a substitution.
pub open spec fn spec_hint_allowed(top: Option<Frame>, hint: DisambiguationHint) -> bool {
    match hint {
        DisambiguationHint::TypeScriptRAngle => top == Some(Frame::TypeArguments),
        DisambiguationHint::TemplateContinuation => top == Some(Frame::TemplateSubstitution),
        _ => true,
    }
}

#[verifier::when_used_as_spec(spec_hint_allowed)]
pub fn hint_allowed(top: Option<Frame>, hint: DisambiguationHint) -> (r: bool)
    ensures
        r == spec_hint_allowed(top, hint),
{
    match hint {
        DisambiguationHint::TypeScriptRAngle => match top {
            Some(Frame::TypeArguments) => true,
            _ => false,
        },
        DisambiguationHint::TemplateContinuation => match top {
            Some(Frame::TemplateSubstitution) => true,
            _ => false,
        },
        _ => true,
    }
}

/// The state of a parse.
pub struct ParseState {
    /// Byte offset of the cursor: the end of the current token.
    pub position: int,
    /// The token under consideration.
    pub current: Token,
    /// Where the token before it ended.
    pub prev_end: u32,
    pub diagnostics: Seq<Diagnostic>,
    pub nodes: Seq<Node>,
    pub links: Seq<NodeId>,
    pub frames: Seq<Frame>,
}

/// A state and the node made on the way to it.
pub struct Step {
    pub state: ParseState,
    pub node: NodeId,
}

/// A state and the node made on the way to it, if the attempt succeeded.
pub struct Attempt {
    pub state: ParseState,
    pub node: Option<NodeId>,
}

/// A state and the nodes gathered on the way to it. `ok` is false where a
/// list that had to be well formed was not.
pub struct Gathered {
    pub state: ParseState,
    pub items: Seq<NodeId>,
    pub ok: bool,
}

/// A place to come back to when an attempt fails.
pub struct Mark {
    pub position: int,
    pub current: Token,
    pub prev_end: u32,
    pub diagnostics_len: nat,
    pub nodes_len: nat,
    pub links_len: nat,
}

impl ParseState {
    /// The innermost frame.
    pub open spec fn top(self) -> Option<Frame> {
        if self.frames.len() > 0 {
            Some(self.frames.last())
        } else {
            None
        }
    }

    /// The state behind the current token: the next significant token is
    /// scanned, and its diagnostic, if any, is recorded.
    #[verifier::opaque]
    pub open spec fn bumped(self, text: Seq<u8>) -> ParseState {
        let f = next_significant(text, self.position, LexContext::Normal, false);
        ParseState {
            position: f.token.end as int,
            current: f.token,
            prev_end: self.current.end,
            diagnostics: appended(self.diagnostics, f.diagnostic),
            ..self
        }
    }

    /// The state with `problem` reported at the current token.
    #[verifier::opaque]
    pub open spec fn reported(self, problem: Problem) -> ParseState {
        ParseState {
            diagnostics: self.diagnostics.push(
                Diagnostic::spec_error(problem, self.current.start, self.current.end),
            ),
            ..self
        }
    }

    /// The state with the current token re-lexed under `hint`; unchanged
    /// where the hint does not apply to the token or to the innermost frame.
    #[verifier::opaque]
    pub open spec fn relexed(self, text: Seq<u8>, hint: DisambiguationHint) -> ParseState {
        if hint.spec_applies_to(self.current.kind) && spec_hint_allowed(self.top(), hint) {
            let f = relexed(text, self.current, hint);
            ParseState {
                position: f.token.end as int,
                current: f.token,
                diagnostics: appended(self.diagnostics, f.diagnostic),
                ..self
            }
        } else {
            self
        }
    }

    /// The state with one more node, and the node's handle.
    #[verifier::opaque]
    pub open spec fn with_node(
        self,
        kind: NodeKind,
        start: u32,
        end: u32,
        children: Seq<NodeId>,
    ) -> Step {
        Step {
            state: ParseState {
                nodes: self.nodes.push(
                    Node {
                        kind,
                        start,
                        end,
                        first_child: self.links.len() as usize,
                        child_count: children.len() as usize,
                    },
                ),
                links: self.links + children,
                ..self
            },
            node: self.nodes.len() as usize,
        }
    }

    /// The state with a childless node over the current token, and the
    /// token consumed.
    #[verifier::opaque]
    pub open spec fn with_leaf(self, text: Seq<u8>, kind: NodeKind) -> Step {
        let made = self.with_node(kind, self.current.start, self.current.end, Seq::empty());
        Step { state: made.state.bumped(text), node: made.node }
    }

    /// The state inside one more frame.
    #[verifier::opaque]
    pub open spec fn entered(self, frame: Frame) -> ParseState {
        ParseState { frames: self.frames.push(frame), ..self }
    }

    /// The state with the innermost frame left.
    #[verifier::opaque]
    pub open spec fn left(self) -> ParseState {
        if self.frames.len() > 0 {
            ParseState { frames: self.frames.drop_last(), ..self }
        } else {
            self
        }
    }

    /// The place the state is at.
    #[verifier::opaque]
    pub open spec fn mark(self) -> Mark {
        Mark {
            position: self.position,
            current: self.current,
            prev_end: self.prev_end,
            diagnostics_len: self.diagnostics.len(),
            nodes_len: self.nodes.len(),
            links_len: self.links.len(),
        }
    }

    /// The state taken back to `mark`: tokens, diagnostics and nodes that
    /// came after it are dropped; the frames stay.
    #[verifier::opaque]
    pub open spec fn restored(self, mark: Mark) -> ParseState {
        ParseState {
            position: mark.position,
            current: mark.current,
            prev_end: mark.prev_end,
            diagnostics: self.diagnostics.take(mark.diagnostics_len as int),
            nodes: self.nodes.take(mark.nodes_len as int),
            links: self.links.take(mark.links_len as int),
            frames: self.frames,
        }
    }

    /// `later` holds at least as much as `self`, and its current token has
    /// not moved back.
    pub open spec fn grows(self, later: ParseState) -> bool {
        &&& self.nodes.len() <= later.nodes.len()
        &&& self.links.len() <= later.links.len()
        &&& self.diagnostics.len() <= later.diagnostics.len()
        &&& self.current.start <= later.current.start
    }

    /// `later` was reached from `self` by parsing on: it holds at least as
    /// much, its current token has not moved back, and it is inside the same
    /// frames.
    pub open spec fn precedes(self, later: ParseState) -> bool {
        self.grows(later) && self.frames == later.frames
    }

    /// The nodes and links of `self` are still there in `later`.
    pub open spec fn keeps(self, later: ParseState) -> bool {
        &&& self.nodes.len() <= later.nodes.len()
        &&& self.links.len() <= later.links.len()
        &&& forall|i: int| 0 <= i < self.nodes.len() ==> later.nodes[i] == self.nodes[i]
        &&& forall|i: int| 0 <= i < self.links.len() ==> later.links[i] == self.links[i]
        &&& self.diagnostics.len() <= later.diagnostics.len()
        &&& forall|i: int|
            0 <= i < self.diagnostics.len() ==> later.diagnostics[i] == self.diagnostics[i]
    }

    /// The diagnostics come in source order, and none starts behind the
    /// current token.
    pub open spec fn ordered(self) -> bool {
        &&& in_source_order(self.diagnostics)
        &&& forall|i: int|
            0 <= i < self.diagnostics.len() ==> (#[trigger] self.diagnostics[i]).start
                <= self.current.start
    }

    /// The current token starts later in `later` than in `self`.
    pub open spec fn advanced(self, later: ParseState, text: Seq<u8>) -> bool {
        self.current.start < later.current.start <= text.len()
    }
}

/// The state a parse of `text` starts in.
pub open spec fn initial_state(text: Seq<u8>) -> ParseState {
    let f = next_significant(text, 0, LexContext::Normal, false);
    ParseState {
        position: f.token.end as int,
        current: f.token,
        prev_end: 0,
        diagnostics: appended(Seq::empty(), f.diagnostic),
        nodes: Seq::empty(),
        links: Seq::empty(),
        frames: Seq::empty(),
    }
}

/// The parser: a lexer, the arena it fills, and the frames it is inside of.
pub struct Parser<'a> {
    pub(crate) lexer: Lexer<'a>,
    pub(crate) config: Config,
    pub(crate) nodes: Vec<Node>,
    pub(crate) links: Vec<NodeId>,
    pub(crate) frames: Vec<Frame>,
    pub(crate) prev_end: u32,
}

/// What `Parser::mark` hands out.
#[derive(Clone, Copy)]
pub struct ParserMark {
    pub(crate) lexer: LexerCheckpoint,
    pub(crate) prev_end: u32,
    pub(crate) nodes_len: usize,
    pub(crate) links_len: usize,
}

impl View for ParserMark {
    type V = Mark;

    closed spec fn view(&self) -> Mark {
        Mark {
            position: self.lexer.position as int,
            current: self.lexer.current,
            prev_end: self.prev_end,
            diagnostics_len: self.lexer.diagnostics_len as nat,
            nodes_len: self.nodes_len as nat,
            links_len: self.links_len as nat,
        }
    }
}

impl<'a> View for Parser<'a> {
    type V = ParseState;

    closed spec fn view(&self) -> ParseState {
        ParseState {
            position: self.lexer.position(),
            current: self.lexer.current(),
            prev_end: self.prev_end,
            diagnostics: self.lexer.recorded(),
            nodes: self.nodes@,
            links: self.links@,
            frames: self.frames@,
        }
    }
}

impl<'a> Parser<'a> {
    /// The bytes of the text being parsed.
    pub closed spec fn text(&self) -> Seq<u8> {
        self.lexer.text()
    }

    /// What was settled before the parse.
    pub closed spec fn config(&self) -> Config {
        self.config
    }

    /// The parser is in order: so is its lexer, nothing is scanned ahead,
    /// no node of the arena has a child made after it, and every node
    /// covers a span of the text.
    pub closed spec fn wf(&self) -> bool {
        &&& self.lexer.wf()
        &&& self.lexer.buffered().len() == 0
        &&& arena_ok(self.nodes@, self.links@)
        &&& spans_ok(self.nodes@, self.lexer.text().len() as int)
        &&& self.prev_end <= self.lexer.text().len()
        &&& self@.ordered()
    }

    /// What `wf` means for the state: its token and its arena are in order.
    pub proof fn lemma_wf(&self)
        requires
            self.wf(),
        ensures
            self@.current.span_ok(self.text().len() as int),
            self.text().len() <= u32::MAX,
            arena_ok(self@.nodes, self@.links),
            self@.position == self@.current.end,
            self@.ordered(),
    {
    }

    /// A parser over `source`, about to read its first token.
    pub fn new(source: &'a str, source_type: SourceType) -> (p: Parser<'a>)
        requires
            source.spec_bytes().len() <= u32::MAX,
        ensures
            p.wf(),
            p.text() == source.spec_bytes(),
            p.config() == (Config {
                typescript: source_type.spec_is_typescript(),
                preserve_parens: true,
            }),
            p@ == initial_state(p.text()),
    {
        let lexer = Lexer::new(source);
        let p = Parser {
            lexer,
            config: Config { typescript: source_type.is_typescript(), preserve_parens: true },
            nodes: Vec::new(),
            links: Vec::new(),
            frames: Vec::new(),
            prev_end: 0,
        };
        assert(p@.nodes =~= Seq::empty() && p@.links =~= Seq::empty() && p@.frames
            =~= Seq::empty());
        proof {
            lemma_next_significant(p.lexer.text(), 0, LexContext::Normal, false);
        }
        p
    }

    /// Settles whether parentheses around an expression get a node.
    pub fn preserve_parens(self, allow: bool) -> (p: Parser<'a>)
        requires
            self.wf(),
        ensures
            p.wf(),
            p.text() == self.text(),
            p@ == self@,
            p.config() == (Config { preserve_parens: allow, ..self.config() }),
    {
        let mut p = self;
        p.config.preserve_parens = allow;
        p
    }

    pub(crate) fn settings(&self) -> (c: Config)
        ensures
            c == self.config(),
    {
        self.config
    }

    pub(crate) fn end_from(&self, start: u32) -> (end: u32)
        ensures
            end == (if self@.prev_end < start {
                start
            } else {
                self@.prev_end
            }),
            self.wf() && start <= self.text().len() ==> start <= end <= self.text().len(),
    {
        if self.prev_end < start {
            start
        } else {
            self.prev_end
        }
    }

    pub(crate) fn kind(&self) -> (k: Kind)
        ensures
            k == self@.current.kind,
    {
        self.lexer.current_token().kind
    }

    pub(crate) fn token(&self) -> (t: Token)
        ensures
            t == self@.current,
            self.wf() ==> t.start <= t.end <= self.text().len(),
    {
        self.lexer.current_token()
    }

    pub(crate) fn bump(&mut self)
        requires
            old(self).wf(),
        ensures
            final(self).wf(),
            final(self).text() == old(self).text(),
            final(self).config() == old(self).config(),
            final(self)@ == old(self)@.bumped(old(self).text()),
            old(self)@.precedes(final(self)@),
            old(self)@.keeps(final(self)@),
            old(self)@.current.kind != Kind::Eof ==> old(self)@.advanced(
                final(self)@,
                old(self).text(),
            ),
    {
        reveal(ParseState::bumped);
        proof {
            lemma_next_significant(
                self.lexer.text(),
                self.lexer.position(),
                LexContext::Normal,
                false,
            );
        }
        self.prev_end = self.lexer.current_token().end;
        self.lexer.next_token();
    }

    pub(crate) fn report(&mut self, problem: Problem)
        requires
            old(self).wf(),
        ensures
            final(self).wf(),
            final(self).text() == old(self).text(),
            final(self).config() == old(self).config(),
            final(self)@ == old(self)@.reported(problem),
            final(self)@.current == old(self)@.current,
            old(self)@.precedes(final(self)@),
            old(self)@.keeps(final(self)@),
    {
        reveal(ParseState::reported);
        let t = self.lexer.current_token();
        self.lexer.record(Diagnostic::error(problem, t.start, t.end));
    }

    pub(crate) fn re_lex(&mut self, hint: DisambiguationHint)
        requires
            old(self).wf(),
        ensures
            final(self).wf(),
            final(self).text() == old(self).text(),
            final(self).config() == old(self).config(),
            final(self)@ == old(self)@.relexed(old(self).text(), hint),
            old(self)@.precedes(final(self)@),
            old(self)@.keeps(final(self)@),
            final(self)@.current.start == old(self)@.current.start,
            old(self)@.current.kind != Kind::Eof ==> final(self)@.current.kind != Kind::Eof,
    {
        proof {
            old(self).lemma_wf();
        }
        reveal(ParseState::relexed);
        let top = if self.frames.len() > 0 {
            Some(self.frames[self.frames.len() - 1])
        } else {
            None
        };
        if hint_allowed(top, hint) {
            proof {
                if hint.spec_applies_to(self.lexer.current().kind) {
                    lemma_relexed(self.lexer.text(), self.lexer.current(), hint);
                }
            }
            self.lexer.re_lex(hint);
        }
    }

    pub(crate) fn add_node(&mut self, kind: NodeKind, start: u32, end: u32, children: &Vec<NodeId>) -> (id:
        NodeId)
        requires
            old(self).wf(),
            forall|k: int| 0 <= k < children@.len() ==> (#[trigger] children@[k]) < old(self)@.nodes.len(),
            start <= end <= old(self).text().len(),
        ensures
            final(self).wf(),
            final(self).text() == old(self).text(),
            final(self).config() == old(self).config(),
            final(self)@ == old(self)@.with_node(kind, start, end, children@).state,
            id == old(self)@.with_node(kind, start, end, children@).node,
            old(self)@.precedes(final(self)@),
            old(self)@.keeps(final(self)@),
            id < final(self)@.nodes.len(),
            final(self)@.current == old(self)@.current,
    {
        reveal(ParseState::with_node);
        let id = self.nodes.len();
        let first_child = self.links.len();
        let ghost nodes0 = self.nodes@;
        let ghost links0 = self.links@;
        let mut k: usize = 0;
        while k < children.len()
            invariant
                k <= children@.len(),
                self.links@ == links0 + children@.take(k as int),
                self.nodes@ == nodes0,
                self.lexer == old(self).lexer,
                self.config == old(self).config,
                self.frames == old(self).frames,
                self.prev_end == old(self).prev_end,
            decreases children@.len() - k,
        {
            self.links.push(children[k]);
            k += 1;
            assert(self.links@ =~= links0 + children@.take(k as int));
        }
        assert(children@.take(k as int) =~= children@);
        self.nodes.push(Node { kind, start, end, first_child, child_count: children.len() });
        proof {
            assert forall|i: int| 0 <= i < self.nodes@.len() implies #[trigger] node_ok(
                self.nodes@,
                self.links@,
                i,
            ) by {
                if i < nodes0.len() {
                    assert(node_ok(nodes0, links0, i));
                }
            }
            assert forall|i: int| 0 <= i < self.nodes@.len() implies (#[trigger] self.nodes@[i]).start
                <= self.nodes@[i].end <= self.lexer.text().len() by {
                if i < nodes0.len() {
                    assert(self.nodes@[i] == nodes0[i]);
                }
            }
        }
        id
    }

    pub(crate) fn leaf(&mut self, kind: NodeKind) -> (id: NodeId)
        requires
            old(self).wf(),
        ensures
            final(self).wf(),
            final(self).text() == old(self).text(),
            final(self).config() == old(self).config(),
            final(self)@ == old(self)@.with_leaf(old(self).text(), kind).state,
            id == old(self)@.with_leaf(old(self).text(), kind).node,
            old(self)@.precedes(final(self)@),
            old(self)@.keeps(final(self)@),
            id < final(self)@.nodes.len(),
            old(self)@.current.kind != Kind::Eof ==> old(self)@.advanced(
                final(self)@,
                old(self).text(),
            ),
    {
        reveal(ParseState::with_leaf);
        let t = self.lexer.current_token();
        let none: Vec<NodeId> = Vec::new();
        let id = self.add_node(kind, t.start, t.end, &none);
        self.bump();
        id
    }

    pub(crate) fn enter(&mut self, frame: Frame)
        requires
            old(self).wf(),
        ensures
            final(self).wf(),
            final(self).text() == old(self).text(),
            final(self).config() == old(self).config(),
            final(self)@ == old(self)@.entered(frame),
            final(self)@.frames == old(self)@.frames.push(frame),
            final(self)@.current == old(self)@.current,
            old(self)@.grows(final(self)@),
            old(self)@.keeps(final(self)@),
    {
        reveal(ParseState::entered);
        self.frames.push(frame);
    }

    pub(crate) fn leave(&mut self)
        requires
            old(self).wf(),
        ensures
            final(self).wf(),
            final(self).text() == old(self).text(),
            final(self).config() == old(self).config(),
            final(self)@ == old(self)@.left(),
            final(self)@.current == old(self)@.current,
            final(self)@.frames == (if old(self)@.frames.len() > 0 {
                old(self)@.frames.drop_last()
            } else {
                old(self)@.frames
            }),
            old(self)@.grows(final(self)@),
            old(self)@.keeps(final(self)@),
    {
        reveal(ParseState::left);
        if self.frames.len() > 0 {
            self.frames.pop();
        }
    }

    pub(crate) fn mark(&self) -> (m: ParserMark)
        requires
            self.wf(),
        ensures
            m@ == self@.mark(),
            self.admits(m),
            m@.current == self@.current,
            m@.nodes_len == self@.nodes.len(),
            m@.links_len == self@.links.len(),
            m@.diagnostics_len == self@.diagnostics.len(),
    {
        reveal(ParseState::mark);
        proof {
            assert(self.nodes@.take(self.nodes@.len() as int) =~= self.nodes@);
            assert(self.links@.take(self.links@.len() as int) =~= self.links@);
            assert(self.lexer.recorded().take(self.lexer.recorded().len() as int)
                =~= self.lexer.recorded());
        }
        ParserMark {
            lexer: self.lexer.checkpoint(),
            prev_end: self.prev_end,
            nodes_len: self.nodes.len(),
            links_len: self.links.len(),
        }
    }

    /// The parser can be taken back to `m`: the mark is one of this text,
    /// and what it points at is still there.
    pub(crate) closed spec fn admits(&self, m: ParserMark) -> bool {
        &&& m.lexer.valid_for(self.lexer.text())
        &&& m.lexer.diagnostics_len <= self.lexer.recorded().len()
        &&& m.nodes_len <= self.nodes@.len()
        &&& m.links_len <= self.links@.len()
        &&& m.prev_end <= self.lexer.text().len()
        &&& arena_ok(self.nodes@.take(m.nodes_len as int), self.links@.take(m.links_len as int))
        &&& (ParseState {
            current: m.lexer.current,
            diagnostics: self.lexer.recorded().take(m.lexer.diagnostics_len as int),
            ..self@
        }).ordered()
    }

    /// A mark taken in a state stays good in every state that follows it.
    pub(crate) proof fn lemma_admits(&self, earlier: &Parser<'a>, m: ParserMark)
        requires
            earlier.admits(m),
            earlier.text() == self.text(),
            earlier@.keeps(self@),
            earlier@.grows(self@),
        ensures
            self.admits(m),
    {
        assert(self.nodes@.take(m.nodes_len as int) =~= earlier.nodes@.take(m.nodes_len as int));
        assert(self.links@.take(m.links_len as int) =~= earlier.links@.take(m.links_len as int));
        assert(self.lexer.recorded().take(m.lexer.diagnostics_len as int)
            =~= earlier.lexer.recorded().take(m.lexer.diagnostics_len as int));
    }

    pub(crate) fn rewind(&mut self, m: ParserMark)
        requires
            old(self).wf(),
            old(self).admits(m),
        ensures
            final(self).wf(),
            final(self).text() == old(self).text(),
            final(self).config() == old(self).config(),
            final(self)@ == old(self)@.restored(m@),
            final(self)@.frames == old(self)@.frames,
            final(self)@.current == m@.current,
            final(self)@.nodes.len() == m@.nodes_len,
            final(self)@.links.len() == m@.links_len,
            final(self)@.diagnostics.len() == m@.diagnostics_len,
    {
        reveal(ParseState::restored);
        self.lexer.rewind(m.lexer);
        self.prev_end = m.prev_end;
        self.nodes.truncate(m.nodes_len);
        self.links.truncate(m.links_len);
    }
}

impl<'a> Parser<'a> {
    /// Hands over what the parse gathered and ends the parser.
    pub(crate) fn finish(self) -> (r: (Vec<Node>, Vec<NodeId>, Vec<Diagnostic>))
        requires
            self.wf(),
        ensures
            r.0@ == self@.nodes,
            r.1@ == self@.links,
            r.2@ == self@.diagnostics,
            arena_ok(r.0@, r.1@),
            spans_ok(r.0@, self.text().len() as int),
            all_in_bounds(r.2@, self.text().len() as int),
            in_source_order(r.2@),
    {
        (self.nodes, self.links, self.lexer.into_diagnostics())
    }

    /// Length of the text in bytes.
    pub(crate) fn text_len(&self) -> (n: u32)
        requires
            self.wf(),
        ensures
            n == self.text().len(),
    {
        self.lexer.source().len() as u32
    }
}

} // verus!

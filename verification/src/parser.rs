//! The parser: it drives the lexer through the grammar, asks for a re-lex
//! where the grammar knows better than the lexer's first guess, and builds
//! the tree.

use vstd::prelude::*;
use vstd::string::StringSliceAdditionalSpecFns;
use crate::ast::{spans_ok, Ast, Node, NodeId, NodeKind};
use crate::diagnostics::{all_in_bounds, Diagnostic, Problem};
use crate::grammar::{
    arguments, assign, binary, binary_precedence, binary_rest, call_arguments, ends_statement,
    error_here, expect, is_boundary, is_name, is_unary, lemma_arguments, lemma_assign,
    lemma_binary, lemma_binary_rest, lemma_call_arguments, lemma_postfix, lemma_postfix_rest,
    lemma_primary, lemma_statement, lemma_statements, lemma_template_rest,
    lemma_try_type_arguments, lemma_type_arguments, lemma_type_list, lemma_type_reference,
    lemma_unary, optional, postfix, postfix_rest, primary, program, remaining, semi,
    spec_is_name, statement, statements, template_rest, too_deep, try_type_arguments,
    type_arguments, type_list, type_reference, unary, unexpected, MAX_DEPTH,
};
use crate::lexer::DisambiguationHint;
use crate::pass::in_source_order;
use crate::source::{SourceBuffer, SourceType};
use crate::state::{initial_state, Attempt, Config, Frame, Parser};
use crate::token::Kind;

verus! {

/// Every handle of `items` is one of the first `n` nodes.
pub open spec fn all_below(items: Seq<NodeId>, n: nat) -> bool {
    forall|k: int| 0 <= k < items.len() ==> (#[trigger] items[k]) < n
}

impl<'a> Parser<'a> {
    /// `self` was reached from `before` by parsing on in the same text.
    pub(crate) open spec fn moved(&self, before: &Parser<'a>) -> bool {
        &&& self.wf()
        &&& self.text() == before.text()
        &&& self.config() == before.config()
        &&& before@.precedes(self@)
    }

    fn error_here(&mut self, problem: Problem) -> (id: NodeId)
        requires
            old(self).wf(),
        ensures
            final(self).moved(old(self)),
            final(self)@ == error_here(old(self)@, problem).state,
            id == error_here(old(self)@, problem).node,
            id < final(self)@.nodes.len(),
            final(self)@.current == old(self)@.current,
    {
        let t = self.token();
        self.report(problem);
        let none: Vec<NodeId> = Vec::new();
        self.add_node(NodeKind::Error, t.start, t.end, &none)
    }

    fn too_deep(&mut self) -> (id: NodeId)
        requires
            old(self).wf(),
        ensures
            final(self).moved(old(self)),
            final(self)@ == too_deep(old(self).text(), old(self)@).state,
            id == too_deep(old(self).text(), old(self)@).node,
            id < final(self)@.nodes.len(),
            old(self)@.current.kind != Kind::Eof ==> old(self)@.advanced(
                final(self)@,
                old(self).text(),
            ),
    {
        let id = self.error_here(Problem::NestingTooDeep);
        self.bump();
        id
    }

    fn unexpected(&mut self) -> (id: NodeId)
        requires
            old(self).wf(),
        ensures
            final(self).moved(old(self)),
            final(self)@ == unexpected(old(self).text(), old(self)@).state,
            id == unexpected(old(self).text(), old(self)@).node,
            id < final(self)@.nodes.len(),
    {
        let boundary = is_boundary(self.kind());
        let id = self.error_here(Problem::UnexpectedToken);
        if !boundary {
            self.bump();
        }
        id
    }

    fn expect(&mut self, kind: Kind, problem: Problem)
        requires
            old(self).wf(),
        ensures
            final(self).moved(old(self)),
            final(self)@ == expect(old(self).text(), old(self)@, kind, problem),
    {
        if self.kind() == kind {
            self.bump();
        } else {
            self.report(problem);
        }
    }

    fn semi(&mut self)
        requires
            old(self).wf(),
        ensures
            final(self).moved(old(self)),
            final(self)@ == semi(old(self).text(), old(self)@),
    {
        let t = self.token();
        if t.kind == Kind::Semicolon {
            self.bump();
        } else if !ends_statement(t) {
            self.report(Problem::ExpectedSemicolon);
        }
    }

    fn parse_type_reference(&mut self, depth: u32) -> (r: Option<NodeId>)
        requires
            old(self).wf(),
        ensures
            final(self).moved(old(self)),
            old(self)@.keeps(final(self)@),
            final(self)@ == type_reference(old(self).text(), old(self).config(), old(self)@, depth as nat).state,
            r == type_reference(old(self).text(), old(self).config(), old(self)@, depth as nat).node,
            r matches Some(id) ==> id < final(self)@.nodes.len() && old(self)@.advanced(
                final(self)@,
                old(self).text(),
            ),
        decreases depth, 6nat, remaining(old(self).text(), old(self)@),
    {
        let ghost text = self.text();
        let ghost cfg = self.config();
        let ghost s0 = self@;
        let ghost d = depth as nat;
        proof {
            lemma_type_reference(text, cfg, s0, d);
        }
        proof {
            self.lemma_wf();
        }
        if self.kind() != Kind::Ident {
            return None;
        }
        let start = self.token().start;
        let name = self.leaf(NodeKind::Identifier);
        let ghost named = s0.with_leaf(text, NodeKind::Identifier);
        assert(self@ == named.state && name == named.node);
        let k = self.kind();
        if k == Kind::LAngle || k == Kind::ShiftLeft {
            if depth == 0 {
                return None;
            }
            let nested = self.parse_type_arguments(depth - 1);
            let ghost inner = type_arguments(text, cfg, named.state, (d - 1) as nat);
            assert(self@ == inner.state && nested == inner.node);
            match nested {
                Some(targs) => {
                    let end = self.end_from(start);
                    let children = vec![name, targs];
                    assert(children@ =~= seq![name, targs]);
                    let id = self.add_node(NodeKind::TypeReference, start, end, &children);
                    let ghost made = inner.state.with_node(
                        NodeKind::TypeReference,
                        start,
                        end,
                        seq![name, targs],
                    );
                    assert(self@ == made.state && id == made.node);
                    Some(id)
                },
                None => None,
            }
        } else {
            let end = self.end_from(start);
            let children = vec![name];
            assert(children@ =~= seq![name]);
            let id = self.add_node(NodeKind::TypeReference, start, end, &children);
            let ghost made = named.state.with_node(NodeKind::TypeReference, start, end, seq![name]);
            assert(self@ == made.state && id == made.node);
            Some(id)
        }
    }

    fn parse_type_list(&mut self, depth: u32) -> (r: (Vec<NodeId>, bool))
        requires
            old(self).wf(),
        ensures
            final(self).moved(old(self)),
            old(self)@.keeps(final(self)@),
            final(self)@ == type_list(old(self).text(), old(self).config(), old(self)@, depth as nat, Seq::empty()).state,
            r.0@ == type_list(old(self).text(), old(self).config(), old(self)@, depth as nat, Seq::empty()).items,
            r.1 == type_list(old(self).text(), old(self).config(), old(self)@, depth as nat, Seq::empty()).ok,
            all_below(r.0@, final(self)@.nodes.len()),
        decreases depth, 7nat, remaining(old(self).text(), old(self)@),
    {
        let ghost text = self.text();
        let ghost cfg = self.config();
        let ghost d = depth as nat;
        let mut items: Vec<NodeId> = Vec::new();
        loop
            invariant
                self.moved(old(self)),
                old(self)@.keeps(self@),
                text == self.text(),
                cfg == self.config(),
                d == depth as nat,
                all_below(items@, self@.nodes.len()),
                type_list(text, cfg, old(self)@, d, Seq::empty()) == type_list(
                    text,
                    cfg,
                    self@,
                    d,
                    items@,
                ),
            decreases remaining(self.text(), self@),
        {
            proof {
                self.lemma_wf();
            }
            let ghost s = self@;
            proof {
                lemma_type_list(text, cfg, s, d, items@);
            }
            let ghost acc = items@;
            let found = self.parse_type_reference(depth);
            let ghost t = type_reference(text, cfg, s, d);
            assert(self@ == t.state && found == t.node);
            match found {
                None => {
                    return (items, false);
                },
                Some(id) => {
                    items.push(id);
                    if self.kind() == Kind::Comma {
                        self.bump();
                        proof {
                            self.lemma_wf();
                        }
                        assert(self@ == t.state.bumped(text));
                        assert(s.advanced(self@, text));
                    } else {
                        return (items, true);
                    }
                },
            }
        }
    }

    fn parse_type_arguments(&mut self, depth: u32) -> (r: Option<NodeId>)
        requires
            old(self).wf(),
        ensures
            final(self).moved(old(self)),
            old(self)@.keeps(final(self)@),
            final(self)@ == type_arguments(old(self).text(), old(self).config(), old(self)@, depth as nat).state,
            r == type_arguments(old(self).text(), old(self).config(), old(self)@, depth as nat).node,
            r matches Some(id) ==> id < final(self)@.nodes.len() && old(self)@.advanced(
                final(self)@,
                old(self).text(),
            ),
        decreases depth, 8nat, remaining(old(self).text(), old(self)@),
    {
        let ghost text = self.text();
        let ghost cfg = self.config();
        let ghost s0 = self@;
        let ghost d = depth as nat;
        proof {
            lemma_type_arguments(text, cfg, s0, d);
        }
        proof {
            self.lemma_wf();
        }
        let start = self.token().start;
        self.re_lex(DisambiguationHint::TypeScriptLAngle);
        let ghost opened = s0.relexed(text, DisambiguationHint::TypeScriptLAngle);
        assert(self@ == opened);
        if self.kind() != Kind::LAngle {
            return None;
        }
        self.enter(Frame::TypeArguments);
        self.bump();
        let ghost inside = opened.entered(Frame::TypeArguments).bumped(text);
        assert(self@ == inside);
        let (items, ok) = self.parse_type_list(depth);
        let ghost list = type_list(text, cfg, inside, d, Seq::empty());
        assert(self@ == list.state && items@ == list.items && ok == list.ok);
        self.re_lex(DisambiguationHint::TypeScriptRAngle);
        let ghost closing = list.state.relexed(text, DisambiguationHint::TypeScriptRAngle);
        assert(self@ == closing);
        if ok && self.kind() == Kind::RAngle {
            self.bump();
            self.leave();
            let ghost closed = closing.bumped(text).left();
            assert(self@ == closed);
            assert(self@.frames =~= s0.frames);
            proof {
                self.lemma_wf();
            }
            let end = self.end_from(start);
            let id = self.add_node(NodeKind::TypeArguments, start, end, &items);
            let ghost made = closed.with_node(NodeKind::TypeArguments, start, end, list.items);
            assert(self@ == made.state && id == made.node);
            Some(id)
        } else {
            self.leave();
            assert(self@ == closing.left());
            assert(self@.frames =~= s0.frames);
            None
        }
    }

    fn try_type_arguments(&mut self, depth: u32) -> (r: Option<NodeId>)
        requires
            old(self).wf(),
        ensures
            final(self).moved(old(self)),
            final(self)@ == try_type_arguments(old(self).text(), old(self).config(), old(self)@, depth as nat).state,
            r == try_type_arguments(old(self).text(), old(self).config(), old(self)@, depth as nat).node,
            r matches Some(id) ==> id < final(self)@.nodes.len() && old(self)@.advanced(
                final(self)@,
                old(self).text(),
            ) && final(self)@.current.kind == Kind::LParen,
        decreases depth, 9nat, remaining(old(self).text(), old(self)@),
    {
        let ghost text = self.text();
        let ghost cfg = self.config();
        let ghost s0 = self@;
        let ghost d = depth as nat;
        proof {
            lemma_try_type_arguments(text, cfg, s0, d);
        }
        let mark = self.mark();
        let ghost before = *self;
        let tried = self.parse_type_arguments(depth);
        let ghost t = type_arguments(text, cfg, s0, d);
        assert(self@ == t.state && tried == t.node);
        if tried.is_some() && self.kind() == Kind::LParen {
            tried
        } else {
            proof {
                self.lemma_admits(&before, mark);
            }
            self.rewind(mark);
            assert(self@ == t.state.restored(s0.mark()));
            None
        }
    }

    fn parse_primary(&mut self, depth: u32) -> (id: NodeId)
        requires
            old(self).wf(),
        ensures
            final(self).moved(old(self)),
            final(self)@ == primary(old(self).text(), old(self).config(), old(self)@, depth as nat).state,
            id == primary(old(self).text(), old(self).config(), old(self)@, depth as nat).node,
            id < final(self)@.nodes.len(),
        decreases depth, 13nat, remaining(old(self).text(), old(self)@),
    {
        let ghost text = self.text();
        let ghost cfg = self.config();
        let ghost s0 = self@;
        let ghost d = depth as nat;
        proof {
            lemma_primary(text, cfg, s0, d);
        }
        let start = self.token().start;
        match self.kind() {
            Kind::Ident => self.leaf(NodeKind::Identifier),
            Kind::Number => self.leaf(NodeKind::NumericLiteral),
            Kind::Str => self.leaf(NodeKind::StringLiteral),
            Kind::True | Kind::False => self.leaf(NodeKind::BooleanLiteral),
            Kind::Null => self.leaf(NodeKind::NullLiteral),
            Kind::Slash | Kind::SlashEq => {
                self.re_lex(DisambiguationHint::Regex);
                assert(self@ == s0.relexed(text, DisambiguationHint::Regex));
                self.leaf(NodeKind::RegExpLiteral)
            },
            Kind::NoSubstitutionTemplate => {
                let quasi = self.leaf(NodeKind::TemplateElement);
                let ghost q = s0.with_leaf(text, NodeKind::TemplateElement);
                assert(self@ == q.state && quasi == q.node);
                let end = self.end_from(start);
                let children = vec![quasi];
                assert(children@ =~= seq![quasi]);
                let id = self.add_node(NodeKind::TemplateLiteral, start, end, &children);
                let ghost made = q.state.with_node(NodeKind::TemplateLiteral, start, end, seq![quasi]);
                assert(self@ == made.state && id == made.node);
                id
            },
            Kind::TemplateHead => {
                if depth == 0 {
                    self.too_deep()
                } else {
                    self.enter(Frame::TemplateSubstitution);
                    let quasi = self.leaf(NodeKind::TemplateElement);
                    let ghost q = s0.entered(Frame::TemplateSubstitution).with_leaf(
                        text,
                        NodeKind::TemplateElement,
                    );
                    assert(self@ == q.state && quasi == q.node);
                    let id = self.parse_template_rest(depth - 1, quasi, start);
                    assert(self@.frames =~= s0.frames);
                    let ghost rest = template_rest(text, cfg, q.state, (d - 1) as nat, seq![quasi], start);
                    assert(self@ == rest.state && id == rest.node);
                    id
                }
            },
            Kind::LParen => {
                if depth == 0 {
                    self.too_deep()
                } else {
                    self.enter(Frame::Paren);
                    self.bump();
                    let ghost inside = s0.entered(Frame::Paren).bumped(text);
                    assert(self@ == inside);
                    let inner = self.parse_assign(depth - 1);
                    let ghost e = assign(text, cfg, inside, (d - 1) as nat);
                    assert(self@ == e.state && inner == e.node);
                    self.expect(Kind::RParen, Problem::ExpectedRParen);
                    self.leave();
                    let ghost closed = expect(text, e.state, Kind::RParen, Problem::ExpectedRParen).left();
                    assert(self@ == closed);
                    assert(self@.frames =~= s0.frames);
                    if self.settings().preserve_parens {
                        let end = self.end_from(start);
                        let children = vec![inner];
                        assert(children@ =~= seq![inner]);
                        let id = self.add_node(
                            NodeKind::ParenthesizedExpression,
                            start,
                            end,
                            &children,
                        );
                        let ghost made = closed.with_node(
                            NodeKind::ParenthesizedExpression,
                            start,
                            end,
                            seq![inner],
                        );
                        assert(self@ == made.state && id == made.node);
                        id
                    } else {
                        inner
                    }
                }
            },
            _ => self.unexpected(),
        }
    }

    /// Reads the rest of a template whose first piece is the node `first`.
    /// The parser is inside the substitution frame of that piece and leaves
    /// it before it returns.
    fn parse_template_rest(&mut self, depth: u32, first: NodeId, start: u32) -> (id: NodeId)
        requires
            old(self).wf(),
            start <= old(self).text().len(),
            first < old(self)@.nodes.len(),
            old(self)@.frames.len() > 0,
            old(self)@.frames.last() == Frame::TemplateSubstitution,
        ensures
            final(self).wf(),
            final(self).text() == old(self).text(),
            final(self).config() == old(self).config(),
            old(self)@.grows(final(self)@),
            final(self)@.frames == old(self)@.frames.drop_last(),
            final(self)@ == template_rest(old(self).text(), old(self).config(), old(self)@, depth as nat, seq![first], start).state,
            id == template_rest(old(self).text(), old(self).config(), old(self)@, depth as nat, seq![first], start).node,
            id < final(self)@.nodes.len(),
        decreases depth, 23nat, remaining(old(self).text(), old(self)@),
    {
        let ghost text = self.text();
        let ghost cfg = self.config();
        let ghost d = depth as nat;
        let mut items: Vec<NodeId> = vec![first];
        assert(items@ =~= seq![first]);
        loop
            invariant
                start <= self.text().len(),
                self.wf(),
                text == self.text(),
                cfg == self.config(),
                text == old(self).text(),
                cfg == old(self).config(),
                d == depth as nat,
                old(self)@.precedes(self@),
                self@.frames.len() > 0,
                self@.frames.last() == Frame::TemplateSubstitution,
                all_below(items@, self@.nodes.len()),
                template_rest(text, cfg, old(self)@, d, seq![first], start) == template_rest(
                    text,
                    cfg,
                    self@,
                    d,
                    items@,
                    start,
                ),
            decreases remaining(self.text(), self@),
        {
            proof {
                self.lemma_wf();
            }
            let ghost s = self@;
            proof {
                lemma_template_rest(text, cfg, s, d, items@, start);
            }
            let ghost acc = items@;
            let value = self.parse_assign(depth);
            let ghost e = assign(text, cfg, s, d);
            assert(self@ == e.state && value == e.node);
            items.push(value);
            let ghost acc2 = acc.push(e.node);
            assert(items@ == acc2);
            if self.kind() == Kind::RCurly {
                self.re_lex(DisambiguationHint::TemplateContinuation);
                let ghost again = e.state.relexed(text, DisambiguationHint::TemplateContinuation);
                assert(self@ == again);
                let middle = self.kind() == Kind::TemplateMiddle;
                self.leave();
                let quasi = self.leaf(NodeKind::TemplateElement);
                let ghost q = again.left().with_leaf(text, NodeKind::TemplateElement);
                assert(self@ == q.state && quasi == q.node);
                items.push(quasi);
                proof {
                    self.lemma_wf();
                }
                assert(s.advanced(q.state, text));
                if middle {
                    self.enter(Frame::TemplateSubstitution);
                    assert(self@ == q.state.entered(Frame::TemplateSubstitution));
                    assert(self@.frames =~= s.frames);
                } else {
                    let end = self.end_from(start);
                    let id = self.add_node(NodeKind::TemplateLiteral, start, end, &items);
                    let ghost made = q.state.with_node(
                        NodeKind::TemplateLiteral,
                        start,
                        end,
                        acc2.push(q.node),
                    );
                    assert(self@ == made.state && id == made.node);
                    return id;
                }
            } else {
                self.report(Problem::ExpectedTemplateContinuation);
                self.leave();
                let ghost failed = e.state.reported(Problem::ExpectedTemplateContinuation).left();
                assert(self@ == failed);
                let end = self.end_from(start);
                let id = self.add_node(NodeKind::TemplateLiteral, start, end, &items);
                let ghost made = failed.with_node(NodeKind::TemplateLiteral, start, end, acc2);
                assert(self@ == made.state && id == made.node);
                return id;
            }
        }
    }

    fn parse_arguments(&mut self, depth: u32) -> (items: Vec<NodeId>)
        requires
            old(self).wf(),
        ensures
            final(self).moved(old(self)),
            final(self)@ == arguments(old(self).text(), old(self).config(), old(self)@, depth as nat, Seq::empty()).state,
            items@ == arguments(old(self).text(), old(self).config(), old(self)@, depth as nat, Seq::empty()).items,
            all_below(items@, final(self)@.nodes.len()),
        decreases depth, 21nat, remaining(old(self).text(), old(self)@),
    {
        let ghost text = self.text();
        let ghost cfg = self.config();
        let ghost d = depth as nat;
        let mut items: Vec<NodeId> = Vec::new();
        loop
            invariant
                self.moved(old(self)),
                text == self.text(),
                cfg == self.config(),
                d == depth as nat,
                all_below(items@, self@.nodes.len()),
                arguments(text, cfg, old(self)@, d, Seq::empty()) == arguments(
                    text,
                    cfg,
                    self@,
                    d,
                    items@,
                ),
            decreases remaining(self.text(), self@),
        {
            proof {
                self.lemma_wf();
            }
            let ghost s = self@;
            proof {
                lemma_arguments(text, cfg, s, d, items@);
            }
            let k = self.kind();
            if k == Kind::RParen || k == Kind::Eof {
                return items;
            }
            let value = self.parse_assign(depth);
            let ghost a = assign(text, cfg, s, d);
            assert(self@ == a.state && value == a.node);
            items.push(value);
            if self.kind() == Kind::Comma {
                self.bump();
                proof {
                    self.lemma_wf();
                }
                assert(self@ == a.state.bumped(text));
                assert(s.advanced(self@, text));
            } else {
                return items;
            }
        }
    }

    fn parse_call_arguments(&mut self, depth: u32) -> (items: Vec<NodeId>)
        requires
            old(self).wf(),
        ensures
            final(self).moved(old(self)),
            final(self)@ == call_arguments(old(self).text(), old(self).config(), old(self)@, depth as nat).state,
            items@ == call_arguments(old(self).text(), old(self).config(), old(self)@, depth as nat).items,
            all_below(items@, final(self)@.nodes.len()),
            old(self)@.current.kind != Kind::Eof ==> old(self)@.advanced(
                final(self)@,
                old(self).text(),
            ),
        decreases depth, 22nat, remaining(old(self).text(), old(self)@),
    {
        let ghost text = self.text();
        let ghost cfg = self.config();
        let ghost s0 = self@;
        let ghost d = depth as nat;
        proof {
            lemma_call_arguments(text, cfg, s0, d);
        }
        proof {
            self.lemma_wf();
        }
        self.enter(Frame::Paren);
        self.bump();
        let ghost inside = s0.entered(Frame::Paren).bumped(text);
        assert(self@ == inside);
        let items = self.parse_arguments(depth);
        let ghost inner = arguments(text, cfg, inside, d, Seq::empty());
        assert(self@ == inner.state && items@ == inner.items);
        self.expect(Kind::RParen, Problem::ExpectedRParen);
        self.leave();
        assert(self@ == expect(text, inner.state, Kind::RParen, Problem::ExpectedRParen).left());
        assert(self@.frames =~= s0.frames);
        proof {
            self.lemma_wf();
        }
        items
    }

    fn call_children(head: Vec<NodeId>, args: &Vec<NodeId>) -> (children: Vec<NodeId>)
        ensures
            children@ == head@ + args@,
    {
        let mut children = head;
        let mut i: usize = 0;
        while i < args.len()
            invariant
                i <= args@.len(),
                children@ == head@ + args@.take(i as int),
            decreases args@.len() - i,
        {
            children.push(args[i]);
            i += 1;
            assert(children@ =~= head@ + args@.take(i as int));
        }
        assert(args@.take(i as int) =~= args@);
        children
    }

    fn parse_postfix_rest(&mut self, depth: u32, base: NodeId, start: u32) -> (id: NodeId)
        requires
            old(self).wf(),
            start <= old(self).text().len(),
            base < old(self)@.nodes.len(),
        ensures
            final(self).moved(old(self)),
            final(self)@ == postfix_rest(old(self).text(), old(self).config(), old(self)@, depth as nat, base, start).state,
            id == postfix_rest(old(self).text(), old(self).config(), old(self)@, depth as nat, base, start).node,
            id < final(self)@.nodes.len(),
        decreases depth, 14nat, remaining(old(self).text(), old(self)@),
    {
        let ghost text = self.text();
        let ghost cfg = self.config();
        let ghost d = depth as nat;
        let mut node = base;
        loop
            invariant
                start <= self.text().len(),
                self.moved(old(self)),
                text == self.text(),
                cfg == self.config(),
                d == depth as nat,
                node < self@.nodes.len(),
                postfix_rest(text, cfg, old(self)@, d, base, start) == postfix_rest(
                    text,
                    cfg,
                    self@,
                    d,
                    node,
                    start,
                ),
            decreases remaining(self.text(), self@),
        {
            proof {
                self.lemma_wf();
            }
            let ghost s = self@;
            proof {
                lemma_postfix_rest(text, cfg, s, d, node, start);
            }
            let k = self.kind();
            if k == Kind::Dot {
                self.bump();
                let ghost s1 = s.bumped(text);
                assert(self@ == s1);
                let property = if is_name(self.kind()) {
                    self.leaf(NodeKind::Identifier)
                } else {
                    self.error_here(Problem::UnexpectedToken)
                };
                let ghost p = if spec_is_name(s1.current.kind) {
                    s1.with_leaf(text, NodeKind::Identifier)
                } else {
                    error_here(s1, Problem::UnexpectedToken)
                };
                assert(self@ == p.state && property == p.node);
                let end = self.end_from(start);
                let children = vec![node, property];
                assert(children@ =~= seq![node, property]);
                let ghost old_node = node;
                node = self.add_node(NodeKind::MemberExpression, start, end, &children);
                let ghost made = p.state.with_node(
                    NodeKind::MemberExpression,
                    start,
                    end,
                    seq![old_node, property],
                );
                assert(self@ == made.state && node == made.node);
                proof {
                    self.lemma_wf();
                }
                assert(s.advanced(made.state, text));
            } else if k == Kind::LParen {
                if depth == 0 {
                    return self.too_deep();
                }
                let args = self.parse_call_arguments(depth - 1);
                let ghost a = call_arguments(text, cfg, s, (d - 1) as nat);
                assert(self@ == a.state && args@ == a.items);
                let children = Self::call_children(vec![node], &args);
                assert(children@ =~= seq![node] + a.items);
                let end = self.end_from(start);
                let ghost old_node = node;
                node = self.add_node(NodeKind::CallExpression, start, end, &children);
                let ghost made = a.state.with_node(
                    NodeKind::CallExpression,
                    start,
                    end,
                    seq![old_node] + a.items,
                );
                assert(self@ == made.state && node == made.node);
                proof {
                    self.lemma_wf();
                }
                assert(s.advanced(made.state, text));
            } else if self.settings().typescript && (k == Kind::LAngle || k == Kind::ShiftLeft)
                && depth > 0 {
                let tried = self.try_type_arguments(depth - 1);
                let ghost t = try_type_arguments(text, cfg, s, (d - 1) as nat);
                assert(self@ == t.state && tried == t.node);
                match tried {
                    Some(targs) => {
                        let args = self.parse_call_arguments(depth - 1);
                        let ghost a = call_arguments(text, cfg, t.state, (d - 1) as nat);
                        assert(self@ == a.state && args@ == a.items);
                        let children = Self::call_children(vec![node, targs], &args);
                        assert(children@ =~= seq![node, targs] + a.items);
                        let end = self.end_from(start);
                        let ghost old_node = node;
                        node = self.add_node(NodeKind::CallExpression, start, end, &children);
                        let ghost made = a.state.with_node(
                            NodeKind::CallExpression,
                            start,
                            end,
                            seq![old_node, targs] + a.items,
                        );
                        assert(self@ == made.state && node == made.node);
                        proof {
                            self.lemma_wf();
                        }
                        assert(s.advanced(made.state, text));
                    },
                    None => {
                        return node;
                    },
                }
            } else {
                return node;
            }
        }
    }

    fn parse_postfix(&mut self, depth: u32) -> (id: NodeId)
        requires
            old(self).wf(),
        ensures
            final(self).moved(old(self)),
            final(self)@ == postfix(old(self).text(), old(self).config(), old(self)@, depth as nat).state,
            id == postfix(old(self).text(), old(self).config(), old(self)@, depth as nat).node,
            id < final(self)@.nodes.len(),
        decreases depth, 15nat, remaining(old(self).text(), old(self)@),
    {
        let ghost text = self.text();
        let ghost cfg = self.config();
        let ghost s0 = self@;
        let ghost d = depth as nat;
        proof {
            lemma_postfix(text, cfg, s0, d);
        }
        let start = self.token().start;
        let base = self.parse_primary(depth);
        let ghost b = primary(text, cfg, s0, d);
        assert(self@ == b.state && base == b.node);
        let id = self.parse_postfix_rest(depth, base, start);
        let ghost r = postfix_rest(text, cfg, b.state, d, b.node, start);
        assert(self@ == r.state && id == r.node);
        id
    }

    fn parse_unary(&mut self, depth: u32) -> (id: NodeId)
        requires
            old(self).wf(),
        ensures
            final(self).moved(old(self)),
            final(self)@ == unary(old(self).text(), old(self).config(), old(self)@, depth as nat).state,
            id == unary(old(self).text(), old(self).config(), old(self)@, depth as nat).node,
            id < final(self)@.nodes.len(),
        decreases depth, 16nat, remaining(old(self).text(), old(self)@),
    {
        let ghost text = self.text();
        let ghost cfg = self.config();
        let ghost s0 = self@;
        let ghost d = depth as nat;
        proof {
            lemma_unary(text, cfg, s0, d);
        }
        let t = self.token();
        if is_unary(t.kind) {
            if depth == 0 {
                return self.too_deep();
            }
            self.bump();
            assert(self@ == s0.bumped(text));
            let operand = self.parse_unary(depth - 1);
            let ghost o = unary(text, cfg, s0.bumped(text), (d - 1) as nat);
            assert(self@ == o.state && operand == o.node);
            let end = self.end_from(t.start);
            let children = vec![operand];
            assert(children@ =~= seq![operand]);
            let id = self.add_node(NodeKind::UnaryExpression(t.kind), t.start, end, &children);
            let ghost made = o.state.with_node(
                NodeKind::UnaryExpression(t.kind),
                t.start,
                end,
                seq![operand],
            );
            assert(self@ == made.state && id == made.node);
            id
        } else {
            let id = self.parse_postfix(depth);
            let ghost p = postfix(text, cfg, s0, d);
            assert(self@ == p.state && id == p.node);
            id
        }
    }

    fn parse_binary_rest(&mut self, depth: u32, min_prec: u8, first: NodeId, start: u32) -> (id:
        NodeId)
        requires
            old(self).wf(),
            start <= old(self).text().len(),
            first < old(self)@.nodes.len(),
            min_prec <= 11,
        ensures
            final(self).moved(old(self)),
            final(self)@ == binary_rest(old(self).text(), old(self).config(), old(self)@, depth as nat, min_prec as nat, first, start).state,
            id == binary_rest(old(self).text(), old(self).config(), old(self)@, depth as nat, min_prec as nat, first, start).node,
            id < final(self)@.nodes.len(),
        decreases depth, 17nat, remaining(old(self).text(), old(self)@),
    {
        let ghost text = self.text();
        let ghost cfg = self.config();
        let ghost d = depth as nat;
        let ghost m = min_prec as nat;
        let mut left = first;
        loop
            invariant
                start <= self.text().len(),
                self.moved(old(self)),
                text == self.text(),
                cfg == self.config(),
                d == depth as nat,
                m == min_prec as nat,
                left < self@.nodes.len(),
                min_prec <= 11,
                binary_rest(text, cfg, old(self)@, d, m, first, start) == binary_rest(
                    text,
                    cfg,
                    self@,
                    d,
                    m,
                    left,
                    start,
                ),
            decreases remaining(self.text(), self@),
        {
            proof {
                self.lemma_wf();
            }
            let ghost s = self@;
            proof {
                lemma_binary_rest(text, cfg, s, d, m, left, start);
            }
            let op = self.kind();
            let p = binary_precedence(op);
            if p == 0 || p < min_prec {
                return left;
            }
            if depth == 0 {
                return self.too_deep();
            }
            self.bump();
            assert(self@ == s.bumped(text));
            let right = self.parse_binary(depth - 1, p + 1);
            let ghost r = binary(text, cfg, s.bumped(text), (d - 1) as nat, (p + 1) as nat);
            assert(self@ == r.state && right == r.node);
            let end = self.end_from(start);
            let children = vec![left, right];
            assert(children@ =~= seq![left, right]);
            let ghost old_left = left;
            left = self.add_node(NodeKind::BinaryExpression(op), start, end, &children);
            let ghost made = r.state.with_node(
                NodeKind::BinaryExpression(op),
                start,
                end,
                seq![old_left, right],
            );
            assert(self@ == made.state && left == made.node);
            proof {
                self.lemma_wf();
            }
            assert(s.advanced(made.state, text));
        }
    }

    fn parse_binary(&mut self, depth: u32, min_prec: u8) -> (id: NodeId)
        requires
            old(self).wf(),
            min_prec <= 11,
        ensures
            final(self).moved(old(self)),
            final(self)@ == binary(old(self).text(), old(self).config(), old(self)@, depth as nat, min_prec as nat).state,
            id == binary(old(self).text(), old(self).config(), old(self)@, depth as nat, min_prec as nat).node,
            id < final(self)@.nodes.len(),
        decreases depth, 18nat, remaining(old(self).text(), old(self)@),
    {
        let ghost text = self.text();
        let ghost cfg = self.config();
        let ghost s0 = self@;
        let ghost d = depth as nat;
        proof {
            lemma_binary(text, cfg, s0, d, min_prec as nat);
        }
        let start = self.token().start;
        let left = self.parse_unary(depth);
        let ghost l = unary(text, cfg, s0, d);
        assert(self@ == l.state && left == l.node);
        let id = self.parse_binary_rest(depth, min_prec, left, start);
        let ghost r = binary_rest(text, cfg, l.state, d, min_prec as nat, l.node, start);
        assert(self@ == r.state && id == r.node);
        id
    }

    fn parse_assign(&mut self, depth: u32) -> (id: NodeId)
        requires
            old(self).wf(),
        ensures
            final(self).moved(old(self)),
            final(self)@ == assign(old(self).text(), old(self).config(), old(self)@, depth as nat).state,
            id == assign(old(self).text(), old(self).config(), old(self)@, depth as nat).node,
            id < final(self)@.nodes.len(),
        decreases depth, 19nat, remaining(old(self).text(), old(self)@),
    {
        let ghost text = self.text();
        let ghost cfg = self.config();
        let ghost s0 = self@;
        let ghost d = depth as nat;
        proof {
            lemma_assign(text, cfg, s0, d);
        }
        let start = self.token().start;
        let left = self.parse_binary(depth, 1);
        let ghost l = binary(text, cfg, s0, d, 1);
        assert(self@ == l.state && left == l.node);
        if self.kind() == Kind::Eq {
            if depth == 0 {
                return self.too_deep();
            }
            self.bump();
            assert(self@ == l.state.bumped(text));
            let value = self.parse_assign(depth - 1);
            let ghost v = assign(text, cfg, l.state.bumped(text), (d - 1) as nat);
            assert(self@ == v.state && value == v.node);
            let end = self.end_from(start);
            let children = vec![left, value];
            assert(children@ =~= seq![left, value]);
            let id = self.add_node(NodeKind::AssignmentExpression, start, end, &children);
            let ghost made = v.state.with_node(
                NodeKind::AssignmentExpression,
                start,
                end,
                seq![left, value],
            );
            assert(self@ == made.state && id == made.node);
            id
        } else {
            left
        }
    }

    fn parse_statement(&mut self, depth: u32) -> (id: NodeId)
        requires
            old(self).wf(),
        ensures
            final(self).moved(old(self)),
            final(self)@ == statement(old(self).text(), old(self).config(), old(self)@, depth as nat).state,
            id == statement(old(self).text(), old(self).config(), old(self)@, depth as nat).node,
            id < final(self)@.nodes.len(),
        decreases depth, 29nat, remaining(old(self).text(), old(self)@),
    {
        let ghost text = self.text();
        let ghost cfg = self.config();
        let ghost s0 = self@;
        let ghost d = depth as nat;
        proof {
            lemma_statement(text, cfg, s0, d);
        }
        let t = self.token();
        let start = t.start;
        match t.kind {
            Kind::Semicolon => self.leaf(NodeKind::EmptyStatement),
            Kind::LCurly => {
                if depth == 0 {
                    self.too_deep()
                } else {
                    self.enter(Frame::Block);
                    self.bump();
                    let ghost inside = s0.entered(Frame::Block).bumped(text);
                    assert(self@ == inside);
                    let items = self.parse_statements(depth - 1, true);
                    let ghost inner = statements(text, cfg, inside, (d - 1) as nat, true, Seq::empty());
                    assert(self@ == inner.state && items@ == inner.items);
                    self.expect(Kind::RCurly, Problem::ExpectedRCurly);
                    self.leave();
                    let ghost closed = expect(text, inner.state, Kind::RCurly, Problem::ExpectedRCurly).left();
                    assert(self@ == closed);
                    assert(self@.frames =~= s0.frames);
                    let end = self.end_from(start);
                    let id = self.add_node(NodeKind::BlockStatement, start, end, &items);
                    let ghost made = closed.with_node(NodeKind::BlockStatement, start, end, inner.items);
                    assert(self@ == made.state && id == made.node);
                    id
                }
            },
            Kind::Let | Kind::Const | Kind::Var => {
                self.bump();
                let ghost s1 = s0.bumped(text);
                assert(self@ == s1);
                let name = if self.kind() == Kind::Ident {
                    self.leaf(NodeKind::Identifier)
                } else {
                    self.error_here(Problem::ExpectedBindingName)
                };
                let ghost n = if s1.current.kind == Kind::Ident {
                    s1.with_leaf(text, NodeKind::Identifier)
                } else {
                    error_here(s1, Problem::ExpectedBindingName)
                };
                assert(self@ == n.state && name == n.node);
                let mut children = vec![name];
                assert(children@ =~= seq![name]);
                let ghost init: Attempt;
                if self.kind() == Kind::Eq {
                    self.bump();
                    assert(self@ == n.state.bumped(text));
                    let value = self.parse_assign(depth);
                    let ghost v = assign(text, cfg, n.state.bumped(text), d);
                    assert(self@ == v.state && value == v.node);
                    children.push(value);
                    proof {
                        init = Attempt { state: v.state, node: Some(v.node) };
                    }
                    assert(children@ =~= seq![name] + optional(init.node));
                } else {
                    proof {
                        init = Attempt { state: n.state, node: None };
                    }
                    assert(children@ =~= seq![name] + optional(init.node));
                }
                assert(self@ == init.state);
                self.semi();
                let ghost done = semi(text, init.state);
                assert(self@ == done);
                let end = self.end_from(start);
                let id = self.add_node(NodeKind::VariableDeclaration(t.kind), start, end, &children);
                let ghost made = done.with_node(
                    NodeKind::VariableDeclaration(t.kind),
                    start,
                    end,
                    seq![name] + optional(init.node),
                );
                assert(self@ == made.state && id == made.node);
                id
            },
            Kind::Return => {
                self.bump();
                let ghost s1 = s0.bumped(text);
                assert(self@ == s1);
                let mut children: Vec<NodeId> = Vec::new();
                let ghost argument: Attempt;
                if !ends_statement(self.token()) {
                    let value = self.parse_assign(depth);
                    let ghost v = assign(text, cfg, s1, d);
                    assert(self@ == v.state && value == v.node);
                    children.push(value);
                    proof {
                        argument = Attempt { state: v.state, node: Some(v.node) };
                    }
                    assert(children@ =~= optional(argument.node));
                } else {
                    proof {
                        argument = Attempt { state: s1, node: None };
                    }
                    assert(children@ =~= optional(argument.node));
                }
                assert(self@ == argument.state);
                self.semi();
                let ghost done = semi(text, argument.state);
                assert(self@ == done);
                let end = self.end_from(start);
                let id = self.add_node(NodeKind::ReturnStatement, start, end, &children);
                let ghost made = done.with_node(
                    NodeKind::ReturnStatement,
                    start,
                    end,
                    optional(argument.node),
                );
                assert(self@ == made.state && id == made.node);
                id
            },
            _ => {
                let e = self.parse_assign(depth);
                let ghost v = assign(text, cfg, s0, d);
                assert(self@ == v.state && e == v.node);
                self.semi();
                let ghost done = semi(text, v.state);
                assert(self@ == done);
                let end = self.end_from(start);
                let children = vec![e];
                assert(children@ =~= seq![e]);
                let id = self.add_node(NodeKind::ExpressionStatement, start, end, &children);
                let ghost made = done.with_node(NodeKind::ExpressionStatement, start, end, seq![e]);
                assert(self@ == made.state && id == made.node);
                id
            },
        }
    }

    fn parse_statements(&mut self, depth: u32, in_block: bool) -> (items: Vec<NodeId>)
        requires
            old(self).wf(),
        ensures
            final(self).moved(old(self)),
            final(self)@ == statements(old(self).text(), old(self).config(), old(self)@, depth as nat, in_block, Seq::empty()).state,
            items@ == statements(old(self).text(), old(self).config(), old(self)@, depth as nat, in_block, Seq::empty()).items,
            all_below(items@, final(self)@.nodes.len()),
        decreases depth, 30nat, remaining(old(self).text(), old(self)@),
    {
        let ghost text = self.text();
        let ghost cfg = self.config();
        let ghost d = depth as nat;
        let mut items: Vec<NodeId> = Vec::new();
        loop
            invariant
                self.moved(old(self)),
                text == self.text(),
                cfg == self.config(),
                d == depth as nat,
                all_below(items@, self@.nodes.len()),
                statements(text, cfg, old(self)@, d, in_block, Seq::empty()) == statements(
                    text,
                    cfg,
                    self@,
                    d,
                    in_block,
                    items@,
                ),
            decreases remaining(self.text(), self@),
        {
            proof {
                self.lemma_wf();
            }
            let ghost s = self@;
            proof {
                lemma_statements(text, cfg, s, d, in_block, items@);
            }
            let t = self.token();
            if t.kind == Kind::Eof || (in_block && t.kind == Kind::RCurly) {
                return items;
            }
            let one = self.parse_statement(depth);
            let ghost o = statement(text, cfg, s, d);
            assert(self@ == o.state && one == o.node);
            items.push(one);
            proof {
                self.lemma_wf();
            }
            if self.token().start == t.start {
                self.bump();
                assert(self@ == o.state.bumped(text));
            }
            proof {
                self.lemma_wf();
            }
            assert(s.advanced(self@, text));
        }
    }
}

/// What a parse yields, as values: the arena, the root, the diagnostics.
pub struct Parsed {
    pub nodes: Seq<Node>,
    pub links: Seq<NodeId>,
    pub root: NodeId,
    pub diagnostics: Seq<Diagnostic>,
}

/// What `Parser::parse` returns: the tree and the recoverable errors met
/// on the way, in the order they were raised.
#[derive(Debug, PartialEq, Eq)]
pub struct ParserReturn {
    pub program: Ast,
    pub errors: Vec<Diagnostic>,
}

impl View for ParserReturn {
    type V = Parsed;

    open spec fn view(&self) -> Parsed {
        Parsed {
            nodes: self.program.nodes@,
            links: self.program.links@,
            root: self.program.root,
            diagnostics: self.errors@,
        }
    }
}

/// The parse of `text` under `cfg`: what the rule `Program` yields.
pub open spec fn parsed(text: Seq<u8>, cfg: Config) -> Parsed {
    let p = program(text, cfg);
    Parsed {
        nodes: p.state.nodes,
        links: p.state.links,
        root: p.node,
        diagnostics: p.state.diagnostics,
    }
}

impl<'a> Parser<'a> {
    /// Parses the whole text. The result is the one that the grammar gives
    /// for the text and the settings, whatever the text holds: malformed
    /// forms are reported and stood in for, never refused. The tree is in
    /// order, every node and every diagnostic lies in the text, the
    /// diagnostics come in source order, and every frame that was entered
    /// has been left.
    pub fn parse(self) -> (r: ParserReturn)
        requires
            self.wf(),
            self@ == initial_state(self.text()),
        ensures
            r@ == parsed(self.text(), self.config()),
            r.program.wf(),
            spans_ok(r.program.nodes@, self.text().len() as int),
            all_in_bounds(r.errors@, self.text().len() as int),
            in_source_order(r.errors@),
            program(self.text(), self.config()).state.frames == initial_state(self.text()).frames,
    {
        let mut parser = self;
        let items = parser.parse_statements(MAX_DEPTH, false);
        let len = parser.text_len();
        let root = parser.add_node(NodeKind::Program, 0, len, &items);
        let (nodes, links, errors) = parser.finish();
        ParserReturn { program: Ast { nodes, links, root }, errors }
    }
}

/// Parses `source` as a text of the given classification.
pub fn parse_source(source: &str, source_type: SourceType, preserve_parens: bool) -> (r:
    ParserReturn)
    requires
        source.spec_bytes().len() <= u32::MAX,
    ensures
        r@ == parsed(
            source.spec_bytes(),
            Config { typescript: source_type.spec_is_typescript(), preserve_parens },
        ),
        r.program.wf(),
        spans_ok(r.program.nodes@, source.spec_bytes().len() as int),
        all_in_bounds(r.errors@, source.spec_bytes().len() as int),
        in_source_order(r.errors@),
{
    Parser::new(source, source_type).preserve_parens(preserve_parens).parse()
}

/// Parses the text of `buffer` as what the buffer takes it to be.
pub fn parse_buffer(buffer: &SourceBuffer, preserve_parens: bool) -> (r: ParserReturn)
    requires
        buffer.bytes().len() <= u32::MAX,
    ensures
        r@ == parsed(
            buffer.bytes(),
            Config { typescript: buffer.kind().spec_is_typescript(), preserve_parens },
        ),
        r.program.wf(),
        spans_ok(r.program.nodes@, buffer.bytes().len() as int),
        all_in_bounds(r.errors@, buffer.bytes().len() as int),
        in_source_order(r.errors@),
{
    parse_source(buffer.text(), buffer.source_type(), preserve_parens)
}

/// Parsing is a function of the text and the settings: two parses of the
/// same input yield the same tree and the same diagnostics, span for span
/// and in the same order.
pub proof fn lemma_parse_deterministic(first: Parsed, second: Parsed, text: Seq<u8>, cfg: Config)
    requires
        first == parsed(text, cfg),
        second == parsed(text, cfg),
    ensures
        first.diagnostics == second.diagnostics,
        first.nodes == second.nodes,
        first.links == second.links,
        first.root == second.root,
{
}

} // verus!

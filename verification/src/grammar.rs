//! The grammar, stated as functions from a parse state to the state behind
//! what a rule reads and the node it makes.
//!
//! ```text
//! Program    := Statement*
//! Statement  := ';' | '{' Statement* '}' | ('let'|'const'|'var') Ident ('=' Assign)? Semi
//!             | 'return' Assign? Semi | Assign Semi
//! Assign     := Binary ('=' Assign)?
//! Binary     := Unary (BinaryOp Binary)*          by precedence, left to right
//! Unary      := ('!'|'-'|'+'|'~') Unary | Postfix
//! Postfix    := Primary ('.' Name | '(' Args ')' | TypeArgs '(' Args ')')*
//! Primary    := Ident | Number | String | 'true' | 'false' | 'null' | Regex
//!             | Template | '(' Assign ')'
//! TypeArgs   := '<' Type (',' Type)* '>'
//! Type       := Ident TypeArgs?
//! ```
//!
//! Every rule takes a nesting budget `depth`; a construct nested deeper is
//! reported and skipped. Rules that repeat stop as soon as a round reads
//! nothing, so every rule ends.

use vstd::prelude::*;
use crate::ast::{NodeId, NodeKind};
use crate::diagnostics::Problem;
use crate::lexer::DisambiguationHint;
use crate::state::{Attempt, Config, Frame, Gathered, ParseState, Step, initial_state};
use crate::token::{Kind, Token};

verus! {

/// How deep constructs may nest.
pub const MAX_DEPTH: u32 = 256;

/// Binding strength of an infix operator, 0 for every other token.
pub open spec fn spec_binary_precedence(kind: Kind) -> nat {
    match kind {
        Kind::Pipe2 | Kind::Question2 => 1,
        Kind::Amp2 => 2,
        Kind::Pipe => 3,
        Kind::Caret => 4,
        Kind::Amp => 5,
        Kind::Eq2 | Kind::Neq | Kind::Eq3 | Kind::Neq2 => 6,
        Kind::LAngle | Kind::RAngle | Kind::LtEq | Kind::GtEq => 7,
        Kind::ShiftLeft | Kind::ShiftRight | Kind::ShiftRight3 => 8,
        Kind::Plus | Kind::Minus => 9,
        Kind::Star | Kind::Slash | Kind::Percent => 10,
        _ => 0,
    }
}

/// A prefix operator.
pub open spec fn spec_is_unary(kind: Kind) -> bool {
    kind == Kind::Bang || kind == Kind::Minus || kind == Kind::Plus || kind == Kind::Tilde
}

/// A token that can name a property: an identifier or a reserved word.
pub open spec fn spec_is_name(kind: Kind) -> bool {
    kind == Kind::Ident || kind == Kind::Return || kind == Kind::Let || kind == Kind::Const
        || kind == Kind::Var || kind == Kind::True || kind == Kind::False || kind == Kind::Null
}

/// A token at which error recovery stops: it is left for the enclosing
/// construct.
pub open spec fn spec_is_boundary(kind: Kind) -> bool {
    kind == Kind::Eof || kind == Kind::Semicolon || kind == Kind::RCurly || kind == Kind::RParen
        || kind == Kind::Comma
}

/// A statement may end before `token` without a semicolon: the token is a
/// `;`, a `}` or the end of the text, or a line terminator stands before it.
pub open spec fn spec_ends_statement(token: Token) -> bool {
    token.kind == Kind::Semicolon || token.kind == Kind::RCurly || token.kind == Kind::Eof
        || token.is_on_new_line
}

/// Bytes between the current token and the end of the text.
pub open spec fn remaining(text: Seq<u8>, s: ParseState) -> int {
    text.len() - s.current.start
}

/// Where a node that started at `start` ends: behind the last token read,
/// or at `start` where none was.
pub open spec fn span_end(start: u32, s: ParseState) -> u32 {
    if s.prev_end < start {
        start
    } else {
        s.prev_end
    }
}

/// Zero or one handle as a list.
pub open spec fn optional(node: Option<NodeId>) -> Seq<NodeId> {
    match node {
        Some(id) => seq![id],
        None => Seq::empty(),
    }
}

/// An error node over the current token, which is left where it is.
pub open spec fn error_here(s: ParseState, problem: Problem) -> Step {
    s.reported(problem).with_node(NodeKind::Error, s.current.start, s.current.end, Seq::empty())
}

/// What becomes of a construct nested too deep: it is reported, an error
/// node stands for it, and its first token is skipped.
pub open spec fn too_deep(text: Seq<u8>, s: ParseState) -> Step {
    let made = error_here(s, Problem::NestingTooDeep);
    Step { state: made.state.bumped(text), node: made.node }
}

/// What becomes of a token where an expression should start: it is
/// reported, an error node stands for it, and it is skipped unless recovery
/// stops at it.
pub open spec fn unexpected(text: Seq<u8>, s: ParseState) -> Step {
    let made = error_here(s, Problem::UnexpectedToken);
    if spec_is_boundary(s.current.kind) {
        made
    } else {
        Step { state: made.state.bumped(text), node: made.node }
    }
}

/// Reads the token `kind`, or reports `problem` where another token stands.
pub open spec fn expect(text: Seq<u8>, s: ParseState, kind: Kind, problem: Problem) -> ParseState {
    if s.current.kind == kind {
        s.bumped(text)
    } else {
        s.reported(problem)
    }
}

/// The end of a statement: a `;` is read; before a `}`, the end of the text
/// or a token on a new line the semicolon is understood; anything else is
/// reported.
pub open spec fn semi(text: Seq<u8>, s: ParseState) -> ParseState {
    if s.current.kind == Kind::Semicolon {
        s.bumped(text)
    } else if spec_ends_statement(s.current) {
        s
    } else {
        s.reported(Problem::ExpectedSemicolon)
    }
}

/// `Type := Ident TypeArgs?`. Fails, reading nothing, where no identifier
/// stands.
#[verifier::opaque]
pub open spec fn type_reference(text: Seq<u8>, cfg: Config, s: ParseState, depth: nat) -> Attempt
    decreases depth, 6nat, remaining(text, s),
{
    if s.current.kind != Kind::Ident {
        Attempt { state: s, node: None }
    } else {
        let start = s.current.start;
        let name = s.with_leaf(text, NodeKind::Identifier);
        let k = name.state.current.kind;
        if k == Kind::LAngle || k == Kind::ShiftLeft {
            if depth == 0 {
                Attempt { state: name.state, node: None }
            } else {
                let inner = type_arguments(text, cfg, name.state, (depth - 1) as nat);
                match inner.node {
                    Some(targs) => {
                        let made = inner.state.with_node(
                            NodeKind::TypeReference,
                            start,
                            span_end(start, inner.state),
                            seq![name.node, targs],
                        );
                        Attempt { state: made.state, node: Some(made.node) }
                    },
                    None => Attempt { state: inner.state, node: None },
                }
            }
        } else {
            let made = name.state.with_node(
                NodeKind::TypeReference,
                start,
                span_end(start, name.state),
                seq![name.node],
            );
            Attempt { state: made.state, node: Some(made.node) }
        }
    }
}

/// The rule `type_reference`, unfolded once.
pub proof fn lemma_type_reference(text: Seq<u8>, cfg: Config, s: ParseState, depth: nat)
    ensures
        type_reference(text, cfg, s, depth) == ({
            if s.current.kind != Kind::Ident {
                Attempt { state: s, node: None }
            } else {
                let start = s.current.start;
                let name = s.with_leaf(text, NodeKind::Identifier);
                let k = name.state.current.kind;
                if k == Kind::LAngle || k == Kind::ShiftLeft {
                    if depth == 0 {
                        Attempt { state: name.state, node: None }
                    } else {
                        let inner = type_arguments(text, cfg, name.state, (depth - 1) as nat);
                        match inner.node {
                            Some(targs) => {
                                let made = inner.state.with_node(
                                    NodeKind::TypeReference,
                                    start,
                                    span_end(start, inner.state),
                                    seq![name.node, targs],
                                );
                                Attempt { state: made.state, node: Some(made.node) }
                            },
                            None => Attempt { state: inner.state, node: None },
                        }
                    }
                } else {
                    let made = name.state.with_node(
                        NodeKind::TypeReference,
                        start,
                        span_end(start, name.state),
                        seq![name.node],
                    );
                    Attempt { state: made.state, node: Some(made.node) }
                }
            }
        }),
{
    reveal(type_reference);
    reveal(type_arguments);
}

/// `Type (',' Type)*`, gathered behind `acc`.
#[verifier::opaque]
pub open spec fn type_list(
    text: Seq<u8>,
    cfg: Config,
    s: ParseState,
    depth: nat,
    acc: Seq<NodeId>,
) -> Gathered
    decreases depth, 7nat, remaining(text, s),
{
    let t = type_reference(text, cfg, s, depth);
    match t.node {
        None => Gathered { state: t.state, items: acc, ok: false },
        Some(id) => {
            if t.state.current.kind == Kind::Comma {
                let next = t.state.bumped(text);
                if s.advanced(next, text) {
                    type_list(text, cfg, next, depth, acc.push(id))
                } else {
                    Gathered { state: next, items: acc.push(id), ok: false }
                }
            } else {
                Gathered { state: t.state, items: acc.push(id), ok: true }
            }
        },
    }
}

/// The rule `type_list`, unfolded once.
pub proof fn lemma_type_list(
    text: Seq<u8>,
    cfg: Config,
    s: ParseState,
    depth: nat,
    acc: Seq<NodeId>,
)
    ensures
        type_list(text, cfg, s, depth, acc) == ({
            let t = type_reference(text, cfg, s, depth);
            match t.node {
                None => Gathered { state: t.state, items: acc, ok: false },
                Some(id) => {
                    if t.state.current.kind == Kind::Comma {
                        let next = t.state.bumped(text);
                        if s.advanced(next, text) {
                            type_list(text, cfg, next, depth, acc.push(id))
                        } else {
                            Gathered { state: next, items: acc.push(id), ok: false }
                        }
                    } else {
                        Gathered { state: t.state, items: acc.push(id), ok: true }
                    }
                },
            }
        }),
{
    reveal(type_list);
    reveal(type_reference);
}

/// `'<' Type (',' Type)* '>'`. A compound operator that starts with `<` is
/// split first, and one that starts with `>` is split where the list should
/// close. The rule fails where the brackets or a type are missing; the
/// frame it entered is left either way.
#[verifier::opaque]
pub open spec fn type_arguments(text: Seq<u8>, cfg: Config, s: ParseState, depth: nat) -> Attempt
    decreases depth, 8nat, remaining(text, s),
{
    let start = s.current.start;
    let opened = s.relexed(text, DisambiguationHint::TypeScriptLAngle);
    if opened.current.kind != Kind::LAngle {
        Attempt { state: opened, node: None }
    } else {
        let list = type_list(
            text,
            cfg,
            opened.entered(Frame::TypeArguments).bumped(text),
            depth,
            Seq::empty(),
        );
        let closing = list.state.relexed(text, DisambiguationHint::TypeScriptRAngle);
        if list.ok && closing.current.kind == Kind::RAngle {
            let closed = closing.bumped(text).left();
            let made = closed.with_node(
                NodeKind::TypeArguments,
                start,
                span_end(start, closed),
                list.items,
            );
            Attempt { state: made.state, node: Some(made.node) }
        } else {
            Attempt { state: closing.left(), node: None }
        }
    }
}

/// The rule `type_arguments`, unfolded once.
#[verifier::rlimit(100)]
pub proof fn lemma_type_arguments(text: Seq<u8>, cfg: Config, s: ParseState, depth: nat)
    ensures
        type_arguments(text, cfg, s, depth) == ({
            let start = s.current.start;
            let opened = s.relexed(text, DisambiguationHint::TypeScriptLAngle);
            if opened.current.kind != Kind::LAngle {
                Attempt { state: opened, node: None }
            } else {
                let list = type_list(
                    text,
                    cfg,
                    opened.entered(Frame::TypeArguments).bumped(text),
                    depth,
                    Seq::empty(),
                );
                let closing = list.state.relexed(text, DisambiguationHint::TypeScriptRAngle);
                if list.ok && closing.current.kind == Kind::RAngle {
                    let closed = closing.bumped(text).left();
                    let made = closed.with_node(
                        NodeKind::TypeArguments,
                        start,
                        span_end(start, closed),
                        list.items,
                    );
                    Attempt { state: made.state, node: Some(made.node) }
                } else {
                    Attempt { state: closing.left(), node: None }
                }
            }
        }),
{
    reveal(type_arguments);
    reveal(type_list);
}

/// Type arguments in an expression: they stand only where a call follows.
/// Otherwise everything read is given back, and the `<` is left to be an
/// operator.
#[verifier::opaque]
pub open spec fn try_type_arguments(text: Seq<u8>, cfg: Config, s: ParseState, depth: nat) -> Attempt
    decreases depth, 9nat, remaining(text, s),
{
    let tried = type_arguments(text, cfg, s, depth);
    if tried.node is Some && tried.state.current.kind == Kind::LParen {
        tried
    } else {
        Attempt { state: tried.state.restored(s.mark()), node: None }
    }
}

/// The rule `try_type_arguments`, unfolded once.
pub proof fn lemma_try_type_arguments(text: Seq<u8>, cfg: Config, s: ParseState, depth: nat)
    ensures
        try_type_arguments(text, cfg, s, depth) == ({
            let tried = type_arguments(text, cfg, s, depth);
            if tried.node is Some && tried.state.current.kind == Kind::LParen {
                tried
            } else {
                Attempt { state: tried.state.restored(s.mark()), node: None }
            }
        }),
{
    reveal(try_type_arguments);
    reveal(type_arguments);
}

/// `Primary`.
#[verifier::opaque]
pub open spec fn primary(text: Seq<u8>, cfg: Config, s: ParseState, depth: nat) -> Step
    decreases depth, 13nat, remaining(text, s),
{
    let start = s.current.start;
    match s.current.kind {
        Kind::Ident => s.with_leaf(text, NodeKind::Identifier),
        Kind::Number => s.with_leaf(text, NodeKind::NumericLiteral),
        Kind::Str => s.with_leaf(text, NodeKind::StringLiteral),
        Kind::True | Kind::False => s.with_leaf(text, NodeKind::BooleanLiteral),
        Kind::Null => s.with_leaf(text, NodeKind::NullLiteral),
        Kind::Slash | Kind::SlashEq => s.relexed(text, DisambiguationHint::Regex).with_leaf(
            text,
            NodeKind::RegExpLiteral,
        ),
        Kind::NoSubstitutionTemplate => {
            let quasi = s.with_leaf(text, NodeKind::TemplateElement);
            quasi.state.with_node(
                NodeKind::TemplateLiteral,
                start,
                span_end(start, quasi.state),
                seq![quasi.node],
            )
        },
        Kind::TemplateHead => if depth == 0 {
            too_deep(text, s)
        } else {
            let quasi = s.entered(Frame::TemplateSubstitution).with_leaf(
                text,
                NodeKind::TemplateElement,
            );
            template_rest(text, cfg, quasi.state, (depth - 1) as nat, seq![quasi.node], start)
        },
        Kind::LParen => if depth == 0 {
            too_deep(text, s)
        } else {
            let inner = assign(text, cfg, s.entered(Frame::Paren).bumped(text), (depth - 1) as nat);
            let closed = expect(text, inner.state, Kind::RParen, Problem::ExpectedRParen).left();
            if cfg.preserve_parens {
                closed.with_node(
                    NodeKind::ParenthesizedExpression,
                    start,
                    span_end(start, closed),
                    seq![inner.node],
                )
            } else {
                Step { state: closed, node: inner.node }
            }
        },
        _ => unexpected(text, s),
    }
}

/// The rule `primary`, unfolded once.
#[verifier::rlimit(100)]
pub proof fn lemma_primary(text: Seq<u8>, cfg: Config, s: ParseState, depth: nat)
    ensures
        primary(text, cfg, s, depth) == ({
            let start = s.current.start;
            match s.current.kind {
                Kind::Ident => s.with_leaf(text, NodeKind::Identifier),
                Kind::Number => s.with_leaf(text, NodeKind::NumericLiteral),
                Kind::Str => s.with_leaf(text, NodeKind::StringLiteral),
                Kind::True | Kind::False => s.with_leaf(text, NodeKind::BooleanLiteral),
                Kind::Null => s.with_leaf(text, NodeKind::NullLiteral),
                Kind::Slash | Kind::SlashEq => s.relexed(text, DisambiguationHint::Regex).with_leaf(
                    text,
                    NodeKind::RegExpLiteral,
                ),
                Kind::NoSubstitutionTemplate => {
                    let quasi = s.with_leaf(text, NodeKind::TemplateElement);
                    quasi.state.with_node(
                        NodeKind::TemplateLiteral,
                        start,
                        span_end(start, quasi.state),
                        seq![quasi.node],
                    )
                },
                Kind::TemplateHead => if depth == 0 {
                    too_deep(text, s)
                } else {
                    let quasi = s.entered(Frame::TemplateSubstitution).with_leaf(
                        text,
                        NodeKind::TemplateElement,
                    );
                    template_rest(text, cfg, quasi.state, (depth - 1) as nat, seq![quasi.node], start)
                },
                Kind::LParen => if depth == 0 {
                    too_deep(text, s)
                } else {
                    let inner = assign(text, cfg, s.entered(Frame::Paren).bumped(text), (depth - 1) as nat);
                    let closed = expect(text, inner.state, Kind::RParen, Problem::ExpectedRParen).left();
                    if cfg.preserve_parens {
                        closed.with_node(
                            NodeKind::ParenthesizedExpression,
                            start,
                            span_end(start, closed),
                            seq![inner.node],
                        )
                    } else {
                        Step { state: closed, node: inner.node }
                    }
                },
                _ => unexpected(text, s),
            }
        }),
{
    reveal(primary);
    reveal(assign);
    reveal(template_rest);
}

/// The rest of a template behind a `${`: an expression, then `}` re-lexed
/// as the next piece of the template, and so on up to the closing piece.
/// A substitution that is not closed is reported and ends the template.
#[verifier::opaque]
pub open spec fn template_rest(
    text: Seq<u8>,
    cfg: Config,
    s: ParseState,
    depth: nat,
    acc: Seq<NodeId>,
    start: u32,
) -> Step
    decreases depth, 23nat, remaining(text, s),
{
    let e = assign(text, cfg, s, depth);
    let acc2 = acc.push(e.node);
    if e.state.current.kind == Kind::RCurly {
        let again = e.state.relexed(text, DisambiguationHint::TemplateContinuation);
        let quasi = again.left().with_leaf(text, NodeKind::TemplateElement);
        let next = quasi.state.entered(Frame::TemplateSubstitution);
        if again.current.kind == Kind::TemplateMiddle && s.advanced(next, text) {
            template_rest(text, cfg, next, depth, acc2.push(quasi.node), start)
        } else {
            quasi.state.with_node(
                NodeKind::TemplateLiteral,
                start,
                span_end(start, quasi.state),
                acc2.push(quasi.node),
            )
        }
    } else {
        let failed = e.state.reported(Problem::ExpectedTemplateContinuation).left();
        failed.with_node(NodeKind::TemplateLiteral, start, span_end(start, failed), acc2)
    }
}

/// The rule `template_rest`, unfolded once.
#[verifier::rlimit(100)]
pub proof fn lemma_template_rest(
    text: Seq<u8>,
    cfg: Config,
    s: ParseState,
    depth: nat,
    acc: Seq<NodeId>,
    start: u32,
)
    ensures
        template_rest(text, cfg, s, depth, acc, start) == ({
            let e = assign(text, cfg, s, depth);
            let acc2 = acc.push(e.node);
            if e.state.current.kind == Kind::RCurly {
                let again = e.state.relexed(text, DisambiguationHint::TemplateContinuation);
                let quasi = again.left().with_leaf(text, NodeKind::TemplateElement);
                let next = quasi.state.entered(Frame::TemplateSubstitution);
                if again.current.kind == Kind::TemplateMiddle && s.advanced(next, text) {
                    template_rest(text, cfg, next, depth, acc2.push(quasi.node), start)
                } else {
                    quasi.state.with_node(
                        NodeKind::TemplateLiteral,
                        start,
                        span_end(start, quasi.state),
                        acc2.push(quasi.node),
                    )
                }
            } else {
                let failed = e.state.reported(Problem::ExpectedTemplateContinuation).left();
                failed.with_node(NodeKind::TemplateLiteral, start, span_end(start, failed), acc2)
            }
        }),
{
    reveal(template_rest);
    reveal(assign);
}

/// `Assign (',' Assign)*` up to a `)`, gathered behind `acc`.
#[verifier::opaque]
pub open spec fn arguments(
    text: Seq<u8>,
    cfg: Config,
    s: ParseState,
    depth: nat,
    acc: Seq<NodeId>,
) -> Gathered
    decreases depth, 21nat, remaining(text, s),
{
    if s.current.kind == Kind::RParen || s.current.kind == Kind::Eof {
        Gathered { state: s, items: acc, ok: true }
    } else {
        let a = assign(text, cfg, s, depth);
        if a.state.current.kind == Kind::Comma {
            let next = a.state.bumped(text);
            if s.advanced(next, text) {
                arguments(text, cfg, next, depth, acc.push(a.node))
            } else {
                Gathered { state: next, items: acc.push(a.node), ok: true }
            }
        } else {
            Gathered { state: a.state, items: acc.push(a.node), ok: true }
        }
    }
}

/// The rule `arguments`, unfolded once.
pub proof fn lemma_arguments(
    text: Seq<u8>,
    cfg: Config,
    s: ParseState,
    depth: nat,
    acc: Seq<NodeId>,
)
    ensures
        arguments(text, cfg, s, depth, acc) == ({
            if s.current.kind == Kind::RParen || s.current.kind == Kind::Eof {
                Gathered { state: s, items: acc, ok: true }
            } else {
                let a = assign(text, cfg, s, depth);
                if a.state.current.kind == Kind::Comma {
                    let next = a.state.bumped(text);
                    if s.advanced(next, text) {
                        arguments(text, cfg, next, depth, acc.push(a.node))
                    } else {
                        Gathered { state: next, items: acc.push(a.node), ok: true }
                    }
                } else {
                    Gathered { state: a.state, items: acc.push(a.node), ok: true }
                }
            }
        }),
{
    reveal(arguments);
    reveal(assign);
}

/// `'(' Args ')'`, the current token being the `(`.
#[verifier::opaque]
pub open spec fn call_arguments(text: Seq<u8>, cfg: Config, s: ParseState, depth: nat) -> Gathered
    decreases depth, 22nat, remaining(text, s),
{
    let inner = arguments(text, cfg, s.entered(Frame::Paren).bumped(text), depth, Seq::empty());
    Gathered {
        state: expect(text, inner.state, Kind::RParen, Problem::ExpectedRParen).left(),
        items: inner.items,
        ok: true,
    }
}

/// The rule `call_arguments`, unfolded once.
pub proof fn lemma_call_arguments(text: Seq<u8>, cfg: Config, s: ParseState, depth: nat)
    ensures
        call_arguments(text, cfg, s, depth) == ({
            let inner = arguments(text, cfg, s.entered(Frame::Paren).bumped(text), depth, Seq::empty());
            Gathered {
                state: expect(text, inner.state, Kind::RParen, Problem::ExpectedRParen).left(),
                items: inner.items,
                ok: true,
            }
        }),
{
    reveal(call_arguments);
    reveal(arguments);
}

/// The member accesses and calls behind the expression `node`, which
/// started at `start`. In a text with type syntax a `<` is first tried as
/// the opening of a call's type arguments.
#[verifier::opaque]
pub open spec fn postfix_rest(
    text: Seq<u8>,
    cfg: Config,
    s: ParseState,
    depth: nat,
    node: NodeId,
    start: u32,
) -> Step
    decreases depth, 14nat, remaining(text, s),
{
    let k = s.current.kind;
    if k == Kind::Dot {
        let s1 = s.bumped(text);
        let property = if spec_is_name(s1.current.kind) {
            s1.with_leaf(text, NodeKind::Identifier)
        } else {
            error_here(s1, Problem::UnexpectedToken)
        };
        let made = property.state.with_node(
            NodeKind::MemberExpression,
            start,
            span_end(start, property.state),
            seq![node, property.node],
        );
        if s.advanced(made.state, text) {
            postfix_rest(text, cfg, made.state, depth, made.node, start)
        } else {
            made
        }
    } else if k == Kind::LParen {
        if depth == 0 {
            too_deep(text, s)
        } else {
            let args = call_arguments(text, cfg, s, (depth - 1) as nat);
            let made = args.state.with_node(
                NodeKind::CallExpression,
                start,
                span_end(start, args.state),
                seq![node] + args.items,
            );
            if s.advanced(made.state, text) {
                postfix_rest(text, cfg, made.state, depth, made.node, start)
            } else {
                made
            }
        }
    } else if cfg.typescript && (k == Kind::LAngle || k == Kind::ShiftLeft) && depth > 0 {
        let tried = try_type_arguments(text, cfg, s, (depth - 1) as nat);
        match tried.node {
            Some(targs) => {
                let args = call_arguments(text, cfg, tried.state, (depth - 1) as nat);
                let made = args.state.with_node(
                    NodeKind::CallExpression,
                    start,
                    span_end(start, args.state),
                    seq![node, targs] + args.items,
                );
                if s.advanced(made.state, text) {
                    postfix_rest(text, cfg, made.state, depth, made.node, start)
                } else {
                    made
                }
            },
            None => Step { state: tried.state, node },
        }
    } else {
        Step { state: s, node }
    }
}

/// The rule `postfix_rest`, unfolded once.
#[verifier::rlimit(100)]
pub proof fn lemma_postfix_rest(
    text: Seq<u8>,
    cfg: Config,
    s: ParseState,
    depth: nat,
    node: NodeId,
    start: u32,
)
    ensures
        postfix_rest(text, cfg, s, depth, node, start) == ({
            let k = s.current.kind;
            if k == Kind::Dot {
                let s1 = s.bumped(text);
                let property = if spec_is_name(s1.current.kind) {
                    s1.with_leaf(text, NodeKind::Identifier)
                } else {
                    error_here(s1, Problem::UnexpectedToken)
                };
                let made = property.state.with_node(
                    NodeKind::MemberExpression,
                    start,
                    span_end(start, property.state),
                    seq![node, property.node],
                );
                if s.advanced(made.state, text) {
                    postfix_rest(text, cfg, made.state, depth, made.node, start)
                } else {
                    made
                }
            } else if k == Kind::LParen {
                if depth == 0 {
                    too_deep(text, s)
                } else {
                    let args = call_arguments(text, cfg, s, (depth - 1) as nat);
                    let made = args.state.with_node(
                        NodeKind::CallExpression,
                        start,
                        span_end(start, args.state),
                        seq![node] + args.items,
                    );
                    if s.advanced(made.state, text) {
                        postfix_rest(text, cfg, made.state, depth, made.node, start)
                    } else {
                        made
                    }
                }
            } else if cfg.typescript && (k == Kind::LAngle || k == Kind::ShiftLeft) && depth > 0 {
                let tried = try_type_arguments(text, cfg, s, (depth - 1) as nat);
                match tried.node {
                    Some(targs) => {
                        let args = call_arguments(text, cfg, tried.state, (depth - 1) as nat);
                        let made = args.state.with_node(
                            NodeKind::CallExpression,
                            start,
                            span_end(start, args.state),
                            seq![node, targs] + args.items,
                        );
                        if s.advanced(made.state, text) {
                            postfix_rest(text, cfg, made.state, depth, made.node, start)
                        } else {
                            made
                        }
                    },
                    None => Step { state: tried.state, node },
                }
            } else {
                Step { state: s, node }
            }
        }),
{
    reveal(postfix_rest);
    reveal(call_arguments);
    reveal(try_type_arguments);
}

/// `Postfix`.
#[verifier::opaque]
pub open spec fn postfix(text: Seq<u8>, cfg: Config, s: ParseState, depth: nat) -> Step
    decreases depth, 15nat, remaining(text, s),
{
    let base = primary(text, cfg, s, depth);
    postfix_rest(text, cfg, base.state, depth, base.node, s.current.start)
}

/// The rule `postfix`, unfolded once.
pub proof fn lemma_postfix(text: Seq<u8>, cfg: Config, s: ParseState, depth: nat)
    ensures
        postfix(text, cfg, s, depth) == ({
            let base = primary(text, cfg, s, depth);
            postfix_rest(text, cfg, base.state, depth, base.node, s.current.start)
        }),
{
    reveal(postfix);
    reveal(postfix_rest);
    reveal(primary);
}

/// `Unary`.
#[verifier::opaque]
pub open spec fn unary(text: Seq<u8>, cfg: Config, s: ParseState, depth: nat) -> Step
    decreases depth, 16nat, remaining(text, s),
{
    if spec_is_unary(s.current.kind) {
        if depth == 0 {
            too_deep(text, s)
        } else {
            let start = s.current.start;
            let operand = unary(text, cfg, s.bumped(text), (depth - 1) as nat);
            operand.state.with_node(
                NodeKind::UnaryExpression(s.current.kind),
                start,
                span_end(start, operand.state),
                seq![operand.node],
            )
        }
    } else {
        postfix(text, cfg, s, depth)
    }
}

/// The rule `unary`, unfolded once.
pub proof fn lemma_unary(text: Seq<u8>, cfg: Config, s: ParseState, depth: nat)
    ensures
        unary(text, cfg, s, depth) == ({
            if spec_is_unary(s.current.kind) {
                if depth == 0 {
                    too_deep(text, s)
                } else {
                    let start = s.current.start;
                    let operand = unary(text, cfg, s.bumped(text), (depth - 1) as nat);
                    operand.state.with_node(
                        NodeKind::UnaryExpression(s.current.kind),
                        start,
                        span_end(start, operand.state),
                        seq![operand.node],
                    )
                }
            } else {
                postfix(text, cfg, s, depth)
            }
        }),
{
    reveal(unary);
    reveal(postfix);
}

/// The infix operators behind the operand `left`, which started at `start`:
/// those that bind at least as strongly as `min_prec`, each taking the
/// operands to its right that bind more strongly.
#[verifier::opaque]
pub open spec fn binary_rest(
    text: Seq<u8>,
    cfg: Config,
    s: ParseState,
    depth: nat,
    min_prec: nat,
    left: NodeId,
    start: u32,
) -> Step
    decreases depth, 17nat, remaining(text, s),
{
    let p = spec_binary_precedence(s.current.kind);
    if p == 0 || p < min_prec {
        Step { state: s, node: left }
    } else if depth == 0 {
        too_deep(text, s)
    } else {
        let right = binary(text, cfg, s.bumped(text), (depth - 1) as nat, p + 1);
        let made = right.state.with_node(
            NodeKind::BinaryExpression(s.current.kind),
            start,
            span_end(start, right.state),
            seq![left, right.node],
        );
        if s.advanced(made.state, text) {
            binary_rest(text, cfg, made.state, depth, min_prec, made.node, start)
        } else {
            made
        }
    }
}

/// The rule `binary_rest`, unfolded once.
pub proof fn lemma_binary_rest(
    text: Seq<u8>,
    cfg: Config,
    s: ParseState,
    depth: nat,
    min_prec: nat,
    left: NodeId,
    start: u32,
)
    ensures
        binary_rest(text, cfg, s, depth, min_prec, left, start) == ({
            let p = spec_binary_precedence(s.current.kind);
            if p == 0 || p < min_prec {
                Step { state: s, node: left }
            } else if depth == 0 {
                too_deep(text, s)
            } else {
                let right = binary(text, cfg, s.bumped(text), (depth - 1) as nat, p + 1);
                let made = right.state.with_node(
                    NodeKind::BinaryExpression(s.current.kind),
                    start,
                    span_end(start, right.state),
                    seq![left, right.node],
                );
                if s.advanced(made.state, text) {
                    binary_rest(text, cfg, made.state, depth, min_prec, made.node, start)
                } else {
                    made
                }
            }
        }),
{
    reveal(binary_rest);
    reveal(binary);
}

/// `Binary`, for operators that bind at least as strongly as `min_prec`.
#[verifier::opaque]
pub open spec fn binary(text: Seq<u8>, cfg: Config, s: ParseState, depth: nat, min_prec: nat) -> Step
    decreases depth, 18nat, remaining(text, s),
{
    let left = unary(text, cfg, s, depth);
    binary_rest(text, cfg, left.state, depth, min_prec, left.node, s.current.start)
}

/// The rule `binary`, unfolded once.
pub proof fn lemma_binary(text: Seq<u8>, cfg: Config, s: ParseState, depth: nat, min_prec: nat)
    ensures
        binary(text, cfg, s, depth, min_prec) == ({
            let left = unary(text, cfg, s, depth);
            binary_rest(text, cfg, left.state, depth, min_prec, left.node, s.current.start)
        }),
{
    reveal(binary);
    reveal(binary_rest);
    reveal(unary);
}

/// `Assign`.
#[verifier::opaque]
pub open spec fn assign(text: Seq<u8>, cfg: Config, s: ParseState, depth: nat) -> Step
    decreases depth, 19nat, remaining(text, s),
{
    let start = s.current.start;
    let left = binary(text, cfg, s, depth, 1);
    if left.state.current.kind == Kind::Eq {
        if depth == 0 {
            too_deep(text, left.state)
        } else {
            let value = assign(text, cfg, left.state.bumped(text), (depth - 1) as nat);
            value.state.with_node(
                NodeKind::AssignmentExpression,
                start,
                span_end(start, value.state),
                seq![left.node, value.node],
            )
        }
    } else {
        left
    }
}

/// The rule `assign`, unfolded once.
pub proof fn lemma_assign(text: Seq<u8>, cfg: Config, s: ParseState, depth: nat)
    ensures
        assign(text, cfg, s, depth) == ({
            let start = s.current.start;
            let left = binary(text, cfg, s, depth, 1);
            if left.state.current.kind == Kind::Eq {
                if depth == 0 {
                    too_deep(text, left.state)
                } else {
                    let value = assign(text, cfg, left.state.bumped(text), (depth - 1) as nat);
                    value.state.with_node(
                        NodeKind::AssignmentExpression,
                        start,
                        span_end(start, value.state),
                        seq![left.node, value.node],
                    )
                }
            } else {
                left
            }
        }),
{
    reveal(assign);
    reveal(binary);
}

/// `Statement`.
#[verifier::opaque]
pub open spec fn statement(text: Seq<u8>, cfg: Config, s: ParseState, depth: nat) -> Step
    decreases depth, 29nat, remaining(text, s),
{
    let start = s.current.start;
    match s.current.kind {
        Kind::Semicolon => s.with_leaf(text, NodeKind::EmptyStatement),
        Kind::LCurly => if depth == 0 {
            too_deep(text, s)
        } else {
            let inner = statements(
                text,
                cfg,
                s.entered(Frame::Block).bumped(text),
                (depth - 1) as nat,
                true,
                Seq::empty(),
            );
            let closed = expect(text, inner.state, Kind::RCurly, Problem::ExpectedRCurly).left();
            closed.with_node(NodeKind::BlockStatement, start, span_end(start, closed), inner.items)
        },
        Kind::Let | Kind::Const | Kind::Var => {
            let s1 = s.bumped(text);
            let name = if s1.current.kind == Kind::Ident {
                s1.with_leaf(text, NodeKind::Identifier)
            } else {
                error_here(s1, Problem::ExpectedBindingName)
            };
            let init = if name.state.current.kind == Kind::Eq {
                let value = assign(text, cfg, name.state.bumped(text), depth);
                Attempt { state: value.state, node: Some(value.node) }
            } else {
                Attempt { state: name.state, node: None }
            };
            let done = semi(text, init.state);
            done.with_node(
                NodeKind::VariableDeclaration(s.current.kind),
                start,
                span_end(start, done),
                seq![name.node] + optional(init.node),
            )
        },
        Kind::Return => {
            let s1 = s.bumped(text);
            let argument = if spec_ends_statement(s1.current) {
                Attempt { state: s1, node: None }
            } else {
                let value = assign(text, cfg, s1, depth);
                Attempt { state: value.state, node: Some(value.node) }
            };
            let done = semi(text, argument.state);
            done.with_node(
                NodeKind::ReturnStatement,
                start,
                span_end(start, done),
                optional(argument.node),
            )
        },
        _ => {
            let e = assign(text, cfg, s, depth);
            let done = semi(text, e.state);
            done.with_node(
                NodeKind::ExpressionStatement,
                start,
                span_end(start, done),
                seq![e.node],
            )
        },
    }
}

/// The rule `statement`, unfolded once.
#[verifier::rlimit(100)]
pub proof fn lemma_statement(text: Seq<u8>, cfg: Config, s: ParseState, depth: nat)
    ensures
        statement(text, cfg, s, depth) == ({
            let start = s.current.start;
            match s.current.kind {
                Kind::Semicolon => s.with_leaf(text, NodeKind::EmptyStatement),
                Kind::LCurly => if depth == 0 {
                    too_deep(text, s)
                } else {
                    let inner = statements(
                        text,
                        cfg,
                        s.entered(Frame::Block).bumped(text),
                        (depth - 1) as nat,
                        true,
                        Seq::empty(),
                    );
                    let closed = expect(text, inner.state, Kind::RCurly, Problem::ExpectedRCurly).left();
                    closed.with_node(NodeKind::BlockStatement, start, span_end(start, closed), inner.items)
                },
                Kind::Let | Kind::Const | Kind::Var => {
                    let s1 = s.bumped(text);
                    let name = if s1.current.kind == Kind::Ident {
                        s1.with_leaf(text, NodeKind::Identifier)
                    } else {
                        error_here(s1, Problem::ExpectedBindingName)
                    };
                    let init = if name.state.current.kind == Kind::Eq {
                        let value = assign(text, cfg, name.state.bumped(text), depth);
                        Attempt { state: value.state, node: Some(value.node) }
                    } else {
                        Attempt { state: name.state, node: None }
                    };
                    let done = semi(text, init.state);
                    done.with_node(
                        NodeKind::VariableDeclaration(s.current.kind),
                        start,
                        span_end(start, done),
                        seq![name.node] + optional(init.node),
                    )
                },
                Kind::Return => {
                    let s1 = s.bumped(text);
                    let argument = if spec_ends_statement(s1.current) {
                        Attempt { state: s1, node: None }
                    } else {
                        let value = assign(text, cfg, s1, depth);
                        Attempt { state: value.state, node: Some(value.node) }
                    };
                    let done = semi(text, argument.state);
                    done.with_node(
                        NodeKind::ReturnStatement,
                        start,
                        span_end(start, done),
                        optional(argument.node),
                    )
                },
                _ => {
                    let e = assign(text, cfg, s, depth);
                    let done = semi(text, e.state);
                    done.with_node(
                        NodeKind::ExpressionStatement,
                        start,
                        span_end(start, done),
                        seq![e.node],
                    )
                },
            }
        }),
{
    reveal(statement);
    reveal(assign);
    reveal(statements);
}

/// `Statement*` up to the end of the text, or up to a `}` inside a block,
/// gathered behind `acc`. A statement that read nothing has its first token
/// skipped.
#[verifier::opaque]
pub open spec fn statements(
    text: Seq<u8>,
    cfg: Config,
    s: ParseState,
    depth: nat,
    in_block: bool,
    acc: Seq<NodeId>,
) -> Gathered
    decreases depth, 30nat, remaining(text, s),
{
    if s.current.kind == Kind::Eof || (in_block && s.current.kind == Kind::RCurly) {
        Gathered { state: s, items: acc, ok: true }
    } else {
        let one = statement(text, cfg, s, depth);
        let next = if s.advanced(one.state, text) {
            one.state
        } else {
            one.state.bumped(text)
        };
        if s.advanced(next, text) {
            statements(text, cfg, next, depth, in_block, acc.push(one.node))
        } else {
            Gathered { state: next, items: acc.push(one.node), ok: true }
        }
    }
}

/// The rule `statements`, unfolded once.
pub proof fn lemma_statements(
    text: Seq<u8>,
    cfg: Config,
    s: ParseState,
    depth: nat,
    in_block: bool,
    acc: Seq<NodeId>,
)
    ensures
        statements(text, cfg, s, depth, in_block, acc) == ({
            if s.current.kind == Kind::Eof || (in_block && s.current.kind == Kind::RCurly) {
                Gathered { state: s, items: acc, ok: true }
            } else {
                let one = statement(text, cfg, s, depth);
                let next = if s.advanced(one.state, text) {
                    one.state
                } else {
                    one.state.bumped(text)
                };
                if s.advanced(next, text) {
                    statements(text, cfg, next, depth, in_block, acc.push(one.node))
                } else {
                    Gathered { state: next, items: acc.push(one.node), ok: true }
                }
            }
        }),
{
    reveal(statements);
    reveal(statement);
}

/// `Program`: the statements of the whole text under one root node.
pub open spec fn program(text: Seq<u8>, cfg: Config) -> Step {
    let body = statements(text, cfg, initial_state(text), MAX_DEPTH as nat, false, Seq::empty());
    body.state.with_node(NodeKind::Program, 0, text.len() as u32, body.items)
}

/// Binding strength of an infix operator, 0 for every other token.
pub fn binary_precedence(kind: Kind) -> (p: u8)
    ensures
        p == spec_binary_precedence(kind),
        p <= 10,
{
    match kind {
        Kind::Pipe2 | Kind::Question2 => 1,
        Kind::Amp2 => 2,
        Kind::Pipe => 3,
        Kind::Caret => 4,
        Kind::Amp => 5,
        Kind::Eq2 | Kind::Neq | Kind::Eq3 | Kind::Neq2 => 6,
        Kind::LAngle | Kind::RAngle | Kind::LtEq | Kind::GtEq => 7,
        Kind::ShiftLeft | Kind::ShiftRight | Kind::ShiftRight3 => 8,
        Kind::Plus | Kind::Minus => 9,
        Kind::Star | Kind::Slash | Kind::Percent => 10,
        _ => 0,
    }
}

#[verifier::when_used_as_spec(spec_is_unary)]
pub fn is_unary(kind: Kind) -> (r: bool)
    ensures
        r == spec_is_unary(kind),
{
    match kind {
        Kind::Bang | Kind::Minus | Kind::Plus | Kind::Tilde => true,
        _ => false,
    }
}

#[verifier::when_used_as_spec(spec_is_name)]
pub fn is_name(kind: Kind) -> (r: bool)
    ensures
        r == spec_is_name(kind),
{
    match kind {
        Kind::Ident | Kind::Return | Kind::Let | Kind::Const | Kind::Var | Kind::True
        | Kind::False | Kind::Null => true,
        _ => false,
    }
}

#[verifier::when_used_as_spec(spec_is_boundary)]
pub fn is_boundary(kind: Kind) -> (r: bool)
    ensures
        r == spec_is_boundary(kind),
{
    match kind {
        Kind::Eof | Kind::Semicolon | Kind::RCurly | Kind::RParen | Kind::Comma => true,
        _ => false,
    }
}

#[verifier::when_used_as_spec(spec_ends_statement)]
pub fn ends_statement(token: Token) -> (r: bool)
    ensures
        r == spec_ends_statement(token),
{
    token.is_on_new_line || match token.kind {
        Kind::Semicolon | Kind::RCurly | Kind::Eof => true,
        _ => false,
    }
}

} // verus!

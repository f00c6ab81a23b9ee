use oxc_front::ast::{Ast, NodeId, NodeKind};
use oxc_front::diagnostics::{Diagnostic, Problem, Severity};
use oxc_front::parser::{parse_source, ParserReturn};
use oxc_front::scan::LexError;
use oxc_front::source::SourceType;
use oxc_front::state::Parser;

fn show(ast: &Ast, source: &str, id: NodeId) -> String {
    let node = ast.node(id).unwrap();
    let children = ast.children(id);
    if children.is_empty() {
        format!("{:?}({})", node.kind, &source[node.start as usize..node.end as usize])
    } else {
        let parts: Vec<String> = children.iter().map(|c| show(ast, source, *c)).collect();
        format!("{:?}[{}]", node.kind, parts.join(", "))
    }
}

fn tree(source: &str, source_type: SourceType) -> String {
    let ret = parse_source(source, source_type, false);
    check(&ret, source);
    let root = ret.program.root;
    let parts: Vec<String> =
        ret.program.children(root).iter().map(|c| show(&ret.program, source, *c)).collect();
    parts.join("; ")
}

fn problems(source: &str, source_type: SourceType) -> Vec<(Problem, u32, u32)> {
    let ret = parse_source(source, source_type, false);
    check(&ret, source);
    ret.errors.iter().map(|d| (d.problem, d.start, d.end)).collect()
}

fn check(ret: &ParserReturn, source: &str) {
    let ast = &ret.program;
    assert_eq!(ast.root + 1, ast.nodes.len());
    assert_eq!(ast.nodes[ast.root].kind, NodeKind::Program);
    for (i, n) in ast.nodes.iter().enumerate() {
        assert!(n.start <= n.end && n.end as usize <= source.len());
        for c in ast.children(i) {
            assert!(c < i);
        }
    }
    for d in &ret.errors {
        assert!(d.start <= d.end && d.end as usize <= source.len());
        assert_eq!(d.severity, Severity::Error);
    }
}

#[test]
fn type_arguments_make_a_call_in_typescript() {
    assert_eq!(
        tree("a<b>(c)", SourceType::Ts),
        "ExpressionStatement[CallExpression[Identifier(a), TypeArguments[TypeReference[Identifier(b)]], Identifier(c)]]"
    );
    assert_eq!(problems("a<b>(c)", SourceType::Ts), vec![]);
    assert_eq!(
        tree("f<A, B>(x, y)", SourceType::Tsx),
        "ExpressionStatement[CallExpression[Identifier(f), TypeArguments[TypeReference[Identifier(A)], TypeReference[Identifier(B)]], Identifier(x), Identifier(y)]]"
    );
}

#[test]
fn angle_brackets_compare_in_javascript() {
    assert_eq!(
        tree("a<b>(c)", SourceType::Module),
        "ExpressionStatement[BinaryExpression(RAngle)[BinaryExpression(LAngle)[Identifier(a), Identifier(b)], Identifier(c)]]"
    );
    assert_eq!(problems("a<b>(c)", SourceType::Module), vec![]);
}

#[test]
fn shift_left_stays_a_shift() {
    for source_type in [SourceType::Ts, SourceType::Module, SourceType::Script] {
        assert_eq!(
            tree("a<<b", source_type),
            "ExpressionStatement[BinaryExpression(ShiftLeft)[Identifier(a), Identifier(b)]]"
        );
        assert_eq!(problems("a<<b", source_type), vec![]);
    }
}

#[test]
fn a_lone_angle_bracket_compares() {
    assert_eq!(
        tree("a<b", SourceType::Ts),
        "ExpressionStatement[BinaryExpression(LAngle)[Identifier(a), Identifier(b)]]"
    );
    assert_eq!(
        tree("a<b;", SourceType::Ts),
        "ExpressionStatement[BinaryExpression(LAngle)[Identifier(a), Identifier(b)]]"
    );
    assert_eq!(
        tree("a<b>c", SourceType::Ts),
        "ExpressionStatement[BinaryExpression(RAngle)[BinaryExpression(LAngle)[Identifier(a), Identifier(b)], Identifier(c)]]"
    );
    assert_eq!(problems("a<b", SourceType::Ts), vec![]);
    assert_eq!(problems("a<b>c", SourceType::Ts), vec![]);
}

#[test]
fn nested_type_arguments_split_the_closing_shift() {
    assert_eq!(
        tree("a<b<c>>(d)", SourceType::Ts),
        "ExpressionStatement[CallExpression[Identifier(a), TypeArguments[TypeReference[Identifier(b), TypeArguments[TypeReference[Identifier(c)]]]], Identifier(d)]]"
    );
    assert_eq!(
        tree("a<b<c<d>>>(e)", SourceType::Ts),
        "ExpressionStatement[CallExpression[Identifier(a), TypeArguments[TypeReference[Identifier(b), TypeArguments[TypeReference[Identifier(c), TypeArguments[TypeReference[Identifier(d)]]]]]], Identifier(e)]]"
    );
    assert_eq!(problems("a<b<c>>(d)", SourceType::Ts), vec![]);
    assert_eq!(
        tree("a >> b", SourceType::Ts),
        "ExpressionStatement[BinaryExpression(ShiftRight)[Identifier(a), Identifier(b)]]"
    );
}

#[test]
fn a_failed_attempt_leaves_no_trace() {
    let source = "a < 'x\n";
    assert_eq!(
        problems(source, SourceType::Ts),
        vec![(Problem::Lexical(LexError::UnterminatedString), 4, 6)]
    );
    assert_eq!(problems(source, SourceType::Ts), problems(source, SourceType::Module));
    assert_eq!(tree(source, SourceType::Ts), tree(source, SourceType::Module));
}

#[test]
fn template_substitution_is_not_a_block() {
    assert_eq!(
        tree("`a${1}b`", SourceType::Module),
        "ExpressionStatement[TemplateLiteral[TemplateElement(`a${), NumericLiteral(1), TemplateElement(}b`)]]"
    );
    assert_eq!(
        tree("`${a}-${`${b}`}`;", SourceType::Module),
        "ExpressionStatement[TemplateLiteral[TemplateElement(`${), Identifier(a), TemplateElement(}-${), TemplateLiteral[TemplateElement(`${), Identifier(b), TemplateElement(}`)], TemplateElement(}`)]]"
    );
    assert_eq!(tree("`x`", SourceType::Module), "ExpressionStatement[TemplateLiteral[TemplateElement(`x`)]]");
    assert_eq!(problems("`a${1}b`", SourceType::Module), vec![]);
}

#[test]
fn return_ends_at_a_line_break() {
    assert_eq!(
        tree("return\na+b", SourceType::Script),
        "ReturnStatement(return); ExpressionStatement[BinaryExpression(Plus)[Identifier(a), Identifier(b)]]"
    );
    assert_eq!(problems("return\na+b", SourceType::Script), vec![]);
}

#[test]
fn an_operator_on_the_next_line_continues_the_expression() {
    assert_eq!(
        tree("return a\n+b", SourceType::Script),
        "ReturnStatement[BinaryExpression(Plus)[Identifier(a), Identifier(b)]]"
    );
    assert_eq!(problems("return a\n+b", SourceType::Script), vec![]);
    assert_eq!(tree("return a; b", SourceType::Script), "ReturnStatement[Identifier(a)]; ExpressionStatement[Identifier(b)]");
    assert_eq!(tree("a\nb", SourceType::Script), "ExpressionStatement[Identifier(a)]; ExpressionStatement[Identifier(b)]");
}

#[test]
fn a_missing_semicolon_on_one_line_is_reported() {
    assert_eq!(problems("a b", SourceType::Script), vec![(Problem::ExpectedSemicolon, 2, 3)]);
    assert_eq!(
        tree("a b", SourceType::Script),
        "ExpressionStatement[Identifier(a)]; ExpressionStatement[Identifier(b)]"
    );
}

#[test]
fn one_malformed_string_leaves_the_other_statements_alone() {
    let source = "let a = 'abc\nlet b = 2;\nreturn b";
    assert_eq!(
        problems(source, SourceType::Module),
        vec![(Problem::Lexical(LexError::UnterminatedString), 8, 12)]
    );
    assert_eq!(
        tree(source, SourceType::Module),
        "VariableDeclaration(Let)[Identifier(a), StringLiteral('abc)]; VariableDeclaration(Let)[Identifier(b), NumericLiteral(2)]; ReturnStatement[Identifier(b)]"
    );
}

#[test]
fn the_same_input_gives_the_same_diagnostics() {
    let source = "let = 'x\n a + ; `t${ 1 2 }` (b c 0x";
    let one = parse_source(source, SourceType::Ts, true);
    let two = parse_source(source, SourceType::Ts, true);
    assert_eq!(one.errors, two.errors);
    assert_eq!(one, two);
    assert!(one.errors.len() >= 4);
}

#[test]
fn precedence_and_associativity() {
    assert_eq!(
        tree("a + b * c - d", SourceType::Module),
        "ExpressionStatement[BinaryExpression(Minus)[BinaryExpression(Plus)[Identifier(a), BinaryExpression(Star)[Identifier(b), Identifier(c)]], Identifier(d)]]"
    );
    assert_eq!(
        tree("a = b = c || d && e", SourceType::Module),
        "ExpressionStatement[AssignmentExpression[Identifier(a), AssignmentExpression[Identifier(b), BinaryExpression(Pipe2)[Identifier(c), BinaryExpression(Amp2)[Identifier(d), Identifier(e)]]]]]"
    );
    assert_eq!(
        tree("!-a.b.c(d)(e)", SourceType::Module),
        "ExpressionStatement[UnaryExpression(Bang)[UnaryExpression(Minus)[CallExpression[CallExpression[MemberExpression[MemberExpression[Identifier(a), Identifier(b)], Identifier(c)], Identifier(d)], Identifier(e)]]]]"
    );
    assert_eq!(tree("f()", SourceType::Module), "ExpressionStatement[CallExpression[Identifier(f)]]");
    assert_eq!(tree("a.return", SourceType::Module), "ExpressionStatement[MemberExpression[Identifier(a), Identifier(return)]]");
}

#[test]
fn a_slash_where_an_expression_starts_is_a_regex() {
    assert_eq!(
        tree("x = /a+b/g / 2", SourceType::Module),
        "ExpressionStatement[AssignmentExpression[Identifier(x), BinaryExpression(Slash)[RegExpLiteral(/a+b/g), NumericLiteral(2)]]]"
    );
    assert_eq!(tree("/=a/", SourceType::Module), "ExpressionStatement[RegExpLiteral(/=a/)]");
    assert_eq!(
        problems("a = /b", SourceType::Module),
        vec![(Problem::Lexical(LexError::UnterminatedRegex), 4, 6)]
    );
}

#[test]
fn parentheses_are_kept_on_request() {
    let kept = parse_source("(a)", SourceType::Module, true);
    let root = kept.program.root;
    let statement = kept.program.children(root)[0];
    assert_eq!(
        show(&kept.program, "(a)", statement),
        "ExpressionStatement[ParenthesizedExpression[Identifier(a)]]"
    );
    assert_eq!(tree("(a)", SourceType::Module), "ExpressionStatement[Identifier(a)]");
    assert_eq!(
        tree("(a + b) * c", SourceType::Module),
        "ExpressionStatement[BinaryExpression(Star)[BinaryExpression(Plus)[Identifier(a), Identifier(b)], Identifier(c)]]"
    );
    let built = Parser::new("(a)", SourceType::Module).parse();
    assert_eq!(built, kept);
    let elided = Parser::new("(a)", SourceType::Module).preserve_parens(false).parse();
    assert_eq!(elided, parse_source("(a)", SourceType::Module, false));
}

#[test]
fn statements_of_each_kind() {
    assert_eq!(
        tree(";{a;b}var x;const y = 1\nlet z", SourceType::Module),
        "EmptyStatement(;); BlockStatement[ExpressionStatement[Identifier(a)], ExpressionStatement[Identifier(b)]]; VariableDeclaration(Var)[Identifier(x)]; VariableDeclaration(Const)[Identifier(y), NumericLiteral(1)]; VariableDeclaration(Let)[Identifier(z)]"
    );
    assert_eq!(tree("{}", SourceType::Module), "BlockStatement({})");
    assert_eq!(tree("true; false; null; 'x'", SourceType::Module), "ExpressionStatement[BooleanLiteral(true)]; ExpressionStatement[BooleanLiteral(false)]; ExpressionStatement[NullLiteral(null)]; ExpressionStatement[StringLiteral('x')]");
    assert_eq!(tree("", SourceType::Module), "");
    assert_eq!(tree("  // only a comment\n", SourceType::Module), "");
}

#[test]
fn each_syntax_error_has_an_input() {
    let m = SourceType::Module;
    assert_eq!(problems("a + ;", m), vec![(Problem::UnexpectedToken, 4, 5)]);
    assert_eq!(tree("a + ;", m), "ExpressionStatement[BinaryExpression(Plus)[Identifier(a), Error(;)]]");
    assert_eq!(problems("f(a", m), vec![(Problem::ExpectedRParen, 3, 3)]);
    assert_eq!(problems("(a", m), vec![(Problem::ExpectedRParen, 2, 2)]);
    assert_eq!(problems("{ a", m), vec![(Problem::ExpectedRCurly, 3, 3)]);
    assert_eq!(problems("let = 1", m), vec![(Problem::ExpectedBindingName, 4, 5)]);
    assert_eq!(problems("a b", m), vec![(Problem::ExpectedSemicolon, 2, 3)]);
    assert_eq!(
        problems("`a${1 2}`", m),
        vec![(Problem::ExpectedTemplateContinuation, 6, 7), (Problem::ExpectedSemicolon, 6, 7), (Problem::UnexpectedToken, 7, 8), (Problem::Lexical(LexError::UnterminatedTemplate), 8, 9)]
    );
    assert_eq!(problems("a.;", m), vec![(Problem::UnexpectedToken, 2, 3)]);
    assert_eq!(tree("a.;", m), "ExpressionStatement[MemberExpression[Identifier(a), Error(;)]]");
}

#[test]
fn stray_closers_are_skipped() {
    assert_eq!(
        tree(") a", SourceType::Module),
        "ExpressionStatement[Error())]; ExpressionStatement[Identifier(a)]"
    );
    assert_eq!(
        problems(") a", SourceType::Module),
        vec![(Problem::UnexpectedToken, 0, 1), (Problem::ExpectedSemicolon, 0, 1)]
    );
    assert_eq!(tree("} a", SourceType::Module), "ExpressionStatement[Error(})]; ExpressionStatement[Identifier(a)]");
}

#[test]
fn deep_nesting_is_reported_not_followed() {
    let deep = format!("{}a{}", "(".repeat(300), ")".repeat(300));
    let ret = parse_source(&deep, SourceType::Module, false);
    check(&ret, &deep);
    assert!(ret.errors.iter().any(|d| d.problem == Problem::NestingTooDeep));
    let shallow = format!("{}a{}", "(".repeat(200), ")".repeat(200));
    assert_eq!(problems(&shallow, SourceType::Module), vec![]);
    assert_eq!(tree(&shallow, SourceType::Module), "ExpressionStatement[Identifier(a)]");
    let nots = format!("{}a", "!".repeat(1000));
    let ret = parse_source(&nots, SourceType::Module, false);
    check(&ret, &nots);
    assert!(ret.errors.iter().any(|d| d.problem == Problem::NestingTooDeep));
}

#[test]
fn tree_handles() {
    let ret = parse_source("a + b", SourceType::Module, false);
    let root = ret.program.root;
    assert_eq!(ret.program.node(root).map(|n| (n.kind, n.start, n.end)), Some((NodeKind::Program, 0, 5)));
    assert_eq!(ret.program.node(ret.program.nodes.len()), None);
    let statement = ret.program.children(root)[0];
    let binary = ret.program.children(statement)[0];
    let sides = ret.program.children(binary);
    assert_eq!(sides.len(), 2);
    assert_eq!(ret.program.node(sides[0]).map(|n| (n.kind, n.start, n.end)), Some((NodeKind::Identifier, 0, 1)));
    assert_eq!(ret.program.node(sides[1]).map(|n| (n.kind, n.start, n.end)), Some((NodeKind::Identifier, 4, 5)));
    assert_eq!(
        ret.errors,
        Vec::<Diagnostic>::new()
    );
}

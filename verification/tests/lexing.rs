use oxc_front::lexer::{DisambiguationHint, Lexer};
use oxc_front::pass::tokenize;
use oxc_front::scan::LexError;
use oxc_front::diagnostics::{Diagnostic, Problem, Severity};
use oxc_front::token::{Kind, Token};

fn kinds(source: &str) -> Vec<Kind> {
    tokenize(source).tokens.iter().map(|t| t.kind).filter(|k| !k.is_trivia()).collect()
}

fn spans(source: &str) -> Vec<(u32, u32)> {
    tokenize(source).tokens.iter().map(|t| (t.start, t.end)).collect()
}

fn assert_tiles(source: &str) {
    let pass = tokenize(source);
    let len = source.len() as u32;
    let mut at = 0u32;
    for (i, t) in pass.tokens.iter().enumerate() {
        assert_eq!(t.start, at, "token {i} of {source:?}");
        if i + 1 == pass.tokens.len() {
            assert_eq!(t.kind, Kind::Eof);
            assert_eq!((t.start, t.end), (len, len));
        } else {
            assert!(t.start < t.end);
            assert_ne!(t.kind, Kind::Eof);
        }
        at = t.end;
    }
    assert_eq!(at, len);
}

#[test]
fn shift_left_is_one_token_without_type_context() {
    assert_eq!(kinds("a<<b"), vec![Kind::Ident, Kind::ShiftLeft, Kind::Ident, Kind::Eof]);
    assert_eq!(spans("a<<b"), vec![(0, 1), (1, 3), (3, 4), (4, 4)]);
}

#[test]
fn longest_operator_wins() {
    assert_eq!(kinds("a<<=b"), vec![Kind::Ident, Kind::ShiftLeftEq, Kind::Ident, Kind::Eof]);
    assert_eq!(kinds("a<=b"), vec![Kind::Ident, Kind::LtEq, Kind::Ident, Kind::Eof]);
    assert_eq!(kinds("a<b"), vec![Kind::Ident, Kind::LAngle, Kind::Ident, Kind::Eof]);
    assert_eq!(kinds("a>>>=b"), vec![Kind::Ident, Kind::ShiftRight3Eq, Kind::Ident, Kind::Eof]);
    assert_eq!(kinds("a>>>b"), vec![Kind::Ident, Kind::ShiftRight3, Kind::Ident, Kind::Eof]);
    assert_eq!(kinds("a===b"), vec![Kind::Ident, Kind::Eq3, Kind::Ident, Kind::Eof]);
    assert_eq!(kinds("a**=b"), vec![Kind::Ident, Kind::Star2Eq, Kind::Ident, Kind::Eof]);
    assert_eq!(kinds("...a"), vec![Kind::Dot3, Kind::Ident, Kind::Eof]);
    assert_eq!(kinds("a??=b"), vec![Kind::Ident, Kind::Question2Eq, Kind::Ident, Kind::Eof]);
    assert_eq!(kinds("a=>b"), vec![Kind::Ident, Kind::Arrow, Kind::Ident, Kind::Eof]);
}

#[test]
fn template_with_substitution_is_head_number_tail() {
    let pass = tokenize("`a${1}b`");
    let got: Vec<(Kind, u32, u32)> = pass.tokens.iter().map(|t| (t.kind, t.start, t.end)).collect();
    assert_eq!(
        got,
        vec![
            (Kind::TemplateHead, 0, 4),
            (Kind::Number, 4, 5),
            (Kind::TemplateTail, 5, 8),
            (Kind::Eof, 8, 8),
        ]
    );
    assert!(pass.diagnostics.is_empty());
}

#[test]
fn template_pieces_nest_with_blocks() {
    assert_eq!(
        kinds("`a${ {b: `x${1}y`} }c${2}d`"),
        vec![
            Kind::TemplateHead,
            Kind::LCurly,
            Kind::Ident,
            Kind::Colon,
            Kind::TemplateHead,
            Kind::Number,
            Kind::TemplateTail,
            Kind::RCurly,
            Kind::TemplateMiddle,
            Kind::Number,
            Kind::TemplateTail,
            Kind::Eof,
        ]
    );
    assert_eq!(kinds("`plain`"), vec![Kind::NoSubstitutionTemplate, Kind::Eof]);
}

#[test]
fn slash_is_regex_or_division_by_what_precedes() {
    assert_eq!(kinds("a / b"), vec![Kind::Ident, Kind::Slash, Kind::Ident, Kind::Eof]);
    assert_eq!(kinds("x = /ab+c/gi"), vec![Kind::Ident, Kind::Eq, Kind::Regex, Kind::Eof]);
    assert_eq!(spans("/[/]\\//g"), vec![(0, 8), (8, 8)]);
    assert_eq!(kinds("(a) / 2"), vec![Kind::LParen, Kind::Ident, Kind::RParen, Kind::Slash, Kind::Number, Kind::Eof]);
    assert_eq!(kinds("a /= 2"), vec![Kind::Ident, Kind::SlashEq, Kind::Number, Kind::Eof]);
}

#[test]
fn full_pass_tiles_the_text() {
    for source in [
        "",
        " ",
        "a<<b",
        "let x = 1;\n// note\nreturn /* c */ x + 'str' ;",
        "`a${1}b`",
        "x = /re/g; y = a / b",
        "\"unterminated\nnext",
        "/* open",
        "0x 1e+ 3px @ # \\ \u{7f}",
        "h\u{e9}llo = '\u{4e16}\u{754c}'; \u{1F600}",
        "a\r\nb\rc\n",
        "`open ${",
    ] {
        assert_tiles(source);
    }
}

#[test]
fn trivia_is_emitted_by_the_full_pass() {
    let got: Vec<(Kind, u32, u32)> =
        tokenize("a  // c\n/* d\n */b").tokens.iter().map(|t| (t.kind, t.start, t.end)).collect();
    assert_eq!(
        got,
        vec![
            (Kind::Ident, 0, 1),
            (Kind::WhiteSpace, 1, 3),
            (Kind::Comment, 3, 7),
            (Kind::NewLine, 7, 8),
            (Kind::MultiLineComment, 8, 16),
            (Kind::Ident, 16, 17),
            (Kind::Eof, 17, 17),
        ]
    );
}

#[test]
fn keywords_and_identifiers() {
    assert_eq!(
        kinds("return let const var true false null returns lets _x $y"),
        vec![
            Kind::Return,
            Kind::Let,
            Kind::Const,
            Kind::Var,
            Kind::True,
            Kind::False,
            Kind::Null,
            Kind::Ident,
            Kind::Ident,
            Kind::Ident,
            Kind::Ident,
            Kind::Eof,
        ]
    );
}

#[test]
fn numbers() {
    assert_eq!(spans("12.5e-3"), vec![(0, 7), (7, 7)]);
    assert_eq!(spans("0xFf"), vec![(0, 4), (4, 4)]);
    assert_eq!(spans(".5"), vec![(0, 2), (2, 2)]);
    assert_eq!(kinds("1.toString"), vec![Kind::Number, Kind::Eof]);
    assert!(tokenize("12.5e-3 0xFf .5 7").diagnostics.is_empty());
}

#[test]
fn invalid_numbers_are_reported_and_covered() {
    let pass = tokenize("0x + 1e + 3px");
    let problems: Vec<(Problem, u32, u32)> =
        pass.diagnostics.iter().map(|d| (d.problem, d.start, d.end)).collect();
    assert_eq!(
        problems,
        vec![
            (Problem::Lexical(LexError::InvalidNumber), 0, 2),
            (Problem::Lexical(LexError::InvalidNumber), 5, 7),
            (Problem::Lexical(LexError::InvalidNumber), 10, 13),
        ]
    );
    assert_tiles("0x + 1e + 3px");
}

#[test]
fn unterminated_string_stops_at_the_line_end() {
    let pass = tokenize("'abc\nx");
    let got: Vec<(Kind, u32, u32)> = pass.tokens.iter().map(|t| (t.kind, t.start, t.end)).collect();
    assert_eq!(
        got,
        vec![(Kind::Str, 0, 4), (Kind::NewLine, 4, 5), (Kind::Ident, 5, 6), (Kind::Eof, 6, 6)]
    );
    assert_eq!(
        pass.diagnostics,
        vec![Diagnostic {
            problem: Problem::Lexical(LexError::UnterminatedString),
            start: 0,
            end: 4,
            severity: Severity::Error,
        }]
    );
    assert!(pass.tokens[0].malformed);
    assert!(!pass.tokens[2].malformed);
}

#[test]
fn each_lexical_error_has_an_input() {
    let first = |source: &str| tokenize(source).diagnostics.first().map(|d| d.problem);
    assert_eq!(first("\"abc"), Some(Problem::Lexical(LexError::UnterminatedString)));
    assert_eq!(first("x = /abc"), Some(Problem::Lexical(LexError::UnterminatedRegex)));
    assert_eq!(first("`abc"), Some(Problem::Lexical(LexError::UnterminatedTemplate)));
    assert_eq!(first("/* abc"), Some(Problem::Lexical(LexError::UnterminatedComment)));
    assert_eq!(first("'\\xZZ'"), Some(Problem::Lexical(LexError::InvalidEscape)));
    assert_eq!(first("'\\u12'"), Some(Problem::Lexical(LexError::InvalidEscape)));
    assert_eq!(first("1e"), Some(Problem::Lexical(LexError::InvalidNumber)));
    assert_eq!(first("a \\ b"), Some(Problem::Lexical(LexError::UnexpectedCharacter)));
    assert_eq!(first("'\\x41\\u0041\\u{41}\\n'"), None);
}

#[test]
fn escapes_are_flagged() {
    let pass = tokenize("'a\\'b' 'c'");
    assert_eq!((pass.tokens[0].kind, pass.tokens[0].start, pass.tokens[0].end), (Kind::Str, 0, 6));
    assert!(pass.tokens[0].escaped);
    assert!(!pass.tokens[2].escaped);
}

#[test]
fn diagnostics_come_in_source_order_and_twice_the_same() {
    let source = "'a\n 0x \\ `t";
    let one = tokenize(source);
    let two = tokenize(source);
    assert_eq!(one.diagnostics, two.diagnostics);
    assert_eq!(one.tokens, two.tokens);
    let starts: Vec<u32> = one.diagnostics.iter().map(|d| d.start).collect();
    let mut sorted = starts.clone();
    sorted.sort();
    assert_eq!(starts, sorted);
    assert_eq!(one.diagnostics.len(), 4);
}

#[test]
fn lexer_skips_trivia_and_marks_new_lines() {
    let mut lexer = Lexer::new("return\n a /* c */ + b");
    let first = lexer.current_token();
    assert_eq!((first.kind, first.start, first.end, first.is_on_new_line), (Kind::Return, 0, 6, false));
    let a = lexer.next_token();
    assert_eq!((a.kind, a.start, a.end, a.is_on_new_line), (Kind::Ident, 8, 9, true));
    let plus = lexer.next_token();
    assert_eq!((plus.kind, plus.start, plus.is_on_new_line), (Kind::Plus, 18, false));
    let b = lexer.next_token();
    assert_eq!((b.kind, b.start, b.end), (Kind::Ident, 20, 21));
    let eof = lexer.next_token();
    assert_eq!((eof.kind, eof.start, eof.end), (Kind::Eof, 21, 21));
    let again = lexer.next_token();
    assert_eq!(again.kind, Kind::Eof);
}

#[test]
fn a_comment_with_a_line_break_counts_as_a_new_line() {
    let mut lexer = Lexer::new("a /* x\n y */ b /* z */ c");
    assert!(lexer.next_token().is_on_new_line);
    assert!(!lexer.next_token().is_on_new_line);
}

#[test]
fn re_lex_splits_shift_left_into_angles() {
    let mut lexer = Lexer::new("a<<b");
    let shift = lexer.next_token();
    assert_eq!((shift.kind, shift.start, shift.end), (Kind::ShiftLeft, 1, 3));
    let angle = lexer.re_lex_as_typescript_l_angle(Kind::ShiftLeft);
    assert_eq!(
        angle,
        Token { kind: Kind::LAngle, start: 1, end: 2, is_on_new_line: false, escaped: false, malformed: false }
    );
    assert_eq!(lexer.current_token(), angle);
    assert_eq!(lexer.offset(), 2);
    let rest = lexer.next_token();
    assert_eq!((rest.kind, rest.start, rest.end), (Kind::LAngle, 2, 3));
    let b = lexer.next_token();
    assert_eq!((b.kind, b.start, b.end), (Kind::Ident, 3, 4));
}

#[test]
fn re_lex_leaves_the_residual_of_each_compound() {
    let mut lexer = Lexer::new("a<<=b");
    lexer.next_token();
    let angle = lexer.re_lex_as_typescript_l_angle(Kind::ShiftLeftEq);
    assert_eq!((angle.kind, angle.start, angle.end), (Kind::LAngle, 1, 2));
    let rest = lexer.next_token();
    assert_eq!((rest.kind, rest.start, rest.end), (Kind::LtEq, 2, 4));

    let mut lexer = Lexer::new("a<=b");
    lexer.next_token();
    let angle = lexer.re_lex_as_typescript_l_angle(Kind::LtEq);
    assert_eq!((angle.kind, angle.start, angle.end), (Kind::LAngle, 1, 2));
    let rest = lexer.next_token();
    assert_eq!((rest.kind, rest.start, rest.end), (Kind::Eq, 2, 3));
}

#[test]
fn re_lex_clears_stale_lookahead() {
    let mut lexer = Lexer::new("a<<b c");
    lexer.next_token();
    let ahead = lexer.lookahead(2);
    assert_eq!((ahead.kind, ahead.start), (Kind::Ident, 5));
    assert_eq!(lexer.buffered_len(), 2);
    assert_eq!(lexer.current_token().kind, Kind::ShiftLeft);
    let angle = lexer.re_lex(DisambiguationHint::TypeScriptLAngle).unwrap();
    assert_eq!((angle.kind, angle.start, angle.end), (Kind::LAngle, 1, 2));
    assert_eq!(lexer.buffered_len(), 0);
    assert_eq!(lexer.next_token().kind, Kind::LAngle);
    assert_eq!(lexer.next_token().kind, Kind::Ident);
    assert_eq!(lexer.next_token().kind, Kind::Ident);
    assert_eq!(lexer.next_token().kind, Kind::Eof);
}

#[test]
fn lookahead_hands_out_what_next_token_would() {
    let mut lexer = Lexer::new("a + 'x\n b");
    let one = lexer.lookahead(1);
    let two = lexer.lookahead(2);
    let three = lexer.lookahead(3);
    assert!(lexer.diagnostics().is_empty());
    assert_eq!(lexer.next_token(), one);
    assert!(lexer.diagnostics().is_empty());
    assert_eq!(lexer.next_token(), two);
    assert_eq!(lexer.diagnostics().len(), 1);
    assert_eq!(lexer.next_token(), three);
    assert_eq!((three.kind, three.is_on_new_line), (Kind::Ident, true));
    assert_eq!(lexer.lookahead(4).kind, Kind::Eof);
}

#[test]
fn re_lex_right_angle_splits_shift_right() {
    let mut lexer = Lexer::new("a>>b");
    lexer.next_token();
    let angle = lexer.re_lex(DisambiguationHint::TypeScriptRAngle).unwrap();
    assert_eq!((angle.kind, angle.start, angle.end), (Kind::RAngle, 1, 2));
    let rest = lexer.next_token();
    assert_eq!((rest.kind, rest.start, rest.end), (Kind::RAngle, 2, 3));
}

#[test]
fn re_lex_as_regex_and_template() {
    let mut lexer = Lexer::new("/a b/g x");
    assert_eq!(lexer.current_token().kind, Kind::Slash);
    let regex = lexer.re_lex(DisambiguationHint::Regex).unwrap();
    assert_eq!((regex.kind, regex.start, regex.end), (Kind::Regex, 0, 6));
    assert_eq!(lexer.next_token().kind, Kind::Ident);

    let mut lexer = Lexer::new("`a${1}b`");
    assert_eq!(lexer.current_token().kind, Kind::TemplateHead);
    assert_eq!(lexer.next_token().kind, Kind::Number);
    assert_eq!(lexer.next_token().kind, Kind::RCurly);
    let tail = lexer.re_lex(DisambiguationHint::TemplateContinuation).unwrap();
    assert_eq!((tail.kind, tail.start, tail.end), (Kind::TemplateTail, 5, 8));
    assert_eq!(lexer.next_token().kind, Kind::Eof);
}

#[test]
fn re_lex_is_refused_where_the_hint_does_not_apply() {
    let mut lexer = Lexer::new("a + b");
    let before = lexer.current_token();
    assert_eq!(lexer.re_lex(DisambiguationHint::TypeScriptLAngle), None);
    assert_eq!(lexer.re_lex(DisambiguationHint::Regex), None);
    assert_eq!(lexer.re_lex(DisambiguationHint::TemplateContinuation), None);
    assert_eq!(lexer.current_token(), before);
    assert_eq!(lexer.next_token().kind, Kind::Plus);
}

#[test]
fn re_lex_twice_gives_the_same_tokens() {
    let run = || {
        let mut lexer = Lexer::new("f<<T>(x)");
        lexer.next_token();
        let mut out = vec![lexer.re_lex(DisambiguationHint::TypeScriptLAngle).unwrap()];
        loop {
            let t = lexer.next_token();
            out.push(t);
            if t.kind == Kind::Eof {
                break;
            }
        }
        out
    };
    assert_eq!(run(), run());
    assert_eq!(run().len(), 8);
}

#[test]
fn diagnostic_messages() {
    let d = Diagnostic { problem: Problem::Lexical(LexError::UnterminatedString), start: 0, end: 1, severity: Severity::Error };
    assert_eq!(d.message(), "Unterminated string");
    let d = Diagnostic { problem: Problem::UnexpectedToken, start: 0, end: 1, severity: Severity::Error };
    assert_eq!(d.message(), "Unexpected token");
}

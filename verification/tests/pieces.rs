use oxc_front::chars::{
    is_continuation, is_digit, is_hex_digit, is_ident_part, is_ident_start, is_line_terminator,
    is_whitespace,
};
use oxc_front::grammar::{binary_precedence, ends_statement, is_boundary, is_name, is_unary};
use oxc_front::lexer::DisambiguationHint;
use oxc_front::numbers::{scan_number, NumericScan};
use oxc_front::pass::regex_allowed_after;
use oxc_front::punct::{punct_width, scan_punct};
use oxc_front::regex::{scan_block_comment, scan_regex, DelimitedScan};
use oxc_front::runs::{scan_run, ByteClass};
use oxc_front::scan::{scan_token, LexContext, LexError, Scanned};
use oxc_front::state::{hint_allowed, Frame};
use oxc_front::strings::{scan_string, scan_template, Ending, QuotedScan};
use oxc_front::token::{Kind, Token};
use oxc_front::typecheck::push_decimal;
use oxc_front::words::classify_word;

#[test]
fn byte_classes() {
    assert!(is_whitespace(b' ') && is_whitespace(b'\t') && !is_whitespace(b'\n'));
    assert!(is_line_terminator(b'\n') && is_line_terminator(b'\r') && !is_line_terminator(b' '));
    assert!(is_digit(b'0') && is_digit(b'9') && !is_digit(b'a'));
    assert!(is_hex_digit(b'f') && is_hex_digit(b'A') && !is_hex_digit(b'g'));
    assert!(is_ident_start(b'_') && is_ident_start(b'$') && is_ident_start(0xC3) && !is_ident_start(b'1'));
    assert!(is_ident_part(b'1') && !is_ident_part(b'-'));
    assert!(is_continuation(0x80) && is_continuation(0xBF) && !is_continuation(0xC0) && !is_continuation(b'a'));
    assert!(ByteClass::LineBody.holds(b'x') && !ByteClass::LineBody.holds(b'\n'));
}

#[test]
fn runs_end_at_the_first_byte_outside_the_class() {
    assert_eq!(scan_run(b"abc1 d", 0, ByteClass::IdentPart), 4);
    assert_eq!(scan_run(b"abc1 d", 4, ByteClass::IdentPart), 4);
    assert_eq!(scan_run(b"abc1 d", 4, ByteClass::WhiteSpace), 5);
    assert_eq!(scan_run(b"123", 1, ByteClass::Digit), 3);
    assert_eq!(scan_run(b"123", 3, ByteClass::Digit), 3);
    assert_eq!(scan_run(b"fFg", 0, ByteClass::HexDigit), 2);
    assert_eq!(scan_run(b"ab\ncd", 0, ByteClass::LineBody), 2);
}

#[test]
fn punctuators_by_longest_match() {
    assert_eq!(scan_punct(b"<<=", 0), Some((Kind::ShiftLeftEq, 3)));
    assert_eq!(scan_punct(b"<<=", 1), Some((Kind::LtEq, 2)));
    assert_eq!(scan_punct(b"<<=", 2), Some((Kind::Eq, 1)));
    assert_eq!(scan_punct(b">>>=", 0), Some((Kind::ShiftRight3Eq, 4)));
    assert_eq!(scan_punct(b"..", 0), Some((Kind::Dot, 1)));
    assert_eq!(scan_punct(b"?.", 0), Some((Kind::QuestionDot, 2)));
    assert_eq!(scan_punct(b"a", 0), None);
    assert_eq!(scan_punct(b"\\", 0), None);
    assert_eq!(punct_width(Kind::ShiftRight3Eq), 4);
    assert_eq!(punct_width(Kind::ShiftLeft), 2);
    assert_eq!(punct_width(Kind::LAngle), 1);
    assert_eq!(punct_width(Kind::Ident), 0);
}

#[test]
fn string_bodies() {
    let closed = |end| QuotedScan { end, ending: Ending::Closed, escaped: false, bad_escape: false };
    assert_eq!(scan_string(b"'ab' c", 1, b'\''), closed(4));
    assert_eq!(scan_string(b"\"a'b\"", 1, b'"'), closed(5));
    assert_eq!(
        scan_string(b"'a\\'b'", 1, b'\''),
        QuotedScan { end: 6, ending: Ending::Closed, escaped: true, bad_escape: false }
    );
    assert_eq!(
        scan_string(b"'a\\\r\nb'", 1, b'\''),
        QuotedScan { end: 7, ending: Ending::Closed, escaped: true, bad_escape: false }
    );
    assert_eq!(
        scan_string(b"'a\nb'", 1, b'\''),
        QuotedScan { end: 2, ending: Ending::Unterminated, escaped: false, bad_escape: false }
    );
    assert_eq!(
        scan_string(b"'a\\", 1, b'\''),
        QuotedScan { end: 3, ending: Ending::Unterminated, escaped: true, bad_escape: false }
    );
    assert_eq!(
        scan_string(b"'\\x4'", 1, b'\''),
        QuotedScan { end: 5, ending: Ending::Closed, escaped: true, bad_escape: true }
    );
}

#[test]
fn template_bodies() {
    assert_eq!(
        scan_template(b"`a${b}`", 1),
        QuotedScan { end: 4, ending: Ending::Substitution, escaped: false, bad_escape: false }
    );
    assert_eq!(
        scan_template(b"`a\n$b`", 1),
        QuotedScan { end: 6, ending: Ending::Closed, escaped: false, bad_escape: false }
    );
    assert_eq!(
        scan_template(b"`a\\${b", 1),
        QuotedScan { end: 6, ending: Ending::Unterminated, escaped: true, bad_escape: false }
    );
}

#[test]
fn regex_and_comment_bodies() {
    assert_eq!(scan_regex(b"/a[/]b/gi+", 0), DelimitedScan { end: 9, closed: true, newline: false });
    assert_eq!(scan_regex(b"/a\\/b/", 0), DelimitedScan { end: 6, closed: true, newline: false });
    assert_eq!(scan_regex(b"/ab\nc/", 0), DelimitedScan { end: 3, closed: false, newline: false });
    assert_eq!(scan_regex(b"/ab\\\nc/", 0), DelimitedScan { end: 4, closed: false, newline: false });
    assert_eq!(scan_block_comment(b"/* a */ b", 2), DelimitedScan { end: 7, closed: true, newline: false });
    assert_eq!(scan_block_comment(b"/* a\n*/", 2), DelimitedScan { end: 7, closed: true, newline: true });
    assert_eq!(scan_block_comment(b"/* a *", 2), DelimitedScan { end: 6, closed: false, newline: false });
}

#[test]
fn number_literals() {
    assert_eq!(scan_number(b"12.5e-3;", 0), NumericScan { end: 7, valid: true });
    assert_eq!(scan_number(b"0X1f+", 0), NumericScan { end: 4, valid: true });
    assert_eq!(scan_number(b"0x", 0), NumericScan { end: 2, valid: false });
    assert_eq!(scan_number(b"1e+", 0), NumericScan { end: 3, valid: false });
    assert_eq!(scan_number(b"3px", 0), NumericScan { end: 3, valid: false });
    assert_eq!(scan_number(b"1.", 0), NumericScan { end: 2, valid: true });
    assert_eq!(scan_number(b".5.", 0), NumericScan { end: 2, valid: true });
}

#[test]
fn words() {
    assert_eq!(classify_word(b"return", 0, 6), Kind::Return);
    assert_eq!(classify_word(b"returns", 0, 7), Kind::Ident);
    assert_eq!(classify_word(b"a let b", 2, 5), Kind::Let);
    assert_eq!(classify_word(b"const", 0, 5), Kind::Const);
    assert_eq!(classify_word(b"var", 0, 3), Kind::Var);
    assert_eq!(classify_word(b"true", 0, 4), Kind::True);
    assert_eq!(classify_word(b"false", 0, 5), Kind::False);
    assert_eq!(classify_word(b"null", 0, 4), Kind::Null);
    assert_eq!(classify_word(b"nul", 0, 3), Kind::Ident);
    assert_eq!(classify_word(b"x", 0, 0), Kind::Ident);
}

#[test]
fn one_form_under_each_hint() {
    let plain = |kind, end| Scanned { kind, end, error: None, escaped: false, newline: false };
    assert_eq!(scan_token(b"/a/ b", 0, LexContext::Normal), plain(Kind::Slash, 1));
    assert_eq!(scan_token(b"/a/ b", 0, LexContext::Regex), plain(Kind::Regex, 3));
    assert_eq!(scan_token(b"}b` c", 0, LexContext::Normal), plain(Kind::RCurly, 1));
    assert_eq!(scan_token(b"}b` c", 0, LexContext::TemplateContinuation), plain(Kind::TemplateTail, 3));
    assert_eq!(scan_token(b"}b${c", 0, LexContext::TemplateContinuation), plain(Kind::TemplateMiddle, 4));
    assert_eq!(scan_token(b"// c\nx", 0, LexContext::Regex), plain(Kind::Comment, 4));
    assert_eq!(
        scan_token(b"\r\nx", 0, LexContext::Normal),
        Scanned { kind: Kind::NewLine, end: 2, error: None, escaped: false, newline: true }
    );
    assert_eq!(
        scan_token(b"\x01", 0, LexContext::Normal),
        Scanned { kind: Kind::Unknown, end: 1, error: Some(LexError::UnexpectedCharacter), escaped: false, newline: false }
    );
}

#[test]
fn token_helpers() {
    let eof = Token::eof(7, true);
    assert_eq!((eof.kind, eof.start, eof.end, eof.is_on_new_line), (Kind::Eof, 7, 7, true));
    assert_eq!(eof.len(), 0);
    let t = Token { kind: Kind::Ident, start: 2, end: 5, is_on_new_line: false, escaped: false, malformed: false };
    assert_eq!(t.len(), 3);
    assert!(Kind::Comment.is_trivia() && Kind::NewLine.is_trivia() && !Kind::Ident.is_trivia());
    assert!(Kind::TemplateHead.is_template() && !Kind::Str.is_template());
}

#[test]
fn hints_and_frames() {
    assert!(DisambiguationHint::TypeScriptLAngle.applies_to(Kind::ShiftLeftEq));
    assert!(!DisambiguationHint::TypeScriptLAngle.applies_to(Kind::LAngle));
    assert!(DisambiguationHint::TypeScriptRAngle.applies_to(Kind::GtEq));
    assert!(DisambiguationHint::Regex.applies_to(Kind::SlashEq));
    assert!(DisambiguationHint::TemplateContinuation.applies_to(Kind::RCurly));
    assert!(hint_allowed(Some(Frame::TypeArguments), DisambiguationHint::TypeScriptRAngle));
    assert!(!hint_allowed(Some(Frame::Paren), DisambiguationHint::TypeScriptRAngle));
    assert!(!hint_allowed(None, DisambiguationHint::TemplateContinuation));
    assert!(hint_allowed(Some(Frame::TemplateSubstitution), DisambiguationHint::TemplateContinuation));
    assert!(hint_allowed(None, DisambiguationHint::Regex));
    assert!(hint_allowed(Some(Frame::Block), DisambiguationHint::TypeScriptLAngle));
}

#[test]
fn grammar_tables() {
    assert_eq!(binary_precedence(Kind::Star), 10);
    assert_eq!(binary_precedence(Kind::Plus), 9);
    assert_eq!(binary_precedence(Kind::ShiftLeft), 8);
    assert_eq!(binary_precedence(Kind::LAngle), 7);
    assert_eq!(binary_precedence(Kind::Eq3), 6);
    assert_eq!(binary_precedence(Kind::Pipe2), 1);
    assert_eq!(binary_precedence(Kind::Eq), 0);
    assert!(is_unary(Kind::Bang) && !is_unary(Kind::Star));
    assert!(is_name(Kind::Return) && is_name(Kind::Ident) && !is_name(Kind::Number));
    assert!(is_boundary(Kind::Eof) && is_boundary(Kind::RParen) && !is_boundary(Kind::Ident));
    let on = |kind, is_on_new_line| Token { kind, start: 0, end: 1, is_on_new_line, escaped: false, malformed: false };
    assert!(ends_statement(on(Kind::Ident, true)) && ends_statement(on(Kind::RCurly, false)));
    assert!(!ends_statement(on(Kind::Ident, false)));
    assert!(regex_allowed_after(Kind::Eof) && regex_allowed_after(Kind::Return) && regex_allowed_after(Kind::LParen));
    assert!(!regex_allowed_after(Kind::Ident) && !regex_allowed_after(Kind::RParen));
}

#[test]
fn decimal_digits() {
    let mut out = b"n=".to_vec();
    push_decimal(&mut out, 0);
    push_decimal(&mut out, 907);
    push_decimal(&mut out, 10);
    assert_eq!(out, b"n=090710".to_vec());
}

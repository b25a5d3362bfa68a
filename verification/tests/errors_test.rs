use risc_v_compiler::parser::{ParseError, Parser};
use risc_v_compiler::scanner::{ScanError, Scanner};
use risc_v_compiler::token::{Location, Span, SyntaxToken, Token};

fn parse_error(input: &str) -> ParseError {
    let mut s = Scanner::new(input);
    let sts = s.scan().unwrap();
    let mut p = Parser::new(&sts);
    match p.parse() {
        Ok(_) => panic!("the input parsed"),
        Err(e) => e,
    }
}

fn scan_error(input: &str) -> ScanError {
    let mut s = Scanner::new(input);
    match s.scan() {
        Ok(_) => panic!("the input scanned"),
        Err(e) => e,
    }
}

#[test]
fn parse_reports_the_first_token_that_does_not_fit() {
    let e = parse_error("fn f ( ) -> int { return 0 }");
    let ParseError::UnexpectedToken(st) = e;
    assert_eq!(st.token, Token::RCurly);
    assert_eq!(st.span.start, Location { index: 27, line: 1, col: 28 });
    assert_eq!(st.span.end, Location { index: 28, line: 1, col: 29 });
}

#[test]
fn parse_of_no_function_fails_at_the_end_of_input() {
    let e = parse_error("  ");
    let ParseError::UnexpectedToken(st) = e;
    assert_eq!(st.token, Token::Eof);
    assert_eq!(st.span.start.index, 2);
}

#[test]
fn parse_rejects_a_function_without_return() {
    let e = parse_error("fn f ( ) -> int { x := 1 ; }");
    let ParseError::UnexpectedToken(st) = e;
    assert_eq!(st.token, Token::RCurly);
}

#[test]
fn parse_rejects_a_trailing_token() {
    let e = parse_error("fn f ( ) -> int { return 0 ; } 5");
    let ParseError::UnexpectedToken(st) = e;
    assert_eq!(st.token, Token::Num(String::from("5")));
}

#[test]
fn parse_error_message_names_the_token() {
    let e = parse_error("fn f ( ) -> int { return 0 }");
    assert_eq!(
        e.to_string(),
        "unexpected token Token: }\nStart:\n    Line: 1, Char: 28\nEnd:\n    Line: 1, Char: 29"
    );
}

#[test]
fn scan_rejects_a_zero_followed_by_a_digit_at_the_digit() {
    let e = scan_error("x := 09;");
    let ScanError::UnexpectedChar(c, loc) = e;
    assert_eq!(c, '9');
    assert_eq!(loc, Location { index: 6, line: 1, col: 7 });
}

#[test]
fn scan_rejects_a_character_that_starts_no_token() {
    let e = scan_error("a\n $");
    let ScanError::UnexpectedChar(c, loc) = e;
    assert_eq!(c, '$');
    assert_eq!(loc, Location { index: 3, line: 2, col: 2 });
}

#[test]
fn scan_rejects_a_lone_equals_sign() {
    let e = scan_error("a = b");
    let ScanError::UnexpectedChar(c, loc) = e;
    assert_eq!(c, '=');
    assert_eq!(loc.index, 2);
}

#[test]
fn scan_error_message_names_the_character_and_its_location() {
    let e = scan_error("a $");
    assert_eq!(
        e.to_string(),
        "Unexpected Character\nCharacter: $\nLine: 1, Char: 3"
    );
}

#[test]
fn location_prints_line_and_column() {
    let l = Location { index: 40, line: 12, col: 305 };
    assert_eq!(l.to_string(), "Line: 12, Char: 305");
    assert_eq!(Location::new().to_string(), "Line: 1, Char: 1");
}

#[test]
fn syntax_token_prints_token_and_span() {
    let st = SyntaxToken {
        token: Token::Id(String::from("abc")),
        span: Span {
            start: Location { index: 0, line: 1, col: 1 },
            end: Location { index: 3, line: 1, col: 4 },
        },
    };
    assert_eq!(
        st.to_string(),
        "Token: abc\nStart:\n    Line: 1, Char: 1\nEnd:\n    Line: 1, Char: 4"
    );
}

#[test]
fn end_of_input_prints_as_eof() {
    assert_eq!(Token::Eof.to_string(), "EOF");
    assert_eq!(Token::ElseIf.to_string(), "elif");
    assert_eq!(Token::Arrow.to_string(), "->");
}

#[test]
fn scan_locates_tokens_after_multibyte_characters() {
    let mut s = Scanner::new("\u{a3}");
    assert!(s.scan().is_err());
    let mut s = Scanner::new("x\u{4e16} y");
    let e = s.scan();
    assert!(e.is_err());
    let mut s = Scanner::new("fn\n  abc");
    let sts = s.scan().unwrap();
    assert_eq!(sts[1].token, Token::Id(String::from("abc")));
    assert_eq!(sts[1].span.start, Location { index: 5, line: 2, col: 3 });
    assert_eq!(sts[1].span.end, Location { index: 8, line: 2, col: 6 });
    assert_eq!(sts[0].token, Token::Function);
}

#[test]
fn parser_stops_at_the_token_that_does_not_fit() {
    let mut s = Scanner::new("fn f ( ) -> int { return 0 }");
    let sts = s.scan().unwrap();
    let mut p = Parser::new(&sts);
    assert!(p.parse().is_err());
    assert_eq!(p.index, 9);
    assert_eq!(sts[p.index].token, Token::RCurly);
}

#[test]
fn scanner_stops_at_the_character_that_starts_no_token() {
    let mut s = Scanner::new("ab $ c");
    assert!(s.scan().is_err());
    assert_eq!(s.loc(), Location { index: 3, line: 1, col: 4 });
}

#[test]
fn defaults_are_end_of_input_at_zero() {
    let zero = Location { index: 0, line: 0, col: 0 };
    assert_eq!(Token::default(), Token::Eof);
    assert_eq!(Location::default(), zero);
    assert_eq!(Span::default(), Span { start: zero, end: zero });
    let st = SyntaxToken::default();
    assert_eq!(st.token, Token::Eof);
    assert_eq!(st.span, Span { start: zero, end: zero });
    assert_eq!(st.clone(), st);
}

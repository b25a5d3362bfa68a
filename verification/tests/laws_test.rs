use risc_v_compiler::parser::Parser;
use risc_v_compiler::scanner::Scanner;
use risc_v_compiler::token::Token;

fn print(input: &str) -> String {
    let mut s = Scanner::new(input);
    let sts = s.scan().unwrap();
    let mut p = Parser::new(&sts);
    p.parse().unwrap().to_string()
}

#[test]
fn printed_program_separates_touching_tokens() {
    let input = "fn f(a:int)->int{let b:int:=a+1;return b;}";
    assert_eq!(
        print(input),
        "fn f ( a : int ) -> int { let b : int := a + 1 ; return b ; }"
    );
}

#[test]
fn printed_program_makes_white_space_single_spaces() {
    let input = "fn   main ( )\n->\tint {\n\n  while ( x > 0 ) { x := x - 1 ; }\n  return x ;\n}\n";
    assert_eq!(
        print(input),
        "fn main ( ) -> int { while ( x > 0 ) { x := x - 1 ; } return x ; }"
    );
}

#[test]
fn printed_program_of_several_functions() {
    let input = "fn a ( ) -> int { return 1 ; } fn b ( x : int , y : int ) -> int { return a ( ) + x ; }";
    assert_eq!(print(input), input);
}

#[test]
fn printed_if_with_one_elif_and_else() {
    let input =
        "fn f ( a : int ) -> int { if ( a > 0 ) { a := 1 ; } elif ( a == 0 ) { } else { a := 2 ; } return a ; }";
    assert_eq!(print(input), input);
}

#[test]
fn printed_if_with_two_elifs_keeps_single_spaces() {
    let input =
        "fn f ( a : int ) -> int { if ( a > 0 ) { } elif ( a == 0 ) { } elif ( a > 1 ) { } return a ; }";
    assert_eq!(print(input), input);
}

#[test]
fn scanned_tokens_end_with_a_single_eof() {
    let mut s = Scanner::new("fn f ( ) -> int { return 0 ; }");
    let sts = s.scan().unwrap();
    assert_eq!(sts.len(), 12);
    assert_eq!(sts[sts.len() - 1].token, Token::Eof);
    for st in &sts[..sts.len() - 1] {
        assert_ne!(st.token, Token::Eof);
    }
}

#[test]
fn scanned_tokens_are_written_as_their_source() {
    let input = "fn fib(n:int)->int{if(n==0){return 0;}let x:int:=fib(n-1);return x;}";
    let mut s = Scanner::new(input);
    let sts = s.scan().unwrap();
    for st in &sts[..sts.len() - 1] {
        let source = &input[st.span.start.index..st.span.end.index];
        assert_eq!(st.token.to_string(), source);
    }
}

#[test]
fn scanned_empty_source_is_only_eof() {
    let mut s = Scanner::new(" \n\t ");
    let sts = s.scan().unwrap();
    assert_eq!(sts.len(), 1);
    assert_eq!(sts[0].token, Token::Eof);
    assert_eq!(sts[0].span.start.index, 4);
    assert_eq!(sts[0].span.start.line, 2);
    assert_eq!(sts[0].span.start.col, 3);
}

#[test]
fn cloned_program_prints_the_same() {
    let input = "fn f ( a : int ) -> int { if ( a > 0 ) { a := g ( a , ( 1 + 2 ) ) ; } else { } while ( a == 1 ) { let b : int := 3 ; } return a - 1 ; }";
    let mut s = Scanner::new(input);
    let sts = s.scan().unwrap();
    let mut p = Parser::new(&sts);
    let program = p.parse().unwrap();
    let copy = program.clone();
    assert_eq!(copy, program);
    assert_eq!(copy.to_string(), input);
}

#[test]
fn scanned_end_of_input_counts_lines_and_columns() {
    let mut s = Scanner::new("a\nbc  ");
    let sts = s.scan().unwrap();
    let eof = &sts[sts.len() - 1];
    assert_eq!(eof.token, Token::Eof);
    assert_eq!(eof.span.start, eof.span.end);
    assert_eq!(eof.span.start.index, 6);
    assert_eq!(eof.span.start.line, 2);
    assert_eq!(eof.span.start.col, 5);
}

#[test]
fn scanned_token_spans_are_in_order() {
    let input = "let x:int:=10+y;";
    let mut s = Scanner::new(input);
    let sts = s.scan().unwrap();
    for w in sts[..sts.len() - 1].windows(2) {
        assert!(w[0].span.start.index < w[0].span.end.index);
        assert!(w[0].span.end.index <= w[1].span.start.index);
    }
}

use kaleidoscope::lexer::{Lexer, Token};

fn lexer(input: &str) -> Lexer {
    Lexer::new(input.chars().collect())
}

fn number(tok: Token) -> f64 {
    match tok {
        Token::Number(text) => text.parse().unwrap(),
        other => panic!("expected a number, got {:?}", other),
    }
}

#[test]
fn test_identifier() {
    let mut lex = lexer("a b c");
    assert_eq!(Token::Identifier("a".into()), lex.gettok());
    assert_eq!(Token::Identifier("b".into()), lex.gettok());
    assert_eq!(Token::Identifier("c".into()), lex.gettok());
    assert_eq!(Token::Eof, lex.gettok());
}

#[test]
fn test_keyword() {
    let mut lex = lexer("def extern");
    assert_eq!(Token::Def, lex.gettok());
    assert_eq!(Token::Extern, lex.gettok());
    assert_eq!(Token::Eof, lex.gettok());
}

#[test]
fn test_number() {
    let mut lex = lexer("12.34");
    assert_eq!(number(lex.gettok()), 12.34f64);
    assert_eq!(Token::Eof, lex.gettok());

    let mut lex = lexer(" 1.0   2.0 3.0");
    assert_eq!(number(lex.gettok()), 1.0f64);
    assert_eq!(number(lex.gettok()), 2.0f64);
    assert_eq!(number(lex.gettok()), 3.0f64);
    assert_eq!(Token::Eof, lex.gettok());

    let mut lex = lexer("12.34.56");
    assert_eq!(number(lex.gettok()), 0f64);
    assert_eq!(Token::Eof, lex.gettok());
}

#[test]
fn test_comment() {
    let mut lex = lexer("# some comment");
    assert_eq!(Token::Eof, lex.gettok());

    let mut lex = lexer("abc # some comment \n xyz");
    assert_eq!(Token::Identifier("abc".into()), lex.gettok());
    assert_eq!(Token::Identifier("xyz".into()), lex.gettok());
    assert_eq!(Token::Eof, lex.gettok());
}

#[test]
fn test_chars() {
    let mut lex = lexer("a+b-c");
    assert_eq!(Token::Identifier("a".into()), lex.gettok());
    assert_eq!(Token::Char('+'), lex.gettok());
    assert_eq!(Token::Identifier("b".into()), lex.gettok());
    assert_eq!(Token::Char('-'), lex.gettok());
    assert_eq!(Token::Identifier("c".into()), lex.gettok());
    assert_eq!(Token::Eof, lex.gettok());
}

#[test]
fn test_whitespaces() {
    let mut lex = lexer("    +a  b      c!    ");
    assert_eq!(Token::Char('+'), lex.gettok());
    assert_eq!(Token::Identifier("a".into()), lex.gettok());
    assert_eq!(Token::Identifier("b".into()), lex.gettok());
    assert_eq!(Token::Identifier("c".into()), lex.gettok());
    assert_eq!(Token::Char('!'), lex.gettok());
    assert_eq!(Token::Eof, lex.gettok());

    let mut lex = lexer("\n    a \n\r  b \r \n     c \r\r  \n   ");
    assert_eq!(Token::Identifier("a".into()), lex.gettok());
    assert_eq!(Token::Identifier("b".into()), lex.gettok());
    assert_eq!(Token::Identifier("c".into()), lex.gettok());
    assert_eq!(Token::Eof, lex.gettok());
}

#[test]
fn test_ite() {
    let mut lex = lexer("if then else");
    assert_eq!(Token::If, lex.gettok());
    assert_eq!(Token::Then, lex.gettok());
    assert_eq!(Token::Else, lex.gettok());
}

#[test]
fn lexes_for_and_in_keywords() {
    let mut lex = lexer("for in forx");
    assert_eq!(Token::For, lex.gettok());
    assert_eq!(Token::In, lex.gettok());
    assert_eq!(Token::Identifier("forx".into()), lex.gettok());
    assert_eq!(Token::Eof, lex.gettok());
}

#[test]
fn number_literal_text_is_kept() {
    let mut lex = lexer(".5 7. 42 . ..");
    assert_eq!(Token::Number(".5".into()), lex.gettok());
    assert_eq!(Token::Number("7.".into()), lex.gettok());
    assert_eq!(Token::Number("42".into()), lex.gettok());
    assert_eq!(Token::Number("0".into()), lex.gettok());
    assert_eq!(Token::Number("0".into()), lex.gettok());
    assert_eq!(Token::Eof, lex.gettok());
}

#[test]
fn eof_repeats_and_comment_ends_at_carriage_return() {
    let mut lex = lexer("x#c\ry");
    assert_eq!(Token::Identifier("x".into()), lex.gettok());
    assert_eq!(Token::Identifier("y".into()), lex.gettok());
    assert_eq!(Token::Eof, lex.gettok());
    assert_eq!(Token::Eof, lex.gettok());
}

#[test]
fn identifiers_mix_letters_and_digits() {
    let mut lex = lexer("a1b2(3");
    assert_eq!(Token::Identifier("a1b2".into()), lex.gettok());
    assert_eq!(Token::Char('('), lex.gettok());
    assert_eq!(number(lex.gettok()), 3f64);
    assert_eq!(Token::Eof, lex.gettok());
}

#[test]
fn step_moves_to_the_next_character() {
    let mut lex = lexer("ab");
    assert_eq!(lex.step(), Some('b'));
    assert_eq!(lex.gettok(), Token::Identifier("b".into()));
    assert_eq!(lex.step(), None);
    assert_eq!(lex.gettok(), Token::Eof);
}

use kaleidoscope::lexer::Lexer;
use kaleidoscope::parser::{ExprAST, FunctionAST, Parser, PrototypeAST};

fn parser(input: &str) -> Parser {
    let l = Lexer::new(input.chars().collect());
    let mut p = Parser::new(l);

    // Read the first token.
    p.get_next_token();

    p
}

fn num(text: &str) -> ExprAST {
    ExprAST::Number(text.into())
}

fn var(name: &str) -> ExprAST {
    ExprAST::Variable(name.into())
}

fn bin(op: char, l: ExprAST, r: ExprAST) -> ExprAST {
    ExprAST::Binary(op, Box::new(l), Box::new(r))
}

#[test]
fn parse_number() {
    let mut p = parser("13.37");

    assert_eq!(p.parse_num_expr(), Ok(num("13.37")));
}

#[test]
fn parse_variable() {
    let mut p = parser("foop");

    assert_eq!(p.parse_identifier_expr(), Ok(ExprAST::Variable("foop".into())));
}

#[test]
fn parse_if() {
    let mut p = parser("if 1 then 2 else 3");

    let cond = Box::new(num("1"));
    let then_ = Box::new(num("2"));
    let else_ = Box::new(num("3"));

    assert_eq!(p.parse_if_expr(), Ok(ExprAST::If { cond, then_, else_ }));

    let mut p = parser("if foo() then bar(2) else baz(3)");

    let cond = Box::new(ExprAST::Call("foo".into(), vec![]));
    let then_ = Box::new(ExprAST::Call("bar".into(), vec![num("2")]));
    let else_ = Box::new(ExprAST::Call("baz".into(), vec![num("3")]));

    assert_eq!(p.parse_if_expr(), Ok(ExprAST::If { cond, then_, else_ }));
}

#[test]
fn parse_for() {
    let mut p = parser("for i = 1, 2, 3 in 4");

    let var = String::from("i");
    let start = Box::new(num("1"));
    let end = Box::new(num("2"));
    let step = Some(Box::new(num("3")));
    let body = Box::new(num("4"));

    assert_eq!(p.parse_for_expr(), Ok(ExprAST::For { var, start, end, step, body }));
}

#[test]
fn parse_for_no_step() {
    let mut p = parser("for i = 1, 2 in 4");

    let var = String::from("i");
    let start = Box::new(num("1"));
    let end = Box::new(num("2"));
    let step = None;
    let body = Box::new(num("4"));

    assert_eq!(p.parse_for_expr(), Ok(ExprAST::For { var, start, end, step, body }));
}

#[test]
fn parse_primary() {
    let mut p = parser("1337 foop \n bla(123) \n if a then b else c \n for x=1,2 in 3");

    assert_eq!(p.parse_primary(), Ok(num("1337")));

    assert_eq!(p.parse_primary(), Ok(ExprAST::Variable("foop".into())));

    assert_eq!(p.parse_primary(), Ok(ExprAST::Call("bla".into(), vec![num("123")])));

    assert_eq!(
        p.parse_primary(),
        Ok(ExprAST::If {
            cond: Box::new(var("a")),
            then_: Box::new(var("b")),
            else_: Box::new(var("c")),
        })
    );

    assert_eq!(
        p.parse_primary(),
        Ok(ExprAST::For {
            var: String::from("x"),
            start: Box::new(num("1")),
            end: Box::new(num("2")),
            step: None,
            body: Box::new(num("3")),
        })
    );
}

#[test]
fn parse_binary_op() {
    // a + b - c parses as (a + b) - c.
    let mut p = parser("a + b - c");

    let binexpr_ab = bin('+', var("a"), var("b"));
    let binexpr_abc = bin('-', binexpr_ab, var("c"));

    assert_eq!(p.parse_expression(), Ok(binexpr_abc));
}

#[test]
fn parse_binary_op2() {
    // a + b * c parses as a + (b * c).
    let mut p = parser("a + b * c");

    let binexpr_bc = bin('*', var("b"), var("c"));
    let binexpr_abc = bin('+', var("a"), binexpr_bc);

    assert_eq!(p.parse_expression(), Ok(binexpr_abc));
}

#[test]
fn parse_prototype() {
    let mut p = parser("foo(a,b)");

    let proto = PrototypeAST("foo".into(), vec!["a".into(), "b".into()]);

    assert_eq!(p.parse_prototype(), Ok(proto));
}

#[test]
fn parse_definition() {
    let mut p = parser("def bar( arg0 , arg1 ) arg0 + arg1");

    let proto = PrototypeAST("bar".into(), vec!["arg0".into(), "arg1".into()]);

    let body = bin('+', var("arg0"), var("arg1"));

    let func = FunctionAST(proto, body);

    assert_eq!(p.parse_definition(), Ok(func));
}

#[test]
fn parse_extern() {
    let mut p = parser("extern baz()");

    let proto = PrototypeAST("baz".into(), vec![]);

    assert_eq!(p.parse_extern(), Ok(proto));
}

#[test]
fn equal_precedence_chains_nest_to_the_left() {
    let mut p = parser("a - b - c");
    assert_eq!(p.parse_expression(), Ok(bin('-', bin('-', var("a"), var("b")), var("c"))));

    let mut p = parser("a * b * c");
    assert_eq!(p.parse_expression(), Ok(bin('*', bin('*', var("a"), var("b")), var("c"))));

    let mut p = parser("a < b < c");
    assert_eq!(p.parse_expression(), Ok(bin('<', bin('<', var("a"), var("b")), var("c"))));

    let mut p = parser("a - b + c - d");
    assert_eq!(
        p.parse_expression(),
        Ok(bin('-', bin('+', bin('-', var("a"), var("b")), var("c")), var("d")))
    );
}

#[test]
fn tighter_operator_groups_to_the_right() {
    let mut p = parser("a < b + c * d - e");
    let bc = bin('+', var("b"), bin('*', var("c"), var("d")));
    assert_eq!(p.parse_expression(), Ok(bin('<', var("a"), bin('-', bc, var("e")))));
}

#[test]
fn parentheses_override_precedence() {
    let mut p = parser("(a + b) * c");
    assert_eq!(p.parse_expression(), Ok(bin('*', bin('+', var("a"), var("b")), var("c"))));
}

#[test]
fn unknown_operator_ends_the_expression() {
    let mut p = parser("a + b ; c");
    assert_eq!(p.parse_expression(), Ok(bin('+', var("a"), var("b"))));
    assert_eq!(*p.cur_tok(), kaleidoscope::lexer::Token::Char(';'));
}

#[test]
fn parse_errors_are_reported() {
    let mut p = parser("(1");
    assert_eq!(p.parse_paren_expr(), Err("expected ')'".to_string()));

    let mut p = parser("f(1 2)");
    assert_eq!(p.parse_identifier_expr(), Err("Expected ')' or ',' in argument list".to_string()));

    let mut p = parser("if 1 2");
    assert_eq!(p.parse_if_expr(), Err("Expected 'then'".to_string()));

    let mut p = parser("if 1 then 2 3");
    assert_eq!(p.parse_if_expr(), Err("Expected 'else'".to_string()));

    let mut p = parser("for 1");
    assert_eq!(p.parse_for_expr(), Err("expected identifier after 'for'".to_string()));

    let mut p = parser("for i 1");
    assert_eq!(p.parse_for_expr(), Err("expected '=' after for".to_string()));

    let mut p = parser("for i = 1 2");
    assert_eq!(p.parse_for_expr(), Err("expected ',' after for start value".to_string()));

    let mut p = parser("for i = 1, 2 4");
    assert_eq!(p.parse_for_expr(), Err("expected 'in' after for".to_string()));

    let mut p = parser(")");
    assert_eq!(p.parse_expression(), Err("unknown token when expecting an expression".to_string()));

    let mut p = parser("(a)");
    assert_eq!(p.parse_prototype(), Err("Expected function name in prototype".to_string()));

    let mut p = parser("foo a");
    assert_eq!(p.parse_prototype(), Err("Expected '(' in prototype".to_string()));

    let mut p = parser("foo(a b");
    assert_eq!(p.parse_prototype(), Err("Expected ')' in prototype".to_string()));
}

#[test]
fn top_level_expression_is_an_anonymous_function() {
    let mut p = parser("1 + 2");
    let func = p.parse_top_level_expr().unwrap();
    assert_eq!(func.0, PrototypeAST("__anon_expr".into(), vec![]));
    assert_eq!(func.1, bin('+', num("1"), num("2")));
}

#[test]
fn prototype_parameters_may_omit_commas() {
    let mut p = parser("f(a b, c)");
    assert_eq!(
        p.parse_prototype(),
        Ok(PrototypeAST("f".into(), vec!["a".into(), "b".into(), "c".into()]))
    );
}

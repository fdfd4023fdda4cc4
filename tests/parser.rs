use chonk::ast::{Expr, Stmt};
use chonk::lexer::scan_tokens;
use chonk::number::Number;
use chonk::parser::{ParseError, Parser, parse};
use chonk::printer::AstPrinter;
use chonk::token::{Literal, Token, TokenType};

fn ident(name: &str, line: usize) -> Token {
    Token { ty: TokenType::Ident, lexeme: String::from(name), literal: None, line }
}

#[test]
fn test_parse() -> Result<(), ParseError> {
    let input = "\
            a = 5;
            b = 10;

            func add(a, b) {
                return a + b;
            }

            result = add(a, b);
            echo result;
        ";

    let statements = Vec::from([
        Stmt::Expr(Expr::Assign(
            ident("a", 1),
            Box::new(Expr::Constant(Literal::Number(Number::from_int(5)))),
        )),
        Stmt::Expr(Expr::Assign(
            ident("b", 2),
            Box::new(Expr::Constant(Literal::Number(Number::from_int(10)))),
        )),
        Stmt::Function {
            name: ident("add", 4),
            params: Vec::from([ident("a", 4), ident("b", 4)]),
            body: Vec::from([Stmt::Return(Some(Expr::Binary(
                Box::new(Expr::Variable(ident("a", 5))),
                Token { ty: TokenType::Plus, lexeme: String::from("+"), literal: None, line: 5 },
                Box::new(Expr::Variable(ident("b", 5))),
            )))]),
        },
        Stmt::Expr(Expr::Assign(
            ident("result", 8),
            Box::new(Expr::Call(
                Box::new(Expr::Variable(ident("add", 8))),
                Token { ty: TokenType::RParen, lexeme: String::from(")"), literal: None, line: 8 },
                Vec::from([Expr::Variable(ident("a", 8)), Expr::Variable(ident("b", 8))]),
            )),
        )),
        Stmt::Echo(Expr::Variable(ident("result", 9))),
    ]);

    let tokens = scan_tokens(input).unwrap();
    let parser = Parser::new(tokens);
    assert_eq!(parser.parse()?, statements);
    Ok(())
}

fn print_first(src: &str) -> String {
    let tokens = scan_tokens(src).unwrap();
    match parse(&tokens).unwrap().remove(0) {
        Stmt::Expr(e) => AstPrinter.print_ast(e),
        other => panic!("not an expression statement: {other:?}"),
    }
}

#[test]
fn precedence_ladder() {
    assert_eq!(print_first("1 + 2 * 3;"), "(+ 1 (* 2 3))");
    assert_eq!(print_first("1 - 2 - 3;"), "(- (- 1 2) 3)");
    assert_eq!(print_first("a = b = 1;"), "(= a (= b 1))");
    assert_eq!(print_first("a || b && c == d < e + f * -g;"), "(|| a (&& b (== c (< d (+ e (* f (- g)))))))");
}

#[test]
fn prefix_printer_covers_every_expression() {
    assert_eq!(print_first("(1.5);"), "(group 1.5)");
    assert_eq!(print_first("x += 2;"), "(+= x 2)");
    assert_eq!(print_first("x++;"), "(++ x)");
    assert_eq!(print_first("--x;"), "(-- x)");
    assert_eq!(print_first("f(1, 'a')(true);"), "(call (call f 1 a) true)");
    assert_eq!(print_first("!null;"), "(! null)");
}

#[test]
fn suffix_increment_desugars_to_prefix() {
    let a = parse(&scan_tokens("x++;").unwrap()).unwrap();
    let b = parse(&scan_tokens("++x;").unwrap()).unwrap();
    match (&a[0], &b[0]) {
        (Stmt::Expr(Expr::Prefix { operator: o1, name: n1 }), Stmt::Expr(Expr::Prefix { operator: o2, name: n2 })) => {
            assert_eq!(o1.ty, TokenType::DoublePlus);
            assert_eq!(o2.ty, TokenType::DoublePlus);
            assert_eq!(n1.lexeme, "x");
            assert_eq!(n2.lexeme, "x");
        }
        other => panic!("unexpected {other:?}"),
    }
}

#[test]
fn statements_of_every_kind() {
    let src = "func f() { return; } while x { break; continue; } if x { } else { del a, b; } echo 1;";
    let stmts = parse(&scan_tokens(src).unwrap()).unwrap();
    assert_eq!(stmts.len(), 4);
    match &stmts[0] {
        Stmt::Function { name, params, body } => {
            assert_eq!(name.lexeme, "f");
            assert!(params.is_empty());
            assert_eq!(body, &vec![Stmt::Return(None)]);
        }
        other => panic!("{other:?}"),
    }
    match &stmts[1] {
        Stmt::While { body, .. } => assert_eq!(body, &vec![Stmt::Break, Stmt::Continue]),
        other => panic!("{other:?}"),
    }
    match &stmts[2] {
        Stmt::If { body, or_else: Some(e), .. } => {
            assert!(body.is_empty());
            match &e[0] {
                Stmt::Delete(names) => assert_eq!(names.len(), 2),
                other => panic!("{other:?}"),
            }
        }
        other => panic!("{other:?}"),
    }
}

#[test]
fn invalid_assignment_target_is_an_error() {
    let err = parse(&scan_tokens("1 = 2;").unwrap()).unwrap_err();
    match err {
        ParseError::InvalidTarget(t) => assert_eq!(t.ty, TokenType::Equal),
        other => panic!("{other:?}"),
    }
    let err = parse(&scan_tokens("++1;").unwrap()).unwrap_err();
    assert!(matches!(err, ParseError::InvalidTarget(_)));
    let err = parse(&scan_tokens("(a) += 1;").unwrap()).unwrap_err();
    assert!(matches!(err, ParseError::InvalidTarget(_)));
}

#[test]
fn missing_semicolon_is_a_token_mismatch() {
    let err = parse(&scan_tokens("echo 1").unwrap()).unwrap_err();
    match err {
        ParseError::TokenMismatch { expected, found, message } => {
            assert_eq!(expected, TokenType::Semicolon);
            assert_eq!(found.ty, TokenType::Eof);
            assert_eq!(message, "Expected ';' after value");
        }
        other => panic!("{other:?}"),
    }
}

#[test]
fn missing_operand_is_expected_expression() {
    let err = parse(&scan_tokens("echo 1 + ;").unwrap()).unwrap_err();
    match err {
        ParseError::ExpectedExpression(t) => assert_eq!(t.ty, TokenType::Semicolon),
        other => panic!("{other:?}"),
    }
}

#[test]
fn parsing_twice_gives_the_same_tree() {
    let tokens = scan_tokens("func g(n) { if n < 2 { return n; } return g(n - 1) + g(n - 2); } echo g(5);").unwrap();
    assert_eq!(parse(&tokens).unwrap(), parse(&tokens).unwrap());
}

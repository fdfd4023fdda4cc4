use std::collections::BTreeMap;

use chonk::roundtrip::print_tokens;
use chonk::lexer::{LexError, Lexer, is_potential_identifier_char, is_potential_identifier_start, scan_tokens};
use chonk::number::Number;
use chonk::token::{Literal, TokenType};

#[test]
fn test_scan_tokens() {
    let input = "
            a = 5;
            b = 10;

            func add(a, b) {
                return a + b;
            }

            result = add(a, b);

            if a < b {
                return true;
            } else {
                return false;
            }
            10 == 10;
            a != b;
            \"foobar\"
        ";

    let test_tokens = BTreeMap::from([
        (TokenType::Ident, "a"),
        (TokenType::Equal, "="),
        (TokenType::Number, "5"),
        (TokenType::Semicolon, ";"),
        (TokenType::Ident, "b"),
        (TokenType::Equal, "="),
        (TokenType::Number, "10"),
        (TokenType::Semicolon, ";"),
        (TokenType::Func, "func"),
        (TokenType::Ident, "add"),
        (TokenType::LParen, "("),
        (TokenType::Ident, "a"),
        (TokenType::Comma, ","),
        (TokenType::Ident, "b"),
        (TokenType::RParen, ")"),
        (TokenType::LBrace, "{"),
        (TokenType::Return, "return"),
        (TokenType::Ident, "a"),
        (TokenType::Plus, "+"),
        (TokenType::Ident, "b"),
        (TokenType::Semicolon, ";"),
        (TokenType::RBrace, "}"),
        (TokenType::Ident, "result"),
        (TokenType::Equal, "="),
        (TokenType::Ident, "add"),
        (TokenType::LParen, "("),
        (TokenType::Ident, "a"),
        (TokenType::Comma, ","),
        (TokenType::Ident, "b"),
        (TokenType::RParen, ")"),
        (TokenType::Semicolon, ";"),
        (TokenType::If, "if"),
        (TokenType::Ident, "a"),
        (TokenType::Less, "<"),
        (TokenType::Ident, "b"),
        (TokenType::LBrace, "{"),
        (TokenType::Return, "return"),
        (TokenType::True, "true"),
        (TokenType::Semicolon, ";"),
        (TokenType::RBrace, "}"),
        (TokenType::Else, "else"),
        (TokenType::LBrace, "{"),
        (TokenType::Return, "return"),
        (TokenType::False, "false"),
        (TokenType::Semicolon, ";"),
        (TokenType::RBrace, "}"),
        (TokenType::Number, "10"),
        (TokenType::EqEqual, "=="),
        (TokenType::Number, "10"),
        (TokenType::Semicolon, ";"),
        (TokenType::Ident, "a"),
        (TokenType::BangEqual, "!="),
        (TokenType::Ident, "b"),
        (TokenType::Semicolon, ";"),
        (TokenType::String, "\"foobar\""),
        (TokenType::Eof, ""),
    ]);

    let tokens = match scan_tokens(input) {
        Ok(t) => t,
        Err(e) => panic!("{e:?}"),
    };
    let mut scanned_tokens = BTreeMap::new();

    for token in tokens.iter() {
        scanned_tokens.insert(token.ty, token.lexeme.as_str());
    }

    assert_eq!(scanned_tokens, test_tokens);
}

fn kinds(src: &str) -> Vec<TokenType> {
    scan_tokens(src).unwrap().iter().map(|t| t.ty).collect()
}

#[test]
fn compound_operators_use_maximal_munch() {
    assert_eq!(
        kinds("== != <= >= && || ++ -- += -= *= /= %= = ! < >"),
        vec![
            TokenType::EqEqual, TokenType::BangEqual, TokenType::LessEqual, TokenType::GreaterEqual, TokenType::DoubleAmper, TokenType::DoubleVBar, TokenType::DoublePlus,
            TokenType::DoubleMinus, TokenType::PlusEqual, TokenType::MinusEqual, TokenType::StarEqual, TokenType::SlashEqual, TokenType::PercentEqual, TokenType::Equal, TokenType::Bang,
            TokenType::Less, TokenType::Greater, TokenType::Eof
        ]
    );
    assert_eq!(kinds("==="), vec![TokenType::EqEqual, TokenType::Equal, TokenType::Eof]);
}

#[test]
fn keywords_override_identifiers() {
    assert_eq!(
        kinds("null true false func if else while return del echo break continue funcs _x"),
        vec![
            TokenType::Null, TokenType::True, TokenType::False, TokenType::Func, TokenType::If, TokenType::Else, TokenType::While, TokenType::Return, TokenType::Delete, TokenType::Echo, TokenType::Break, TokenType::Continue, TokenType::Ident,
            TokenType::Ident, TokenType::Eof
        ]
    );
}

#[test]
fn comments_and_blanks_make_no_tokens() {
    let tokens = scan_tokens("# a comment\n  x # more\n\ty").unwrap();
    let ks: Vec<TokenType> = tokens.iter().map(|t| t.ty).collect();
    assert_eq!(ks, vec![TokenType::Ident, TokenType::Ident, TokenType::Eof]);
    assert_eq!(tokens[0].line, 2);
    assert_eq!(tokens[1].line, 3);
    assert_eq!(tokens[2].line, 3);
}

#[test]
fn empty_source_gives_only_eof() {
    let tokens = scan_tokens("").unwrap();
    assert_eq!(tokens.len(), 1);
    assert_eq!(tokens[0].ty, TokenType::Eof);
    assert_eq!(tokens[0].lexeme, "");
    assert_eq!(tokens[0].line, 1);
}

#[test]
fn number_literals_keep_their_value() {
    let tokens = scan_tokens("42 3.25 7").unwrap();
    assert_eq!(tokens[0].literal, Some(Literal::Number(Number::from_int(42))));
    assert_eq!(tokens[1].literal, Some(Literal::Number(Number { raw: 3_250_000_000 })));
    assert_eq!(tokens[1].lexeme, "3.25");
    assert_eq!(tokens[2].lexeme, "7");
    assert_eq!(tokens[2].literal, Some(Literal::Number(Number::from_int(7))));
    // a point not followed by a digit is not part of the number
    assert_eq!(
        scan_tokens("7.").unwrap_err(),
        LexError::UnexpectedChar { character: '.', line: 1 }
    );
}

#[test]
fn strings_take_either_quote_and_span_lines() {
    let tokens = scan_tokens("'it' \"a\nb\" x").unwrap();
    assert_eq!(tokens[0].literal, Some(Literal::String("it".to_string())));
    assert_eq!(tokens[0].lexeme, "'it'");
    assert_eq!(tokens[1].literal, Some(Literal::String("a\nb".to_string())));
    assert_eq!(tokens[1].line, 2);
    assert_eq!(tokens[2].line, 2);
}

#[test]
fn unterminated_string_is_an_error() {
    assert_eq!(scan_tokens("x = 'abc\n\n").unwrap_err(), LexError::UnterminatedString(3));
}

#[test]
fn unexpected_character_is_an_error() {
    assert_eq!(
        scan_tokens("a\n@").unwrap_err(),
        LexError::UnexpectedChar { character: '@', line: 2 }
    );
    assert_eq!(
        scan_tokens("a & b").unwrap_err(),
        LexError::UnexpectedChar { character: '&', line: 1 }
    );
}

#[test]
fn identifier_helpers_classify_characters() {
    assert!(is_potential_identifier_start('a'));
    assert!(is_potential_identifier_start('_'));
    assert!(!is_potential_identifier_start('1'));
    assert!(is_potential_identifier_char('1'));
    assert!(!is_potential_identifier_char('+'));
}

#[test]
fn is_eof_tells_the_end() {
    assert!(chonk::token::is_eof(TokenType::Eof));
    assert!(!chonk::token::is_eof(TokenType::Ident));
}

#[test]
fn printing_then_relexing_keeps_kinds_and_literals() {
    let src = "func f(a) {\n return a * 2.5 + 'x\ny'; } echo f(1) != null;";
    let first = scan_tokens(src).unwrap();
    let body = &first[..first.len() - 1];
    let printed = print_tokens(body);
    assert_eq!(printed, "func f ( a ) { return a * 2.5 + 'x\ny' ; } echo f ( 1 ) != null ; ");
    let again = scan_tokens(&printed).unwrap();
    assert_eq!(first.len(), again.len());
    for (a, b) in first.iter().zip(again.iter()) {
        assert_eq!(a.ty, b.ty);
        assert_eq!(a.literal, b.literal);
    }
}

#[test]
fn lexer_struct_scans_its_input() {
    let lexer = Lexer::new("x = 1;");
    let tokens = lexer.scan_tokens().unwrap();
    assert_eq!(tokens.len(), 5);
    assert_eq!(tokens[2].literal, Some(Literal::Number(Number::from_int(1))));
}

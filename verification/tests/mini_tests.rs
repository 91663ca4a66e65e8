use hulk::mini::checker::check;
use hulk::mini::lexer::lex;
use hulk::mini::parser::parse;
use hulk::mini::token::Token;

fn ident(s: &str) -> Token {
    Token::Ident(s.to_string())
}

fn digits(s: &str) -> Token {
    Token::Int(s.to_string())
}

#[test]
fn mini_lex_reads_keywords_names_numbers_and_marks() {
    assert_eq!(
        lex("let x: int = 12 + y3;"),
        vec![Token::Let, ident("x"), Token::Colon, ident("int"), Token::Assign, digits("12"), Token::Plus, ident("y3"), Token::Semicolon]
    );
    assert_eq!(
        lex("fn(a,b){if true else false} - * /"),
        vec![
            Token::Fn, Token::LParen, ident("a"), Token::Comma, ident("b"), Token::RParen, Token::LBrace, Token::If,
            Token::True, Token::Else, Token::False, Token::RBrace, Token::Minus, Token::Star, Token::Slash,
        ]
    );
}

#[test]
fn mini_lex_takes_the_longest_word() {
    assert_eq!(lex("letx lets let_ _let"), vec![ident("letx"), ident("lets"), ident("let_"), ident("_let")]);
    assert_eq!(lex("12abc"), vec![digits("12"), ident("abc")]);
    assert_eq!(lex("007"), vec![digits("007")]);
}

#[test]
fn mini_lex_passes_over_white_space_and_unreadable_characters() {
    assert_eq!(lex(" \t\n\r"), vec![]);
    assert_eq!(lex("#a\u{e9}b ?"), vec![ident("a"), ident("b")]);
    assert_eq!(lex(""), vec![]);
}

#[test]
fn mini_parse_and_check_a_source() {
    let prog = parse("let x: int = (1 + 2); (x * 3);").expect("parse failed");
    assert_eq!(prog.stmts.len(), 2);
    assert!(check(&prog).is_ok());
    assert!(parse("let = 3;").is_err());
}

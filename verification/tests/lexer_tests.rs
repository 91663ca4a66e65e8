use hulk::lexer::{LexError, Lexer, Span, Token, TokenKind};

/// A number token, written as `Display` writes `x`; the helpers below write
/// every number token that way, so that equal values compare equal.
fn number(x: f64) -> TokenKind {
    TokenKind::Number(format!("{}", x))
}

fn canonical(k: TokenKind) -> TokenKind {
    match k {
        TokenKind::Number(s) => number(s.parse::<f64>().unwrap()),
        other => other,
    }
}


// ── Helpers ──────────────────────────────────────────────────────────────

fn lex(src: &str) -> Vec<TokenKind> {
    Lexer::new(src)
        .tokenize()
        .unwrap()
        .into_iter()
        .map(|t| canonical(t.kind))
        .collect()
}

fn lex_full(src: &str) -> Vec<Token> {
    Lexer::new(src).tokenize().unwrap()
}

fn lex_err(src: &str) -> LexError {
    Lexer::new(src).tokenize().unwrap_err()
}

fn kinds_no_eof(src: &str) -> Vec<TokenKind> {
    let mut v = lex(src);
    assert_eq!(v.last(), Some(&TokenKind::Eof));
    v.pop();
    v
}

// ══════════════════════════════════════════════════════════════════════════
// 1. NUMBER LITERALS
// ══════════════════════════════════════════════════════════════════════════

#[test]
fn number_integer() {
    assert_eq!(kinds_no_eof("0"),    vec![number(0.0)]);
    assert_eq!(kinds_no_eof("42"),   vec![number(42.0)]);
    assert_eq!(kinds_no_eof("1000"), vec![number(1000.0)]);
}

#[test]
fn number_float() {
    assert_eq!(kinds_no_eof("3.14"),  vec![number(3.14)]);
    assert_eq!(kinds_no_eof("0.5"),   vec![number(0.5)]);
    assert_eq!(kinds_no_eof("100.0"), vec![number(100.0)]);
}

#[test]
fn number_dot_not_float_when_no_digit_after() {
    // "1." should lex as Number(1) followed by Dot, not a float
    let k = kinds_no_eof("1.");
    assert_eq!(k[0], number(1.0));
    assert_eq!(k[1], TokenKind::Dot);
}

#[test]
fn number_multiple_on_same_line() {
    let k = kinds_no_eof("1 2 3");
    assert_eq!(k, vec![
        number(1.0),
        number(2.0),
        number(3.0),
    ]);
}

// ══════════════════════════════════════════════════════════════════════════
// 2. STRING LITERALS
// ══════════════════════════════════════════════════════════════════════════

#[test]
fn string_empty() {
    assert_eq!(kinds_no_eof(r#""""#), vec![TokenKind::StringLit("".into())]);
}

#[test]
fn string_plain() {
    assert_eq!(kinds_no_eof(r#""hello""#), vec![TokenKind::StringLit("hello".into())]);
}

#[test]
fn string_with_spaces() {
    assert_eq!(
        kinds_no_eof(r#""hello world""#),
        vec![TokenKind::StringLit("hello world".into())]
    );
}

#[test]
fn string_escape_newline() {
    assert_eq!(
        kinds_no_eof(r#""a\nb""#),
        vec![TokenKind::StringLit("a\nb".into())]
    );
}

#[test]
fn string_escape_tab() {
    assert_eq!(
        kinds_no_eof(r#""a\tb""#),
        vec![TokenKind::StringLit("a\tb".into())]
    );
}

#[test]
fn string_escape_backslash() {
    assert_eq!(
        kinds_no_eof(r#""a\\b""#),
        vec![TokenKind::StringLit("a\\b".into())]
    );
}

#[test]
fn string_escape_quote() {
    assert_eq!(
        kinds_no_eof(r#""say \"hi\"""#),
        vec![TokenKind::StringLit(r#"say "hi""#.into())]
    );
}

#[test]
fn string_all_escapes_combined() {
    assert_eq!(
        kinds_no_eof(r#""a\nb\tc\\d\"e""#),
        vec![TokenKind::StringLit("a\nb\tc\\d\"e".into())]
    );
}

// ══════════════════════════════════════════════════════════════════════════
// 3. BOOLEAN LITERALS
// ══════════════════════════════════════════════════════════════════════════

#[test]
fn bool_true_false() {
    let k = kinds_no_eof("true false");
    assert_eq!(k, vec![TokenKind::True, TokenKind::False]);
}

#[test]
fn bool_not_keyword_when_prefix() {
    // "trueish" must be an identifier, not `true` + `ish`
    let k = kinds_no_eof("trueish");
    assert_eq!(k, vec![TokenKind::Ident("trueish".into())]);
}

// ══════════════════════════════════════════════════════════════════════════
// 4. KEYWORDS (complete set)
// ══════════════════════════════════════════════════════════════════════════

#[test]
fn keywords_all() {
    let k = kinds_no_eof(
        "let in if elif else while for function class is new self case of with as null true false"
    );
    assert_eq!(k, vec![
        TokenKind::Let, TokenKind::In, TokenKind::If, TokenKind::Elif, TokenKind::Else, TokenKind::While, TokenKind::For, TokenKind::Function,
        TokenKind::Class, TokenKind::Is, TokenKind::New, TokenKind::Self_, TokenKind::Case, TokenKind::Of, TokenKind::With, TokenKind::As, TokenKind::Null, TokenKind::True, TokenKind::False,
    ]);
}

#[test]
fn keyword_adjacent_to_identifier() {
    // "letting" must NOT be parsed as Let + "ting"
    let k = kinds_no_eof("letting");
    assert_eq!(k, vec![TokenKind::Ident("letting".into())]);
}

// ══════════════════════════════════════════════════════════════════════════
// 5. IDENTIFIERS
// ══════════════════════════════════════════════════════════════════════════

#[test]
fn identifier_simple() {
    let k = kinds_no_eof("x");
    assert_eq!(k, vec![TokenKind::Ident("x".into())]);
}

#[test]
fn identifier_with_underscore() {
    let k = kinds_no_eof("my_var _private __dunder");
    assert_eq!(k, vec![
        TokenKind::Ident("my_var".into()),
        TokenKind::Ident("_private".into()),
        TokenKind::Ident("__dunder".into()),
    ]);
}

#[test]
fn identifier_alphanumeric() {
    let k = kinds_no_eof("var1 x2y z99");
    assert_eq!(k, vec![
        TokenKind::Ident("var1".into()),
        TokenKind::Ident("x2y".into()),
        TokenKind::Ident("z99".into()),
    ]);
}

#[test]
fn identifier_type_names() {
    let k = kinds_no_eof("Number Boolean String Object");
    assert_eq!(k, vec![
        TokenKind::Ident("Number".into()),
        TokenKind::Ident("Boolean".into()),
        TokenKind::Ident("String".into()),
        TokenKind::Ident("Object".into()),
    ]);
}

// ══════════════════════════════════════════════════════════════════════════
// 6. ARITHMETIC OPERATORS
// ══════════════════════════════════════════════════════════════════════════

#[test]
fn operators_arithmetic() {
    assert_eq!(kinds_no_eof("+ - * / % ^"), vec![TokenKind::Plus, TokenKind::Minus, TokenKind::Star, TokenKind::Slash, TokenKind::Percent, TokenKind::Caret]);
}

#[test]
fn operators_string_concat() {
    assert_eq!(kinds_no_eof("@ @@"), vec![TokenKind::At, TokenKind::AtAt]);
}

#[test]
fn operators_at_disambiguation() {
    // "@@ @" must lex as AtAt then At, not At + At + At
    assert_eq!(kinds_no_eof("@@@"), vec![TokenKind::AtAt, TokenKind::At]);
}

// ══════════════════════════════════════════════════════════════════════════
// 7. COMPARISON & LOGICAL OPERATORS
// ══════════════════════════════════════════════════════════════════════════

#[test]
fn operators_comparison() {
    assert_eq!(kinds_no_eof("< <= > >= == !="), vec![TokenKind::Lt, TokenKind::Le, TokenKind::Gt, TokenKind::Ge, TokenKind::EqEq, TokenKind::BangEq]);
}

#[test]
fn operators_logical() {
    assert_eq!(kinds_no_eof("& | !"), vec![TokenKind::Amp, TokenKind::Pipe, TokenKind::Bang]);
}

#[test]
fn operators_no_greedy_eq() {
    // "= =" must not collapse into "=="
    assert_eq!(kinds_no_eof("= ="), vec![TokenKind::Eq, TokenKind::Eq]);
}

// ══════════════════════════════════════════════════════════════════════════
// 8. ASSIGNMENT & ARROW OPERATORS
// ══════════════════════════════════════════════════════════════════════════

#[test]
fn arrow_function_body() {
    assert_eq!(kinds_no_eof("->"), vec![TokenKind::Arrow]);
}

#[test]
fn destructive_assign() {
    assert_eq!(kinds_no_eof(":="), vec![TokenKind::ColonEq]);
}

#[test]
fn double_arrow() {
    assert_eq!(kinds_no_eof("=>"), vec![TokenKind::DArrow]);
}

#[test]
fn colon_vs_colon_eq() {
    assert_eq!(kinds_no_eof(": :="), vec![TokenKind::Colon, TokenKind::ColonEq]);
}

// ══════════════════════════════════════════════════════════════════════════
// 9. PUNCTUATION
// ══════════════════════════════════════════════════════════════════════════

#[test]
fn punctuation_all() {
    assert_eq!(
        kinds_no_eof("( ) { } [ ] , ; : ."),
        vec![TokenKind::LParen, TokenKind::RParen, TokenKind::LBrace, TokenKind::RBrace, TokenKind::LBracket, TokenKind::RBracket, TokenKind::Comma, TokenKind::Semicolon, TokenKind::Colon, TokenKind::Dot]
    );
}

// ══════════════════════════════════════════════════════════════════════════
// 10. WHITESPACE & COMMENTS
// ══════════════════════════════════════════════════════════════════════════

#[test]
fn whitespace_tabs_and_newlines() {
    let k = kinds_no_eof("1\t2\n3");
    assert_eq!(k, vec![
        number(1.0),
        number(2.0),
        number(3.0),
    ]);
}

#[test]
fn comment_line_skipped() {
    let k = kinds_no_eof("1 // comment here\n2");
    assert_eq!(k, vec![number(1.0), number(2.0)]);
}

#[test]
fn comment_at_end_of_file() {
    let k = kinds_no_eof("x // no newline at eof");
    assert_eq!(k, vec![TokenKind::Ident("x".into())]);
}

#[test]
fn comment_only_file() {
    let k = kinds_no_eof("// entire file is a comment");
    assert!(k.is_empty());
}

#[test]
fn multiple_comments() {
    let k = kinds_no_eof("// first\n// second\nx");
    assert_eq!(k, vec![TokenKind::Ident("x".into())]);
}

#[test]
fn empty_source() {
    let k = lex("");
    assert_eq!(k, vec![TokenKind::Eof]);
}

#[test]
fn whitespace_only() {
    let k = lex("   \n\t  ");
    assert_eq!(k, vec![TokenKind::Eof]);
}

// ══════════════════════════════════════════════════════════════════════════
// 11. SPAN / POSITION TRACKING
// ══════════════════════════════════════════════════════════════════════════

#[test]
fn span_single_token() {
    let tokens = lex_full("hello");
    let t = &tokens[0];
    assert_eq!(t.span.line, 1);
    assert_eq!(t.span.col,  1);
    assert_eq!(t.span.start, 0);
    assert_eq!(t.span.end,   5);
}

#[test]
fn span_second_token_on_same_line() {
    let tokens = lex_full("x y");
    let y = &tokens[1];
    assert_eq!(y.span.line, 1);
    assert_eq!(y.span.col,  3);
}

#[test]
fn span_token_on_second_line() {
    let tokens = lex_full("x\ny");
    let y = &tokens[1];
    assert_eq!(y.span.line, 2);
    assert_eq!(y.span.col,  1);
}

#[test]
fn lexeme_preserved() {
    let tokens = lex_full("myVar 3.14");
    assert_eq!(tokens[0].lexeme, "myVar");
    assert_eq!(tokens[1].lexeme, "3.14");
}

// ══════════════════════════════════════════════════════════════════════════
// 12. ERROR CASES
// ══════════════════════════════════════════════════════════════════════════

#[test]
fn error_unexpected_char_dollar() {
    // '$' is now a valid token (macro parameter prefix) — test that it lexes correctly
    let toks = Lexer::new("$").tokenize().unwrap();
    assert_eq!(toks[0].kind, TokenKind::Dollar);
}

#[test]
fn error_unexpected_char_hash() {
    assert!(matches!(lex_err("#"), LexError::UnexpectedChar { ch: '#', .. }));
}

#[test]
fn error_unexpected_char_question() {
    assert!(matches!(lex_err("?"), LexError::UnexpectedChar { ch: '?', .. }));
}

#[test]
fn error_unterminated_string() {
    assert!(matches!(lex_err(r#""oops"#), LexError::UnterminatedString { .. }));
}

#[test]
fn error_unterminated_string_with_newline() {
    // A newline inside a string closes it forcibly → error
    assert!(matches!(lex_err("\"bad\nnews\""), LexError::UnterminatedString { .. }));
}

#[test]
fn error_unknown_escape() {
    assert!(matches!(lex_err(r#""\z""#), LexError::UnknownEscape { ch: 'z', .. }));
}

#[test]
fn error_position_reported_correctly() {
    // "x\n  #": '#' is on line 2, at col 3 (two spaces then hash, 1-indexed)
    let err = Lexer::new("x\n  #").tokenize().unwrap_err();
    match err {
        LexError::UnexpectedChar { ch, line, col } => {
            assert_eq!(ch, '#');
            assert_eq!(line, 2);
            assert_eq!(col, 3);
        }
        _ => panic!("wrong error kind"),
    }
}

// ══════════════════════════════════════════════════════════════════════════
// 13. HULK PROGRAM SNIPPETS (integration)
// ══════════════════════════════════════════════════════════════════════════

#[test]
fn snippet_let_in() {
    let k = kinds_no_eof("let x = 5 in x + 1;");
    assert_eq!(k, vec![
        TokenKind::Let, TokenKind::Ident("x".into()), TokenKind::Eq, number(5.0),
        TokenKind::In, TokenKind::Ident("x".into()), TokenKind::Plus, number(1.0), TokenKind::Semicolon,
    ]);
}

#[test]
fn snippet_let_typed() {
    let k = kinds_no_eof("let x: number = 5 in x;");
    assert_eq!(k, vec![
        TokenKind::Let, TokenKind::Ident("x".into()), TokenKind::Colon, TokenKind::Ident("number".into()),
        TokenKind::Eq, number(5.0), TokenKind::In, TokenKind::Ident("x".into()), TokenKind::Semicolon,
    ]);
}

#[test]
fn snippet_if_else() {
    let k = kinds_no_eof("if (x > 0) x else -1;");
    assert_eq!(k, vec![
        TokenKind::If, TokenKind::LParen, TokenKind::Ident("x".into()), TokenKind::Gt, number(0.0), TokenKind::RParen,
        TokenKind::Ident("x".into()), TokenKind::Else, TokenKind::Minus, number(1.0), TokenKind::Semicolon,
    ]);
}

#[test]
fn snippet_while_loop() {
    let k = kinds_no_eof("while (i < 10) { i := i + 1; }");
    assert_eq!(k, vec![
        TokenKind::While, TokenKind::LParen, TokenKind::Ident("i".into()), TokenKind::Lt, number(10.0), TokenKind::RParen,
        TokenKind::LBrace, TokenKind::Ident("i".into()), TokenKind::ColonEq, TokenKind::Ident("i".into()), TokenKind::Plus, number(1.0),
        TokenKind::Semicolon, TokenKind::RBrace,
    ]);
}

#[test]
fn snippet_function_decl() {
    let k = kinds_no_eof("function add(a: number, b: number): number -> a + b;");
    assert_eq!(k, vec![
        TokenKind::Function, TokenKind::Ident("add".into()),
        TokenKind::LParen,
            TokenKind::Ident("a".into()), TokenKind::Colon, TokenKind::Ident("number".into()), TokenKind::Comma,
            TokenKind::Ident("b".into()), TokenKind::Colon, TokenKind::Ident("number".into()),
        TokenKind::RParen,
        TokenKind::Colon, TokenKind::Ident("number".into()),
        TokenKind::Arrow,
        TokenKind::Ident("a".into()), TokenKind::Plus, TokenKind::Ident("b".into()), TokenKind::Semicolon,
    ]);
}

#[test]
fn snippet_class_decl() {
    let k = kinds_no_eof("class Animal is Object { }");
    assert_eq!(k, vec![
        TokenKind::Class, TokenKind::Ident("Animal".into()), TokenKind::Is, TokenKind::Ident("Object".into()),
        TokenKind::LBrace, TokenKind::RBrace,
    ]);
}

#[test]
fn snippet_new_instance() {
    let k = kinds_no_eof("let p = new Point(1, 2) in p;");
    assert_eq!(k, vec![
        TokenKind::Let, TokenKind::Ident("p".into()), TokenKind::Eq,
        TokenKind::New, TokenKind::Ident("Point".into()), TokenKind::LParen, number(1.0), TokenKind::Comma, number(2.0), TokenKind::RParen,
        TokenKind::In, TokenKind::Ident("p".into()), TokenKind::Semicolon,
    ]);
}

#[test]
fn snippet_string_concat() {
    let k = kinds_no_eof(r#""Hello" @ " " @ name"#);
    assert_eq!(k, vec![
        TokenKind::StringLit("Hello".into()), TokenKind::At,
        TokenKind::StringLit(" ".into()), TokenKind::At,
        TokenKind::Ident("name".into()),
    ]);
}

#[test]
fn snippet_string_concat_spaced() {
    let k = kinds_no_eof(r#""Hello" @@ name"#);
    assert_eq!(k, vec![
        TokenKind::StringLit("Hello".into()), TokenKind::AtAt, TokenKind::Ident("name".into()),
    ]);
}

#[test]
fn snippet_case_expression() {
    let k = kinds_no_eof("case x of { id: Animal -> id.speak(); }");
    assert_eq!(k, vec![
        TokenKind::Case, TokenKind::Ident("x".into()), TokenKind::Of,
        TokenKind::LBrace,
            TokenKind::Ident("id".into()), TokenKind::Colon, TokenKind::Ident("Animal".into()), TokenKind::Arrow,
            TokenKind::Ident("id".into()), TokenKind::Dot, TokenKind::Ident("speak".into()), TokenKind::LParen, TokenKind::RParen, TokenKind::Semicolon,
        TokenKind::RBrace,
    ]);
}

#[test]
fn snippet_with_expression() {
    let k = kinds_no_eof("with (foo() as x) x.value else 0;");
    assert_eq!(k, vec![
        TokenKind::With, TokenKind::LParen,
            TokenKind::Ident("foo".into()), TokenKind::LParen, TokenKind::RParen, TokenKind::As, TokenKind::Ident("x".into()),
        TokenKind::RParen,
        TokenKind::Ident("x".into()), TokenKind::Dot, TokenKind::Ident("value".into()),
        TokenKind::Else, number(0.0), TokenKind::Semicolon,
    ]);
}

#[test]
fn snippet_array_new() {
    let k = kinds_no_eof("new number[10]");
    assert_eq!(k, vec![
        TokenKind::New, TokenKind::Ident("number".into()), TokenKind::LBracket, number(10.0), TokenKind::RBracket,
    ]);
}

#[test]
fn snippet_self_method_call() {
    let k = kinds_no_eof("self.area()");
    assert_eq!(k, vec![
        TokenKind::Self_, TokenKind::Dot, TokenKind::Ident("area".into()), TokenKind::LParen, TokenKind::RParen,
    ]);
}

#[test]
fn snippet_multiline_program() {
    let src = r#"
        function square(x: number): number -> x * x;
        let result = square(5) in
            result;
    "#;
    let k = kinds_no_eof(src);
    assert_eq!(k[0], TokenKind::Function);
    assert_eq!(k[1], TokenKind::Ident("square".into()));
    // last real token before EOF
    let last = k.last().unwrap();
    assert_eq!(*last, TokenKind::Semicolon);
}


// ── The scanner reads a source one way only ──────────────────────────────

#[test]
fn scanning_twice_gives_the_same_tokens() {
    let src = "let x: Number = 3.25 in print(x @@ \"a\\\"b\");";
    assert_eq!(lex_full(src), lex_full(src));
}

#[test]
fn two_character_operators_are_read_whole() {
    assert_eq!(lex(":= => -> == != <= >= @@"), vec![
        TokenKind::ColonEq, TokenKind::DArrow, TokenKind::Arrow, TokenKind::EqEq,
        TokenKind::BangEq, TokenKind::Le, TokenKind::Ge, TokenKind::AtAt, TokenKind::Eof,
    ]);
    assert_eq!(lex(": ="), vec![TokenKind::Colon, TokenKind::Eq, TokenKind::Eof]);
}

#[test]
fn a_number_stops_before_a_dot_without_digits() {
    assert_eq!(lex("1.x"), vec![number(1.0), TokenKind::Dot, TokenKind::Ident("x".into()), TokenKind::Eof]);
    assert_eq!(lex("1.5.2"), vec![number(1.5), TokenKind::Dot, number(2.0), TokenKind::Eof]);
}

#[test]
fn a_closed_string_is_read_as_a_token_not_an_error() {
    assert_eq!(lex(r#""abc""#), vec![TokenKind::StringLit("abc".into()), TokenKind::Eof]);
    assert_eq!(lex(r#""a\"b" x"#), vec![TokenKind::StringLit("a\"b".into()), TokenKind::Ident("x".into()), TokenKind::Eof]);
}

#[test]
fn a_bad_escape_in_a_later_string_is_reported_there() {
    match lex_err(r#""ok" "\q""#) {
        LexError::UnknownEscape { ch, line, col } => {
            assert_eq!(ch, 'q');
            assert_eq!((line, col), (1, 9));
        }
        other => panic!("expected an unknown escape, got {:?}", other),
    }
}

#[test]
fn an_error_after_a_string_is_the_character_after_it() {
    match lex_err(r#""abc" #"#) {
        LexError::UnexpectedChar { ch, line, col } => {
            assert_eq!(ch, '#');
            assert_eq!((line, col), (1, 7));
        }
        other => panic!("expected an unexpected character, got {:?}", other),
    }
}

#[test]
fn unicode_white_space_separates_tokens() {
    assert_eq!(
        lex("a\u{3000}b\u{85}c\u{a0}d"),
        vec![
            TokenKind::Ident("a".into()),
            TokenKind::Ident("b".into()),
            TokenKind::Ident("c".into()),
            TokenKind::Ident("d".into()),
            TokenKind::Eof,
        ]
    );
}

#[test]
fn token_text_is_the_source_bytes_of_its_span() {
    let src = "let é = \"ü\" in é;";
    for t in lex_full(src) {
        assert_eq!(t.lexeme.as_str(), &src[t.span.start..t.span.end]);
    }
    let toks = lex_full(src);
    assert_eq!(toks.last().unwrap().span.start, src.len());
}

#[test]
fn white_space_is_what_std_calls_white_space() {
    for u in 0u32..0x3100 {
        if let Some(c) = char::from_u32(u) {
            let src = format!("a{}b", c);
            let toks = Lexer::new(&src).tokenize();
            let two_names = matches!(
                toks.as_deref(),
                Ok([Token { kind: TokenKind::Ident(x), .. }, Token { kind: TokenKind::Ident(y), .. }, Token { kind: TokenKind::Eof, .. }])
                    if x == "a" && y == "b"
            );
            assert_eq!(two_names, c.is_whitespace(), "U+{:04X}", u);
        }
    }
}

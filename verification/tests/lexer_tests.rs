use minilex::lexer::Lexer;
use minilex::token::{Token, TokenKind};

fn assert_tokens(input: &str, expected: &[(TokenKind, &str)]) {
    let mut lexer = Lexer::new(input);
    for (idx, (kind, literal)) in expected.iter().enumerate() {
        let token = lexer.next_token();
        assert_eq!(
            *literal,
            token.literal.as_str(),
            "tokens[{idx}] - literal wrong for input {input:?}"
        );
        assert_eq!(
            *kind, token.kind,
            "tokens[{idx}] - kind wrong for input {input:?}"
        );
    }
}

#[test]
fn test_next_token() {
    let input = r#"
            let five = 5;
            let ten = 10;

            let add = fn(x, y){
                x+y;
            };
            let result = add(five, ten);
            *+-/<>!;
            "#;
    let expected: Vec<Token> = vec![
        Token {
            kind: TokenKind::Let,
            literal: "let".to_string(),
        },
        Token {
            kind: TokenKind::Ident,
            literal: "five".to_string(),
        },
        Token {
            kind: TokenKind::Assign,
            literal: "=".to_string(),
        },
        Token {
            kind: TokenKind::Int,
            literal: "5".to_string(),
        },
        Token {
            kind: TokenKind::Semicolon,
            literal: ";".to_string(),
        },
        Token {
            kind: TokenKind::Let,
            literal: "let".to_string(),
        },
        Token {
            kind: TokenKind::Ident,
            literal: "ten".to_string(),
        },
        Token {
            kind: TokenKind::Assign,
            literal: "=".to_string(),
        },
        Token {
            kind: TokenKind::Int,
            literal: "10".to_string(),
        },
        Token {
            kind: TokenKind::Semicolon,
            literal: ";".to_string(),
        },
        Token {
            kind: TokenKind::Let,
            literal: "let".to_string(),
        },
        Token {
            kind: TokenKind::Ident,
            literal: "add".to_string(),
        },
        Token {
            kind: TokenKind::Assign,
            literal: "=".to_string(),
        },
        Token {
            kind: TokenKind::Function,
            literal: "fn".to_string(),
        },
        Token {
            kind: TokenKind::Lparen,
            literal: "(".to_string(),
        },
        Token {
            kind: TokenKind::Ident,
            literal: "x".to_string(),
        },
        Token {
            kind: TokenKind::Comma,
            literal: ",".to_string(),
        },
        Token {
            kind: TokenKind::Ident,
            literal: "y".to_string(),
        },
        Token {
            kind: TokenKind::Rparen,
            literal: ")".to_string(),
        },
        Token {
            kind: TokenKind::Lbrace,
            literal: "{".to_string(),
        },
        Token {
            kind: TokenKind::Ident,
            literal: "x".to_string(),
        },
        Token {
            kind: TokenKind::Plus,
            literal: "+".to_string(),
        },
        Token {
            kind: TokenKind::Ident,
            literal: "y".to_string(),
        },
        Token {
            kind: TokenKind::Semicolon,
            literal: ";".to_string(),
        },
        Token {
            kind: TokenKind::Rbrace,
            literal: "}".to_string(),
        },
        Token {
            kind: TokenKind::Semicolon,
            literal: ";".to_string(),
        },
        Token {
            kind: TokenKind::Let,
            literal: "let".to_string(),
        },
        Token {
            kind: TokenKind::Ident,
            literal: "result".to_string(),
        },
        Token {
            kind: TokenKind::Assign,
            literal: "=".to_string(),
        },
        Token {
            kind: TokenKind::Ident,
            literal: "add".to_string(),
        },
        Token {
            kind: TokenKind::Lparen,
            literal: "(".to_string(),
        },
        Token {
            kind: TokenKind::Ident,
            literal: "five".to_string(),
        },
        Token {
            kind: TokenKind::Comma,
            literal: ",".to_string(),
        },
        Token {
            kind: TokenKind::Ident,
            literal: "ten".to_string(),
        },
        Token {
            kind: TokenKind::Rparen,
            literal: ")".to_string(),
        },
        Token {
            kind: TokenKind::Semicolon,
            literal: ";".to_string(),
        },
        Token {
            kind: TokenKind::Asterisk,
            literal: "*".to_string(),
        },
        Token {
            kind: TokenKind::Plus,
            literal: "+".to_string(),
        },
        Token {
            kind: TokenKind::Minus,
            literal: "-".to_string(),
        },
        Token {
            kind: TokenKind::Slash,
            literal: "/".to_string(),
        },
        Token {
            kind: TokenKind::Lt,
            literal: "<".to_string(),
        },
        Token {
            kind: TokenKind::Gt,
            literal: ">".to_string(),
        },
        Token {
            kind: TokenKind::Bang,
            literal: "!".to_string(),
        },
        Token {
            kind: TokenKind::Semicolon,
            literal: ";".to_string(),
        },
        Token {
            kind: TokenKind::Eof,
            literal: "".to_string(),
        },
    ];

    let mut lexer = Lexer::new(input);
    for (idx, exp_token) in expected.into_iter().enumerate() {
        let recv_token = lexer.next_token();
        assert_eq!(
            exp_token.literal, recv_token.literal,
            "tests[{idx}] - literal wrong. expected={}, got={}",
            exp_token.literal, recv_token.literal
        );
        assert_eq!(
            exp_token.kind, recv_token.kind,
            "tests[{idx}] - token type wrong. expected={:?}, got={:?}",
            exp_token.kind, recv_token.kind
        );
    }
}

#[test]
fn single_character_tokens() {
    let cases = [
        ("=", TokenKind::Assign),
        ("+", TokenKind::Plus),
        ("-", TokenKind::Minus),
        ("*", TokenKind::Asterisk),
        ("/", TokenKind::Slash),
        ("!", TokenKind::Bang),
        ("<", TokenKind::Lt),
        (">", TokenKind::Gt),
        ("(", TokenKind::Lparen),
        (")", TokenKind::Rparen),
        ("{", TokenKind::Lbrace),
        ("}", TokenKind::Rbrace),
        (",", TokenKind::Comma),
        (";", TokenKind::Semicolon),
    ];
    for (input, kind) in cases {
        assert_tokens(input, &[(kind, input), (TokenKind::Eof, "")]);
    }
}

#[test]
fn punctuation_stream() {
    assert_tokens(
        "=+(){},;",
        &[
            (TokenKind::Assign, "="),
            (TokenKind::Plus, "+"),
            (TokenKind::Lparen, "("),
            (TokenKind::Rparen, ")"),
            (TokenKind::Lbrace, "{"),
            (TokenKind::Rbrace, "}"),
            (TokenKind::Comma, ","),
            (TokenKind::Semicolon, ";"),
            (TokenKind::Eof, ""),
        ],
    );
}

#[test]
fn let_binding() {
    assert_tokens(
        "let five = 5;",
        &[
            (TokenKind::Let, "let"),
            (TokenKind::Ident, "five"),
            (TokenKind::Assign, "="),
            (TokenKind::Int, "5"),
            (TokenKind::Semicolon, ";"),
            (TokenKind::Eof, ""),
        ],
    );
}

#[test]
fn function_literal() {
    assert_tokens(
        "fn(x, y){ x+y; }",
        &[
            (TokenKind::Function, "fn"),
            (TokenKind::Lparen, "("),
            (TokenKind::Ident, "x"),
            (TokenKind::Comma, ","),
            (TokenKind::Ident, "y"),
            (TokenKind::Rparen, ")"),
            (TokenKind::Lbrace, "{"),
            (TokenKind::Ident, "x"),
            (TokenKind::Plus, "+"),
            (TokenKind::Ident, "y"),
            (TokenKind::Semicolon, ";"),
            (TokenKind::Rbrace, "}"),
            (TokenKind::Eof, ""),
        ],
    );
}

#[test]
fn operator_run() {
    assert_tokens(
        "!-/*5;",
        &[
            (TokenKind::Bang, "!"),
            (TokenKind::Minus, "-"),
            (TokenKind::Slash, "/"),
            (TokenKind::Asterisk, "*"),
            (TokenKind::Int, "5"),
            (TokenKind::Semicolon, ";"),
            (TokenKind::Eof, ""),
        ],
    );
}

#[test]
fn comparison_operators() {
    assert_tokens(
        "5 < 10 > 5;",
        &[
            (TokenKind::Int, "5"),
            (TokenKind::Lt, "<"),
            (TokenKind::Int, "10"),
            (TokenKind::Gt, ">"),
            (TokenKind::Int, "5"),
            (TokenKind::Semicolon, ";"),
            (TokenKind::Eof, ""),
        ],
    );
}

#[test]
fn illegal_character() {
    assert_tokens("#", &[(TokenKind::Illegal, "#"), (TokenKind::Eof, "")]);
}

#[test]
fn identifiers_keep_their_text() {
    assert_tokens("foobar", &[(TokenKind::Ident, "foobar"), (TokenKind::Eof, "")]);
    assert_tokens("_x", &[(TokenKind::Ident, "_x"), (TokenKind::Eof, "")]);
    assert_tokens("fnx", &[(TokenKind::Ident, "fnx"), (TokenKind::Eof, "")]);
    assert_tokens("letter", &[(TokenKind::Ident, "letter"), (TokenKind::Eof, "")]);
}

#[test]
fn keywords_resolve() {
    assert_tokens("fn", &[(TokenKind::Function, "fn"), (TokenKind::Eof, "")]);
    assert_tokens("let", &[(TokenKind::Let, "let"), (TokenKind::Eof, "")]);
}

#[test]
fn integers_keep_their_digits() {
    assert_tokens("5", &[(TokenKind::Int, "5"), (TokenKind::Eof, "")]);
    assert_tokens("0042", &[(TokenKind::Int, "0042"), (TokenKind::Eof, "")]);
    assert_tokens("1234567890", &[(TokenKind::Int, "1234567890"), (TokenKind::Eof, "")]);
}

#[test]
fn eof_is_idempotent() {
    let mut lexer = Lexer::new("x");
    let first = lexer.next_token();
    assert_eq!(TokenKind::Ident, first.kind);
    for _ in 0..5 {
        let token = lexer.next_token();
        assert_eq!(TokenKind::Eof, token.kind);
        assert_eq!("", token.literal.as_str());
    }
}

#[test]
fn empty_input_yields_eof() {
    assert_tokens("", &[(TokenKind::Eof, ""), (TokenKind::Eof, "")]);
}

#[test]
fn whitespace_only_input_yields_eof() {
    assert_tokens(" \t\n\r ", &[(TokenKind::Eof, "")]);
}

#[test]
fn extra_whitespace_between_tokens_changes_nothing() {
    let dense = "let five=5;";
    let spaced = "let \t five\n=\r\n  5 ;";
    let mut dense_lexer = Lexer::new(dense);
    let mut spaced_lexer = Lexer::new(spaced);
    loop {
        let a = dense_lexer.next_token();
        let b = spaced_lexer.next_token();
        assert_eq!(a.kind, b.kind);
        assert_eq!(a.literal, b.literal);
        if a.kind == TokenKind::Eof {
            break;
        }
    }
}

#[test]
fn unicode_letters_form_identifiers() {
    assert_tokens("h\u{e9}llo", &[(TokenKind::Ident, "h\u{e9}llo"), (TokenKind::Eof, "")]);
}

#[test]
fn unicode_non_letter_is_illegal() {
    assert_tokens("\u{2605}", &[(TokenKind::Illegal, "\u{2605}"), (TokenKind::Eof, "")]);
}

#[test]
fn nul_acts_as_end_of_input() {
    assert_tokens(
        "a\u{0}b",
        &[(TokenKind::Ident, "a"), (TokenKind::Eof, ""), (TokenKind::Eof, "")],
    );
}

#[test]
fn form_feed_is_not_whitespace() {
    assert_tokens("\u{c}", &[(TokenKind::Illegal, "\u{c}"), (TokenKind::Eof, "")]);
}

use monkey_core::lexer::Lexer;
use monkey_core::token::TokenKind;

fn test_next_token(input: &str, expected: &[TokenKind]) {
    let mut lexer = Lexer::new(input);

    for expected_token in expected.iter() {
        let token = lexer.next_token();

        assert_eq!(&token.kind, expected_token);
    }
}

#[test]
fn test_basic_tokens() {
    let input = "=+(){},;";
    let expected = vec![
        TokenKind::Assign,
        TokenKind::Plus,
        TokenKind::Lparen,
        TokenKind::Rparen,
        TokenKind::Lbrace,
        TokenKind::Rbrace,
        TokenKind::Comma,
        TokenKind::Semicolon,
        TokenKind::Eof,
    ];
    test_next_token(input, &expected);
}

#[test]
fn test_basic_source_code() {
    let input = r#"let five = 5;
let ten = 10;

let add = fn(x, y) {
x + y;
};

let result = add(five, ten);
"#;

    let expected = vec![
        TokenKind::Let,
        TokenKind::Ident(String::from("five")),
        TokenKind::Assign,
        TokenKind::Int(5),
        TokenKind::Semicolon,
        TokenKind::Let,
        TokenKind::Ident(String::from("ten")),
        TokenKind::Assign,
        TokenKind::Int(10),
        TokenKind::Semicolon,
        TokenKind::Let,
        TokenKind::Ident(String::from("add")),
        TokenKind::Assign,
        TokenKind::Function,
        TokenKind::Lparen,
        TokenKind::Ident(String::from("x")),
        TokenKind::Comma,
        TokenKind::Ident(String::from("y")),
        TokenKind::Rparen,
        TokenKind::Lbrace,
        TokenKind::Ident(String::from("x")),
        TokenKind::Plus,
        TokenKind::Ident(String::from("y")),
        TokenKind::Semicolon,
        TokenKind::Rbrace,
        TokenKind::Semicolon,
        TokenKind::Let,
        TokenKind::Ident(String::from("result")),
        TokenKind::Assign,
        TokenKind::Ident(String::from("add")),
        TokenKind::Lparen,
        TokenKind::Ident(String::from("five")),
        TokenKind::Comma,
        TokenKind::Ident(String::from("ten")),
        TokenKind::Rparen,
        TokenKind::Semicolon,
        TokenKind::Eof,
    ];
    test_next_token(input, &expected);
}

#[test]
fn test_chapter_1_4() {
    let input = r#"let five = 5;
let ten = 10;

let add = fn(x, y) {
  x + y;
};

let result = add(five, ten);
!-/*5;
5 < 10 > 5;

if (5 < 10) {
    return true;
} else {
    return false;
}

10 == 10;
10 != 9;
{"foo": "bar"}
"#;
    let expected = vec![
        TokenKind::Let,
        TokenKind::Ident(String::from("five")),
        TokenKind::Assign,
        TokenKind::Int(5),
        TokenKind::Semicolon,
        TokenKind::Let,
        TokenKind::Ident(String::from("ten")),
        TokenKind::Assign,
        TokenKind::Int(10),
        TokenKind::Semicolon,
        TokenKind::Let,
        TokenKind::Ident(String::from("add")),
        TokenKind::Assign,
        TokenKind::Function,
        TokenKind::Lparen,
        TokenKind::Ident(String::from("x")),
        TokenKind::Comma,
        TokenKind::Ident(String::from("y")),
        TokenKind::Rparen,
        TokenKind::Lbrace,
        TokenKind::Ident(String::from("x")),
        TokenKind::Plus,
        TokenKind::Ident(String::from("y")),
        TokenKind::Semicolon,
        TokenKind::Rbrace,
        TokenKind::Semicolon,
        TokenKind::Let,
        TokenKind::Ident(String::from("result")),
        TokenKind::Assign,
        TokenKind::Ident(String::from("add")),
        TokenKind::Lparen,
        TokenKind::Ident(String::from("five")),
        TokenKind::Comma,
        TokenKind::Ident(String::from("ten")),
        TokenKind::Rparen,
        TokenKind::Semicolon,
        TokenKind::Bang,
        TokenKind::Minus,
        TokenKind::Slash,
        TokenKind::Asterisk,
        TokenKind::Int(5),
        TokenKind::Semicolon,
        TokenKind::Int(5),
        TokenKind::LessThan,
        TokenKind::Int(10),
        TokenKind::GreaterThan,
        TokenKind::Int(5),
        TokenKind::Semicolon,
        TokenKind::If,
        TokenKind::Lparen,
        TokenKind::Int(5),
        TokenKind::LessThan,
        TokenKind::Int(10),
        TokenKind::Rparen,
        TokenKind::Lbrace,
        TokenKind::Return,
        TokenKind::True,
        TokenKind::Semicolon,
        TokenKind::Rbrace,
        TokenKind::Else,
        TokenKind::Lbrace,
        TokenKind::Return,
        TokenKind::False,
        TokenKind::Semicolon,
        TokenKind::Rbrace,
        TokenKind::Int(10),
        TokenKind::Equal,
        TokenKind::Int(10),
        TokenKind::Semicolon,
        TokenKind::Int(10),
        TokenKind::NotEqual,
        TokenKind::Int(9),
        TokenKind::Semicolon,
        TokenKind::Lbrace,
        TokenKind::Str(String::from("foo")),
        TokenKind::Colon,
        TokenKind::Str(String::from("bar")),
        TokenKind::Rbrace,
        TokenKind::Eof,
    ];

    test_next_token(input, &expected);
}

#[test]
fn text_strings() {
    let input = r#""foobar"
            "foo bar""#;
    let expected = vec![
        TokenKind::Str("foobar".into()),
        TokenKind::Str("foo bar".into()),
        TokenKind::Eof,
    ];

    test_next_token(input, &expected);
}

#[test]
fn text_arrays() {
    let input = "[1, 2];";
    let expected = vec![
        TokenKind::Lbracket,
        TokenKind::Int(1),
        TokenKind::Comma,
        TokenKind::Int(2),
        TokenKind::Rbracket,
        TokenKind::Semicolon,
        TokenKind::Eof,
    ];

    test_next_token(input, &expected);
}

#[test]
fn test_eof_is_terminal() {
    let mut lexer = Lexer::new("x");
    assert_eq!(lexer.next_token().kind, TokenKind::Ident(String::from("x")));
    assert_eq!(lexer.next_token().kind, TokenKind::Eof);
    assert_eq!(lexer.next_token().kind, TokenKind::Eof);
    assert_eq!(lexer.next_token().kind, TokenKind::Eof);
}

#[test]
fn test_unterminated_string_yields_rest_of_input() {
    let mut lexer = Lexer::new("\"abc");
    assert_eq!(lexer.next_token().kind, TokenKind::Str(String::from("abc")));
    assert_eq!(lexer.next_token().kind, TokenKind::Eof);
}

#[test]
fn test_illegal_byte_is_not_skipped() {
    let mut lexer = Lexer::new("@5;");
    assert_eq!(lexer.next_token().kind, TokenKind::Illegal);
    assert_eq!(lexer.next_token().kind, TokenKind::Int(5));
    assert_eq!(lexer.next_token().kind, TokenKind::Semicolon);
    assert_eq!(lexer.next_token().kind, TokenKind::Eof);
}

#[test]
fn test_integer_overflow_is_illegal() {
    let mut lexer = Lexer::new("9223372036854775807 9223372036854775808");
    assert_eq!(lexer.next_token().kind, TokenKind::Int(i64::MAX));
    assert_eq!(lexer.next_token().kind, TokenKind::Illegal);
    assert_eq!(lexer.next_token().kind, TokenKind::Eof);
}

#[test]
fn test_identifiers_may_hold_digits_and_underscores() {
    let mut lexer = Lexer::new("foo_bar2 _x");
    assert_eq!(
        lexer.next_token().kind,
        TokenKind::Ident(String::from("foo_bar2"))
    );
    assert_eq!(lexer.next_token().kind, TokenKind::Ident(String::from("_x")));
    assert_eq!(lexer.next_token().kind, TokenKind::Eof);
}

#[test]
fn test_token_literal_text() {
    assert_eq!(TokenKind::Bang.literal(), "!");
    assert_eq!(TokenKind::Equal.literal(), "==");
    assert_eq!(TokenKind::Int(-42).literal(), "-42");
    assert_eq!(TokenKind::Int(0).literal(), "0");
    assert_eq!(TokenKind::Ident(String::from("abc")).literal(), "abc");
    assert_eq!(TokenKind::Function.literal(), "fn");
    assert_eq!(TokenKind::Eof.literal(), "");
}

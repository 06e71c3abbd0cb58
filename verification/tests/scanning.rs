use tokenizer::token::lexer::Lexer;
use tokenizer::token::types::{Token, TokenType};

fn lex(input: &str) -> Vec<Token> {
    let text = input.to_string();
    Lexer::new(&text).collect()
}

fn eof() -> Token {
    Token::new(TokenType::EOF, "")
}

#[test]
fn empty_input_yields_only_eof() {
    assert_eq!(lex(""), vec![eof()]);
}

#[test]
fn blanks_alone_yield_only_eof() {
    assert_eq!(lex("  \n \n\n  "), vec![eof()]);
}

#[test]
fn punctuation_yields_one_token_per_mark() {
    assert_eq!(
        lex("=+(){},;"),
        vec![
            Token::new(TokenType::ASSIGN, "="),
            Token::new(TokenType::PLUS, "+"),
            Token::new(TokenType::LPAREN, "("),
            Token::new(TokenType::RPAREN, ")"),
            Token::new(TokenType::LBRACE, "{"),
            Token::new(TokenType::RBRACE, "}"),
            Token::new(TokenType::COMMA, ","),
            Token::new(TokenType::SEMICOLON, ";"),
            eof(),
        ]
    );
}

#[test]
fn repeated_punctuation_is_not_merged() {
    assert_eq!(
        lex("==;;"),
        vec![
            Token::new(TokenType::ASSIGN, "="),
            Token::new(TokenType::ASSIGN, "="),
            Token::new(TokenType::SEMICOLON, ";"),
            Token::new(TokenType::SEMICOLON, ";"),
            eof(),
        ]
    );
}

#[test]
fn let_statement() {
    assert_eq!(
        lex("let five = 5;"),
        vec![
            Token::new(TokenType::LET, "let"),
            Token::new(TokenType::IDENT, "five"),
            Token::new(TokenType::ASSIGN, "="),
            Token::new(TokenType::INT, "5"),
            Token::new(TokenType::SEMICOLON, ";"),
            eof(),
        ]
    );
}

#[test]
fn function_literal() {
    assert_eq!(
        lex("fn(x, y) { x + y; }"),
        vec![
            Token::new(TokenType::FUNCTION, "fn"),
            Token::new(TokenType::LPAREN, "("),
            Token::new(TokenType::IDENT, "x"),
            Token::new(TokenType::COMMA, ","),
            Token::new(TokenType::IDENT, "y"),
            Token::new(TokenType::RPAREN, ")"),
            Token::new(TokenType::LBRACE, "{"),
            Token::new(TokenType::IDENT, "x"),
            Token::new(TokenType::PLUS, "+"),
            Token::new(TokenType::IDENT, "y"),
            Token::new(TokenType::SEMICOLON, ";"),
            Token::new(TokenType::RBRACE, "}"),
            eof(),
        ]
    );
}

#[test]
fn keywords_are_matched_exactly() {
    assert_eq!(lex("let"), vec![Token::new(TokenType::LET, "let"), eof()]);
    assert_eq!(lex("fn"), vec![Token::new(TokenType::FUNCTION, "fn"), eof()]);
    assert_eq!(lex("lets"), vec![Token::new(TokenType::IDENT, "lets"), eof()]);
    assert_eq!(lex("Let"), vec![Token::new(TokenType::IDENT, "Let"), eof()]);
    assert_eq!(lex("LET"), vec![Token::new(TokenType::IDENT, "LET"), eof()]);
    assert_eq!(lex("le"), vec![Token::new(TokenType::IDENT, "le"), eof()]);
    assert_eq!(lex("fnn"), vec![Token::new(TokenType::IDENT, "fnn"), eof()]);
    assert_eq!(lex("f"), vec![Token::new(TokenType::IDENT, "f"), eof()]);
    assert_eq!(lex("_let"), vec![Token::new(TokenType::IDENT, "_let"), eof()]);
    assert_eq!(lex("fn_"), vec![Token::new(TokenType::IDENT, "fn_"), eof()]);
}

#[test]
fn keyword_next_to_other_text() {
    assert_eq!(
        lex("let1 fn("),
        vec![
            Token::new(TokenType::LET, "let"),
            Token::new(TokenType::INT, "1"),
            Token::new(TokenType::FUNCTION, "fn"),
            Token::new(TokenType::LPAREN, "("),
            eof(),
        ]
    );
}

#[test]
fn digits_are_no_part_of_an_identifier() {
    assert_eq!(
        lex("a1b"),
        vec![
            Token::new(TokenType::IDENT, "a"),
            Token::new(TokenType::INT, "1"),
            Token::new(TokenType::IDENT, "b"),
            eof(),
        ]
    );
    assert_eq!(
        lex("12ab"),
        vec![Token::new(TokenType::INT, "12"), Token::new(TokenType::IDENT, "ab"), eof()]
    );
}

#[test]
fn underscore_is_a_letter() {
    assert_eq!(lex("x_y"), vec![Token::new(TokenType::IDENT, "x_y"), eof()]);
    assert_eq!(lex("_"), vec![Token::new(TokenType::IDENT, "_"), eof()]);
    assert_eq!(lex("aZ_zA"), vec![Token::new(TokenType::IDENT, "aZ_zA"), eof()]);
}

#[test]
fn integer_runs_are_read_whole() {
    assert_eq!(lex("0"), vec![Token::new(TokenType::INT, "0"), eof()]);
    assert_eq!(lex("0123456789"), vec![Token::new(TokenType::INT, "0123456789"), eof()]);
    assert_eq!(
        lex("10 20"),
        vec![Token::new(TokenType::INT, "10"), Token::new(TokenType::INT, "20"), eof()]
    );
}

#[test]
fn illegal_byte_is_one_token() {
    assert_eq!(lex("@"), vec![Token::new(TokenType::ILLEGAL, "@"), eof()]);
}

#[test]
fn illegal_byte_does_not_stop_the_scan() {
    assert_eq!(
        lex("@x"),
        vec![Token::new(TokenType::ILLEGAL, "@"), Token::new(TokenType::IDENT, "x"), eof()]
    );
    assert_eq!(
        lex("a ! b"),
        vec![
            Token::new(TokenType::IDENT, "a"),
            Token::new(TokenType::ILLEGAL, "!"),
            Token::new(TokenType::IDENT, "b"),
            eof(),
        ]
    );
}

#[test]
fn bytes_next_to_the_classes_are_illegal() {
    // The bytes just outside `0`..`9`, `A`..`Z` and `a`..`z`.
    for mark in ["/", ":", "@", "[", "`", "|", "-", "*", "<", ">", "\"", "'"] {
        assert_eq!(lex(mark), vec![Token::new(TokenType::ILLEGAL, mark), eof()]);
    }
}

#[test]
fn tab_and_carriage_return_are_not_blanks() {
    assert_eq!(lex("\t"), vec![Token::new(TokenType::ILLEGAL, "\t"), eof()]);
    assert_eq!(
        lex("a\r\nb"),
        vec![
            Token::new(TokenType::IDENT, "a"),
            Token::new(TokenType::ILLEGAL, "\r"),
            Token::new(TokenType::IDENT, "b"),
            eof(),
        ]
    );
}

#[test]
fn bytes_above_ascii_are_illegal_one_by_one() {
    // "é" is the two bytes C3 A9; each becomes the character of its value.
    assert_eq!(
        lex("é"),
        vec![
            Token::new(TokenType::ILLEGAL, "\u{c3}"),
            Token::new(TokenType::ILLEGAL, "\u{a9}"),
            eof(),
        ]
    );
    assert_eq!(
        lex("x€y"),
        vec![
            Token::new(TokenType::IDENT, "x"),
            Token::new(TokenType::ILLEGAL, "\u{e2}"),
            Token::new(TokenType::ILLEGAL, "\u{82}"),
            Token::new(TokenType::ILLEGAL, "\u{ac}"),
            Token::new(TokenType::IDENT, "y"),
            eof(),
        ]
    );
}

#[test]
fn null_byte_is_an_eof_and_ends_the_scan() {
    let text = "a\0b".to_string();
    let mut lexer = Lexer::new(&text);
    assert_eq!(lexer.next(), Some(Token::new(TokenType::IDENT, "a")));
    assert_eq!(lexer.next(), Some(Token::new(TokenType::EOF, "\0")));
    assert_eq!(lexer.next(), None);
    assert_eq!(lexer.next(), None);
}

#[test]
fn null_byte_is_not_a_blank() {
    assert_eq!(lex("\0"), vec![Token::new(TokenType::EOF, "\0")]);
    assert_eq!(lex(" \0 "), vec![Token::new(TokenType::EOF, "\0")]);
}

#[test]
fn nothing_follows_the_eof() {
    let text = "x".to_string();
    let mut lexer = Lexer::new(&text);
    assert_eq!(lexer.next(), Some(Token::new(TokenType::IDENT, "x")));
    assert_eq!(lexer.next(), Some(eof()));
    assert_eq!(lexer.next(), None);
    assert_eq!(lexer.next(), None);
    assert_eq!(lexer.next(), None);
    assert_eq!(lexer.collect(), vec![]);
}

#[test]
fn trailing_blanks_come_before_the_eof() {
    assert_eq!(lex("x  \n"), vec![Token::new(TokenType::IDENT, "x"), eof()]);
}

#[test]
fn relexing_a_literal_keeps_its_kind() {
    // Each pair is a token of the first scan and the first token that its
    // literal yields when it is scanned alone.
    let scanned = lex("let fn foo 42 = + , ; ( ) { } # é");
    let alone = vec![
        (Token::new(TokenType::LET, "let"), Token::new(TokenType::LET, "let")),
        (Token::new(TokenType::FUNCTION, "fn"), Token::new(TokenType::FUNCTION, "fn")),
        (Token::new(TokenType::IDENT, "foo"), Token::new(TokenType::IDENT, "foo")),
        (Token::new(TokenType::INT, "42"), Token::new(TokenType::INT, "42")),
        (Token::new(TokenType::ASSIGN, "="), Token::new(TokenType::ASSIGN, "=")),
        (Token::new(TokenType::PLUS, "+"), Token::new(TokenType::PLUS, "+")),
        (Token::new(TokenType::COMMA, ","), Token::new(TokenType::COMMA, ",")),
        (Token::new(TokenType::SEMICOLON, ";"), Token::new(TokenType::SEMICOLON, ";")),
        (Token::new(TokenType::LPAREN, "("), Token::new(TokenType::LPAREN, "(")),
        (Token::new(TokenType::RPAREN, ")"), Token::new(TokenType::RPAREN, ")")),
        (Token::new(TokenType::LBRACE, "{"), Token::new(TokenType::LBRACE, "{")),
        (Token::new(TokenType::RBRACE, "}"), Token::new(TokenType::RBRACE, "}")),
        (Token::new(TokenType::ILLEGAL, "#"), Token::new(TokenType::ILLEGAL, "#")),
        (Token::new(TokenType::ILLEGAL, "\u{c3}"), Token::new(TokenType::ILLEGAL, "\u{c3}")),
        (Token::new(TokenType::ILLEGAL, "\u{a9}"), Token::new(TokenType::ILLEGAL, "\u{c2}")),
        (eof(), eof()),
    ];
    let literals = [
        "let", "fn", "foo", "42", "=", "+", ",", ";", "(", ")", "{", "}", "#", "\u{c3}", "\u{a9}",
        "",
    ];
    assert_eq!(scanned.len(), alone.len());
    for i in 0..scanned.len() {
        assert_eq!(scanned[i], alone[i].0);
        let again = lex(literals[i]);
        assert_eq!(again[0], alone[i].1);
    }
    assert_eq!(lex("\0")[0], Token::new(TokenType::EOF, "\0"));
}

#[test]
fn read_identifier_reads_the_letters_at_the_cursor() {
    let text = "abc123_x".to_string();
    let mut lexer = Lexer::new(&text);
    assert_eq!(lexer.read_identifier(), Some("abc".to_string()));
    assert_eq!(lexer.read_identifier(), Some("".to_string()));
    assert_eq!(lexer.read_int(), Some("123".to_string()));
    assert_eq!(lexer.read_int(), Some("".to_string()));
    assert_eq!(lexer.read_identifier(), Some("_x".to_string()));
    assert_eq!(lexer.read_identifier(), Some("".to_string()));
    assert_eq!(lexer.read_int(), Some("".to_string()));
    assert_eq!(lexer.next(), Some(eof()));
}

#[test]
fn read_identifier_does_not_pass_over_blanks() {
    let text = " ab".to_string();
    let mut lexer = Lexer::new(&text);
    assert_eq!(lexer.read_identifier(), Some("".to_string()));
    assert_eq!(lexer.next(), Some(Token::new(TokenType::IDENT, "ab")));
}

#[test]
fn read_identifier_does_not_resolve_keywords() {
    let text = "let x".to_string();
    let mut lexer = Lexer::new(&text);
    assert_eq!(lexer.read_identifier(), Some("let".to_string()));
    assert_eq!(lexer.next(), Some(Token::new(TokenType::IDENT, "x")));
}

#[test]
fn read_int_stops_at_the_first_other_byte() {
    let text = "007;".to_string();
    let mut lexer = Lexer::new(&text);
    assert_eq!(lexer.read_int(), Some("007".to_string()));
    assert_eq!(lexer.next(), Some(Token::new(TokenType::SEMICOLON, ";")));
    assert_eq!(lexer.next(), Some(eof()));
    assert_eq!(lexer.next(), None);
}

#[test]
fn reads_after_the_eof_change_nothing() {
    let text = "".to_string();
    let mut lexer = Lexer::new(&text);
    assert_eq!(lexer.next(), Some(eof()));
    assert_eq!(lexer.read_identifier(), Some("".to_string()));
    assert_eq!(lexer.read_int(), Some("".to_string()));
    assert_eq!(lexer.next(), None);
}

#[test]
fn collect_returns_what_is_still_to_come() {
    let text = "a b c".to_string();
    let mut lexer = Lexer::new(&text);
    assert_eq!(lexer.next(), Some(Token::new(TokenType::IDENT, "a")));
    assert_eq!(
        lexer.collect(),
        vec![Token::new(TokenType::IDENT, "b"), Token::new(TokenType::IDENT, "c"), eof()]
    );
}

#[test]
fn two_lexers_share_one_text() {
    let text = "x = 1".to_string();
    let mut first = Lexer::new(&text);
    let mut second = Lexer::new(&text);
    assert_eq!(first.next(), Some(Token::new(TokenType::IDENT, "x")));
    assert_eq!(first.next(), Some(Token::new(TokenType::ASSIGN, "=")));
    assert_eq!(second.next(), Some(Token::new(TokenType::IDENT, "x")));
    assert_eq!(first.next(), Some(Token::new(TokenType::INT, "1")));
    assert_eq!(second.next(), Some(Token::new(TokenType::ASSIGN, "=")));
}

#[test]
fn token_count_is_at_most_one_per_byte_and_one_more() {
    for text in ["", "a", "ab cd", "=+=+", "@@@", "let x = 5;", "é"] {
        let count = lex(text).len();
        assert!(count >= 1);
        assert!(count <= text.len() + 1);
    }
    assert_eq!(lex("=+=+").len(), 5);
    assert_eq!(lex("ab cd").len(), 3);
}

#[test]
fn tokens_are_equal_when_kind_and_literal_are() {
    assert_eq!(Token::new(TokenType::LET, "let"), Token::new(TokenType::LET, "let"));
    assert_ne!(Token::new(TokenType::LET, "let"), Token::new(TokenType::IDENT, "let"));
    assert_ne!(Token::new(TokenType::IDENT, "a"), Token::new(TokenType::IDENT, "b"));
    assert_ne!(Token::new(TokenType::IDENT, "a"), Token::new(TokenType::IDENT, "aa"));
    assert_ne!(Token::new(TokenType::EOF, ""), Token::new(TokenType::EOF, "\0"));
}

#[test]
fn token_literal_is_not_checked_against_the_kind() {
    let odd = Token::new(TokenType::INT, "abc");
    assert_eq!(odd, Token::new(TokenType::INT, "abc"));
    assert_ne!(odd, Token::new(TokenType::IDENT, "abc"));
}

#[test]
fn token_owns_its_literal() {
    let token = {
        let text = String::from("name");
        Token::new(TokenType::IDENT, &text)
    };
    assert_eq!(token, Token::new(TokenType::IDENT, "name"));
}

#[test]
fn token_debug_shows_kind_and_literal() {
    assert_eq!(
        format!("{:?}", Token::new(TokenType::LET, "let")),
        "Token { ttype: LET, literal: \"let\" }"
    );
    assert_eq!(format!("{:?}", TokenType::FUNCTION), "FUNCTION");
}

#[test]
fn token_kinds_are_distinct() {
    let kinds = [
        TokenType::ILLEGAL,
        TokenType::EOF,
        TokenType::IDENT,
        TokenType::INT,
        TokenType::ASSIGN,
        TokenType::PLUS,
        TokenType::COMMA,
        TokenType::SEMICOLON,
        TokenType::LPAREN,
        TokenType::RPAREN,
        TokenType::LBRACE,
        TokenType::RBRACE,
        TokenType::FUNCTION,
        TokenType::LET,
    ];
    for i in 0..kinds.len() {
        for j in 0..kinds.len() {
            assert_eq!(kinds[i] == kinds[j], i == j);
        }
    }
}

#[test]
fn whole_program() {
    let tokens = lex(
        "let five = 5;
let ten = 10;

let add = fn(x, y) {
    x + y;
};

let result = add(five, ten);",
    );
    let expected = vec![
        Token::new(TokenType::LET, "let"),
        Token::new(TokenType::IDENT, "five"),
        Token::new(TokenType::ASSIGN, "="),
        Token::new(TokenType::INT, "5"),
        Token::new(TokenType::SEMICOLON, ";"),
        Token::new(TokenType::LET, "let"),
        Token::new(TokenType::IDENT, "ten"),
        Token::new(TokenType::ASSIGN, "="),
        Token::new(TokenType::INT, "10"),
        Token::new(TokenType::SEMICOLON, ";"),
        Token::new(TokenType::LET, "let"),
        Token::new(TokenType::IDENT, "add"),
        Token::new(TokenType::ASSIGN, "="),
        Token::new(TokenType::FUNCTION, "fn"),
        Token::new(TokenType::LPAREN, "("),
        Token::new(TokenType::IDENT, "x"),
        Token::new(TokenType::COMMA, ","),
        Token::new(TokenType::IDENT, "y"),
        Token::new(TokenType::RPAREN, ")"),
        Token::new(TokenType::LBRACE, "{"),
        Token::new(TokenType::IDENT, "x"),
        Token::new(TokenType::PLUS, "+"),
        Token::new(TokenType::IDENT, "y"),
        Token::new(TokenType::SEMICOLON, ";"),
        Token::new(TokenType::RBRACE, "}"),
        Token::new(TokenType::SEMICOLON, ";"),
        Token::new(TokenType::LET, "let"),
        Token::new(TokenType::IDENT, "result"),
        Token::new(TokenType::ASSIGN, "="),
        Token::new(TokenType::IDENT, "add"),
        Token::new(TokenType::LPAREN, "("),
        Token::new(TokenType::IDENT, "five"),
        Token::new(TokenType::COMMA, ","),
        Token::new(TokenType::IDENT, "ten"),
        Token::new(TokenType::RPAREN, ")"),
        Token::new(TokenType::SEMICOLON, ";"),
        eof(),
    ];
    assert_eq!(tokens.len(), 37);
    assert_eq!(tokens, expected);
}

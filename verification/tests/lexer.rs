use monkey::lexer::{tokenize, Lexer, Token, TokenKind};

fn all_tokens(input: &str) -> Vec<Token> {
    tokenize(input.to_string())
}

#[test]
fn get_next_token() {
    let input = "
            let five = 5;
            let ten = 10;

            let add = fn(x, y) {
                x + y;
            }; 

            let result = add(five, ten);
            !-/*5;
            5 < 10 > 5;

            if (5 < 10) {
                return true;
            } else {
                return false;
            }

            10 == 10;
            10 != 9;
        ";

    let tokens = vec![
        Token::Let,
        Token::Ident("five".into()),
        Token::Assign,
        Token::Int("5".into()),
        Token::Semicolon,
        Token::Let,
        Token::Ident("ten".into()),
        Token::Assign,
        Token::Int("10".into()),
        Token::Semicolon,
        Token::Let,
        Token::Ident("add".into()),
        Token::Assign,
        Token::Function,
        Token::Lparen,
        Token::Ident("x".into()),
        Token::Comma,
        Token::Ident("y".into()),
        Token::Rparen,
        Token::Lbrace,
        Token::Ident("x".into()),
        Token::Plus,
        Token::Ident("y".into()),
        Token::Semicolon,
        Token::Rbrace,
        Token::Semicolon,
        Token::Let,
        Token::Ident("result".into()),
        Token::Assign,
        Token::Ident("add".into()),
        Token::Lparen,
        Token::Ident("five".into()),
        Token::Comma,
        Token::Ident("ten".into()),
        Token::Rparen,
        Token::Semicolon,
        Token::Bang,
        Token::Minus,
        Token::Slash,
        Token::Asterisk,
        Token::Int("5".into()),
        Token::Semicolon,
        Token::Int("5".into()),
        Token::Lt,
        Token::Int("10".into()),
        Token::Gt,
        Token::Int("5".into()),
        Token::Semicolon,
        Token::If,
        Token::Lparen,
        Token::Int("5".into()),
        Token::Lt,
        Token::Int("10".into()),
        Token::Rparen,
        Token::Lbrace,
        Token::Return,
        Token::True,
        Token::Semicolon,
        Token::Rbrace,
        Token::Else,
        Token::Lbrace,
        Token::Return,
        Token::False,
        Token::Semicolon,
        Token::Rbrace,
        Token::Int("10".into()),
        Token::Eq,
        Token::Int("10".into()),
        Token::Semicolon,
        Token::Int("10".into()),
        Token::NotEq,
        Token::Int("9".into()),
        Token::Semicolon,
        Token::Eof,
    ];

    let mut l = Lexer::new(input.into());

    for token in tokens {
        let lex_token = l.next().unwrap();
        println!("expected: {token:?} received: {lex_token:?}");
        assert_eq!(token, lex_token);
    }
}

#[test]
fn sweep_covers_every_kind_and_ends_in_one_end_marker() {
    let input = "let five = 5; fn(x, y) { x + y - 1 * 2 / 3 } !a < b > c == d != e if else true false return @";
    let tokens = all_tokens(input);
    let kinds: Vec<TokenKind> = tokens.iter().map(|t| t.kind()).collect();
    let every_kind = [
        TokenKind::Illegal,
        TokenKind::Eof,
        TokenKind::Ident,
        TokenKind::Int,
        TokenKind::Assign,
        TokenKind::Plus,
        TokenKind::Minus,
        TokenKind::Bang,
        TokenKind::Asterisk,
        TokenKind::Slash,
        TokenKind::Lt,
        TokenKind::Gt,
        TokenKind::Eq,
        TokenKind::NotEq,
        TokenKind::Comma,
        TokenKind::Semicolon,
        TokenKind::Lparen,
        TokenKind::Rparen,
        TokenKind::Lbrace,
        TokenKind::Rbrace,
        TokenKind::Function,
        TokenKind::Let,
        TokenKind::True,
        TokenKind::False,
        TokenKind::If,
        TokenKind::Else,
        TokenKind::Return,
    ];
    for kind in every_kind {
        assert!(kinds.contains(&kind), "missing {kind:?}");
    }
    assert_eq!(kinds.iter().filter(|k| **k == TokenKind::Eof).count(), 1);
    assert_eq!(tokens.last(), Some(&Token::Eof));
}

#[test]
fn tokenize_returns_the_exact_sequence() {
    assert_eq!(
        all_tokens("x = 10;"),
        vec![
            Token::Ident("x".into()),
            Token::Assign,
            Token::Int("10".into()),
            Token::Semicolon,
            Token::Eof,
        ]
    );
    assert_eq!(all_tokens(""), vec![Token::Eof]);
    assert_eq!(all_tokens(" \t\r\n "), vec![Token::Eof]);
}

#[test]
fn fixed_lexemes_round_trip() {
    let fixed = vec![
        Token::Assign,
        Token::Plus,
        Token::Minus,
        Token::Bang,
        Token::Asterisk,
        Token::Slash,
        Token::Lt,
        Token::Gt,
        Token::Eq,
        Token::NotEq,
        Token::Comma,
        Token::Semicolon,
        Token::Lparen,
        Token::Rparen,
        Token::Lbrace,
        Token::Rbrace,
        Token::Function,
        Token::Let,
        Token::True,
        Token::False,
        Token::If,
        Token::Else,
        Token::Return,
    ];
    for token in fixed {
        let text = token.to_string();
        let mut lexer = Lexer::new(text.clone());
        let again = lexer.next().unwrap();
        assert_eq!(again.kind(), token.kind(), "round trip of {text:?}");
        assert_eq!(again, token);
        assert_eq!(lexer.next().unwrap(), Token::Eof);
    }
}

#[test]
fn to_string_renders_every_fixed_token() {
    assert_eq!(Token::Assign.to_string(), "=");
    assert_eq!(Token::Plus.to_string(), "+");
    assert_eq!(Token::Minus.to_string(), "-");
    assert_eq!(Token::Bang.to_string(), "!");
    assert_eq!(Token::Asterisk.to_string(), "*");
    assert_eq!(Token::Slash.to_string(), "/");
    assert_eq!(Token::Lt.to_string(), "<");
    assert_eq!(Token::Gt.to_string(), ">");
    assert_eq!(Token::Eq.to_string(), "==");
    assert_eq!(Token::NotEq.to_string(), "!=");
    assert_eq!(Token::Comma.to_string(), ",");
    assert_eq!(Token::Semicolon.to_string(), ";");
    assert_eq!(Token::Lparen.to_string(), "(");
    assert_eq!(Token::Rparen.to_string(), ")");
    assert_eq!(Token::Lbrace.to_string(), "{");
    assert_eq!(Token::Rbrace.to_string(), "}");
    assert_eq!(Token::Function.to_string(), "fn");
    assert_eq!(Token::Let.to_string(), "let");
    assert_eq!(Token::True.to_string(), "true");
    assert_eq!(Token::False.to_string(), "false");
    assert_eq!(Token::If.to_string(), "if");
    assert_eq!(Token::Else.to_string(), "else");
    assert_eq!(Token::Return.to_string(), "return");
    assert_eq!(Token::Eof.to_string(), "\0");
}

#[test]
fn to_string_renders_the_payload() {
    assert_eq!(Token::Ident("foobar".into()).to_string(), "foobar");
    assert_eq!(Token::Int("0042".into()).to_string(), "0042");
    assert_eq!(Token::Illegal("@".into()).to_string(), "@");
}

#[test]
fn describe_names_the_end_marker() {
    assert_eq!(Token::Eof.describe(), "EOF");
    assert_eq!(Token::Assign.describe(), "=");
    assert_eq!(Token::Ident("x".into()).describe(), "x");
}

#[test]
fn kind_names() {
    assert_eq!(TokenKind::Illegal.name(), "ILLEGAL");
    assert_eq!(TokenKind::Eof.name(), "EOF");
    assert_eq!(TokenKind::Ident.name(), "IDENT");
    assert_eq!(TokenKind::Int.name(), "INT");
    assert_eq!(TokenKind::NotEq.name(), "!=");
    assert_eq!(TokenKind::Return.name(), "return");
    assert_eq!(TokenKind::Return.spelling(), "return");
    assert_eq!(TokenKind::Ident.spelling(), "");
}

#[test]
fn kind_drops_the_payload() {
    assert_eq!(Token::Ident("a".into()).kind(), TokenKind::Ident);
    assert_eq!(Token::Int("1".into()).kind(), TokenKind::Int);
    assert_eq!(Token::Illegal("?".into()).kind(), TokenKind::Illegal);
    assert_eq!(Token::Eof.kind(), TokenKind::Eof);
    assert_eq!(Token::Function.kind(), TokenKind::Function);
    assert_eq!(Token::Rbrace.kind(), TokenKind::Rbrace);
}

#[test]
fn kind_indices_are_distinct_and_in_declaration_order() {
    assert_eq!(TokenKind::Illegal.index(), 0);
    assert_eq!(TokenKind::Eof.index(), 1);
    assert_eq!(TokenKind::Assign.index(), 4);
    assert_eq!(TokenKind::Semicolon.index(), 15);
    assert_eq!(TokenKind::Return.index(), 26);
}

#[test]
fn variant_eq_ignores_the_payload() {
    assert!(Token::Ident("a".into()).variant_eq(&Token::Ident("b".into())));
    assert!(Token::Int("1".into()).variant_eq(&Token::Int("2".into())));
    assert!(Token::Plus.variant_eq(&Token::Plus));
    assert!(!Token::Ident("a".into()).variant_eq(&Token::Int("a".into())));
    assert!(!Token::Plus.variant_eq(&Token::Minus));
    assert!(!Token::Eof.variant_eq(&Token::Illegal("\0".into())));
}

#[test]
fn duplicate_keeps_kind_and_text() {
    let tokens = vec![
        Token::Ident("name".into()),
        Token::Int("7".into()),
        Token::Illegal("#".into()),
        Token::Eof,
        Token::NotEq,
        Token::Return,
    ];
    for token in tokens {
        assert_eq!(token.duplicate(), token);
    }
}

#[test]
fn end_marker_repeats_at_the_end_of_input() {
    let mut lexer = Lexer::new("x".into());
    assert_eq!(lexer.next().unwrap(), Token::Ident("x".into()));
    for _ in 0..10 {
        assert_eq!(lexer.next().unwrap(), Token::Eof);
    }
}

#[test]
fn end_marker_repeats_on_empty_and_blank_input() {
    let mut empty = Lexer::new(String::new());
    for _ in 0..5 {
        assert_eq!(empty.next().unwrap(), Token::Eof);
    }
    let mut blank = Lexer::new("  \n\t ".into());
    for _ in 0..5 {
        assert_eq!(blank.next().unwrap(), Token::Eof);
    }
}

#[test]
fn zero_byte_inside_the_text_is_the_end_marker_for_good() {
    let mut lexer = Lexer::new("a\0b".into());
    assert_eq!(lexer.next().unwrap(), Token::Ident("a".into()));
    for _ in 0..5 {
        assert_eq!(lexer.next().unwrap(), Token::Eof);
    }
    assert_eq!(
        all_tokens("a\0b"),
        vec![Token::Ident("a".into()), Token::Eof]
    );

    let mut leading = Lexer::new("\0a".into());
    for _ in 0..5 {
        assert_eq!(leading.next().unwrap(), Token::Eof);
    }
    assert_eq!(all_tokens("\0a"), vec![Token::Eof]);
    assert_eq!(all_tokens(" \0 \0 x"), vec![Token::Eof]);
}

#[test]
fn two_character_operators_need_the_second_character() {
    assert_eq!(
        all_tokens("= == ! != =! ==="),
        vec![
            Token::Assign,
            Token::Eq,
            Token::Bang,
            Token::NotEq,
            Token::Assign,
            Token::Bang,
            Token::Eq,
            Token::Assign,
            Token::Eof,
        ]
    );
    assert_eq!(all_tokens("="), vec![Token::Assign, Token::Eof]);
    assert_eq!(all_tokens("!"), vec![Token::Bang, Token::Eof]);
}

#[test]
fn words_are_scanned_maximally() {
    assert_eq!(
        all_tokens("letter iffy fn_ _x returned Let"),
        vec![
            Token::Ident("letter".into()),
            Token::Ident("iffy".into()),
            Token::Ident("fn_".into()),
            Token::Ident("_x".into()),
            Token::Ident("returned".into()),
            Token::Ident("Let".into()),
            Token::Eof,
        ]
    );
}

#[test]
fn digits_and_letters_do_not_mix() {
    assert_eq!(
        all_tokens("12ab 007"),
        vec![
            Token::Int("12".into()),
            Token::Ident("ab".into()),
            Token::Int("007".into()),
            Token::Eof,
        ]
    );
    assert_eq!(
        all_tokens("a1"),
        vec![Token::Ident("a".into()), Token::Int("1".into()), Token::Eof]
    );
}

#[test]
fn unrecognised_bytes_become_illegal_tokens() {
    assert_eq!(
        all_tokens("@ # $"),
        vec![
            Token::Illegal("@".into()),
            Token::Illegal("#".into()),
            Token::Illegal("$".into()),
            Token::Eof,
        ]
    );
}

#[test]
fn non_ascii_bytes_become_replacement_characters() {
    // U+00E9 is two bytes in UTF-8; each is reported on its own.
    assert_eq!(
        all_tokens("\u{e9}"),
        vec![
            Token::Illegal("\u{fffd}".into()),
            Token::Illegal("\u{fffd}".into()),
            Token::Eof,
        ]
    );
}

#[test]
fn form_feed_is_not_a_blank() {
    assert_eq!(
        all_tokens("a\u{c}b"),
        vec![
            Token::Ident("a".into()),
            Token::Illegal("\u{c}".into()),
            Token::Ident("b".into()),
            Token::Eof,
        ]
    );
}

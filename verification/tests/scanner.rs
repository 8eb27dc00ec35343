use rlox::{Scanner, Token, TokenType};

fn scan_all(source: &str) -> Vec<Token<'_>> {
    let mut scanner = Scanner::new(source);
    let mut tokens = Vec::new();
    loop {
        let token = scanner.scan_next_token();
        let done = token.kind == TokenType::Eof;
        tokens.push(token);
        if done {
            break;
        }
    }
    let all = Scanner::new(source).scan_all();
    assert_eq!(all.len(), tokens.len());
    for (one, other) in all.iter().zip(tokens.iter()) {
        assert_eq!(one.kind, other.kind);
        assert_eq!(one.line, other.line);
        assert_eq!(one.literal, other.literal);
        assert_eq!(one.start, other.start);
    }
    tokens
}

fn kinds(source: &str) -> Vec<TokenType> {
    scan_all(source).iter().map(|t| t.kind).collect()
}

#[test]
fn empty_source_is_eof() {
    let tokens = scan_all("");
    assert_eq!(tokens.len(), 1);
    assert_eq!(tokens[0].kind, TokenType::Eof);
    assert_eq!(tokens[0].literal, b"");
    assert_eq!(tokens[0].line, 1);
}

#[test]
fn punctuation() {
    assert_eq!(
        kinds("{ } ( ) , . - + ; * /"),
        vec![
            TokenType::LeftBrace,
            TokenType::RightBrace,
            TokenType::LeftParen,
            TokenType::RightParen,
            TokenType::Comma,
            TokenType::Dot,
            TokenType::Minus,
            TokenType::Plus,
            TokenType::Semicolon,
            TokenType::Asterisk,
            TokenType::Slash,
            TokenType::Eof,
        ]
    );
}

#[test]
fn one_and_two_byte_operators() {
    assert_eq!(
        kinds("! != = == > >= < <="),
        vec![
            TokenType::Not,
            TokenType::NotEqual,
            TokenType::Equal,
            TokenType::EqualEqual,
            TokenType::Greater,
            TokenType::GreaterEqual,
            TokenType::Less,
            TokenType::LessEqual,
            TokenType::Eof,
        ]
    );
    assert_eq!(kinds("!"), vec![TokenType::Not, TokenType::Eof]);
    assert_eq!(kinds("<"), vec![TokenType::Less, TokenType::Eof]);
}

#[test]
fn string_lexeme_lies_between_the_quotes() {
    let tokens = scan_all("\"st\" 'ring'");
    assert_eq!(tokens[0].kind, TokenType::String);
    assert_eq!(tokens[0].literal, b"st");
    assert_eq!(tokens[0].start, 1);
    assert_eq!(tokens[1].kind, TokenType::String);
    assert_eq!(tokens[1].literal, b"ring");
    assert_eq!(tokens[1].start, 6);
    assert_eq!(tokens[2].kind, TokenType::Eof);
}

#[test]
fn string_closes_on_its_own_quote_only() {
    let tokens = scan_all("\"it's\"");
    assert_eq!(tokens[0].kind, TokenType::String);
    assert_eq!(tokens[0].literal, b"it's");
    assert_eq!(tokens[1].kind, TokenType::Eof);
}

#[test]
fn string_over_lines_counts_them() {
    let tokens = scan_all("\"a\nb\n\" 1");
    assert_eq!(tokens[0].kind, TokenType::String);
    assert_eq!(tokens[0].literal, b"a\nb\n");
    assert_eq!(tokens[0].line, 3);
    assert_eq!(tokens[1].kind, TokenType::Number);
    assert_eq!(tokens[1].line, 3);
}

#[test]
fn unterminated_string_is_an_error() {
    let tokens = scan_all("1 \"abc");
    assert_eq!(tokens[0].kind, TokenType::Number);
    assert_eq!(tokens[1].kind, TokenType::Error);
    assert_eq!(tokens[1].literal, b"Unterminated string at the end of file.");
    assert_eq!(tokens[2].kind, TokenType::Eof);
}

#[test]
fn unexpected_character_is_an_error() {
    let tokens = scan_all("1 @ 2");
    assert_eq!(tokens[1].kind, TokenType::Error);
    assert_eq!(tokens[1].literal, b"Unexpected character.");
    assert_eq!(tokens[1].start, 2);
    assert_eq!(tokens[2].kind, TokenType::Number);
    assert_eq!(tokens[2].literal, b"2");
}

#[test]
fn bytes_outside_ascii_are_unexpected_one_by_one() {
    let tokens = scan_all("é");
    assert_eq!(tokens.len(), 3);
    assert_eq!(tokens[0].kind, TokenType::Error);
    assert_eq!(tokens[1].kind, TokenType::Error);
    assert_eq!(tokens[2].kind, TokenType::Eof);
}

#[test]
fn numbers() {
    let tokens = scan_all("12 3.45 6. .7 8.9.1");
    let seen: Vec<(TokenType, &[u8])> = tokens.iter().map(|t| (t.kind, t.literal)).collect();
    assert_eq!(
        seen,
        vec![
            (TokenType::Number, &b"12"[..]),
            (TokenType::Number, &b"3.45"[..]),
            (TokenType::Number, &b"6"[..]),
            (TokenType::Dot, &b"."[..]),
            (TokenType::Dot, &b"."[..]),
            (TokenType::Number, &b"7"[..]),
            (TokenType::Number, &b"8.9"[..]),
            (TokenType::Dot, &b"."[..]),
            (TokenType::Number, &b"1"[..]),
            (TokenType::Eof, &b""[..]),
        ]
    );
}

#[test]
fn number_before_a_dot_at_the_end() {
    let tokens = scan_all("1.");
    assert_eq!(tokens[0].kind, TokenType::Number);
    assert_eq!(tokens[0].literal, b"1");
    assert_eq!(tokens[1].kind, TokenType::Dot);
    assert_eq!(tokens[2].kind, TokenType::Eof);
}

#[test]
fn identifiers_and_keywords() {
    assert_eq!(
        kinds("and class else false for fn if let null or print return super this true while"),
        vec![
            TokenType::And,
            TokenType::Class,
            TokenType::Else,
            TokenType::False,
            TokenType::For,
            TokenType::Fn,
            TokenType::If,
            TokenType::Let,
            TokenType::Null,
            TokenType::Or,
            TokenType::Print,
            TokenType::Return,
            TokenType::Super,
            TokenType::This,
            TokenType::True,
            TokenType::While,
            TokenType::Eof,
        ]
    );
    let tokens = scan_all("_a1 nulls If x");
    assert_eq!(tokens[0].kind, TokenType::Identifier);
    assert_eq!(tokens[0].literal, b"_a1");
    assert_eq!(tokens[1].kind, TokenType::Identifier);
    assert_eq!(tokens[1].literal, b"nulls");
    assert_eq!(tokens[2].kind, TokenType::Identifier);
    assert_eq!(tokens[3].kind, TokenType::Identifier);
}

#[test]
fn from_literal_knows_the_keywords() {
    assert_eq!(TokenType::from_literal(b"and"), TokenType::And);
    assert_eq!(TokenType::from_literal(b"while"), TokenType::While);
    assert_eq!(TokenType::from_literal(b"fn"), TokenType::Fn);
    assert_eq!(TokenType::from_literal(b"fun"), TokenType::Identifier);
    assert_eq!(TokenType::from_literal(b""), TokenType::Identifier);
    assert_eq!(TokenType::from_literal(b"AND"), TokenType::Identifier);
}

#[test]
fn comments_and_blanks_are_skipped() {
    let tokens = scan_all(" \t\r\n// a comment\n1 // another\n// last");
    assert_eq!(tokens.len(), 2);
    assert_eq!(tokens[0].kind, TokenType::Number);
    assert_eq!(tokens[0].line, 3);
    assert_eq!(tokens[1].kind, TokenType::Eof);
    assert_eq!(tokens[1].line, 4);
}

#[test]
fn slash_at_the_end_is_a_slash() {
    assert_eq!(kinds("1 /"), vec![TokenType::Number, TokenType::Slash, TokenType::Eof]);
    assert_eq!(kinds("/"), vec![TokenType::Slash, TokenType::Eof]);
}

#[test]
fn lexemes_are_slices_of_the_source() {
    let source = "(alpha + 12.5) != \"text\" // tail\n<= _x";
    for token in scan_all(source) {
        if token.kind != TokenType::Eof && token.kind != TokenType::Error {
            let end = token.start + token.literal.len();
            assert_eq!(&source.as_bytes()[token.start..end], token.literal);
        }
    }
}

#[test]
fn lines_never_go_down() {
    let source = "1\n\n2 \"a\nb\" // c\n3\n";
    let mut line = 1;
    for token in scan_all(source) {
        assert!(token.line >= line);
        line = token.line;
    }
    assert_eq!(line, 6);
}

#[test]
fn eof_comes_last_and_stays() {
    let mut scanner = Scanner::new("1 + 2");
    let mut count = 0;
    while scanner.scan_next_token().kind != TokenType::Eof {
        count += 1;
        assert!(count <= 5);
    }
    assert_eq!(count, 3);
    assert_eq!(scanner.scan_next_token().kind, TokenType::Eof);
    assert_eq!(scanner.scan_next_token().kind, TokenType::Eof);
}

#[test]
fn default_token_is_the_sentinel() {
    let token = Token::default();
    assert_eq!(token.kind, TokenType::Error);
    assert_eq!(token.line, 0);
    assert_eq!(token.literal, b"");
    assert_eq!(TokenType::default(), TokenType::Error);
}

#[test]
fn scan_all_ends_with_the_only_eof() {
    let tokens = Scanner::new("(1 + 2) * three").scan_all();
    assert_eq!(tokens.len(), 8);
    for (i, token) in tokens.iter().enumerate() {
        assert_eq!(token.kind == TokenType::Eof, i == 7);
    }
    let mut scanner = Scanner::new("1 2 3");
    scanner.scan_next_token();
    let rest = scanner.scan_all();
    assert_eq!(rest.len(), 3);
    assert_eq!(rest[0].literal, b"2");
    assert_eq!(scanner.scan_all().len(), 1);
}

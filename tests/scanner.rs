use rlox::scanner::{Scanner, Token, TokenType};

fn kinds(source: &str) -> Vec<TokenType> {
    let mut scanner = Scanner::new(source);
    let mut out = Vec::new();
    loop {
        let t = scanner.scan_token();
        out.push(t.token_type);
        if t.token_type == TokenType::Eof {
            return out;
        }
    }
}

fn tokens(source: &str) -> Vec<Token> {
    let mut scanner = Scanner::new(source);
    let mut out = Vec::new();
    loop {
        let t = scanner.scan_token();
        let done = t.token_type == TokenType::Eof;
        out.push(t);
        if done {
            return out;
        }
    }
}

#[test]
fn test_scanner() {
    let source = "!(){} <= == var x = 2.2; class cl for ";

    let exp = [
        TokenType::Bang,
        TokenType::LeftParen,
        TokenType::RightParen,
        TokenType::LeftBrace,
        TokenType::RightBrace,
        TokenType::LessEqual,
        TokenType::EqualEqual,
        TokenType::Var,
        TokenType::Ident,
        TokenType::Equal,
        TokenType::Num,
        TokenType::Semicolon,
        TokenType::Class,
        TokenType::Ident,
        TokenType::For,
    ];

    let mut scannner = Scanner::new(source);
    for e in exp {
        let t = scannner.scan_token();
        assert_eq!(e, t.token_type);
    }
}

#[test]
fn scanner_sequence_ends_in_repeated_eof() {
    let mut scanner = Scanner::new("!(){} <= == var x = 2.2; class cl for ");
    for _ in 0..15 {
        assert_ne!(scanner.scan_token().token_type, TokenType::Eof);
    }
    for _ in 0..3 {
        let t = scanner.scan_token();
        assert_eq!(t.token_type, TokenType::Eof);
        assert_eq!(t.length, 0);
    }
}

#[test]
fn keyword_prefix_word_is_ident() {
    let ts = tokens("forest");
    assert_eq!(ts.len(), 2);
    assert_eq!(ts[0].token_type, TokenType::Ident);
    assert_eq!(ts[0].start, 0);
    assert_eq!(ts[0].length, 6);
    assert_eq!(ts[1].token_type, TokenType::Eof);
}

#[test]
fn every_keyword_is_recognised() {
    assert_eq!(
        kinds("and class else false for fun if nil or print return super this true var while"),
        vec![
            TokenType::And,
            TokenType::Class,
            TokenType::Else,
            TokenType::False,
            TokenType::For,
            TokenType::Fun,
            TokenType::If,
            TokenType::Nil,
            TokenType::Or,
            TokenType::Print,
            TokenType::Return,
            TokenType::Super,
            TokenType::This,
            TokenType::True,
            TokenType::Var,
            TokenType::While,
            TokenType::Eof,
        ]
    );
}

#[test]
fn near_keywords_are_idents() {
    assert_eq!(
        kinds("an classy f t th fo fun_ _and While iff"),
        vec![TokenType::Ident; 10].into_iter().chain([TokenType::Eof]).collect::<Vec<_>>()
    );
}

#[test]
fn operators_with_and_without_equal() {
    assert_eq!(
        kinds("! != = == < <= > >= , . - + ; / *"),
        vec![
            TokenType::Bang,
            TokenType::BangEqual,
            TokenType::Equal,
            TokenType::EqualEqual,
            TokenType::Less,
            TokenType::LessEqual,
            TokenType::Greater,
            TokenType::GreaterEqual,
            TokenType::Comma,
            TokenType::Dot,
            TokenType::Minus,
            TokenType::Plus,
            TokenType::Semicolon,
            TokenType::Slash,
            TokenType::Star,
            TokenType::Eof,
        ]
    );
}

#[test]
fn numbers_take_one_fraction() {
    let ts = tokens("12.5 7. 3.4.5");
    let shape: Vec<(TokenType, usize, usize)> = ts.iter().map(|t| (t.token_type, t.start, t.length)).collect();
    assert_eq!(
        shape,
        vec![
            (TokenType::Num, 0, 4),
            (TokenType::Num, 5, 1),
            (TokenType::Dot, 6, 1),
            (TokenType::Num, 8, 3),
            (TokenType::Dot, 11, 1),
            (TokenType::Num, 12, 1),
            (TokenType::Eof, 13, 0),
        ]
    );
}

#[test]
fn comments_and_newlines_are_skipped() {
    let ts = tokens("a // comment ( ) \n\t b\r\n// last");
    assert_eq!(ts.len(), 3);
    assert_eq!((ts[0].token_type, ts[0].line), (TokenType::Ident, 1));
    assert_eq!((ts[1].token_type, ts[1].line, ts[1].start), (TokenType::Ident, 2, 20));
    assert_eq!((ts[2].token_type, ts[2].line), (TokenType::Eof, 3));
}

#[test]
fn string_spans_lines_and_keeps_its_start_line() {
    let ts = tokens("\"ab\ncd\" x");
    assert_eq!(ts[0].token_type, TokenType::String);
    assert_eq!((ts[0].start, ts[0].length, ts[0].line), (0, 7, 1));
    assert_eq!(ts[0].message, "");
    assert_eq!((ts[1].token_type, ts[1].line), (TokenType::Ident, 2));
}

#[test]
fn unterminated_string_is_an_error_token() {
    let ts = tokens("x \"abc");
    assert_eq!(ts[1].token_type, TokenType::Error);
    assert_eq!(ts[1].message, "Unterminated string");
    assert_eq!(ts[2].token_type, TokenType::Eof);
}

#[test]
fn unexpected_character_is_an_error_and_scanning_goes_on() {
    let ts = tokens("a # b");
    assert_eq!(ts[1].token_type, TokenType::Error);
    assert_eq!(ts[1].message, "Unexpected character.");
    assert_eq!((ts[1].start, ts[1].length), (2, 1));
    assert_eq!(ts[2].token_type, TokenType::Ident);
}

#[test]
fn nul_byte_ends_the_source() {
    assert_eq!(kinds("a\0b"), vec![TokenType::Ident, TokenType::Eof]);
    assert_eq!(kinds(""), vec![TokenType::Eof]);
}

#[test]
fn byte_predicates() {
    assert!(Scanner::is_digit(b'0') && Scanner::is_digit(b'9') && !Scanner::is_digit(b'a'));
    assert!(Scanner::is_alpha(b'_') && Scanner::is_alpha(b'Z') && !Scanner::is_alpha(b'1'));
}

#[test]
fn peek_next_at_a_nul_is_nul() {
    let s = Scanner::new("\0a");
    assert_eq!(s.peek(), 0);
    assert_eq!(s.peek_next(), 0);
    assert!(s.is_at_end());
    let s = Scanner::new("xa");
    assert_eq!(s.peek_next(), b'a');
}

#[test]
fn check_keyword_needs_rest_of_the_given_length() {
    let mut s = Scanner::new("and");
    assert_eq!(s.scan_token().token_type, TokenType::And);
    assert_eq!(s.check_keyword(1, 2, &[b'n', b'd'], TokenType::And), TokenType::And);
    assert_eq!(s.check_keyword(1, 2, &[b'n', b'd', b'x'], TokenType::And), TokenType::Ident);
    assert_eq!(s.check_keyword(1, 2, &[b'n', b'x'], TokenType::And), TokenType::Ident);
}

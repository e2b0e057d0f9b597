use lunala::scanner::Scanner;
use lunala::tokens::TokenType;

#[test]
fn scan_counts_tokens_and_ends_with_eof() {
    let mut scanner = Scanner::new("2 + 3 * 4;");
    let tokens = scanner.scan_tokens().unwrap();
    // six well-formed tokens plus the end-of-input token
    assert_eq!(tokens.len(), 7);
    assert!(matches!(tokens[6].token_type(), TokenType::EOF));
    for t in tokens.iter().take(6) {
        assert!(!matches!(t.token_type(), TokenType::EOF));
    }
}

#[test]
fn scan_empty_input_yields_only_eof() {
    let mut scanner = Scanner::new("");
    let tokens = scanner.scan_tokens().unwrap();
    assert_eq!(tokens.len(), 1);
    assert!(matches!(tokens[0].token_type(), TokenType::EOF));
}

#[test]
fn string_literal_excludes_quotes() {
    let mut scanner = Scanner::new("\"abc\";");
    let tokens = scanner.scan_tokens().unwrap();
    assert_eq!(tokens.len(), 3);
    assert!(matches!(tokens[0].token_type(), TokenType::String));
    assert_eq!(tokens[0].access_lexeme(), "abc");
    assert!(matches!(tokens[1].token_type(), TokenType::Semicolon));
}

#[test]
fn unterminated_string_fails() {
    let mut scanner = Scanner::new("\"abc");
    let err = scanner.scan_tokens().unwrap_err();
    assert!(matches!(
        err.e_type,
        lunala::errors::ErrorTypes::UnterminatedString
    ));
}

#[test]
fn unknown_character_fails_with_invalid_token() {
    let mut scanner = Scanner::new("@");
    let err = scanner.scan_tokens().unwrap_err();
    match err.e_type {
        lunala::errors::ErrorTypes::InvalidToken(text) => assert_eq!(text, "@"),
        other => panic!("expected InvalidToken, got {:?}", other),
    }
}

#[test]
fn number_lexeme_keeps_fraction() {
    let mut scanner = Scanner::new("12.5;");
    let tokens = scanner.scan_tokens().unwrap();
    assert!(matches!(tokens[0].token_type(), TokenType::Number));
    assert_eq!(tokens[0].access_lexeme(), "12.5");
}

#[test]
fn trailing_dot_is_not_part_of_the_number() {
    let mut scanner = Scanner::new("12.;");
    let tokens = scanner.scan_tokens().unwrap();
    assert!(matches!(tokens[0].token_type(), TokenType::Number));
    assert_eq!(tokens[0].access_lexeme(), "12");
    assert!(matches!(tokens[1].token_type(), TokenType::Dot));
    assert!(matches!(tokens[2].token_type(), TokenType::Semicolon));
}

#[test]
fn two_character_operators_merge() {
    let mut scanner = Scanner::new("== <= >= != = < > !");
    let tokens = scanner.scan_tokens().unwrap();
    let kinds: Vec<TokenType> = tokens.iter().map(|t| t.token_type()).collect();
    assert_eq!(
        kinds,
        vec![
            TokenType::DoubleEquals,
            TokenType::LessEquals,
            TokenType::GreaterEquals,
            TokenType::BangEquals,
            TokenType::Equals,
            TokenType::LessThan,
            TokenType::GreaterThan,
            TokenType::Bang,
            TokenType::EOF,
        ]
    );
}

#[test]
fn keywords_map_and_identifiers_keep_text() {
    let mut scanner = Scanner::new("and or if let fn package print true false android");
    let tokens = scanner.scan_tokens().unwrap();
    let kinds: Vec<TokenType> = tokens.iter().map(|t| t.token_type()).collect();
    assert_eq!(
        kinds,
        vec![
            TokenType::And,
            TokenType::Or,
            TokenType::If,
            TokenType::Let,
            TokenType::Function,
            TokenType::Package,
            TokenType::Print,
            TokenType::True,
            TokenType::False,
            TokenType::Identifier,
            TokenType::EOF,
        ]
    );
    assert_eq!(tokens[9].access_lexeme(), "android");
}

#[test]
fn comment_runs_to_end_of_line() {
    let mut scanner = Scanner::new("1 // two three\n2");
    let tokens = scanner.scan_tokens().unwrap();
    let kinds: Vec<TokenType> = tokens.iter().map(|t| t.token_type()).collect();
    assert_eq!(
        kinds,
        vec![
            TokenType::Number,
            TokenType::Comment,
            TokenType::Number,
            TokenType::EOF,
        ]
    );
    assert_eq!(tokens[2].access_lexeme(), "2");
}

#[test]
fn lines_are_counted_and_never_decrease() {
    let mut scanner = Scanner::new("1;\n2;\n\n3;");
    let tokens = scanner.scan_tokens().unwrap();
    let lines: Vec<usize> = tokens.iter().map(|t| t.line).collect();
    assert_eq!(lines, vec![1, 1, 2, 2, 4, 4, 4]);
}

#[test]
fn single_character_tokens_scan() {
    let mut scanner = Scanner::new("*+-;.{}[]()%:'`/");
    let tokens = scanner.scan_tokens().unwrap();
    let kinds: Vec<TokenType> = tokens.iter().map(|t| t.token_type()).collect();
    assert_eq!(
        kinds,
        vec![
            TokenType::Star,
            TokenType::Plus,
            TokenType::Minus,
            TokenType::Semicolon,
            TokenType::Dot,
            TokenType::LeftCurlyBracket,
            TokenType::RightCurlyBracket,
            TokenType::LeftSquareBracket,
            TokenType::RightSquareBracket,
            TokenType::LeftBracket,
            TokenType::RightBracket,
            TokenType::Percent,
            TokenType::Colon,
            TokenType::SingleQuote,
            TokenType::AltQuote,
            TokenType::Slash,
            TokenType::EOF,
        ]
    );
}

#[test]
fn cursor_starts_before_the_text_and_advances_onto_each_character() {
    let mut scanner = Scanner::new("ab");
    assert_eq!(scanner.cursor, 0);
    assert!(!scanner.at_end());
    assert_eq!(scanner.current(), Some(&' '));
    assert_eq!(scanner.advance(), Some(&'a'));
    assert_eq!(scanner.cursor, 1);
    assert_eq!(scanner.current(), Some(&'a'));
    assert_eq!(scanner.peek(), Some(&'b'));
    assert_eq!(scanner.advance(), Some(&'b'));
    assert_eq!(scanner.cursor, 2);
    assert_eq!(scanner.peek(), None);
    assert!(!scanner.at_end());
    assert_eq!(scanner.advance(), None);
    assert_eq!(scanner.cursor, 3);
    assert!(scanner.at_end());
}

#[test]
fn empty_source_is_not_at_the_end_until_one_step_is_taken() {
    let mut scanner = Scanner::new("");
    assert!(!scanner.at_end());
    assert_eq!(scanner.advance(), None);
    assert!(scanner.at_end());
}

#[test]
fn number_and_alpha_end_on_the_last_consumed_character() {
    let mut scanner = Scanner::new("12.5;");
    assert_eq!(scanner.advance(), Some(&'1'));
    scanner.number();
    assert_eq!(scanner.cursor, 4);
    assert_eq!(scanner.current(), Some(&'5'));
    let mut scanner = Scanner::new("android ");
    assert_eq!(scanner.advance(), Some(&'a'));
    scanner.alpha();
    assert_eq!(scanner.cursor, 7);
    assert_eq!(scanner.current(), Some(&'d'));
}

#[test]
fn identifiers_may_hold_characters_beyond_ascii() {
    let mut scanner = Scanner::new("caf\u{e9};");
    let tokens = scanner.scan_tokens().unwrap();
    assert!(matches!(tokens[0].token_type(), TokenType::Identifier));
    assert_eq!(tokens[0].access_lexeme(), "caf\u{e9}");
    assert!(matches!(tokens[1].token_type(), TokenType::Semicolon));
    assert_eq!(tokens.len(), 3);
}

#[test]
fn identifiers_may_continue_with_alphanumerics_beyond_ascii() {
    // U+0663 is a digit under Unicode, so it continues a word but cannot
    // start a numeric literal.
    let mut scanner = Scanner::new("a\u{663};");
    let tokens = scanner.scan_tokens().unwrap();
    assert!(matches!(tokens[0].token_type(), TokenType::Identifier));
    assert_eq!(tokens[0].access_lexeme(), "a\u{663}");
    assert_eq!(tokens.len(), 3);
}

#[test]
fn whitespace_beyond_ascii_is_skipped() {
    // U+00A0 is a no-break space, which separates tokens and joins no word.
    let mut scanner = Scanner::new("a\u{a0}1\u{a0}+ 2;");
    let tokens = scanner.scan_tokens().unwrap();
    let kinds: Vec<TokenType> = tokens.iter().map(|t| t.token_type()).collect();
    assert_eq!(
        kinds,
        vec![
            TokenType::Identifier,
            TokenType::Number,
            TokenType::Plus,
            TokenType::Number,
            TokenType::Semicolon,
            TokenType::EOF,
        ]
    );
    assert_eq!(tokens[0].access_lexeme(), "a");
}

#[test]
fn keyword_table_lookup() {
    let keywords = lunala::tokens::ReservedKeywords::new();
    assert!(matches!(
        keywords.get(String::from("print")),
        Some(TokenType::Print)
    ));
    assert!(keywords.get(String::from("prints")).is_none());
    let mut keywords = keywords;
    keywords.insert("prints", TokenType::Print);
    assert!(matches!(
        keywords.get(String::from("prints")),
        Some(TokenType::Print)
    ));
}

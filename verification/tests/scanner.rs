use icfp_isl::scanner::{Scanner, ScannerError};
use icfp_isl::token::TokenType;

#[test]
fn scans_symbols() {
    let tokens = Scanner::scan_str("x X y Y [ ] , . \n 69 cut color swap merge").unwrap();

    let expected_tokens = vec![
        TokenType::Vertical,
        TokenType::Vertical,
        TokenType::Horizontal,
        TokenType::Horizontal,
        TokenType::LeftBrace,
        TokenType::RightBrace,
        TokenType::Comma,
        TokenType::Dot,
        TokenType::NewLine,
        TokenType::Number,
        TokenType::Cut,
        TokenType::Color,
        TokenType::Swap,
        TokenType::Merge,
        TokenType::Eof,
    ];

    assert_eq!(
        tokens.len(),
        expected_tokens.len(),
        "Incorrect number of tokens, expected {:?} got {:?}",
        tokens.len(),
        expected_tokens.len(),
    );

    expected_tokens
        .into_iter()
        .zip(tokens.into_iter().map(|t| t.token_type))
        .for_each(|(expected, token)| {
            assert_eq!(expected, token, "Expected {:?}, got {:?}", expected, token)
        });
}

#[test]
fn scans_number_value() {
    let tokens = Scanner::scan_str("1234").unwrap();
    assert_eq!(tokens.len(), 2);
    assert_eq!(tokens[0].token_type, TokenType::Number);
    assert_eq!(tokens[0].num, Some(1234));
    assert_eq!(tokens[1].token_type, TokenType::Eof);
}

#[test]
fn empty_source_scans_to_lone_eof() {
    let tokens = Scanner::scan_str("").unwrap();
    assert_eq!(tokens.len(), 1);
    assert_eq!(tokens[0].token_type, TokenType::Eof);
}

#[test]
fn eof_is_last_and_unique() {
    let tokens = Scanner::scan_str("cut [0] [1,2]\ncolor [0] [1,2,3,4]\n").unwrap();
    assert_eq!(tokens.last().unwrap().token_type, TokenType::Eof);
    let eofs = tokens
        .iter()
        .filter(|t| t.token_type == TokenType::Eof)
        .count();
    assert_eq!(eofs, 1);
}

#[test]
fn comment_emits_no_token_and_eats_its_newline() {
    let tokens = Scanner::scan_str("cut [0] [1,2] # note\ncut [0] [3,4]").unwrap();
    let newlines = tokens
        .iter()
        .filter(|t| t.token_type == TokenType::NewLine)
        .count();
    assert_eq!(newlines, 0);
    assert_eq!(tokens.iter().filter(|t| t.token_type == TokenType::Cut).count(), 2);
}

#[test]
fn newline_advances_line_counter() {
    let tokens = Scanner::scan_str("x\ny").unwrap();
    assert_eq!(tokens[0].position.line, 0);
    assert_eq!(tokens[2].position.line, 1);
}

#[test]
fn unexpected_identifier_is_an_error() {
    let result = Scanner::scan_str("cut [0] frobnicate [1,2]");
    assert!(matches!(result, Err(ScannerError::UnexpectedIdent(_))));
}

#[test]
fn number_beyond_u64_is_an_error() {
    let result = Scanner::scan_str("cut [99999999999999999999] [1,2]");
    assert!(matches!(result, Err(ScannerError::NumberTooLarge(_))));
}

#[test]
fn number_at_u64_max_is_accepted() {
    let tokens = Scanner::scan_str("18446744073709551615").unwrap();
    assert_eq!(tokens[0].num, Some(u64::MAX));
}

#[test]
fn spaces_and_unknown_bytes_emit_no_token() {
    let tokens = Scanner::scan_str("  x  !  y  ").unwrap();
    let kinds: Vec<TokenType> = tokens.iter().map(|t| t.token_type).collect();
    assert_eq!(
        kinds,
        vec![TokenType::Vertical, TokenType::Horizontal, TokenType::Eof]
    );
}

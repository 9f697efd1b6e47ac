use arith_compiler::tokenizer::{scan, scan_number, scan_symbol, scan_whitespace};
use arith_compiler::{tokenize, TokenKind, TokenizationContext, TokenizeError};

fn tokenization() -> TokenizationContext {
    TokenizationContext {
        ..Default::default()
    }
}

fn kinds(program: &str) -> Result<Vec<TokenKind>, TokenizeError> {
    tokenize(program.to_string()).map(|ts| ts.iter().map(|t| t.kind).collect())
}

#[test]
fn tokenize_with_empty_string() {
    let tokens = tokenize(String::new());
    assert!(tokens.is_ok() && tokens.unwrap()[0].kind == TokenKind::EndOfInput);
}

#[test]
fn tokenize_with_simple_addition_and_subtraction() {
    let expected = vec![
        TokenKind::Integer(100),
        TokenKind::Plus,
        TokenKind::Integer(200),
        TokenKind::Minus,
        TokenKind::EndOfInput,
    ];

    let tokens = tokenize("100 + 200 -".to_string());
    assert!(tokens.is_ok());
    let tokens = tokens.unwrap();

    assert_eq!(
        expected,
        tokens.iter().map(|t| t.kind).collect::<Vec<TokenKind>>()
    );
}

#[test]
fn scan_with_unimplemented_patterns() {
    let ctxt = tokenization();
    let (result, _length) = scan(&ctxt, "?");

    assert!(result.is_err());
}

#[test]
fn scan_whitespace_with_blank_and_number() {
    let ctxt = tokenization();
    let (result, length) = scan_whitespace(&ctxt, "    100");
    assert_eq!(4, length);
    assert!(result.is_ok());

    assert_eq!(TokenKind::Blank, result.unwrap().kind);
}

#[test]
fn scan_symbol_with_invalid_input() {
    let ctxt = tokenization();
    let (result, length) = scan_symbol(&ctxt, "100");
    assert_eq!(0, length);
    assert!(result.is_err());
}

#[test]
fn scan_symbol_with_valid_operator() {
    let ctxt = tokenization();
    let (result, length) = scan_symbol(&ctxt, "+");
    assert_eq!(1, length);
    assert!(result.is_ok());

    assert_eq!(TokenKind::Plus, result.unwrap().kind);
}

#[test]
fn scan_number_with_valid_string() {
    let ctxt = tokenization();
    let (result, length) = scan_number(&ctxt, "100");

    assert_eq!(3, length);
    assert!(result.is_ok());
    assert_eq!(TokenKind::Integer(100), result.unwrap().kind);
}

#[test]
fn scan_number_with_invalid_string() {
    let ctxt = tokenization();
    let (result, length) = scan_number(&ctxt, "Drumato");

    assert_eq!(0, length);
    assert!(result.is_err());
}

#[test]
fn empty_source_is_only_end_of_input() {
    assert_eq!(Ok(vec![TokenKind::EndOfInput]), kinds(""));
}

#[test]
fn question_mark_is_unmatched_and_consumes_nothing() {
    let ctxt = tokenization();
    let (result, length) = scan(&ctxt, "?");
    assert_eq!(Err(TokenizeError::UnmatchedCharacter { head: '?' }), result);
    assert_eq!(0, length);
    assert_eq!(Err(TokenizeError::UnmatchedCharacter { head: '?' }), kinds("?"));
}

#[test]
fn tokenizing_twice_gives_the_same_tokens() {
    let source = "7 - 3 + 12";
    assert_eq!(kinds(source), kinds(source));
    assert_eq!(kinds("1 ?"), kinds("1 ?"));
}

#[test]
fn operator_needs_a_space_after_it() {
    assert_eq!(Err(TokenizeError::UnmatchedCharacter { head: '+' }), kinds("1 +2"));
    assert_eq!(Err(TokenizeError::UnmatchedCharacter { head: '-' }), kinds("1 -\t2"));
    assert_eq!(Err(TokenizeError::UnmatchedCharacter { head: '+' }), kinds("++"));
}

#[test]
fn digits_followed_by_operator_split() {
    assert_eq!(
        Ok(vec![TokenKind::Integer(1), TokenKind::Plus, TokenKind::Integer(2), TokenKind::EndOfInput]),
        kinds("1+ 2")
    );
}

#[test]
fn whitespace_runs_are_dropped() {
    assert_eq!(
        Ok(vec![TokenKind::Integer(5), TokenKind::Minus, TokenKind::Integer(6), TokenKind::EndOfInput]),
        kinds(" \t5\n -  6\r\n")
    );
    assert_eq!(
        Ok(vec![TokenKind::Integer(5), TokenKind::EndOfInput]),
        kinds("\u{3000}5\u{a0}")
    );
}

#[test]
fn largest_literal_is_accepted() {
    assert_eq!(
        Ok(vec![TokenKind::Integer(i128::MAX), TokenKind::EndOfInput]),
        kinds("170141183460469231731687303715884105727")
    );
}

#[test]
fn literal_above_the_range_overflows() {
    assert_eq!(
        Err(TokenizeError::NumericOverflow),
        kinds("170141183460469231731687303715884105728")
    );
    assert_eq!(
        Err(TokenizeError::NumericOverflow),
        kinds("1 + 99999999999999999999999999999999999999999999")
    );
    let ctxt = tokenization();
    let (result, length) = scan_number(&ctxt, "999999999999999999999999999999999999999999 1");
    assert_eq!(Err(TokenizeError::NumericOverflow), result);
    assert_eq!(0, length);
}

#[test]
fn leading_zeros_are_read_in_base_ten() {
    assert_eq!(Ok(vec![TokenKind::Integer(42), TokenKind::EndOfInput]), kinds("0042"));
}

#[test]
fn scan_at_offset_reads_from_the_cursor() {
    let ctxt = TokenizationContext { offset: 3 };
    let (result, length) = scan(&ctxt, "12 + 345");
    assert_eq!(TokenKind::Plus, result.unwrap().kind);
    assert_eq!(1, length);
    let ctxt = TokenizationContext { offset: 2 };
    let (result, length) = scan(&ctxt, "12 + 345");
    assert_eq!(TokenKind::Blank, result.unwrap().kind);
    assert_eq!(1, length);
    let ctxt = TokenizationContext { offset: 5 };
    let (result, length) = scan(&ctxt, "12 + 345");
    assert_eq!(TokenKind::Integer(345), result.unwrap().kind);
    assert_eq!(3, length);
    let ctxt = TokenizationContext { offset: 8 };
    let (result, length) = scan(&ctxt, "12 + 345");
    assert_eq!(TokenKind::EndOfInput, result.unwrap().kind);
    assert_eq!(0, length);
}

#[test]
fn unmatched_character_in_the_middle() {
    assert_eq!(Err(TokenizeError::UnmatchedCharacter { head: 'x' }), kinds("1 + x"));
    assert_eq!(Err(TokenizeError::UnmatchedCharacter { head: 'é' }), kinds("é"));
}

#[test]
fn should_ignore_only_blank() {
    assert!(TokenKind::Blank.should_ignore());
    assert!(!TokenKind::Plus.should_ignore());
    assert!(!TokenKind::Integer(3).should_ignore());
    assert!(!TokenKind::EndOfInput.should_ignore());
}

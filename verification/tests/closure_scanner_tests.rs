use rb_tokenizer::scanners::closure_scanner::ClosureScanner;
use rb_tokenizer::scanners::scanner_types::CallbackScanner;
use rb_tokenizer::tokens::{Token, TokenizationError};

struct PrefixCallback;

impl CallbackScanner for PrefixCallback {
    fn scan(&self, input: &str) -> Result<Option<Token>, TokenizationError> {
        if input.starts_with("test") {
            Ok(Some(Token {
                token_type: "TEST".to_string(),
                token_sub_type: None,
                value: "test".to_string(),
                line: 0,
                column: 0,
            }))
        } else {
            Ok(None)
        }
    }
}

struct ErrorCallback;

impl CallbackScanner for ErrorCallback {
    fn scan(&self, input: &str) -> Result<Option<Token>, TokenizationError> {
        if input.starts_with("error") {
            Err(TokenizationError::UnrecognizedToken("Test error".to_string()))
        } else {
            Ok(None)
        }
    }
}

struct PositionCallback;

impl CallbackScanner for PositionCallback {
    fn scan(&self, input: &str) -> Result<Option<Token>, TokenizationError> {
        if input.starts_with("pos") {
            Ok(Some(Token {
                token_type: "POSITION".to_string(),
                token_sub_type: None,
                value: "pos".to_string(),
                line: 0, // These will be overwritten by the line/column params
                column: 0,
            }))
        } else {
            Ok(None)
        }
    }
}

#[test]
fn test_basic_closure_scanner() {
    let scanner = ClosureScanner::new(Box::new(PrefixCallback));

    // Test matching input
    let result = scanner.scan("test_string", 0, 0);
    assert!(result.is_ok());
    let token_option = result.unwrap();
    assert!(token_option.is_some());
    let token = token_option.unwrap();
    assert_eq!(token.token_type, "TEST");
    assert_eq!(token.value, "test");

    // Test non-matching input
    let result = scanner.scan("not_matching", 0, 0);
    assert!(result.is_ok());
    let token_option = result.unwrap();
    assert!(token_option.is_none());
}

#[test]
fn test_closure_scanner_with_error() {
    let scanner = ClosureScanner::new(Box::new(ErrorCallback));

    // Test input that causes an error
    let result = scanner.scan("error_case", 0, 0);
    assert!(result.is_err());
    let error = result.err().unwrap();
    match error {
        TokenizationError::UnrecognizedToken(msg) => assert_eq!(msg, "Test error"),
        _ => panic!("Expected UnrecognizedToken variant"),
    }
}

#[test]
fn test_closure_scanner_with_position_tracking() {
    let scanner = ClosureScanner::new(Box::new(PositionCallback));

    // Test with specific line and column positions
    let result = scanner.scan("pos_test", 10, 20);
    assert!(result.is_ok());
    let token_option = result.unwrap();
    assert!(token_option.is_some());
    let token = token_option.unwrap();
    assert_eq!(token.line, 10);
    assert_eq!(token.column, 20);
}
